use keytone::mixer::sound_event_based::{Mixer, SoundEvent};

fn plus(a: f32, b: f32) -> f32 {
    a + b
}

fn drain(mixer: &mut Mixer<f32>) -> Vec<Vec<f32>> {
    let mut frames = Vec::new();
    while let Some(frame) = mixer.generate_frame() {
        frames.push(frame);
    }
    frames
}

#[test]
fn an_empty_mixer_yields_no_frame() {
    let mut mixer = Mixer::new(vec![vec![1.0f32, 2.0]], 2, 0.0);
    assert_eq!(mixer.slot_count(), 1);
    assert_eq!(mixer.pending_frames(), 0);
    assert_eq!(mixer.generate_frame(), None);
    assert_eq!(mixer.generate_frame(), None);
}

#[test]
fn a_clip_of_three_frames_yields_three_frames_then_nothing() {
    let clip: Vec<f32> = (1..=12).map(|i| i as f32).collect();
    let mut mixer = Mixer::new(vec![clip], 4, 0.0);
    mixer.push_event(SoundEvent::Known(0), plus);
    assert_eq!(mixer.pending_frames(), 3);
    assert_eq!(mixer.generate_frame(), Some(vec![1.0, 2.0, 3.0, 4.0]));
    assert_eq!(mixer.generate_frame(), Some(vec![5.0, 6.0, 7.0, 8.0]));
    assert_eq!(mixer.generate_frame(), Some(vec![9.0, 10.0, 11.0, 12.0]));
    assert_eq!(mixer.generate_frame(), None);
    assert_eq!(mixer.generate_frame(), None);
    mixer.push_event(SoundEvent::Known(0), plus);
    assert_eq!(mixer.generate_frame(), Some(vec![1.0, 2.0, 3.0, 4.0]));
}

#[test]
fn clips_one_frame_apart_are_summed_where_they_overlap() {
    let clip: Vec<f32> = vec![1.0, 2.0, 3.0, 4.0, 5.0, 6.0];
    let mut mixer = Mixer::new(vec![clip], 2, 0.0);
    mixer.push_event(SoundEvent::Known(0), plus);
    assert_eq!(mixer.generate_frame(), Some(vec![1.0, 2.0]));
    mixer.push_event(SoundEvent::Known(0), plus);
    assert_eq!(
        drain(&mut mixer),
        vec![vec![3.0 + 1.0, 4.0 + 2.0], vec![5.0 + 3.0, 6.0 + 4.0], vec![5.0, 6.0]]
    );
}

#[test]
fn clips_pushed_together_are_summed_sample_by_sample() {
    let mut mixer = Mixer::new(vec![vec![1.0f32, 2.0, 3.0], vec![10.0, 20.0, 30.0, 40.0, 50.0]], 2, 0.0);
    mixer.push_event(SoundEvent::Known(0), plus);
    mixer.push_event(SoundEvent::Known(1), plus);
    assert_eq!(drain(&mut mixer), vec![vec![11.0, 22.0], vec![33.0, 40.0], vec![50.0, 0.0]]);
}

#[test]
fn a_partial_last_frame_is_padded_with_silence() {
    let mut mixer = Mixer::new(vec![vec![1.0f32, 2.0, 3.0, 4.0, 5.0]], 4, 0.0);
    mixer.push_event(SoundEvent::Known(0), plus);
    assert_eq!(mixer.pending_frames(), 2);
    assert_eq!(drain(&mut mixer), vec![vec![1.0, 2.0, 3.0, 4.0], vec![5.0, 0.0, 0.0, 0.0]]);
}

#[test]
fn new_frames_are_filled_with_the_configured_silence() {
    let mut mixer = Mixer::new(vec![vec![1.0f32, 2.0, 3.0]], 2, 0.5);
    mixer.push_event(SoundEvent::Known(0), plus);
    assert_eq!(drain(&mut mixer), vec![vec![1.5, 2.5], vec![3.5, 0.5]]);
}

#[test]
fn an_unknown_clip_is_played_like_a_known_one() {
    let mut mixer = Mixer::new(vec![vec![1.0f32, 1.0]], 2, 0.0);
    mixer.push_event(SoundEvent::Unknown(vec![7.0, 8.0, 9.0]), plus);
    mixer.push_event(SoundEvent::Known(0), plus);
    assert_eq!(drain(&mut mixer), vec![vec![8.0, 9.0], vec![9.0, 0.0]]);
}

#[test]
fn an_empty_clip_queues_nothing() {
    let mut mixer = Mixer::new(vec![vec![]], 3, 0.0f32);
    mixer.push_event(SoundEvent::Known(0), plus);
    mixer.push_event(SoundEvent::Unknown(vec![]), plus);
    assert_eq!(mixer.pending_frames(), 0);
    assert_eq!(mixer.generate_frame(), None);
}

#[test]
fn every_frame_has_the_frame_size() {
    for len in 0..20usize {
        let clip: Vec<f32> = (0..len).map(|i| i as f32).collect();
        let mut mixer = Mixer::new(vec![], 6, 0.0);
        mixer.push_event(SoundEvent::Unknown(clip), plus);
        assert_eq!(mixer.pending_frames(), (len + 5) / 6);
        for frame in drain(&mut mixer) {
            assert_eq!(frame.len(), 6);
        }
    }
}

#[test]
fn the_queued_sample_is_the_first_argument_of_the_sum() {
    let mut mixer = Mixer::new(vec![], 2, 1u32);
    mixer.push_event(SoundEvent::Unknown(vec![5, 6, 7]), |a: u32, b: u32| a * 10 + b);
    mixer.push_event(SoundEvent::Unknown(vec![2]), |a: u32, b: u32| a * 10 + b);
    assert_eq!(mixer.generate_frame(), Some(vec![152, 16]));
    assert_eq!(mixer.generate_frame(), Some(vec![17, 1]));
}
