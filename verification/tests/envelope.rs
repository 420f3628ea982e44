use keytone::sound::key::{smallest_multiple, Key};

fn scale(v: f32, num: usize, den: usize) -> f32 {
    v * num as f32 / den as f32
}

#[test]
fn smallest_multiple_rounds_down() {
    assert_eq!(smallest_multiple(10, 4), 8);
    assert_eq!(smallest_multiple(8, 4), 8);
    assert_eq!(smallest_multiple(3, 4), 0);
    assert_eq!(smallest_multiple(0, 7), 0);
    assert_eq!(smallest_multiple(7, 1), 7);
}

#[test]
fn from_pattern_fades_in_linearly() {
    let pattern = [1.0f32, 2.0];
    let key = Key::from_pattern(&pattern, 2, 1, scale);
    // sample i of the attack is pattern[i % 2] * i / 4
    assert_eq!(key.start, vec![0.0, 0.5, 0.5, 1.5]);
}

#[test]
fn from_pattern_fades_out_linearly() {
    let pattern = [1.0f32, 2.0];
    let key = Key::from_pattern(&pattern, 1, 2, scale);
    // sample i of the release is pattern[i % 2] * (4 - i - 1) / 4
    assert_eq!(key.stop, vec![0.75, 1.0, 0.25, 0.0]);
}

#[test]
fn from_pattern_keeps_one_period_as_sustain() {
    let pattern = [1.0f32, -1.0, 0.5];
    let key = Key::from_pattern(&pattern, 2, 3, scale);
    assert_eq!(key.frame_size, 3);
    assert_eq!(key.maintain, vec![1.0, -1.0, 0.5]);
}

#[test]
fn from_pattern_lengths_are_whole_periods() {
    let pattern = [1.0f32, -1.0, 0.5];
    for start in 0..5usize {
        for stop in 0..5usize {
            let key = Key::from_pattern(&pattern, start, stop, scale);
            assert_eq!(key.start.len(), 3 * start);
            assert_eq!(key.stop.len(), 3 * stop);
            assert_eq!(key.start.len() % key.frame_size, 0);
            assert_eq!(key.stop.len() % key.frame_size, 0);
        }
    }
}

#[test]
fn from_pattern_with_no_periods_has_empty_segments() {
    let pattern = [0.25f32, 0.5];
    let key = Key::from_pattern(&pattern, 0, 0, scale);
    assert!(key.start.is_empty());
    assert!(key.stop.is_empty());
    assert_eq!(key.maintain, vec![0.25, 0.5]);
}

#[test]
fn first_attack_sample_and_last_release_sample_are_silent() {
    let pattern = [0.5f32, 0.25, -0.5, -0.25];
    let key = Key::from_pattern(&pattern, 3, 2, scale);
    assert_eq!(key.start[0], 0.0);
    assert_eq!(key.stop[key.stop.len() - 1], 0.0);
}

#[test]
fn from_pattern_timed_rounds_down_to_whole_periods() {
    let pattern = [1.0f32, -1.0, 0.5];
    let key = Key::from_pattern_timed(&pattern, 10, 2, scale);
    assert_eq!(key.start.len(), 9);
    assert_eq!(key.stop.len(), 0);
    assert_eq!(key.frame_size, 3);
    let exact = Key::from_pattern_timed(&pattern, 6, 3, scale);
    assert_eq!(exact.start.len(), 6);
    assert_eq!(exact.stop.len(), 3);
}

#[test]
fn from_pattern_timed_agrees_with_from_pattern() {
    let pattern = [1.0f32, 2.0];
    let timed = Key::from_pattern_timed(&pattern, 5, 3, scale);
    let counted = Key::from_pattern(&pattern, 2, 1, scale);
    assert_eq!(timed.start, counted.start);
    assert_eq!(timed.maintain, counted.maintain);
    assert_eq!(timed.stop, counted.stop);
    assert_eq!(timed.frame_size, counted.frame_size);
}

#[test]
fn to_sound_is_attack_then_sustain_then_release() {
    let key = Key { start: vec![1, 2], maintain: vec![3, 4], stop: vec![5, 6, 7, 8], frame_size: 2 };
    assert_eq!(key.to_sound(), vec![1, 2, 3, 4, 5, 6, 7, 8]);
}

#[test]
fn scale_is_applied_with_the_documented_arguments() {
    let pattern = [7u32, 9];
    let calls = |v: u32, num: usize, den: usize| v * 10000 + (num as u32) * 100 + den as u32;
    let key = Key::from_pattern(&pattern, 1, 1, calls);
    assert_eq!(key.start, vec![70002, 90102]);
    assert_eq!(key.stop, vec![70102, 90002]);
}
