use keytone::mixer::key_state_based::{KeyState, MixerKey};
use keytone::sound::key::Key;

fn envelope() -> Key<i32> {
    Key { start: vec![10, 11, 12, 13], maintain: vec![20, 21], stop: vec![30, 31], frame_size: 2 }
}

fn take(voice: &mut MixerKey<i32>, n: usize) -> Vec<i32> {
    let mut out = Vec::new();
    for _ in 0..n {
        out.push(voice.take_value());
    }
    out
}

/// Presses, holds for `held` samples, releases, and counts every sample up to silence.
fn lifetime(key: Key<i32>, held: usize) -> usize {
    let mut voice = MixerKey::from_key(key);
    voice.restart();
    let mut total = 0;
    for _ in 0..held {
        assert!(!voice.state().is_stopped());
        voice.take_value();
        total += 1;
    }
    voice.stop();
    while !voice.state().is_stopped() {
        voice.take_value();
        total += 1;
    }
    total
}

#[test]
fn is_stopped_only_for_stopped() {
    assert!(KeyState::Stopped.is_stopped());
    assert!(!KeyState::Starting.is_stopped());
    assert!(!KeyState::Maintaining.is_stopped());
    assert!(!KeyState::Stopping.is_stopped());
}

#[test]
fn a_new_voice_is_stopped() {
    let voice = MixerKey::from_key(envelope());
    assert_eq!(voice.state(), KeyState::Stopped);
    assert_eq!(voice.pending_state(), None);
    assert_eq!(voice.cursor(), 0);
}

#[test]
fn press_starts_a_stopped_voice_at_once() {
    let mut voice = MixerKey::from_key(envelope());
    voice.restart();
    assert_eq!(voice.state(), KeyState::Starting);
    assert_eq!(voice.cursor(), 0);
    assert_eq!(voice.pending_state(), None);
}

#[test]
fn a_held_voice_plays_the_attack_then_loops_the_sustain() {
    let mut voice = MixerKey::from_key(envelope());
    voice.restart();
    assert_eq!(take(&mut voice, 4), vec![10, 11, 12, 13]);
    assert_eq!(voice.state(), KeyState::Maintaining);
    assert_eq!(voice.cursor(), 0);
    assert_eq!(take(&mut voice, 5), vec![20, 21, 20, 21, 20]);
    assert_eq!(voice.state(), KeyState::Maintaining);
    assert_eq!(voice.cursor(), 1);
}

#[test]
fn next_state_follows_the_envelope() {
    let mut voice = MixerKey::from_key(envelope());
    voice.restart();
    assert_eq!(voice.next_state(), KeyState::Maintaining);
    take(&mut voice, 4);
    assert_eq!(voice.next_state(), KeyState::Maintaining);
    voice.stop();
    take(&mut voice, 2);
    assert_eq!(voice.state(), KeyState::Stopping);
    assert_eq!(voice.next_state(), KeyState::Stopped);
}

#[test]
fn release_waits_for_the_period_boundary() {
    let mut voice = MixerKey::from_key(envelope());
    voice.restart();
    take(&mut voice, 5);
    voice.stop();
    assert_eq!(voice.state(), KeyState::Maintaining);
    assert_eq!(voice.pending_state(), Some(KeyState::Stopping));
    assert_eq!(voice.take_value(), 21);
    assert_eq!(voice.state(), KeyState::Stopping);
    assert_eq!(voice.pending_state(), None);
    assert_eq!(voice.cursor(), 0);
    assert_eq!(take(&mut voice, 2), vec![30, 31]);
    assert_eq!(voice.state(), KeyState::Stopped);
}

#[test]
fn a_request_never_commits_before_the_next_boundary() {
    let key = Key {
        start: vec![],
        maintain: vec![1, 2, 3, 4, 5],
        stop: vec![9, 9, 9, 9, 9],
        frame_size: 5,
    };
    for at in 0..5usize {
        let mut voice = MixerKey::from_key(Key {
            start: key.start.clone(),
            maintain: key.maintain.clone(),
            stop: key.stop.clone(),
            frame_size: key.frame_size,
        });
        voice.restart();
        take(&mut voice, at);
        voice.stop();
        for cursor in at + 1..5 {
            voice.take_value();
            assert_eq!(voice.state(), KeyState::Maintaining);
            assert_eq!(voice.cursor(), cursor);
            assert_eq!(voice.pending_state(), Some(KeyState::Stopping));
        }
        voice.take_value();
        assert_eq!(voice.state(), KeyState::Stopping);
        assert_eq!(voice.cursor(), 0);
    }
}

#[test]
fn release_on_a_boundary_waits_for_the_following_one() {
    let mut voice = MixerKey::from_key(envelope());
    voice.restart();
    take(&mut voice, 4);
    assert_eq!(voice.cursor(), 0);
    voice.stop();
    assert_eq!(take(&mut voice, 2), vec![20, 21]);
    assert_eq!(voice.state(), KeyState::Stopping);
}

#[test]
fn lifetime_is_attack_plus_whole_sustain_periods_plus_release() {
    // attack 4, period 2, release 2
    assert_eq!(lifetime(envelope(), 2), 4 + 0 * 2 + 2);
    assert_eq!(lifetime(envelope(), 3), 4 + 0 * 2 + 2);
    assert_eq!(lifetime(envelope(), 4), 4 + 1 * 2 + 2);
    assert_eq!(lifetime(envelope(), 5), 4 + 1 * 2 + 2);
    assert_eq!(lifetime(envelope(), 6), 4 + 2 * 2 + 2);
    assert_eq!(lifetime(envelope(), 11), 4 + 4 * 2 + 2);
}

#[test]
fn a_release_early_in_the_attack_cuts_the_attack_short() {
    assert_eq!(lifetime(envelope(), 0), 2 + 2);
    assert_eq!(lifetime(envelope(), 1), 2 + 2);
}

#[test]
fn release_is_ignored_while_stopping_or_stopped() {
    let mut voice = MixerKey::from_key(envelope());
    voice.stop();
    assert_eq!(voice.state(), KeyState::Stopped);
    assert_eq!(voice.pending_state(), None);
    voice.restart();
    take(&mut voice, 4);
    voice.stop();
    take(&mut voice, 2);
    assert_eq!(voice.state(), KeyState::Stopping);
    voice.stop();
    assert_eq!(voice.pending_state(), None);
}

#[test]
fn press_while_sounding_restarts_at_the_boundary() {
    let mut voice = MixerKey::from_key(envelope());
    voice.restart();
    take(&mut voice, 5);
    voice.restart();
    assert_eq!(voice.state(), KeyState::Maintaining);
    assert_eq!(voice.pending_state(), Some(KeyState::Starting));
    assert_eq!(voice.take_value(), 21);
    assert_eq!(voice.state(), KeyState::Starting);
    assert_eq!(take(&mut voice, 2), vec![10, 11]);
}

#[test]
fn a_press_in_the_last_release_period_is_dropped_when_the_release_ends() {
    let mut voice = MixerKey::from_key(envelope());
    voice.restart();
    take(&mut voice, 4);
    voice.stop();
    take(&mut voice, 3);
    assert_eq!(voice.state(), KeyState::Stopping);
    voice.restart();
    assert_eq!(voice.pending_state(), Some(KeyState::Starting));
    assert_eq!(voice.take_value(), 31);
    assert_eq!(voice.state(), KeyState::Stopped);
    assert_eq!(voice.pending_state(), None);
    assert_eq!(voice.cursor(), 0);
}

#[test]
fn a_press_on_the_first_sample_of_a_one_period_release_is_dropped_too() {
    let mut voice = MixerKey::from_key(envelope());
    voice.restart();
    take(&mut voice, 4);
    voice.stop();
    take(&mut voice, 2);
    assert_eq!(voice.state(), KeyState::Stopping);
    assert_eq!(voice.cursor(), 0);
    voice.restart();
    assert_eq!(take(&mut voice, 2), vec![30, 31]);
    assert_eq!(voice.state(), KeyState::Stopped);
    assert_eq!(voice.pending_state(), None);
}

#[test]
fn a_press_early_in_a_long_release_restarts_at_the_boundary() {
    let key = Key {
        start: vec![10, 11],
        maintain: vec![20, 21],
        stop: vec![30, 31, 32, 33],
        frame_size: 2,
    };
    let mut voice = MixerKey::from_key(key);
    voice.restart();
    take(&mut voice, 2);
    voice.stop();
    take(&mut voice, 3);
    assert_eq!(voice.state(), KeyState::Stopping);
    assert_eq!(voice.cursor(), 1);
    voice.restart();
    assert_eq!(voice.take_value(), 31);
    assert_eq!(voice.state(), KeyState::Starting);
    assert_eq!(voice.pending_state(), None);
    assert_eq!(voice.cursor(), 0);
    assert_eq!(take(&mut voice, 2), vec![10, 11]);
}

#[test]
fn a_voice_that_stopped_over_a_press_starts_afresh_on_the_next_press() {
    let mut voice = MixerKey::from_key(envelope());
    voice.restart();
    take(&mut voice, 4);
    voice.stop();
    take(&mut voice, 3);
    voice.restart();
    voice.take_value();
    assert_eq!(voice.state(), KeyState::Stopped);
    voice.restart();
    assert_eq!(voice.state(), KeyState::Starting);
    assert_eq!(take(&mut voice, 6), vec![10, 11, 12, 13, 20, 21]);
    assert_eq!(voice.state(), KeyState::Maintaining);
}

#[test]
fn force_stop_silences_at_once() {
    let mut voice = MixerKey::from_key(envelope());
    voice.restart();
    take(&mut voice, 1);
    voice.force_stop();
    assert_eq!(voice.state(), KeyState::Stopped);
    voice.restart();
    assert_eq!(voice.state(), KeyState::Starting);
    assert_eq!(voice.cursor(), 0);
    assert_eq!(voice.take_value(), 10);
}

#[test]
fn an_empty_attack_is_passed_through_at_once() {
    let key = Key { start: vec![], maintain: vec![20, 21], stop: vec![30, 31], frame_size: 2 };
    let mut voice = MixerKey::from_key(key);
    voice.restart();
    assert_eq!(voice.state(), KeyState::Maintaining);
    assert_eq!(take(&mut voice, 3), vec![20, 21, 20]);
}

#[test]
fn an_empty_release_is_passed_through_at_once() {
    let key = Key { start: vec![10, 11], maintain: vec![20, 21], stop: vec![], frame_size: 2 };
    let mut voice = MixerKey::from_key(key);
    voice.restart();
    take(&mut voice, 3);
    voice.stop();
    assert_eq!(voice.take_value(), 21);
    assert_eq!(voice.state(), KeyState::Stopped);
    assert_eq!(voice.pending_state(), None);
}

#[test]
fn lifetime_with_empty_segments() {
    let bare = || Key { start: vec![], maintain: vec![1, 2, 3], stop: vec![], frame_size: 3 };
    assert_eq!(lifetime(bare(), 0), 3);
    assert_eq!(lifetime(bare(), 2), 3);
    assert_eq!(lifetime(bare(), 3), 6);
    assert_eq!(lifetime(bare(), 7), 9);
}

#[test]
fn segment_follows_the_state() {
    let mut voice = MixerKey::from_key(envelope());
    voice.restart();
    assert_eq!(voice.segment(), &vec![10, 11, 12, 13]);
    take(&mut voice, 4);
    assert_eq!(voice.segment(), &vec![20, 21]);
    voice.stop();
    take(&mut voice, 2);
    assert_eq!(voice.segment(), &vec![30, 31]);
}

#[test]
fn a_request_can_commit_on_multiples_of_the_period_only() {
    let key = Key { start: vec![], maintain: vec![1, 2, 3], stop: vec![], frame_size: 3 };
    let mut voice = MixerKey::from_key(key);
    voice.restart();
    assert!(voice.can_commit());
    voice.take_value();
    assert!(!voice.can_commit());
    voice.take_value();
    assert!(!voice.can_commit());
    voice.take_value();
    assert!(voice.can_commit());
    assert_eq!(voice.cursor(), 0);
}
