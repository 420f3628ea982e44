use keytone::source::event_based::Source;
use tokio::sync::mpsc;

fn pull(source: &mut Source<f32>, n: usize) -> Vec<f32> {
    let mut out = Vec::new();
    for _ in 0..n {
        out.push(source.next().unwrap());
    }
    out
}

#[test]
fn an_empty_queue_gives_the_default_frame_again_and_again() {
    let (_frame_tx, frame_rx) = mpsc::channel::<Vec<f32>>(4);
    let (done_tx, _done_rx) = mpsc::channel::<()>(4);
    let mut source = Source::new(frame_rx, done_tx, 48_000, vec![0.0, 0.0, 0.0]);
    assert_eq!(pull(&mut source, 10), vec![0.0; 10]);
}

#[test]
fn the_default_frame_is_played_in_order() {
    let (_frame_tx, frame_rx) = mpsc::channel::<Vec<f32>>(4);
    let (done_tx, _done_rx) = mpsc::channel::<()>(4);
    let mut source = Source::new(frame_rx, done_tx, 48_000, vec![0.1, 0.2, 0.3]);
    assert_eq!(pull(&mut source, 7), vec![0.1, 0.2, 0.3, 0.1, 0.2, 0.3, 0.1]);
}

#[test]
fn a_queued_frame_is_played_when_the_current_one_is_used_up() {
    let (frame_tx, frame_rx) = mpsc::channel::<Vec<f32>>(4);
    let (done_tx, _done_rx) = mpsc::channel::<()>(4);
    let mut source = Source::new(frame_rx, done_tx, 48_000, vec![0.0, 0.0]);
    frame_tx.try_send(vec![1.0, 2.0, 3.0]).unwrap();
    frame_tx.try_send(vec![4.0]).unwrap();
    assert_eq!(pull(&mut source, 8), vec![0.0, 0.0, 1.0, 2.0, 3.0, 4.0, 0.0, 0.0]);
}

#[test]
fn a_used_up_frame_is_signalled() {
    let (_frame_tx, frame_rx) = mpsc::channel::<Vec<f32>>(4);
    let (done_tx, mut done_rx) = mpsc::channel::<()>(4);
    let mut source = Source::new(frame_rx, done_tx, 48_000, vec![0.0, 0.0]);
    pull(&mut source, 2);
    assert!(done_rx.try_recv().is_err());
    pull(&mut source, 1);
    assert_eq!(done_rx.try_recv(), Ok(()));
    assert!(done_rx.try_recv().is_err());
    pull(&mut source, 2);
    assert_eq!(done_rx.try_recv(), Ok(()));
}

#[test]
fn a_full_signal_queue_is_ignored() {
    let (_frame_tx, frame_rx) = mpsc::channel::<Vec<f32>>(1);
    let (done_tx, mut done_rx) = mpsc::channel::<()>(1);
    let mut source = Source::new(frame_rx, done_tx, 48_000, vec![0.5]);
    assert_eq!(pull(&mut source, 6), vec![0.5; 6]);
    assert_eq!(done_rx.try_recv(), Ok(()));
    assert!(done_rx.try_recv().is_err());
}

#[test]
fn closed_channels_degrade_to_silence() {
    let (frame_tx, frame_rx) = mpsc::channel::<Vec<f32>>(1);
    let (done_tx, done_rx) = mpsc::channel::<()>(1);
    let mut source = Source::new(frame_rx, done_tx, 48_000, vec![0.0, 0.0]);
    drop(frame_tx);
    drop(done_rx);
    assert_eq!(pull(&mut source, 5), vec![0.0; 5]);
}

#[test]
fn a_frame_without_samples_is_replaced_by_the_default_frame() {
    let (frame_tx, frame_rx) = mpsc::channel::<Vec<f32>>(4);
    let (done_tx, _done_rx) = mpsc::channel::<()>(4);
    let mut source = Source::new(frame_rx, done_tx, 48_000, vec![0.25]);
    frame_tx.try_send(vec![]).unwrap();
    frame_tx.try_send(vec![1.0]).unwrap();
    assert_eq!(pull(&mut source, 4), vec![0.25, 0.25, 1.0, 0.25]);
}

#[test]
fn advance_ignores_the_offer_while_the_current_frame_lasts() {
    let (_frame_tx, frame_rx) = mpsc::channel::<Vec<f32>>(1);
    let (done_tx, _done_rx) = mpsc::channel::<()>(1);
    let mut source = Source::new(frame_rx, done_tx, 44_100, vec![0.0, 0.5]);
    assert!(!source.exhausted());
    assert_eq!(source.advance(Some(vec![9.0])), 0.0);
    assert_eq!(source.advance(None), 0.5);
    assert!(source.exhausted());
}

#[test]
fn advance_adopts_the_offer_when_the_current_frame_is_used_up() {
    let (_frame_tx, frame_rx) = mpsc::channel::<Vec<f32>>(1);
    let (done_tx, _done_rx) = mpsc::channel::<()>(1);
    let mut source = Source::new(frame_rx, done_tx, 44_100, vec![0.0]);
    assert_eq!(source.advance(None), 0.0);
    assert_eq!(source.advance(Some(vec![7.0, 8.0])), 7.0);
    assert!(!source.exhausted());
    assert_eq!(source.advance(Some(vec![1.0])), 8.0);
    assert_eq!(source.advance(None), 0.0);
    assert_eq!(source.advance(Some(vec![])), 0.0);
}

#[test]
fn the_source_is_mono_at_the_declared_rate() {
    let (_frame_tx, frame_rx) = mpsc::channel::<Vec<f32>>(1);
    let (done_tx, _done_rx) = mpsc::channel::<()>(1);
    let source = Source::new(frame_rx, done_tx, 49_152, vec![0.0]);
    assert_eq!(source.sample_rate(), 49_152);
    assert_eq!(source.channels(), 1);
    assert_eq!(source.current_frame_len(), None);
}
