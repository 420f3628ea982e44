//! A sample source fed with whole frames over a channel, which falls back to
//! a default frame whenever no frame is ready.

use tokio::sync::mpsc::error::{TryRecvError, TrySendError};
use tokio::sync::mpsc::{Receiver, Sender};
use vstd::prelude::*;

verus! {

/// The receiving half of a bounded tokio channel, `tokio::sync::mpsc::Receiver`.
/// Nothing is known of what it holds.
#[verifier::external_type_specification]
#[verifier::external_body]
#[verifier::reject_recursive_types(T)]
pub struct ExReceiver<T>(Receiver<T>);

/// The sending half of a bounded tokio channel, `tokio::sync::mpsc::Sender`.
/// Nothing is known of what it holds.
#[verifier::external_type_specification]
#[verifier::external_body]
#[verifier::reject_recursive_types(T)]
pub struct ExSender<T>(Sender<T>);

/// `tokio::sync::mpsc::error::TryRecvError`: why `try_recv` handed out no value.
#[verifier::external_type_specification]
#[verifier::external_body]
pub struct ExTryRecvError(TryRecvError);

/// `tokio::sync::mpsc::error::TrySendError`: why `try_send` did not queue the value.
#[verifier::external_type_specification]
#[verifier::external_body]
#[verifier::reject_recursive_types(T)]
pub struct ExTrySendError<T>(TrySendError<T>);

/// `Receiver::try_recv` takes the next queued value if there is one and
/// reports an error otherwise, without waiting for a value to arrive. Which
/// of the two happens depends on the sending side, so nothing is claimed of
/// the result.
pub assume_specification<T>[ Receiver::<T>::try_recv ](rx: &mut Receiver<T>) -> (r: Result<
    T,
    TryRecvError,
>)
;

/// `Sender::try_send` queues the value if the channel is open and has room,
/// and hands it back in an error otherwise, without waiting for room. Which
/// of the two happens depends on the receiving side, so nothing is claimed of
/// the result.
pub assume_specification<T>[ Sender::<T>::try_send ](tx: &Sender<T>, message: T) -> (r: Result<
    (),
    TrySendError<T>,
>)
;

/// The frame to play after a refill: the received one if there is one and it
/// holds a sample, else the fallback.
pub open spec fn usable<T>(received: Option<Vec<T>>, fallback: Seq<T>) -> Seq<T> {
    match received {
        Some(frame) => if frame@.len() > 0 {
            frame@
        } else {
            fallback
        },
        None => fallback,
    }
}

/// Hands out the samples of the current frame one by one, asks for the next
/// frame when the current one is used up, and plays the default frame while
/// none has arrived.
#[verifier::reject_recursive_types(T)]
pub struct Source<T> {
    frame_input: Receiver<Vec<T>>,
    frame_done: Sender<()>,
    sample_rate: u32,
    default_frame: Vec<T>,
    /// The received frame that is being played; `None` while the default
    /// frame is played, which is read where it is and never copied.
    current_frame: Option<Vec<T>>,
    frame_i: usize,
}

impl<T: Copy> Source<T> {
    /// The frame that is played while no other is ready.
    pub closed spec fn default_frame(&self) -> Seq<T> {
        self.default_frame@
    }

    /// The frame that is being played.
    pub closed spec fn current_frame(&self) -> Seq<T> {
        match self.current_frame {
            Some(frame) => frame@,
            None => self.default_frame@,
        }
    }

    /// The index in the current frame of the next sample to hand out.
    pub closed spec fn frame_index(&self) -> nat {
        self.frame_i as nat
    }

    /// The declared sample rate.
    pub closed spec fn rate(&self) -> u32 {
        self.sample_rate
    }

    /// Whether every sample of the current frame has been handed out.
    pub open spec fn used_up(&self) -> bool {
        self.frame_index() == self.current_frame().len()
    }

    /// The default frame and the current frame hold a sample, and the index
    /// does not run past the current frame.
    pub open spec fn wf(&self) -> bool {
        &&& self.default_frame().len() > 0
        &&& self.current_frame().len() > 0
        &&& self.frame_index() <= self.current_frame().len()
    }

    /// A source that starts by playing `default_frame`.
    pub fn new(
        frame_input: Receiver<Vec<T>>,
        frame_done: Sender<()>,
        sample_rate: u32,
        default_frame: Vec<T>,
    ) -> (source: Self)
        requires
            default_frame@.len() > 0,
        ensures
            source.default_frame() == default_frame@,
            source.current_frame() == default_frame@,
            source.frame_index() == 0,
            source.rate() == sample_rate,
            source.wf(),
    {
        Self { frame_input, frame_done, sample_rate, current_frame: None, default_frame, frame_i: 0 }
    }

    /// The frame that is being played, read in place.
    fn playing(&self) -> (frame: &Vec<T>)
        ensures
            frame@ == self.current_frame(),
    {
        match &self.current_frame {
            Some(frame) => frame,
            None => &self.default_frame,
        }
    }

    /// Whether every sample of the current frame has been handed out.
    pub fn exhausted(&self) -> (done: bool)
        ensures
            done == self.used_up(),
    {
        self.frame_i == self.playing().len()
    }

    /// Hands out the next sample, given what the frame channel had to offer.
    ///
    /// While the current frame lasts, `received` is not looked at. Once it is
    /// used up, a received frame that holds a sample becomes the current
    /// frame; without one the default frame is played again, from where it
    /// is kept: no frame is allocated or copied.
    pub fn advance(&mut self, received: Option<Vec<T>>) -> (sample: T)
        requires
            old(self).wf(),
        ensures
            final(self).current_frame() == (if old(self).used_up() {
                usable(received, old(self).default_frame())
            } else {
                old(self).current_frame()
            }),
            final(self).frame_index() == (if old(self).used_up() {
                1
            } else {
                old(self).frame_index() + 1
            }),
            sample == final(self).current_frame()[final(self).frame_index() - 1],
            final(self).default_frame() == old(self).default_frame(),
            final(self).rate() == old(self).rate(),
            final(self).wf(),
    {
        if self.exhausted() {
            self.current_frame = match received {
                Some(frame) => if frame.len() > 0 {
                    Some(frame)
                } else {
                    None
                },
                None => None,
            };
            self.frame_i = 0;
        }
        let val: T = {
            let frame: &Vec<T> = self.playing();
            assert(self.frame_i < frame.len());
            frame[self.frame_i]
        };
        self.frame_i += 1;
        val
    }

    /// Hands out the next sample without ever waiting.
    ///
    /// When the current frame is used up, the source signals that a frame was
    /// consumed (a full signal queue is ignored) and asks the frame channel
    /// for the next frame. Whatever the channel answers, a sample comes back:
    /// the first of the new current frame.
    pub fn next(&mut self) -> (sample: Option<T>)
        requires
            old(self).wf(),
        ensures
            sample == Some(final(self).current_frame()[final(self).frame_index() - 1]),
            !old(self).used_up() ==> final(self).current_frame() == old(self).current_frame()
                && final(self).frame_index() == old(self).frame_index() + 1,
            old(self).used_up() ==> final(self).frame_index() == 1,
            final(self).default_frame() == old(self).default_frame(),
            final(self).rate() == old(self).rate(),
            final(self).wf(),
    {
        let mut received: Option<Vec<T>> = None;
        if self.exhausted() {
            let _ = self.frame_done.try_send(());
            received = match self.frame_input.try_recv() {
                Ok(frame) => Some(frame),
                Err(_) => None,
            };
        }
        Some(self.advance(received))
    }

    /// The declared sample rate.
    pub fn sample_rate(&self) -> (rate: u32)
        ensures
            rate == self.rate(),
    {
        self.sample_rate
    }

    /// The number of channels: the source is mono.
    pub fn channels(&self) -> (channels: u16)
        ensures
            channels == 1,
    {
        1
    }

    /// The number of samples left before the rate or the channels change:
    /// they never do.
    pub fn current_frame_len(&self) -> (len: Option<usize>)
        ensures
            len is None,
    {
        None
    }
}

} // verus!
