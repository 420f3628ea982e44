//! Key events and what the control loop does with them.

use crate::mixer::sound_event_based::{overlaid, Mixer, SoundEvent};
use vstd::prelude::*;

verus! {

/// What happened to a key, as the input device reports it.
#[derive(Clone, Copy, Debug, PartialEq, Eq, Structural)]
pub enum KeyState {
    Up,
    Down,
    Repeat,
    Unknown,
}

impl KeyState {
    /// The state that the value of a key event stands for: 0 is up, 1 is
    /// down, 2 is a repeat, and every other value is unknown.
    pub open spec fn from_i32_spec(value: i32) -> KeyState {
        if value == 0 {
            KeyState::Up
        } else if value == 1 {
            KeyState::Down
        } else if value == 2 {
            KeyState::Repeat
        } else {
            KeyState::Unknown
        }
    }

    /// Reads the value of a key event.
    pub fn from_i32(value: i32) -> (state: Self)
        ensures
            state == Self::from_i32_spec(value),
    {
        match value {
            0 => Self::Up,
            1 => Self::Down,
            2 => Self::Repeat,
            _ => Self::Unknown,
        }
    }
}

/// One key transition with the time at which the device saw it.
#[derive(Clone, Copy, Debug, PartialEq, Eq, Structural)]
pub struct KeyEvent {
    pub sec: i64,
    pub usec: i64,
    pub code: u16,
    pub value: KeyState,
}

/// The type of the input events that report key transitions, as the 16-bit
/// number that an input event carries.
pub open spec fn ev_key() -> u16 {
    0x01
}

impl KeyEvent {
    /// The key event in a raw input event of type `event_type`, if `event_type` is `key_type`.
    pub fn of_type(key_type: u16, event_type: u16, code: u16, value: i32, sec: i64, usec: i64) -> (event:
        Option<Self>)
        ensures
            event == (if event_type == key_type {
                Some(KeyEvent { sec, usec, code, value: KeyState::from_i32_spec(value) })
            } else {
                None
            }),
    {
        if event_type == key_type {
            Some(KeyEvent { sec, usec, code, value: KeyState::from_i32(value) })
        } else {
            None
        }
    }

    /// The key event in a raw input event: an event of the key type carries
    /// one, with its code, its time and the state that its value stands for;
    /// an event of any other type carries none.
    pub fn from_raw(event_type: u16, code: u16, value: i32, sec: i64, usec: i64) -> (event: Option<Self>)
        ensures
            event == (if event_type == ev_key() {
                Some(KeyEvent { sec, usec, code, value: KeyState::from_i32_spec(value) })
            } else {
                None
            }),
    {
        Self::of_type(key_event_type(), event_type, code, value, sec, usec)
    }
}

/// `input_linux::sys::EV_KEY`, the event type that the kernel gives to key
/// transitions, as the 16-bit number that an input event carries. The crate
/// defines it as `0x01`, and that is what is claimed of it.
#[verifier::external_body]
fn key_event_type() -> (event_type: u16)
    ensures
        event_type == ev_key(),
{
    input_linux::sys::EV_KEY as u16
}

/// What the control loop reacts to.
#[derive(Clone, Copy, Debug, PartialEq, Eq, Structural)]
pub enum AnyEvent {
    /// A key changed.
    Key(KeyEvent),
    /// The sample source has used up a frame.
    Source,
}

/// The slot of the sound bank that a key code plays.
pub open spec fn slot_of(code: u16, slots: nat) -> nat {
    (code as nat) % slots
}

/// The slot of the sound bank that a key code plays.
pub fn key_slot(code: u16, slots: usize) -> (slot: usize)
    requires
        slots > 0,
    ensures
        slot == slot_of(code, slots as nat),
        slot < slots,
{
    code as usize % slots
}

/// Applies one event to the mixer and hands back the frame to deliver, if any.
///
/// A key that goes down overlays the clip of its slot; other key events change
/// nothing. When the source has used up a frame, the next waiting frame is
/// taken out of the mixer for delivery; with none waiting nothing is
/// delivered, and the source plays silence.
pub fn handle_event<T: Copy, F: Fn(T, T) -> T>(mixer: &mut Mixer<T>, event: AnyEvent, plus: F) -> (frame:
    Option<Vec<T>>)
    requires
        old(mixer).wf(),
        event matches AnyEvent::Key(e) && e.value == KeyState::Down ==> old(mixer).library().len()
            > 0,
        forall|a: T, b: T| plus.requires((a, b)),
    ensures
        match event {
            AnyEvent::Key(e) => frame is None && if e.value == KeyState::Down {
                overlaid(
                    plus,
                    old(mixer).silence(),
                    old(mixer).frame_size(),
                    old(mixer).frames(),
                    old(mixer).library()[slot_of(e.code, old(mixer).library().len()) as int],
                    final(mixer).frames(),
                )
            } else {
                final(mixer).frames() == old(mixer).frames()
            },
            AnyEvent::Source => if old(mixer).frames().len() == 0 {
                frame is None && final(mixer).frames() == old(mixer).frames()
            } else {
                frame is Some && frame->0@ == old(mixer).frames()[0] && final(mixer).frames()
                    == old(mixer).frames().drop_first()
            },
        },
        final(mixer).library() == old(mixer).library(),
        final(mixer).frame_size() == old(mixer).frame_size(),
        final(mixer).silence() == old(mixer).silence(),
        final(mixer).wf(),
{
    match event {
        AnyEvent::Key(event) => {
            match event.value {
                KeyState::Down => {
                    let key_id: usize = key_slot(event.code, mixer.slot_count());
                    mixer.push_event(SoundEvent::Known(key_id), plus);
                },
                _ => (),
            }
            None
        },
        AnyEvent::Source => mixer.generate_frame(),
    }
}

} // verus!
