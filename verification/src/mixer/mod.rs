//! The two mixing strategies: live voices with envelopes, and overlaid clips.

pub mod key_state_based;
pub mod sound_event_based;
pub mod laws;
