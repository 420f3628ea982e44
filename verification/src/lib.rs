//! Key-driven tone synthesis: envelopes, voice mixing and a pull-based sample source.
//!
//! The library is generic over the sample type. Wherever samples are combined
//! arithmetically the caller supplies the operation as a closure, and the
//! contracts state the result through the closure's own postcondition.

pub mod control;
pub mod frame;
pub mod mixer;
pub mod sound;
pub mod source;
