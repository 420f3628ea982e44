//! Sound shaping: envelopes built from one period of a waveform.

pub mod key;
