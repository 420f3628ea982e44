//! Sample sources for a consumer that pulls one sample at a time.

pub mod event_based;
