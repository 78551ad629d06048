//! Voice-activity detection: from per-window activity to speech segments.

pub mod hysteresis;
pub mod padding;
pub mod merge;
pub mod silero_vad;
pub mod laws;
pub mod inference;
