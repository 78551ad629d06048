//! Streaming speech segmentation and transcription bookkeeping.

pub mod config;
pub mod pipeline;
pub mod reply;
pub mod speech_segment;
pub mod transcript;
pub mod vad;
