//! Transcribe a media file, browse the transcript, select a clip, and export it:
//! the rules of the application, apart from its window, its threads and the
//! programs that it runs.
//!
//! A time is a whole number of nanoseconds, a share of a whole is a number of
//! billionths, a path is text, and an audio sample is the bit pattern of a
//! single-precision number. What has to be done outside is handed out as a step
//! or a job, and what came of it is handed back.
pub mod app;
pub mod audio;
pub mod download;
pub mod export;
pub mod fixed;
pub mod laws;
pub mod model;
pub mod number;
pub mod paths;
pub mod resources;
pub mod sample;
pub mod text;
pub mod transcribe;
