//! What is said to ffmpeg and ffprobe, and what their answers mean.

pub mod audio;
pub mod command;
pub mod concat;
pub mod detect;
pub mod laws;
pub mod probe;
