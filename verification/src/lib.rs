//! TrackForge: finds the audio tracks of a video file and builds the ffmpeg
//! command lines that convert one of them or remove some, with the checks,
//! file names and log handling around them.
pub mod cli;
pub mod error;
pub mod ffmpeg;
pub mod ffprobe;
pub mod jobs;
pub mod logs;
pub mod paths;
pub mod plans;
pub mod text;
pub mod tools;
