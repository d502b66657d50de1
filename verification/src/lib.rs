//! Chapter markers for videos: parsing of YouTube-style chapter lists,
//! FFMETADATA generation, choice of the video, and the protocol of a run
//! of ffprobe and ffmpeg.
pub mod chapters;
pub mod cli;
pub mod error;
pub mod ffmpeg;
pub mod text;
pub mod video;
