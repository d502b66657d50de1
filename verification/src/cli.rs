//! The command line of the program.
use std::path::PathBuf;
use vstd::prelude::*;

verus! {

/// Apply YT-style chapter markers to a video via ffmpeg.
pub struct Cli {
    /// Path to the chapters.txt file (lines: `HH:MM:SS - Title`).
    pub input_chapters: PathBuf,
    /// Video to chapterize. Default: scan the chapters file's directory.
    pub video: Option<PathBuf>,
    /// Output path. Default: `<video_stem>.chapterized.<ext>` next to the video.
    pub output: Option<PathBuf>,
    /// Overwrite the output file if it already exists (passes -y to ffmpeg).
    pub overwrite: bool,
    /// Print the ffmpeg command and metadata, do not run ffmpeg.
    pub dry_run: bool,
}

} // verus!
