use std::path::PathBuf;
use vstd::prelude::*;

verus! {

/// Declaration of `std::path::PathBuf`, carried through the library opaquely.
#[verifier::external_type_specification]
#[verifier::external_body]
pub struct ExPathBuf(PathBuf);

/// Declaration of `std::io::Error`, carried through the library opaquely.
#[verifier::external_type_specification]
#[verifier::external_body]
pub struct ExIoError(std::io::Error);

/// Everything that can go wrong while chapterizing a video.
#[derive(Debug)]
pub enum Error {
    /// An I/O operation failed.
    Io(std::io::Error),
    /// A chapter line that does not have the chapter form (or has a blank title).
    InvalidChapter { line_no: usize, line: String },
    /// A chapter line whose minutes or seconds do not parse.
    BadTimestamp { line_no: usize, line: String },
    /// The folder holds no video.
    NoVideo(PathBuf),
    /// The folder holds several videos and no single preferred one.
    AmbiguousVideo { dir: PathBuf, candidates: Vec<String> },
    /// A tool is neither beside the program nor on `PATH`.
    BinaryNotFound(String),
    /// ffmpeg exited with a failure.
    FfmpegFailed { status: i32, stderr: String },
    /// ffprobe did not give a duration.
    Duration(String),
    /// A path problem, or chapters out of order.
    Path(String),
    /// The chapter list holds no chapter.
    NoChapters,
}

pub type Result<T> = std::result::Result<T, Error>;

} // verus!
