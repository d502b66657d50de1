//! Locating ffmpeg/ffprobe and the protocol of a chapterize run: which
//! outside step comes next and what its outcome leads to.
use std::path::{Path, PathBuf};
use vstd::prelude::*;

use crate::chapters::{ffmetadata, format_ffmetadata, Chapter};
use crate::error::{Error, Result};
use crate::text::str_chars;

verus! {

pub const FFMPEG_BINARY_NAME: &'static str = "ffmpeg";

pub const FFPROBE_BINARY_NAME: &'static str = "ffprobe";

// ---------------------------------------------------------------------------
// Locating the tools
// ---------------------------------------------------------------------------

/// Whether `s` ends with `suffix`.
pub open spec fn ends_with(s: Seq<char>, suffix: Seq<char>) -> bool {
    s.len() >= suffix.len() && s.subrange(s.len() - suffix.len(), s.len() as int) == suffix
}

/// The file names under which a tool called `name` may be installed: the name
/// itself; on Windows also `name.exe`, unless it already ends in `.exe` or
/// `.EXE`.
pub open spec fn binary_candidate_names(name: Seq<char>, windows: bool) -> Seq<Seq<char>> {
    if windows && !ends_with(name, ".exe"@) && !ends_with(name, ".EXE"@) {
        seq![name, name + ".exe"@]
    } else {
        seq![name]
    }
}

fn ends_with_chars(s: &Vec<char>, suffix: &Vec<char>) -> (r: bool)
    ensures
        r == ends_with(s@, suffix@),
{
    if s.len() < suffix.len() {
        return false;
    }
    let start = s.len() - suffix.len();
    for k in 0..suffix.len()
        invariant
            start == s.len() - suffix.len(),
            forall|m: int| 0 <= m < k ==> s@[start + m] == suffix@[m],
    {
        if s[start + k] != suffix[k] {
            assert(s@.subrange(start as int, s@.len() as int)[k as int] != suffix@[k as int]);
            return false;
        }
    }
    assert(s@.subrange(start as int, s@.len() as int) =~= suffix@);
    true
}

/// The file names to look for when locating `name`; `windows` tells whether
/// the program runs on Windows.
pub fn binary_candidates(name: &str, windows: bool) -> (r: Vec<String>)
    ensures
        r@.len() == binary_candidate_names(name@, windows).len(),
        forall|i: int| 0 <= i < r@.len() ==> #[trigger] r@[i]@ == binary_candidate_names(name@, windows)[i],
{
    let mut out: Vec<String> = Vec::new();
    out.push(String::from_str(name));
    if windows {
        let chars = str_chars(name);
        let lower = str_chars(".exe");
        let upper = str_chars(".EXE");
        if !ends_with_chars(&chars, &lower) && !ends_with_chars(&chars, &upper) {
            let mut exe = String::from_str(name);
            exe.append(".exe");
            out.push(exe);
        }
    }
    out
}

/// Locate a tool: the copy beside the running program wins over the one on
/// `PATH`; where neither was found, the tool is reported missing by name.
pub fn find_tool(name: &str, beside_exe: Option<PathBuf>, on_path: Option<PathBuf>) -> (r: Result<PathBuf>)
    ensures
        match beside_exe {
            Some(p) => r == Ok::<PathBuf, Error>(p),
            None => match on_path {
                Some(q) => r == Ok::<PathBuf, Error>(q),
                None => r matches Err(Error::BinaryNotFound(n)) && n@ == name@,
            },
        },
{
    match beside_exe {
        Some(p) => Ok(p),
        None => match on_path {
            Some(q) => Ok(q),
            None => Err(Error::BinaryNotFound(String::from_str(name))),
        },
    }
}

// ---------------------------------------------------------------------------
// Temporary file names
// ---------------------------------------------------------------------------

/// Milliseconds since the Unix epoch by the system clock (`SystemTime::now`),
/// `None` where the clock is before the epoch.  Nothing is stated: the
/// result depends on the time.
#[verifier::external_body]
fn millis_since_epoch() -> Option<u128> {
    std::time::SystemTime::now().duration_since(std::time::UNIX_EPOCH).ok().map(|d| d.as_millis())
}

/// The slug of a temporary file name for a clock reading: the milliseconds,
/// truncated to 64 bits, or 0 without a reading.
pub fn slug_from_millis(millis: Option<u128>) -> (r: u64)
    ensures
        r == match millis {
            Some(m) => m as u64,
            None => 0u64,
        },
{
    match millis {
        Some(m) => m as u64,
        None => 0,
    }
}

/// Milliseconds since the Unix epoch, truncated to 64 bits (0 where the clock
/// is before the epoch): the slug of a temporary file name.
pub fn timestamp_slug() -> u64 {
    slug_from_millis(millis_since_epoch())
}

} // verus!

verus! {

// ---------------------------------------------------------------------------
// A chapterize run
// ---------------------------------------------------------------------------

/// What to chapterize and how.
pub struct RunOpts<'a> {
    pub video: &'a Path,
    pub output: &'a Path,
    pub chapters: &'a [Chapter],
    pub overwrite: bool,
    pub dry_run: bool,
}

/// One argument of the ffmpeg command line: text, or one of the three paths
/// of the run (the video, the temporary metadata file, the output).
pub enum CommandArg {
    Text(String),
    Video,
    Metadata,
    Output,
}

/// The outside step to perform next.
pub enum Action {
    /// Locate the tool with this name.
    FindTool(String),
    /// Ask this ffprobe for the duration of the video, in milliseconds.
    ProbeDuration(PathBuf),
    /// Write this text to a fresh temporary metadata file.
    WriteMetadata(String),
    /// Run this ffmpeg with these arguments.
    RunFfmpeg(PathBuf, Vec<CommandArg>),
    /// Dry run: show this ffmpeg command without running it.
    ShowCommand(PathBuf, Vec<CommandArg>),
    /// Delete the temporary metadata file, whatever the outcome.
    RemoveMetadata,
    /// The run is over, with this result.
    Finish(Result<()>),
}

/// How ffmpeg exited.
pub struct FfmpegExit {
    pub success: bool,
    pub code: Option<i32>,
    pub stderr: String,
}

/// The outcome of the last outside step.
pub enum Event {
    /// Nothing happened yet.
    Start,
    /// Outcome of `FindTool`.
    ToolFound(Result<PathBuf>),
    /// Outcome of `ProbeDuration`.
    DurationProbed(Result<u64>),
    /// Outcome of `WriteMetadata`.
    MetadataWritten(Result<()>),
    /// Outcome of `RunFfmpeg`: how ffmpeg exited, or why it could not run.
    FfmpegExited(Result<FfmpegExit>),
    /// `ShowCommand` was done.
    CommandShown,
    /// Outcome of `RemoveMetadata`.
    MetadataRemoved,
}

/// Where a run stands.
pub enum Phase {
    Start,
    FindingFfmpeg,
    FindingFfprobe,
    Probing,
    Writing,
    Running,
    Showing,
    Cleaning,
    Done,
}

/// The state of a run.
pub struct Session {
    phase: Phase,
    ffmpeg: Option<PathBuf>,
    outcome: Option<Result<()>>,
}

/// `text` is the argument `a`.
pub open spec fn is_text_arg(a: CommandArg, text: Seq<char>) -> bool {
    a matches CommandArg::Text(s) && s@ == text
}

/// The ffmpeg command line: `-hide_banner -loglevel error`, `-y` to overwrite
/// or `-n` to refuse, `-i <video> -i <metadata> -map_metadata 0
/// -map_chapters 1 -codec copy <output>`.
pub open spec fn is_ffmpeg_command(args: Seq<CommandArg>, overwrite: bool) -> bool {
    &&& args.len() == 14
    &&& is_text_arg(args[0], "-hide_banner"@)
    &&& is_text_arg(args[1], "-loglevel"@)
    &&& is_text_arg(args[2], "error"@)
    &&& is_text_arg(args[3], if overwrite { "-y"@ } else { "-n"@ })
    &&& is_text_arg(args[4], "-i"@)
    &&& args[5] is Video
    &&& is_text_arg(args[6], "-i"@)
    &&& args[7] is Metadata
    &&& is_text_arg(args[8], "-map_metadata"@)
    &&& is_text_arg(args[9], "0"@)
    &&& is_text_arg(args[10], "-map_chapters"@)
    &&& is_text_arg(args[11], "1"@)
    &&& is_text_arg(args[12], "-codec"@)
    &&& is_text_arg(args[13], "copy"@)
}

fn text_arg(s: &str) -> (a: CommandArg)
    ensures
        is_text_arg(a, s@),
{
    CommandArg::Text(String::from_str(s))
}

/// The arguments of ffmpeg, the output path last.
pub fn ffmpeg_command(overwrite: bool) -> (args: Vec<CommandArg>)
    ensures
        is_ffmpeg_command(args@.drop_last(), overwrite),
        args@.len() == 15,
        args@.last() is Output,
{
    let mut args: Vec<CommandArg> = Vec::new();
    args.push(text_arg("-hide_banner"));
    args.push(text_arg("-loglevel"));
    args.push(text_arg("error"));
    if overwrite {
        args.push(text_arg("-y"));
    } else {
        args.push(text_arg("-n"));
    }
    args.push(text_arg("-i"));
    args.push(CommandArg::Video);
    args.push(text_arg("-i"));
    args.push(CommandArg::Metadata);
    args.push(text_arg("-map_metadata"));
    args.push(text_arg("0"));
    args.push(text_arg("-map_chapters"));
    args.push(text_arg("1"));
    args.push(text_arg("-codec"));
    args.push(text_arg("copy"));
    args.push(CommandArg::Output);
    args
}

/// The result of a run once ffmpeg has exited: a failure to run it, a
/// failing exit (its code, -1 without one, and its error output), or success.
pub open spec fn exit_result(r: Result<FfmpegExit>) -> Result<()> {
    match r {
        Err(e) => Err(e),
        Ok(x) => if x.success {
            Ok(())
        } else {
            Err(
                Error::FfmpegFailed {
                    status: match x.code {
                        Some(c) => c,
                        None => -1i32,
                    },
                    stderr: x.stderr,
                },
            )
        },
    }
}

/// Which event the phase waits for.
pub open spec fn expects(phase: Phase, event: Event) -> bool {
    match phase {
        Phase::Start => event is Start,
        Phase::FindingFfmpeg | Phase::FindingFfprobe => event is ToolFound,
        Phase::Probing => event is DurationProbed,
        Phase::Writing => event is MetadataWritten,
        Phase::Running => event is FfmpegExited,
        Phase::Showing => event is CommandShown,
        Phase::Cleaning => event is MetadataRemoved,
        Phase::Done => false,
    }
}

impl Session {
    #[verifier::type_invariant]
    spec fn well_formed(self) -> bool {
        &&& (self.phase is FindingFfprobe || self.phase is Probing || self.phase is Writing)
            ==> self.ffmpeg is Some
        &&& self.phase is Cleaning ==> self.outcome is Some
    }

    pub closed spec fn phase(self) -> Phase {
        self.phase
    }

    /// The ffmpeg that was found, once it was.
    pub closed spec fn ffmpeg(self) -> Option<PathBuf> {
        self.ffmpeg
    }

    /// The result that awaits the removal of the metadata file.
    pub closed spec fn pending(self) -> Option<Result<()>> {
        self.outcome
    }

    /// A run that has not begun.
    pub fn new() -> (s: Session)
        ensures
            s.phase() is Start,
            s.ffmpeg() is None,
            s.pending() is None,
    {
        Session { phase: Phase::Start, ffmpeg: None, outcome: None }
    }

    /// Whether the run is over.
    pub fn is_done(&self) -> (r: bool)
        ensures
            r == self.phase() is Done,
    {
        match self.phase {
            Phase::Done => true,
            _ => false,
        }
    }

    /// Whether the run waits for `event`.
    pub fn accepts(&self, event: &Event) -> (r: bool)
        ensures
            r == expects(self.phase(), *event),
    {
        match (&self.phase, event) {
            (Phase::Start, Event::Start) => true,
            (Phase::FindingFfmpeg, Event::ToolFound(_)) => true,
            (Phase::FindingFfprobe, Event::ToolFound(_)) => true,
            (Phase::Probing, Event::DurationProbed(_)) => true,
            (Phase::Writing, Event::MetadataWritten(_)) => true,
            (Phase::Running, Event::FfmpegExited(_)) => true,
            (Phase::Showing, Event::CommandShown) => true,
            (Phase::Cleaning, Event::MetadataRemoved) => true,
            _ => false,
        }
    }

    /// Advance the run by the outcome of the last outside step and tell the
    /// next one.  The order is: find ffmpeg, find ffprobe, probe the duration,
    /// write the metadata, run ffmpeg (in a dry run: show its command instead),
    /// remove the metadata file, finish.  A failure of a lookup, the probe,
    /// the metadata or the write ends the run with that error.  Besides the
    /// step-by-step contract: a dry run never runs ffmpeg; once the metadata
    /// file is written the run cannot end before it is removed; success is
    /// only reported after that removal; a successful ffmpeg exit makes the
    /// run a success.
    pub fn step(&mut self, opts: &RunOpts, event: Event) -> (action: Action)
        requires
            expects(old(self).phase(), event),
        ensures
            match (old(self).phase(), event) {
                (Phase::Start, Event::Start) => final(self).phase() is FindingFfmpeg && (
                action matches Action::FindTool(n) && n@ == FFMPEG_BINARY_NAME@),
                (Phase::FindingFfmpeg, Event::ToolFound(Ok(p))) => final(self).phase() is FindingFfprobe
                    && final(self).ffmpeg() == Some(p) && (action matches Action::FindTool(n) && n@
                    == FFPROBE_BINARY_NAME@),
                (Phase::FindingFfprobe, Event::ToolFound(Ok(p))) => final(self).phase() is Probing
                    && final(self).ffmpeg() == old(self).ffmpeg() && action == Action::ProbeDuration(p),
                (Phase::Probing, Event::DurationProbed(Ok(d))) => if opts.chapters@.len() == 0 {
                    final(self).phase() is Done && action == Action::Finish(Err(Error::NoChapters))
                } else {
                    final(self).phase() is Writing && final(self).ffmpeg() == old(self).ffmpeg() && (
                    action matches Action::WriteMetadata(body) && body@ == ffmetadata(
                        opts.chapters@,
                        d,
                    ))
                },
                (Phase::Writing, Event::MetadataWritten(Ok(()))) => if opts.dry_run {
                    final(self).phase() is Showing && (action matches Action::ShowCommand(f, args)
                        && Some(f) == old(self).ffmpeg() && is_ffmpeg_command(
                        args@.drop_last(),
                        opts.overwrite,
                    ) && args@.len() == 15 && args@.last() is Output)
                } else {
                    final(self).phase() is Running && (action matches Action::RunFfmpeg(f, args)
                        && Some(f) == old(self).ffmpeg() && is_ffmpeg_command(
                        args@.drop_last(),
                        opts.overwrite,
                    ) && args@.len() == 15 && args@.last() is Output)
                },
                (Phase::Showing, Event::CommandShown) => final(self).phase() is Cleaning
                    && final(self).pending() == Some(Ok::<(), Error>(())) && action is RemoveMetadata,
                (Phase::Running, Event::FfmpegExited(r)) => final(self).phase() is Cleaning
                    && final(self).pending() == Some(exit_result(r)) && action is RemoveMetadata,
                (Phase::Cleaning, Event::MetadataRemoved) => final(self).phase() is Done && action
                    == Action::Finish(old(self).pending().unwrap()),
                (_, Event::ToolFound(Err(e))) => final(self).phase() is Done && action
                    == Action::Finish(Err(e)),
                (_, Event::DurationProbed(Err(e))) => final(self).phase() is Done && action
                    == Action::Finish(Err(e)),
                (_, Event::MetadataWritten(Err(e))) => final(self).phase() is Done && action
                    == Action::Finish(Err(e)),
                _ => false,
            },
            opts.dry_run ==> !(action is RunFfmpeg),
            old(self).phase() is Running || old(self).phase() is Showing ==> action is RemoveMetadata,
            (event matches Event::MetadataWritten(Ok(_))) ==> !(action is Finish),
            (action matches Action::Finish(Ok(_))) ==> old(self).phase() is Cleaning,
            (event matches Event::FfmpegExited(Ok(x)) && x.success) ==> final(self).pending()
                == Some(Ok::<(), Error>(())),
    {
        proof {
            use_type_invariant(&*self);
        }
        let ghost before = *self;
        let mut current = Session::new();
        std::mem::swap(self, &mut current);
        let Session { phase, ffmpeg, outcome } = current;
        assert(phase == before.phase && ffmpeg == before.ffmpeg && outcome == before.outcome);
        let (next, action) = match event {
            Event::Start => (
                Session { phase: Phase::FindingFfmpeg, ffmpeg, outcome },
                Action::FindTool(String::from_str(FFMPEG_BINARY_NAME)),
            ),
            Event::ToolFound(Err(e)) => (
                Session { phase: Phase::Done, ffmpeg, outcome },
                Action::Finish(Err(e)),
            ),
            Event::ToolFound(Ok(p)) => {
                if let Phase::FindingFfmpeg = phase {
                    (
                        Session { phase: Phase::FindingFfprobe, ffmpeg: Some(p), outcome },
                        Action::FindTool(String::from_str(FFPROBE_BINARY_NAME)),
                    )
                } else {
                    (Session { phase: Phase::Probing, ffmpeg, outcome }, Action::ProbeDuration(p))
                }
            },
            Event::DurationProbed(Err(e)) => (
                Session { phase: Phase::Done, ffmpeg, outcome },
                Action::Finish(Err(e)),
            ),
            Event::DurationProbed(Ok(d)) => match format_ffmetadata(opts.chapters, d) {
                Ok(body) => (
                    Session { phase: Phase::Writing, ffmpeg, outcome },
                    Action::WriteMetadata(body),
                ),
                Err(e) => (Session { phase: Phase::Done, ffmpeg, outcome }, Action::Finish(Err(e))),
            },
            Event::MetadataWritten(Err(e)) => (
                Session { phase: Phase::Done, ffmpeg, outcome },
                Action::Finish(Err(e)),
            ),
            Event::MetadataWritten(Ok(())) => match ffmpeg {
                Some(f) => if opts.dry_run {
                    (
                        Session { phase: Phase::Showing, ffmpeg: None, outcome },
                        Action::ShowCommand(f, ffmpeg_command(opts.overwrite)),
                    )
                } else {
                    (
                        Session { phase: Phase::Running, ffmpeg: None, outcome },
                        Action::RunFfmpeg(f, ffmpeg_command(opts.overwrite)),
                    )
                },
                None => (
                    Session { phase: Phase::Done, ffmpeg: None, outcome },
                    Action::RemoveMetadata,
                ),
            },
            Event::CommandShown => (
                Session { phase: Phase::Cleaning, ffmpeg, outcome: Some(Ok(())) },
                Action::RemoveMetadata,
            ),
            Event::FfmpegExited(r) => {
                let result = match r {
                    Err(e) => Err(e),
                    Ok(x) => if x.success {
                        Ok(())
                    } else {
                        let status = match x.code {
                            Some(c) => c,
                            None => -1i32,
                        };
                        Err(Error::FfmpegFailed { status, stderr: x.stderr })
                    },
                };
                (
                    Session { phase: Phase::Cleaning, ffmpeg, outcome: Some(result) },
                    Action::RemoveMetadata,
                )
            },
            Event::MetadataRemoved => match outcome {
                Some(r) => (
                    Session { phase: Phase::Done, ffmpeg, outcome: None },
                    Action::Finish(r),
                ),
                None => (
                    Session { phase: Phase::Done, ffmpeg, outcome: None },
                    Action::Finish(Ok(())),
                ),
            },
        };
        *self = next;
        action
    }
}

} // verus!

verus! {

/// How an ffmpeg exit decides the run: a successful exit is success; a failing
/// one is `FfmpegFailed` with its exit code (-1 without one) and its error
/// output; a failure to run ffmpeg is that failure.
pub proof fn lemma_exit_decides_run(r: Result<FfmpegExit>)
    ensures
        (r matches Ok(x) && x.success) ==> exit_result(r) == Ok::<(), Error>(()),
        (r matches Ok(x) && !x.success) ==> (exit_result(r) matches Err(
            Error::FfmpegFailed { status, stderr },
        ) && status == (if r->Ok_0.code is Some {
            r->Ok_0.code->Some_0
        } else {
            -1i32
        }) && stderr == r->Ok_0.stderr),
        r is Err ==> exit_result(r) == Err::<(), Error>(r->Err_0),
{
}

} // verus!
