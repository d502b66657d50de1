use std::path::{Path, PathBuf};

use chapterize::chapters::Chapter;
use chapterize::error::Error;
use chapterize::ffmpeg::{
    binary_candidates, ffmpeg_command, find_tool, slug_from_millis, timestamp_slug, Action,
    CommandArg, Event, FfmpegExit, RunOpts, Session,
};

#[test]
fn binary_candidates_include_name() {
    let c = binary_candidates("ffmpeg", false);
    assert!(!c.is_empty());
    assert_eq!(c[0], "ffmpeg");
    assert_eq!(c.len(), 1);
}

#[test]
fn timestamp_slug_is_positive() {
    let slug = timestamp_slug();
    assert!(slug > 0, "slug should be > 0, got {slug}");
}

// ---------------------------------------------------------------------------

#[test]
fn binary_candidates_on_windows_add_exe() {
    let c = binary_candidates("ffmpeg", true);
    assert_eq!(c, vec!["ffmpeg".to_string(), "ffmpeg.exe".to_string()]);
    assert_eq!(binary_candidates("ffmpeg.exe", true), vec!["ffmpeg.exe".to_string()]);
    assert_eq!(binary_candidates("FFMPEG.EXE", true), vec!["FFMPEG.EXE".to_string()]);
}

#[test]
fn find_tool_prefers_beside_exe() {
    let r = find_tool("ffmpeg", Some(PathBuf::from("/a/ffmpeg")), Some(PathBuf::from("/b/ffmpeg")));
    assert_eq!(r.unwrap(), PathBuf::from("/a/ffmpeg"));
    let r = find_tool("ffmpeg", None, Some(PathBuf::from("/b/ffmpeg")));
    assert_eq!(r.unwrap(), PathBuf::from("/b/ffmpeg"));
}

#[test]
fn find_tool_missing_errors() {
    match find_tool("binary-that-definitely-does-not-exist-12345", None, None) {
        Err(Error::BinaryNotFound(n)) => assert_eq!(n, "binary-that-definitely-does-not-exist-12345"),
        other => panic!("unexpected {:?}", other),
    }
}

#[test]
fn slug_from_millis_truncates() {
    assert_eq!(slug_from_millis(None), 0);
    assert_eq!(slug_from_millis(Some(1234)), 1234);
    assert_eq!(slug_from_millis(Some((1u128 << 64) + 5)), 5);
}

fn texts(args: &[CommandArg]) -> Vec<String> {
    args.iter()
        .map(|a| match a {
            CommandArg::Text(s) => s.clone(),
            CommandArg::Video => "<video>".to_string(),
            CommandArg::Metadata => "<meta>".to_string(),
            CommandArg::Output => "<output>".to_string(),
        })
        .collect()
}

#[test]
fn ffmpeg_command_line() {
    let args = ffmpeg_command(false);
    assert_eq!(
        texts(&args).join(" "),
        "-hide_banner -loglevel error -n -i <video> -i <meta> -map_metadata 0 -map_chapters 1 -codec copy <output>"
    );
    assert_eq!(texts(&ffmpeg_command(true))[3], "-y");
}

fn opts<'a>(chapters: &'a [Chapter], dry_run: bool) -> RunOpts<'a> {
    RunOpts {
        video: Path::new("v.mp4"),
        output: Path::new("o.mp4"),
        chapters,
        overwrite: false,
        dry_run,
    }
}

#[test]
fn session_full_run() {
    let chapters = vec![Chapter { title: "A".into(), start_ms: 0 }];
    let o = opts(&chapters, false);
    let mut s = Session::new();
    assert!(matches!(s.step(&o, Event::Start), Action::FindTool(n) if n == "ffmpeg"));
    assert!(matches!(
        s.step(&o, Event::ToolFound(Ok(PathBuf::from("/x/ffmpeg")))),
        Action::FindTool(n) if n == "ffprobe"
    ));
    assert!(matches!(
        s.step(&o, Event::ToolFound(Ok(PathBuf::from("/x/ffprobe")))),
        Action::ProbeDuration(p) if p == PathBuf::from("/x/ffprobe")
    ));
    match s.step(&o, Event::DurationProbed(Ok(2000))) {
        Action::WriteMetadata(body) => assert!(body.contains("END=1999")),
        _ => panic!("expected metadata"),
    }
    match s.step(&o, Event::MetadataWritten(Ok(()))) {
        Action::RunFfmpeg(f, args) => {
            assert_eq!(f, PathBuf::from("/x/ffmpeg"));
            assert_eq!(args.len(), 15);
        }
        _ => panic!("expected ffmpeg"),
    }
    let exit = FfmpegExit { success: false, code: None, stderr: "boom".into() };
    assert!(matches!(s.step(&o, Event::FfmpegExited(Ok(exit))), Action::RemoveMetadata));
    assert!(!s.is_done());
    match s.step(&o, Event::MetadataRemoved) {
        Action::Finish(Err(Error::FfmpegFailed { status, stderr })) => {
            assert_eq!(status, -1);
            assert_eq!(stderr, "boom");
        }
        _ => panic!("expected failure"),
    }
    assert!(s.is_done());
}

#[test]
fn session_dry_run_skips_ffmpeg() {
    let chapters = vec![Chapter { title: "A".into(), start_ms: 0 }];
    let o = opts(&chapters, true);
    let mut s = Session::new();
    s.step(&o, Event::Start);
    s.step(&o, Event::ToolFound(Ok(PathBuf::from("ffmpeg"))));
    s.step(&o, Event::ToolFound(Ok(PathBuf::from("ffprobe"))));
    s.step(&o, Event::DurationProbed(Ok(10)));
    match s.step(&o, Event::MetadataWritten(Ok(()))) {
        Action::ShowCommand(f, args) => {
            assert_eq!(f, PathBuf::from("ffmpeg"));
            assert_eq!(texts(&args)[3], "-n");
        }
        _ => panic!("expected the command to be shown"),
    }
    assert!(matches!(s.step(&o, Event::CommandShown), Action::RemoveMetadata));
    assert!(matches!(s.step(&o, Event::MetadataRemoved), Action::Finish(Ok(()))));
}

#[test]
fn session_lookup_failure_finishes() {
    let chapters = vec![Chapter { title: "A".into(), start_ms: 0 }];
    let o = opts(&chapters, false);
    let mut s = Session::new();
    s.step(&o, Event::Start);
    let a = s.step(&o, Event::ToolFound(Err(Error::BinaryNotFound("ffmpeg".into()))));
    assert!(matches!(a, Action::Finish(Err(Error::BinaryNotFound(_)))));
    assert!(s.is_done());
    assert!(!s.accepts(&Event::MetadataRemoved));
}

#[test]
fn session_no_chapters_finishes() {
    let o = opts(&[], false);
    let mut s = Session::new();
    s.step(&o, Event::Start);
    s.step(&o, Event::ToolFound(Ok(PathBuf::from("ffmpeg"))));
    s.step(&o, Event::ToolFound(Ok(PathBuf::from("ffprobe"))));
    assert!(matches!(s.step(&o, Event::DurationProbed(Ok(10))), Action::Finish(Err(Error::NoChapters))));
}
