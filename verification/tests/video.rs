use std::path::PathBuf;

use chapterize::error::Error;
use chapterize::video::{
    chapterized_name, choose_video, default_output, is_preferred_file_name, is_video_file_name,
    output_path, select_video, FolderEntry, VideoChoice,
};

fn entries(names: &[&str]) -> Vec<FolderEntry> {
    names
        .iter()
        .map(|n| FolderEntry {
            path: PathBuf::from("dir").join(n),
            name: n.as_bytes().to_vec(),
            display: format!("dir/{n}"),
        })
        .collect()
}

fn names(names: &[&str]) -> Vec<Vec<u8>> {
    names.iter().map(|n| n.as_bytes().to_vec()).collect()
}

#[test]
fn default_output_appends_chapterized() {
    let video = PathBuf::from("path").join("to").join("video.mp4");
    let out = default_output(&video).unwrap();
    assert_eq!(out.file_name().and_then(|n| n.to_str()), Some("video.chapterized.mp4"));
    assert_eq!(out.parent(), video.parent());
}

#[test]
fn default_output_handles_other_extension() {
    let video = PathBuf::from("cap.webm");
    let out = default_output(&video).unwrap();
    assert_eq!(out.to_str().unwrap(), "cap.chapterized.webm");
}

// ---------------------------------------------------------------------------

#[test]
fn default_output_without_extension_uses_mp4() {
    let out = default_output(&PathBuf::from("clip")).unwrap();
    assert_eq!(out.to_str().unwrap(), "clip.chapterized.mp4");
}

#[test]
fn default_output_bad_name_errors() {
    match default_output(&PathBuf::from("/")) {
        Err(Error::Path(msg)) => assert_eq!(msg, "bad video file name: /"),
        other => panic!("unexpected {:?}", other),
    }
}

#[test]
fn chapterized_name_exact() {
    assert_eq!(chapterized_name("a.b", Some("mkv")), "a.b.chapterized.mkv");
    assert_eq!(chapterized_name("x", None), "x.chapterized.mp4");
}

#[test]
fn output_path_prefers_explicit() {
    let out = output_path(Some(PathBuf::from("o.mkv")), &PathBuf::from("v.mp4")).unwrap();
    assert_eq!(out, PathBuf::from("o.mkv"));
    let out = output_path(None, &PathBuf::from("v.mp4")).unwrap();
    assert_eq!(out, PathBuf::from("v.chapterized.mp4"));
}

#[test]
fn video_extensions_ignore_case() {
    for n in ["a.mp4", "a.MKV", "b.Avi", "c.mov", "d.webm", "e.M4V", "x.y.mp4"] {
        assert!(is_video_file_name(&n.as_bytes().to_vec()), "{n}");
    }
    for n in [".mp4", "mp4", "a.mp3", "a.", "..", "a.mp4.txt", "chapters.txt"] {
        assert!(!is_video_file_name(&n.as_bytes().to_vec()), "{n}");
    }
}

#[test]
fn preferred_names() {
    assert!(is_preferred_file_name(&b"original.mp4".to_vec()));
    assert!(!is_preferred_file_name(&b"original.chapterized.mp4".to_vec()));
    assert!(!is_preferred_file_name(&b"Original COPY.mp4".to_vec()));
    assert!(!is_preferred_file_name(&b"x_Chapterized.mkv".to_vec()));
    // not UTF-8: counts as the empty name
    assert!(is_preferred_file_name(&vec![0xff, b' ', b'c', b'o', b'p', b'y', b'.', b'm', b'p', b'4']));
}

#[test]
fn resolve_video_finds_single_file() {
    let found = choose_video(PathBuf::from("dir"), entries(&["chapters.txt", "test.mp4"])).unwrap();
    assert_eq!(found.file_name().unwrap(), "test.mp4");
}

#[test]
fn resolve_video_finds_stem_match() {
    let found = choose_video(PathBuf::from("dir"), entries(&["chapters.txt", "other.mkv"])).unwrap();
    assert_eq!(found.file_name().unwrap(), "other.mkv");
}

#[test]
fn resolve_video_ambiguous_when_many() {
    match choose_video(PathBuf::from("dir"), entries(&["b.mp4", "chapters.txt", "a.mp4"])) {
        Err(Error::AmbiguousVideo { dir, candidates }) => {
            assert_eq!(dir, PathBuf::from("dir"));
            assert_eq!(candidates, vec!["dir/a.mp4".to_string(), "dir/b.mp4".to_string()]);
        }
        other => panic!("unexpected {:?}", other),
    }
}

#[test]
fn resolve_video_prefers_non_copy() {
    let found = choose_video(
        PathBuf::from("dir"),
        entries(&["original.chapterized.mp4", "original.mp4", "chapters.txt"]),
    )
    .unwrap();
    assert_eq!(found.file_name().unwrap(), "original.mp4");
}

#[test]
fn resolve_video_errors_on_no_video() {
    match choose_video(PathBuf::from("dir"), entries(&["chapters.txt", "readme.pdf", "notes.txt"])) {
        Err(Error::NoVideo(dir)) => assert_eq!(dir, PathBuf::from("dir")),
        other => panic!("unexpected {:?}", other),
    }
}

#[test]
fn select_video_sorts_by_name_bytes() {
    match select_video(&names(&["c.mp4", "B.mp4", "a.mp4", "a copy.mp4", "a.chapterized.mp4"])) {
        VideoChoice::Ambiguous(order) => assert_eq!(order, vec![1, 3, 4, 2, 0]),
        _ => panic!("expected ambiguous"),
    }
}

#[test]
fn select_video_single_preferred_among_copies() {
    match select_video(&names(&["a copy.mp4", "a.mkv", "a_chapterized.mkv"])) {
        VideoChoice::Chosen(k) => assert_eq!(k, 1),
        _ => panic!("expected a choice"),
    }
}

#[test]
fn select_video_no_video() {
    assert!(matches!(select_video(&names(&["x.txt"])), VideoChoice::NoVideo));
    assert!(matches!(select_video(&Vec::new()), VideoChoice::NoVideo));
}
