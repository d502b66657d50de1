use chapterize::chapters::{escape_ffmeta, format_ffmetadata, parse_chapters, Chapter};
use chapterize::error::Error;

#[test]
fn parse_hh_mm_ss() {
    let ch = Chapter::parse_line(1, "01:17:22 - The Call of Cthulhu (1/3)").unwrap().unwrap();
    assert_eq!(ch.title, "The Call of Cthulhu (1/3)");
    assert_eq!(ch.start_ms, (3600 + (17 * 60) + 22) * 1000);
}

#[test]
fn parse_mm_ss() {
    let ch = Chapter::parse_line(1, "03:12 - Cold Open").unwrap().unwrap();
    assert_eq!(ch.start_ms, (3 * 60 + 12) * 1000);
}

#[test]
fn skips_blank_and_comment() {
    assert!(Chapter::parse_line(1, "   ").unwrap().is_none());
    assert!(Chapter::parse_line(1, "# note").unwrap().is_none());
}

#[test]
fn metadata_ends_last_chapter() {
    let chapters = vec![
        Chapter { title: "A".into(), start_ms: 0 },
        Chapter { title: "B".into(), start_ms: 1000 },
    ];
    let meta = format_ffmetadata(&chapters, 5000).unwrap();
    assert!(meta.contains("START=0"));
    assert!(meta.contains("END=999"));
    assert!(meta.contains("START=1000"));
    assert!(meta.contains("END=4999"));
    assert!(meta.starts_with(";FFMETADATA1"));
}

#[test]
fn parse_line_errors_on_bad_format() {
    // No dash separator
    assert!(Chapter::parse_line(1, "garbage").is_err());
    // Text before timestamp
    assert!(Chapter::parse_line(1, "intro 00:30").is_err());
}

#[test]
fn parse_line_empty_title_errors() {
    let result = Chapter::parse_line(1, "00:10 -   ");
    assert!(result.is_err());
}

#[test]
fn parse_single_digit_hour() {
    let ch = Chapter::parse_line(1, "1:15:30 - Episode").unwrap().unwrap();
    assert_eq!(ch.start_ms, (3600 + (15 * 60) + 30) * 1000);
}

#[test]
fn escape_ffmeta_backslash() {
    assert_eq!(escape_ffmeta(r"a\b"), r"a\\b");
}

#[test]
fn escape_ffmeta_equals_sign() {
    assert_eq!(escape_ffmeta("key=value"), r"key\=value");
}

#[test]
fn escape_ffmeta_newline() {
    // The function prefixes real newlines with backslash.
    assert_eq!(escape_ffmeta("A\nB"), "A\\\nB");
}

#[test]
fn format_ffmetadata_empty_errors() {
    let result = format_ffmetadata(&[], 1000);
    assert!(result.is_err());
}

#[test]
fn format_ffmetadata_single_chapter() {
    let chapters = vec![Chapter { title: "Only".into(), start_ms: 5000 }];
    let meta = format_ffmetadata(&chapters, 10000).unwrap();
    assert!(meta.contains("START=5000"));
    assert!(meta.contains("END=9999"));
}

// ---------------------------------------------------------------------------

#[test]
fn parse_line_reports_line_number_and_trimmed_text() {
    match Chapter::parse_line(7, "  intro 00:30  ") {
        Err(Error::InvalidChapter { line_no, line }) => {
            assert_eq!(line_no, 7);
            assert_eq!(line, "intro 00:30");
        }
        other => panic!("unexpected {:?}", other),
    }
}

#[test]
fn parse_line_keeps_title_marker_and_inner_dashes() {
    let ch = Chapter::parse_line(1, "00:33:12 - The Hound - part (1/2)").unwrap().unwrap();
    assert_eq!(ch.title, "The Hound - part (1/2)");
    assert_eq!(ch.start_ms, (33 * 60 + 12) * 1000);
}

#[test]
fn parse_line_trims_around_title_and_line() {
    let ch = Chapter::parse_line(1, "\t00:05\t-\t  Tabs here \r").unwrap().unwrap();
    assert_eq!(ch.title, "Tabs here");
    assert_eq!(ch.start_ms, 5000);
}

#[test]
fn parse_line_needs_space_around_dash() {
    assert!(matches!(Chapter::parse_line(3, "00:10-Title"), Err(Error::InvalidChapter { .. })));
    assert!(matches!(Chapter::parse_line(3, "00:10 -Title"), Err(Error::InvalidChapter { .. })));
}

#[test]
fn parse_line_rejects_three_digit_groups() {
    assert!(Chapter::parse_line(1, "100:00:00 - X").is_err());
    assert!(Chapter::parse_line(1, "00:123 - X").is_err());
    assert!(Chapter::parse_line(1, "0:0:0 - X").is_err());
}

#[test]
fn parse_line_max_fields() {
    let ch = Chapter::parse_line(1, "99:99:99 - Late").unwrap().unwrap();
    assert_eq!(ch.start_ms, (99 * 3600 + 99 * 60 + 99) * 1000);
}

#[test]
fn parse_line_non_ascii_digit_in_minutes_is_bad_timestamp() {
    // U+0663 ARABIC-INDIC DIGIT THREE is a decimal digit but not ASCII.
    match Chapter::parse_line(2, "0\u{663}:10 - X") {
        Err(Error::BadTimestamp { line_no, .. }) => assert_eq!(line_no, 2),
        other => panic!("unexpected {:?}", other),
    }
}

#[test]
fn parse_line_non_ascii_digit_in_hours_counts_as_zero() {
    let ch = Chapter::parse_line(1, "\u{661}:00:07 - X").unwrap().unwrap();
    assert_eq!(ch.start_ms, 7000);
}

#[test]
fn parse_line_comment_after_indent() {
    assert!(Chapter::parse_line(1, "   # 00:10 - not a chapter").unwrap().is_none());
}

#[test]
fn load_valid_chapters_from_text() {
    let chapters = parse_chapters(
        "00:00 - Introduction\n\
         01:23 - The Call of Cthulhu\n\
         02:45:33 - The Shadow over Innsmouth\n",
    )
    .unwrap();
    assert_eq!(chapters.len(), 3);
    assert_eq!(chapters[0].title, "Introduction");
    assert_eq!(chapters[0].start_ms, 0);
    assert_eq!(chapters[1].start_ms, 83000);
    assert_eq!(chapters[2].start_ms, (2 * 3600 + 45 * 60 + 33) * 1000);
}

#[test]
fn empty_chapters_text_errors() {
    assert!(matches!(parse_chapters(""), Err(Error::NoChapters)));
}

#[test]
fn only_comments_and_blanks_text_errors() {
    assert!(matches!(parse_chapters("# just a comment\n   \n# another\n"), Err(Error::NoChapters)));
}

#[test]
fn parse_chapters_rejects_out_of_order() {
    match parse_chapters("00:10 - Second\n00:05 - First (out of order)\n") {
        Err(Error::Path(msg)) => {
            assert_eq!(
                msg,
                "chapters out of order: \"Second\" (10000ms) then \"First (out of order)\" (5000ms)"
            );
        }
        other => panic!("unexpected {:?}", other),
    }
}

#[test]
fn parse_chapters_rejects_bad_timestamp() {
    match parse_chapters("not-a-timestamp - Title\n") {
        Err(Error::InvalidChapter { line_no, line }) => {
            assert_eq!(line_no, 1);
            assert_eq!(line, "not-a-timestamp - Title");
        }
        other => panic!("unexpected {:?}", other),
    }
}

#[test]
fn parse_chapters_first_bad_line_wins() {
    match parse_chapters("00:00 - A\n\n# c\nbad line\n00:01 - B\nworse\n") {
        Err(Error::InvalidChapter { line_no, line }) => {
            assert_eq!(line_no, 4);
            assert_eq!(line, "bad line");
        }
        other => panic!("unexpected {:?}", other),
    }
}

#[test]
fn parse_chapters_crlf_and_equal_starts() {
    let chapters = parse_chapters("00:00 - A\r\n00:00 - B\r\n00:01 - C").unwrap();
    assert_eq!(chapters.len(), 3);
    assert_eq!(chapters[1].title, "B");
    assert_eq!(chapters[2].start_ms, 1000);
}

#[test]
fn metadata_exact_text() {
    let chapters = vec![
        Chapter { title: "Intro; a=b #1".into(), start_ms: 0 },
        Chapter { title: "Two".into(), start_ms: 61000 },
    ];
    let meta = format_ffmetadata(&chapters, 120000).unwrap();
    assert_eq!(
        meta,
        ";FFMETADATA1\n\
         \n[CHAPTER]\nTIMEBASE=1/1000\nSTART=0\nEND=60999\ntitle=Intro\\; a\\=b \\#1\n\
         \n[CHAPTER]\nTIMEBASE=1/1000\nSTART=61000\nEND=119999\ntitle=Two\n"
    );
}

#[test]
fn metadata_last_chapter_never_ends_before_start() {
    let chapters = vec![Chapter { title: "Late".into(), start_ms: 9000 }];
    let meta = format_ffmetadata(&chapters, 5000).unwrap();
    assert!(meta.contains("START=9000\nEND=9000\n"));
    let meta = format_ffmetadata(&chapters, 0).unwrap();
    assert!(meta.contains("END=9000"));
}

#[test]
fn metadata_zero_start_next_saturates() {
    let chapters = vec![
        Chapter { title: "A".into(), start_ms: 0 },
        Chapter { title: "B".into(), start_ms: 0 },
    ];
    let meta = format_ffmetadata(&chapters, 1).unwrap();
    assert!(meta.contains("START=0\nEND=0\ntitle=A"));
}

#[test]
fn escape_ffmeta_all_specials() {
    assert_eq!(escape_ffmeta("\\=;#\nx"), "\\\\\\=\\;\\#\\\nx");
    assert_eq!(escape_ffmeta("plain"), "plain");
    assert_eq!(escape_ffmeta(""), "");
}
