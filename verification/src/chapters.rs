//! YouTube-style chapter lists (`HH:MM:SS - Title`, `H:MM:SS - Title`,
//! `MM:SS - Title`) and the FFMETADATA text built from them.
use vstd::prelude::*;

use crate::error::{Error, Result};
use crate::text::{
    copy_range, decimal_digit, is_ascii_digit, is_decimal_digit, is_white_space, range_to_string,
    str_chars, trim, trim_bounds, trim_end, trim_start, white_space,
};

verus! {

/// One chapter marker: title + start time in milliseconds.
#[derive(Debug, Clone, PartialEq, Eq)]
pub struct Chapter {
    pub title: String,
    pub start_ms: u64,
}

// ---------------------------------------------------------------------------
// The chapter-line grammar
//
//     ^(?:(\d{1,2}):)?(\d{1,2}):(\d{2})\s+-\s+(.+?)\s*$
//
// applied to a trimmed line, with `\d` the Unicode decimal digits and `\s`
// the Unicode white space.
// ---------------------------------------------------------------------------

/// Length of the run of decimal digits that starts at `i`.
pub open spec fn digit_run(t: Seq<char>, i: int) -> nat
    decreases t.len() - i,
{
    if 0 <= i < t.len() && is_decimal_digit(t[i]) {
        1 + digit_run(t, i + 1)
    } else {
        0
    }
}

/// Length of the run of white space that starts at `i`.
pub open spec fn space_run(t: Seq<char>, i: int) -> nat
    decreases t.len() - i,
{
    if 0 <= i < t.len() && is_white_space(t[i]) {
        1 + space_run(t, i + 1)
    } else {
        0
    }
}

/// Where the capture groups of a matching line lie: each group is the range
/// `[start, end)` of the trimmed line, and the title runs to the line's end.
pub struct ChapterFields {
    pub hours: Option<(int, int)>,
    pub mins: (int, int),
    pub secs: (int, int),
    pub title: int,
}

/// After the seconds at position `q`: white space, `-`, white space, then a
/// non-empty title free of line feeds that runs to the end of the line (the
/// line is trimmed, so the trailing `\s*` matches nothing).  Gives where the
/// title begins.
pub open spec fn title_start(t: Seq<char>, q: int) -> Option<int> {
    let w1: int = space_run(t, q) as int;
    let d: int = q + w1;
    let w2: int = space_run(t, d + 1) as int;
    let ts: int = d + 1 + w2;
    if w1 >= 1 && d < t.len() && t[d] == '-' && w2 >= 1 && ts < t.len() && (forall|k: int|
        ts <= k < t.len() ==> t[k] != '\n') {
        Some(ts)
    } else {
        None
    }
}

/// The capture groups of the chapter grammar on a trimmed line, or `None`
/// where the line does not match.  The digit groups are whole digit runs:
/// `H:MM:SS` when a second `:` follows the second run, `MM:SS` otherwise.
#[verifier::opaque]
pub open spec fn chapter_fields(t: Seq<char>) -> Option<ChapterFields> {
    let k1: int = digit_run(t, 0) as int;
    let p2: int = k1 + 1;
    let k2: int = digit_run(t, p2) as int;
    let q: int = p2 + k2;
    if !(1 <= k1 <= 2 && k1 < t.len() && t[k1] == ':' && 1 <= k2 <= 2) {
        None
    } else if q < t.len() && t[q] == ':' {
        let p3: int = q + 1;
        if p3 + 1 < t.len() && is_decimal_digit(t[p3]) && is_decimal_digit(t[p3 + 1]) {
            match title_start(t, p3 + 2) {
                Some(ts) => Some(
                    ChapterFields {
                        hours: Some((0, k1)),
                        mins: (p2, q),
                        secs: (p3, p3 + 2),
                        title: ts,
                    },
                ),
                None => None,
            }
        } else {
            None
        }
    } else if k2 == 2 {
        match title_start(t, q) {
            Some(ts) => Some(
                ChapterFields { hours: None, mins: (0, k1), secs: (p2, q), title: ts },
            ),
            None => None,
        }
    } else {
        None
    }
}

/// Every character is an ASCII digit: what `u64::from_str` accepts of a
/// digit group.
pub open spec fn all_ascii_digits(s: Seq<char>) -> bool {
    forall|i: int| 0 <= i < s.len() ==> is_ascii_digit(#[trigger] s[i])
}

/// The decimal number that a string of ASCII digits spells.
pub open spec fn digits_value(s: Seq<char>) -> int
    decreases s.len(),
{
    if s.len() == 0 {
        0
    } else {
        digits_value(s.drop_last()) * 10 + (s.last() as int - '0' as int)
    }
}

/// What becomes of one line of a chapter list.
pub enum LineOutcome {
    /// Blank or `#` comment: no chapter.
    Skip,
    /// A chapter with this title and start.
    Entry { title: Seq<char>, start_ms: int },
    /// The line does not match the grammar, or its title is blank.
    Invalid,
    /// A minutes or seconds group holds a non-ASCII digit.
    BadTimestamp,
}

/// The outcome of one chapter line: trimmed, blank and `#` lines skipped, the
/// grammar applied; hours that do not parse count as 0, minutes or seconds
/// that do not parse are a bad timestamp.
pub open spec fn line_outcome(line: Seq<char>) -> LineOutcome {
    let t = trim(line);
    if t.len() == 0 || t[0] == '#' {
        LineOutcome::Skip
    } else {
        match chapter_fields(t) {
            None => LineOutcome::Invalid,
            Some(f) => fields_outcome(t, f),
        }
    }
}

/// The outcome of a trimmed line whose capture groups are `f`.
#[verifier::opaque]
pub open spec fn fields_outcome(t: Seq<char>, f: ChapterFields) -> LineOutcome {
    let hours = match f.hours {
        Some(h) => {
            let hs = t.subrange(h.0, h.1);
            if all_ascii_digits(hs) {
                digits_value(hs)
            } else {
                0
            }
        },
        None => 0,
    };
    let ms = t.subrange(f.mins.0, f.mins.1);
    let ss = t.subrange(f.secs.0, f.secs.1);
    if !all_ascii_digits(ms) || !all_ascii_digits(ss) {
        LineOutcome::BadTimestamp
    } else {
        let title = trim(t.subrange(f.title, t.len() as int));
        if title.len() == 0 {
            LineOutcome::Invalid
        } else {
            LineOutcome::Entry {
                title,
                start_ms: ((hours * 3600) + (digits_value(ms) * 60) + digits_value(ss)) * 1000,
            }
        }
    }
}

/// The error that a line that does not parse is reported with.
pub open spec fn line_error(line_no: usize, line: Seq<char>, e: Error) -> bool {
    match line_outcome(line) {
        LineOutcome::Invalid => e matches Error::InvalidChapter { line_no: n, line: l } && n
            == line_no && l@ == trim(line),
        LineOutcome::BadTimestamp => e matches Error::BadTimestamp { line_no: n, line: l } && n
            == line_no && l@ == trim(line),
        _ => false,
    }
}

/// What `parse_line` returns for `line` on line number `line_no`.
pub open spec fn parse_line_result(
    line_no: usize,
    line: Seq<char>,
    r: Result<Option<Chapter>>,
) -> bool {
    match line_outcome(line) {
        LineOutcome::Skip => r matches Ok(None),
        LineOutcome::Entry { title, start_ms } => r matches Ok(Some(ch)) && ch.title@ == title
            && ch.start_ms == start_ms,
        _ => r matches Err(e) && line_error(line_no, line, e),
    }
}

// ---------------------------------------------------------------------------
// Scanning
// ---------------------------------------------------------------------------

fn digit_run_end(t: &Vec<char>, i: usize) -> (j: usize)
    requires
        i <= t.len(),
    ensures
        j == i + digit_run(t@, i as int),
        j <= t.len(),
{
    let mut j = i;
    while j < t.len() && decimal_digit(t[j])
        invariant
            i <= j <= t.len(),
            digit_run(t@, i as int) == (j - i) + digit_run(t@, j as int),
        decreases t.len() - j,
    {
        j = j + 1;
    }
    j
}

fn space_run_end(t: &Vec<char>, i: usize) -> (j: usize)
    requires
        i <= t.len(),
    ensures
        j == i + space_run(t@, i as int),
        j <= t.len(),
{
    let mut j = i;
    while j < t.len() && white_space(t[j])
        invariant
            i <= j <= t.len(),
            space_run(t@, i as int) == (j - i) + space_run(t@, j as int),
        decreases t.len() - j,
    {
        j = j + 1;
    }
    j
}

#[verifier::loop_isolation(false)]
fn find_title_start(t: &Vec<char>, q: usize) -> (r: Option<usize>)
    requires
        q <= t.len(),
    ensures
        match title_start(t@, q as int) {
            Some(ts) => r == Some(ts as usize),
            None => r is None,
        },
{
    let d = space_run_end(t, q);
    if d == q || d >= t.len() || t[d] != '-' {
        return None;
    }
    let ts = space_run_end(t, d + 1);
    if ts == d + 1 || ts >= t.len() {
        return None;
    }
    let mut k = ts;
    while k < t.len()
        invariant
            ts <= k <= t.len(),
            forall|m: int| ts <= m < k ==> t@[m] != '\n',
        decreases t.len() - k,
    {
        if t[k] == '\n' {
            assert(ts <= k < t@.len() && t@[k as int] == '\n');
            return None;
        }
        k = k + 1;
    }
    Some(ts)
}

/// The value of the digit group `t[lo..hi]` (one or two characters), or
/// `None` where it holds a character other than an ASCII digit.
fn group_value(t: &Vec<char>, lo: usize, hi: usize) -> (r: Option<u64>)
    requires
        lo < hi <= t.len(),
        hi - lo <= 2,
    ensures
        r is Some <==> all_ascii_digits(t@.subrange(lo as int, hi as int)),
        r matches Some(v) ==> v == digits_value(t@.subrange(lo as int, hi as int)) && v <= 99,
{
    let mut v: u64 = 0;
    let mut i = lo;
    while i < hi
        invariant
            lo <= i <= hi <= t.len(),
            hi - lo <= 2,
            all_ascii_digits(t@.subrange(lo as int, i as int)),
            v == digits_value(t@.subrange(lo as int, i as int)),
            i == lo ==> v == 0,
            i == lo + 1 ==> v <= 9,
            v <= 99,
        decreases hi - i,
    {
        let c = t[i];
        if !('0' <= c && c <= '9') {
            assert(!is_ascii_digit(t@.subrange(lo as int, hi as int)[i - lo]));
            return None;
        }
        assert(t@.subrange(lo as int, i + 1).drop_last() =~= t@.subrange(lo as int, i as int));
        v = v * 10 + (c as u64 - 48);
        i = i + 1;
        assert(all_ascii_digits(t@.subrange(lo as int, i as int))) by {
            assert forall|m: int| 0 <= m < i - lo implies is_ascii_digit(
                #[trigger] t@.subrange(lo as int, i as int)[m],
            ) by {
                if m < i - 1 - lo {
                    assert(t@.subrange(lo as int, i as int)[m] == t@.subrange(
                        lo as int,
                        i - 1,
                    )[m]);
                }
            }
        }
    }
    Some(v)
}

/// Positions of the capture groups of a trimmed line: hours end (0 when
/// absent), minutes start and end, seconds start, title start.
fn match_fields(t: &Vec<char>) -> (r: Option<(usize, usize, usize, usize, usize)>)
    ensures
        match chapter_fields(t@) {
            None => r is None,
            Some(f) => r matches Some((he, ml, mh, sl, ts)) && (match f.hours {
                Some(h) => h.0 == 0 && h.1 == he && he > 0,
                None => he == 0,
            }) && f.mins == (ml as int, mh as int) && f.secs == (sl as int, sl + 2) && f.title
                == ts && ml < mh <= t.len() && mh - ml <= 2 && sl + 2 <= ts <= t.len() && (he
                > 0 ==> he <= 2),
        },
{
    reveal(chapter_fields);
    let k1 = digit_run_end(t, 0);
    if !(1 <= k1 && k1 <= 2 && k1 < t.len() && t[k1] == ':') {
        return None;
    }
    let p2 = k1 + 1;
    let q = digit_run_end(t, p2);
    if !(1 <= q - p2 && q - p2 <= 2) {
        return None;
    }
    if q < t.len() && t[q] == ':' {
        let p3 = q + 1;
        if !(p3 + 1 < t.len() && decimal_digit(t[p3]) && decimal_digit(t[p3 + 1])) {
            return None;
        }
        match find_title_start(t, p3 + 2) {
            Some(ts) => Some((k1, p2, q, p3, ts)),
            None => None,
        }
    } else {
        if q - p2 != 2 {
            return None;
        }
        match find_title_start(t, q) {
            Some(ts) => Some((0, 0, k1, p2, ts)),
            None => None,
        }
    }
}

/// The chapter, or the error, of a trimmed line whose capture groups lie at
/// the given positions; `text` is the trimmed line, for error reports.
fn chapter_from_fields(
    line_no: usize,
    t: &Vec<char>,
    hours_end: usize,
    mins_lo: usize,
    mins_hi: usize,
    secs_lo: usize,
    ts: usize,
    text: String,
    Ghost(f): Ghost<ChapterFields>,
) -> (r: Result<Option<Chapter>>)
    requires
        (match f.hours {
            Some(h) => h.0 == 0 && h.1 == hours_end && hours_end > 0,
            None => hours_end == 0,
        }),
        f.mins == (mins_lo as int, mins_hi as int),
        f.secs == (secs_lo as int, secs_lo + 2),
        f.title == ts,
        mins_lo < mins_hi <= t.len(),
        mins_hi - mins_lo <= 2,
        secs_lo + 2 <= ts <= t.len(),
        hours_end <= 2,
        hours_end <= t.len(),
    ensures
        match fields_outcome(t@, f) {
            LineOutcome::Entry { title, start_ms } => r matches Ok(Some(ch)) && ch.title@ == title
                && ch.start_ms == start_ms,
            LineOutcome::Invalid => r matches Err(Error::InvalidChapter { line_no: n, line: l })
                && n == line_no && l@ == text@,
            LineOutcome::BadTimestamp => r matches Err(Error::BadTimestamp { line_no: n, line: l })
                && n == line_no && l@ == text@,
            LineOutcome::Skip => false,
        },
{
    reveal(fields_outcome);
    let hours: u64 = if hours_end == 0 {
        0
    } else {
        match group_value(t, 0, hours_end) {
            Some(v) => v,
            None => 0,
        }
    };
    let mins = match group_value(t, mins_lo, mins_hi) {
        Some(v) => v,
        None => {
            return Err(Error::BadTimestamp { line_no, line: text });
        },
    };
    let secs = match group_value(t, secs_lo, secs_lo + 2) {
        Some(v) => v,
        None => {
            return Err(Error::BadTimestamp { line_no, line: text });
        },
    };
    let (ta, tb) = trim_bounds(t, ts, t.len());
    if ta == tb {
        return Err(Error::InvalidChapter { line_no, line: text });
    }
    let title = range_to_string(t, ta, tb);
    let start_ms = ((hours * 3600) + (mins * 60) + secs) * 1000;
    Ok(Some(Chapter { title, start_ms }))
}

/// Parse the characters of one line.
pub fn parse_line_chars(line_no: usize, line: &Vec<char>) -> (r: Result<Option<Chapter>>)
    ensures
        parse_line_result(line_no, line@, r),
{
    let (a, b) = trim_bounds(line, 0, line.len());
    let t = copy_range(line, a, b);
    assert(line@.subrange(0, line@.len() as int) =~= line@);
    assert(t@ == trim(line@));
    if t.len() == 0 || t[0] == '#' {
        return Ok(None);
    }
    let text = range_to_string(&t, 0, t.len());
    assert(t@.subrange(0, t@.len() as int) =~= t@);
    match match_fields(&t) {
        Some((hours_end, mins_lo, mins_hi, secs_lo, ts)) => chapter_from_fields(
            line_no,
            &t,
            hours_end,
            mins_lo,
            mins_hi,
            secs_lo,
            ts,
            text,
            Ghost(chapter_fields(t@).unwrap()),
        ),
        None => Err(Error::InvalidChapter { line_no, line: text }),
    }
}

impl Chapter {
    /// Parse a single YT-style chapter line into start_ms + title.
    ///
    /// Pattern groups: optional hours, mins, secs, title.
    /// `MM:SS` => hours=0; `HH:MM:SS` / `H:MM:SS` use the leading group.
    pub fn parse_line(line_no: usize, line: &str) -> (r: Result<Option<Self>>)
        ensures
            parse_line_result(line_no, line@, r),
    {
        let chars = str_chars(line);
        parse_line_chars(line_no, &chars)
    }
}

} // verus!

verus! {

// ---------------------------------------------------------------------------
// Chapter lists
// ---------------------------------------------------------------------------

/// Index of the first line feed at or after `i`, or the length of `s`.
pub open spec fn next_newline(s: Seq<char>, i: int) -> int
    decreases s.len() - i,
{
    if i >= s.len() {
        s.len() as int
    } else if 0 <= i && s[i] == '\n' {
        i
    } else {
        next_newline(s, i + 1)
    }
}

pub proof fn lemma_next_newline(s: Seq<char>, i: int)
    requires
        0 <= i <= s.len(),
    ensures
        i <= next_newline(s, i) <= s.len(),
        next_newline(s, i) < s.len() ==> s[next_newline(s, i)] == '\n',
        forall|k: int| i <= k < next_newline(s, i) ==> s[k] != '\n',
    decreases s.len() - i,
{
    if i < s.len() && s[i] != '\n' {
        lemma_next_newline(s, i + 1);
    }
}

/// The line that starts at `i`: up to the next line feed, without a carriage
/// return that stands right before that line feed.
pub open spec fn line_at(s: Seq<char>, i: int) -> Seq<char> {
    let e = next_newline(s, i);
    if e < s.len() && e > i && s[e - 1] == '\r' {
        s.subrange(i, e - 1)
    } else {
        s.subrange(i, e)
    }
}

/// The lines of `s[i..]`, as `str::lines` yields them.
pub open spec fn lines_from(s: Seq<char>, i: int) -> Seq<Seq<char>>
    decreases s.len() + 1 - i,
    via lines_from_decreases
{
    if i < 0 || i >= s.len() {
        Seq::empty()
    } else {
        seq![line_at(s, i)] + lines_from(s, next_newline(s, i) + 1)
    }
}

#[via_fn]
proof fn lines_from_decreases(s: Seq<char>, i: int) {
    if 0 <= i < s.len() {
        lemma_next_newline(s, i);
    }
}

/// The lines of `s`, as `str::lines` yields them.
pub open spec fn text_lines(s: Seq<char>) -> Seq<Seq<char>> {
    lines_from(s, 0)
}

/// A line that stops the whole list: one that does not parse.
pub open spec fn is_bad_line(line: Seq<char>) -> bool {
    line_outcome(line) is Invalid || line_outcome(line) is BadTimestamp
}

/// Title and start of every chapter among the first `n` lines.
pub open spec fn entries_upto(ls: Seq<Seq<char>>, n: int) -> Seq<(Seq<char>, int)>
    decreases n,
{
    if n <= 0 {
        Seq::empty()
    } else {
        let prev = entries_upto(ls, n - 1);
        match line_outcome(ls[n - 1]) {
            LineOutcome::Entry { title, start_ms } => prev.push((title, start_ms)),
            _ => prev,
        }
    }
}

/// Title and start of a chapter.
pub open spec fn chapter_entry(c: Chapter) -> (Seq<char>, int) {
    (c.title@, c.start_ms as int)
}

/// Title and start of each chapter of a list.
pub open spec fn chapter_entries(cs: Seq<Chapter>) -> Seq<(Seq<char>, int)> {
    cs.map_values(|c: Chapter| chapter_entry(c))
}

/// Whether the entries start in non-decreasing order.
pub open spec fn in_order(es: Seq<(Seq<char>, int)>) -> bool {
    forall|i: int| 0 <= i < es.len() - 1 ==> (#[trigger] es[i]).1 <= es[i + 1].1
}

/// The `{:?}` form of a string: quoted, with escapes.
pub uninterp spec fn debug_form(s: Seq<char>) -> Seq<char>;

/// `format!("{:?}", s)` of a string.  Its result is named, not stated: the
/// escaping follows Unicode tables.
#[verifier::external_body]
fn debug_text(s: &str) -> (r: String)
    ensures
        r@ == debug_form(s@),
{
    format!("{:?}", s)
}

/// The message that reports chapter `first` followed by the earlier
/// `second`: `chapters out of order: {:?} ({}ms) then {:?} ({}ms)`.
pub open spec fn out_of_order_text(
    first_title: Seq<char>,
    first_ms: u64,
    second_title: Seq<char>,
    second_ms: u64,
) -> Seq<char> {
    "chapters out of order: "@ + debug_form(first_title) + " ("@ + decimal(first_ms as nat)
        + "ms) then "@ + debug_form(second_title) + " ("@ + decimal(second_ms as nat) + "ms)"@
}

/// The message that reports chapter `first` followed by the earlier `second`.
fn out_of_order_message(first_title: &str, first_ms: u64, second_title: &str, second_ms: u64) -> (r:
    String)
    ensures
        r@ == out_of_order_text(first_title@, first_ms, second_title@, second_ms),
{
    let mut r = String::from_str("chapters out of order: ");
    r.append(debug_text(first_title).as_str());
    r.append(" (");
    push_decimal(&mut r, first_ms);
    r.append("ms) then ");
    r.append(debug_text(second_title).as_str());
    r.append(" (");
    push_decimal(&mut r, second_ms);
    r.append("ms)");
    assert(r@ =~= out_of_order_text(first_title@, first_ms, second_title@, second_ms));
    r
}

/// What `parse_chapters` returns for the text `s`: the first line that does
/// not parse is the error; else no chapter at all is `NoChapters`; else the
/// first pair out of order is reported; else all chapters, in file order.
pub open spec fn parse_chapters_result(s: Seq<char>, r: Result<Vec<Chapter>>) -> bool {
    let ls = text_lines(s);
    let es = entries_upto(ls, ls.len() as int);
    if exists|k: int| 0 <= k < ls.len() && is_bad_line(#[trigger] ls[k]) {
        let k = choose|k: int|
            0 <= k < ls.len() && is_bad_line(#[trigger] ls[k]) && forall|j: int|
                0 <= j < k ==> !is_bad_line(#[trigger] ls[j]);
        r matches Err(e) && line_error((k + 1) as usize, ls[k], e)
    } else if es.len() == 0 {
        r matches Err(Error::NoChapters)
    } else if !in_order(es) {
        let i = choose|i: int|
            0 <= i < es.len() - 1 && es[i + 1].1 < (#[trigger] es[i]).1 && forall|j: int|
                0 <= j < i ==> (#[trigger] es[j]).1 <= es[j + 1].1;
        r matches Err(Error::Path(msg)) && msg@ == out_of_order_text(
            es[i].0,
            es[i].1 as u64,
            es[i + 1].0,
            es[i + 1].1 as u64,
        )
    } else {
        r matches Ok(v) && chapter_entries(v@) == es
    }
}

} // verus!

verus! {

proof fn lemma_next_newline_at(s: Seq<char>, i: int, e: int)
    requires
        0 <= i <= e <= s.len(),
        forall|k: int| i <= k < e ==> s[k] != '\n',
        e == s.len() || s[e] == '\n',
    ensures
        next_newline(s, i) == e,
    decreases e - i,
{
    if i < e {
        lemma_next_newline_at(s, i + 1, e);
    }
}

proof fn lemma_entries_prefix(a: Seq<Seq<char>>, b: Seq<Seq<char>>, n: int)
    requires
        0 <= n <= a.len(),
        n <= b.len(),
        forall|k: int| 0 <= k < n ==> a[k] == b[k],
    ensures
        entries_upto(a, n) == entries_upto(b, n),
    decreases n,
{
    if n > 0 {
        lemma_entries_prefix(a, b, n - 1);
    }
}

/// Index of the first chapter that starts later than the next one.
fn first_out_of_order(chapters: &Vec<Chapter>) -> (r: Option<usize>)
    ensures
        match r {
            Some(j) => j + 1 < chapters.len() && chapters@[j + 1].start_ms
                < chapters@[j as int].start_ms && forall|m: int|
                0 <= m < j ==> (#[trigger] chapters@[m]).start_ms <= chapters@[m + 1].start_ms,
            None => in_order(chapter_entries(chapters@)),
        },
{
    if chapters.len() == 0 {
        return None;
    }
    let mut j: usize = 0;
    while j < chapters.len() - 1
        invariant
            0 < chapters.len(),
            j <= chapters.len() - 1,
            forall|m: int|
                0 <= m < j ==> (#[trigger] chapters@[m]).start_ms <= chapters@[m + 1].start_ms,
        decreases chapters.len() - j,
    {
        if chapters[j + 1].start_ms < chapters[j].start_ms {
            return Some(j);
        }
        j = j + 1;
    }
    assert forall|m: int| 0 <= m < chapter_entries(chapters@).len() - 1 implies (
    #[trigger] chapter_entries(chapters@)[m]).1 <= chapter_entries(chapters@)[m + 1].1 by {
        assert(chapters@[m].start_ms <= chapters@[m + 1].start_ms);
    }
    None
}

/// Read every chapter of a chapter list: the lines of `contents`, numbered
/// from 1, each parsed with `Chapter::parse_line`; the first line that does
/// not parse is the error; an empty list is `NoChapters`; chapters must be
/// non-decreasing in time.
pub fn parse_chapters(contents: &str) -> (r: Result<Vec<Chapter>>)
    ensures
        parse_chapters_result(contents@, r),
{
    let s = str_chars(contents);
    let n = s.len();
    let mut chapters: Vec<Chapter> = Vec::new();
    let mut i: usize = 0;
    let mut line_idx: usize = 0;
    let ghost mut done: Seq<Seq<char>> = Seq::empty();
    while i < n
        invariant
            i <= n == s@.len(),
            s@ == contents@,
            text_lines(s@) == done + lines_from(s@, i as int),
            done.len() == line_idx,
            line_idx <= i,
            forall|k: int| 0 <= k < done.len() ==> !is_bad_line(#[trigger] done[k]),
            chapter_entries(chapters@) == entries_upto(done, done.len() as int),
        decreases n - i,
    {
        let mut e = i;
        while e < n && s[e] != '\n'
            invariant
                i <= e <= n == s@.len(),
                forall|k: int| i <= k < e ==> s@[k] != '\n',
            decreases n - e,
        {
            e = e + 1;
        }
        proof {
            lemma_next_newline_at(s@, i as int, e as int);
        }
        let end = if e < n && e > i && s[e - 1] == '\r' {
            e - 1
        } else {
            e
        };
        let line = copy_range(&s, i, end);
        assert(line@ == line_at(s@, i as int));
        let ghost ls = text_lines(s@);
        assert(lines_from(s@, i as int) == seq![line@] + lines_from(
            s@,
            next_newline(s@, i as int) + 1,
        ));
        assert(ls[done.len() as int] == line@);
        let ghost old_done = done;
        let ghost old_chapters = chapters@;
        match parse_line_chars(line_idx + 1, &line) {
            Ok(Some(ch)) => {
                chapters.push(ch);
            },
            Ok(None) => {},
            Err(err) => {
                assert(is_bad_line(ls[line_idx as int]));
                assert forall|j: int| 0 <= j < line_idx implies !is_bad_line(#[trigger] ls[j]) by {
                    assert(ls[j] == done[j]);
                }
                return Err(err);
            },
        }
        proof {
            done = done.push(line@);
            lemma_entries_prefix(done, old_done, old_done.len() as int);
            assert(chapter_entries(chapters@) =~= entries_upto(done, done.len() as int));
            assert forall|k: int| 0 <= k < done.len() implies !is_bad_line(#[trigger] done[k]) by {
                if k < old_done.len() {
                    assert(done[k] == old_done[k]);
                }
            }
            assert(done + lines_from(s@, next_newline(s@, i as int) + 1) =~= old_done + (seq![
                line@,
            ] + lines_from(s@, next_newline(s@, i as int) + 1)));
        }
        line_idx = line_idx + 1;
        if e < n {
            i = e + 1;
        } else {
            i = n;
            assert(lines_from(s@, (e + 1) as int) =~= lines_from(s@, n as int));
        }
    }
    let ghost ls = text_lines(s@);
    assert(ls =~= done);
    if chapters.len() == 0 {
        return Err(Error::NoChapters);
    }
    let ghost es = entries_upto(ls, ls.len() as int);
    match first_out_of_order(&chapters) {
        Some(j) => {
            let msg = out_of_order_message(
                chapters[j].title.as_str(),
                chapters[j].start_ms,
                chapters[j + 1].title.as_str(),
                chapters[j + 1].start_ms,
            );
            assert(es[j as int] == chapter_entry(chapters@[j as int]));
            assert(es[j + 1] == chapter_entry(chapters@[j + 1]));
            assert(!in_order(es));
            let ghost c = choose|c: int|
                0 <= c < es.len() - 1 && es[c + 1].1 < (#[trigger] es[c]).1 && forall|m: int|
                    0 <= m < c ==> (#[trigger] es[m]).1 <= es[m + 1].1;
            assert(c == j) by {
                if c < j {
                    assert(es[c].1 <= es[c + 1].1);
                }
                if j < c {
                    assert(es[j as int].1 <= es[j + 1].1);
                }
            }
            return Err(Error::Path(msg));
        },
        None => {},
    }
    Ok(chapters)
}

} // verus!

verus! {

// ---------------------------------------------------------------------------
// FFMETADATA
// ---------------------------------------------------------------------------

/// Whether FFMETADATA escapes `c` with a backslash: `\`, `=`, `;`, `#` and
/// line feed.
pub open spec fn needs_escape(c: char) -> bool {
    c == '\\' || c == '=' || c == ';' || c == '#' || c == '\n'
}

/// `s` with a backslash before every character that needs escaping.
pub open spec fn escaped(s: Seq<char>) -> Seq<char>
    decreases s.len(),
{
    if s.len() == 0 {
        Seq::empty()
    } else {
        escaped(s.drop_last()) + if needs_escape(s.last()) {
            seq!['\\', s.last()]
        } else {
            seq![s.last()]
        }
    }
}

/// Escape special chars per ffmetadata rules: `\`, `=`, `;`, `#`, `\n`.
pub fn escape_ffmeta(s: &str) -> (r: String)
    ensures
        r@ == escaped(s@),
{
    let cs = str_chars(s);
    let mut out = String::new();
    for i in 0..cs.len()
        invariant
            cs@ == s@,
            out@ == escaped(cs@.subrange(0, i as int)),
    {
        let c = cs[i];
        assert(cs@.subrange(0, i + 1).drop_last() =~= cs@.subrange(0, i as int));
        if c == '\\' || c == '=' || c == ';' || c == '#' || c == '\n' {
            out.push('\\');
            out.push(c);
        } else {
            out.push(c);
        }
        assert(out@ =~= escaped(cs@.subrange(0, i + 1)));
    }
    assert(cs@.subrange(0, cs@.len() as int) =~= cs@);
    out
}

/// The ASCII digit for `d < 10`.
pub open spec fn digit_char(d: int) -> char {
    (48 + d) as char
}

/// The decimal form of `n`, as `{}` formats an integer.
pub open spec fn decimal(n: nat) -> Seq<char>
    decreases n,
{
    if n < 10 {
        seq![digit_char(n as int)]
    } else {
        decimal(n / 10) + seq![digit_char((n % 10) as int)]
    }
}

/// Append the decimal form of `n` to `out`.
fn push_decimal(out: &mut String, n: u64)
    ensures
        final(out)@ == old(out)@ + decimal(n as nat),
    decreases n,
{
    if n >= 10 {
        push_decimal(out, n / 10);
    }
    let d = (n % 10) as u8;
    out.push((48u8 + d) as char);
    assert(final(out)@ =~= old(out)@ + decimal(n as nat));
}

/// `x - 1`, stopping at 0.
pub open spec fn minus_one_saturating(x: u64) -> int {
    if x == 0 {
        0
    } else {
        x - 1
    }
}

/// Where chapter `i` ends: 1 ms before the next chapter starts; the last one
/// ends 1 ms before the video does, but never before its own start.
pub open spec fn chapter_end_ms(chapters: Seq<Chapter>, i: int, duration_ms: u64) -> int {
    if i + 1 < chapters.len() {
        minus_one_saturating(chapters[i + 1].start_ms)
    } else if minus_one_saturating(duration_ms) >= chapters[i].start_ms {
        minus_one_saturating(duration_ms)
    } else {
        chapters[i].start_ms as int
    }
}

/// The `[CHAPTER]` block of one chapter.
pub open spec fn chapter_block(title: Seq<char>, start_ms: nat, end_ms: nat) -> Seq<char> {
    "\n[CHAPTER]\nTIMEBASE=1/1000\nSTART="@ + decimal(start_ms) + "\nEND="@ + decimal(end_ms)
        + "\ntitle="@ + escaped(title) + "\n"@
}

/// The blocks of the first `n` chapters.
pub open spec fn chapter_blocks(chapters: Seq<Chapter>, duration_ms: u64, n: int) -> Seq<char>
    decreases n,
{
    if n <= 0 {
        Seq::empty()
    } else {
        chapter_blocks(chapters, duration_ms, n - 1) + chapter_block(
            chapters[n - 1].title@,
            chapters[n - 1].start_ms as nat,
            chapter_end_ms(chapters, n - 1, duration_ms) as nat,
        )
    }
}

/// The whole FFMETADATA file for a chapter list.
pub open spec fn ffmetadata(chapters: Seq<Chapter>, duration_ms: u64) -> Seq<char> {
    ";FFMETADATA1\n"@ + chapter_blocks(chapters, duration_ms, chapters.len() as int)
}

/// Append the `[CHAPTER]` block of one chapter to `out`.
fn push_block(out: &mut String, title: &str, start_ms: u64, end_ms: u64)
    ensures
        final(out)@ == old(out)@ + chapter_block(title@, start_ms as nat, end_ms as nat),
{
    let escaped_title = escape_ffmeta(title);
    out.append("\n[CHAPTER]\nTIMEBASE=1/1000\nSTART=");
    push_decimal(out, start_ms);
    out.append("\nEND=");
    push_decimal(out, end_ms);
    out.append("\ntitle=");
    out.append(escaped_title.as_str());
    out.append("\n");
    assert(final(out)@ =~= old(out)@ + chapter_block(title@, start_ms as nat, end_ms as nat));
}

/// Build FFMETADATA chapter blocks. `duration_ms` ends the final chapter.
pub fn format_ffmetadata(chapters: &[Chapter], duration_ms: u64) -> (r: Result<String>)
    ensures
        chapters@.len() == 0 ==> r matches Err(Error::NoChapters),
        chapters@.len() > 0 ==> (r matches Ok(s) && s@ == ffmetadata(chapters@, duration_ms)),
{
    if chapters.len() == 0 {
        return Err(Error::NoChapters);
    }
    let mut out = String::new();
    out.append(";FFMETADATA1\n");
    let n = chapters.len();
    for i in 0..n
        invariant
            n == chapters@.len(),
            out@ == ";FFMETADATA1\n"@ + chapter_blocks(chapters@, duration_ms, i as int),
    {
        let chapter = &chapters[i];
        let end_ms = if i + 1 < n {
            let next = chapters[i + 1].start_ms;
            if next == 0 {
                0
            } else {
                next - 1
            }
        } else {
            let last = if duration_ms == 0 {
                0
            } else {
                duration_ms - 1
            };
            if last >= chapter.start_ms {
                last
            } else {
                chapter.start_ms
            }
        };
        push_block(&mut out, chapter.title.as_str(), chapter.start_ms, end_ms);
        assert(out@ =~= ";FFMETADATA1\n"@ + chapter_blocks(chapters@, duration_ms, i + 1));
    }
    Ok(out)
}

} // verus!

verus! {

// ---------------------------------------------------------------------------
// Laws
// ---------------------------------------------------------------------------

/// White space around a line does not matter: a line and its trimmed form
/// have the same outcome.
pub proof fn lemma_line_outcome_ignores_surrounding_space(line: Seq<char>)
    ensures
        line_outcome(trim(line)) == line_outcome(line),
{
    crate::text::lemma_trim_idempotent(line);
}

/// A chapter list that parses holds at least one chapter, in non-decreasing
/// order of start.
pub proof fn lemma_parsed_chapters_ordered(text: Seq<char>, chapters: Vec<Chapter>)
    requires
        parse_chapters_result(text, Ok(chapters)),
    ensures
        chapters@.len() > 0,
        forall|i: int|
            0 <= i < chapters@.len() - 1 ==> (#[trigger] chapters@[i]).start_ms <= chapters@[i
                + 1].start_ms,
{
    let es = chapter_entries(chapters@);
    assert forall|i: int| 0 <= i < chapters@.len() - 1 implies (#[trigger] chapters@[i]).start_ms
        <= chapters@[i + 1].start_ms by {
        assert(es[i].1 <= es[i + 1].1);
    }
}

/// Where chapters start in strictly increasing order, each one ends exactly
/// 1 ms before the next begins, and none ends before it starts.
pub proof fn lemma_chapter_ends(chapters: Seq<Chapter>, duration_ms: u64)
    requires
        forall|i: int|
            0 <= i < chapters.len() - 1 ==> (#[trigger] chapters[i]).start_ms < chapters[i
                + 1].start_ms,
    ensures
        forall|i: int|
            0 <= i < chapters.len() - 1 ==> chapter_end_ms(chapters, i, duration_ms) + 1
                == #[trigger] chapters[i + 1].start_ms,
        forall|i: int|
            0 <= i < chapters.len() ==> chapter_end_ms(chapters, i, duration_ms)
                >= (#[trigger] chapters[i]).start_ms,
{
    assert forall|i: int| 0 <= i < chapters.len() - 1 implies chapter_end_ms(
        chapters,
        i,
        duration_ms,
    ) + 1 == #[trigger] chapters[i + 1].start_ms by {
        assert(chapters[i].start_ms < chapters[i + 1].start_ms);
    }
    assert forall|i: int| 0 <= i < chapters.len() implies chapter_end_ms(chapters, i, duration_ms)
        >= (#[trigger] chapters[i]).start_ms by {
        if i + 1 < chapters.len() {
            assert(chapters[i].start_ms < chapters[i + 1].start_ms);
        }
    }
}

/// How FFMETADATA is read back: a backslash stands for the character after it.
pub open spec fn unescaped(s: Seq<char>) -> Seq<char>
    decreases s.len(),
{
    if s.len() == 0 {
        Seq::empty()
    } else if s[0] == '\\' && s.len() >= 2 {
        seq![s[1]] + unescaped(s.subrange(2, s.len() as int))
    } else {
        seq![s[0]] + unescaped(s.drop_first())
    }
}

proof fn lemma_escaped_concat(a: Seq<char>, b: Seq<char>)
    ensures
        escaped(a + b) == escaped(a) + escaped(b),
    decreases b.len(),
{
    if b.len() == 0 {
        assert(a + b =~= a);
        assert(escaped(b) =~= Seq::<char>::empty());
        assert(escaped(a) + escaped(b) =~= escaped(a));
    } else {
        lemma_escaped_concat(a, b.drop_last());
        assert((a + b).drop_last() =~= a + b.drop_last());
        assert((a + b).last() == b.last());
        let tail = if needs_escape(b.last()) {
            seq!['\\', b.last()]
        } else {
            seq![b.last()]
        };
        assert(escaped(a + b) == escaped(a + b.drop_last()) + tail);
        assert(escaped(b) == escaped(b.drop_last()) + tail);
        assert(escaped(a) + escaped(b.drop_last()) + tail =~= escaped(a) + (escaped(
            b.drop_last(),
        ) + tail));
    }
}

/// Escaping loses nothing: reading an escaped title back gives the title.
pub proof fn lemma_unescape_escaped(s: Seq<char>)
    ensures
        unescaped(escaped(s)) == s,
    decreases s.len(),
{
    if s.len() > 0 {
        let c = s[0];
        let t = s.drop_first();
        assert(s =~= seq![c] + t);
        lemma_escaped_concat(seq![c], t);
        assert(seq![c].drop_last() =~= Seq::<char>::empty());
        assert(escaped(Seq::<char>::empty()) =~= Seq::<char>::empty());
        lemma_unescape_escaped(t);
        let e = escaped(t);
        if needs_escape(c) {
            assert(escaped(seq![c]) =~= seq!['\\', c]);
            let w = seq!['\\', c] + e;
            assert(w.subrange(2, w.len() as int) =~= e);
        } else {
            assert(escaped(seq![c]) =~= seq![c]);
            let w = seq![c] + e;
            assert(w.drop_first() =~= e);
        }
        assert(seq![c] + t =~= s);
    }
}

/// The decimal form of a number is made of ASCII digits and reads back as
/// that number: the `START=` and `END=` values are the milliseconds.
pub proof fn lemma_decimal_reads_back(n: nat)
    ensures
        all_ascii_digits(decimal(n)),
        digits_value(decimal(n)) == n,
    decreases n,
{
    let d = decimal(n);
    let last = (n % 10) as int;
    assert(digit_char(last) as int == 48 + last);
    assert(d.last() == digit_char(last));
    assert(digits_value(d) == digits_value(d.drop_last()) * 10 + (d.last() as int - '0' as int));
    if n < 10 {
        assert(d.drop_last() =~= Seq::<char>::empty());
    } else {
        assert((n / 10) * 10 + n % 10 == n);
        lemma_decimal_reads_back(n / 10);
        assert(d.drop_last() =~= decimal(n / 10));
        assert forall|i: int| 0 <= i < d.len() implies is_ascii_digit(#[trigger] d[i]) by {
            if i < d.len() - 1 {
                assert(d[i] == decimal(n / 10)[i]);
            }
        }
    }
}

} // verus!

verus! {

/// White space padded before and after a line changes nothing: the padded
/// line has the same outcome, and `parse_line` returns for it what it returns
/// for the line.
pub proof fn lemma_line_outcome_ignores_padding(ws1: Seq<char>, line: Seq<char>, ws2: Seq<char>)
    requires
        crate::text::all_white_space(ws1),
        crate::text::all_white_space(ws2),
    ensures
        line_outcome(ws1 + line + ws2) == line_outcome(line),
        trim(ws1 + line + ws2) == trim(line),
        forall|n: usize, r: Result<Option<Chapter>>|
            parse_line_result(n, ws1 + line + ws2, r) == parse_line_result(n, line, r),
{
    crate::text::lemma_trim_ignores_padding(ws1, line, ws2);
}

} // verus!

verus! {

/// A chapter list is accepted exactly when every line parses, at least one
/// line is a chapter and the starts never go back; it is then read as it
/// stands: its chapters, in file order, whatever time the first one starts at.
pub proof fn lemma_parse_chapters_accepts(text: Seq<char>, r: Result<Vec<Chapter>>)
    requires
        parse_chapters_result(text, r),
    ensures
        r is Ok <==> ((forall|k: int|
            0 <= k < text_lines(text).len() ==> !is_bad_line(#[trigger] text_lines(text)[k]))
            && entries_upto(text_lines(text), text_lines(text).len() as int).len() > 0 && in_order(
            entries_upto(text_lines(text), text_lines(text).len() as int),
        )),
        r is Ok ==> chapter_entries(r->Ok_0@) == entries_upto(
            text_lines(text),
            text_lines(text).len() as int,
        ),
{
}

} // verus!

verus! {

/// One or two ASCII digits: a minutes or hours group as chapter lists write it.
pub open spec fn is_short_number(s: Seq<char>) -> bool {
    1 <= s.len() <= 2 && all_ascii_digits(s)
}

/// Exactly two ASCII digits: a seconds group.
pub open spec fn is_two_digits(s: Seq<char>) -> bool {
    s.len() == 2 && all_ascii_digits(s)
}

/// A title that needs no trimming: not empty, no white space at either end,
/// no line feed.
pub open spec fn is_plain_title(title: Seq<char>) -> bool {
    &&& title.len() > 0
    &&& !is_white_space(title[0])
    &&& !is_white_space(title.last())
    &&& forall|k: int| 0 <= k < title.len() ==> #[trigger] title[k] != '\n'
}

proof fn lemma_ascii_digit_class(c: char)
    requires
        is_ascii_digit(c),
    ensures
        is_decimal_digit(c),
        !is_white_space(c),
        c != '#',
{
}

proof fn lemma_digit_run_exact(t: Seq<char>, i: int, n: int)
    requires
        0 <= i,
        0 <= n,
        i + n <= t.len(),
        forall|j: int| i <= j < i + n ==> is_decimal_digit(#[trigger] t[j]),
        i + n == t.len() || !is_decimal_digit(t[i + n]),
    ensures
        digit_run(t, i) == n,
    decreases n,
{
    if n > 0 {
        lemma_digit_run_exact(t, i + 1, n - 1);
    }
}

/// The tail ` - title` of a chapter line, from the space at `q` on: the title
/// starts three characters later.
proof fn lemma_title_start_plain(t: Seq<char>, q: int, title: Seq<char>)
    requires
        0 <= q <= t.len(),
        t.subrange(q, t.len() as int) == seq![' ', '-', ' '] + title,
        is_plain_title(title),
    ensures
        title_start(t, q) == Some(q + 3),
        t.subrange(q + 3, t.len() as int) == title,
{
    let tail = seq![' ', '-', ' '] + title;
    assert(tail.len() == title.len() + 3);
    assert(t.subrange(q, t.len() as int).len() == tail.len());
    assert(t.len() == q + title.len() + 3);
    assert forall|k: int| q <= k < t.len() implies #[trigger] t[k] == tail[k - q] by {
        assert(t.subrange(q, t.len() as int)[k - q] == t[k]);
    }
    assert(t[q] == tail[0]);
    assert(t[q + 1] == tail[1]);
    assert(t[q + 2] == tail[2]);
    assert(t[q + 3] == tail[3]);
    assert(space_run(t, q + 1) == 0);
    assert(space_run(t, q) == 1);
    assert(space_run(t, q + 3) == 0);
    assert(space_run(t, q + 2) == 1);
    assert(t.subrange(q + 3, t.len() as int) =~= title) by {
        assert forall|k: int| 0 <= k < title.len() implies t.subrange(q + 3, t.len() as int)[k]
            == title[k] by {
            assert(t[q + 3 + k] == tail[3 + k]);
        }
    }
    assert forall|k: int| q + 3 <= k < t.len() implies t[k] != '\n' by {
        assert(t[k] == tail[k - q]);
        assert(title[k - q - 3] != '\n');
    }
}

proof fn lemma_plain_line_trimmed(line: Seq<char>, title: Seq<char>)
    requires
        line.len() > 0,
        is_ascii_digit(line[0]),
        title.len() > 0,
        line.last() == title.last(),
        !is_white_space(title[0]),
        !is_white_space(title.last()),
    ensures
        trim(line) == line,
        trim(title) == title,
{
    lemma_ascii_digit_class(line[0]);
}

/// The `M:SS - Title` and `MM:SS - Title` forms: minutes of one or two
/// digits, seconds of two, then ` - ` and the title.  Such a line is a
/// chapter with that title, starting `minutes * 60 + seconds` seconds in.
pub proof fn lemma_minutes_line(mins: Seq<char>, secs: Seq<char>, title: Seq<char>)
    requires
        is_short_number(mins),
        is_two_digits(secs),
        is_plain_title(title),
    ensures
        line_outcome(mins + seq![':'] + secs + seq![' ', '-', ' '] + title) == (LineOutcome::Entry {
            title,
            start_ms: (digits_value(mins) * 60 + digits_value(secs)) * 1000,
        }),
{
    let t = mins + seq![':'] + secs + seq![' ', '-', ' '] + title;
    let k1 = mins.len() as int;
    let p2 = k1 + 1;
    let q = p2 + 2;
    assert forall|j: int| 0 <= j < k1 implies t[j] == mins[j] && is_decimal_digit(
        #[trigger] t[j],
    ) by {
        lemma_ascii_digit_class(mins[j]);
    }
    assert(t[k1] == ':');
    assert forall|j: int| p2 <= j < q implies t[j] == secs[j - p2] && is_decimal_digit(
        #[trigger] t[j],
    ) by {
        lemma_ascii_digit_class(secs[j - p2]);
    }
    assert(t[q] == ' ');
    lemma_digit_run_exact(t, 0, k1);
    lemma_digit_run_exact(t, p2, 2);
    assert(t.subrange(q, t.len() as int) =~= seq![' ', '-', ' '] + title);
    lemma_title_start_plain(t, q, title);
    lemma_ascii_digit_class(mins[0]);
    assert(t.last() == title.last());
    lemma_plain_line_trimmed(t, title);
    assert(trim(t) == t);
    reveal(chapter_fields);
    let f = ChapterFields { hours: None, mins: (0, k1), secs: (p2, q), title: q + 3 };
    assert(chapter_fields(t) == Some(f));
    reveal(fields_outcome);
    assert(t.subrange(0, k1) =~= mins);
    assert(t.subrange(p2, q) =~= secs);
}

/// The `H:MM:SS - Title` and `HH:MM:SS - Title` forms: hours and minutes of
/// one or two digits, seconds of two, then ` - ` and the title.  Such a line
/// is a chapter with that title, starting
/// `hours * 3600 + minutes * 60 + seconds` seconds in.
pub proof fn lemma_hours_line(hours: Seq<char>, mins: Seq<char>, secs: Seq<char>, title: Seq<char>)
    requires
        is_short_number(hours),
        is_short_number(mins),
        is_two_digits(secs),
        is_plain_title(title),
    ensures
        line_outcome(
            hours + seq![':'] + mins + seq![':'] + secs + seq![' ', '-', ' '] + title,
        ) == (LineOutcome::Entry {
            title,
            start_ms: (digits_value(hours) * 3600 + digits_value(mins) * 60 + digits_value(secs))
                * 1000,
        }),
{
    let t = hours + seq![':'] + mins + seq![':'] + secs + seq![' ', '-', ' '] + title;
    let k1 = hours.len() as int;
    let p2 = k1 + 1;
    let q = p2 + mins.len();
    let p3 = q + 1;
    assert forall|j: int| 0 <= j < k1 implies t[j] == hours[j] && is_decimal_digit(
        #[trigger] t[j],
    ) by {
        lemma_ascii_digit_class(hours[j]);
    }
    assert(t[k1] == ':');
    assert forall|j: int| p2 <= j < q implies t[j] == mins[j - p2] && is_decimal_digit(
        #[trigger] t[j],
    ) by {
        lemma_ascii_digit_class(mins[j - p2]);
    }
    assert(t[q] == ':');
    assert forall|j: int| p3 <= j < p3 + 2 implies t[j] == secs[j - p3] && is_decimal_digit(
        #[trigger] t[j],
    ) by {
        lemma_ascii_digit_class(secs[j - p3]);
    }
    lemma_digit_run_exact(t, 0, k1);
    lemma_digit_run_exact(t, p2, mins.len() as int);
    assert(t.subrange(p3 + 2, t.len() as int) =~= seq![' ', '-', ' '] + title);
    lemma_title_start_plain(t, p3 + 2, title);
    lemma_ascii_digit_class(hours[0]);
    assert(t.last() == title.last());
    lemma_plain_line_trimmed(t, title);
    assert(trim(t) == t);
    reveal(chapter_fields);
    let f = ChapterFields {
        hours: Some((0, k1)),
        mins: (p2, q),
        secs: (p3, p3 + 2),
        title: p3 + 5,
    };
    assert(chapter_fields(t) == Some(f));
    reveal(fields_outcome);
    assert(t.subrange(0, k1) =~= hours);
    assert(t.subrange(p2, q) =~= mins);
    assert(t.subrange(p3, p3 + 2) =~= secs);
}

} // verus!

verus! {

/// The `[CHAPTER]` block of chapter `k`: its start, its end as
/// `chapter_end_ms` gives it, and its escaped title.
pub open spec fn block_of(chapters: Seq<Chapter>, duration_ms: u64, k: int) -> Seq<char> {
    chapter_block(
        chapters[k].title@,
        chapters[k].start_ms as nat,
        chapter_end_ms(chapters, k, duration_ms) as nat,
    )
}

proof fn lemma_blocks_prefix(chapters: Seq<Chapter>, duration_ms: u64, k: int, n: int)
    requires
        0 <= k <= n,
    ensures
        chapter_blocks(chapters, duration_ms, k).len() <= chapter_blocks(
            chapters,
            duration_ms,
            n,
        ).len(),
        chapter_blocks(chapters, duration_ms, n).subrange(
            0,
            chapter_blocks(chapters, duration_ms, k).len() as int,
        ) == chapter_blocks(chapters, duration_ms, k),
    decreases n - k,
{
    let b = chapter_blocks(chapters, duration_ms, n);
    let p = chapter_blocks(chapters, duration_ms, k);
    if k < n {
        lemma_blocks_prefix(chapters, duration_ms, k, n - 1);
        let a = chapter_blocks(chapters, duration_ms, n - 1);
        assert(b == a + block_of(chapters, duration_ms, n - 1));
        assert(b.subrange(0, p.len() as int) =~= a.subrange(0, p.len() as int));
    } else {
        assert(b.subrange(0, p.len() as int) =~= b);
    }
}

/// The FFMETADATA text of a chapter list is the `;FFMETADATA1` header and
/// then the `[CHAPTER]` block of every chapter, in the list's order: each
/// block ends where the next one begins, the first begins right after the
/// header and the last ends the text.  The end written in each block is
/// `chapter_end_ms`: 1 ms before the next chapter starts, or for the last
/// one 1 ms before the video ends but never before its own start.
pub proof fn lemma_ffmetadata_layout(chapters: Seq<Chapter>, duration_ms: u64, k: int)
    requires
        0 <= k < chapters.len(),
    ensures
        ffmetadata(chapters, duration_ms).subrange(0, ";FFMETADATA1\n"@.len() as int)
            == ";FFMETADATA1\n"@,
        exists|off: int|
            {
                &&& ";FFMETADATA1\n"@.len() <= off
                &&& k == 0 ==> off == ";FFMETADATA1\n"@.len()
                &&& off + block_of(chapters, duration_ms, k).len() <= ffmetadata(
                    chapters,
                    duration_ms,
                ).len()
                &&& #[trigger] ffmetadata(chapters, duration_ms).subrange(
                    off,
                    off + block_of(chapters, duration_ms, k).len(),
                ) == block_of(chapters, duration_ms, k)
                &&& k + 1 < chapters.len() ==> ffmetadata(chapters, duration_ms).subrange(
                    off + block_of(chapters, duration_ms, k).len(),
                    off + block_of(chapters, duration_ms, k).len() + block_of(
                        chapters,
                        duration_ms,
                        k + 1,
                    ).len(),
                ) == block_of(chapters, duration_ms, k + 1)
                &&& k + 1 == chapters.len() ==> off + block_of(chapters, duration_ms, k).len()
                    == ffmetadata(chapters, duration_ms).len()
            },
{
    let h = ";FFMETADATA1\n"@;
    let n = chapters.len() as int;
    let text = ffmetadata(chapters, duration_ms);
    let all = chapter_blocks(chapters, duration_ms, n);
    let pre = chapter_blocks(chapters, duration_ms, k);
    let bk = block_of(chapters, duration_ms, k);
    let off: int = (h.len() + pre.len()) as int;
    let lk: int = bk.len() as int;
    let pl: int = pre.len() as int;
    assert(text == h + all);
    assert(text.subrange(0, h.len() as int) =~= h);
    assert(chapter_blocks(chapters, duration_ms, k + 1) == pre + bk);
    if k + 1 < n {
        let bn = block_of(chapters, duration_ms, k + 1);
        let ln: int = bn.len() as int;
        assert(chapter_blocks(chapters, duration_ms, k + 2) == pre + bk + bn);
        lemma_blocks_prefix(chapters, duration_ms, k + 2, n);
        let w = pre + bk + bn;
        assert(all.subrange(0, w.len() as int) == w);
        assert(text.subrange(off, off + lk) =~= bk) by {
            assert forall|i: int| 0 <= i < lk implies text.subrange(off, off + lk)[i]
                == bk[i] by {
                assert(text[off + i] == all[pl + i]);
                assert(all[pl + i] == w[pl + i]);
            }
        }
        assert(text.subrange(off + lk, off + lk + ln) =~= bn) by {
            assert forall|i: int| 0 <= i < ln implies text.subrange(
                off + lk,
                off + lk + ln,
            )[i] == bn[i] by {
                assert(text[off + lk + i] == all[pl + lk + i]);
                assert(all[pl + lk + i] == w[pl + lk + i]);
            }
        }
    } else {
        assert(all == pre + bk);
        assert(text.subrange(off, off + lk) =~= bk);
    }
    if k == 0 {
        assert(pre.len() == 0);
    }
    assert(text.subrange(off, off + lk) == bk);
}

} // verus!

verus! {

proof fn lemma_trim_end_keeps_first(s: Seq<char>)
    requires
        s.len() > 0,
        !is_white_space(s[0]),
    ensures
        trim_end(s).len() > 0,
        trim_end(s)[0] == s[0],
    decreases s.len(),
{
    if is_white_space(s.last()) {
        assert(s.len() >= 2);
        assert(s.drop_last()[0] == s[0]);
        lemma_trim_end_keeps_first(s.drop_last());
    }
}

/// Blank lines and comment lines are skipped: a line of nothing but white
/// space, and one whose first character past any leading white space is `#`.
pub proof fn lemma_blank_and_comment_lines_skipped(ws: Seq<char>, rest: Seq<char>)
    requires
        crate::text::all_white_space(ws),
    ensures
        line_outcome(ws) is Skip,
        line_outcome(ws + seq!['#'] + rest) is Skip,
{
    let e = Seq::<char>::empty();
    crate::text::lemma_trim_ignores_padding(ws, e, e);
    assert(ws + e + e =~= ws);
    let x = seq!['#'] + rest;
    crate::text::lemma_trim_ignores_padding(ws, x, e);
    assert(ws + x + e =~= ws + seq!['#'] + rest);
    assert(x[0] == '#');
    assert(trim_start(x) == x);
    lemma_trim_end_keeps_first(x);
}

/// A line that is neither blank nor a comment is not a chapter line when,
/// white space aside, it does not begin with a digit, or when it holds no
/// `-` to part the time from the title.
pub proof fn lemma_lines_without_time_or_dash_invalid(line: Seq<char>)
    requires
        trim(line).len() > 0,
        trim(line)[0] != '#',
        !is_decimal_digit(trim(line)[0]) || forall|k: int|
            0 <= k < trim(line).len() ==> #[trigger] trim(line)[k] != '-',
    ensures
        line_outcome(line) is Invalid,
{
    let t = trim(line);
    reveal(chapter_fields);
    assert(chapter_fields(t) is None);
}

/// How many characters of `s` FFMETADATA escapes: `\`, `=`, `;`, `#` and
/// line feed.
pub open spec fn special_count(s: Seq<char>) -> nat
    decreases s.len(),
{
    if s.len() == 0 {
        0
    } else {
        special_count(s.drop_last()) + if s.last() == '\\' || s.last() == '=' || s.last() == ';'
            || s.last() == '#' || s.last() == '\n' {
            1nat
        } else {
            0nat
        }
    }
}

/// Escaping puts one backslash before each `\`, `=`, `;`, `#` and line feed
/// and adds nothing else: the escaped title is longer by the number of those
/// characters, and none of `=`, `;`, `#` or line feed stands in it without a
/// backslash right before it.
pub proof fn lemma_escape_marks_specials(s: Seq<char>)
    ensures
        escaped(s).len() == s.len() + special_count(s),
        forall|i: int|
            0 <= i < escaped(s).len() && (#[trigger] escaped(s)[i] == '=' || escaped(s)[i] == ';'
                || escaped(s)[i] == '#' || escaped(s)[i] == '\n') ==> i > 0 && escaped(s)[i - 1]
                == '\\',
    decreases s.len(),
{
    if s.len() > 0 {
        let p = s.drop_last();
        lemma_escape_marks_specials(p);
        let e = escaped(s);
        let ep = escaped(p);
        let c = s.last();
        let tail = if needs_escape(c) {
            seq!['\\', c]
        } else {
            seq![c]
        };
        assert(e == ep + tail);
        assert forall|i: int|
            0 <= i < e.len() && (#[trigger] e[i] == '=' || e[i] == ';' || e[i] == '#' || e[i] == '\n') implies i
            > 0 && e[i - 1] == '\\' by {
            if i < ep.len() {
                assert(e[i] == ep[i]);
                assert(e[i - 1] == ep[i - 1]);
            } else if needs_escape(c) {
                if i == ep.len() {
                    assert(e[i] == '\\');
                } else {
                    assert(e[i - 1] == tail[0]);
                }
            } else {
                assert(e[i] == c);
            }
        }
    }
}

} // verus!
