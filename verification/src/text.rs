//! Character classes, trimming and conversions between `str`, `String` and
//! vectors of characters.
use vstd::prelude::*;

verus! {

/// Unicode `White_Space`: the characters that `str::trim` removes and that the
/// chapter grammar's `\s` matches.
pub open spec fn is_white_space(c: char) -> bool {
    let x = c as u32;
    ||| 0x9 <= x <= 0xD
    ||| x == 0x20
    ||| x == 0x85
    ||| x == 0xA0
    ||| x == 0x1680
    ||| 0x2000 <= x <= 0x200A
    ||| x == 0x2028
    ||| x == 0x2029
    ||| x == 0x202F
    ||| x == 0x205F
    ||| x == 0x3000
}

/// Unicode general category `Nd` (Unicode 16.0): the characters that the
/// chapter grammar's `\d` matches.
pub open spec fn is_decimal_digit(c: char) -> bool {
    let x = c as u32;
    ||| 0x30 <= x <= 0x39
    ||| 0x660 <= x <= 0x669
    ||| 0x6F0 <= x <= 0x6F9
    ||| 0x7C0 <= x <= 0x7C9
    ||| 0x966 <= x <= 0x96F
    ||| 0x9E6 <= x <= 0x9EF
    ||| 0xA66 <= x <= 0xA6F
    ||| 0xAE6 <= x <= 0xAEF
    ||| 0xB66 <= x <= 0xB6F
    ||| 0xBE6 <= x <= 0xBEF
    ||| 0xC66 <= x <= 0xC6F
    ||| 0xCE6 <= x <= 0xCEF
    ||| 0xD66 <= x <= 0xD6F
    ||| 0xDE6 <= x <= 0xDEF
    ||| 0xE50 <= x <= 0xE59
    ||| 0xED0 <= x <= 0xED9
    ||| 0xF20 <= x <= 0xF29
    ||| 0x1040 <= x <= 0x1049
    ||| 0x1090 <= x <= 0x1099
    ||| 0x17E0 <= x <= 0x17E9
    ||| 0x1810 <= x <= 0x1819
    ||| 0x1946 <= x <= 0x194F
    ||| 0x19D0 <= x <= 0x19D9
    ||| 0x1A80 <= x <= 0x1A89
    ||| 0x1A90 <= x <= 0x1A99
    ||| 0x1B50 <= x <= 0x1B59
    ||| 0x1BB0 <= x <= 0x1BB9
    ||| 0x1C40 <= x <= 0x1C49
    ||| 0x1C50 <= x <= 0x1C59
    ||| 0xA620 <= x <= 0xA629
    ||| 0xA8D0 <= x <= 0xA8D9
    ||| 0xA900 <= x <= 0xA909
    ||| 0xA9D0 <= x <= 0xA9D9
    ||| 0xA9F0 <= x <= 0xA9F9
    ||| 0xAA50 <= x <= 0xAA59
    ||| 0xABF0 <= x <= 0xABF9
    ||| 0xFF10 <= x <= 0xFF19
    ||| 0x104A0 <= x <= 0x104A9
    ||| 0x10D30 <= x <= 0x10D39
    ||| 0x10D40 <= x <= 0x10D49
    ||| 0x11066 <= x <= 0x1106F
    ||| 0x110F0 <= x <= 0x110F9
    ||| 0x11136 <= x <= 0x1113F
    ||| 0x111D0 <= x <= 0x111D9
    ||| 0x112F0 <= x <= 0x112F9
    ||| 0x11450 <= x <= 0x11459
    ||| 0x114D0 <= x <= 0x114D9
    ||| 0x11650 <= x <= 0x11659
    ||| 0x116C0 <= x <= 0x116C9
    ||| 0x116D0 <= x <= 0x116E3
    ||| 0x11730 <= x <= 0x11739
    ||| 0x118E0 <= x <= 0x118E9
    ||| 0x11950 <= x <= 0x11959
    ||| 0x11BF0 <= x <= 0x11BF9
    ||| 0x11C50 <= x <= 0x11C59
    ||| 0x11D50 <= x <= 0x11D59
    ||| 0x11DA0 <= x <= 0x11DA9
    ||| 0x11F50 <= x <= 0x11F59
    ||| 0x16130 <= x <= 0x16139
    ||| 0x16A60 <= x <= 0x16A69
    ||| 0x16AC0 <= x <= 0x16AC9
    ||| 0x16B50 <= x <= 0x16B59
    ||| 0x16D70 <= x <= 0x16D79
    ||| 0x1CCF0 <= x <= 0x1CCF9
    ||| 0x1D7CE <= x <= 0x1D7FF
    ||| 0x1E140 <= x <= 0x1E149
    ||| 0x1E2F0 <= x <= 0x1E2F9
    ||| 0x1E4F0 <= x <= 0x1E4F9
    ||| 0x1E5F1 <= x <= 0x1E5FA
    ||| 0x1E950 <= x <= 0x1E959
    ||| 0x1FBF0 <= x <= 0x1FBF9
}

/// An ASCII digit `0`..`9`, the only digits that `u64::from_str` accepts.
pub open spec fn is_ascii_digit(c: char) -> bool {
    '0' <= c <= '9'
}

pub fn white_space(c: char) -> (r: bool)
    ensures
        r == is_white_space(c),
{
    let x = c as u32;
    (0x9 <= x && x <= 0xD) || x == 0x20 || x == 0x85 || x == 0xA0 || x == 0x1680 || (0x2000 <= x
        && x <= 0x200A) || x == 0x2028 || x == 0x2029 || x == 0x202F || x == 0x205F || x == 0x3000
}

pub fn decimal_digit(c: char) -> (r: bool)
    ensures
        r == is_decimal_digit(c),
{
    let x = c as u32;
        (0x30 <= x && x <= 0x39) ||
        (0x660 <= x && x <= 0x669) ||
        (0x6F0 <= x && x <= 0x6F9) ||
        (0x7C0 <= x && x <= 0x7C9) ||
        (0x966 <= x && x <= 0x96F) ||
        (0x9E6 <= x && x <= 0x9EF) ||
        (0xA66 <= x && x <= 0xA6F) ||
        (0xAE6 <= x && x <= 0xAEF) ||
        (0xB66 <= x && x <= 0xB6F) ||
        (0xBE6 <= x && x <= 0xBEF) ||
        (0xC66 <= x && x <= 0xC6F) ||
        (0xCE6 <= x && x <= 0xCEF) ||
        (0xD66 <= x && x <= 0xD6F) ||
        (0xDE6 <= x && x <= 0xDEF) ||
        (0xE50 <= x && x <= 0xE59) ||
        (0xED0 <= x && x <= 0xED9) ||
        (0xF20 <= x && x <= 0xF29) ||
        (0x1040 <= x && x <= 0x1049) ||
        (0x1090 <= x && x <= 0x1099) ||
        (0x17E0 <= x && x <= 0x17E9) ||
        (0x1810 <= x && x <= 0x1819) ||
        (0x1946 <= x && x <= 0x194F) ||
        (0x19D0 <= x && x <= 0x19D9) ||
        (0x1A80 <= x && x <= 0x1A89) ||
        (0x1A90 <= x && x <= 0x1A99) ||
        (0x1B50 <= x && x <= 0x1B59) ||
        (0x1BB0 <= x && x <= 0x1BB9) ||
        (0x1C40 <= x && x <= 0x1C49) ||
        (0x1C50 <= x && x <= 0x1C59) ||
        (0xA620 <= x && x <= 0xA629) ||
        (0xA8D0 <= x && x <= 0xA8D9) ||
        (0xA900 <= x && x <= 0xA909) ||
        (0xA9D0 <= x && x <= 0xA9D9) ||
        (0xA9F0 <= x && x <= 0xA9F9) ||
        (0xAA50 <= x && x <= 0xAA59) ||
        (0xABF0 <= x && x <= 0xABF9) ||
        (0xFF10 <= x && x <= 0xFF19) ||
        (0x104A0 <= x && x <= 0x104A9) ||
        (0x10D30 <= x && x <= 0x10D39) ||
        (0x10D40 <= x && x <= 0x10D49) ||
        (0x11066 <= x && x <= 0x1106F) ||
        (0x110F0 <= x && x <= 0x110F9) ||
        (0x11136 <= x && x <= 0x1113F) ||
        (0x111D0 <= x && x <= 0x111D9) ||
        (0x112F0 <= x && x <= 0x112F9) ||
        (0x11450 <= x && x <= 0x11459) ||
        (0x114D0 <= x && x <= 0x114D9) ||
        (0x11650 <= x && x <= 0x11659) ||
        (0x116C0 <= x && x <= 0x116C9) ||
        (0x116D0 <= x && x <= 0x116E3) ||
        (0x11730 <= x && x <= 0x11739) ||
        (0x118E0 <= x && x <= 0x118E9) ||
        (0x11950 <= x && x <= 0x11959) ||
        (0x11BF0 <= x && x <= 0x11BF9) ||
        (0x11C50 <= x && x <= 0x11C59) ||
        (0x11D50 <= x && x <= 0x11D59) ||
        (0x11DA0 <= x && x <= 0x11DA9) ||
        (0x11F50 <= x && x <= 0x11F59) ||
        (0x16130 <= x && x <= 0x16139) ||
        (0x16A60 <= x && x <= 0x16A69) ||
        (0x16AC0 <= x && x <= 0x16AC9) ||
        (0x16B50 <= x && x <= 0x16B59) ||
        (0x16D70 <= x && x <= 0x16D79) ||
        (0x1CCF0 <= x && x <= 0x1CCF9) ||
        (0x1D7CE <= x && x <= 0x1D7FF) ||
        (0x1E140 <= x && x <= 0x1E149) ||
        (0x1E2F0 <= x && x <= 0x1E2F9) ||
        (0x1E4F0 <= x && x <= 0x1E4F9) ||
        (0x1E5F1 <= x && x <= 0x1E5FA) ||
        (0x1E950 <= x && x <= 0x1E959) ||
        (0x1FBF0 <= x && x <= 0x1FBF9)
}

/// The sequence with its leading white space removed.
pub open spec fn trim_start(s: Seq<char>) -> Seq<char>
    decreases s.len(),
{
    if s.len() > 0 && is_white_space(s[0]) {
        trim_start(s.drop_first())
    } else {
        s
    }
}

/// The sequence with its trailing white space removed.
pub open spec fn trim_end(s: Seq<char>) -> Seq<char>
    decreases s.len(),
{
    if s.len() > 0 && is_white_space(s.last()) {
        trim_end(s.drop_last())
    } else {
        s
    }
}

/// What `str::trim` returns.
pub open spec fn trim(s: Seq<char>) -> Seq<char> {
    trim_end(trim_start(s))
}

/// Bounds `(a, b)` of the trimmed part of `s[lo..hi]`.
pub fn trim_bounds(s: &Vec<char>, lo: usize, hi: usize) -> (r: (usize, usize))
    requires
        lo <= hi <= s.len(),
    ensures
        lo <= r.0 <= r.1 <= hi,
        s@.subrange(r.0 as int, r.1 as int) == trim(s@.subrange(lo as int, hi as int)),
{
    let mut i = lo;
    while i < hi && white_space(s[i])
        invariant
            lo <= i <= hi <= s.len(),
            trim_start(s@.subrange(lo as int, hi as int)) == trim_start(
                s@.subrange(i as int, hi as int),
            ),
        decreases hi - i,
    {
        assert(s@.subrange(i as int, hi as int).drop_first() =~= s@.subrange(
            i + 1,
            hi as int,
        ));
        i = i + 1;
    }
    let mut j = hi;
    while j > i && white_space(s[j - 1])
        invariant
            i <= j <= hi <= s.len(),
            trim_start(s@.subrange(lo as int, hi as int)) == s@.subrange(i as int, hi as int),
            trim_end(s@.subrange(i as int, hi as int)) == trim_end(
                s@.subrange(i as int, j as int),
            ),
        decreases j - i,
    {
        assert(s@.subrange(i as int, j as int).drop_last() =~= s@.subrange(
            i as int,
            j - 1,
        ));
        j = j - 1;
    }
    (i, j)
}

/// Contract of `String::push` as its documentation states it: the character is
/// appended at the end.
pub assume_specification[ String::push ](s: &mut String, ch: char)
    ensures
        final(s)@ == old(s)@.push(ch),
;

/// The characters of `s`, in order.
pub fn str_chars(s: &str) -> (v: Vec<char>)
    ensures
        v@ == s@,
{
    broadcast use vstd::string::group_string_axioms;
    let mut v: Vec<char> = Vec::new();
    for c in it: s.chars()
        invariant
            v@ == it.seq().take(it.index() as int),
    {
        v.push(c);
    }
    v
}

/// The characters `s[lo..hi]` as a vector.
pub fn copy_range(s: &Vec<char>, lo: usize, hi: usize) -> (v: Vec<char>)
    requires
        lo <= hi <= s.len(),
    ensures
        v@ == s@.subrange(lo as int, hi as int),
{
    let mut v: Vec<char> = Vec::new();
    for i in lo..hi
        invariant
            lo <= hi <= s.len(),
            v@ == s@.subrange(lo as int, i as int),
    {
        v.push(s[i]);
        assert(v@ =~= s@.subrange(lo as int, i + 1));
    }
    v
}

/// The characters `s[lo..hi]` as a `String`.
pub fn range_to_string(s: &Vec<char>, lo: usize, hi: usize) -> (r: String)
    requires
        lo <= hi <= s.len(),
    ensures
        r@ == s@.subrange(lo as int, hi as int),
{
    let mut r = String::new();
    for i in lo..hi
        invariant
            lo <= hi <= s.len(),
            r@ == s@.subrange(lo as int, i as int),
    {
        r.push(s[i]);
        assert(r@ =~= s@.subrange(lo as int, i + 1));
    }
    r
}

} // verus!

verus! {

proof fn lemma_trim_start_shape(s: Seq<char>)
    ensures
        trim_start(s).len() == 0 || !is_white_space(trim_start(s)[0]),
    decreases s.len(),
{
    if s.len() > 0 && is_white_space(s[0]) {
        lemma_trim_start_shape(s.drop_first());
    }
}

proof fn lemma_trim_end_shape(s: Seq<char>)
    ensures
        trim_end(s).len() == 0 || !is_white_space(trim_end(s).last()),
        trim_end(s).len() > 0 ==> trim_end(s)[0] == s[0],
    decreases s.len(),
{
    if s.len() > 0 && is_white_space(s.last()) {
        lemma_trim_end_shape(s.drop_last());
    }
}

/// Trimming twice is trimming once.
pub proof fn lemma_trim_idempotent(s: Seq<char>)
    ensures
        trim(trim(s)) == trim(s),
{
    let u = trim_start(s);
    let t = trim_end(u);
    lemma_trim_start_shape(s);
    lemma_trim_end_shape(u);
    assert(trim_start(t) == t);
    assert(trim_end(t) == t);
}

} // verus!

verus! {

/// Every character of `s` is white space.
pub open spec fn all_white_space(s: Seq<char>) -> bool {
    forall|i: int| 0 <= i < s.len() ==> is_white_space(#[trigger] s[i])
}

proof fn lemma_trim_start_skips(w: Seq<char>, x: Seq<char>)
    requires
        all_white_space(w),
    ensures
        trim_start(w + x) == trim_start(x),
    decreases w.len(),
{
    if w.len() == 0 {
        assert(w + x =~= x);
    } else {
        assert(is_white_space(w[0]));
        assert((w + x)[0] == w[0]);
        assert((w + x).drop_first() =~= w.drop_first() + x);
        lemma_trim_start_skips(w.drop_first(), x);
    }
}

proof fn lemma_trim_end_skips(x: Seq<char>, w: Seq<char>)
    requires
        all_white_space(w),
    ensures
        trim_end(x + w) == trim_end(x),
    decreases w.len(),
{
    if w.len() == 0 {
        assert(x + w =~= x);
    } else {
        assert(is_white_space(w.last()));
        assert((x + w).last() == w.last());
        assert((x + w).drop_last() =~= x + w.drop_last());
        lemma_trim_end_skips(x, w.drop_last());
    }
}

proof fn lemma_trim_start_append(x: Seq<char>, w: Seq<char>)
    requires
        all_white_space(w),
    ensures
        trim_start(x + w) == if trim_start(x).len() == 0 {
            Seq::<char>::empty()
        } else {
            trim_start(x) + w
        },
    decreases x.len(),
{
    if x.len() == 0 {
        assert(x + w =~= w + x);
        lemma_trim_start_skips(w, x);
    } else if is_white_space(x[0]) {
        assert((x + w)[0] == x[0]);
        assert((x + w).drop_first() =~= x.drop_first() + w);
        lemma_trim_start_append(x.drop_first(), w);
    } else {
        assert((x + w)[0] == x[0]);
    }
}

/// White space added before and after a text does not change its trimmed form.
pub proof fn lemma_trim_ignores_padding(ws1: Seq<char>, s: Seq<char>, ws2: Seq<char>)
    requires
        all_white_space(ws1),
        all_white_space(ws2),
    ensures
        trim(ws1 + s + ws2) == trim(s),
{
    assert(ws1 + s + ws2 =~= ws1 + (s + ws2));
    lemma_trim_start_skips(ws1, s + ws2);
    lemma_trim_start_append(s, ws2);
    if trim_start(s).len() > 0 {
        lemma_trim_end_skips(trim_start(s), ws2);
    }
}

} // verus!
