//! Which file of a folder is the video to chapterize, and where the
//! chapterized copy goes.
use std::path::{Path, PathBuf};
use vstd::prelude::*;

use crate::error::{Error, Result};

verus! {

// ---------------------------------------------------------------------------
// File names, as the bytes of the name
// ---------------------------------------------------------------------------

/// Index of the last `.` among the first `n` bytes.
pub open spec fn last_dot_before(name: Seq<u8>, n: int) -> Option<int>
    decreases n,
{
    if n <= 0 {
        None
    } else if name[n - 1] == 0x2Eu8 {
        Some(n - 1)
    } else {
        last_dot_before(name, n - 1)
    }
}

/// The extension of a file name, as `Path::extension` takes it: the bytes
/// after the last `.`, where that dot is not the name's first byte; `..` has
/// none.
pub open spec fn extension(name: Seq<u8>) -> Option<Seq<u8>> {
    if name == seq![0x2Eu8, 0x2Eu8] {
        None
    } else {
        match last_dot_before(name, name.len() as int) {
            Some(k) => if k > 0 {
                Some(name.subrange(k + 1, name.len() as int))
            } else {
                None
            },
            None => None,
        }
    }
}

/// ASCII lower case of one byte; other bytes are left as they are.
pub open spec fn ascii_lower(b: u8) -> u8 {
    if 0x41 <= b <= 0x5A {
        (b + 0x20) as u8
    } else {
        b
    }
}

/// ASCII lower case of a byte string.
pub open spec fn ascii_lowercase(s: Seq<u8>) -> Seq<u8> {
    s.map_values(|b: u8| ascii_lower(b))
}

/// The extensions treated as video: `mp4`, `mkv`, `avi`, `mov`, `webm`, `m4v`.
pub open spec fn video_extensions() -> Seq<Seq<u8>> {
    seq![
        seq![0x6Du8, 0x70u8, 0x34u8],
        seq![0x6Du8, 0x6Bu8, 0x76u8],
        seq![0x61u8, 0x76u8, 0x69u8],
        seq![0x6Du8, 0x6Fu8, 0x76u8],
        seq![0x77u8, 0x65u8, 0x62u8, 0x6Du8],
        seq![0x6Du8, 0x34u8, 0x76u8],
    ]
}

/// A file whose extension is one of the video extensions, ignoring ASCII case.
pub open spec fn is_video_name(name: Seq<u8>) -> bool {
    match extension(name) {
        Some(e) => video_extensions().contains(ascii_lowercase(e)),
        None => false,
    }
}

/// Whether `pat` occurs in `s`.
pub open spec fn contains_bytes(s: Seq<u8>, pat: Seq<u8>) -> bool {
    exists|i: int| 0 <= i <= s.len() - pat.len() && #[trigger] s.subrange(i, i + pat.len()) == pat
}

/// ` copy`, `.chapterized.` and `_chapterized.`: names that look like
/// duplicates of a video.
pub open spec fn duplicate_markers() -> Seq<Seq<u8>> {
    seq![
        seq![0x20u8, 0x63u8, 0x6Fu8, 0x70u8, 0x79u8],
        seq![
            0x2Eu8, 0x63u8, 0x68u8, 0x61u8, 0x70u8, 0x74u8, 0x65u8, 0x72u8, 0x69u8,
            0x7Au8, 0x65u8, 0x64u8, 0x2Eu8,
        ],
        seq![
            0x5Fu8, 0x63u8, 0x68u8, 0x61u8, 0x70u8, 0x74u8, 0x65u8, 0x72u8, 0x69u8,
            0x7Au8, 0x65u8, 0x64u8, 0x2Eu8,
        ],
    ]
}

/// A name that does not look like a duplicate: not valid UTF-8 (then it
/// counts as the empty name), or free of every duplicate marker once in
/// ASCII lower case.
pub open spec fn is_preferred_name(name: Seq<u8>) -> bool {
    !vstd::utf8::valid_utf8(name) || forall|m: int|
        0 <= m < duplicate_markers().len() ==> !contains_bytes(
            ascii_lowercase(name),
            #[trigger] duplicate_markers()[m],
        )
}

/// Byte-wise lexicographic order, the order of file names.
pub open spec fn bytes_lt(a: Seq<u8>, b: Seq<u8>) -> bool
    decreases a.len(),
{
    if a.len() == 0 {
        b.len() > 0
    } else if b.len() == 0 {
        false
    } else if a[0] != b[0] {
        a[0] < b[0]
    } else {
        bytes_lt(a.drop_first(), b.drop_first())
    }
}

/// Entry `i` comes before entry `j`: by name, and by position among equal
/// names (a stable sort).
pub open spec fn entry_before(names: Seq<Seq<u8>>, i: int, j: int) -> bool {
    bytes_lt(names[i], names[j]) || (names[i] == names[j] && i < j)
}

/// `order` lists every video among `names`, each once, sorted by name.
pub open spec fn is_video_order(names: Seq<Seq<u8>>, order: Seq<usize>) -> bool {
    &&& forall|k: int|
        0 <= k < order.len() ==> #[trigger] order[k] < names.len() && is_video_name(
            names[order[k] as int],
        )
    &&& forall|i: int|
        0 <= i < names.len() && is_video_name(#[trigger] names[i]) ==> order.contains(i as usize)
    &&& forall|a: int, b: int|
        0 <= a < b < order.len() ==> entry_before(names, #[trigger] order[a] as int, #[trigger] order[b] as int)
}

/// The entries of `order[..n]` whose names do not look like duplicates.
pub open spec fn preferred_upto(names: Seq<Seq<u8>>, order: Seq<usize>, n: int) -> Seq<usize>
    decreases n,
{
    if n <= 0 {
        Seq::empty()
    } else if is_preferred_name(names[order[n - 1] as int]) {
        preferred_upto(names, order, n - 1).push(order[n - 1])
    } else {
        preferred_upto(names, order, n - 1)
    }
}

/// Outcome of choosing a video among the files of a folder.
pub enum VideoChoice {
    /// No file has a video extension.
    NoVideo,
    /// The entry with this index.
    Chosen(usize),
    /// Several videos and no single preferred one: all videos, sorted.
    Ambiguous(Vec<usize>),
}

/// The choice among `names`, given their sorted videos `order`: none, the
/// only one, the only one that does not look like a duplicate, or all of them.
pub open spec fn choice_from_order(names: Seq<Seq<u8>>, order: Seq<usize>, c: VideoChoice) -> bool {
    let preferred = preferred_upto(names, order, order.len() as int);
    match c {
        VideoChoice::NoVideo => order.len() == 0,
        VideoChoice::Chosen(k) => (order.len() == 1 && k == order[0]) || (order.len() > 1
            && preferred.len() == 1 && k == preferred[0]),
        VideoChoice::Ambiguous(v) => order.len() > 1 && preferred.len() != 1 && v@ == order,
    }
}

} // verus!

verus! {

fn lower_byte(b: u8) -> (r: u8)
    ensures
        r == ascii_lower(b),
{
    if 0x41 <= b && b <= 0x5A {
        b + 0x20
    } else {
        b
    }
}

/// Video extension number `k` (`k < 6`).
fn video_extension(k: usize) -> (r: Vec<u8>)
    requires
        k < 6,
    ensures
        r@ == video_extensions()[k as int],
{
    let r = if k == 0 {
        vec![0x6Du8, 0x70u8, 0x34u8]
    } else if k == 1 {
        vec![0x6Du8, 0x6Bu8, 0x76u8]
    } else if k == 2 {
        vec![0x61u8, 0x76u8, 0x69u8]
    } else if k == 3 {
        vec![0x6Du8, 0x6Fu8, 0x76u8]
    } else if k == 4 {
        vec![0x77u8, 0x65u8, 0x62u8, 0x6Du8]
    } else {
        vec![0x6Du8, 0x34u8, 0x76u8]
    };
    assert(r@ =~= video_extensions()[k as int]);
    r
}

/// Duplicate marker number `k` (`k < 3`).
fn duplicate_marker(k: usize) -> (r: Vec<u8>)
    requires
        k < 3,
    ensures
        r@ == duplicate_markers()[k as int],
{
    let r = if k == 0 {
        vec![0x20u8, 0x63u8, 0x6Fu8, 0x70u8, 0x79u8]
    } else if k == 1 {
        vec![
            0x2Eu8, 0x63u8, 0x68u8, 0x61u8, 0x70u8, 0x74u8, 0x65u8, 0x72u8, 0x69u8,
            0x7Au8, 0x65u8, 0x64u8, 0x2Eu8,
        ]
    } else {
        vec![
            0x5Fu8, 0x63u8, 0x68u8, 0x61u8, 0x70u8, 0x74u8, 0x65u8, 0x72u8, 0x69u8,
            0x7Au8, 0x65u8, 0x64u8, 0x2Eu8,
        ]
    };
    assert(r@ =~= duplicate_markers()[k as int]);
    r
}

/// ASCII lower case of a byte string.
fn lowercase_bytes(s: &Vec<u8>) -> (r: Vec<u8>)
    ensures
        r@ == ascii_lowercase(s@),
{
    let mut r: Vec<u8> = Vec::new();
    for i in 0..s.len()
        invariant
            r@ == ascii_lowercase(s@.subrange(0, i as int)),
    {
        r.push(lower_byte(s[i]));
        assert(r@ =~= ascii_lowercase(s@.subrange(0, i + 1)));
    }
    assert(s@.subrange(0, s@.len() as int) =~= s@);
    r
}

fn bytes_equal(a: &Vec<u8>, b: &Vec<u8>) -> (r: bool)
    ensures
        r == (a@ == b@),
{
    if a.len() != b.len() {
        return false;
    }
    for i in 0..a.len()
        invariant
            a@.len() == b@.len(),
            forall|k: int| 0 <= k < i ==> a@[k] == b@[k],
    {
        if a[i] != b[i] {
            return false;
        }
    }
    assert(a@ =~= b@);
    true
}

fn contains_pattern(s: &Vec<u8>, pat: &Vec<u8>) -> (r: bool)
    ensures
        r == contains_bytes(s@, pat@),
{
    if pat.len() > s.len() {
        return false;
    }
    if pat.len() == 0 {
        assert(s@.subrange(0, 0int + pat@.len()) =~= pat@);
        return true;
    }
    let last = s.len() - pat.len();
    let mut i: usize = 0;
    while i < last + 1
        invariant
            last == s.len() - pat.len(),
            last < s.len(),
            forall|j: int| 0 <= j < i ==> #[trigger] s@.subrange(j, j + pat@.len()) != pat@,
        decreases last + 1 - i,
    {
        let mut k: usize = 0;
        let mut same = true;
        while k < pat.len()
            invariant
                i <= last == s.len() - pat.len(),
                k <= pat.len(),
                same == forall|m: int| 0 <= m < k ==> s@[i + m] == pat@[m],
            decreases pat.len() - k,
        {
            if s[i + k] != pat[k] {
                same = false;
            }
            k = k + 1;
        }
        if same {
            assert(s@.subrange(i as int, i + pat@.len()) =~= pat@);
            return true;
        }
        assert(s@.subrange(i as int, i + pat@.len()) != pat@) by {
            let m = choose|m: int| 0 <= m < pat.len() && s@[i + m] != pat@[m];
            assert(s@.subrange(i as int, i + pat@.len())[m] != pat@[m]);
        }
        i = i + 1;
    }
    false
}

/// Contract of `std::str::from_utf8` as its documentation states it: it
/// succeeds exactly on valid UTF-8.
#[verifier::external_body]
fn is_utf8(bytes: &[u8]) -> (r: bool)
    ensures
        r == vstd::utf8::valid_utf8(bytes@),
{
    std::str::from_utf8(bytes).is_ok()
}

/// Whether the file name has a video extension.
pub fn is_video_file_name(name: &Vec<u8>) -> (r: bool)
    ensures
        r == is_video_name(name@),
{
    if name.len() == 2 && name[0] == 0x2E && name[1] == 0x2E {
        assert(name@ =~= seq![0x2Eu8, 0x2Eu8]);
        return false;
    }
    assert(name@ != seq![0x2Eu8, 0x2Eu8]);
    let mut n = name.len();
    while n > 0 && name[n - 1] != 0x2E
        invariant
            n <= name.len(),
            last_dot_before(name@, name.len() as int) == last_dot_before(name@, n as int),
        decreases n,
    {
        n = n - 1;
    }
    if n <= 1 {
        return false;
    }
    let ext = lowercase_bytes(&vstd::slice::slice_to_vec(
        vstd::slice::slice_subrange(name.as_slice(), n, name.len()),
    ));
    assert(ext@ == ascii_lowercase(name@.subrange(n as int, name.len() as int)));
    for k in 0..6
        invariant
            ext@ == ascii_lowercase(name@.subrange(n as int, name.len() as int)),
            extension(name@) == Some(name@.subrange(n as int, name.len() as int)),
            forall|j: int| 0 <= j < k ==> video_extensions()[j] != ext@,
    {
        let e = video_extension(k);
        if bytes_equal(&ext, &e) {
            assert(video_extensions()[k as int] == ext@);
            return true;
        }
    }
    false
}

/// Whether the file name does not look like a duplicate of a video.
pub fn is_preferred_file_name(name: &Vec<u8>) -> (r: bool)
    ensures
        r == is_preferred_name(name@),
{
    if !is_utf8(name.as_slice()) {
        return true;
    }
    let lower = lowercase_bytes(name);
    for k in 0..3
        invariant
            vstd::utf8::valid_utf8(name@),
            lower@ == ascii_lowercase(name@),
            forall|j: int|
                0 <= j < k ==> !contains_bytes(ascii_lowercase(name@), #[trigger] duplicate_markers()[j]),
    {
        let m = duplicate_marker(k);
        if contains_pattern(&lower, &m) {
            return false;
        }
    }
    true
}

} // verus!

verus! {

// ---------------------------------------------------------------------------
// The order of file names
// ---------------------------------------------------------------------------

/// No byte string comes before itself.
pub proof fn lemma_bytes_lt_irreflexive(a: Seq<u8>)
    ensures
        !bytes_lt(a, a),
    decreases a.len(),
{
    if a.len() > 0 {
        lemma_bytes_lt_irreflexive(a.drop_first());
    }
}

/// Of two different byte strings exactly one comes first.
pub proof fn lemma_bytes_lt_total(a: Seq<u8>, b: Seq<u8>)
    ensures
        a != b ==> bytes_lt(a, b) || bytes_lt(b, a),
        !(bytes_lt(a, b) && bytes_lt(b, a)),
    decreases a.len(),
{
    if a.len() == 0 {
        if b.len() == 0 {
            assert(a =~= b);
        }
    } else if b.len() > 0 && a[0] == b[0] {
        lemma_bytes_lt_total(a.drop_first(), b.drop_first());
        if a.drop_first() == b.drop_first() {
            assert(a =~= b) by {
                assert forall|k: int| 0 <= k < a.len() implies a[k] == b[k] by {
                    if k > 0 {
                        assert(a[k] == a.drop_first()[k - 1]);
                        assert(b[k] == b.drop_first()[k - 1]);
                    }
                }
            }
        }
    }
}

/// The order of byte strings is transitive.
pub proof fn lemma_bytes_lt_transitive(a: Seq<u8>, b: Seq<u8>, c: Seq<u8>)
    requires
        bytes_lt(a, b),
        bytes_lt(b, c),
    ensures
        bytes_lt(a, c),
    decreases a.len(),
{
    if a.len() > 0 && b.len() > 0 && c.len() > 0 && a[0] == b[0] && b[0] == c[0] {
        lemma_bytes_lt_transitive(a.drop_first(), b.drop_first(), c.drop_first());
    }
}

/// Entries are strictly and totally ordered: of two different entries exactly
/// one comes first, and the order is transitive.
pub proof fn lemma_entry_order(names: Seq<Seq<u8>>, i: int, j: int, k: int)
    ensures
        i != j ==> entry_before(names, i, j) || entry_before(names, j, i),
        !(entry_before(names, i, j) && entry_before(names, j, i)),
        entry_before(names, i, j) && entry_before(names, j, k) ==> entry_before(names, i, k),
{
    lemma_bytes_lt_total(names[i], names[j]);
    lemma_bytes_lt_irreflexive(names[i]);
    lemma_bytes_lt_irreflexive(names[j]);
    if entry_before(names, i, j) && entry_before(names, j, k) {
        if bytes_lt(names[i], names[j]) && bytes_lt(names[j], names[k]) {
            lemma_bytes_lt_transitive(names[i], names[j], names[k]);
        }
    }
}

/// Whether `a` comes before `b` byte-wise.
pub fn bytes_less(a: &Vec<u8>, b: &Vec<u8>) -> (r: bool)
    ensures
        r == bytes_lt(a@, b@),
{
    let mut i: usize = 0;
    assert(a@.subrange(0, a@.len() as int) =~= a@);
    assert(b@.subrange(0, b@.len() as int) =~= b@);
    while i < a.len() && i < b.len() && a[i] == b[i]
        invariant
            i <= a.len(),
            i <= b.len(),
            bytes_lt(a@, b@) == bytes_lt(
                a@.subrange(i as int, a@.len() as int),
                b@.subrange(i as int, b@.len() as int),
            ),
        decreases a.len() - i,
    {
        assert(a@.subrange(i as int, a@.len() as int).drop_first() =~= a@.subrange(
            i + 1,
            a@.len() as int,
        ));
        assert(b@.subrange(i as int, b@.len() as int).drop_first() =~= b@.subrange(
            i + 1,
            b@.len() as int,
        ));
        i = i + 1;
    }
    if i == a.len() {
        i < b.len()
    } else if i == b.len() {
        false
    } else {
        a[i] < b[i]
    }
}

/// Two sorted lists of the same videos are the same list: the order of the
/// videos of a folder is unique.
pub proof fn lemma_video_order_unique(names: Seq<Seq<u8>>, o1: Seq<usize>, o2: Seq<usize>)
    requires
        is_video_order(names, o1),
        is_video_order(names, o2),
    ensures
        o1 == o2,
{
    lemma_sorted_unique(names, o1, o2);
}

proof fn lemma_sorted_unique(names: Seq<Seq<u8>>, o1: Seq<usize>, o2: Seq<usize>)
    requires
        forall|k: int| 0 <= k < o1.len() ==> #[trigger] o1[k] < names.len(),
        forall|k: int| 0 <= k < o2.len() ==> #[trigger] o2[k] < names.len(),
        forall|x: usize| o1.contains(x) <==> o2.contains(x),
        forall|a: int, b: int|
            0 <= a < b < o1.len() ==> entry_before(names, #[trigger] o1[a] as int, #[trigger] o1[b] as int),
        forall|a: int, b: int|
            0 <= a < b < o2.len() ==> entry_before(names, #[trigger] o2[a] as int, #[trigger] o2[b] as int),
    ensures
        o1 == o2,
    decreases o1.len() + o2.len(),
{
    if o1.len() == 0 {
        if o2.len() > 0 {
            assert(o2.contains(o2[0]));
        }
        assert(o1 =~= o2);
    } else if o2.len() == 0 {
        assert(o1.contains(o1[0]));
    } else {
        let x = o1[0];
        let y = o2[0];
        assert(o1.contains(x));
        assert(o2.contains(y));
        if x != y {
            let q = choose|q: int| 0 <= q < o2.len() && o2[q] == x;
            let r = choose|r: int| 0 <= r < o1.len() && o1[r] == y;
            assert(entry_before(names, y as int, x as int));
            assert(entry_before(names, x as int, y as int));
            lemma_entry_order(names, x as int, y as int, x as int);
        }
        let t1 = o1.drop_first();
        let t2 = o2.drop_first();
        assert forall|z: usize| t1.contains(z) implies t2.contains(z) by {
            let a = choose|a: int| 0 <= a < t1.len() && t1[a] == z;
            assert(o1[a + 1] == z);
            assert(entry_before(names, x as int, z as int));
            lemma_entry_order(names, x as int, z as int, x as int);
            assert(o2.contains(z));
            let b = choose|b: int| 0 <= b < o2.len() && o2[b] == z;
            assert(b != 0);
            assert(t2[b - 1] == z);
        }
        assert forall|z: usize| t2.contains(z) implies t1.contains(z) by {
            let a = choose|a: int| 0 <= a < t2.len() && t2[a] == z;
            assert(o2[a + 1] == z);
            assert(entry_before(names, y as int, z as int));
            lemma_entry_order(names, y as int, z as int, y as int);
            assert(o1.contains(z));
            let b = choose|b: int| 0 <= b < o1.len() && o1[b] == z;
            assert(b != 0);
            assert(t1[b - 1] == z);
        }
        assert forall|a: int, b: int| 0 <= a < b < t1.len() implies entry_before(
            names,
            #[trigger] t1[a] as int,
            #[trigger] t1[b] as int,
        ) by {
            assert(t1[a] == o1[a + 1] && t1[b] == o1[b + 1]);
        }
        assert forall|a: int, b: int| 0 <= a < b < t2.len() implies entry_before(
            names,
            #[trigger] t2[a] as int,
            #[trigger] t2[b] as int,
        ) by {
            assert(t2[a] == o2[a + 1] && t2[b] == o2[b + 1]);
        }
        lemma_sorted_unique(names, t1, t2);
        assert(o1 =~= o2) by {
            assert forall|k: int| 0 <= k < o1.len() implies o1[k] == o2[k] by {
                if k > 0 {
                    assert(o1[k] == t1[k - 1]);
                    assert(o2[k] == t2[k - 1]);
                }
            }
        }
    }
}

} // verus!

verus! {

// ---------------------------------------------------------------------------
// Choosing the video
// ---------------------------------------------------------------------------

/// The videos among `names`, sorted by name (insertion sort).
fn sorted_videos(names: &Vec<Vec<u8>>) -> (order: Vec<usize>)
    ensures
        is_video_order(names.deep_view(), order@),
{
    let ghost nm = names.deep_view();
    let mut order: Vec<usize> = Vec::new();
    for i in 0..names.len()
        invariant
            nm == names.deep_view(),
            nm.len() == names.len(),
            forall|k: int|
                0 <= k < order.len() ==> #[trigger] order@[k] < i && is_video_name(
                    nm[order@[k] as int],
                ),
            forall|j: int|
                0 <= j < i && is_video_name(#[trigger] nm[j]) ==> order@.contains(j as usize),
            forall|a: int, b: int|
                0 <= a < b < order.len() ==> entry_before(
                    nm,
                    #[trigger] order@[a] as int,
                    #[trigger] order@[b] as int,
                ),
    {
        assert(nm[i as int] == names@[i as int]@);
        if is_video_file_name(&names[i]) {
            let mut p: usize = 0;
            while p < order.len() && !bytes_less(&names[i], &names[order[p]])
                invariant
                    p <= order.len(),
                    i < names.len(),
                    nm == names.deep_view(),
                    nm.len() == names.len(),
                    forall|k: int| 0 <= k < order.len() ==> #[trigger] order@[k] < i,
                    forall|q: int| 0 <= q < p ==> !bytes_lt(nm[i as int], nm[#[trigger] order@[q] as int]),
                decreases order.len() - p,
            {
                assert(nm[order@[p as int] as int] == names@[order@[p as int] as int]@);
                assert(nm[i as int] == names@[i as int]@);
                p = p + 1;
            }
            if p < order.len() {
                assert(nm[order@[p as int] as int] == names@[order@[p as int] as int]@);
                assert(bytes_lt(nm[i as int], nm[order@[p as int] as int]));
            }
            let ghost old_order = order@;
            order.insert(p, i);
            proof {
                assert forall|k: int| 0 <= k < order.len() implies #[trigger] order@[k] < i + 1
                    && is_video_name(nm[order@[k] as int]) by {
                    if k < p {
                        assert(order@[k] == old_order[k]);
                    } else if k > p {
                        assert(order@[k] == old_order[k - 1]);
                    }
                }
                assert forall|j: int| 0 <= j < i + 1 && is_video_name(#[trigger] nm[j]) implies order@.contains(
                    j as usize,
                ) by {
                    if j == i {
                        assert(order@[p as int] == i);
                    } else {
                        assert(old_order.contains(j as usize));
                        let q = choose|q: int| 0 <= q < old_order.len() && old_order[q] == j as usize;
                        if q < p {
                            assert(order@[q] == j as usize);
                        } else {
                            assert(order@[q + 1] == j as usize);
                        }
                    }
                }
                assert forall|a: int, b: int| 0 <= a < b < order.len() implies entry_before(
                    nm,
                    #[trigger] order@[a] as int,
                    #[trigger] order@[b] as int,
                ) by {
                    if b < p {
                        assert(order@[a] == old_order[a] && order@[b] == old_order[b]);
                    } else if a > p {
                        assert(order@[a] == old_order[a - 1] && order@[b] == old_order[b - 1]);
                    } else if a < p && b > p {
                        assert(order@[a] == old_order[a] && order@[b] == old_order[b - 1]);
                    } else if b == p {
                        // an earlier entry whose name is not after the new one
                        let x = old_order[a] as int;
                        assert(order@[a] == x);
                        assert(!bytes_lt(nm[i as int], nm[x]));
                        lemma_bytes_lt_total(nm[i as int], nm[x]);
                        assert(x < i);
                    } else {
                        // a == p: the new entry comes before every later one
                        let y = old_order[b - 1] as int;
                        assert(order@[b] == y);
                        let z = old_order[p as int] as int;
                        assert(bytes_lt(nm[i as int], nm[z]));
                        if b - 1 > p {
                            assert(entry_before(nm, z, y));
                            if bytes_lt(nm[z], nm[y]) {
                                lemma_bytes_lt_transitive(nm[i as int], nm[z], nm[y]);
                            }
                        }
                    }
                }
            }
        }
    }
    order
}

/// Choose the video among the files of a folder, given the bytes of their
/// names: no video; the only video; among several, the only one whose name
/// does not look like a duplicate; else all of them, sorted by name.
pub fn select_video(names: &Vec<Vec<u8>>) -> (c: VideoChoice)
    ensures
        exists|order: Seq<usize>|
            is_video_order(names.deep_view(), order) && choice_from_order(
                names.deep_view(),
                order,
                c,
            ),
{
    let ghost nm = names.deep_view();
    let order = sorted_videos(names);
    if order.len() == 0 {
        return VideoChoice::NoVideo;
    }
    if order.len() == 1 {
        return VideoChoice::Chosen(order[0]);
    }
    let mut preferred: Vec<usize> = Vec::new();
    for i in 0..order.len()
        invariant
            nm == names.deep_view(),
            is_video_order(nm, order@),
            preferred@ == preferred_upto(nm, order@, i as int),
    {
        let k = order[i];
        assert(order@[i as int] < names.len());
        assert(nm[k as int] == names@[k as int]@);
        if is_preferred_file_name(&names[k]) {
            preferred.push(k);
        }
    }
    if preferred.len() == 1 {
        VideoChoice::Chosen(preferred[0])
    } else {
        VideoChoice::Ambiguous(order)
    }
}

} // verus!

verus! {

/// A file of the folder that holds the chapter list: its path, the bytes of
/// its name, and the path as displayed in messages.
pub struct FolderEntry {
    pub path: PathBuf,
    pub name: Vec<u8>,
    pub display: String,
}

/// The names of the entries.
pub open spec fn entry_names(entries: Seq<FolderEntry>) -> Seq<Seq<u8>> {
    entries.map_values(|e: FolderEntry| e.name@)
}

/// What `choose_video` returns: the chosen entry's path, `NoVideo` for the
/// folder, or `AmbiguousVideo` listing every video in name order.
pub open spec fn choose_video_result(
    dir: PathBuf,
    entries: Seq<FolderEntry>,
    order: Seq<usize>,
    r: Result<PathBuf>,
) -> bool {
    let names = entry_names(entries);
    &&& is_video_order(names, order)
    &&& match r {
        Ok(p) => exists|k: usize|
            choice_from_order(names, order, VideoChoice::Chosen(k)) && k < entries.len() && p
                == entries[k as int].path,
        Err(Error::NoVideo(d)) => d == dir && choice_from_order(names, order, VideoChoice::NoVideo),
        Err(Error::AmbiguousVideo { dir: d, candidates }) => d == dir && order.len() > 1
            && preferred_upto(names, order, order.len() as int).len() != 1 && candidates@.len()
            == order.len() && forall|i: int|
            0 <= i < order.len() ==> #[trigger] candidates@[i]@ == entries[order[i] as int].display@,
        _ => false,
    }
}

fn copy_names(entries: &Vec<FolderEntry>) -> (names: Vec<Vec<u8>>)
    ensures
        names.deep_view() == entry_names(entries@),
{
    let mut names: Vec<Vec<u8>> = Vec::new();
    for i in 0..entries.len()
        invariant
            names.len() == i,
            names.deep_view() == entry_names(entries@).subrange(0, i as int),
    {
        let src = &entries[i].name;
        let mut name: Vec<u8> = Vec::new();
        for j in 0..src.len()
            invariant
                name@ == src@.subrange(0, j as int),
        {
            name.push(src[j]);
            assert(name@ =~= src@.subrange(0, j + 1));
        }
        assert(src@.subrange(0, src@.len() as int) =~= src@);
        let ghost before = names.deep_view();
        names.push(name);
        assert(names@[i as int].deep_view() =~= src@);
        assert forall|k: int| 0 <= k < i + 1 implies names.deep_view()[k] == entry_names(
            entries@,
        ).subrange(0, i + 1)[k] by {
            if k < i {
                assert(names.deep_view()[k] == before[k]);
            }
        }
        assert(names.deep_view() =~= entry_names(entries@).subrange(0, i + 1));
    }
    assert(entry_names(entries@).subrange(0, entries@.len() as int) =~= entry_names(entries@));
    names
}

/// Pick the video of a folder from its files (the scan part of resolving the
/// video): see `select_video`.
pub fn choose_video(dir: PathBuf, entries: Vec<FolderEntry>) -> (r: Result<PathBuf>)
    ensures
        exists|order: Seq<usize>| choose_video_result(dir, entries@, order, r),
{
    let names = copy_names(&entries);
    let choice = select_video(&names);
    let ghost nm = names.deep_view();
    let ghost order = choose|order: Seq<usize>|
        is_video_order(nm, order) && choice_from_order(nm, order, choice);
    assert(nm == entry_names(entries@));
    match choice {
        VideoChoice::NoVideo => {
            let r = Err(Error::NoVideo(dir));
            assert(choose_video_result(dir, entries@, order, r));
            r
        },
        VideoChoice::Chosen(k) => {
            let ghost old_entries = entries@;
            assert(k < entries.len()) by {
                if order.len() == 1 {
                    assert(order[0] < nm.len());
                } else {
                    lemma_preferred_in_range(nm, order, order.len() as int);
                    assert(preferred_upto(nm, order, order.len() as int)[0] < nm.len());
                }
            }
            let mut entries = entries;
            let e = entries.remove(k);
            let r = Ok(e.path);
            assert(choice_from_order(nm, order, VideoChoice::Chosen(k)));
            assert(choose_video_result(dir, old_entries, order, r));
            r
        },
        VideoChoice::Ambiguous(order_v) => {
            let mut candidates: Vec<String> = Vec::new();
            for i in 0..order_v.len()
                invariant
                    order_v@ == order,
                    is_video_order(nm, order),
                    nm.len() == entries.len(),
                    candidates@.len() == i,
                    forall|m: int|
                        0 <= m < i ==> #[trigger] candidates@[m]@ == entries@[order[m] as int].display@,
            {
                assert(order[i as int] < nm.len());
                candidates.push(entries[order_v[i]].display.clone());
            }
            let r = Err(Error::AmbiguousVideo { dir, candidates });
            assert(choose_video_result(dir, entries@, order, r));
            r
        },
    }
}

proof fn lemma_preferred_in_range(names: Seq<Seq<u8>>, order: Seq<usize>, n: int)
    requires
        0 <= n <= order.len(),
        forall|k: int| 0 <= k < order.len() ==> #[trigger] order[k] < names.len(),
    ensures
        forall|i: int|
            0 <= i < preferred_upto(names, order, n).len() ==> #[trigger] preferred_upto(
                names,
                order,
                n,
            )[i] < names.len(),
    decreases n,
{
    if n > 0 {
        lemma_preferred_in_range(names, order, n - 1);
        let p = preferred_upto(names, order, n);
        let q = preferred_upto(names, order, n - 1);
        assert forall|i: int| 0 <= i < p.len() implies #[trigger] p[i] < names.len() by {
            if i < q.len() {
                assert(p[i] == q[i]);
            } else {
                assert(p[i] == order[n - 1]);
            }
        }
    }
}

} // verus!

verus! {

// ---------------------------------------------------------------------------
// The output path
// ---------------------------------------------------------------------------

/// Declaration of `std::path::Path`, carried through the library opaquely.
#[verifier::external_type_specification]
#[verifier::external_body]
pub struct ExPath(Path);

/// What `Path::parent` gives for `p`.
pub uninterp spec fn parent_of(p: &Path) -> Option<PathBuf>;

/// What `Path::file_stem` gives for `p`, where it is valid UTF-8 (`None`
/// where there is none or it is not UTF-8).
pub uninterp spec fn file_stem_of(p: &Path) -> Option<Seq<char>>;

/// What `Path::extension` gives for `p`, where it is valid UTF-8 (`None`
/// where there is none or it is not UTF-8).
pub uninterp spec fn extension_of(p: &Path) -> Option<Seq<char>>;

/// What `Path::join` gives for `base` and the relative name `name`.
pub uninterp spec fn joined(base: PathBuf, name: Seq<char>) -> PathBuf;

/// What `PathBuf::from` gives for the text `s`.
pub uninterp spec fn path_of_text(s: Seq<char>) -> PathBuf;

/// What `Path::display` writes for `p`.
pub uninterp spec fn display_of(p: &Path) -> Seq<char>;

/// `Path::parent`, as an owned path.  Its result is named, not stated: path
/// syntax takes pages.
#[verifier::external_body]
fn path_parent(p: &Path) -> (r: Option<PathBuf>)
    ensures
        r == parent_of(p),
{
    p.parent().map(|q| q.to_path_buf())
}

/// `Path::file_stem` followed by `OsStr::to_str`.  Its result is named, not
/// stated: path syntax takes pages.
#[verifier::external_body]
fn path_file_stem(p: &Path) -> (r: Option<String>)
    ensures
        match r {
            Some(s) => file_stem_of(p) == Some(s@),
            None => file_stem_of(p) is None,
        },
{
    p.file_stem().and_then(|s| s.to_str()).map(|s| s.to_string())
}

/// `Path::extension` followed by `OsStr::to_str`.  Its result is named, not
/// stated: path syntax takes pages.
#[verifier::external_body]
fn path_extension(p: &Path) -> (r: Option<String>)
    ensures
        match r {
            Some(s) => extension_of(p) == Some(s@),
            None => extension_of(p) is None,
        },
{
    p.extension().and_then(|s| s.to_str()).map(|s| s.to_string())
}

/// `Path::join`.  Its result is named, not stated.
#[verifier::external_body]
fn path_join(base: &PathBuf, name: &str) -> (r: PathBuf)
    ensures
        r == joined(*base, name@),
{
    base.join(name)
}

/// `PathBuf::from` a string.  Its result is named, not stated.
#[verifier::external_body]
fn path_from_str(s: &str) -> (r: PathBuf)
    ensures
        r == path_of_text(s@),
{
    PathBuf::from(s)
}

/// `Path::display`, as a string.  Its result is named, not stated.
#[verifier::external_body]
fn path_display(p: &Path) -> (r: String)
    ensures
        r@ == display_of(p),
{
    p.display().to_string()
}

/// The name of the chapterized copy: `<stem>.chapterized.<ext>`, with `mp4`
/// where the video has no extension.
pub open spec fn chapterized_name_text(stem: Seq<char>, ext: Option<Seq<char>>) -> Seq<char> {
    stem + ".chapterized."@ + match ext {
        Some(e) => e,
        None => "mp4"@,
    }
}

/// `<stem>.chapterized.<ext>`, `mp4` standing for a missing extension.
pub fn chapterized_name(stem: &str, ext: Option<&str>) -> (r: String)
    ensures
        r@ == chapterized_name_text(
            stem@,
            match ext {
                Some(e) => Some(e@),
                None => None,
            },
        ),
{
    let mut r = String::from_str(stem);
    r.append(".chapterized.");
    match ext {
        Some(e) => r.append(e),
        None => r.append("mp4"),
    }
    r
}

/// What `default_output` returns for `video`: where the video has no file
/// stem in UTF-8, a `Path` error naming it; else its parent (`.` where it has
/// none) joined with `<stem>.chapterized.<ext>`, `mp4` standing for a missing
/// or non-UTF-8 extension.
pub open spec fn default_output_result(video: &Path, r: Result<PathBuf>) -> bool {
    match file_stem_of(video) {
        None => r matches Err(Error::Path(msg)) && msg@ == "bad video file name: "@ + display_of(
            video,
        ),
        Some(stem) => r == Ok::<PathBuf, Error>(
            joined(
                match parent_of(video) {
                    Some(p) => p,
                    None => path_of_text("."@),
                },
                chapterized_name_text(stem, extension_of(video)),
            ),
        ),
    }
}

/// Default output path: `<stem>.chapterized.<ext>` beside the video.
pub fn default_output(video: &Path) -> (r: Result<PathBuf>)
    ensures
        default_output_result(video, r),
{
    let parent = match path_parent(video) {
        Some(p) => p,
        None => path_from_str("."),
    };
    let stem = match path_file_stem(video) {
        Some(s) => s,
        None => {
            let mut msg = String::from_str("bad video file name: ");
            msg.append(path_display(video).as_str());
            return Err(Error::Path(msg));
        },
    };
    let ext = path_extension(video);
    let name = match &ext {
        Some(e) => chapterized_name(stem.as_str(), Some(e.as_str())),
        None => chapterized_name(stem.as_str(), None),
    };
    Ok(path_join(&parent, name.as_str()))
}

} // verus!

verus! {

/// The output path of a run: the one given, else the default beside the video.
pub fn output_path(explicit: Option<PathBuf>, video: &Path) -> (r: Result<PathBuf>)
    ensures
        explicit is Some ==> r == Ok::<PathBuf, Error>(explicit.unwrap()),
        explicit is None ==> default_output_result(video, r),
{
    match explicit {
        Some(p) => Ok(p),
        None => default_output(video),
    }
}

} // verus!

verus! {

proof fn lemma_preferred_members(names: Seq<Seq<u8>>, order: Seq<usize>, n: int)
    requires
        0 <= n <= order.len(),
    ensures
        forall|i: int|
            0 <= i < preferred_upto(names, order, n).len() ==> is_preferred_name(
                names[#[trigger] preferred_upto(names, order, n)[i] as int],
            ) && exists|j: int| 0 <= j < n && #[trigger] order[j] == preferred_upto(names, order, n)[i],
    decreases n,
{
    if n > 0 {
        lemma_preferred_members(names, order, n - 1);
        let p = preferred_upto(names, order, n);
        let q = preferred_upto(names, order, n - 1);
        assert forall|i: int| 0 <= i < p.len() implies is_preferred_name(
            names[#[trigger] p[i] as int],
        ) && exists|j: int| 0 <= j < n && #[trigger] order[j] == p[i] by {
            if i < q.len() {
                assert(p[i] == q[i]);
                assert(exists|j: int| 0 <= j < n - 1 && #[trigger] order[j] == q[i]);
            } else {
                assert(p[i] == order[n - 1]);
            }
        }
    }
}

/// The chosen file is a video; where the folder holds several videos it is
/// the only one whose name does not look like a duplicate.
pub proof fn lemma_chosen_is_video(names: Seq<Seq<u8>>, order: Seq<usize>, k: usize)
    requires
        is_video_order(names, order),
        choice_from_order(names, order, VideoChoice::Chosen(k)),
    ensures
        k < names.len(),
        is_video_name(names[k as int]),
        order.len() > 1 ==> is_preferred_name(names[k as int]),
{
    if order.len() == 1 {
        assert(order[0] < names.len());
    } else {
        let p = preferred_upto(names, order, order.len() as int);
        lemma_preferred_members(names, order, order.len() as int);
        assert(is_preferred_name(names[p[0] as int]));
        let w = choose|w: int| 0 <= w < order.len() && #[trigger] order[w] == p[0];
        assert(order[w] == k);
    }
}

} // verus!

verus! {

/// What `select_video` returns for a folder whose only video is entry `i`:
/// that entry, whatever its name looks like.
pub proof fn lemma_single_video_chosen(names: Seq<Seq<u8>>, i: int, c: VideoChoice)
    requires
        exists|order: Seq<usize>|
            is_video_order(names, order) && choice_from_order(names, order, c),
        0 <= i < names.len(),
        is_video_name(names[i]),
        forall|j: int| 0 <= j < names.len() && j != i ==> !is_video_name(#[trigger] names[j]),
    ensures
        c == VideoChoice::Chosen(i as usize),
{
    let order = choose|order: Seq<usize>|
        is_video_order(names, order) && choice_from_order(names, order, c);
    assert(order.contains(i as usize));
    assert forall|k: int| 0 <= k < order.len() implies #[trigger] order[k] == i as usize by {
        assert(is_video_name(names[order[k] as int]));
    }
    if order.len() >= 2 {
        assert(entry_before(names, order[0] as int, order[1] as int));
        lemma_entry_order(names, i, i, i);
        assert(false);
    }
    assert(order.len() == 1);
}

/// What `select_video` returns tells whether the folder holds a video:
/// `NoVideo` exactly when no name has a video extension.
pub proof fn lemma_no_video_iff(names: Seq<Seq<u8>>, c: VideoChoice)
    requires
        exists|order: Seq<usize>|
            is_video_order(names, order) && choice_from_order(names, order, c),
    ensures
        c is NoVideo <==> forall|i: int| 0 <= i < names.len() ==> !is_video_name(#[trigger] names[i]),
{
    let order = choose|order: Seq<usize>|
        is_video_order(names, order) && choice_from_order(names, order, c);
    if c is NoVideo {
        assert forall|i: int| 0 <= i < names.len() implies !is_video_name(#[trigger] names[i]) by {
            if is_video_name(names[i]) {
                assert(order.contains(i as usize));
            }
        }
    } else {
        assert(order.len() > 0);
        assert(order[0] < names.len() && is_video_name(names[order[0] as int]));
    }
}

} // verus!

verus! {

/// The folder holds at least two videos.
pub open spec fn several_videos(names: Seq<Seq<u8>>) -> bool {
    exists|a: int, b: int|
        0 <= a < names.len() && 0 <= b < names.len() && a != b && is_video_name(
            #[trigger] names[a],
        ) && is_video_name(#[trigger] names[b])
}

/// Entry `k` is a video whose name does not look like a duplicate, and it is
/// the only such video of the folder.
pub open spec fn sole_preferred_video(names: Seq<Seq<u8>>, k: int) -> bool {
    &&& 0 <= k < names.len()
    &&& is_video_name(names[k])
    &&& is_preferred_name(names[k])
    &&& forall|j: int|
        0 <= j < names.len() && j != k && is_video_name(#[trigger] names[j])
            ==> !is_preferred_name(names[j])
}

proof fn lemma_preferred_complete(names: Seq<Seq<u8>>, order: Seq<usize>, n: int, j: int)
    requires
        0 <= j < n <= order.len(),
        is_preferred_name(names[order[j] as int]),
    ensures
        preferred_upto(names, order, n).contains(order[j]),
    decreases n,
{
    let p = preferred_upto(names, order, n);
    if j < n - 1 {
        lemma_preferred_complete(names, order, n - 1, j);
        let q = preferred_upto(names, order, n - 1);
        let w = choose|w: int| 0 <= w < q.len() && q[w] == order[j];
        assert(p[w] == q[w]);
    } else {
        assert(p[p.len() - 1] == order[j]);
    }
}

proof fn lemma_preferred_distinct(names: Seq<Seq<u8>>, order: Seq<usize>, n: int)
    requires
        0 <= n <= order.len(),
        forall|a: int, b: int| 0 <= a < b < order.len() ==> order[a] != order[b],
    ensures
        forall|a: int, b: int|
            0 <= a < b < preferred_upto(names, order, n).len() ==> preferred_upto(
                names,
                order,
                n,
            )[a] != preferred_upto(names, order, n)[b],
    decreases n,
{
    if n > 0 {
        lemma_preferred_distinct(names, order, n - 1);
        lemma_preferred_members(names, order, n - 1);
        let p = preferred_upto(names, order, n);
        let q = preferred_upto(names, order, n - 1);
        assert forall|a: int, b: int| 0 <= a < b < p.len() implies p[a] != p[b] by {
            if b < q.len() {
                assert(p[a] == q[a] && p[b] == q[b]);
            } else {
                assert(p[b] == order[n - 1]);
                assert(p[a] == q[a]);
                let w = choose|w: int| 0 <= w < n - 1 && #[trigger] order[w] == q[a];
                assert(order[w] != order[n - 1]);
            }
        }
    }
}

/// How `select_video` decides among several videos: where exactly one of
/// them has a name that does not look like a duplicate, that one is chosen;
/// otherwise the choice is left open and every video is listed, each once,
/// sorted by name.
pub proof fn lemma_choice_among_several(names: Seq<Seq<u8>>, c: VideoChoice)
    requires
        exists|order: Seq<usize>|
            is_video_order(names, order) && choice_from_order(names, order, c),
        names.len() <= usize::MAX,
        several_videos(names),
    ensures
        forall|k: int| sole_preferred_video(names, k) ==> c == VideoChoice::Chosen(k as usize),
        (forall|k: int| !sole_preferred_video(names, k)) ==> (c matches VideoChoice::Ambiguous(v)
            && is_video_order(names, v@)),
{
    let order = choose|order: Seq<usize>|
        is_video_order(names, order) && choice_from_order(names, order, c);
    let n = order.len() as int;
    let p = preferred_upto(names, order, n);
    let (a, b) = choose|a: int, b: int|
        0 <= a < names.len() && 0 <= b < names.len() && a != b && is_video_name(
            #[trigger] names[a],
        ) && is_video_name(#[trigger] names[b]);
    assert(order.contains(a as usize));
    assert(order.contains(b as usize));
    assert(n >= 2);
    assert forall|x: int, y: int| 0 <= x < y < order.len() implies order[x] != order[y] by {
        assert(entry_before(names, order[x] as int, order[y] as int));
        lemma_entry_order(names, order[x] as int, order[x] as int, order[x] as int);
    }
    lemma_preferred_members(names, order, n);
    lemma_preferred_distinct(names, order, n);
    lemma_preferred_in_range(names, order, n);
    assert forall|k: int| sole_preferred_video(names, k) implies c == VideoChoice::Chosen(
        k as usize,
    ) by {
        assert(order.contains(k as usize));
        let w = choose|w: int| 0 <= w < n && order[w] == k as usize;
        lemma_preferred_complete(names, order, n, w);
        assert forall|i: int| 0 <= i < p.len() implies #[trigger] p[i] == k as usize by {
            let v = choose|v: int| 0 <= v < n && #[trigger] order[v] == p[i];
            assert(is_video_name(names[order[v] as int]));
            assert(is_preferred_name(names[p[i] as int]));
        }
        if p.len() >= 2 {
            assert(p[0] == k as usize && p[1] == k as usize);
            assert(false);
        }
    }
    if forall|k: int| !sole_preferred_video(names, k) {
        if p.len() == 1 {
            let k = p[0] as int;
            let v = choose|v: int| 0 <= v < n && #[trigger] order[v] == p[0];
            assert(is_video_name(names[k]));
            assert forall|j: int|
                0 <= j < names.len() && j != k && is_video_name(#[trigger] names[j]) implies !is_preferred_name(
                names[j],
            ) by {
                if is_preferred_name(names[j]) {
                    assert(order.contains(j as usize));
                    let w = choose|w: int| 0 <= w < n && order[w] == j as usize;
                    lemma_preferred_complete(names, order, n, w);
                    let i = choose|i: int| 0 <= i < p.len() && p[i] == j as usize;
                    assert(p[i] == p[0]);
                }
            }
            assert(sole_preferred_video(names, k));
        }
    }
}

} // verus!

verus! {

/// Names are ordered byte by byte: a common beginning does not decide, the
/// first byte that differs does, and a name comes before every longer name
/// that begins with it.
pub proof fn lemma_bytes_lt_lexicographic(p: Seq<u8>, a: Seq<u8>, b: Seq<u8>, x: u8, y: u8)
    ensures
        bytes_lt(p + a, p + b) == bytes_lt(a, b),
        x != y ==> bytes_lt(seq![x] + a, seq![y] + b) == (x < y),
        bytes_lt(p, p + b) == (b.len() > 0),
    decreases p.len(),
{
    if p.len() > 0 {
        lemma_bytes_lt_lexicographic(p.drop_first(), a, b, x, y);
        assert((p + a).drop_first() =~= p.drop_first() + a);
        assert((p + b).drop_first() =~= p.drop_first() + b);
        assert((p + a)[0] == (p + b)[0]);
    } else {
        assert(p + a =~= a);
        assert(p + b =~= b);
    }
    let e = Seq::<u8>::empty();
    assert(p + e =~= p);
    if p.len() > 0 {
        lemma_bytes_lt_lexicographic(p.drop_first(), e, b, x, y);
        assert((p + e).drop_first() =~= p.drop_first() + e);
        assert((p + b).drop_first() =~= p.drop_first() + b);
    }
    assert((seq![x] + a)[0] == x);
    assert((seq![y] + b)[0] == y);
}

} // verus!
