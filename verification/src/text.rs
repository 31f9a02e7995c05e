//! Text as sequences of Unicode scalar values: searching, cutting,
//! replacing, splitting and trimming, each stated as a spec function over
//! `Seq<char>` and carried out on `[char]` slices.
//!
//! Character positions replace the byte offsets that `str` methods use; for
//! well-formed UTF-8 a pattern matches at a byte offset exactly when its
//! characters match at the corresponding character position, so every
//! operation below gives the same text as its `str` counterpart.

use vstd::prelude::*;

verus! {

// ---------------------------------------------------------------------------
// White space
// ---------------------------------------------------------------------------

/// The Unicode `White_Space` property (PropList.txt): the characters that
/// `char::is_whitespace` accepts and that `str::trim` removes.
pub open spec fn is_white_space(c: char) -> bool {
    ||| ('\u{9}' <= c && c <= '\u{d}')
    ||| c == ' '
    ||| c == '\u{85}'
    ||| c == '\u{a0}'
    ||| c == '\u{1680}'
    ||| ('\u{2000}' <= c && c <= '\u{200a}')
    ||| c == '\u{2028}'
    ||| c == '\u{2029}'
    ||| c == '\u{202f}'
    ||| c == '\u{205f}'
    ||| c == '\u{3000}'
}

/// Whether `c` has the `White_Space` property (`char::is_whitespace`).
pub fn char_is_white_space(c: char) -> (b: bool)
    ensures
        b == is_white_space(c),
{
    ('\u{9}' <= c && c <= '\u{d}') || c == ' ' || c == '\u{85}' || c == '\u{a0}' || c
        == '\u{1680}' || ('\u{2000}' <= c && c <= '\u{200a}') || c == '\u{2028}' || c
        == '\u{2029}' || c == '\u{202f}' || c == '\u{205f}' || c == '\u{3000}'
}

// ---------------------------------------------------------------------------
// Occurrences of a pattern
// ---------------------------------------------------------------------------

/// `p` occurs in `t` starting at position `i`.
pub open spec fn matches_at(t: Seq<char>, p: Seq<char>, i: int) -> bool {
    0 <= i && i + p.len() <= t.len() && t.subrange(i, i + p.len()) == p
}

/// The first position at or after `i` where `p` occurs in `t`.
pub open spec fn find_from(t: Seq<char>, p: Seq<char>, i: int) -> Option<int>
    decreases t.len() + 1 - i,
{
    if i < 0 || i + p.len() > t.len() {
        None
    } else if matches_at(t, p, i) {
        Some(i)
    } else {
        find_from(t, p, i + 1)
    }
}

/// The first position where `p` occurs in `t` (`str::find`).
pub open spec fn find(t: Seq<char>, p: Seq<char>) -> Option<int> {
    find_from(t, p, 0)
}

/// `p` occurs somewhere in `t` (`str::contains`).
pub open spec fn contains(t: Seq<char>, p: Seq<char>) -> bool {
    find(t, p) is Some
}

/// `t` begins with `p` (`str::starts_with`).
pub open spec fn starts_with(t: Seq<char>, p: Seq<char>) -> bool {
    matches_at(t, p, 0)
}

/// What `find_from` returns is an occurrence, and the earliest one.
pub proof fn lemma_find_from(t: Seq<char>, p: Seq<char>, i: int)
    requires
        0 <= i,
    ensures
        match find_from(t, p, i) {
            Some(j) => {
                &&& i <= j
                &&& matches_at(t, p, j)
                &&& forall|k: int| i <= k < j ==> !#[trigger] matches_at(t, p, k)
            },
            None => forall|k: int| i <= k ==> !#[trigger] matches_at(t, p, k),
        },
    decreases t.len() + 1 - i,
{
    if i + p.len() > t.len() {
    } else if matches_at(t, p, i) {
    } else {
        lemma_find_from(t, p, i + 1);
    }
}

/// `contains` holds exactly when the pattern occurs at some position.
pub proof fn lemma_contains_iff_occurs(t: Seq<char>, p: Seq<char>)
    ensures
        contains(t, p) <==> exists|k: int| #[trigger] matches_at(t, p, k),
{
    lemma_find_from(t, p, 0);
}

/// Whether `p` occurs in `t` at position `i`.
pub fn matches_at_exec(t: &[char], p: &[char], i: usize) -> (b: bool)
    ensures
        b == matches_at(t@, p@, i as int),
{
    if i > t.len() || p.len() > t.len() - i {
        return false;
    }
    let mut k: usize = 0;
    while k < p.len()
        invariant
            k <= p.len(),
            i + p.len() <= t.len(),
            forall|j: int| 0 <= j < k ==> t@[i + j] == p@[j],
        decreases p.len() - k,
    {
        if t[i + k] != p[k] {
            assert(t@.subrange(i as int, i + p@.len())[k as int] != p@[k as int]);
            return false;
        }
        k += 1;
    }
    assert(t@.subrange(i as int, i + p@.len()) =~= p@);
    true
}

/// The first occurrence of `p` in `t` at or after `start`.
pub fn find_from_exec(t: &[char], p: &[char], start: usize) -> (r: Option<usize>)
    ensures
        match r {
            Some(j) => find_from(t@, p@, start as int) == Some(j as int),
            None => find_from(t@, p@, start as int) is None,
        },
{
    let mut i = start;
    while i <= t.len() && p.len() <= t.len() - i
        invariant
            start <= i,
            find_from(t@, p@, start as int) == find_from(t@, p@, i as int),
        decreases t.len() + 1 - i,
    {
        if matches_at_exec(t, p, i) {
            return Some(i);
        }
        proof {
            if i == t.len() {
                assert(t@.subrange(i as int, i as int) =~= p@);
            }
        }
        i += 1;
    }
    None
}

/// `str::contains` on characters.
pub fn contains_exec(t: &[char], p: &[char]) -> (b: bool)
    ensures
        b == contains(t@, p@),
{
    find_from_exec(t, p, 0).is_some()
}

/// `str::starts_with` on characters.
pub fn starts_with_exec(t: &[char], p: &[char]) -> (b: bool)
    ensures
        b == starts_with(t@, p@),
{
    matches_at_exec(t, p, 0)
}

// ---------------------------------------------------------------------------
// Copying
// ---------------------------------------------------------------------------

/// Appends `src[from..to]` to `out`.
pub fn push_range(out: &mut Vec<char>, src: &[char], from: usize, to: usize)
    requires
        from <= to <= src@.len(),
    ensures
        final(out)@ == old(out)@ + src@.subrange(from as int, to as int),
{
    let ghost start = out@;
    let mut k = from;
    while k < to
        invariant
            from <= k <= to <= src@.len(),
            out@ == start + src@.subrange(from as int, k as int),
        decreases to - k,
    {
        out.push(src[k]);
        assert(src@.subrange(from as int, k + 1) =~= src@.subrange(from as int, k as int).push(
            src@[k as int],
        ));
        k += 1;
    }
}

/// A fresh copy of `src[from..to]`.
pub fn copy_range(src: &[char], from: usize, to: usize) -> (v: Vec<char>)
    requires
        from <= to <= src@.len(),
    ensures
        v@ == src@.subrange(from as int, to as int),
{
    let mut v: Vec<char> = Vec::new();
    push_range(&mut v, src, from, to);
    assert(Seq::<char>::empty() + src@.subrange(from as int, to as int) =~= src@.subrange(
        from as int,
        to as int,
    ));
    v
}

/// Appends all of `src` to `out`.
pub fn push_all(out: &mut Vec<char>, src: &[char])
    ensures
        final(out)@ == old(out)@ + src@,
{
    push_range(out, src, 0, src.len());
    assert(src@.subrange(0, src@.len() as int) =~= src@);
}

/// The characters of `s`, in order.
pub fn chars_of(s: &str) -> (v: Vec<char>)
    ensures
        v@ == s@,
{
    broadcast use vstd::string::group_string_axioms;

    let mut v: Vec<char> = Vec::new();
    for c in it: s.chars()
        invariant
            v@ == it.seq().take(it.index() as int),
    {
        v.push(c);
    }
    v
}

/// Calls `String::push`, documented as appending the character to the end
/// of the string.
#[verifier::external_body]
fn push_char(s: &mut String, c: char)
    ensures
        final(s)@ == old(s)@.push(c),
{
    s.push(c)
}

/// A `String` holding the characters of `v`.
pub fn string_of(v: &[char]) -> (s: String)
    ensures
        s@ == v@,
{
    let mut s = String::new();
    let mut k: usize = 0;
    while k < v.len()
        invariant
            k <= v@.len(),
            s@ == v@.subrange(0, k as int),
        decreases v.len() - k,
    {
        push_char(&mut s, v[k]);
        assert(v@.subrange(0, k + 1) =~= v@.subrange(0, k as int).push(v@[k as int]));
        k += 1;
    }
    assert(v@.subrange(0, v@.len() as int) =~= v@);
    s
}

// ---------------------------------------------------------------------------
// The text between two markers
// ---------------------------------------------------------------------------

/// The text after the first `start` and before the first `end` that follows
/// it. When either marker is missing, the whole text; when both occur but
/// no `end` follows the first `start`, nothing.
pub open spec fn substring_between(t: Seq<char>, start: Seq<char>, end: Seq<char>) -> Option<
    Seq<char>,
> {
    match (find(t, start), find(t, end)) {
        (Some(f), Some(_)) => match find_from(t, end, f) {
            Some(j) => Some(t.subrange(f + start.len(), j)),
            None => None,
        },
        _ => Some(t),
    }
}

/// The first `end` after the first `start` begins inside that `start`, so
/// the cut would end before it begins (the slice `t[f + |start|..j]` panics).
pub open spec fn between_panics(t: Seq<char>, start: Seq<char>, end: Seq<char>) -> bool {
    match (find(t, start), find(t, end)) {
        (Some(f), Some(_)) => match find_from(t, end, f) {
            Some(j) => j < f + start.len(),
            None => false,
        },
        _ => false,
    }
}

/// `end` read from position `l` of `start` agrees with `start` on every
/// position the two share.
pub open spec fn overlaps_at(start: Seq<char>, end: Seq<char>, l: int) -> bool {
    forall|k: int| 0 <= k && l + k < start.len() && k < end.len() ==> start[l + k] == end[k]
}

/// No occurrence of `end` can begin inside an occurrence of `start`.
pub open spec fn overlap_free(start: Seq<char>, end: Seq<char>) -> bool {
    forall|l: int| 0 <= l < start.len() ==> !#[trigger] overlaps_at(start, end, l)
}

/// Whether `start` and `end` agree from positions `l + k` and `k` onwards.
pub open spec fn agree_from(start: Seq<char>, end: Seq<char>, l: int, k: int) -> bool
    decreases start.len() - l - k,
{
    if k < 0 || l < 0 || l + k >= start.len() || k >= end.len() {
        true
    } else {
        start[l + k] == end[k] && agree_from(start, end, l, k + 1)
    }
}

/// A check of `overlap_free` that unfolds on concrete markers.
pub open spec fn no_overlap_from(start: Seq<char>, end: Seq<char>, l: int) -> bool
    decreases start.len() - l,
{
    if l < 0 || l >= start.len() {
        true
    } else {
        !agree_from(start, end, l, 0) && no_overlap_from(start, end, l + 1)
    }
}

proof fn lemma_agree_from(start: Seq<char>, end: Seq<char>, l: int, k: int)
    requires
        0 <= l,
        0 <= k,
        overlaps_at(start, end, l),
    ensures
        agree_from(start, end, l, k),
    decreases start.len() - l - k,
{
    if l + k >= start.len() || k >= end.len() {
    } else {
        lemma_agree_from(start, end, l, k + 1);
    }
}

/// The unfolding check establishes `overlap_free`.
pub proof fn lemma_no_overlap(start: Seq<char>, end: Seq<char>)
    requires
        no_overlap_from(start, end, 0),
    ensures
        overlap_free(start, end),
{
    assert forall|l: int| 0 <= l < start.len() implies !#[trigger] overlaps_at(start, end, l) by {
        lemma_no_overlap_at(start, end, 0, l);
        if overlaps_at(start, end, l) {
            lemma_agree_from(start, end, l, 0);
        }
    }
}

proof fn lemma_no_overlap_at(start: Seq<char>, end: Seq<char>, m: int, l: int)
    requires
        0 <= m <= l < start.len(),
        no_overlap_from(start, end, m),
    ensures
        !agree_from(start, end, l, 0),
    decreases l - m,
{
    if m < l {
        lemma_no_overlap_at(start, end, m + 1, l);
    }
}

/// With overlap-free markers the cut never panics.
pub proof fn lemma_between_safe(t: Seq<char>, start: Seq<char>, end: Seq<char>)
    requires
        overlap_free(start, end),
    ensures
        !between_panics(t, start, end),
{
    if let (Some(f), Some(_)) = (find(t, start), find(t, end)) {
        lemma_find_from(t, start, 0);
        lemma_find_from(t, end, f);
        if let Some(j) = find_from(t, end, f) {
            if j < f + start.len() {
                let l = j - f;
                assert forall|k: int| 0 <= k && l + k < start.len() && k < end.len() implies start[l
                    + k] == end[k] by {
                    assert(t.subrange(f, f + start.len())[l + k] == start[l + k]);
                    assert(t.subrange(j, j + end.len())[k] == end[k]);
                }
                assert(overlaps_at(start, end, l));
            }
        }
    }
}

/// `p` occurring at `j`, and nowhere from `i` up to `j`, makes `j` the first
/// occurrence from `i` on.
pub proof fn lemma_find_from_is(t: Seq<char>, p: Seq<char>, i: int, j: int)
    requires
        0 <= i <= j,
        matches_at(t, p, j),
        forall|k: int| i <= k < j ==> !#[trigger] matches_at(t, p, k),
    ensures
        find_from(t, p, i) == Some(j),
{
    lemma_find_from(t, p, i);
}

/// The cut between markers, located by its markers: where `start` first
/// occurs at `p` and the first `end` from `p` on is at `q`, past that
/// `start`, the cut is exactly the text from the end of that `start` up to
/// `q`, and it does not panic.
pub proof fn lemma_between_at(t: Seq<char>, start: Seq<char>, end: Seq<char>, p: int, q: int)
    requires
        matches_at(t, start, p),
        forall|k: int| 0 <= k < p ==> !#[trigger] matches_at(t, start, k),
        matches_at(t, end, q),
        p + start.len() <= q,
        forall|k: int| p <= k < q ==> !#[trigger] matches_at(t, end, k),
    ensures
        substring_between(t, start, end) == Some(t.subrange(p + start.len(), q)),
        !between_panics(t, start, end),
        find(t, start) == Some(p),
        find_from(t, end, p) == Some(q),
{
    lemma_find_from_is(t, start, 0, p);
    lemma_find_from_is(t, end, p, q);
    lemma_find_from(t, end, 0);
}

/// Where both markers occur and the cut is defined, the text reads: what
/// comes before, `start`, the cut, `end`, what comes after; and no `start`
/// comes earlier, and no `end` comes between.
pub proof fn lemma_between_located(t: Seq<char>, start: Seq<char>, end: Seq<char>)
    requires
        contains(t, start),
        contains(t, end),
        !between_panics(t, start, end),
        substring_between(t, start, end) is Some,
    ensures
        ({
            let f = find(t, start)->0;
            let r = substring_between(t, start, end)->0;
            &&& matches_at(t, start, f)
            &&& forall|k: int| 0 <= k < f ==> !#[trigger] matches_at(t, start, k)
            &&& t.subrange(f + start.len(), f + start.len() + r.len()) == r
            &&& matches_at(t, end, f + start.len() + r.len())
            &&& forall|k: int| f <= k < f + start.len() + r.len() ==> !#[trigger] matches_at(t, end, k)
        }),
{
    lemma_find_from(t, start, 0);
    let f = find(t, start)->0;
    lemma_find_from(t, end, f);
}

/// The positions `(a, b)` such that `t[a..b]` is the text between the
/// markers, or `None` when both occur but no `end` follows the first `start`.
pub fn between_range(t: &[char], start: &[char], end: &[char]) -> (r: Option<(usize, usize)>)
    requires
        !between_panics(t@, start@, end@),
    ensures
        match r {
            Some((a, b)) => {
                &&& a <= b <= t@.len()
                &&& substring_between(t@, start@, end@) == Some(t@.subrange(a as int, b as int))
            },
            None => substring_between(t@, start@, end@) is None,
        },
{
    let first = find_from_exec(t, start, 0);
    let any_end = find_from_exec(t, end, 0);
    match (first, any_end) {
        (Some(f), Some(_)) => {
            proof {
                lemma_find_from(t@, start@, 0);
            }
            match find_from_exec(t, end, f) {
                Some(j) => {
                    proof {
                        lemma_find_from(t@, end@, f as int);
                    }
                    Some((f + start.len(), j))
                },
                None => None,
            }
        },
        _ => {
            assert(t@.subrange(0, t@.len() as int) =~= t@);
            Some((0, t.len()))
        },
    }
}

/// The text between the markers (the empty text where there is none).
pub open spec fn between_or_empty(t: Seq<char>, start: Seq<char>, end: Seq<char>) -> Seq<char> {
    match substring_between(t, start, end) {
        Some(r) => r,
        None => Seq::empty(),
    }
}

/// `between_or_empty` on characters.
pub fn between_or_empty_exec(t: &[char], start: &[char], end: &[char]) -> (v: Vec<char>)
    requires
        !between_panics(t@, start@, end@),
    ensures
        v@ == between_or_empty(t@, start@, end@),
{
    match between_range(t, start, end) {
        Some((a, b)) => copy_range(t, a, b),
        None => Vec::new(),
    }
}

// ---------------------------------------------------------------------------
// Trimming
// ---------------------------------------------------------------------------

/// `s` without its leading white space.
pub open spec fn trim_start(s: Seq<char>) -> Seq<char>
    decreases s.len(),
{
    if s.len() > 0 && is_white_space(s[0]) {
        trim_start(s.drop_first())
    } else {
        s
    }
}

/// `s` without its trailing white space.
pub open spec fn trim_end(s: Seq<char>) -> Seq<char>
    decreases s.len(),
{
    if s.len() > 0 && is_white_space(s.last()) {
        trim_end(s.drop_last())
    } else {
        s
    }
}

/// `s` without leading and trailing white space (`str::trim`).
pub open spec fn trim(s: Seq<char>) -> Seq<char> {
    trim_end(trim_start(s))
}

/// `s` neither begins nor ends with white space.
pub open spec fn is_trimmed(s: Seq<char>) -> bool {
    s.len() > 0 ==> !is_white_space(s[0]) && !is_white_space(s.last())
}

/// `str::trim` on characters.
pub fn trim_exec(v: &[char]) -> (r: Vec<char>)
    ensures
        r@ == trim(v@),
{
    let len = v.len();
    let mut a: usize = 0;
    assert(v@.subrange(0, len as int) =~= v@);
    while a < len && char_is_white_space(v[a])
        invariant
            a <= len == v@.len(),
            trim_start(v@) == trim_start(v@.subrange(a as int, len as int)),
        decreases len - a,
    {
        assert(v@.subrange(a as int, len as int).drop_first() =~= v@.subrange(a + 1, len as int));
        a += 1;
    }
    let ghost u = v@.subrange(a as int, len as int);
    assert(trim_start(v@) == u);
    let mut b: usize = len;
    while b > a && char_is_white_space(v[b - 1])
        invariant
            a <= b <= len == v@.len(),
            u == v@.subrange(a as int, len as int),
            trim_end(u) == trim_end(v@.subrange(a as int, b as int)),
        decreases b - a,
    {
        assert(v@.subrange(a as int, b as int).drop_last() =~= v@.subrange(a as int, b - 1));
        b -= 1;
    }
    copy_range(v, a, b)
}

/// What `trim` leaves neither begins nor ends with white space.
pub proof fn lemma_trim_is_trimmed(s: Seq<char>)
    ensures
        is_trimmed(trim(s)),
        trim(trim(s)) == trim(s),
{
    lemma_trim_start_no_lead(s);
    lemma_trim_end_keeps_lead(trim_start(s));
    lemma_trim_end_no_tail(trim_start(s));
    let r = trim(s);
    if r.len() > 0 {
        assert(trim_start(r) == r);
        assert(trim_end(r) == r);
    } else {
        assert(trim_start(r) == r);
        assert(trim_end(r) == r);
    }
}

proof fn lemma_trim_start_no_lead(s: Seq<char>)
    ensures
        trim_start(s).len() > 0 ==> !is_white_space(trim_start(s)[0]),
    decreases s.len(),
{
    if s.len() > 0 && is_white_space(s[0]) {
        lemma_trim_start_no_lead(s.drop_first());
    }
}

proof fn lemma_trim_end_no_tail(s: Seq<char>)
    ensures
        trim_end(s).len() > 0 ==> !is_white_space(trim_end(s).last()),
    decreases s.len(),
{
    if s.len() > 0 && is_white_space(s.last()) {
        lemma_trim_end_no_tail(s.drop_last());
    }
}

/// `trim_end` removes a tail, so it keeps the first character unless it
/// removes everything.
proof fn lemma_trim_end_keeps_lead(s: Seq<char>)
    ensures
        trim_end(s).len() <= s.len(),
        trim_end(s) == s.subrange(0, trim_end(s).len() as int),
    decreases s.len(),
{
    if s.len() > 0 && is_white_space(s.last()) {
        lemma_trim_end_keeps_lead(s.drop_last());
        assert(s.drop_last().subrange(0, trim_end(s).len() as int) =~= s.subrange(
            0,
            trim_end(s).len() as int,
        ));
    } else {
        assert(s.subrange(0, s.len() as int) =~= s);
    }
}

/// Trimming text that begins with a character other than white space keeps
/// that beginning: a prefix free of white space survives `trim`.
pub proof fn lemma_trim_keeps_prefix(s: Seq<char>, p: Seq<char>)
    requires
        starts_with(s, p),
        p.len() > 0,
        forall|k: int| 0 <= k < p.len() ==> !is_white_space(#[trigger] p[k]),
    ensures
        starts_with(trim(s), p),
{
    assert(s[0] == s.subrange(0, p.len() as int)[0]);
    assert(trim_start(s) == s);
    lemma_trim_end_prefix(s, p);
}

proof fn lemma_trim_end_prefix(s: Seq<char>, p: Seq<char>)
    requires
        starts_with(s, p),
        p.len() > 0,
        forall|k: int| 0 <= k < p.len() ==> !is_white_space(#[trigger] p[k]),
    ensures
        starts_with(trim_end(s), p),
    decreases s.len(),
{
    if s.len() > 0 && is_white_space(s.last()) {
        if s.len() == p.len() {
            assert(s.last() == s.subrange(0, p.len() as int)[p.len() - 1]);
        }
        assert(s.drop_last().subrange(0, p.len() as int) =~= s.subrange(0, p.len() as int));
        lemma_trim_end_prefix(s.drop_last(), p);
    }
}

/// A single character `c` does not occur before the first match of
/// `seq![c]`, nor anywhere when there is none.
pub proof fn lemma_no_char_before(t: Seq<char>, c: char)
    ensures
        match find(t, seq![c]) {
            Some(e) => 0 <= e <= t.len() && !t.take(e).contains(c),
            None => !t.contains(c),
        },
{
    lemma_find_from(t, seq![c], 0);
    assert forall|k: int| 0 <= k < t.len() && #[trigger] t[k] == c implies matches_at(
        t,
        seq![c],
        k,
    ) by {
        assert(t.subrange(k, k + 1) =~= seq![c]);
    }
    if let Some(e) = find(t, seq![c]) {
        assert forall|k: int| 0 <= k < e implies t.take(e)[k] != c by {
            if t[k] == c {
                assert(matches_at(t, seq![c], k));
            }
        }
    }
}

/// `trim` keeps a stretch of its argument, so it adds no character.
pub proof fn lemma_trim_within(s: Seq<char>, c: char)
    requires
        !s.contains(c),
    ensures
        !trim(s).contains(c),
{
    lemma_trim_start_within(s, c);
    lemma_trim_end_within(trim_start(s), c);
}

proof fn lemma_trim_start_within(s: Seq<char>, c: char)
    requires
        !s.contains(c),
    ensures
        !trim_start(s).contains(c),
    decreases s.len(),
{
    if s.len() > 0 && is_white_space(s[0]) {
        assert forall|k: int| 0 <= k < s.drop_first().len() implies s.drop_first()[k] != c by {
            assert(s.drop_first()[k] == s[k + 1]);
        }
        lemma_trim_start_within(s.drop_first(), c);
    }
}

proof fn lemma_trim_end_within(s: Seq<char>, c: char)
    requires
        !s.contains(c),
    ensures
        !trim_end(s).contains(c),
    decreases s.len(),
{
    if s.len() > 0 && is_white_space(s.last()) {
        assert forall|k: int| 0 <= k < s.drop_last().len() implies s.drop_last()[k] != c by {
            assert(s.drop_last()[k] == s[k]);
        }
        lemma_trim_end_within(s.drop_last(), c);
    }
}

// ---------------------------------------------------------------------------
// Stripping repeated prefixes
// ---------------------------------------------------------------------------

/// `s` with every leading repetition of `p` removed
/// (`str::trim_start_matches`, for a non-empty pattern).
pub open spec fn strip_prefixes(s: Seq<char>, p: Seq<char>) -> Seq<char>
    decreases s.len(),
{
    if p.len() > 0 && starts_with(s, p) {
        strip_prefixes(s.skip(p.len() as int), p)
    } else {
        s
    }
}

/// `strip_prefixes` on characters.
pub fn strip_prefixes_exec(s: &[char], p: &[char]) -> (r: Vec<char>)
    requires
        p@.len() > 0,
    ensures
        r@ == strip_prefixes(s@, p@),
{
    let mut i: usize = 0;
    assert(s@.subrange(0, s@.len() as int) =~= s@);
    while matches_at_exec(s, p, i)
        invariant
            i <= s@.len(),
            p@.len() > 0,
            strip_prefixes(s@, p@) == strip_prefixes(s@.subrange(i as int, s@.len() as int), p@),
        decreases s.len() - i,
    {
        let ghost u = s@.subrange(i as int, s@.len() as int);
        assert(u.subrange(0, p@.len() as int) =~= s@.subrange(i as int, i + p@.len()));
        assert(u.skip(p@.len() as int) =~= s@.subrange(i + p@.len(), s@.len() as int));
        i = i + p.len();
    }
    let ghost u = s@.subrange(i as int, s@.len() as int);
    proof {
        if starts_with(u, p@) {
            assert(u.subrange(0, p@.len() as int) =~= s@.subrange(i as int, i + p@.len()));
        }
    }
    copy_range(s, i, s.len())
}

// ---------------------------------------------------------------------------
// Replacing
// ---------------------------------------------------------------------------

/// `s` from position `i` on, with every occurrence of `from` (left to right,
/// without overlaps) replaced by `to`. Meant for a non-empty `from`.
pub open spec fn replace_from(s: Seq<char>, from: Seq<char>, to: Seq<char>, i: int) -> Seq<char>
    decreases s.len() + 1 - i,
{
    if from.len() == 0 || i < 0 || i > s.len() {
        s
    } else {
        match find_from(s, from, i) {
            None => s.subrange(i, s.len() as int),
            Some(j) => if j < i || j + from.len() > s.len() {
                s
            } else {
                s.subrange(i, j) + to + replace_from(s, from, to, j + from.len())
            },
        }
    }
}

/// `s` with every occurrence of `from` replaced by `to` (`str::replace`,
/// for a non-empty pattern).
pub open spec fn replace(s: Seq<char>, from: Seq<char>, to: Seq<char>) -> Seq<char> {
    replace_from(s, from, to, 0)
}

/// `str::replace` on characters.
pub fn replace_exec(s: &[char], from: &[char], to: &[char]) -> (r: Vec<char>)
    requires
        from@.len() > 0,
    ensures
        r@ == replace(s@, from@, to@),
{
    let mut out: Vec<char> = Vec::new();
    let mut i: usize = 0;
    loop
        invariant
            i <= s@.len(),
            from@.len() > 0,
            replace(s@, from@, to@) == out@ + replace_from(s@, from@, to@, i as int),
        decreases s@.len() - i,
    {
        match find_from_exec(s, from, i) {
            None => {
                push_range(&mut out, s, i, s.len());
                return out;
            },
            Some(j) => {
                proof {
                    lemma_find_from(s@, from@, i as int);
                }
                assert(matches_at(s@, from@, j as int));
                let ghost before = out@;
                push_range(&mut out, s, i, j);
                push_all(&mut out, to);
                assert(before + (s@.subrange(i as int, j as int) + to@ + replace_from(
                    s@,
                    from@,
                    to@,
                    j + from@.len(),
                )) =~= out@ + replace_from(s@, from@, to@, j + from@.len()));
                let n = s.len();
                assert(j + from@.len() <= n);
                i = j + from.len();
            },
        }
    }
}

/// Replacing a pattern that does not occur leaves the text as it is.
pub proof fn lemma_replace_absent(s: Seq<char>, from: Seq<char>, to: Seq<char>)
    requires
        from.len() > 0,
        !contains(s, from),
    ensures
        replace(s, from, to) == s,
{
    assert(s.subrange(0, s.len() as int) =~= s);
}

/// Replacing a single character by text that does not hold it leaves no
/// occurrence of that character.
pub proof fn lemma_replace_removes_char(s: Seq<char>, c: char, to: Seq<char>)
    requires
        !to.contains(c),
    ensures
        !replace(s, seq![c], to).contains(c),
{
    lemma_replace_from_removes_char(s, c, to, 0);
}

proof fn lemma_replace_from_removes_char(s: Seq<char>, c: char, to: Seq<char>, i: int)
    requires
        !to.contains(c),
        0 <= i <= s.len(),
    ensures
        !replace_from(s, seq![c], to, i).contains(c),
    decreases s.len() + 1 - i,
{
    let from = seq![c];
    lemma_find_from(s, from, i);
    match find_from(s, from, i) {
        None => {
            assert forall|k: int| 0 <= k < s.len() - i implies s.subrange(i, s.len() as int)[k]
                != c by {
                if s[i + k] == c {
                    assert(s.subrange(i + k, i + k + 1) =~= from);
                    assert(matches_at(s, from, i + k));
                }
            }
        },
        Some(j) => {
            lemma_replace_from_removes_char(s, c, to, j + 1);
            let rest = replace_from(s, from, to, j + 1);
            let pre = s.subrange(i, j);
            assert forall|k: int| 0 <= k < pre.len() implies pre[k] != c by {
                if s[i + k] == c {
                    assert(s.subrange(i + k, i + k + 1) =~= from);
                    assert(matches_at(s, from, i + k));
                }
            }
            let whole = pre + to + rest;
            assert forall|k: int| 0 <= k < whole.len() implies whole[k] != c by {
                if k < pre.len() {
                } else if k < pre.len() + to.len() {
                    assert(to[k - pre.len()] == whole[k]);
                } else {
                    assert(rest[k - pre.len() - to.len()] == whole[k]);
                }
            }
        },
    }
}

// ---------------------------------------------------------------------------
// Splitting
// ---------------------------------------------------------------------------

/// The pieces of `s` from position `i` on, cut at each occurrence of `sep`
/// (left to right, without overlaps). Meant for a non-empty `sep`.
pub open spec fn split_from(s: Seq<char>, sep: Seq<char>, i: int) -> Seq<Seq<char>>
    decreases s.len() + 1 - i,
{
    if sep.len() == 0 || i < 0 || i > s.len() {
        Seq::empty()
    } else {
        match find_from(s, sep, i) {
            None => seq![s.subrange(i, s.len() as int)],
            Some(j) => if j < i || j + sep.len() > s.len() {
                Seq::empty()
            } else {
                seq![s.subrange(i, j)] + split_from(s, sep, j + sep.len())
            },
        }
    }
}

/// The texts held by a sequence of character vectors.
pub open spec fn texts_of(v: Seq<Vec<char>>) -> Seq<Seq<char>> {
    v.map_values(|x: Vec<char>| x@)
}

/// The pieces of `s` cut at each `sep` (`str::split`, for a non-empty
/// separator).
pub open spec fn split(s: Seq<char>, sep: Seq<char>) -> Seq<Seq<char>> {
    split_from(s, sep, 0)
}

/// `str::split` on characters.
pub fn split_exec(s: &[char], sep: &[char]) -> (r: Vec<Vec<char>>)
    requires
        sep@.len() > 0,
    ensures
        texts_of(r@) == split(s@, sep@),
{
    let mut out: Vec<Vec<char>> = Vec::new();
    let mut i: usize = 0;
    loop
        invariant
            i <= s@.len(),
            sep@.len() > 0,
            split(s@, sep@) == texts_of(out@) + split_from(s@, sep@, i as int),
        decreases s@.len() - i,
    {
        let ghost before = texts_of(out@);
        match find_from_exec(s, sep, i) {
            None => {
                let piece = copy_range(s, i, s.len());
                out.push(piece);
                assert(texts_of(out@) =~= before + seq![s@.subrange(i as int, s@.len() as int)]);
                return out;
            },
            Some(j) => {
                proof {
                    lemma_find_from(s@, sep@, i as int);
                }
                assert(matches_at(s@, sep@, j as int));
                let piece = copy_range(s, i, j);
                out.push(piece);
                assert(texts_of(out@) =~= before + seq![s@.subrange(i as int, j as int)]);
                assert(before + (seq![s@.subrange(i as int, j as int)] + split_from(
                    s@,
                    sep@,
                    j + sep@.len(),
                )) =~= texts_of(out@) + split_from(s@, sep@, j + sep@.len()));
                let n = s.len();
                assert(j + sep@.len() <= n);
                i = j + sep.len();
            },
        }
    }
}

/// Splitting always gives at least one piece.
pub proof fn lemma_split_nonempty(s: Seq<char>, sep: Seq<char>)
    requires
        sep.len() > 0,
    ensures
        split(s, sep).len() >= 1,
{
    lemma_find_from(s, sep, 0);
}

/// The first piece of a split is the text before the first separator, and
/// when the separator occurs at least twice, the third piece lies between
/// the second and the third separator (or the end).
pub proof fn lemma_split_unfold(s: Seq<char>, sep: Seq<char>, i: int)
    requires
        sep.len() > 0,
        0 <= i <= s.len(),
    ensures
        split_from(s, sep, i).len() >= 1,
        find_from(s, sep, i) matches Some(j) ==> split_from(s, sep, i) == seq![
            s.subrange(i, j),
        ] + split_from(s, sep, j + sep.len()) && i <= j && j + sep.len() <= s.len(),
        find_from(s, sep, i) is None ==> split_from(s, sep, i) == seq![
            s.subrange(i, s.len() as int),
        ],
{
    lemma_find_from(s, sep, i);
    if let Some(j) = find_from(s, sep, i) {
        lemma_find_from(s, sep, j + sep.len());
    }
}

/// The pieces joined back together with `sep` between them (`[T]::join`).
pub open spec fn join(pieces: Seq<Seq<char>>, sep: Seq<char>) -> Seq<char>
    decreases pieces.len(),
{
    if pieces.len() == 0 {
        Seq::empty()
    } else if pieces.len() == 1 {
        pieces[0]
    } else {
        pieces[0] + sep + join(pieces.drop_first(), sep)
    }
}

/// Splitting loses nothing: joining the pieces with the separator gives the
/// text back.
pub proof fn lemma_split_join(s: Seq<char>, sep: Seq<char>)
    requires
        sep.len() > 0,
    ensures
        join(split(s, sep), sep) == s,
{
    lemma_split_from_join(s, sep, 0);
    assert(s.subrange(0, s.len() as int) =~= s);
}

proof fn lemma_split_from_join(s: Seq<char>, sep: Seq<char>, i: int)
    requires
        sep.len() > 0,
        0 <= i <= s.len(),
    ensures
        join(split_from(s, sep, i), sep) == s.subrange(i, s.len() as int),
    decreases s.len() + 1 - i,
{
    lemma_split_unfold(s, sep, i);
    lemma_find_from(s, sep, i);
    if let Some(j) = find_from(s, sep, i) {
        let next = j + sep.len();
        lemma_split_from_join(s, sep, next);
        lemma_split_unfold(s, sep, next);
        let rest = split_from(s, sep, next);
        let pieces = split_from(s, sep, i);
        assert(pieces.drop_first() =~= rest);
        assert(pieces[0] == s.subrange(i, j));
        assert(s.subrange(i, j) + sep + s.subrange(next, s.len() as int) =~= s.subrange(
            i,
            s.len() as int,
        ));
    }
}

// ---------------------------------------------------------------------------
// Lines
// ---------------------------------------------------------------------------

/// The lines among `lines` that hold `a` or `b`, joined without separator.
pub open spec fn join_lines_with(lines: Seq<Seq<char>>, a: Seq<char>, b: Seq<char>) -> Seq<char>
    decreases lines.len(),
{
    if lines.len() == 0 {
        Seq::empty()
    } else {
        let rest = join_lines_with(lines.drop_last(), a, b);
        let line = lines.last();
        if contains(line, a) || contains(line, b) {
            rest + line
        } else {
            rest
        }
    }
}

/// The lines of `t` (cut at `'\n'`) that hold `a` or `b`, joined together:
/// `t.split("\n").filter(|l| l.contains(a) || l.contains(b)).collect::<String>()`.
pub open spec fn lines_mentioning(t: Seq<char>, a: Seq<char>, b: Seq<char>) -> Seq<char> {
    join_lines_with(split(t, seq!['\n']), a, b)
}

/// `lines_mentioning` on characters.
pub fn lines_mentioning_exec(t: &[char], a: &[char], b: &[char]) -> (r: Vec<char>)
    ensures
        r@ == lines_mentioning(t@, a@, b@),
{
    let newline = vec!['\n'];
    let lines = split_exec(t, newline.as_slice());
    assert(newline@ =~= seq!['\n']);
    let mut out: Vec<char> = Vec::new();
    let mut k: usize = 0;
    while k < lines.len()
        invariant
            k <= lines@.len(),
            texts_of(lines@) == split(t@, seq!['\n']),
            out@ == join_lines_with(texts_of(lines@).take(k as int), a@, b@),
        decreases lines.len() - k,
    {
        let line = &lines[k];
        assert(texts_of(lines@).take(k + 1).drop_last() =~= texts_of(lines@).take(k as int));
        assert(texts_of(lines@).take(k + 1).last() == line@);
        if contains_exec(line.as_slice(), a) || contains_exec(line.as_slice(), b) {
            push_all(&mut out, line.as_slice());
        }
        k += 1;
    }
    assert(texts_of(lines@).take(lines@.len() as int) =~= texts_of(lines@));
    out
}

/// An occurrence that ends inside `t` is the same in `t + e`.
pub proof fn lemma_matches_prefix(t: Seq<char>, e: Seq<char>, p: Seq<char>, k: int)
    requires
        0 <= k,
        k + p.len() <= t.len(),
    ensures
        matches_at(t + e, p, k) == matches_at(t, p, k),
{
    assert((t + e).subrange(k, k + p.len()) =~= t.subrange(k, k + p.len()));
}

/// Text appended after the first occurrence does not change it.
pub proof fn lemma_find_from_prefix(t: Seq<char>, e: Seq<char>, p: Seq<char>, i: int)
    requires
        0 <= i,
        find_from(t, p, i) is Some,
    ensures
        find_from(t + e, p, i) == find_from(t, p, i),
    decreases t.len() + 1 - i,
{
    lemma_find_from(t, p, i);
    lemma_matches_prefix(t, e, p, i);
    if !matches_at(t, p, i) {
        lemma_find_from_prefix(t, e, p, i + 1);
    }
}

/// Searching `pre + t` past `pre` is searching `t`, shifted.
proof fn lemma_find_from_shift(pre: Seq<char>, t: Seq<char>, p: Seq<char>, k: int)
    requires
        0 <= k,
    ensures
        find_from(pre + t, p, pre.len() + k) == match find_from(t, p, k) {
            Some(j) => Some(j + pre.len()),
            None => None,
        },
    decreases t.len() + 1 - k,
{
    let u = pre + t;
    let i = pre.len() + k;
    if k + p.len() <= t.len() {
        assert(u.subrange(i, i + p.len()) =~= t.subrange(k, k + p.len()));
        if !matches_at(t, p, k) {
            lemma_find_from_shift(pre, t, p, k + 1);
        }
    }
}

/// Splitting `pre + t` past `pre` is splitting `t`.
proof fn lemma_split_from_shift(pre: Seq<char>, t: Seq<char>, sep: Seq<char>, k: int)
    requires
        sep.len() > 0,
        0 <= k <= t.len(),
    ensures
        split_from(pre + t, sep, pre.len() + k) == split_from(t, sep, k),
    decreases t.len() + 1 - k,
{
    let u = pre + t;
    let i = pre.len() + k;
    lemma_find_from_shift(pre, t, sep, k);
    lemma_find_from(t, sep, k);
    match find_from(t, sep, k) {
        None => {
            assert(u.subrange(i, u.len() as int) =~= t.subrange(k, t.len() as int));
        },
        Some(j) => {
            assert(u.subrange(i, j + pre.len()) =~= t.subrange(k, j));
            lemma_split_from_shift(pre, t, sep, j + sep.len());
        },
    }
}

/// With no `c` in `s` from `i` on, the first `c` of `s + [c] + t` from `i`
/// on is the one between them.
proof fn lemma_find_separator(s: Seq<char>, c: char, t: Seq<char>, i: int)
    requires
        0 <= i <= s.len(),
        find_from(s, seq![c], i) is None,
    ensures
        find_from(s + seq![c] + t, seq![c], i) == Some(s.len() as int),
    decreases s.len() - i,
{
    let u = s + seq![c] + t;
    assert(u =~= s + (seq![c] + t));
    if i == s.len() {
        assert(u.subrange(i, i + 1) =~= seq![c]);
    } else {
        lemma_matches_prefix(s, seq![c] + t, seq![c], i);
        lemma_find_separator(s, c, t, i + 1);
    }
}

proof fn lemma_split_from_concat(s: Seq<char>, c: char, t: Seq<char>, i: int)
    requires
        0 <= i <= s.len(),
    ensures
        split_from(s + seq![c] + t, seq![c], i) == split_from(s, seq![c], i) + split(t, seq![c]),
    decreases s.len() + 1 - i,
{
    let sep = seq![c];
    let u = s + sep + t;
    assert(u =~= s + (sep + t));
    lemma_find_from(s, sep, i);
    match find_from(s, sep, i) {
        Some(j) => {
            lemma_find_from_prefix(s, sep + t, sep, i);
            assert(u.subrange(i, j) =~= s.subrange(i, j));
            lemma_split_from_concat(s, c, t, j + 1);
            assert(seq![s.subrange(i, j)] + (split_from(s, sep, j + 1) + split(t, sep)) =~= (seq![
                s.subrange(i, j),
            ] + split_from(s, sep, j + 1)) + split(t, sep));
        },
        None => {
            lemma_find_separator(s, c, t, i);
            assert(u.subrange(i, s.len() as int) =~= s.subrange(i, s.len() as int));
            lemma_split_from_shift(s + sep, t, sep, 0);
            assert((s + sep).len() + 0 == s.len() + 1);
        },
    }
}

/// Splitting at `c` the text `s`, `c`, `t` gives the pieces of `s` followed
/// by the pieces of `t`.
pub proof fn lemma_split_concat(s: Seq<char>, c: char, t: Seq<char>)
    ensures
        split(s + seq![c] + t, seq![c]) == split(s, seq![c]) + split(t, seq![c]),
{
    lemma_split_from_concat(s, c, t, 0);
}

/// A text without line breaks is one line: it is kept whole when it holds
/// a key, and dropped when it holds neither.
pub proof fn lemma_lines_mentioning_single_line(t: Seq<char>, a: Seq<char>, b: Seq<char>)
    requires
        !t.contains('\n'),
    ensures
        lines_mentioning(t, a, b) == if contains(t, a) || contains(t, b) {
            t
        } else {
            Seq::<char>::empty()
        },
{
    let nl = seq!['\n'];
    lemma_find_from(t, nl, 0);
    if let Some(j) = find_from(t, nl, 0) {
        assert(t[j] == t.subrange(j, j + 1)[0]);
    }
    assert(t.subrange(0, t.len() as int) =~= t);
    let lines = split(t, nl);
    assert(lines == seq![t]);
    assert(lines.drop_last() =~= Seq::<Seq<char>>::empty());
    assert(join_lines_with(lines.drop_last(), a, b) == Seq::<char>::empty());
    assert(lines.last() == t);
    assert(Seq::<char>::empty() + t =~= t);
}

/// Lines that hold neither key add nothing to the joined lines.
pub proof fn lemma_join_lines_append(
    front: Seq<Seq<char>>,
    back: Seq<Seq<char>>,
    a: Seq<char>,
    b: Seq<char>,
)
    requires
        forall|k: int|
            0 <= k < back.len() ==> !contains(#[trigger] back[k], a) && !contains(back[k], b),
    ensures
        join_lines_with(front + back, a, b) == join_lines_with(front, a, b),
    decreases back.len(),
{
    if back.len() > 0 {
        assert((front + back).drop_last() =~= front + back.drop_last());
        assert((front + back).last() == back[back.len() - 1]);
        lemma_join_lines_append(front, back.drop_last(), a, b);
    } else {
        assert(front + back =~= front);
    }
}

/// Appending a line break and lines that hold neither key leaves the lines
/// mentioning the keys as they were.
pub proof fn lemma_lines_mentioning_append(t: Seq<char>, extra: Seq<char>, a: Seq<char>, b: Seq<char>)
    requires
        forall|k: int|
            0 <= k < split(extra, seq!['\n']).len() ==> !contains(
                #[trigger] split(extra, seq!['\n'])[k],
                a,
            ) && !contains(split(extra, seq!['\n'])[k], b),
    ensures
        lines_mentioning(t + seq!['\n'] + extra, a, b) == lines_mentioning(t, a, b),
{
    lemma_split_concat(t, '\n', extra);
    lemma_join_lines_append(split(t, seq!['\n']), split(extra, seq!['\n']), a, b);
}

// ---------------------------------------------------------------------------
// Web addresses
// ---------------------------------------------------------------------------

/// The third `/`-separated piece of a web address (the host of
/// `https://host/...`): `url.split("/").collect::<Vec<&str>>()[2]`, or
/// `None` where there are fewer than three pieces and that indexing panics.
pub open spec fn url_domain(url: Seq<char>) -> Option<Seq<char>> {
    let parts = split(url, seq!['/']);
    if parts.len() > 2 {
        Some(parts[2])
    } else {
        None
    }
}

/// `url_domain` on characters.
pub fn url_domain_exec(url: &[char]) -> (r: Option<Vec<char>>)
    ensures
        match r {
            Some(d) => url_domain(url@) == Some(d@),
            None => url_domain(url@) is None,
        },
{
    let slash = vec!['/'];
    assert(slash@ =~= seq!['/']);
    let mut parts = split_exec(url, slash.as_slice());
    if parts.len() > 2 {
        let d = parts.swap_remove(2);
        assert(d@ == split(url@, seq!['/'])[2]);
        Some(d)
    } else {
        None
    }
}

/// A web address that starts with `https://` has a host piece.
pub proof fn lemma_https_url_has_domain(url: Seq<char>)
    requires
        starts_with(url, "https://"@),
    ensures
        url_domain(url) is Some,
{
    reveal_strlit("https://");
    let slash = seq!['/'];
    assert(url.subrange(0, 8) == "https://"@);
    assert(url[6] == url.subrange(0, 8)[6]);
    assert(url[7] == url.subrange(0, 8)[7]);
    assert(url.subrange(6, 7) =~= slash);
    assert(url.subrange(7, 8) =~= slash);
    assert(matches_at(url, slash, 6));
    assert(matches_at(url, slash, 7));
    lemma_split_unfold(url, slash, 0);
    lemma_find_from(url, slash, 0);
    let j0 = find_from(url, slash, 0)->0;
    assert(j0 <= 6);
    lemma_split_unfold(url, slash, j0 + 1);
    lemma_find_from(url, slash, j0 + 1);
    let j1 = find_from(url, slash, j0 + 1)->0;
    assert(j1 <= 7);
    lemma_split_unfold(url, slash, j1 + 1);
}

} // verus!
