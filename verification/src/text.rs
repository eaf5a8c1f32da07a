//! Character-level helpers over `str`, with their meaning over `Seq<char>`.
//!
//! Every scanner here works on the characters of a string (its `@` view) and
//! reports positions in characters, so a multi-byte character can never be cut.

use vstd::prelude::*;

verus! {

// ---------------------------------------------------------------------------
// Meaning
// ---------------------------------------------------------------------------

/// Unicode `White_Space`, the set `char::is_whitespace` tests and `str::trim` strips.
pub open spec fn is_ws(c: char) -> bool {
    let n = c as int;
    ||| n == 0x20
    ||| (0x09 <= n && n <= 0x0d)
    ||| n == 0x85
    ||| n == 0xa0
    ||| n == 0x1680
    ||| (0x2000 <= n && n <= 0x200a)
    ||| n == 0x2028
    ||| n == 0x2029
    ||| n == 0x202f
    ||| n == 0x205f
    ||| n == 0x3000
}

pub open spec fn is_digit(c: char) -> bool {
    '0' <= c && c <= '9'
}

pub open spec fn is_ascii_alpha(c: char) -> bool {
    ('a' <= c && c <= 'z') || ('A' <= c && c <= 'Z')
}

/// `s` without its trailing whitespace.
pub open spec fn trim_end(s: Seq<char>) -> Seq<char>
    decreases s.len(),
{
    if s.len() > 0 && is_ws(s.last()) {
        trim_end(s.drop_last())
    } else {
        s
    }
}

/// `s` without its leading whitespace.
pub open spec fn trim_start(s: Seq<char>) -> Seq<char>
    decreases s.len(),
{
    if s.len() > 0 && is_ws(s[0]) {
        trim_start(s.drop_first())
    } else {
        s
    }
}

/// `s` without whitespace at either end.
pub open spec fn trim(s: Seq<char>) -> Seq<char> {
    trim_start(trim_end(s))
}

/// `s` without any run of `c` at either end.
pub open spec fn trim_char(s: Seq<char>, c: char) -> Seq<char> {
    trim_char_start(trim_char_end(s, c), c)
}

pub open spec fn trim_char_end(s: Seq<char>, c: char) -> Seq<char>
    decreases s.len(),
{
    if s.len() > 0 && s.last() == c {
        trim_char_end(s.drop_last(), c)
    } else {
        s
    }
}

pub open spec fn trim_char_start(s: Seq<char>, c: char) -> Seq<char>
    decreases s.len(),
{
    if s.len() > 0 && s[0] == c {
        trim_char_start(s.drop_first(), c)
    } else {
        s
    }
}

/// What follows `p` in `s`, when `s` starts with `p`.
pub open spec fn strip_prefix(s: Seq<char>, p: Seq<char>) -> Option<Seq<char>> {
    if p.is_prefix_of(s) {
        Some(s.skip(p.len() as int))
    } else {
        None
    }
}

/// What precedes `p` in `s`, when `s` ends with `p`.
pub open spec fn strip_suffix(s: Seq<char>, p: Seq<char>) -> Option<Seq<char>> {
    if p.is_suffix_of(s) {
        Some(s.take(s.len() - p.len()))
    } else {
        None
    }
}

/// Index of the first character of `s` that satisfies `p`, or -1.
pub open spec fn first_where(s: Seq<char>, p: spec_fn(char) -> bool) -> int
    decreases s.len(),
{
    if s.len() == 0 {
        -1
    } else if p(s[0]) {
        0
    } else {
        let r = first_where(s.drop_first(), p);
        if r < 0 {
            -1
        } else {
            r + 1
        }
    }
}

/// Index of the last character of `s` that satisfies `p`, or -1.
pub open spec fn last_where(s: Seq<char>, p: spec_fn(char) -> bool) -> int
    decreases s.len(),
{
    if s.len() == 0 {
        -1
    } else if p(s.last()) {
        s.len() - 1
    } else {
        last_where(s.drop_last(), p)
    }
}

/// Index of the first occurrence of `pat` in `s`, or -1.
pub open spec fn find_seq(s: Seq<char>, pat: Seq<char>) -> int
    decreases s.len(),
{
    if pat.is_prefix_of(s) {
        0
    } else if s.len() == 0 {
        -1
    } else {
        let r = find_seq(s.drop_first(), pat);
        if r < 0 {
            -1
        } else {
            r + 1
        }
    }
}

/// `s.split_once(pat)`: the text before and after the first `pat`.
pub open spec fn split_once(s: Seq<char>, pat: Seq<char>) -> Option<(Seq<char>, Seq<char>)> {
    let i = find_seq(s, pat);
    if i < 0 {
        None
    } else {
        Some((s.take(i), s.skip(i + pat.len())))
    }
}

/// `s.split(pat).nth(1)`: the text between the first `pat` and the next one
/// (or the end), when there is a first one.
pub open spec fn second_piece(s: Seq<char>, pat: Seq<char>) -> Option<Seq<char>> {
    match split_once(s, pat) {
        None => None,
        Some((_, rest)) => {
            let j = find_seq(rest, pat);
            if j < 0 {
                Some(rest)
            } else {
                Some(rest.take(j))
            }
        },
    }
}

/// The predicate "is `c`".
pub open spec fn eq_char(c: char) -> spec_fn(char) -> bool {
    |x: char| x == c
}

/// The pieces of `s` between the characters that satisfy `sep`, empty ones
/// included: `s.split(sep)`.
pub open spec fn split_by(s: Seq<char>, sep: spec_fn(char) -> bool) -> Seq<Seq<char>>
    decreases s.len(),
{
    if s.len() == 0 {
        seq![Seq::<char>::empty()]
    } else {
        let r = split_by(s.drop_last(), sep);
        if sep(s.last()) {
            r.push(Seq::<char>::empty())
        } else {
            r.update(r.len() - 1, r.last().push(s.last()))
        }
    }
}

/// The non-empty ones among `pieces`, in order.
pub open spec fn nonempty(pieces: Seq<Seq<char>>) -> Seq<Seq<char>>
    decreases pieces.len(),
{
    if pieces.len() == 0 {
        pieces
    } else {
        let r = nonempty(pieces.drop_last());
        if pieces.last().len() > 0 {
            r.push(pieces.last())
        } else {
            r
        }
    }
}

/// The separators the scanners split on.
pub enum Sep {
    /// One given character.
    Char(char),
    /// `\r` or `\n`.
    LineBreak,
    /// Any whitespace character.
    Space,
}

pub open spec fn sep_pred(m: Sep) -> spec_fn(char) -> bool {
    match m {
        Sep::Char(c) => eq_char(c),
        Sep::LineBreak => |x: char| x == '\r' || x == '\n',
        Sep::Space => |x: char| is_ws(x),
    }
}

/// `s.split_whitespace()`.
pub open spec fn words(s: Seq<char>) -> Seq<Seq<char>> {
    nonempty(split_by(s, sep_pred(Sep::Space)))
}

/// The texts that `ranges` cut out of `v`.
pub open spec fn cut(v: Seq<char>, ranges: Seq<(usize, usize)>) -> Seq<Seq<char>> {
    ranges.map_values(|r: (usize, usize)| v.subrange(r.0 as int, r.1 as int))
}

/// The views of some string slices.
pub open spec fn views(v: Seq<&str>) -> Seq<Seq<char>> {
    v.map_values(|s: &str| s@)
}

/// The views of some strings.
pub open spec fn string_views(v: Seq<String>) -> Seq<Seq<char>> {
    v.map_values(|s: String| s@)
}


// ---------------------------------------------------------------------------
// Facts
// ---------------------------------------------------------------------------

pub proof fn lemma_first_where(s: Seq<char>, p: spec_fn(char) -> bool)
    ensures
        -1 <= first_where(s, p) < s.len(),
        first_where(s, p) >= 0 ==> p(s[first_where(s, p)]),
        forall|j: int| 0 <= j < s.len() && (first_where(s, p) < 0 || j < first_where(s, p)) ==> !p(s[j]),
    decreases s.len(),
{
    if s.len() > 0 && !p(s[0]) {
        lemma_first_where(s.drop_first(), p);
        assert forall|j: int| 0 <= j < s.len() && (first_where(s, p) < 0 || j < first_where(s, p)) implies !p(s[j]) by {
            if j > 0 {
                assert(s[j] == s.drop_first()[j - 1]);
            }
        }
    }
}

pub proof fn lemma_last_where(s: Seq<char>, p: spec_fn(char) -> bool)
    ensures
        -1 <= last_where(s, p) < s.len(),
        last_where(s, p) >= 0 ==> p(s[last_where(s, p)]),
        forall|j: int| last_where(s, p) < j < s.len() ==> !p(s[j]),
    decreases s.len(),
{
    if s.len() > 0 && !p(s.last()) {
        lemma_last_where(s.drop_last(), p);
        assert forall|j: int| last_where(s, p) < j < s.len() implies !p(s[j]) by {
            if j < s.len() - 1 {
                assert(s[j] == s.drop_last()[j]);
            }
        }
    }
}

/// `first_where` is the one index that satisfies `p` with nothing before it that does.
pub proof fn lemma_first_where_unique(s: Seq<char>, p: spec_fn(char) -> bool, i: int)
    requires
        -1 <= i < s.len(),
        i >= 0 ==> p(s[i]),
        forall|j: int| 0 <= j < s.len() && (i < 0 || j < i) ==> !p(s[j]),
    ensures
        first_where(s, p) == i,
{
    lemma_first_where(s, p);
    let f = first_where(s, p);
    if f >= 0 && (i < 0 || f < i) {
        assert(!p(s[f]));
    }
    if i >= 0 && (f < 0 || i < f) {
        assert(!p(s[i]));
    }
}

/// `last_where` is the one index that satisfies `p` with nothing after it that does.
pub proof fn lemma_last_where_unique(s: Seq<char>, p: spec_fn(char) -> bool, i: int)
    requires
        -1 <= i < s.len(),
        i >= 0 ==> p(s[i]),
        forall|j: int| i < j < s.len() ==> !p(s[j]),
    ensures
        last_where(s, p) == i,
{
    lemma_last_where(s, p);
    let f = last_where(s, p);
    if f > i {
        assert(!p(s[f]));
    }
    if i > f {
        assert(!p(s[i]));
    }
}

pub open spec fn occurs_at(s: Seq<char>, pat: Seq<char>, i: int) -> bool {
    pat.is_prefix_of(s.skip(i))
}

pub proof fn lemma_find_seq(s: Seq<char>, pat: Seq<char>)
    ensures
        -1 <= find_seq(s, pat) <= s.len(),
        find_seq(s, pat) >= 0 ==> occurs_at(s, pat, find_seq(s, pat)),
        forall|j: int| 0 <= j <= s.len() && (find_seq(s, pat) < 0 || j < find_seq(s, pat)) ==> !occurs_at(s, pat, j),
    decreases s.len(),
{
    assert(s.skip(0) =~= s);
    if !pat.is_prefix_of(s) && s.len() > 0 {
        lemma_find_seq(s.drop_first(), pat);
        assert forall|j: int| 0 <= j <= s.len() && (find_seq(s, pat) < 0 || j < find_seq(s, pat)) implies !occurs_at(s, pat, j) by {
            if j > 0 {
                assert(s.skip(j) =~= s.drop_first().skip(j - 1));
                assert(!occurs_at(s.drop_first(), pat, j - 1));
            } else {
                assert(s.skip(0) =~= s);
            }
        }
        if find_seq(s, pat) >= 0 {
            assert(s.skip(find_seq(s, pat)) =~= s.drop_first().skip(find_seq(s, pat) - 1));
        }
    }
}

pub proof fn lemma_find_seq_unique(s: Seq<char>, pat: Seq<char>, i: int)
    requires
        -1 <= i <= s.len(),
        i >= 0 ==> occurs_at(s, pat, i),
        forall|j: int| 0 <= j <= s.len() && (i < 0 || j < i) ==> !occurs_at(s, pat, j),
    ensures
        find_seq(s, pat) == i,
{
    lemma_find_seq(s, pat);
    let f = find_seq(s, pat);
    if f >= 0 && (i < 0 || f < i) {
        assert(!occurs_at(s, pat, f));
    }
    if i >= 0 && (f < 0 || i < f) {
        assert(!occurs_at(s, pat, i));
    }
}

// ---------------------------------------------------------------------------
// Scanners over a character vector, within `[lo, hi)`
// ---------------------------------------------------------------------------

/// The characters of `s`, in order.
pub fn chars_of(s: &str) -> (v: Vec<char>)
    ensures
        v@ == s@,
{
    let mut v: Vec<char> = Vec::new();
    for c in it: s.chars()
        invariant
            v@ == it.seq().take(it.index()),
            it.seq() == s@,
    {
        v.push(c);
    }
    v
}

/// `char::is_whitespace`.
pub fn is_whitespace(c: char) -> (r: bool)
    ensures
        r == is_ws(c),
{
    let n = c as u32;
    n == 0x20 || (0x09 <= n && n <= 0x0d) || n == 0x85 || n == 0xa0 || n == 0x1680 || (0x2000 <= n
        && n <= 0x200a) || n == 0x2028 || n == 0x2029 || n == 0x202f || n == 0x205f || n == 0x3000
}

pub fn is_ascii_digit(c: char) -> (r: bool)
    ensures
        r == is_digit(c),
{
    '0' <= c && c <= '9'
}

pub fn is_ascii_alphabetic(c: char) -> (r: bool)
    ensures
        r == is_ascii_alpha(c),
{
    ('a' <= c && c <= 'z') || ('A' <= c && c <= 'Z')
}

/// End of `v[lo..hi]` once its trailing whitespace is dropped.
pub fn trim_end_at(v: &Vec<char>, lo: usize, hi: usize) -> (e: usize)
    requires
        lo <= hi <= v@.len(),
    ensures
        lo <= e <= hi,
        v@.subrange(lo as int, e as int) == trim_end(v@.subrange(lo as int, hi as int)),
{
    let mut e = hi;
    while e > lo && is_whitespace(v[e - 1])
        invariant
            lo <= e <= hi <= v@.len(),
            trim_end(v@.subrange(lo as int, e as int)) == trim_end(v@.subrange(lo as int, hi as int)),
        decreases e,
    {
        assert(v@.subrange(lo as int, e as int).drop_last() =~= v@.subrange(lo as int, e - 1));
        e = e - 1;
    }
    e
}

/// Start of `v[lo..hi]` once its leading whitespace is dropped.
pub fn trim_start_at(v: &Vec<char>, lo: usize, hi: usize) -> (b: usize)
    requires
        lo <= hi <= v@.len(),
    ensures
        lo <= b <= hi,
        v@.subrange(b as int, hi as int) == trim_start(v@.subrange(lo as int, hi as int)),
{
    let mut b = lo;
    while b < hi && is_whitespace(v[b])
        invariant
            lo <= b <= hi <= v@.len(),
            trim_start(v@.subrange(b as int, hi as int)) == trim_start(v@.subrange(lo as int, hi as int)),
        decreases hi - b,
    {
        assert(v@.subrange(b as int, hi as int).drop_first() =~= v@.subrange(b + 1, hi as int));
        b = b + 1;
    }
    b
}

/// Bounds of `v[lo..hi]` trimmed at both ends.
pub fn trim_at(v: &Vec<char>, lo: usize, hi: usize) -> (r: (usize, usize))
    requires
        lo <= hi <= v@.len(),
    ensures
        lo <= r.0 <= r.1 <= hi,
        v@.subrange(r.0 as int, r.1 as int) == trim(v@.subrange(lo as int, hi as int)),
{
    let e = trim_end_at(v, lo, hi);
    let b = trim_start_at(v, lo, e);
    (b, e)
}

/// End of `v[lo..hi]` once every trailing `c` is dropped.
pub fn trim_char_end_at(v: &Vec<char>, lo: usize, hi: usize, c: char) -> (e: usize)
    requires
        lo <= hi <= v@.len(),
    ensures
        lo <= e <= hi,
        v@.subrange(lo as int, e as int) == trim_char_end(v@.subrange(lo as int, hi as int), c),
{
    let mut e = hi;
    while e > lo && v[e - 1] == c
        invariant
            lo <= e <= hi <= v@.len(),
            trim_char_end(v@.subrange(lo as int, e as int), c) == trim_char_end(
                v@.subrange(lo as int, hi as int),
                c,
            ),
        decreases e,
    {
        assert(v@.subrange(lo as int, e as int).drop_last() =~= v@.subrange(lo as int, e - 1));
        e = e - 1;
    }
    e
}

/// Start of `v[lo..hi]` once every leading `c` is dropped.
pub fn trim_char_start_at(v: &Vec<char>, lo: usize, hi: usize, c: char) -> (b: usize)
    requires
        lo <= hi <= v@.len(),
    ensures
        lo <= b <= hi,
        v@.subrange(b as int, hi as int) == trim_char_start(v@.subrange(lo as int, hi as int), c),
{
    let mut b = lo;
    while b < hi && v[b] == c
        invariant
            lo <= b <= hi <= v@.len(),
            trim_char_start(v@.subrange(b as int, hi as int), c) == trim_char_start(
                v@.subrange(lo as int, hi as int),
                c,
            ),
        decreases hi - b,
    {
        assert(v@.subrange(b as int, hi as int).drop_first() =~= v@.subrange(b + 1, hi as int));
        b = b + 1;
    }
    b
}

/// Does `p` occur in `v` at `at`, wholly before `hi`?
pub fn occurs_at_exec(v: &Vec<char>, at: usize, hi: usize, p: &Vec<char>) -> (r: bool)
    requires
        at <= hi <= v@.len(),
    ensures
        r == occurs_at(v@.subrange(at as int, hi as int), p@, 0),
{
    let ghost s = v@.subrange(at as int, hi as int);
    assert(s.skip(0) =~= s);
    if p.len() > hi - at {
        return false;
    }
    let mut k: usize = 0;
    while k < p.len()
        invariant
            at + p@.len() <= hi <= v@.len(),
            s == v@.subrange(at as int, hi as int),
            k <= p@.len(),
            forall|j: int| 0 <= j < k ==> p@[j] == v@[at + j],
        decreases p@.len() - k,
    {
        if v[at + k] != p[k] {
            assert(s[k as int] == v@[at + k]);
            return false;
        }
        k = k + 1;
    }
    assert(p@ =~= s.subrange(0, p@.len() as int));
    true
}

/// Does `v[lo..hi]` start with `p`?
pub fn starts_with_at(v: &Vec<char>, lo: usize, hi: usize, p: &Vec<char>) -> (r: bool)
    requires
        lo <= hi <= v@.len(),
    ensures
        r == p@.is_prefix_of(v@.subrange(lo as int, hi as int)),
{
    let r = occurs_at_exec(v, lo, hi, p);
    assert(v@.subrange(lo as int, hi as int).skip(0) =~= v@.subrange(lo as int, hi as int));
    r
}

/// Does `v[lo..hi]` end with `p`?
pub fn ends_with_at(v: &Vec<char>, lo: usize, hi: usize, p: &Vec<char>) -> (r: bool)
    requires
        lo <= hi <= v@.len(),
    ensures
        r == p@.is_suffix_of(v@.subrange(lo as int, hi as int)),
{
    if p.len() > hi - lo {
        return false;
    }
    let at = hi - p.len();
    let r = occurs_at_exec(v, at, hi, p);
    let ghost s = v@.subrange(lo as int, hi as int);
    let ghost t = v@.subrange(at as int, hi as int);
    assert(t.skip(0) =~= t);
    assert(t =~= s.subrange(s.len() - p@.len(), s.len() as int));
    r
}

/// First position at or after `lo` where `p` occurs within `v[lo..hi]`.
pub fn find_seq_at(v: &Vec<char>, lo: usize, hi: usize, p: &Vec<char>) -> (r: Option<usize>)
    requires
        lo <= hi <= v@.len(),
    ensures
        match r {
            Some(i) => lo <= i && i + p@.len() <= hi && find_seq(v@.subrange(lo as int, hi as int), p@)
                == i - lo,
            None => find_seq(v@.subrange(lo as int, hi as int), p@) == -1,
        },
{
    let ghost s = v@.subrange(lo as int, hi as int);
    let mut i = lo;
    loop
        invariant
            lo <= i <= hi,
            hi <= v@.len(),
            s == v@.subrange(lo as int, hi as int),
            forall|j: int| 0 <= j < i - lo ==> !occurs_at(s, p@, j),
        ensures
            forall|j: int| 0 <= j <= hi - lo ==> !occurs_at(s, p@, j),
        decreases hi - i,
    {
        let found = occurs_at_exec(v, i, hi, p);
        assert(s.skip(i - lo) =~= v@.subrange(i as int, hi as int).skip(0));
        if found {
            proof {
                lemma_find_seq_unique(s, p@, i - lo);
            }
            assert(v@.subrange(i as int, hi as int).skip(0) =~= v@.subrange(i as int, hi as int));
            return Some(i);
        }
        if i == hi {
            break;
        }
        i = i + 1;
    }
    proof {
        lemma_find_seq_unique(s, p@, -1);
    }
    None
}

/// First position within `v[lo..hi]` holding `c`.
pub fn find_char_at(v: &Vec<char>, lo: usize, hi: usize, c: char) -> (r: Option<usize>)
    requires
        lo <= hi <= v@.len(),
    ensures
        match r {
            Some(i) => lo <= i < hi && first_where(v@.subrange(lo as int, hi as int), eq_char(c))
                == i - lo,
            None => first_where(v@.subrange(lo as int, hi as int), eq_char(c)) == -1,
        },
{
    let ghost s = v@.subrange(lo as int, hi as int);
    let mut i = lo;
    while i < hi
        invariant
            lo <= i <= hi <= v@.len(),
            s == v@.subrange(lo as int, hi as int),
            forall|j: int| 0 <= j < i - lo ==> s[j] != c,
        decreases hi - i,
    {
        if v[i] == c {
            proof {
                lemma_first_where_unique(s, eq_char(c), i - lo);
            }
            return Some(i);
        }
        i = i + 1;
    }
    proof {
        lemma_first_where_unique(s, eq_char(c), -1);
    }
    None
}

/// Is `c` one of the separators `m` names?
pub fn is_sep(m: &Sep, c: char) -> (r: bool)
    ensures
        r == sep_pred(*m)(c),
{
    match m {
        Sep::Char(x) => c == *x,
        Sep::LineBreak => c == '\r' || c == '\n',
        Sep::Space => is_whitespace(c),
    }
}

/// The bounds of the pieces of `v[lo..hi]` between separators, empty pieces
/// included, in order.
pub fn split_at_sep(v: &Vec<char>, lo: usize, hi: usize, m: &Sep) -> (r: Vec<(usize, usize)>)
    requires
        lo <= hi <= v@.len(),
    ensures
        cut(v@, r@) == split_by(v@.subrange(lo as int, hi as int), sep_pred(*m)),
        forall|k: int| 0 <= k < r@.len() ==> lo <= (#[trigger] r@[k]).0 <= r@[k].1 <= hi,
{
    let mut out: Vec<(usize, usize)> = Vec::new();
    let mut start = lo;
    let mut i = lo;
    assert(v@.subrange(lo as int, lo as int) =~= Seq::<char>::empty());
    assert(cut(v@, out@).push(v@.subrange(start as int, i as int)) =~= seq![Seq::<char>::empty()]);
    while i < hi
        invariant
            lo <= start <= i <= hi <= v@.len(),
            cut(v@, out@).push(v@.subrange(start as int, i as int)) == split_by(
                v@.subrange(lo as int, i as int),
                sep_pred(*m),
            ),
            forall|k: int| 0 <= k < out@.len() ==> lo <= (#[trigger] out@[k]).0 <= out@[k].1 <= i,
        decreases hi - i,
    {
        let ghost before = v@.subrange(lo as int, i as int);
        let ghost next = v@.subrange(lo as int, i + 1);
        assert(next.drop_last() =~= before);
        assert(next.last() == v@[i as int]);
        let ghost r = split_by(before, sep_pred(*m));
        if is_sep(m, v[i]) {
            let ghost old_out = out@;
            out.push((start, i));
            assert(cut(v@, out@) =~= cut(v@, old_out).push(v@.subrange(start as int, i as int)));
            assert(v@.subrange(i + 1, i + 1) =~= Seq::<char>::empty());
            start = i + 1;
        } else {
            assert(v@.subrange(start as int, i + 1) =~= v@.subrange(start as int, i as int).push(
                v@[i as int],
            ));
            assert(cut(v@, out@).push(v@.subrange(start as int, i + 1)) =~= r.update(
                r.len() - 1,
                r.last().push(v@[i as int]),
            ));
        }
        i = i + 1;
    }
    let ghost old_out = out@;
    out.push((start, hi));
    assert(cut(v@, out@) =~= cut(v@, old_out).push(v@.subrange(start as int, hi as int)));
    out
}

} // verus!
