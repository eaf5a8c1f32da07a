//! Scrapers for the text yt-dlp writes while it downloads.
//!
//! Numbers are handed out as the decimal text yt-dlp printed (for instance
//! `49.7`), never converted here: what they mean as floating point is the
//! caller's business.

use vstd::prelude::*;
use crate::text::{
    chars_of, cut, ends_with_at, eq_char, find_char_at, find_seq_at, is_ascii_alpha,
    is_ascii_alphabetic, is_ascii_digit, is_digit, is_whitespace, is_ws, last_where,
    lemma_last_where_unique, nonempty, second_piece, sep_pred, split_at_sep, split_by, split_once,
    starts_with_at, strip_prefix, strip_suffix, trim, trim_at, trim_char, trim_char_end_at,
    trim_char_start_at, trim_end, trim_end_at, views, first_where, find_seq, lemma_first_where, lemma_first_where_unique, lemma_last_where, Sep,
};

verus! {

// ---------------------------------------------------------------------------
// Meaning
// ---------------------------------------------------------------------------

pub open spec fn opt_view(o: Option<&str>) -> Option<Seq<char>> {
    match o {
        Some(s) => Some(s@),
        None => None,
    }
}

pub open spec fn opt_string_view(o: Option<String>) -> Option<Seq<char>> {
    match o {
        Some(s) => Some(s@),
        None => None,
    }
}

/// The lines of a chunk of output: split at every `\r` and `\n` (yt-dlp
/// redraws its progress line with a bare `\r`), trailing whitespace dropped,
/// blank lines skipped.
pub open spec fn spec_split_lines(chunk: Seq<char>) -> Seq<Seq<char>> {
    nonempty(split_by(chunk, sep_pred(Sep::LineBreak)).map_values(|p: Seq<char>| trim_end(p)))
}

pub open spec fn is_numeric(c: char) -> bool {
    is_digit(c) || c == '.'
}

pub open spec fn not_numeric() -> spec_fn(char) -> bool {
    |c: char| !is_numeric(c)
}

pub open spec fn all_ws(s: Seq<char>) -> bool {
    forall|i: int| 0 <= i < s.len() ==> is_ws(s[i])
}

/// One or more digits, then optionally a `.` and one or more digits:
/// `\d+(\.\d+)?`. Digits and at most one dot, with a digit at each end.
pub open spec fn is_decimal(t: Seq<char>) -> bool {
    &&& t.len() > 0
    &&& forall|i: int| 0 <= i < t.len() ==> is_numeric(t[i])
    &&& is_digit(t[0])
    &&& is_digit(t[t.len() - 1])
    &&& forall|i: int, j: int| 0 <= i < j < t.len() && t[i] == '.' ==> t[j] != '.'
}

/// `[download]  42.3% of ...` -> `42.3`: the line matches
/// `\[download\]\s+(\d+(\.\d+)?)%` at its start. That is, the run of digits
/// and dots right before the first `%` after the tag, provided one or more
/// whitespace characters, and nothing else, stand between the tag and it, and
/// it is a decimal number.
pub open spec fn spec_percent_numeral(line: Seq<char>) -> Option<Seq<char>> {
    match strip_prefix(line, "[download]"@) {
        None => None,
        Some(rest) => {
            let pct = first_where(rest, eq_char('%'));
            if pct < 0 {
                None
            } else {
                let number = rest.take(pct);
                let start = last_where(number, not_numeric()) + 1;
                let num = number.skip(start);
                if start > 0 && all_ws(number.take(start)) && is_decimal(num) {
                    Some(num)
                } else {
                    None
                }
            }
        },
    }
}

/// The speed and, when there is one, the ETA of a `[download]` line: the text
/// between the first ` at ` and the next one, cut at ` ETA `, each part
/// trimmed. No answer when the speed comes out empty.
pub open spec fn spec_speed_eta(line: Seq<char>) -> Option<(Seq<char>, Option<Seq<char>>)> {
    match strip_prefix(line, "[download]"@) {
        None => None,
        Some(rest) => match second_piece(rest, " at "@) {
            None => None,
            Some(after) => {
                let (speed, eta) = match split_once(after, " ETA "@) {
                    Some((s, e)) => (trim(s), Some(trim(e))),
                    None => (trim(after), None),
                };
                if speed.len() > 0 {
                    Some((speed, eta))
                } else {
                    None
                }
            },
        },
    }
}

/// `2.00MiB/s · 00:01`, or the speed alone when there is no ETA.
pub open spec fn spec_rate(line: Seq<char>) -> Option<Seq<char>> {
    match spec_speed_eta(line) {
        None => None,
        Some((speed, Some(eta))) => Some(speed + " · "@ + eta),
        Some((speed, None)) => Some(speed),
    }
}

/// `s` without its trailing ASCII letters.
pub open spec fn trim_alpha_end(s: Seq<char>) -> Seq<char>
    decreases s.len(),
{
    if s.len() > 0 && is_ascii_alpha(s.last()) {
        trim_alpha_end(s.drop_last())
    } else {
        s
    }
}

/// Bytes per unit of the binary units yt-dlp prints.
pub open spec fn unit_scale(unit: Seq<char>) -> Option<u64> {
    if unit == "B"@ {
        Some(1)
    } else if unit == "KiB"@ {
        Some(1024)
    } else if unit == "MiB"@ {
        Some(1048576u64)
    } else if unit == "GiB"@ {
        Some(1073741824u64)
    } else {
        None
    }
}

/// The speed of a `[download]` line split into its number text and the bytes
/// its unit stands for: `2.00MiB/s` -> (`2.00`, 1048576).
pub open spec fn spec_speed_numeral(line: Seq<char>) -> Option<(Seq<char>, u64)> {
    match spec_speed_eta(line) {
        None => None,
        Some((speed, _)) => match strip_suffix(speed, "/s"@) {
            None => None,
            Some(unit) => {
                let digits = trim_alpha_end(unit);
                match unit_scale(unit.skip(digits.len() as int)) {
                    None => None,
                    Some(scale) => Some((trim(digits), scale)),
                }
            },
        },
    }
}

/// `[info] xyz: Downloading 1 format(s): 401+251` -> 2: the non-empty
/// `+`-separated parts of what follows `format(s): `.
pub open spec fn spec_stream_count(line: Seq<char>) -> Option<nat> {
    match second_piece(line, "format(s): "@) {
        None => None,
        Some(spec) => {
            let n = nonempty(split_by(trim(spec), eq_char('+'))).len();
            if n > 0 {
                Some(n)
            } else {
                None
            }
        },
    }
}

pub open spec fn spec_stream_started(line: Seq<char>) -> bool {
    "[download] Destination: "@.is_prefix_of(line)
}

pub open spec fn spec_download_destination(line: Seq<char>) -> Option<Seq<char>> {
    match strip_prefix(line, "[download] Destination: "@) {
        Some(rest) => Some(trim(rest)),
        None => None,
    }
}

pub open spec fn spec_merged_destination(line: Seq<char>) -> Option<Seq<char>> {
    match strip_prefix(line, "[Merger] Merging formats into "@) {
        Some(rest) => Some(trim_char(trim(rest), '"')),
        None => None,
    }
}

/// The file a line says was written: a download or postprocessor
/// destination, a merge's output, or a file yt-dlp found already there.
pub open spec fn spec_destination(line: Seq<char>) -> Option<Seq<char>> {
    if "[download] Destination: "@.is_prefix_of(line) {
        Some(trim(line.skip("[download] Destination: "@.len() as int)))
    } else if "[ffmpeg] Destination: "@.is_prefix_of(line) {
        Some(trim(line.skip("[ffmpeg] Destination: "@.len() as int)))
    } else if "[ExtractAudio] Destination: "@.is_prefix_of(line) {
        Some(trim(line.skip("[ExtractAudio] Destination: "@.len() as int)))
    } else {
        match spec_merged_destination(line) {
            Some(name) => Some(name),
            None => match strip_prefix(line, "[download] "@) {
                Some(rest) => strip_suffix(rest, " has already been downloaded"@),
                None => None,
            },
        }
    }
}

// ---------------------------------------------------------------------------
// Small facts
// ---------------------------------------------------------------------------

pub proof fn lemma_views_push(v: Seq<&str>, s: &str)
    ensures
        views(v.push(s)) == views(v).push(s@),
{
    assert(views(v.push(s)) =~= views(v).push(s@));
}

pub proof fn lemma_cut_index(v: Seq<char>, r: Seq<(usize, usize)>, k: int)
    requires
        0 <= k < r.len(),
    ensures
        cut(v, r)[k] == v.subrange(r[k].0 as int, r[k].1 as int),
        cut(v, r).len() == r.len(),
{
}

// ---------------------------------------------------------------------------
// Scanners
// ---------------------------------------------------------------------------

/// The lines of one read of yt-dlp's output. A reader that splits on `\n`
/// alone would see a whole download's progress updates, separated by bare
/// `\r`, as one line.
pub fn split_lines(chunk: &str) -> (lines: Vec<&str>)
    ensures
        views(lines@) == spec_split_lines(chunk@),
{
    let v = chars_of(chunk);
    assert(v@.subrange(0, v@.len() as int) =~= v@);
    let ranges = split_at_sep(&v, 0, v.len(), &Sep::LineBreak);
    let ghost pieces = split_by(chunk@, sep_pred(Sep::LineBreak));
    let ghost trimmed = pieces.map_values(|p: Seq<char>| trim_end(p));
    let mut out: Vec<&str> = Vec::new();
    let mut k: usize = 0;
    assert(trimmed.take(0) =~= Seq::<Seq<char>>::empty());
    while k < ranges.len()
        invariant
            v@ == chunk@,
            k <= ranges@.len(),
            cut(v@, ranges@) == pieces,
            trimmed == pieces.map_values(|p: Seq<char>| trim_end(p)),
            forall|j: int| 0 <= j < ranges@.len() ==> 0 <= (#[trigger] ranges@[j]).0 <= ranges@[j].1 <= v@.len(),
            views(out@) == nonempty(trimmed.take(k as int)),
        decreases ranges@.len() - k,
    {
        let (a, b) = ranges[k];
        proof {
            lemma_cut_index(v@, ranges@, k as int);
        }
        let e = trim_end_at(&v, a, b);
        assert(trimmed.take(k + 1).drop_last() =~= trimmed.take(k as int));
        assert(trimmed.take(k + 1).last() == trimmed[k as int]);
        assert(trimmed[k as int] == v@.subrange(a as int, e as int));
        if e > a {
            let piece = chunk.substring_char(a, e);
            proof {
                lemma_views_push(out@, piece);
            }
            out.push(piece);
        }
        k = k + 1;
    }
    assert(trimmed.take(ranges@.len() as int) =~= trimmed);
    out
}

fn is_numeric_char(c: char) -> (r: bool)
    ensures
        r == is_numeric(c),
{
    is_ascii_digit(c) || c == '.'
}

fn all_whitespace_at(v: &Vec<char>, lo: usize, hi: usize) -> (r: bool)
    requires
        lo <= hi <= v@.len(),
    ensures
        r == all_ws(v@.subrange(lo as int, hi as int)),
{
    let ghost s = v@.subrange(lo as int, hi as int);
    let mut i = lo;
    while i < hi
        invariant
            lo <= i <= hi <= v@.len(),
            s == v@.subrange(lo as int, hi as int),
            forall|j: int| 0 <= j < i - lo ==> is_ws(s[j]),
        decreases hi - i,
    {
        if !is_whitespace(v[i]) {
            assert(s[i - lo] == v@[i as int]);
            return false;
        }
        i = i + 1;
    }
    true
}

fn is_decimal_at(v: &Vec<char>, lo: usize, hi: usize) -> (r: bool)
    requires
        lo <= hi <= v@.len(),
    ensures
        r == is_decimal(v@.subrange(lo as int, hi as int)),
{
    let ghost t = v@.subrange(lo as int, hi as int);
    let mut dot = false;
    let mut i = lo;
    while i < hi
        invariant
            lo <= i <= hi <= v@.len(),
            t == v@.subrange(lo as int, hi as int),
            forall|j: int| 0 <= j < i - lo ==> is_numeric(t[j]),
            dot == exists|j: int| 0 <= j < i - lo && t[j] == '.',
            forall|a: int, b: int| 0 <= a < b < i - lo && t[a] == '.' ==> t[b] != '.',
        decreases hi - i,
    {
        let c = v[i];
        assert(t[i - lo] == c);
        if !is_numeric_char(c) {
            return false;
        }
        if c == '.' {
            if dot {
                let ghost a = choose|j: int| 0 <= j < i - lo && t[j] == '.';
                assert(0 <= a < i - lo && t[a] == '.' && t[i - lo] == '.');
                return false;
            }
            dot = true;
        }
        i = i + 1;
    }
    if hi == lo {
        return false;
    }
    assert(t[0] == v@[lo as int]);
    assert(t[t.len() - 1] == v@[hi - 1]);
    is_ascii_digit(v[lo]) && is_ascii_digit(v[hi - 1])
}

/// `[download]  42.3% of ...` -> `42.3`.
///
/// A `%` inside a filename (`[download] Destination: 100% Real Mix.webm`) is
/// not progress: only whitespace may stand between the tag and the number.
/// Positions are counted in characters, so a multi-byte character before the
/// number is never cut.
pub fn percent_numeral(line: &str) -> (r: Option<&str>)
    ensures
        opt_view(r) == spec_percent_numeral(line@),
{
    let v = chars_of(line);
    let tag = chars_of("[download]");
    let n = v.len();
    assert(v@.subrange(0, n as int) =~= v@);
    if !starts_with_at(&v, 0, n, &tag) {
        return None;
    }
    let lo = tag.len();
    let ghost rest = line@.skip(lo as int);
    assert(rest =~= v@.subrange(lo as int, n as int));
    let pct = match find_char_at(&v, lo, n, '%') {
        None => {
            return None;
        },
        Some(p) => p,
    };
    let ghost number = rest.take(pct - lo);
    assert(number =~= v@.subrange(lo as int, pct as int));
    let mut k = pct;
    while k > lo && is_numeric_char(v[k - 1])
        invariant
            lo <= k <= pct < n,
            n == v@.len(),
            forall|j: int| k <= j < pct ==> is_numeric(v@[j]),
        decreases k,
    {
        k = k - 1;
    }
    proof {
        assert forall|j: int| (k - lo - 1) < j < number.len() implies !not_numeric()(number[j]) by {
            assert(number[j] == v@[lo + j]);
        }
        if k > lo {
            assert(number[k - lo - 1] == v@[k - 1]);
        }
        lemma_last_where_unique(number, not_numeric(), k - lo - 1);
        assert(number.take(k - lo) =~= v@.subrange(lo as int, k as int));
        assert(number.skip(k - lo) =~= v@.subrange(k as int, pct as int));
    }
    if k == lo || !all_whitespace_at(&v, lo, k) {
        return None;
    }
    if !is_decimal_at(&v, k, pct) {
        return None;
    }
    Some(line.substring_char(k, pct))
}

/// The text of `v[lo..hi]` equals `p`?
fn equals_at(v: &Vec<char>, lo: usize, hi: usize, p: &Vec<char>) -> (r: bool)
    requires
        lo <= hi <= v@.len(),
    ensures
        r == (v@.subrange(lo as int, hi as int) == p@),
{
    if hi - lo != p.len() {
        assert(v@.subrange(lo as int, hi as int).len() != p@.len());
        return false;
    }
    let r = starts_with_at(v, lo, hi, p);
    if r {
        assert(v@.subrange(lo as int, hi as int) =~= p@);
    }
    r
}

/// Bounds of the speed and the optional ETA in `v` (the characters of a line).
fn speed_eta_at(v: &Vec<char>) -> (r: Option<((usize, usize), Option<(usize, usize)>)>)
    ensures
        match r {
            None => spec_speed_eta(v@) is None,
            Some((s, e)) => {
                &&& s.0 <= s.1 <= v@.len()
                &&& spec_speed_eta(v@) matches Some((speed, eta)) && speed == v@.subrange(
                    s.0 as int,
                    s.1 as int,
                ) && match e {
                    None => eta is None,
                    Some(e) => e.0 <= e.1 <= v@.len() && eta == Some(
                        v@.subrange(e.0 as int, e.1 as int),
                    ),
                }
            },
        },
{
    let tag = chars_of("[download]");
    let at = chars_of(" at ");
    let eta_tag = chars_of(" ETA ");
    let n = v.len();
    assert(v@.subrange(0, n as int) =~= v@);
    if !starts_with_at(v, 0, n, &tag) {
        return None;
    }
    let lo = tag.len();
    let ghost rest = v@.skip(lo as int);
    assert(rest =~= v@.subrange(lo as int, n as int));
    let i1 = match find_seq_at(v, lo, n, &at) {
        None => {
            return None;
        },
        Some(i) => i,
    };
    let a_lo = i1 + at.len();
    let ghost rest2 = rest.skip(i1 - lo + at@.len());
    assert(rest2 =~= v@.subrange(a_lo as int, n as int));
    let a_hi = match find_seq_at(v, a_lo, n, &at) {
        None => n,
        Some(j) => j,
    };
    let ghost after = v@.subrange(a_lo as int, a_hi as int);
    assert(second_piece(rest, " at "@) == Some(after)) by {
        if a_hi < n {
            assert(rest2.take(a_hi - a_lo) =~= after);
        }
    }
    let (s, e) = match find_seq_at(v, a_lo, a_hi, &eta_tag) {
        Some(k) => {
            assert(after.take(k - a_lo) =~= v@.subrange(a_lo as int, k as int));
            assert(after.skip(k - a_lo + eta_tag@.len()) =~= v@.subrange(
                k + eta_tag@.len(),
                a_hi as int,
            ));
            let s = trim_at(v, a_lo, k);
            let e = trim_at(v, k + eta_tag.len(), a_hi);
            (s, Some(e))
        },
        None => (trim_at(v, a_lo, a_hi), None),
    };
    if s.1 > s.0 {
        Some((s, e))
    } else {
        None
    }
}

/// The speed and, when there is one, the ETA of a `[download]` line. The
/// closing line of a stream reports `in 00:02` instead of an ETA, so the
/// speed alone is an answer.
pub fn speed_eta(line: &str) -> (r: Option<(&str, Option<&str>)>)
    ensures
        match r {
            None => spec_speed_eta(line@) is None,
            Some((s, e)) => spec_speed_eta(line@) == Some((s@, opt_view(e))),
        },
{
    let v = chars_of(line);
    match speed_eta_at(&v) {
        None => None,
        Some((s, e)) => {
            let speed = line.substring_char(s.0, s.1);
            let eta = match e {
                None => None,
                Some(e) => Some(line.substring_char(e.0, e.1)),
            };
            Some((speed, eta))
        },
    }
}

/// `[download]  49.7% of 3.50MiB at 2.00MiB/s ETA 00:01` -> `2.00MiB/s · 00:01`.
pub fn rate(line: &str) -> (r: Option<String>)
    ensures
        opt_string_view(r) == spec_rate(line@),
{
    match speed_eta(line) {
        None => None,
        Some((speed, Some(eta))) => {
            let mut s = String::from_str(speed);
            s.append(" · ");
            s.append(eta);
            Some(s)
        },
        Some((speed, None)) => Some(String::from_str(speed)),
    }
}

/// End of `v[lo..hi]` once its trailing ASCII letters are dropped.
fn trim_alpha_end_at(v: &Vec<char>, lo: usize, hi: usize) -> (e: usize)
    requires
        lo <= hi <= v@.len(),
    ensures
        lo <= e <= hi,
        v@.subrange(lo as int, e as int) == trim_alpha_end(v@.subrange(lo as int, hi as int)),
{
    let mut e = hi;
    while e > lo && is_ascii_alphabetic(v[e - 1])
        invariant
            lo <= e <= hi <= v@.len(),
            trim_alpha_end(v@.subrange(lo as int, e as int)) == trim_alpha_end(
                v@.subrange(lo as int, hi as int),
            ),
        decreases e,
    {
        assert(v@.subrange(lo as int, e as int).drop_last() =~= v@.subrange(lo as int, e - 1));
        e = e - 1;
    }
    e
}

/// The speed of a `[download]` line as its number text and the bytes per unit
/// of its (binary) unit: `2.00MiB/s` -> (`2.00`, 1048576). No answer for a unit
/// other than B, KiB, MiB or GiB per second.
pub fn speed_numeral(line: &str) -> (r: Option<(&str, u64)>)
    ensures
        match r {
            None => spec_speed_numeral(line@) is None,
            Some((t, scale)) => spec_speed_numeral(line@) == Some((t@, scale)),
        },
{
    let v = chars_of(line);
    let per_second = chars_of("/s");
    let (s, _) = match speed_eta_at(&v) {
        None => {
            return None;
        },
        Some(x) => x,
    };
    if !ends_with_at(&v, s.0, s.1, &per_second) {
        return None;
    }
    let u_hi = s.1 - per_second.len();
    let ghost speed = v@.subrange(s.0 as int, s.1 as int);
    let ghost unit = speed.take(speed.len() - per_second@.len());
    assert(unit =~= v@.subrange(s.0 as int, u_hi as int));
    let d = trim_alpha_end_at(&v, s.0, u_hi);
    assert(unit.skip(d - s.0) =~= v@.subrange(d as int, u_hi as int));
    let b = chars_of("B");
    let kib = chars_of("KiB");
    let mib = chars_of("MiB");
    let gib = chars_of("GiB");
    let scale: u64 = if equals_at(&v, d, u_hi, &b) {
        1
    } else if equals_at(&v, d, u_hi, &kib) {
        1024
    } else if equals_at(&v, d, u_hi, &mib) {
        1048576
    } else if equals_at(&v, d, u_hi, &gib) {
        1073741824
    } else {
        return None;
    };
    let (t0, t1) = trim_at(&v, s.0, d);
    Some((line.substring_char(t0, t1), scale))
}

/// How many streams a `format(s):` announcement names:
/// `[info] xyz: Downloading 1 format(s): 401+251` -> 2.
pub fn stream_count(line: &str) -> (r: Option<usize>)
    ensures
        match r {
            None => spec_stream_count(line@) is None,
            Some(n) => spec_stream_count(line@) == Some(n as nat),
        },
{
    let v = chars_of(line);
    let tag = chars_of("format(s): ");
    let n = v.len();
    assert(v@.subrange(0, n as int) =~= v@);
    let i1 = match find_seq_at(&v, 0, n, &tag) {
        None => {
            return None;
        },
        Some(i) => i,
    };
    let a_lo = i1 + tag.len();
    let ghost rest2 = v@.skip(i1 + tag@.len());
    assert(rest2 =~= v@.subrange(a_lo as int, n as int));
    let a_hi = match find_seq_at(&v, a_lo, n, &tag) {
        None => n,
        Some(j) => j,
    };
    assert(second_piece(v@, "format(s): "@) == Some(v@.subrange(a_lo as int, a_hi as int))) by {
        if a_hi < n {
            assert(rest2.take(a_hi - a_lo) =~= v@.subrange(a_lo as int, a_hi as int));
        }
    }
    let (t0, t1) = trim_at(&v, a_lo, a_hi);
    let ranges = split_at_sep(&v, t0, t1, &Sep::Char('+'));
    let ghost pieces = split_by(v@.subrange(t0 as int, t1 as int), eq_char('+'));
    let mut count: usize = 0;
    let mut k: usize = 0;
    assert(pieces.take(0) =~= Seq::<Seq<char>>::empty());
    while k < ranges.len()
        invariant
            k <= ranges@.len(),
            cut(v@, ranges@) == pieces,
            forall|j: int| 0 <= j < ranges@.len() ==> 0 <= (#[trigger] ranges@[j]).0 <= ranges@[j].1 <= v@.len(),
            count == nonempty(pieces.take(k as int)).len(),
            count <= k,
        decreases ranges@.len() - k,
    {
        let (a, b) = ranges[k];
        proof {
            lemma_cut_index(v@, ranges@, k as int);
        }
        assert(pieces.take(k + 1).drop_last() =~= pieces.take(k as int));
        if b > a {
            count = count + 1;
        }
        k = k + 1;
    }
    assert(pieces.take(ranges@.len() as int) =~= pieces);
    if count > 0 {
        Some(count)
    } else {
        None
    }
}

/// A new stream starts downloading (as opposed to being post-processed).
pub fn stream_started(line: &str) -> (r: bool)
    ensures
        r == spec_stream_started(line@),
{
    let v = chars_of(line);
    let tag = chars_of("[download] Destination: ");
    assert(v@.subrange(0, v@.len() as int) =~= v@);
    starts_with_at(&v, 0, v.len(), &tag)
}

/// What follows `tag` in `line`, trimmed, when `line` starts with it.
fn after_tag_trimmed<'a>(line: &'a str, tag: &str) -> (r: Option<&'a str>)
    ensures
        match r {
            Some(t) => tag@.is_prefix_of(line@) && t@ == trim(line@.skip(tag@.len() as int)),
            None => !tag@.is_prefix_of(line@),
        },
{
    let v = chars_of(line);
    let p = chars_of(tag);
    let n = v.len();
    assert(v@.subrange(0, n as int) =~= v@);
    if !starts_with_at(&v, 0, n, &p) {
        return None;
    }
    assert(line@.skip(p@.len() as int) =~= v@.subrange(p@.len() as int, n as int));
    let (a, b) = trim_at(&v, p.len(), n);
    Some(line.substring_char(a, b))
}

/// Only what yt-dlp downloaded itself, as opposed to what a postprocessor
/// produced: with `--keep-video` these are the parts a merge leaves behind.
pub fn download_destination(line: &str) -> (r: Option<&str>)
    ensures
        opt_view(r) == spec_download_destination(line@),
{
    after_tag_trimmed(line, "[download] Destination: ")
}

/// `[Merger] Merging formats into "Rick.mkv"` -> `Rick.mkv`: the file the
/// streams were merged into.
pub fn merged_destination(line: &str) -> (r: Option<&str>)
    ensures
        opt_view(r) == spec_merged_destination(line@),
{
    let v = chars_of(line);
    let p = chars_of("[Merger] Merging formats into ");
    let n = v.len();
    assert(v@.subrange(0, n as int) =~= v@);
    if !starts_with_at(&v, 0, n, &p) {
        return None;
    }
    assert(line@.skip(p@.len() as int) =~= v@.subrange(p@.len() as int, n as int));
    let (a, b) = trim_at(&v, p.len(), n);
    let e = trim_char_end_at(&v, a, b, '"');
    let s = trim_char_start_at(&v, a, e, '"');
    Some(line.substring_char(s, e))
}

/// `[download] Destination: foo.webm`, `[ffmpeg] Destination: foo.mp3` and the
/// like -> the file name; also the output of a merge, and the name of a file
/// yt-dlp found already downloaded (a re-run prints no Destination line).
pub fn destination(line: &str) -> (r: Option<&str>)
    ensures
        opt_view(r) == spec_destination(line@),
{
    match after_tag_trimmed(line, "[download] Destination: ") {
        Some(t) => {
            return Some(t);
        },
        None => {},
    }
    match after_tag_trimmed(line, "[ffmpeg] Destination: ") {
        Some(t) => {
            return Some(t);
        },
        None => {},
    }
    match after_tag_trimmed(line, "[ExtractAudio] Destination: ") {
        Some(t) => {
            return Some(t);
        },
        None => {},
    }
    match merged_destination(line) {
        Some(t) => {
            return Some(t);
        },
        None => {},
    }
    let v = chars_of(line);
    let p = chars_of("[download] ");
    let q = chars_of(" has already been downloaded");
    let n = v.len();
    assert(v@.subrange(0, n as int) =~= v@);
    if !starts_with_at(&v, 0, n, &p) {
        return None;
    }
    let lo = p.len();
    let ghost rest = line@.skip(lo as int);
    assert(rest =~= v@.subrange(lo as int, n as int));
    if !ends_with_at(&v, lo, n, &q) {
        return None;
    }
    let hi = n - q.len();
    assert(rest.take(rest.len() - q@.len()) =~= v@.subrange(lo as int, hi as int));
    Some(line.substring_char(lo, hi))
}

// ---------------------------------------------------------------------------
// Progress over every stream of one job
// ---------------------------------------------------------------------------

/// What a `Progress` holds, as plain values.
pub struct ProgressView {
    /// Streams yt-dlp said it would fetch, 0 until it says so.
    pub expected: nat,
    /// Streams begun so far.
    pub started: nat,
    /// Percent of the stream in flight, as the decimal text yt-dlp printed.
    pub current: Seq<char>,
    /// Speed and ETA of that stream, as printed; empty when unknown.
    pub rate: Seq<char>,
    /// The speed as number text and bytes per unit; none when unknown.
    pub speed: Option<(Seq<char>, u64)>,
}

/// The state before any line: nothing announced, nothing begun, at 0%.
pub open spec fn initial_progress() -> ProgressView {
    ProgressView {
        expected: 0,
        started: 0,
        current: "0"@,
        rate: Seq::empty(),
        speed: None,
    }
}

/// What one line of output does to the progress of a job.
///
/// A `format(s):` announcement sets how many streams to expect. A new
/// `Destination` begins a stream at 0%; a file already downloaded counts as a
/// stream begun and complete; any other progress line moves the stream in
/// flight and records its speed.
pub open spec fn spec_feed(p: ProgressView, line: Seq<char>) -> ProgressView {
    let p1 = match spec_stream_count(line) {
        Some(n) => ProgressView { expected: n, ..p },
        None => p,
    };
    if spec_stream_started(line) {
        ProgressView { started: p1.started + 1, current: "0"@, rate: Seq::empty(), speed: None, ..p1 }
    } else if "has already been downloaded"@.is_suffix_of(line) {
        ProgressView {
            started: p1.started + 1,
            current: "100"@,
            rate: Seq::empty(),
            speed: None,
            ..p1
        }
    } else {
        match spec_percent_numeral(line) {
            Some(t) => ProgressView {
                current: t,
                rate: match spec_rate(line) {
                    Some(r) => r,
                    None => Seq::empty(),
                },
                speed: spec_speed_numeral(line),
                ..p1
            },
            None => p1,
        }
    }
}

/// Streams known to be complete: all begun but the one in flight.
pub open spec fn spec_done(p: ProgressView) -> nat {
    if p.started == 0 {
        0
    } else {
        (p.started - 1) as nat
    }
}

/// Streams the job consists of, as far as is known: what yt-dlp announced,
/// or however many have begun, and at least one.
pub open spec fn spec_total(p: ProgressView) -> nat {
    let m = if p.expected >= p.started {
        p.expected
    } else {
        p.started
    };
    if m >= 1 {
        m
    } else {
        1
    }
}

/// Progress across every stream of one job.
///
/// A video arrives as separate video and audio streams, each counting 0-100%
/// of itself; the job as a whole is `(done + current / 100) / total`, so a
/// finished first stream reads as half the job, not all of it.
pub struct Progress {
    expected: usize,
    started: usize,
    current: String,
    rate: String,
    speed: Option<(String, u64)>,
}

impl View for Progress {
    type V = ProgressView;

    closed spec fn view(&self) -> ProgressView {
        ProgressView {
            expected: self.expected as nat,
            started: self.started as nat,
            current: self.current@,
            rate: self.rate@,
            speed: match self.speed {
                Some((t, scale)) => Some((t@, scale)),
                None => None,
            },
        }
    }
}

proof fn lemma_decimal_literals()
    ensures
        is_decimal("0"@),
        is_decimal("100"@),
{
    reveal_strlit("0");
    reveal_strlit("100");
    assert(is_digit("0"@[0]));
    assert(is_digit("100"@[0]));
    assert(is_digit("100"@[2]));
}

impl Progress {
    #[verifier::type_invariant]
    spec fn current_is_decimal(self) -> bool {
        &&& is_decimal(self.current@)
        &&& self.expected <= usize::MAX
    }

    pub fn new() -> (p: Progress)
        ensures
            p@ == initial_progress(),
    {
        proof {
            lemma_decimal_literals();
        }
        Progress {
            expected: 0,
            started: 0,
            current: String::from_str("0"),
            rate: String::new(),
            speed: None,
        }
    }

    /// Take in one line of yt-dlp's output.
    pub fn feed(&mut self, line: &str)
        requires
            old(self)@.started < usize::MAX,
        ensures
            final(self)@ == spec_feed(old(self)@, line@),
    {
        proof {
            use_type_invariant(&*self);
            lemma_decimal_literals();
        }
        match stream_count(line) {
            Some(n) => {
                self.expected = n;
            },
            None => {},
        }
        let v = chars_of(line);
        let done_tag = chars_of("has already been downloaded");
        assert(v@.subrange(0, v@.len() as int) =~= v@);
        if stream_started(line) {
            self.started = self.started + 1;
            self.current = String::from_str("0");
            self.rate = String::new();
            self.speed = None;
        } else if ends_with_at(&v, 0, v.len(), &done_tag) {
            self.started = self.started + 1;
            self.current = String::from_str("100");
            self.rate = String::new();
            self.speed = None;
        } else {
            match percent_numeral(line) {
                Some(t) => {
                    self.current = String::from_str(t);
                    self.rate = match rate(line) {
                        Some(r) => r,
                        None => String::new(),
                    };
                    self.speed = match speed_numeral(line) {
                        Some((t, scale)) => Some((String::from_str(t), scale)),
                        None => None,
                    };
                },
                None => {},
            }
        }
    }

    /// Streams yt-dlp announced, 0 until it does.
    pub fn expected(&self) -> (r: usize)
        ensures
            r as nat == self@.expected,
    {
        self.expected
    }

    /// Streams begun so far.
    pub fn started(&self) -> (r: usize)
        ensures
            r as nat == self@.started,
    {
        self.started
    }

    /// Percent of the stream in flight, as the decimal text yt-dlp printed.
    pub fn current(&self) -> (r: &str)
        ensures
            r@ == self@.current,
            is_decimal(r@),
    {
        proof {
            use_type_invariant(self);
        }
        self.current.as_str()
    }

    /// Speed and ETA of the stream in flight, empty when unknown.
    pub fn rate(&self) -> (r: &str)
        ensures
            r@ == self@.rate,
    {
        self.rate.as_str()
    }

    /// Speed of the stream in flight as number text and bytes per unit.
    pub fn speed(&self) -> (r: Option<(&str, u64)>)
        ensures
            match r {
                Some((t, scale)) => self@.speed == Some((t@, scale)),
                None => self@.speed is None,
            },
    {
        match &self.speed {
            Some((t, scale)) => Some((t.as_str(), *scale)),
            None => None,
        }
    }

    /// `(done, total)`: the streams complete before the one in flight, and the
    /// streams in the job.
    pub fn stream_totals(&self) -> (r: (usize, usize))
        ensures
            r.0 as nat == spec_done(self@),
            r.1 as nat == spec_total(self@),
            r.0 < r.1,
    {
        let done = if self.started == 0 {
            0
        } else {
            self.started - 1
        };
        let m = if self.expected >= self.started {
            self.expected
        } else {
            self.started
        };
        let total = if m >= 1 {
            m
        } else {
            1
        };
        (done, total)
    }
}

impl Default for Progress {
    fn default() -> (p: Progress)
        ensures
            p@ == initial_progress(),
    {
        Progress::new()
    }
}

/// A stream that finishes is not the job finishing: once a stream has begun,
/// and while fewer have begun than yt-dlp announced, even the one in flight at
/// 100% leaves the whole below 100%, since `done + 1 < total`.
pub proof fn law_finished_stream_is_not_finished_job(p: ProgressView)
    requires
        1 <= p.started < p.expected,
    ensures
        spec_done(p) + 1 < spec_total(p),
{
}

/// A stream that begins never takes the job backwards: every stream begun
/// before it now counts as complete, so `done` grows by what the previous
/// stream in flight still lacked, and the streams counted never shrink.
pub proof fn law_new_stream_does_not_fall_back(p: ProgressView, line: Seq<char>)
    requires
        spec_stream_started(line),
        spec_stream_count(line) is None,
        p.started >= 1,
    ensures
        spec_done(spec_feed(p, line)) == spec_done(p) + 1,
        spec_total(spec_feed(p, line)) >= spec_total(p),
        spec_feed(p, line).current == "0"@,
{
}

/// Streams already begun always count, announced or not: the total is never
/// below them.
pub proof fn law_begun_streams_count(p: ProgressView)
    ensures
        spec_total(p) >= p.started,
        spec_total(p) >= p.expected,
        spec_total(p) >= 1,
{
}


/// A line that is no download line, announces no formats and reports no file
/// already there (a merge, a postprocessor's note) leaves the progress as it
/// was: the same stream in flight, percentage, rate and speed.
pub proof fn law_other_lines_leave_progress(p: ProgressView, line: Seq<char>)
    requires
        !"[download]"@.is_prefix_of(line),
        find_seq(line, "format(s): "@) < 0,
        !"has already been downloaded"@.is_suffix_of(line),
    ensures
        spec_feed(p, line) == p,
{
    reveal_strlit("[download]");
    reveal_strlit("[download] Destination: ");
    if "[download] Destination: "@.is_prefix_of(line) {
        assert(line[9] == "[download] Destination: "@[9]);
        assert forall|i: int| 0 <= i < "[download]"@.len() implies line[i] == "[download]"@[i] by {
            assert(line[i] == "[download] Destination: "@[i]);
        }
        assert(false);
    }
}


proof fn lemma_split_by_pieces(s: Seq<char>, sep: spec_fn(char) -> bool)
    ensures
        split_by(s, sep).len() >= 1,
        forall|i: int, k: int|
            0 <= i < split_by(s, sep).len() && 0 <= k < split_by(s, sep)[i].len() ==> !sep(
                #[trigger] split_by(s, sep)[i][k],
            ),
    decreases s.len(),
{
    if s.len() > 0 {
        let r = split_by(s.drop_last(), sep);
        lemma_split_by_pieces(s.drop_last(), sep);
        let out = split_by(s, sep);
        assert forall|i: int, k: int| 0 <= i < out.len() && 0 <= k < out[i].len() implies !sep(
            #[trigger] out[i][k],
        ) by {
            if i < r.len() - 1 || (i == r.len() - 1 && sep(s.last())) {
                assert(out[i] == r[i]);
            } else if i == r.len() - 1 {
                assert(out[i] == r[i].push(s.last()));
                if k < r[i].len() {
                    assert(out[i][k] == r[i][k]);
                }
            }
        }
    }
}

proof fn lemma_trim_end_clean(s: Seq<char>)
    ensures
        trim_end(s).len() <= s.len(),
        trim_end(s) =~= s.take(trim_end(s).len() as int),
        trim_end(s).len() > 0 ==> !is_ws(trim_end(s).last()),
    decreases s.len(),
{
    if s.len() > 0 && is_ws(s.last()) {
        lemma_trim_end_clean(s.drop_last());
        let t = trim_end(s.drop_last());
        assert(s.drop_last().take(t.len() as int) =~= s.take(t.len() as int));
    }
}

proof fn lemma_nonempty_kept(pieces: Seq<Seq<char>>)
    ensures
        forall|i: int| 0 <= i < nonempty(pieces).len() ==> (#[trigger] nonempty(pieces)[i]).len() > 0
            && pieces.contains(nonempty(pieces)[i]),
    decreases pieces.len(),
{
    if pieces.len() > 0 {
        let rest = pieces.drop_last();
        lemma_nonempty_kept(rest);
        let r = nonempty(rest);
        let out = nonempty(pieces);
        assert forall|i: int| 0 <= i < out.len() implies (#[trigger] out[i]).len() > 0 && pieces.contains(out[i]) by {
            if i < r.len() {
                assert(out[i] == r[i]);
                assert(rest.contains(r[i]));
                let j = choose|j: int| 0 <= j < rest.len() && rest[j] == r[i];
                assert(pieces[j] == rest[j]);
            } else {
                assert(out[i] == pieces.last());
                assert(pieces[pieces.len() - 1] == pieces.last());
            }
        }
    }
}

/// Every line that `split_lines` gives is non-empty, holds neither `\r` nor
/// `\n`, and has no trailing whitespace left to trim.
pub proof fn law_split_lines_are_clean(chunk: Seq<char>)
    ensures
        forall|i: int| #![trigger spec_split_lines(chunk)[i]]
            0 <= i < spec_split_lines(chunk).len() ==> {
                let l = spec_split_lines(chunk)[i];
                &&& l.len() > 0
                &&& forall|k: int| 0 <= k < l.len() ==> l[k] != '\r' && l[k] != '\n'
                &&& trim_end(l) == l
            },
{
    let sep = sep_pred(Sep::LineBreak);
    let pieces = split_by(chunk, sep);
    let trimmed = pieces.map_values(|p: Seq<char>| trim_end(p));
    lemma_split_by_pieces(chunk, sep);
    lemma_nonempty_kept(trimmed);
    let out = spec_split_lines(chunk);
    assert forall|i: int| #![trigger out[i]] 0 <= i < out.len() implies ({
        let l = out[i];
        &&& l.len() > 0
        &&& forall|k: int| 0 <= k < l.len() ==> l[k] != '\r' && l[k] != '\n'
        &&& trim_end(l) == l
    }) by {
        let l = out[i];
        assert(trimmed.contains(l));
        let j = choose|j: int| 0 <= j < trimmed.len() && trimmed[j] == l;
        let p = pieces[j];
        assert(l == trim_end(p));
        lemma_trim_end_clean(p);
        assert forall|k: int| 0 <= k < l.len() implies l[k] != '\r' && l[k] != '\n' by {
            assert(l[k] == p[k]);
            assert(!sep(pieces[j][k]));
        }
        lemma_trim_end_clean(l);
    }
}


/// `percent_numeral` is the documented pattern
/// `^\[download\]\s+(\d+(\.\d+)?)%`: it gives `x` exactly when the line is
/// the tag, a non-empty run of whitespace, the decimal `x`, a `%`, and
/// anything after.
pub proof fn law_percent_is_the_pattern(line: Seq<char>, x: Seq<char>)
    ensures
        spec_percent_numeral(line) == Some(x) <==> exists|w: Seq<char>, rest: Seq<char>|
            #![trigger "[download]"@ + w + x + "%"@ + rest]
            w.len() > 0 && all_ws(w) && is_decimal(x) && line == "[download]"@ + w + x + "%"@ + rest,
{
    reveal_strlit("[download]");
    reveal_strlit("%");
    let tag = "[download]"@;
    if spec_percent_numeral(line) == Some(x) {
        let rest0 = line.skip(10);
        let pct = first_where(rest0, eq_char('%'));
        lemma_first_where(rest0, eq_char('%'));
        let number = rest0.take(pct);
        let start = last_where(number, not_numeric()) + 1;
        let w = number.take(start);
        let rest = rest0.skip(pct + 1);
        lemma_last_where(number, not_numeric());
        assert(tag.is_prefix_of(line));
        assert(pct >= 0);
        assert(0 <= start <= pct);
        let xx = number.skip(start);
        assert(xx == x);
        assert(rest0[pct] == '%');
        assert(number =~= w + xx);
        assert(rest0 =~= number + "%"@ + rest);
        assert(line =~= tag + rest0);
        assert(line =~= tag + w + x + "%"@ + rest);
    }
    if exists|w: Seq<char>, rest: Seq<char>|
        #![trigger "[download]"@ + w + x + "%"@ + rest]
        w.len() > 0 && all_ws(w) && is_decimal(x) && line == "[download]"@ + w + x + "%"@ + rest {
        let (w, rest) = choose|w: Seq<char>, rest: Seq<char>|
            #![trigger "[download]"@ + w + x + "%"@ + rest]
            w.len() > 0 && all_ws(w) && is_decimal(x) && line == "[download]"@ + w + x + "%"@ + rest;
        assert(tag.is_prefix_of(line)) by {
            assert forall|k: int| 0 <= k < 10 implies line[k] == tag[k] by {
                assert(line[k] == (tag + w + x + "%"@ + rest)[k]);
            }
        }
        let rest0 = line.skip(10);
        assert(rest0 =~= w + x + "%"@ + rest);
        let pct: int = w.len() as int + x.len() as int;
        assert(rest0[pct] == '%');
        assert forall|j: int| 0 <= j < rest0.len() && j < pct implies !eq_char('%')(rest0[j]) by {
            if j < w.len() {
                assert(rest0[j] == w[j]);
                assert(is_ws(w[j]));
            } else {
                assert(rest0[j] == x[j - w.len()]);
                assert(is_numeric(x[j - w.len()]));
            }
        }
        lemma_first_where_unique(rest0, eq_char('%'), pct);
        let number = rest0.take(pct);
        assert(number =~= w + x);
        assert forall|j: int| w.len() - 1 < j < number.len() implies !not_numeric()(number[j]) by {
            assert(number[j] == x[j - w.len()]);
        }
        assert(not_numeric()(number[w.len() - 1])) by {
            assert(number[w.len() - 1] == w[w.len() - 1]);
            assert(is_ws(w[w.len() - 1]));
        }
        lemma_last_where_unique(number, not_numeric(), w.len() - 1);
        assert(number.take(w.len() as int) =~= w);
        assert(number.skip(w.len() as int) =~= x);
    }
}


/// After a progress line (one that gives a percentage) the rate shown is the
/// one that line itself reports, never one left over from an earlier line:
/// it is the same whatever the progress was before, empty when the line
/// reports none (a stream's closing `100% ... in 00:02` line), and the line's
/// own rate when it reports one (and neither begins a stream nor reports a
/// file already there).
pub proof fn law_rate_is_the_lines_own(p: ProgressView, q: ProgressView, line: Seq<char>, r: Seq<char>)
    requires
        spec_percent_numeral(line) is Some,
    ensures
        spec_feed(p, line).rate == spec_feed(q, line).rate,
        spec_rate(line) is None ==> spec_feed(p, line).rate.len() == 0,
        spec_rate(line) == Some(r) && !spec_stream_started(line)
            && !"has already been downloaded"@.is_suffix_of(line) ==> spec_feed(p, line).rate == r,
{
}

} // verus!
