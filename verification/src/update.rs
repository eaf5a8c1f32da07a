//! Versions: reading yt-dlp's `--version` output, the release tag GitHub
//! redirects to, and whether a release is newer than this build. The network
//! and process calls themselves are the caller's.

use vstd::prelude::*;
use vstd::utf8::{decode_utf8, valid_utf8};
use crate::parse::opt_view;
use crate::num::{dec, format_u64, parse_u32_at, parse_u64_at, spec_parse_u32, spec_parse_u64};
use crate::text::{
    chars_of, cut, eq_char, last_where, lemma_last_where_unique, split_at_sep, split_by, trim,
    trim_at, trim_char_start, trim_char_start_at, Sep,
};

verus! {

/// GitHub's page for this app.
pub const REPO: &'static str = "https://github.com/tedlaz/rficus";

/// What `String::from_utf8_lossy` makes of some bytes: the text, with
/// U+FFFD standing in for each invalid sequence.
pub uninterp spec fn lossy_utf8(bytes: Seq<u8>) -> Seq<char>;

/// `String::from_utf8_lossy`, owned. Its text is named `lossy_utf8`; valid
/// UTF-8 comes back decoded as is, as the documentation says. Where exactly
/// the replacement characters stand in invalid input is left to the name.
#[verifier::external_body]
pub(crate) fn utf8_lossy(bytes: &[u8]) -> (r: String)
    ensures
        r@ == lossy_utf8(bytes@),
        valid_utf8(bytes@) ==> r@ == decode_utf8(bytes@),
{
    String::from_utf8_lossy(bytes).into_owned()
}

// ---------------------------------------------------------------------------
// Versions
// ---------------------------------------------------------------------------

/// The numbers of a dotted version, each as `u32::from_str` reads it; None
/// when any part is not one.
pub open spec fn parse_parts(parts: Seq<Seq<char>>) -> Option<Seq<u32>>
    decreases parts.len(),
{
    if parts.len() == 0 {
        Some(Seq::empty())
    } else {
        match (parse_parts(parts.drop_last()), spec_parse_u32(parts.last())) {
            (Some(ns), Some(n)) => Some(ns.push(n)),
            _ => None,
        }
    }
}

pub open spec fn spec_version(v: Seq<char>) -> Option<Seq<u32>> {
    parse_parts(split_by(v, eq_char('.')))
}

/// Lexicographic order of number sequences, the order of `Vec<u32>`: the
/// first difference decides, and a proper prefix comes first.
pub open spec fn lex_lt(a: Seq<u32>, b: Seq<u32>) -> bool
    decreases a.len(),
{
    if a.len() == 0 {
        b.len() > 0
    } else if b.len() == 0 {
        false
    } else if a[0] != b[0] {
        a[0] < b[0]
    } else {
        lex_lt(a.drop_first(), b.drop_first())
    }
}

pub open spec fn spec_is_newer(latest: Seq<char>, current: Seq<char>) -> Option<bool> {
    match (spec_version(latest), spec_version(current)) {
        (Some(l), Some(c)) => Some(lex_lt(c, l)),
        _ => None,
    }
}

/// The numbers of a dotted version, or None when any part is not a `u32`.
pub fn version_numbers(s: &str) -> (r: Option<Vec<u32>>)
    ensures
        match r {
            Some(ns) => spec_version(s@) == Some(ns@),
            None => spec_version(s@) is None,
        },
{
    let v = chars_of(s);
    assert(v@.subrange(0, v@.len() as int) =~= v@);
    let ranges = split_at_sep(&v, 0, v.len(), &Sep::Char('.'));
    let ghost parts = split_by(s@, eq_char('.'));
    let mut out: Vec<u32> = Vec::new();
    let mut k: usize = 0;
    assert(parts.take(0) =~= Seq::<Seq<char>>::empty());
    while k < ranges.len()
        invariant
            v@ == s@,
            k <= ranges@.len(),
            cut(v@, ranges@) == parts,
            parts == split_by(s@, eq_char('.')),
            forall|j: int| 0 <= j < ranges@.len() ==> 0 <= (#[trigger] ranges@[j]).0 <= ranges@[j].1 <= v@.len(),
            parse_parts(parts.take(k as int)) == Some(out@),
        decreases ranges@.len() - k,
    {
        let (a, b) = ranges[k];
        assert(cut(v@, ranges@)[k as int] == v@.subrange(a as int, b as int));
        assert(parts.take(k + 1).drop_last() =~= parts.take(k as int));
        match parse_u32_at(&v, a, b) {
            None => {
                proof {
                    assert(parts.len() == ranges@.len());
                    assert(parts[k as int] == v@.subrange(a as int, b as int));
                    lemma_parse_parts_fails(parts, k as int);
                }
                return None;
            },
            Some(n) => {
                out.push(n);
            },
        }
        k = k + 1;
    }
    assert(parts.take(ranges@.len() as int) =~= parts);
    Some(out)
}

/// One part that does not parse makes the whole version fail to.
proof fn lemma_parse_parts_fails(parts: Seq<Seq<char>>, k: int)
    requires
        0 <= k < parts.len(),
        spec_parse_u32(parts[k]) is None,
    ensures
        parse_parts(parts) is None,
    decreases parts.len(),
{
    if k < parts.len() - 1 {
        assert(parts.drop_last()[k] == parts[k]);
        lemma_parse_parts_fails(parts.drop_last(), k);
    }
}

/// `a < b` in the order of `Vec<u32>`.
pub fn lex_less(a: &Vec<u32>, b: &Vec<u32>) -> (r: bool)
    ensures
        r == lex_lt(a@, b@),
{
    let mut i: usize = 0;
    assert(a@.skip(0) =~= a@);
    assert(b@.skip(0) =~= b@);
    while i < a.len() && i < b.len() && a[i] == b[i]
        invariant
            i <= a@.len(),
            i <= b@.len(),
            lex_lt(a@, b@) == lex_lt(a@.skip(i as int), b@.skip(i as int)),
        decreases a@.len() - i,
    {
        assert(a@.skip(i as int).drop_first() =~= a@.skip(i + 1));
        assert(b@.skip(i as int).drop_first() =~= b@.skip(i + 1));
        i = i + 1;
    }
    let ghost sa = a@.skip(i as int);
    let ghost sb = b@.skip(i as int);
    if i == a.len() {
        i < b.len()
    } else if i == b.len() {
        false
    } else {
        assert(sa[0] == a@[i as int] && sb[0] == b@[i as int]);
        a[i] < b[i]
    }
}

/// `0.1.10` beats `0.1.9`: dotted versions compared as numbers, part by
/// part, not as text. None when either is not a dotted run of numbers.
pub fn is_newer(latest: &str, current: &str) -> (r: Option<bool>)
    ensures
        r == spec_is_newer(latest@, current@),
{
    let l = match version_numbers(latest) {
        None => {
            return None;
        },
        Some(l) => l,
    };
    let c = match version_numbers(current) {
        None => {
            return None;
        },
        Some(c) => c,
    };
    Some(lex_less(&c, &l))
}

/// A version is never newer than itself.
pub proof fn law_not_newer_than_itself(v: Seq<char>)
    requires
        spec_version(v) is Some,
    ensures
        spec_is_newer(v, v) == Some(false),
{
    lemma_lex_lt_irreflexive(spec_version(v).unwrap());
}

/// Of two versions, at most one is newer than the other.
pub proof fn law_newer_is_asymmetric(a: Seq<char>, b: Seq<char>)
    requires
        spec_is_newer(a, b) == Some(true),
    ensures
        spec_is_newer(b, a) == Some(false),
{
    lemma_lex_lt_asymmetric(spec_version(b).unwrap(), spec_version(a).unwrap());
}

/// Newer is transitive: a release newer than one newer than the build is
/// newer than the build.
pub proof fn law_newer_is_transitive(a: Seq<char>, b: Seq<char>, c: Seq<char>)
    requires
        spec_is_newer(a, b) == Some(true),
        spec_is_newer(b, c) == Some(true),
    ensures
        spec_is_newer(a, c) == Some(true),
{
    lemma_lex_lt_transitive(
        spec_version(c).unwrap(),
        spec_version(b).unwrap(),
        spec_version(a).unwrap(),
    );
}

proof fn lemma_lex_lt_irreflexive(a: Seq<u32>)
    ensures
        !lex_lt(a, a),
    decreases a.len(),
{
    if a.len() > 0 {
        lemma_lex_lt_irreflexive(a.drop_first());
    }
}

proof fn lemma_lex_lt_asymmetric(a: Seq<u32>, b: Seq<u32>)
    requires
        lex_lt(a, b),
    ensures
        !lex_lt(b, a),
    decreases a.len(),
{
    if a.len() > 0 && b.len() > 0 && a[0] == b[0] {
        lemma_lex_lt_asymmetric(a.drop_first(), b.drop_first());
    }
}

proof fn lemma_lex_lt_transitive(a: Seq<u32>, b: Seq<u32>, c: Seq<u32>)
    requires
        lex_lt(a, b),
        lex_lt(b, c),
    ensures
        lex_lt(a, c),
    decreases a.len(),
{
    if a.len() > 0 && b.len() > 0 && c.len() > 0 && a[0] == b[0] && b[0] == c[0] {
        lemma_lex_lt_transitive(a.drop_first(), b.drop_first(), c.drop_first());
    }
}

// ---------------------------------------------------------------------------
// Release tags
// ---------------------------------------------------------------------------

/// The tag a `/releases/latest` redirect points at: the trimmed text after
/// the last `/` of its `Location`, when not empty.
pub open spec fn spec_tag_from_location(loc: Seq<char>) -> Option<Seq<char>> {
    let t = trim(loc.skip(last_where(loc, eq_char('/')) + 1));
    if t.len() > 0 {
        Some(t)
    } else {
        None
    }
}

/// GitHub redirects `/releases/latest` to `/releases/tag/<version>`; with
/// redirects off the tag is right there in the `Location` header.
pub fn tag_from_location(loc: &str) -> (r: Option<&str>)
    ensures
        opt_view(r) == spec_tag_from_location(loc@),
{
    let v = chars_of(loc);
    let n = v.len();
    let mut i = n;
    while i > 0 && v[i - 1] != '/'
        invariant
            i <= n == v@.len(),
            forall|j: int| i <= j < n ==> v@[j] != '/',
        decreases i,
    {
        i = i - 1;
    }
    proof {
        lemma_last_where_unique(loc@, eq_char('/'), i - 1);
        assert(loc@.skip(i as int) =~= v@.subrange(i as int, n as int));
    }
    let (a, b) = trim_at(&v, i, n);
    if b > a {
        Some(loc.substring_char(a, b))
    } else {
        None
    }
}

/// The latest yt-dlp release, from the `Location` of GitHub's
/// `/releases/latest` redirect (None when there was no answer or no header).
pub fn latest_version(location: Option<&str>) -> (r: Option<String>)
    ensures
        match location {
            None => r is None,
            Some(loc) => match spec_tag_from_location(loc@) {
                Some(t) => r matches Some(v) && v@ == t,
                None => r is None,
            },
        },
{
    match location {
        None => None,
        Some(loc) => match tag_from_location(loc) {
            Some(t) => Some(String::from_str(t)),
            None => None,
        },
    }
}

/// Where the portable exe of this app's release `version` is served.
pub fn release_asset_url(version: &str) -> (r: String)
    ensures
        r@ == REPO@ + "/releases/download/v"@ + version@ + "/rficus.exe"@,
{
    let mut u = String::from_str(REPO);
    u.append("/releases/download/v");
    u.append(version);
    u.append("/rficus.exe");
    u
}

/// The standard reason phrase of an HTTP status code, when it has one.
pub uninterp spec fn reason_phrase(status: u16) -> Option<Seq<char>>;

/// `http::StatusCode::canonical_reason`, through ureq's re-export of `http`,
/// for a code that `StatusCode::from_u16` accepts (100 to 999): the phrase the
/// crate's table holds for it, if any. The table itself is not restated.
#[verifier::external_body]
fn canonical_reason(status: u16) -> (r: Option<&'static str>)
    requires
        100 <= status <= 999,
    ensures
        opt_view(r) == reason_phrase(status),
{
    match ureq::http::StatusCode::from_u16(status) {
        Ok(code) => code.canonical_reason(),
        Err(_) => None,
    }
}

/// How `http::StatusCode` displays: the number, a space, and the reason
/// phrase, or `<unknown status code>` when it has none.
pub open spec fn status_display(status: u16) -> Seq<char> {
    dec(status as nat) + " "@ + match reason_phrase(status) {
        Some(r) => r,
        None => "<unknown status code>"@,
    }
}

/// A reply to a request for `url` is good when its status is 200; otherwise
/// the error names the url and the status.
pub open spec fn spec_status_ok(url: Seq<char>, status: u16) -> Result<(), Seq<char>> {
    if status == 200 {
        Ok(())
    } else {
        Err(url + " returned HTTP "@ + status_display(status))
    }
}

/// Is this URL still served? What the status of a reply (a HEAD request's, or
/// a download's) says of it.
pub fn head_ok(url: &str, status: u16) -> (r: Result<(), String>)
    requires
        100 <= status <= 999,
    ensures
        spec_status_ok(url@, status) == match r {
            Ok(()) => Ok(()),
            Err(e) => Err(e@),
        },
{
    if status == 200 {
        Ok(())
    } else {
        let mut e = String::from_str(url);
        e.append(" returned HTTP ");
        let n = format_u64(status as u64);
        e.append(n.as_str());
        e.append(" ");
        match canonical_reason(status) {
            Some(r) => e.append(r),
            None => e.append("<unknown status code>"),
        }
        assert(e@ =~= url@ + " returned HTTP "@ + status_display(status));
        Err(e)
    }
}

/// A download's size from its `Content-Length` header, when the header is
/// there and reads as a `u64`.
pub fn content_length(header: Option<&str>) -> (r: Option<u64>)
    ensures
        r == match header {
            Some(h) => spec_parse_u64(h@),
            None => None,
        },
{
    match header {
        None => None,
        Some(h) => {
            let v = chars_of(h);
            assert(v@.subrange(0, v@.len() as int) =~= v@);
            parse_u64_at(&v, 0, v.len())
        },
    }
}

/// What a check for a newer release of this app concludes from the tag it
/// fetched (None when GitHub could not be reached) and this build's version:
/// the release's version when it is newer, None when it is not, and an error
/// when there is no tag or it does not read as a version.
pub open spec fn spec_newer_app_version(tag: Option<Seq<char>>, current: Seq<char>) -> Result<Option<Seq<char>>, Seq<char>> {
    match tag {
        None => Err("could not reach GitHub"@),
        Some(t) => {
            let latest = trim_char_start(t, 'v');
            match spec_is_newer(latest, current) {
                Some(true) => Ok(Some(latest)),
                Some(false) => Ok(None),
                None => Err("unexpected release tag "@ + t),
            }
        },
    }
}

pub fn newer_app_version(tag: Option<&str>, current: &str) -> (r: Result<Option<String>, String>)
    ensures
        spec_newer_app_version(opt_view(tag), current@) == match r {
            Ok(Some(v)) => Ok(Some(v@)),
            Ok(None) => Ok(None),
            Err(e) => Err(e@),
        },
{
    let t = match tag {
        None => {
            return Err(String::from_str("could not reach GitHub"));
        },
        Some(t) => t,
    };
    let v = chars_of(t);
    assert(v@.subrange(0, v@.len() as int) =~= v@);
    let b = trim_char_start_at(&v, 0, v.len(), 'v');
    let latest = t.substring_char(b, v.len());
    match is_newer(latest, current) {
        Some(true) => Ok(Some(String::from_str(latest))),
        Some(false) => Ok(None),
        None => {
            let mut e = String::from_str("unexpected release tag ");
            e.append(t);
            Err(e)
        },
    }
}

/// What `yt-dlp --version` printed, trimmed; an error when it printed nothing.
pub open spec fn spec_local_version(out: Seq<char>) -> Result<Seq<char>, Seq<char>> {
    if trim(out).len() == 0 {
        Err("no version output"@)
    } else {
        Ok(trim(out))
    }
}

/// The version yt-dlp reported on its standard output.
pub fn local_version(stdout: &[u8]) -> (r: Result<String, String>)
    ensures
        spec_local_version(lossy_utf8(stdout@)) == match r {
            Ok(v) => Ok(v@),
            Err(e) => Err(e@),
        },
        valid_utf8(stdout@) ==> spec_local_version(decode_utf8(stdout@)) == match r {
            Ok(v) => Ok(v@),
            Err(e) => Err(e@),
        },
        r matches Ok(v) ==> v@.len() > 0,
{
    let text = utf8_lossy(stdout);
    let s = text.as_str();
    let v = chars_of(s);
    assert(v@.subrange(0, v@.len() as int) =~= v@);
    let (a, b) = trim_at(&v, 0, v.len());
    if b > a {
        Ok(String::from_str(s.substring_char(a, b)))
    } else {
        Err(String::from_str("no version output"))
    }
}

} // verus!
