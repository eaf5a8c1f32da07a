//! Links out of dropped text: a browser hands over one url, a dropped text
//! file or `.url` shortcut may hold several.

use vstd::prelude::*;
use crate::parse::opt_view;
use crate::text::{
    chars_of, cut, eq_char, split_at_sep, split_by, starts_with_at, string_views, trim, trim_at,
    Sep,
};

verus! {

/// `s` with every leading repetition of `p` removed (`trim_start_matches`).
pub open spec fn strip_all_prefix(s: Seq<char>, p: Seq<char>) -> Seq<char>
    decreases s.len(),
{
    if p.len() > 0 && p.is_prefix_of(s) {
        strip_all_prefix(s.skip(p.len() as int), p)
    } else {
        s
    }
}

pub open spec fn is_web_url(s: Seq<char>) -> bool {
    "http://"@.is_prefix_of(s) || "https://"@.is_prefix_of(s)
}

/// A line as a candidate link: trimmed, any `URL=` in front (a `.url`
/// shortcut's form) removed.
pub open spec fn link_of(line: Seq<char>) -> Seq<char> {
    strip_all_prefix(trim(line), "URL="@)
}

/// The http(s) links among some lines, in order.
pub open spec fn links(lines: Seq<Seq<char>>) -> Seq<Seq<char>>
    decreases lines.len(),
{
    if lines.len() == 0 {
        Seq::empty()
    } else {
        let r = links(lines.drop_last());
        if is_web_url(link_of(lines.last())) {
            r.push(link_of(lines.last()))
        } else {
            r
        }
    }
}

/// Every http(s) line of `text`. Lines are taken between `\n`s; a `\r`
/// before the `\n`, or a blank last line, makes no difference once a line
/// is trimmed, so these are the lines `str::lines` gives.
pub open spec fn spec_urls_in_text(text: Seq<char>) -> Seq<Seq<char>> {
    links(split_by(text, eq_char('\n')))
}

/// Every http(s) line in some text.
pub fn urls_in_text(text: &str) -> (r: Vec<String>)
    ensures
        string_views(r@) == spec_urls_in_text(text@),
{
    let v = chars_of(text);
    assert(v@.subrange(0, v@.len() as int) =~= v@);
    let ranges = split_at_sep(&v, 0, v.len(), &Sep::Char('\n'));
    let ghost lines = split_by(text@, eq_char('\n'));
    let url = chars_of("URL=");
    let http = chars_of("http://");
    let https = chars_of("https://");
    let mut out: Vec<String> = Vec::new();
    let mut k: usize = 0;
    assert(lines.take(0) =~= Seq::<Seq<char>>::empty());
    while k < ranges.len()
        invariant
            v@ == text@,
            url@ == "URL="@,
            http@ == "http://"@,
            https@ == "https://"@,
            k <= ranges@.len(),
            cut(v@, ranges@) == lines,
            lines == split_by(text@, eq_char('\n')),
            forall|j: int| 0 <= j < ranges@.len() ==> 0 <= (#[trigger] ranges@[j]).0 <= ranges@[j].1 <= v@.len(),
            string_views(out@) == links(lines.take(k as int)),
        decreases ranges@.len() - k,
    {
        let (a, b) = ranges[k];
        assert(cut(v@, ranges@)[k as int] == v@.subrange(a as int, b as int));
        assert(lines.take(k + 1).drop_last() =~= lines.take(k as int));
        let (mut s, e) = trim_at(&v, a, b);
        proof {
            reveal_strlit("URL=");
        }
        while e - s >= url.len() && starts_with_at(&v, s, e, &url)
            invariant
                a <= s <= e <= b <= v@.len(),
                url@ == "URL="@,
                url@.len() == 4,
                strip_all_prefix(v@.subrange(s as int, e as int), url@) == link_of(
                    v@.subrange(a as int, b as int),
                ),
            decreases e - s,
        {
            assert(v@.subrange(s as int, e as int).skip(4) =~= v@.subrange(s + 4, e as int));
            s = s + url.len();
        }
        assert(strip_all_prefix(v@.subrange(s as int, e as int), url@) == v@.subrange(
            s as int,
            e as int,
        ));
        if starts_with_at(&v, s, e, &http) || starts_with_at(&v, s, e, &https) {
            let ghost before = out@;
            out.push(String::from_str(text.substring_char(s, e)));
            assert(string_views(out@) =~= string_views(before).push(v@.subrange(s as int, e as int)));
        }
        k = k + 1;
    }
    assert(lines.take(ranges@.len() as int) =~= lines);
    out
}


/// A dropped file larger than this (1 MiB) is no list of links: a dropped
/// video is a file too, and is never read.
pub const MAX_LIST_BYTES: u64 = 1048576;

/// Whether a dropped file of `size` bytes is small enough to be read as a
/// list of links.
pub fn may_read_list(size: u64) -> (r: bool)
    ensures
        r == (size <= MAX_LIST_BYTES),
{
    size <= MAX_LIST_BYTES
}

/// The links of an offered text, none where it was not offered.
pub open spec fn offered_urls(text: Option<Seq<char>>) -> Seq<Seq<char>> {
    match text {
        Some(t) => spec_urls_in_text(t),
        None => Seq::empty(),
    }
}

/// The links of some files' contents, file after file.
pub open spec fn file_urls(files: Seq<Seq<char>>) -> Seq<Seq<char>>
    decreases files.len(),
{
    if files.len() == 0 {
        Seq::empty()
    } else {
        file_urls(files.drop_last()) + spec_urls_in_text(files.last())
    }
}

/// What a drop gives: the links of the shell's url format; where that gives
/// none, those of the dragged text; where that gives none either, those of the
/// dropped files that could be read.
pub open spec fn spec_dropped_urls(
    link: Option<Seq<char>>,
    text: Option<Seq<char>>,
    files: Seq<Seq<char>>,
) -> Seq<Seq<char>> {
    if offered_urls(link).len() > 0 {
        offered_urls(link)
    } else if offered_urls(text).len() > 0 {
        offered_urls(text)
    } else {
        file_urls(files)
    }
}

fn offered(text: Option<&str>) -> (r: Vec<String>)
    ensures
        string_views(r@) == offered_urls(opt_view(text)),
{
    match text {
        Some(t) => urls_in_text(t),
        None => {
            let r: Vec<String> = Vec::new();
            assert(string_views(r@) =~= Seq::<Seq<char>>::empty());
            r
        },
    }
}

/// Whether the dropped files are to be read at all: only where neither the
/// url format nor the dragged text holds a link.
pub fn wants_files(link: Option<&str>, text: Option<&str>) -> (r: bool)
    ensures
        r == (offered_urls(opt_view(link)).len() == 0 && offered_urls(opt_view(text)).len() == 0),
{
    offered(link).len() == 0 && offered(text).len() == 0
}

/// The links a drop carries, from what it offered: the text of the url
/// format, the dragged text, and the contents of the dropped files that were
/// small enough to read, in their order.
pub fn dropped_urls(link: Option<&str>, text: Option<&str>, files: &Vec<String>) -> (r: Vec<String>)
    ensures
        string_views(r@) == spec_dropped_urls(opt_view(link), opt_view(text), string_views(files@)),
{
    let from_link = offered(link);
    if from_link.len() > 0 {
        return from_link;
    }
    let from_text = offered(text);
    if from_text.len() > 0 {
        return from_text;
    }
    let ghost fs = string_views(files@);
    let mut out: Vec<String> = Vec::new();
    let mut i: usize = 0;
    assert(fs.take(0) =~= Seq::<Seq<char>>::empty());
    assert(string_views(out@) =~= Seq::<Seq<char>>::empty());
    while i < files.len()
        invariant
            i <= files@.len(),
            fs == string_views(files@),
            string_views(out@) == file_urls(fs.take(i as int)),
        decreases files@.len() - i,
    {
        let mut more = urls_in_text(files[i].as_str());
        let ghost before = out@;
        let ghost added = more@;
        out.append(&mut more);
        assert(fs.take(i + 1).drop_last() =~= fs.take(i as int));
        assert(fs.take(i + 1).last() == files@[i as int]@);
        assert(string_views(out@) =~= string_views(before) + string_views(added));
        i = i + 1;
    }
    assert(fs.take(files@.len() as int) =~= fs);
    out
}

} // verus!
