//! The settings file: reading values, writing them back, and bringing an old
//! file up to date with the defaults. Loading and saving the file is the
//! caller's; the contents live in an `ini::Ini`.

use vstd::prelude::*;
use ini::{Ini, Properties};
use crate::parse::opt_view;
use crate::text::{
    chars_of, cut, trim, trim_at, trim_char_start, trim_char_start_at, words, split_at_sep,
    split_by, sep_pred, nonempty, string_views, Sep,
};

verus! {

// ---------------------------------------------------------------------------
// The outside types and what they hold
// ---------------------------------------------------------------------------

#[verifier::external_type_specification]
#[verifier::external_body]
pub struct ExIni(Ini);

#[verifier::external_type_specification]
#[verifier::external_body]
pub struct ExProperties(Properties);

/// A section: its name (None for the general section) and its key/value
/// pairs in iteration order.
pub type SectionModel = (Option<Seq<char>>, Seq<(Seq<char>, Seq<char>)>);

/// The sections of an `Ini`, in the order `Ini::iter` walks them.
pub uninterp spec fn ini_sections(ini: Ini) -> Seq<(Option<Seq<char>>, Seq<(Seq<char>, Seq<char>)>)>;

/// The key/value pairs of a `Properties`, in the order `Properties::iter` walks them.
pub uninterp spec fn props_pairs(p: Properties) -> Seq<(Seq<char>, Seq<char>)>;

/// What `Ini::load_from_str` makes of a text: the sections, or None when it
/// is not valid ini.
pub uninterp spec fn parsed_ini(text: Seq<char>) -> Option<Seq<(Option<Seq<char>>, Seq<(Seq<char>, Seq<char>)>)>>;

// ---------------------------------------------------------------------------
// The meaning of lookups and updates over that model
// ---------------------------------------------------------------------------

/// The value of the first pair with key `k`.
pub open spec fn pairs_get(ps: Seq<(Seq<char>, Seq<char>)>, k: Seq<char>) -> Option<Seq<char>>
    decreases ps.len(),
{
    if ps.len() == 0 {
        None
    } else {
        match pairs_get(ps.drop_last(), k) {
            Some(v) => Some(v),
            None => if ps.last().0 == k {
                Some(ps.last().1)
            } else {
                None
            },
        }
    }
}

/// The pairs without any of key `k`.
pub open spec fn remove_key(ps: Seq<(Seq<char>, Seq<char>)>, k: Seq<char>) -> Seq<(Seq<char>, Seq<char>)>
    decreases ps.len(),
{
    if ps.len() == 0 {
        ps
    } else {
        let r = remove_key(ps.drop_last(), k);
        if ps.last().0 == k {
            r
        } else {
            r.push(ps.last())
        }
    }
}

/// `Properties::insert`: every pair of key `k` goes, and `(k, v)` comes last.
pub open spec fn props_insert(ps: Seq<(Seq<char>, Seq<char>)>, k: Seq<char>, v: Seq<char>) -> Seq<(Seq<char>, Seq<char>)> {
    remove_key(ps, k).push((k, v))
}

/// Index of the first section named `name`, or -1.
pub open spec fn first_section(m: Seq<SectionModel>, name: Option<Seq<char>>) -> int
    decreases m.len(),
{
    if m.len() == 0 {
        -1
    } else {
        let r = first_section(m.drop_last(), name);
        if r >= 0 {
            r
        } else if m.last().0 == name {
            m.len() - 1
        } else {
            -1
        }
    }
}

/// `ini.section(name).and_then(|s| s.get(key))`.
pub open spec fn model_get(m: Seq<SectionModel>, name: Option<Seq<char>>, key: Seq<char>) -> Option<Seq<char>> {
    let i = first_section(m, name);
    if i < 0 {
        None
    } else {
        pairs_get(m[i].1, key)
    }
}

/// `ini.with_section(name).set(key, value)`: the first section of that name
/// has the pair replaced; without one, a new section holding just the pair
/// comes last.
pub open spec fn model_set(m: Seq<SectionModel>, name: Option<Seq<char>>, key: Seq<char>, value: Seq<char>) -> Seq<SectionModel> {
    let i = first_section(m, name);
    if i >= 0 {
        m.update(i, (m[i].0, props_insert(m[i].1, key, value)))
    } else {
        m.push((name, seq![(key, value)]))
    }
}

// ---------------------------------------------------------------------------
// Wrappers
// ---------------------------------------------------------------------------

/// `Ini::section`: the first section of that name.
#[verifier::external_body]
fn ini_section<'a>(ini: &'a Ini, name: Option<&str>) -> (r: Option<&'a Properties>)
    ensures
        match r {
            None => first_section(ini_sections(*ini), opt_view(name)) < 0,
            Some(p) => {
                let i = first_section(ini_sections(*ini), opt_view(name));
                i >= 0 && props_pairs(*p) == ini_sections(*ini)[i].1
            },
        },
{
    ini.section(name)
}

/// `Properties::get`: the value of the first pair with that key.
#[verifier::external_body]
fn props_get<'a>(p: &'a Properties, key: &str) -> (r: Option<&'a str>)
    ensures
        opt_view(r) == pairs_get(props_pairs(*p), key@),
{
    p.get(key)
}

/// `Properties::iter`, each pair copied out.
#[verifier::external_body]
fn props_entries(p: &Properties) -> (r: Vec<(String, String)>)
    ensures
        r@.map_values(|e: (String, String)| (e.0@, e.1@)) == props_pairs(*p),
{
    let mut out = Vec::new();
    for (k, v) in p.iter() {
        out.push((k.to_string(), v.to_string()));
    }
    out
}

/// `Ini::iter`, each section copied out.
#[verifier::external_body]
fn ini_entries(ini: &Ini) -> (r: Vec<(Option<String>, Vec<(String, String)>)>)
    ensures
        r@.map_values(|e: (Option<String>, Vec<(String, String)>)| section_view(e)) == ini_sections(*ini),
{
    let mut out = Vec::new();
    for (name, props) in ini.iter() {
        let pairs = props.iter().map(|(k, v)| (k.to_string(), v.to_string())).collect();
        out.push((name.map(|n| n.to_string()), pairs));
    }
    out
}

/// `SectionSetter::set` on `Ini::with_section`.
#[verifier::external_body]
fn ini_set(ini: &mut Ini, name: Option<&str>, key: &str, value: &str)
    ensures
        ini_sections(*final(ini)) == model_set(ini_sections(*old(ini)), opt_view(name), key@, value@),
{
    ini.with_section(name).set(key, value);
}

/// `Ini::load_from_str`, the error dropped.
#[verifier::external_body]
fn ini_parse(text: &str) -> (r: Option<Ini>)
    ensures
        match r {
            Some(i) => parsed_ini(text@) == Some(ini_sections(i)),
            None => parsed_ini(text@) is None,
        },
{
    Ini::load_from_str(text).ok()
}

pub open spec fn section_view(e: (Option<String>, Vec<(String, String)>)) -> SectionModel {
    (
        match e.0 {
            Some(n) => Some(n@),
            None => None,
        },
        e.1@.map_values(|p: (String, String)| (p.0@, p.1@)),
    )
}

// ---------------------------------------------------------------------------
// Filling gaps from the defaults
// ---------------------------------------------------------------------------

/// A default setting: its section, key and value.
pub type Setting = (Option<Seq<char>>, Seq<char>, Seq<char>);

/// The pairs of one section as settings.
pub open spec fn section_settings(name: Option<Seq<char>>, ps: Seq<(Seq<char>, Seq<char>)>) -> Seq<Setting> {
    ps.map_values(|p: (Seq<char>, Seq<char>)| (name, p.0, p.1))
}

/// Every setting of some sections, in order.
pub open spec fn all_settings(d: Seq<SectionModel>) -> Seq<Setting>
    decreases d.len(),
{
    if d.len() == 0 {
        Seq::empty()
    } else {
        all_settings(d.drop_last()) + section_settings(d.last().0, d.last().1)
    }
}

/// Set each setting that `m` lacks, in order.
pub open spec fn fill(m: Seq<SectionModel>, ts: Seq<Setting>) -> Seq<SectionModel>
    decreases ts.len(),
{
    if ts.len() == 0 {
        m
    } else {
        let prev = fill(m, ts.drop_last());
        let t = ts.last();
        if model_get(prev, t.0, t.1) is None {
            model_set(prev, t.0, t.1, t.2)
        } else {
            prev
        }
    }
}

/// The value of the first setting for `(name, key)`.
pub open spec fn settings_get(ts: Seq<Setting>, name: Option<Seq<char>>, key: Seq<char>) -> Option<Seq<char>>
    decreases ts.len(),
{
    if ts.len() == 0 {
        None
    } else {
        match settings_get(ts.drop_last(), name, key) {
            Some(v) => Some(v),
            None => if ts.last().0 == name && ts.last().1 == key {
                Some(ts.last().2)
            } else {
                None
            },
        }
    }
}

proof fn lemma_pairs_get_remove(ps: Seq<(Seq<char>, Seq<char>)>, k: Seq<char>, k2: Seq<char>)
    ensures
        pairs_get(remove_key(ps, k), k2) == (if k2 == k {
            None
        } else {
            pairs_get(ps, k2)
        }),
    decreases ps.len(),
{
    if ps.len() > 0 {
        lemma_pairs_get_remove(ps.drop_last(), k, k2);
        let r = remove_key(ps.drop_last(), k);
        if ps.last().0 != k {
            assert(r.push(ps.last()).drop_last() =~= r);
        }
    }
}

proof fn lemma_pairs_get_insert(ps: Seq<(Seq<char>, Seq<char>)>, k: Seq<char>, v: Seq<char>, k2: Seq<char>)
    ensures
        pairs_get(props_insert(ps, k, v), k2) == (if k2 == k {
            Some(v)
        } else {
            pairs_get(ps, k2)
        }),
{
    lemma_pairs_get_remove(ps, k, k2);
    assert(remove_key(ps, k).push((k, v)).drop_last() =~= remove_key(ps, k));
}

proof fn lemma_first_section_bounds(m: Seq<SectionModel>, n: Option<Seq<char>>)
    ensures
        -1 <= first_section(m, n) < m.len(),
        first_section(m, n) >= 0 ==> m[first_section(m, n)].0 == n,
        first_section(m, n) < 0 ==> forall|j: int| 0 <= j < m.len() ==> m[j].0 != n,
    decreases m.len(),
{
    if m.len() > 0 {
        lemma_first_section_bounds(m.drop_last(), n);
        assert forall|j: int| 0 <= j < m.len() - 1 implies m[j] == m.drop_last()[j] by {}
    }
}

proof fn lemma_first_section_update(m: Seq<SectionModel>, i: int, s: SectionModel, n: Option<Seq<char>>)
    requires
        0 <= i < m.len(),
        s.0 == m[i].0,
    ensures
        first_section(m.update(i, s), n) == first_section(m, n),
    decreases m.len(),
{
    if m.len() > 0 {
        if i < m.len() - 1 {
            assert(m.update(i, s).drop_last() =~= m.drop_last().update(i, s));
            lemma_first_section_update(m.drop_last(), i, s, n);
        } else {
            assert(m.update(i, s).drop_last() =~= m.drop_last());
        }
    }
}

proof fn lemma_first_section_push(m: Seq<SectionModel>, s: SectionModel, n: Option<Seq<char>>)
    ensures
        first_section(m.push(s), n) == (if first_section(m, n) >= 0 {
            first_section(m, n)
        } else if s.0 == n {
            m.len() as int
        } else {
            -1
        }),
{
    assert(m.push(s).drop_last() =~= m);
}

/// Reading back after a write gives what was written, and every other
/// setting is untouched.
pub proof fn law_get_after_set(
    m: Seq<SectionModel>,
    name: Option<Seq<char>>,
    key: Seq<char>,
    value: Seq<char>,
    name2: Option<Seq<char>>,
    key2: Seq<char>,
)
    ensures
        model_get(model_set(m, name, key, value), name2, key2) == (if name2 == name && key2 == key {
            Some(value)
        } else {
            model_get(m, name2, key2)
        }),
{
    let i = first_section(m, name);
    let j = first_section(m, name2);
    lemma_first_section_bounds(m, name);
    lemma_first_section_bounds(m, name2);
    let m2 = model_set(m, name, key, value);
    if i >= 0 {
        let s = (m[i].0, props_insert(m[i].1, key, value));
        assert(m2 == m.update(i, s));
        lemma_first_section_update(m, i, s, name2);
        assert(first_section(m2, name2) == j);
        if name2 == name {
            assert(j == i);
            lemma_pairs_get_insert(m[i].1, key, value, key2);
            assert(m2[i] == s);
        } else if j >= 0 {
            assert(j != i);
            assert(m2[j] == m[j]);
        }
    } else {
        let s = (name, seq![(key, value)]);
        assert(m2 == m.push(s));
        lemma_first_section_push(m, s, name2);
        if j >= 0 {
            assert(m2[j] == m[j]);
            assert(name2 != name);
        } else if name2 == name {
            assert(first_section(m2, name2) == m.len());
            assert(m2[m.len() as int] == s);
            let ps = seq![(key, value)];
            assert(ps.drop_last() =~= Seq::<(Seq<char>, Seq<char>)>::empty());
            assert(pairs_get(ps.drop_last(), key2) is None);
            assert(ps.last() == (key, value));
            assert(pairs_get(ps, key2) == (if key2 == key {
                Some(value)
            } else {
                None::<Seq<char>>
            }));
        }
    }
}

/// Filling from the defaults only fills gaps: a setting that was there keeps
/// its value, and one that was missing takes the first default given for it
/// (or stays missing when there is none).
pub proof fn law_fill_keeps_existing(m: Seq<SectionModel>, ts: Seq<Setting>, name: Option<Seq<char>>, key: Seq<char>)
    ensures
        model_get(fill(m, ts), name, key) == match model_get(m, name, key) {
            Some(v) => Some(v),
            None => settings_get(ts, name, key),
        },
    decreases ts.len(),
{
    if ts.len() > 0 {
        let prev = fill(m, ts.drop_last());
        let t = ts.last();
        law_fill_keeps_existing(m, ts.drop_last(), name, key);
        law_fill_keeps_existing(m, ts.drop_last(), t.0, t.1);
        if model_get(prev, t.0, t.1) is None {
            law_get_after_set(prev, t.0, t.1, t.2, name, key);
        }
    }
}

proof fn lemma_all_settings_step(d: Seq<SectionModel>, i: int)
    requires
        0 <= i < d.len(),
    ensures
        all_settings(d.take(i + 1)) == all_settings(d.take(i)) + section_settings(d[i].0, d[i].1),
{
    assert(d.take(i + 1).drop_last() =~= d.take(i));
}

/// Copy into `ini` every setting of `defaults` that it lacks. Settings it
/// already has are left alone: this fills gaps, it does not overwrite.
pub fn fill_from(ini: &mut Ini, defaults: &Ini)
    ensures
        ini_sections(*final(ini)) == fill(ini_sections(*old(ini)), all_settings(ini_sections(*defaults))),
{
    let d = ini_entries(defaults);
    let ghost dm = ini_sections(*defaults);
    let ghost m0 = ini_sections(*old(ini));
    let mut i: usize = 0;
    assert(dm.take(0) =~= Seq::<SectionModel>::empty());
    while i < d.len()
        invariant
            i <= d@.len(),
            d@.map_values(|e: (Option<String>, Vec<(String, String)>)| section_view(e)) == dm,
            ini_sections(*ini) == fill(m0, all_settings(dm.take(i as int))),
        decreases d@.len() - i,
    {
        let name: Option<&str> = match &d[i].0 {
            Some(n) => Some(n.as_str()),
            None => None,
        };
        let pairs = &d[i].1;
        let ghost sec = dm[i as int];
        assert(sec == section_view(d@[i as int]));
        assert(opt_view(name) == sec.0);
        let ghost before = all_settings(dm.take(i as int));
        let ghost here = section_settings(sec.0, sec.1);
        let mut j: usize = 0;
        assert(before + here.take(0) =~= before);
        while j < pairs.len()
            invariant
                j <= pairs@.len(),
                pairs@.map_values(|p: (String, String)| (p.0@, p.1@)) == sec.1,
                opt_view(name) == sec.0,
                here == section_settings(sec.0, sec.1),
                ini_sections(*ini) == fill(m0, before + here.take(j as int)),
            decreases pairs@.len() - j,
        {
            let key = pairs[j].0.as_str();
            let value = pairs[j].1.as_str();
            assert(sec.1[j as int] == (key@, value@));
            assert((before + here.take(j + 1)).drop_last() =~= before + here.take(j as int));
            assert((before + here.take(j + 1)).last() == (sec.0, key@, value@));
            let missing = match ini_section(ini, name) {
                None => true,
                Some(p) => props_get(p, key).is_none(),
            };
            if missing {
                ini_set(ini, name, key, value);
            }
            j = j + 1;
        }
        proof {
            assert(here.take(pairs@.len() as int) =~= here);
            lemma_all_settings_step(dm, i as int);
        }
        i = i + 1;
    }
    assert(dm.take(d@.len() as int) =~= dm);
}

// ---------------------------------------------------------------------------
// The settings
// ---------------------------------------------------------------------------

/// The settings a fresh install starts from, and the source of keys that an
/// older settings file lacks.
pub const INITIAL_INI: &'static str = "[General]
save_path=
theme=Dark
typoi=video
output=title
thubnails=false
metadata=false
check_updates=true
max_jobs=3

[Typoi]
video=
mp3=--extract-audio --audio-format mp3 --audio-quality 0
both=--extract-audio --audio-format mp3 --audio-quality 0 --keep-video

[Output]
title=--output %(title)s.%(ext)s --ignore-errors --no-playlist
playlist=--output %(playlist_index)s-%(title)s.%(ext)s --ignore-errors --yes-playlist

[Tprocess]
starting=#97f5f5
running=#ffbb6c
finished=#7be263
error=#ff6c6c
stopped=#ae90ff
";

/// Copy in the keys the bundled defaults have and `ini` does not. An
/// installed copy keeps its own settings file forever, so without this a
/// preset added later would never reach anyone who already ran the app.
pub fn add_new_defaults(ini: &mut Ini)
    ensures
        match parsed_ini(INITIAL_INI@) {
            Some(d) => ini_sections(*final(ini)) == fill(ini_sections(*old(ini)), all_settings(d)),
            None => ini_sections(*final(ini)) == ini_sections(*old(ini)),
        },
{
    match ini_parse(INITIAL_INI) {
        Some(defaults) => fill_from(ini, &defaults),
        None => {},
    }
}

/// A text without the byte order mark it may start with.
pub open spec fn without_bom(t: Seq<char>) -> Seq<char> {
    if t.len() > 0 && t[0] == '\u{feff}' {
        t.drop_first()
    } else {
        t
    }
}

/// Settings: where they are stored, the downloader found, and the values.
pub struct Config {
    path: String,
    dl_exe: Option<String>,
    ini: Ini,
}

/// What a `Config` holds, as plain values.
pub struct ConfigView {
    pub path: Seq<char>,
    pub dl_exe: Option<Seq<char>>,
    pub settings: Seq<SectionModel>,
}

impl View for Config {
    type V = ConfigView;

    closed spec fn view(&self) -> ConfigView {
        ConfigView {
            path: self.path@,
            dl_exe: match self.dl_exe {
                Some(p) => Some(p@),
                None => None,
            },
            settings: ini_sections(self.ini),
        }
    }
}

/// `get` as text: the value, or empty when the key is missing.
pub open spec fn value_or_empty(m: Seq<SectionModel>, section: Seq<char>, key: Seq<char>) -> Seq<char> {
    match model_get(m, Some(section), key) {
        Some(v) => v,
        None => Seq::empty(),
    }
}

/// `#rrggbb` -> its value, as `u32::from_str_radix(_, 16)` reads the text.
pub open spec fn hex_digit_value(c: char) -> Option<nat> {
    if '0' <= c && c <= '9' {
        Some((c as nat - '0' as nat) as nat)
    } else if 'a' <= c && c <= 'f' {
        Some((c as nat - 'a' as nat + 10) as nat)
    } else if 'A' <= c && c <= 'F' {
        Some((c as nat - 'A' as nat + 10) as nat)
    } else {
        None
    }
}

pub open spec fn hex_value(s: Seq<char>) -> Option<nat>
    decreases s.len(),
{
    if s.len() == 0 {
        Some(0)
    } else {
        match (hex_value(s.drop_last()), hex_digit_value(s.last())) {
            (Some(a), Some(d)) => Some(a * 16 + d),
            _ => None,
        }
    }
}

/// `u32::from_str_radix(s, 16)`: an optional `+`, then one or more hex
/// digits whose value fits.
pub open spec fn spec_parse_hex(s: Seq<char>) -> Option<u32> {
    let t = if s.len() > 0 && s[0] == '+' {
        s.drop_first()
    } else {
        s
    };
    if t.len() == 0 {
        None
    } else {
        match hex_value(t) {
            Some(n) => if n <= u32::MAX {
                Some(n as u32)
            } else {
                None
            },
            None => None,
        }
    }
}

/// The colour `[Tprocess] key` holds: `#rrggbb` as red, green and blue bytes,
/// black when the key is missing or does not read as hex.
pub open spec fn spec_color(m: Seq<SectionModel>, key: Seq<char>) -> [u8; 3] {
    let hex = trim_char_start(trim(value_or_empty(m, "Tprocess"@, key)), '#');
    let n: u32 = match spec_parse_hex(hex) {
        Some(n) => n,
        None => 0,
    };
    [((n / 0x10000) % 0x100) as u8, ((n / 0x100) % 0x100) as u8, (n % 0x100) as u8]
}

/// The byte two hex digits spell, high digit first.
pub open spec fn hex_byte(hi: char, lo: char) -> u8 {
    (hex_digit_value(hi).unwrap() * 16 + hex_digit_value(lo).unwrap()) as u8
}

proof fn lemma_bytes_of(a: nat, b: nat, c: nat, n: nat)
    by (nonlinear_arith)
    requires
        a < 256,
        b < 256,
        c < 256,
        n == a * 65536 + b * 256 + c,
    ensures
        (n / 0x10000) % 0x100 == a,
        (n / 0x100) % 0x100 == b,
        n % 0x100 == c,
{
}

/// A `[Tprocess]` value that reads `#rrggbb` (six hex digits, either case,
/// whitespace around it) is that colour, byte by byte; a missing key is black.
pub proof fn law_color_reads_rrggbb(m: Seq<SectionModel>, key: Seq<char>, d: Seq<char>)
    requires
        d.len() == 6,
        forall|i: int| 0 <= i < 6 ==> (#[trigger] hex_digit_value(d[i])) is Some,
        trim(value_or_empty(m, "Tprocess"@, key)) == seq!['#'] + d,
    ensures
        spec_color(m, key) == [hex_byte(d[0], d[1]), hex_byte(d[2], d[3]), hex_byte(d[4], d[5])],
{
    let t = seq!['#'] + d;
    assert(t.drop_first() =~= d);
    assert(hex_digit_value(d[0]) is Some);
    assert(d[0] != '#');
    assert(trim_char_start(d, '#') == d);
    assert(trim_char_start(t, '#') == d);
    assert(d[0] != '+');
    let v = |i: int| hex_digit_value(d[i]).unwrap();
    assert(hex_digit_value(d[1]) is Some && hex_digit_value(d[2]) is Some && hex_digit_value(d[3]) is Some);
    assert(hex_digit_value(d[4]) is Some && hex_digit_value(d[5]) is Some);
    assert(v(0) < 16 && v(1) < 16 && v(2) < 16 && v(3) < 16 && v(4) < 16 && v(5) < 16);
    assert(d.take(0) =~= Seq::<char>::empty());
    assert(d.take(1).drop_last() =~= d.take(0));
    assert(d.take(2).drop_last() =~= d.take(1));
    assert(d.take(3).drop_last() =~= d.take(2));
    assert(d.take(4).drop_last() =~= d.take(3));
    assert(d.take(5).drop_last() =~= d.take(4));
    assert(d.take(6).drop_last() =~= d.take(5));
    assert(d.take(6) =~= d);
    assert(hex_value(d.take(0)) == Some(0nat));
    assert(d.take(1).last() == d[0] && d.take(2).last() == d[1] && d.take(3).last() == d[2]);
    assert(d.take(4).last() == d[3] && d.take(5).last() == d[4] && d.take(6).last() == d[5]);
    assert(hex_value(d.take(1)) == Some(v(0)));
    assert(hex_value(d.take(2)) == Some(v(0) * 16 + v(1)));
    assert(hex_value(d.take(3)) == Some((v(0) * 16 + v(1)) * 16 + v(2)));
    assert(hex_value(d.take(4)) == Some(((v(0) * 16 + v(1)) * 16 + v(2)) * 16 + v(3)));
    assert(hex_value(d.take(5)) == Some((((v(0) * 16 + v(1)) * 16 + v(2)) * 16 + v(3)) * 16 + v(4)));
    let n = ((((v(0) * 16 + v(1)) * 16 + v(2)) * 16 + v(3)) * 16 + v(4)) * 16 + v(5);
    assert(hex_value(d) == Some(n));
    let a = v(0) * 16 + v(1);
    let b = v(2) * 16 + v(3);
    let c = v(4) * 16 + v(5);
    assert(n == a * 65536 + b * 256 + c);
    assert(n <= u32::MAX);
    lemma_bytes_of(a, b, c, n);
}

/// A key `[Tprocess]` does not hold is black.
pub proof fn law_missing_color_is_black(m: Seq<SectionModel>, key: Seq<char>)
    requires
        model_get(m, Some("Tprocess"@), key) is None,
    ensures
        spec_color(m, key) == [0u8, 0u8, 0u8],
{
    let e = Seq::<char>::empty();
    assert(trim(e) == e);
}

proof fn lemma_hex_grows(t: Seq<char>, k: int)
    requires
        0 <= k <= t.len(),
        hex_value(t) is Some,
    ensures
        hex_value(t.take(k)) is Some,
        hex_value(t).unwrap() >= hex_value(t.take(k)).unwrap(),
    decreases t.len(),
{
    if k < t.len() {
        assert(t.drop_last().take(k) =~= t.take(k));
        lemma_hex_grows(t.drop_last(), k);
    } else {
        assert(t.take(k) =~= t);
    }
}

proof fn lemma_hex_fails(t: Seq<char>, k: int)
    requires
        0 <= k <= t.len(),
        hex_value(t.take(k)) is None,
    ensures
        hex_value(t) is None,
    decreases t.len(),
{
    if k < t.len() {
        assert(t.drop_last().take(k) =~= t.take(k));
        lemma_hex_fails(t.drop_last(), k);
    } else {
        assert(t.take(k) =~= t);
    }
}

fn hex_digit(c: char) -> (r: Option<u32>)
    ensures
        match r {
            Some(d) => hex_digit_value(c) == Some(d as nat) && d < 16,
            None => hex_digit_value(c) is None,
        },
{
    if '0' <= c && c <= '9' {
        Some(c as u32 - '0' as u32)
    } else if 'a' <= c && c <= 'f' {
        Some(c as u32 - 'a' as u32 + 10)
    } else if 'A' <= c && c <= 'F' {
        Some(c as u32 - 'A' as u32 + 10)
    } else {
        None
    }
}

/// `u32::from_str_radix(v[lo..hi], 16)`, the error dropped.
pub fn parse_hex_at(v: &Vec<char>, lo: usize, hi: usize) -> (r: Option<u32>)
    requires
        lo <= hi <= v@.len(),
    ensures
        r == spec_parse_hex(v@.subrange(lo as int, hi as int)),
{
    let ghost s = v@.subrange(lo as int, hi as int);
    let mut i = lo;
    if i < hi && v[i] == '+' {
        i = i + 1;
    }
    let start = i;
    let ghost t = v@.subrange(start as int, hi as int);
    assert(t =~= (if s.len() > 0 && s[0] == '+' {
        s.drop_first()
    } else {
        s
    }));
    if start == hi {
        return None;
    }
    let mut acc: u64 = 0;
    assert(v@.subrange(start as int, start as int) =~= Seq::<char>::empty());
    while i < hi
        invariant
            lo <= start <= i <= hi <= v@.len(),
            start < hi,
            s == v@.subrange(lo as int, hi as int),
            t == v@.subrange(start as int, hi as int),
            t == (if s.len() > 0 && s[0] == '+' {
                s.drop_first()
            } else {
                s
            }),
            hex_value(v@.subrange(start as int, i as int)) == Some(acc as nat),
            acc <= u32::MAX,
        decreases hi - i,
    {
        assert(v@.subrange(start as int, i + 1).drop_last() =~= v@.subrange(start as int, i as int));
        assert(t.take(i + 1 - start) =~= v@.subrange(start as int, i + 1));
        match hex_digit(v[i]) {
            None => {
                proof {
                    lemma_hex_fails(t, i + 1 - start);
                }
                return None;
            },
            Some(d) => {
                acc = acc * 16 + d as u64;
                if acc > 0xffff_ffff {
                    proof {
                        if hex_value(t) is Some {
                            lemma_hex_grows(t, i + 1 - start);
                        }
                    }
                    return None;
                }
            },
        }
        i = i + 1;
    }
    assert(v@.subrange(start as int, hi as int) =~= t);
    Some(acc as u32)
}

pub open spec fn entry_view(e: (String, Vec<String>)) -> (Seq<char>, Seq<Seq<char>>) {
    (e.0@, string_views(e.1@))
}

pub open spec fn pair_words(q: (Seq<char>, Seq<char>)) -> (Seq<char>, Seq<Seq<char>>) {
    (q.0, words(q.1))
}

/// The pairs of a section as key and whitespace-separated words.
pub open spec fn spec_args_map(m: Seq<SectionModel>, section: Seq<char>) -> Seq<(Seq<char>, Seq<Seq<char>>)> {
    let i = first_section(m, Some(section));
    if i < 0 {
        Seq::empty()
    } else {
        m[i].1.map_values(|p: (Seq<char>, Seq<char>)| (p.0, words(p.1)))
    }
}

/// The words of `s`, each copied.
pub fn split_whitespace(s: &str) -> (r: Vec<String>)
    ensures
        string_views(r@) == words(s@),
{
    let v = chars_of(s);
    assert(v@.subrange(0, v@.len() as int) =~= v@);
    let ranges = split_at_sep(&v, 0, v.len(), &Sep::Space);
    let ghost pieces = split_by(s@, sep_pred(Sep::Space));
    let mut out: Vec<String> = Vec::new();
    let mut k: usize = 0;
    assert(pieces.take(0) =~= Seq::<Seq<char>>::empty());
    while k < ranges.len()
        invariant
            v@ == s@,
            k <= ranges@.len(),
            cut(v@, ranges@) == pieces,
            pieces == split_by(s@, sep_pred(Sep::Space)),
            forall|j: int| 0 <= j < ranges@.len() ==> 0 <= (#[trigger] ranges@[j]).0 <= ranges@[j].1 <= v@.len(),
            string_views(out@) == nonempty(pieces.take(k as int)),
        decreases ranges@.len() - k,
    {
        let (a, b) = ranges[k];
        assert(cut(v@, ranges@)[k as int] == v@.subrange(a as int, b as int));
        assert(pieces.take(k + 1).drop_last() =~= pieces.take(k as int));
        if b > a {
            let ghost before = out@;
            out.push(String::from_str(s.substring_char(a, b)));
            assert(string_views(out@) =~= string_views(before).push(v@.subrange(a as int, b as int)));
        }
        k = k + 1;
    }
    assert(pieces.take(ranges@.len() as int) =~= pieces);
    out
}

impl Config {
    /// Settings read from `path` (or the defaults, when that could not be
    /// read), brought up to date with the bundled defaults.
    pub fn new(path: String, dl_exe: Option<String>, ini: Ini) -> (c: Config)
        ensures
            c@.path == path@,
            c@.dl_exe == match dl_exe {
                Some(p) => Some(p@),
                None => None,
            },
            match parsed_ini(INITIAL_INI@) {
                Some(d) => c@.settings == fill(ini_sections(ini), all_settings(d)),
                None => c@.settings == ini_sections(ini),
            },
    {
        let mut ini = ini;
        add_new_defaults(&mut ini);
        Config { path, dl_exe, ini }
    }

    /// The settings from the text of the file at `path` (None when it could not
    /// be read), less a leading byte order mark, brought up to date with the
    /// bundled defaults; the defaults alone when there is no text or it is not
    /// valid ini. None only when the bundled defaults themselves are not
    /// valid ini.
    pub fn load(path: String, dl_exe: Option<String>, text: Option<&str>) -> (c: Option<Config>)
        ensures
            match c {
                Some(c) => {
                    &&& c@.path == path@
                    &&& c@.dl_exe == match dl_exe {
                        Some(p) => Some(p@),
                        None => None,
                    }
                },
                None => true,
            },
            match (match text {
                Some(t) => parsed_ini(without_bom(t@)),
                None => None,
            }) {
                Some(s) => c matches Some(c) && c@.settings == match parsed_ini(INITIAL_INI@) {
                    Some(d) => fill(s, all_settings(d)),
                    None => s,
                },
                None => match parsed_ini(INITIAL_INI@) {
                    Some(d) => c matches Some(c) && c@.settings == fill(d, all_settings(d)),
                    None => c is None,
                },
            },
    {
        let read = match text {
            Some(t) => {
                let n = t.unicode_len();
                let body = if n > 0 && t.get_char(0) == '\u{feff}' {
                    t.substring_char(1, n)
                } else {
                    t
                };
                assert(body@ == without_bom(t@));
                ini_parse(body)
            },
            None => None,
        };
        match read {
            Some(ini) => Some(Config::new(path, dl_exe, ini)),
            None => match ini_parse(INITIAL_INI) {
                Some(d) => Some(Config::new(path, dl_exe, d)),
                None => None,
            },
        }
    }

    /// The contents, for saving.
    pub fn ini(&self) -> (r: &Ini)
        ensures
            ini_sections(*r) == self@.settings,
    {
        &self.ini
    }

    /// Where the settings are stored.
    pub fn path(&self) -> (r: &str)
        ensures
            r@ == self@.path,
    {
        self.path.as_str()
    }

    /// The downloader, when one was found.
    pub fn dl_exe(&self) -> (r: Option<&str>)
        ensures
            opt_view(r) == self@.dl_exe,
    {
        match &self.dl_exe {
            Some(p) => Some(p.as_str()),
            None => None,
        }
    }

    /// Record where the downloader is now (it may just have been installed).
    pub fn set_dl_exe(&mut self, dl_exe: Option<String>)
        ensures
            final(self)@ == (ConfigView {
                dl_exe: match dl_exe {
                    Some(p) => Some(p@),
                    None => None,
                },
                ..old(self)@
            }),
    {
        self.dl_exe = dl_exe;
    }

    /// `[section] key`, or empty when missing.
    pub fn get(&self, section: &str, key: &str) -> (r: String)
        ensures
            r@ == value_or_empty(self@.settings, section@, key@),
    {
        match ini_section(&self.ini, Some(section)) {
            None => String::new(),
            Some(p) => match props_get(p, key) {
                Some(v) => String::from_str(v),
                None => String::new(),
            },
        }
    }

    /// `[section] key` reads `true`.
    pub fn get_bool(&self, section: &str, key: &str) -> (r: bool)
        ensures
            r == (value_or_empty(self@.settings, section@, key@) == "true"@),
    {
        let v = self.get(section, key);
        let t = String::from_str("true");
        v == t
    }

    pub fn set(&mut self, section: &str, key: &str, value: &str)
        ensures
            final(self)@ == (ConfigView {
                settings: model_set(old(self)@.settings, Some(section@), key@, value@),
                ..old(self)@
            }),
    {
        ini_set(&mut self.ini, Some(section), key, value);
    }

    pub fn set_bool(&mut self, section: &str, key: &str, value: bool)
        ensures
            final(self)@ == (ConfigView {
                settings: model_set(
                    old(self)@.settings,
                    Some(section@),
                    key@,
                    if value {
                        "true"@
                    } else {
                        "false"@
                    },
                ),
                ..old(self)@
            }),
    {
        self.set(section, key, if value { "true" } else { "false" });
    }

    /// A section as (key, whitespace-separated words) pairs, in file order;
    /// the order drives the preset lists.
    pub fn args_map(&self, section: &str) -> (r: Vec<(String, Vec<String>)>)
        ensures
            r@.map_values(|e: (String, Vec<String>)| (e.0@, string_views(e.1@))) == spec_args_map(
                self@.settings,
                section@,
            ),
    {
        let mut out: Vec<(String, Vec<String>)> = Vec::new();
        let p = match ini_section(&self.ini, Some(section)) {
            None => {
                assert(out@.map_values(|e: (String, Vec<String>)| (e.0@, string_views(e.1@)))
                    =~= Seq::<(Seq<char>, Seq<Seq<char>>)>::empty());
                return out;
            },
            Some(p) => p,
        };
        let pairs = props_entries(p);
        let ghost ps = props_pairs(*p);
        let mut k: usize = 0;
        assert(out@.map_values(|e: (String, Vec<String>)| entry_view(e)) =~= ps.take(0).map_values(
            |q: (Seq<char>, Seq<char>)| pair_words(q),
        ));
        while k < pairs.len()
            invariant
                k <= pairs@.len(),
                pairs@.map_values(|e: (String, String)| (e.0@, e.1@)) == ps,
                out@.map_values(|e: (String, Vec<String>)| entry_view(e)) == ps.take(k as int).map_values(
                    |q: (Seq<char>, Seq<char>)| pair_words(q),
                ),
            decreases pairs@.len() - k,
        {
            assert(ps[k as int] == (pairs@[k as int].0@, pairs@[k as int].1@));
            let key = String::from_str(pairs[k].0.as_str());
            let ws = split_whitespace(pairs[k].1.as_str());
            let ghost item = (key, ws);
            assert(entry_view(item) == pair_words(ps[k as int]));
            let ghost before = out@;
            out.push((key, ws));
            assert(out@ == before.push(item));
            assert(ps.take(k + 1) =~= ps.take(k as int).push(ps[k as int]));
            assert(out@.map_values(|e: (String, Vec<String>)| entry_view(e)) =~= before.map_values(
                |e: (String, Vec<String>)| entry_view(e),
            ).push(entry_view(item)));
            assert(ps.take(k + 1).map_values(|q: (Seq<char>, Seq<char>)| pair_words(q)) =~= ps.take(
                k as int,
            ).map_values(|q: (Seq<char>, Seq<char>)| pair_words(q)).push(pair_words(ps[k as int])));
            k = k + 1;
        }
        assert(ps.take(pairs@.len() as int) =~= ps);
        assert(out@.map_values(|e: (String, Vec<String>)| entry_view(e)) =~= out@.map_values(
            |e: (String, Vec<String>)| (e.0@, string_views(e.1@)),
        ));
        assert(ps.map_values(|q: (Seq<char>, Seq<char>)| pair_words(q)) =~= ps.map_values(
            |p: (Seq<char>, Seq<char>)| (p.0, words(p.1)),
        ));
        out
    }

    /// `#rrggbb` from `[Tprocess]` as red, green and blue; black when missing.
    pub fn color(&self, key: &str) -> (r: [u8; 3])
        ensures
            r == spec_color(self@.settings, key@),
    {
        let v = self.get("Tprocess", key);
        let s = v.as_str();
        let c = chars_of(s);
        assert(c@.subrange(0, c@.len() as int) =~= c@);
        let (a, b) = trim_at(&c, 0, c.len());
        let h = trim_char_start_at(&c, a, b, '#');
        let n: u32 = match parse_hex_at(&c, h, b) {
            Some(n) => n,
            None => 0,
        };
        [((n / 0x10000) % 0x100) as u8, ((n / 0x100) % 0x100) as u8, (n % 0x100) as u8]
    }
}

// ---------------------------------------------------------------------------
// Finding files
// ---------------------------------------------------------------------------

/// Search `dirs` directories, in order, for the first of `names` names that
/// `is_file(dir, name)` says exists there: the first directory with any of
/// them wins, and within it the first name. The indices of what was found;
/// None when nothing was.
pub fn find<F: Fn(usize, usize) -> bool>(dirs: usize, names: usize, is_file: F) -> (r: Option<(usize, usize)>)
    requires
        forall|d: usize, n: usize| d < dirs && n < names ==> is_file.requires((d, n)),
    ensures
        match r {
            Some((d, n)) => {
                &&& d < dirs && n < names
                &&& is_file.ensures((d, n), true)
                &&& forall|d2: usize, n2: usize|
                    n2 < names && (d2 < d || (d2 == d && n2 < n)) ==> is_file.ensures((d2, n2), false)
            },
            None => forall|d2: usize, n2: usize| d2 < dirs && n2 < names ==> is_file.ensures((d2, n2), false),
        },
{
    let mut d: usize = 0;
    while d < dirs
        invariant
            d <= dirs,
            forall|d: usize, n: usize| d < dirs && n < names ==> is_file.requires((d, n)),
            forall|d2: usize, n2: usize| d2 < d && n2 < names ==> is_file.ensures((d2, n2), false),
        decreases dirs - d,
    {
        let mut n: usize = 0;
        while n < names
            invariant
                d < dirs,
                n <= names,
                forall|d: usize, n: usize| d < dirs && n < names ==> is_file.requires((d, n)),
                forall|d2: usize, n2: usize|
                    n2 < names && (d2 < d || (d2 == d && n2 < n)) ==> is_file.ensures((d2, n2), false),
            decreases names - n,
        {
            let found = is_file(d, n);
            if found {
                return Some((d, n));
            }
            n = n + 1;
        }
        d = d + 1;
    }
    None
}

} // verus!
