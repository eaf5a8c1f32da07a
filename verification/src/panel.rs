//! The download panel's decisions: the arguments a download runs with, the
//! checks before it starts, the queue of jobs the URL box becomes, what the
//! status bar says, and where the window goes back to on the next start.
//! Drawing it, and the processes, are the caller's.

use vstd::prelude::*;
use crate::config::{law_get_after_set, model_set, spec_args_map, value_or_empty, Config, ConfigView};
use crate::job::{is_fresh, Job, JobView, Spec, State};
use crate::num::{
    all_digits, dec, dec_int, format_i64, format_u64, law_i32_round_trip, lemma_dec, parse_i32_at,
    parse_usize_at, spec_parse_i32, spec_parse_usize,
};
use crate::text::{
    chars_of, cut, eq_char, is_digit, is_ws, nonempty, sep_pred, split_at_sep, split_by, string_views,
    trim, trim_at, Sep,
};
use crate::theme::{theme_index, theme_name, Palette};

verus! {

// ---------------------------------------------------------------------------
// The window's place
// ---------------------------------------------------------------------------

/// `[General] window` as `x,y,w,h`: four comma-separated integers, each
/// read as `i32::from_str` reads it once trimmed.
pub open spec fn spec_window(text: Seq<char>) -> Option<Seq<i32>> {
    let ps = split_by(text, eq_char(','));
    if ps.len() == 4 && (forall|i: int| 0 <= i < 4 ==> (#[trigger] spec_parse_i32(trim(ps[i]))) is Some) {
        Some(Seq::new(4, |i: int| spec_parse_i32(trim(ps[i]))->0))
    } else {
        None
    }
}

/// Where the window last was, in physical pixels.
pub fn saved_window(cfg: &Config) -> (r: Option<[i32; 4]>)
    ensures
        match r {
            Some(a) => spec_window(value_or_empty(cfg@.settings, "General"@, "window"@)) == Some(a@),
            None => spec_window(value_or_empty(cfg@.settings, "General"@, "window"@)) is None,
        },
{
    let text = cfg.get("General", "window");
    let v = chars_of(text.as_str());
    assert(v@.subrange(0, v@.len() as int) =~= v@);
    let ranges = split_at_sep(&v, 0, v.len(), &Sep::Char(','));
    let ghost ps = split_by(v@, eq_char(','));
    assert(sep_pred(Sep::Char(',')) == eq_char(','));
    assert(cut(v@, ranges@) == ps);
    if ranges.len() != 4 {
        return None;
    }
    let mut vals: [i32; 4] = [0, 0, 0, 0];
    let mut k: usize = 0;
    while k < 4
        invariant
            k <= 4,
            ranges@.len() == 4,
            cut(v@, ranges@) == ps,
            ps == split_by(v@, eq_char(',')),
            v@ == value_or_empty(cfg@.settings, "General"@, "window"@),
            ps.len() == 4,
            forall|j: int| 0 <= j < 4 ==> 0 <= (#[trigger] ranges@[j]).0 <= ranges@[j].1 <= v@.len(),
            forall|j: int| 0 <= j < k ==> (#[trigger] spec_parse_i32(trim(ps[j]))) == Some(vals@[j]),
        decreases 4 - k,
    {
        let (lo, hi) = ranges[k];
        assert(ps[k as int] == v@.subrange(lo as int, hi as int));
        let (a, b) = trim_at(&v, lo, hi);
        match parse_i32_at(&v, a, b) {
            Some(n) => {
                vals.set(k, n);
            },
            None => {
                assert(spec_parse_i32(trim(ps[k as int])) is None);
                return None;
            },
        }
        k = k + 1;
    }
    let ghost s = Seq::new(4, |i: int| spec_parse_i32(trim(ps[i]))->0);
    assert(vals@ =~= s);
    Some(vals)
}

/// The text `remember_window` writes: `x,y,w,h`.
pub open spec fn window_text(x: i32, y: i32, w: u32, h: u32) -> Seq<char> {
    dec_int(x as int) + seq![','] + dec_int(y as int) + seq![','] + dec(w as nat) + seq![','] + dec(h as nat)
}

/// Keep the window's place for the next start. Not while maximized or
/// minimized: that is no place to come back to, and a minimized window
/// reports -32000,-32000. Nothing either when its position is unknown.
pub fn remember_window(
    cfg: &mut Config,
    maximized: bool,
    minimized: Option<bool>,
    position: Option<(i32, i32)>,
    size: (u32, u32),
)
    ensures
        if maximized || minimized == Some(true) || position is None {
            final(cfg)@ == old(cfg)@
        } else {
            final(cfg)@ == (ConfigView {
                settings: model_set(
                    old(cfg)@.settings,
                    Some("General"@),
                    "window"@,
                    window_text(position.unwrap().0, position.unwrap().1, size.0, size.1),
                ),
                ..old(cfg)@
            })
        },
{
    if maximized || minimized == Some(true) {
        return;
    }
    let (x, y) = match position {
        Some(p) => p,
        None => {
            return;
        },
    };
    let mut t = format_i64(x as i64);
    t.append(",");
    let ys = format_i64(y as i64);
    t.append(ys.as_str());
    t.append(",");
    let ws = format_u64(size.0 as u64);
    t.append(ws.as_str());
    t.append(",");
    let hs = format_u64(size.1 as u64);
    t.append(hs.as_str());
    proof {
        reveal_strlit(",");
        assert(","@ =~= seq![',']);
    }
    cfg.set("General", "window", t.as_str());
}

/// A monitor: its top-left corner and its size, in physical pixels.
pub type Monitor = ((i32, i32), (u32, u32));

/// Does monitor `m` hold the point (`px`, `py`)?
pub open spec fn monitor_holds(m: Monitor, px: int, py: int) -> bool {
    &&& m.0.0 <= px < m.0.0 + m.1.0
    &&& m.0.1 <= py < m.0.1 + m.1.1
}

/// A saved place is worth restoring when a spot near the left end of its
/// title bar (60 pixels in, 20 down) is on some monitor: one unplugged since
/// must not leave the window off-screen.
pub open spec fn spec_restorable(x: i32, y: i32, monitors: Seq<Monitor>) -> bool {
    exists|i: int| 0 <= i < monitors.len() && monitor_holds(#[trigger] monitors[i], x + 60, y + 20)
}

pub fn restorable(x: i32, y: i32, monitors: &Vec<Monitor>) -> (r: bool)
    requires
        x + 60 <= i32::MAX,
        y + 20 <= i32::MAX,
        forall|i: int|
            0 <= i < monitors@.len() ==> {
                let m = #[trigger] monitors@[i];
                &&& m.1.0 <= i32::MAX && m.0.0 + m.1.0 <= i32::MAX
                &&& m.1.1 <= i32::MAX && m.0.1 + m.1.1 <= i32::MAX
            },
    ensures
        r == spec_restorable(x, y, monitors@),
{
    let px = x + 60;
    let py = y + 20;
    let mut i: usize = 0;
    while i < monitors.len()
        invariant
            i <= monitors@.len(),
            px == x + 60,
            py == y + 20,
            forall|k: int|
                0 <= k < monitors@.len() ==> {
                    let m = #[trigger] monitors@[k];
                    &&& m.1.0 <= i32::MAX && m.0.0 + m.1.0 <= i32::MAX
                    &&& m.1.1 <= i32::MAX && m.0.1 + m.1.1 <= i32::MAX
                },
            forall|k: int| 0 <= k < i ==> !monitor_holds(#[trigger] monitors@[k], x + 60, y + 20),
        decreases monitors@.len() - i,
    {
        let ((mx, my), (w, h)) = monitors[i];
        assert(monitors@[i as int] == ((mx, my), (w, h)));
        let right = mx + w as i32;
        let bottom = my + h as i32;
        if mx <= px && px < right && my <= py && py < bottom {
            assert(monitor_holds(monitors@[i as int], x + 60, y + 20));
            return true;
        }
        i = i + 1;
    }
    false
}

/// `s` has no `,` in it.
pub open spec fn comma_free(s: Seq<char>) -> bool {
    forall|i: int| 0 <= i < s.len() ==> s[i] != ','
}

proof fn lemma_split_no_sep(t: Seq<char>)
    requires
        comma_free(t),
    ensures
        split_by(t, eq_char(',')) == seq![t],
    decreases t.len(),
{
    if t.len() > 0 {
        assert(comma_free(t.drop_last()));
        lemma_split_no_sep(t.drop_last());
        assert(t.drop_last().push(t.last()) =~= t);
        assert(seq![t.drop_last()].update(0, t.drop_last().push(t.last())) =~= seq![t]);
    } else {
        assert(t =~= Seq::<char>::empty());
    }
}

/// Splitting `s,t` where `t` has no comma: the pieces of `s`, then `t`.
proof fn lemma_split_then(s: Seq<char>, t: Seq<char>)
    requires
        comma_free(t),
    ensures
        split_by(s + seq![','] + t, eq_char(',')) == split_by(s, eq_char(',')).push(t),
    decreases t.len(),
{
    let st = s + seq![','] + t;
    if t.len() == 0 {
        assert(t =~= Seq::<char>::empty());
        assert(st.drop_last() =~= s);
        assert(st.last() == ',');
    } else {
        assert(comma_free(t.drop_last()));
        lemma_split_then(s, t.drop_last());
        assert(st.drop_last() =~= s + seq![','] + t.drop_last());
        assert(st.last() == t.last());
        assert(t.drop_last().push(t.last()) =~= t);
        let r = split_by(s, eq_char(',')).push(t.drop_last());
        assert(r.update(r.len() - 1, r.last().push(t.last())) =~= split_by(s, eq_char(',')).push(t));
    }
}

proof fn lemma_number_text(n: int)
    requires
        i32::MIN <= n <= i32::MAX,
    ensures
        comma_free(dec_int(n)),
        trim(dec_int(n)) == dec_int(n),
        spec_parse_i32(dec_int(n)) == Some(n as i32),
{
    let s = dec_int(n);
    law_i32_round_trip(n as i32);
    if n < 0 {
        lemma_dec((-n) as nat);
    } else {
        lemma_dec(n as nat);
    }
    let d = if n < 0 {
        dec((-n) as nat)
    } else {
        dec(n as nat)
    };
    assert(all_digits(d));
    assert forall|i: int| 0 <= i < s.len() implies s[i] != ',' by {
        if n < 0 && i > 0 {
            assert(s[i] == d[i - 1]);
        }
    }
    assert(s.len() > 0);
    assert(!is_ws(s.last())) by {
        assert(s.last() == d.last());
        assert(is_digit(d[d.len() - 1]));
    }
    assert(trim_end_same(s));
    assert(!is_ws(s[0])) by {
        if n >= 0 {
            assert(is_digit(d[0]));
        }
    }
}

spec fn trim_end_same(s: Seq<char>) -> bool {
    crate::text::trim_end(s) == s
}

/// What `remember_window` writes, `saved_window` reads back, for any place
/// whose size fits in an `i32`.
pub proof fn law_window_round_trip(x: i32, y: i32, w: u32, h: u32)
    requires
        w <= i32::MAX,
        h <= i32::MAX,
    ensures
        spec_window(window_text(x, y, w, h)) == Some(seq![x, y, w as i32, h as i32]),
{
    lemma_number_text(x as int);
    lemma_number_text(y as int);
    lemma_number_text(w as int);
    lemma_number_text(h as int);
    assert(dec_int(w as int) == dec(w as nat));
    assert(dec_int(h as int) == dec(h as nat));
    let (a, b, c, d) = (dec_int(x as int), dec_int(y as int), dec(w as nat), dec(h as nat));
    lemma_split_no_sep(a);
    lemma_split_then(a, b);
    lemma_split_then(a + seq![','] + b, c);
    lemma_split_then(a + seq![','] + b + seq![','] + c, d);
    let ps = split_by(window_text(x, y, w, h), eq_char(','));
    assert(ps =~= seq![a, b, c, d]);
    assert(spec_parse_i32(trim(ps[0])) == Some(x));
    assert(spec_parse_i32(trim(ps[1])) == Some(y));
    assert(spec_parse_i32(trim(ps[2])) == Some(w as i32));
    assert(spec_parse_i32(trim(ps[3])) == Some(h as i32));
    assert(Seq::new(4, |i: int| spec_parse_i32(trim(ps[i]))->0) =~= seq![x, y, w as i32, h as i32]);
}

/// After `remember_window` has recorded a place, `saved_window` gives it back.
pub proof fn law_remember_then_restore(
    before: ConfigView,
    after: ConfigView,
    x: i32,
    y: i32,
    w: u32,
    h: u32,
)
    requires
        w <= i32::MAX,
        h <= i32::MAX,
        after.settings == model_set(
            before.settings,
            Some("General"@),
            "window"@,
            window_text(x, y, w, h),
        ),
    ensures
        spec_window(value_or_empty(after.settings, "General"@, "window"@)) == Some(
            seq![x, y, w as i32, h as i32],
        ),
{
    law_get_after_set(before.settings, Some("General"@), "window"@, window_text(x, y, w, h), Some("General"@), "window"@);
    law_window_round_trip(x, y, w, h);
}

// ---------------------------------------------------------------------------
// The panel's settings and queue
// ---------------------------------------------------------------------------

/// The download panel: the presets and choices that shape a download, the
/// URL box, and the jobs it has queued.
pub struct Panel {
    /// Format presets (`[Typoi]`): name and yt-dlp arguments, in file order.
    pub typoi: Vec<(String, Vec<String>)>,
    /// File name presets (`[Output]`).
    pub output: Vec<(String, Vec<String>)>,
    pub sel_typoi: String,
    pub sel_output: String,
    pub thumbnails: bool,
    pub metadata: bool,
    pub save_path: String,
    pub urls: String,
    pub jobs: Vec<Job>,
    /// How many downloads may run at once; 0 is no limit.
    pub max_jobs: usize,
    /// A message for the user, shown until dismissed.
    pub message: Option<String>,
    /// The active theme's name.
    pub theme: String,
}

/// Presets as plain values.
pub open spec fn presets(list: Seq<(String, Vec<String>)>) -> Seq<(Seq<char>, Seq<Seq<char>>)> {
    list.map_values(|e: (String, Vec<String>)| (e.0@, string_views(e.1@)))
}

pub open spec fn job_names(jobs: Seq<Job>) -> Seq<Seq<char>> {
    jobs.map_values(|j: Job| j@.name)
}

/// `max_jobs` as the ini gives it, trimmed; 3 when it does not read as a
/// number.
pub open spec fn spec_max_jobs(text: Seq<char>) -> usize {
    match spec_parse_usize(trim(text)) {
        Some(n) => n,
        None => 3,
    }
}

impl Panel {
    /// The panel as the settings leave it. A save path that is no longer a
    /// directory (`save_path_is_dir` says whether it is) is cleared rather
    /// than shown.
    pub fn new(cfg: &Config, save_path_is_dir: bool) -> (p: Panel)
        ensures
            presets(p.typoi@) == spec_args_map(cfg@.settings, "Typoi"@),
            presets(p.output@) == spec_args_map(cfg@.settings, "Output"@),
            p.sel_typoi@ == value_or_empty(cfg@.settings, "General"@, "typoi"@),
            p.sel_output@ == value_or_empty(cfg@.settings, "General"@, "output"@),
            p.thumbnails == (value_or_empty(cfg@.settings, "General"@, "thubnails"@) == "true"@),
            p.metadata == (value_or_empty(cfg@.settings, "General"@, "metadata"@) == "true"@),
            p.save_path@ == if save_path_is_dir {
                value_or_empty(cfg@.settings, "General"@, "save_path"@)
            } else {
                Seq::empty()
            },
            p.urls@ == Seq::<char>::empty(),
            p.jobs@.len() == 0,
            p.max_jobs == spec_max_jobs(value_or_empty(cfg@.settings, "General"@, "max_jobs"@)),
            p.message is None,
            p.theme@ == theme_name(theme_index(value_or_empty(cfg@.settings, "General"@, "theme"@))),
    {
        let typoi = cfg.args_map("Typoi");
        let output = cfg.args_map("Output");
        let save_path = if save_path_is_dir {
            cfg.get("General", "save_path")
        } else {
            String::new()
        };
        let mj = cfg.get("General", "max_jobs");
        let v = chars_of(mj.as_str());
        assert(v@.subrange(0, v@.len() as int) =~= v@);
        let (a, b) = trim_at(&v, 0, v.len());
        let max_jobs = match parse_usize_at(&v, a, b) {
            Some(n) => n,
            None => 3,
        };
        let t = cfg.get("General", "theme");
        let theme = String::from_str(Palette::get(t.as_str()).name);
        assert(presets(typoi@) =~= typoi@.map_values(|e: (String, Vec<String>)| (e.0@, string_views(e.1@))));
        assert(presets(output@) =~= output@.map_values(|e: (String, Vec<String>)| (e.0@, string_views(e.1@))));
        Panel {
            typoi,
            output,
            sel_typoi: cfg.get("General", "typoi"),
            sel_output: cfg.get("General", "output"),
            thumbnails: cfg.get_bool("General", "thubnails"),
            metadata: cfg.get_bool("General", "metadata"),
            save_path,
            urls: String::new(),
            jobs: Vec::new(),
            max_jobs,
            message: None,
            theme,
        }
    }

    /// Write the choices back to the settings, for saving.
    pub fn save_settings(&self, cfg: &mut Config)
        ensures
            final(cfg)@ == (ConfigView {
                settings: model_set(
                    model_set(
                        model_set(
                            model_set(
                                model_set(
                                    model_set(
                                        old(cfg)@.settings,
                                        Some("General"@),
                                        "thubnails"@,
                                        bool_text(self.thumbnails),
                                    ),
                                    Some("General"@),
                                    "metadata"@,
                                    bool_text(self.metadata),
                                ),
                                Some("General"@),
                                "typoi"@,
                                self.sel_typoi@,
                            ),
                            Some("General"@),
                            "output"@,
                            self.sel_output@,
                        ),
                        Some("General"@),
                        "save_path"@,
                        self.save_path@,
                    ),
                    Some("General"@),
                    "theme"@,
                    self.theme@,
                ),
                ..old(cfg)@
            }),
    {
        cfg.set_bool("General", "thubnails", self.thumbnails);
        cfg.set_bool("General", "metadata", self.metadata);
        cfg.set("General", "typoi", self.sel_typoi.as_str());
        cfg.set("General", "output", self.sel_output.as_str());
        cfg.set("General", "save_path", self.save_path.as_str());
        cfg.set("General", "theme", self.theme.as_str());
    }
}

/// How a flag is written to the settings.
pub open spec fn bool_text(b: bool) -> Seq<char> {
    if b {
        "true"@
    } else {
        "false"@
    }
}

// ---------------------------------------------------------------------------
// The arguments a download runs with
// ---------------------------------------------------------------------------

/// The arguments of the first preset called `key`; none when there is no such
/// preset.
pub open spec fn spec_pick(list: Seq<(Seq<char>, Seq<Seq<char>>)>, key: Seq<char>) -> Seq<Seq<char>>
    decreases list.len(),
{
    if list.len() == 0 {
        Seq::empty()
    } else if list[0].0 == key {
        list[0].1
    } else {
        spec_pick(list.drop_first(), key)
    }
}

/// The file name preset's arguments, then the format preset's, then the
/// extras the two check boxes ask for.
pub open spec fn spec_parameters(
    output: Seq<(Seq<char>, Seq<Seq<char>>)>,
    sel_output: Seq<char>,
    typoi: Seq<(Seq<char>, Seq<Seq<char>>)>,
    sel_typoi: Seq<char>,
    thumbnails: bool,
    metadata: bool,
) -> Seq<Seq<char>> {
    spec_pick(output, sel_output) + spec_pick(typoi, sel_typoi) + (if thumbnails {
        seq!["--embed-thumbnail"@, "--postprocessor-args"@, "-id3v2_version 3"@]
    } else {
        Seq::empty()
    }) + (if metadata {
        seq!["--add-metadata"@]
    } else {
        Seq::empty()
    })
}

fn push_string(out: &mut Vec<String>, s: &str)
    ensures
        string_views(final(out)@) == string_views(old(out)@).push(s@),
{
    let ghost before = out@;
    out.push(String::from_str(s));
    assert(string_views(out@) =~= string_views(before).push(s@));
}

/// Append the arguments of the first preset called `key` to `out`.
fn pick_into(list: &Vec<(String, Vec<String>)>, key: &str, out: &mut Vec<String>)
    ensures
        string_views(final(out)@) == string_views(old(out)@) + spec_pick(presets(list@), key@),
{
    let ghost ps = presets(list@);
    let key_string = String::from_str(key);
    let mut i: usize = 0;
    assert(ps.skip(0) =~= ps);
    while i < list.len()
        invariant
            i <= list@.len(),
            ps == presets(list@),
            spec_pick(ps, key@) == spec_pick(ps.skip(i as int), key@),
            out@ == old(out)@,
            key_string@ == key@,
        decreases list@.len() - i,
    {
        assert(ps.skip(i as int)[0] == ps[i as int]);
        assert(ps[i as int] == (list@[i as int].0@, string_views(list@[i as int].1@)));
        if list[i].0 == key_string {
            let words = &list[i].1;
            let mut k: usize = 0;
            let ghost start = string_views(out@);
            while k < words.len()
                invariant
                    k <= words@.len(),
                    string_views(out@) == start + string_views(words@).take(k as int),
                decreases words@.len() - k,
            {
                push_string(out, words[k].as_str());
                assert(string_views(words@).take(k + 1) =~= string_views(words@).take(k as int).push(
                    words@[k as int]@,
                ));
                k = k + 1;
            }
            assert(string_views(words@).take(words@.len() as int) =~= string_views(words@));
            return ;
        }
        assert(ps.skip(i as int).drop_first() =~= ps.skip(i + 1));
        i = i + 1;
    }
    assert(ps.skip(i as int) =~= Seq::<(Seq<char>, Seq<Seq<char>>)>::empty());
    assert(string_views(out@) + Seq::<Seq<char>>::empty() =~= string_views(out@));
}

impl Panel {
    /// The arguments for a download in format `typoi`: the file name preset,
    /// the format preset, then thumbnail and metadata extras.
    pub fn parameters(&self, typoi: &str) -> (r: Vec<String>)
        ensures
            string_views(r@) == spec_parameters(
                presets(self.output@),
                self.sel_output@,
                presets(self.typoi@),
                typoi@,
                self.thumbnails,
                self.metadata,
            ),
    {
        let mut args: Vec<String> = Vec::new();
        assert(string_views(args@) =~= Seq::<Seq<char>>::empty());
        pick_into(&self.output, self.sel_output.as_str(), &mut args);
        pick_into(&self.typoi, typoi, &mut args);
        let ghost base = string_views(args@);
        if self.thumbnails {
            push_string(&mut args, "--embed-thumbnail");
            push_string(&mut args, "--postprocessor-args");
            push_string(&mut args, "-id3v2_version 3");
        }
        let ghost with_thumbs = string_views(args@);
        if self.metadata {
            push_string(&mut args, "--add-metadata");
        }
        assert(Seq::<Seq<char>>::empty() + spec_pick(presets(self.output@), self.sel_output@) =~= spec_pick(
            presets(self.output@),
            self.sel_output@,
        ));
        assert(with_thumbs =~= base + (if self.thumbnails {
            seq!["--embed-thumbnail"@, "--postprocessor-args"@, "-id3v2_version 3"@]
        } else {
            Seq::empty()
        }));
        assert(string_views(args@) =~= with_thumbs + (if self.metadata {
            seq!["--add-metadata"@]
        } else {
            Seq::empty()
        }));
        args
    }
}

// ---------------------------------------------------------------------------
// Starting downloads
// ---------------------------------------------------------------------------

/// Why a download cannot start, if it cannot: no yt-dlp, no save path, or a
/// save path that is not a directory (`dir_exists` says whether it is).
pub open spec fn spec_refusal(has_dl_exe: bool, save_path: Seq<char>, dir_exists: bool) -> Option<Seq<char>> {
    if !has_dl_exe {
        Some("yt-dlp.exe not found next to rficus.exe."@)
    } else if save_path.len() == 0 {
        Some("Save path not set."@)
    } else if !dir_exists {
        Some("Save path does not exist:\n"@ + save_path)
    } else {
        None
    }
}

/// The lines of `text`, trimmed, blank ones dropped: one URL each.
pub open spec fn url_lines(text: Seq<char>) -> Seq<Seq<char>> {
    nonempty(split_by(text, eq_char('\n')).map_values(|l: Seq<char>| trim(l)))
}

/// The job names after queueing `urls` behind `names`: a URL already there,
/// or seen earlier in the list, is skipped.
pub open spec fn queue_urls(names: Seq<Seq<char>>, urls: Seq<Seq<char>>) -> Seq<Seq<char>>
    decreases urls.len(),
{
    if urls.len() == 0 {
        names
    } else {
        let prev = queue_urls(names, urls.drop_last());
        if prev.contains(urls.last()) {
            prev
        } else {
            prev.push(urls.last())
        }
    }
}

/// A job just queued for `name`: yt-dlp at `exe` with `base` and then the URL,
/// run in `dir`.
pub open spec fn queued_job(j: JobView, name: Seq<char>, exe: Seq<char>, base: Seq<Seq<char>>, dir: Seq<char>) -> bool {
    &&& j.name == name
    &&& j.exe == exe
    &&& j.args == base.push(name)
    &&& j.cwd == Some(dir)
    &&& j.state == State::Queued
    &&& !j.running
    &&& is_fresh(j)
}

/// The lines of `text` as URLs.
pub fn urls_of(text: &str) -> (r: Vec<String>)
    ensures
        string_views(r@) == url_lines(text@),
{
    let v = chars_of(text);
    assert(v@.subrange(0, v@.len() as int) =~= v@);
    let ranges = split_at_sep(&v, 0, v.len(), &Sep::Char('\n'));
    assert(sep_pred(Sep::Char('\n')) == eq_char('\n'));
    let ghost lines = split_by(v@, eq_char('\n')).map_values(|l: Seq<char>| trim(l));
    let mut out: Vec<String> = Vec::new();
    let mut k: usize = 0;
    assert(string_views(out@) =~= nonempty(lines.take(0)));
    while k < ranges.len()
        invariant
            k <= ranges@.len(),
            cut(v@, ranges@) == split_by(v@, eq_char('\n')),
            lines == split_by(v@, eq_char('\n')).map_values(|l: Seq<char>| trim(l)),
            forall|j: int| 0 <= j < ranges@.len() ==> 0 <= (#[trigger] ranges@[j]).0 <= ranges@[j].1 <= v@.len(),
            v@ == text@,
            string_views(out@) == nonempty(lines.take(k as int)),
        decreases ranges@.len() - k,
    {
        let (lo, hi) = ranges[k];
        let (a, b) = trim_at(&v, lo, hi);
        assert(lines[k as int] == v@.subrange(a as int, b as int));
        assert(lines.take(k + 1).drop_last() =~= lines.take(k as int));
        if b > a {
            let ghost before = out@;
            out.push(String::from_str(text.substring_char(a, b)));
            assert(string_views(out@) =~= string_views(before).push(v@.subrange(a as int, b as int)));
        }
        k = k + 1;
    }
    assert(lines.take(ranges@.len() as int) =~= lines);
    out
}

impl Panel {
    /// Whether a download can start; when it cannot, the message says why.
    pub fn check_before_run(&mut self, has_dl_exe: bool, save_dir_exists: bool) -> (ok: bool)
        ensures
            ok == (spec_refusal(has_dl_exe, old(self).save_path@, save_dir_exists) is None),
            match spec_refusal(has_dl_exe, old(self).save_path@, save_dir_exists) {
                Some(m) => final(self).message matches Some(t) && t@ == m,
                None => final(self).message == old(self).message,
            },
            *final(self) == (Panel { message: final(self).message, ..*old(self) }),
    {
        if !has_dl_exe {
            self.message = Some(String::from_str("yt-dlp.exe not found next to rficus.exe."));
            return false;
        }
        if self.save_path.as_str().unicode_len() == 0 {
            self.message = Some(String::from_str("Save path not set."));
            return false;
        }
        if !save_dir_exists {
            let mut m = String::from_str("Save path does not exist:\n");
            m.append(self.save_path.as_str());
            self.message = Some(m);
            return false;
        }
        true
    }

    /// Queue a job for every URL in the box that is not already listed, in
    /// format `sel_typoi`, then empty the box. When the checks refuse, the
    /// message says why and nothing else changes.
    pub fn download(&mut self, dl_exe: Option<&str>, save_dir_exists: bool)
        ensures
            spec_refusal(dl_exe is Some, old(self).save_path@, save_dir_exists) is Some ==> {
                &&& final(self).jobs == old(self).jobs
                &&& final(self).urls == old(self).urls
                &&& final(self).message matches Some(t) && Some(t@) == spec_refusal(
                    dl_exe is Some,
                    old(self).save_path@,
                    save_dir_exists,
                )
            },
            spec_refusal(dl_exe is Some, old(self).save_path@, save_dir_exists) is None ==> {
                &&& job_names(final(self).jobs@) == queue_urls(job_names(old(self).jobs@), url_lines(old(self).urls@))
                &&& forall|i: int| 0 <= i < old(self).jobs@.len() ==> final(self).jobs@[i] == old(self).jobs@[i]
                &&& forall|i: int|
                    old(self).jobs@.len() <= i < final(self).jobs@.len() ==> queued_job(
                        (#[trigger] final(self).jobs@[i])@,
                        final(self).jobs@[i]@.name,
                        dl_exe.unwrap()@,
                        spec_parameters(
                            presets(old(self).output@),
                            old(self).sel_output@,
                            presets(old(self).typoi@),
                            old(self).sel_typoi@,
                            old(self).thumbnails,
                            old(self).metadata,
                        ),
                        old(self).save_path@,
                    )
                &&& final(self).urls@ == Seq::<char>::empty()
                &&& final(self).message == old(self).message
            },
            final(self).save_path == old(self).save_path,
            final(self).typoi == old(self).typoi,
            final(self).output == old(self).output,
            final(self).sel_typoi == old(self).sel_typoi,
            final(self).sel_output == old(self).sel_output,
            final(self).thumbnails == old(self).thumbnails,
            final(self).metadata == old(self).metadata,
            final(self).max_jobs == old(self).max_jobs,
            final(self).theme == old(self).theme,
    {
        if !self.check_before_run(dl_exe.is_some(), save_dir_exists) {
            return ;
        }
        let exe = dl_exe.unwrap();
        let base = self.parameters(self.sel_typoi.as_str());
        let ghost base_v = string_views(base@);
        let urls = urls_of(self.urls.as_str());
        let ghost old_jobs = self.jobs@;
        let ghost us = url_lines(self.urls@);
        let ghost s0 = *self;
        let mut k: usize = 0;
        while k < urls.len()
            invariant
                k <= urls@.len(),
                *self == (Panel { jobs: self.jobs, ..s0 }),
                string_views(urls@) == us,
                string_views(base@) == base_v,
                job_names(self.jobs@) == queue_urls(job_names(old_jobs), us.take(k as int)),
                old_jobs.len() <= self.jobs@.len(),
                forall|i: int| 0 <= i < old_jobs.len() ==> self.jobs@[i] == old_jobs[i],
                forall|i: int|
                    old_jobs.len() <= i < self.jobs@.len() ==> queued_job(
                        (#[trigger] self.jobs@[i])@,
                        self.jobs@[i]@.name,
                        exe@,
                        base_v,
                        self.save_path@,
                    ),
            decreases urls@.len() - k,
        {
            let url = &urls[k];
            assert(us.take(k + 1).drop_last() =~= us.take(k as int));
            assert(us.take(k + 1).last() == url@);
            let mut listed = false;
            let mut j: usize = 0;
            while j < self.jobs.len()
                invariant
                    j <= self.jobs@.len(),
                    listed == exists|i: int| 0 <= i < j && job_names(self.jobs@)[i] == url@,
                decreases self.jobs@.len() - j,
            {
                assert(job_names(self.jobs@)[j as int] == self.jobs@[j as int]@.name);
                if self.jobs[j].spec().name == *url {
                    listed = true;
                }
                j = j + 1;
            }
            proof {
                let ns = job_names(self.jobs@);
                if listed {
                    let i = choose|i: int| 0 <= i < self.jobs@.len() && ns[i] == url@;
                    assert(ns.contains(url@)) by {
                        assert(ns[i] == url@);
                    }
                } else {
                    assert(!ns.contains(url@));
                }
            }
            if !listed {
                let mut args: Vec<String> = Vec::new();
                let mut a: usize = 0;
                while a < base.len()
                    invariant
                        a <= base@.len(),
                        string_views(args@) == base_v.take(a as int),
                        string_views(base@) == base_v,
                    decreases base@.len() - a,
                {
                    let ghost before = args@;
                    args.push(base[a].clone());
                    assert(string_views(args@) =~= string_views(before).push(base@[a as int]@));
                    assert(base_v.take(a + 1) =~= base_v.take(a as int).push(base@[a as int]@));
                    a = a + 1;
                }
                assert(base_v.take(base@.len() as int) =~= base_v);
                let ghost before = args@;
                args.push(url.clone());
                assert(string_views(args@) =~= base_v.push(url@)) by {
                    assert(string_views(args@) =~= string_views(before).push(url@));
                }
                let job = Job::new(
                    Spec {
                        name: url.clone(),
                        exe: String::from_str(exe),
                        args,
                        cwd: Some(self.save_path.clone()),
                    },
                );
                let ghost before_jobs = self.jobs@;
                self.jobs.push(job);
                assert(job_names(self.jobs@) =~= job_names(before_jobs).push(url@));
            }
            k = k + 1;
        }
        assert(us.take(urls@.len() as int) =~= us);
        self.urls = String::new();
    }

    /// How many URLs the box holds.
    pub fn url_count(&self) -> (n: usize)
        ensures
            n == url_lines(self.urls@).len(),
    {
        urls_of(self.urls.as_str()).len()
    }
}

/// Queueing URLs never lists a job twice: the names already there stay first
/// and in order, every URL ends up listed, and a list without duplicates
/// stays without.
pub proof fn law_queue_lists_each_url_once(names: Seq<Seq<char>>, urls: Seq<Seq<char>>)
    requires
        names.no_duplicates(),
    ensures
        queue_urls(names, urls).no_duplicates(),
        names.is_prefix_of(queue_urls(names, urls)),
        forall|i: int| 0 <= i < urls.len() ==> queue_urls(names, urls).contains(#[trigger] urls[i]),
    decreases urls.len(),
{
    if urls.len() > 0 {
        let rest = urls.drop_last();
        law_queue_lists_each_url_once(names, rest);
        let prev = queue_urls(names, rest);
        let u = urls.last();
        assert forall|i: int| 0 <= i < urls.len() implies queue_urls(names, urls).contains(#[trigger] urls[i]) by {
            if i < urls.len() - 1 {
                assert(rest[i] == urls[i]);
                assert(prev.contains(rest[i]));
                if !prev.contains(u) {
                    let k = choose|k: int| 0 <= k < prev.len() && prev[k] == rest[i];
                    assert(prev.push(u)[k] == rest[i]);
                }
            } else if !prev.contains(u) {
                assert(prev.push(u)[prev.len() as int] == u);
            }
        }
        if !prev.contains(u) {
            let next = prev.push(u);
            assert forall|a: int, b: int| 0 <= a < b < next.len() implies next[a] != next[b] by {
                if b == prev.len() {
                    assert(prev[a] == next[a]);
                }
            }
        }
    } else {
        assert(names.is_prefix_of(names)) by {
            assert(names.take(names.len() as int) =~= names);
        }
    }
}

// ---------------------------------------------------------------------------
// The job list
// ---------------------------------------------------------------------------

pub open spec fn is_queued(j: Job) -> bool {
    j@.state == State::Queued
}

/// Finished with, one way or another: neither running nor waiting.
pub open spec fn is_done(j: Job) -> bool {
    !j@.running && j@.state != State::Queued
}

/// How many jobs wait for a slot.
pub fn queued_count(jobs: &Vec<Job>) -> (r: usize)
    ensures
        r == jobs@.filter(|j: Job| is_queued(j)).len(),
{
    let mut n: usize = 0;
    let mut i: usize = 0;
    assert(jobs@.take(0).filter(|j: Job| is_queued(j)) =~= Seq::<Job>::empty());
    while i < jobs.len()
        invariant
            i <= jobs@.len(),
            n == jobs@.take(i as int).filter(|j: Job| is_queued(j)).len(),
            n <= i,
        decreases jobs@.len() - i,
    {
        assert(jobs@.take(i + 1).drop_last() =~= jobs@.take(i as int));
        reveal_with_fuel(Seq::filter, 1);
        if jobs[i].state() == State::Queued {
            n = n + 1;
        }
        i = i + 1;
    }
    assert(jobs@.take(jobs@.len() as int) =~= jobs@);
    n
}

/// Is there anything for "Clear finished" to clear?
pub fn has_done(jobs: &Vec<Job>) -> (r: bool)
    ensures
        r == exists|i: int| 0 <= i < jobs@.len() && is_done(#[trigger] jobs@[i]),
{
    let mut i: usize = 0;
    while i < jobs.len()
        invariant
            i <= jobs@.len(),
            forall|k: int| 0 <= k < i ==> !is_done(#[trigger] jobs@[k]),
        decreases jobs@.len() - i,
    {
        if !jobs[i].is_running() && jobs[i].state() != State::Queued {
            assert(is_done(jobs@[i as int]));
            return true;
        }
        i = i + 1;
    }
    false
}

impl Panel {
    /// Drop every job that is finished with. Queued jobs have not run yet:
    /// clearing "finished" must not eat them.
    pub fn remove_finished(&mut self)
        ensures
            final(self).jobs@ == old(self).jobs@.filter(|j: Job| !is_done(j)),
            *final(self) == (Panel { jobs: final(self).jobs, ..*old(self) }),
    {
        let ghost s0 = *self;
        let mut rest: Vec<Job> = Vec::new();
        std::mem::swap(&mut rest, &mut self.jobs);
        let ghost all = rest@;
        let total = rest.len();
        let mut k: usize = 0;
        assert(all.take(0).filter(|j: Job| !is_done(j)) =~= Seq::<Job>::empty());
        assert(all.skip(0) =~= all);
        while rest.len() > 0
            invariant
                k <= all.len(),
                k + rest@.len() == all.len(),
                all.len() == total,
                rest@ == all.skip(k as int),
                self.jobs@ == all.take(k as int).filter(|j: Job| !is_done(j)),
                *self == (Panel { jobs: self.jobs, ..s0 }),
            decreases rest@.len(),
        {
            let j = rest.remove(0);
            assert(all.skip(k as int)[0] == j);
            assert(all.skip(k as int).drop_first() =~= all.skip(k + 1));
            assert(all.take(k + 1).drop_last() =~= all.take(k as int));
            assert(all.take(k + 1).last() == j);
            reveal_with_fuel(Seq::filter, 1);
            if j.is_running() || j.state() == State::Queued {
                self.jobs.push(j);
            }
            k = k + 1;
        }
        assert(all.take(k as int) =~= all);
    }

    /// Drop job `i`.
    pub fn remove(&mut self, i: usize)
        requires
            i < old(self).jobs@.len(),
        ensures
            final(self).jobs@ == old(self).jobs@.remove(i as int),
            *final(self) == (Panel { jobs: final(self).jobs, ..*old(self) }),
    {
        self.jobs.remove(i);
    }
}

// ---------------------------------------------------------------------------
// Labels
// ---------------------------------------------------------------------------

/// The status bar: how many jobs, how many running, how many waiting.
pub open spec fn spec_status_text(total: nat, running: nat, queued: nat) -> Seq<char> {
    (if total == 0 {
        "No jobs"@
    } else if running == 0 {
        dec(total) + " jobs, none running"@
    } else {
        dec(total) + " jobs, "@ + dec(running) + " running"@
    }) + (if queued > 0 {
        ", "@ + dec(queued) + " queued"@
    } else {
        Seq::empty()
    })
}

pub fn status_text(total: usize, running: usize, queued: usize) -> (r: String)
    ensures
        r@ == spec_status_text(total as nat, running as nat, queued as nat),
{
    let mut t = if total == 0 {
        String::from_str("No jobs")
    } else if running == 0 {
        let mut t = format_u64(total as u64);
        t.append(" jobs, none running");
        t
    } else {
        let mut t = format_u64(total as u64);
        t.append(" jobs, ");
        let r = format_u64(running as u64);
        t.append(r.as_str());
        t.append(" running");
        t
    };
    let ghost head = t@;
    if queued > 0 {
        t.append(", ");
        let q = format_u64(queued as u64);
        t.append(q.as_str());
        t.append(" queued");
    } else {
        assert(head + Seq::<char>::empty() =~= head);
    }
    t
}

/// The Download button: plain for none or one URL, with the count for more.
pub fn download_label(n: usize) -> (r: String)
    ensures
        r@ == if n <= 1 {
            "Download"@
        } else {
            "Download "@ + dec(n as nat)
        },
{
    if n <= 1 {
        String::from_str("Download")
    } else {
        let mut t = String::from_str("Download ");
        let d = format_u64(n as u64);
        t.append(d.as_str());
        t
    }
}

/// The save path as the panel shows it, or a hint when there is none.
pub fn shown_save_path(save_path: &str) -> (r: String)
    ensures
        r@ == if save_path@.len() == 0 {
            "not set - click Browse"@
        } else {
            save_path@
        },
{
    if save_path.unicode_len() == 0 {
        String::from_str("not set - click Browse")
    } else {
        String::from_str(save_path)
    }
}

/// Which way a drag at the window's edge resizes it.
#[derive(Clone, Copy, PartialEq, Eq, Debug, Structural)]
pub enum ResizeDir {
    North,
    South,
    West,
    East,
    NorthWest,
    NorthEast,
    SouthWest,
    SouthEast,
}

/// The resize a pointer near the edges asks for: `n`, `s`, `w`, `e` say
/// which edges it is near. A corner wins over an edge; the top and the left
/// win over the bottom and the right.
pub fn resize_direction(n: bool, s: bool, w: bool, e: bool) -> (r: Option<ResizeDir>)
    ensures
        r == if n && w {
            Some(ResizeDir::NorthWest)
        } else if n && e {
            Some(ResizeDir::NorthEast)
        } else if s && w {
            Some(ResizeDir::SouthWest)
        } else if s && e {
            Some(ResizeDir::SouthEast)
        } else if n {
            Some(ResizeDir::North)
        } else if s {
            Some(ResizeDir::South)
        } else if w {
            Some(ResizeDir::West)
        } else if e {
            Some(ResizeDir::East)
        } else {
            None
        },
{
    if n && w {
        Some(ResizeDir::NorthWest)
    } else if n && e {
        Some(ResizeDir::NorthEast)
    } else if s && w {
        Some(ResizeDir::SouthWest)
    } else if s && e {
        Some(ResizeDir::SouthEast)
    } else if n {
        Some(ResizeDir::North)
    } else if s {
        Some(ResizeDir::South)
    } else if w {
        Some(ResizeDir::West)
    } else if e {
        Some(ResizeDir::East)
    } else {
        None
    }
}

/// A job's file as its row shows it: `…` while there is none yet.
pub fn shown_file(filename: &str) -> (r: &str)
    ensures
        r@ == if filename@.len() == 0 {
            "…"@
        } else {
            filename@
        },
{
    if filename.unicode_len() == 0 {
        "…"
    } else {
        filename
    }
}

/// `path` with every `/` turned into the `\` that Explorer wants.
pub fn backslashed(path: &str) -> (r: String)
    ensures
        r@ == path@.map_values(|c: char| if c == '/' {
            '\\'
        } else {
            c
        }),
{
    let v = chars_of(path);
    let mut out = String::new();
    let mut i: usize = 0;
    while i < v.len()
        invariant
            i <= v@.len(),
            v@ == path@,
            out@ == v@.take(i as int).map_values(|c: char| if c == '/' {
                '\\'
            } else {
                c
            }),
        decreases v@.len() - i,
    {
        if v[i] == '/' {
            out.append("\\");
        } else {
            let one = path.substring_char(i, i + 1);
            out.append(one);
        }
        proof {
            reveal_strlit("\\");
        }
        assert(v@.take(i + 1) =~= v@.take(i as int).push(v@[i as int]));
        assert(v@.take(i + 1).map_values(|c: char| if c == '/' {
            '\\'
        } else {
            c
        }) =~= v@.take(i as int).map_values(|c: char| if c == '/' {
            '\\'
        } else {
            c
        }).push(if v@[i as int] == '/' {
            '\\'
        } else {
            v@[i as int]
        }));
        i = i + 1;
    }
    assert(v@.take(v@.len() as int) =~= v@);
    out
}

/// Explorer's argument for showing a file selected in its folder: one
/// argument, `/select,<path>`, unsplit.
pub fn select_arg(path: &str) -> (r: String)
    ensures
        r@ == "/select,"@ + path@,
{
    let mut a = String::from_str("/select,");
    a.append(path);
    a
}


/// The metadata check box alone decides `--add-metadata`: ticking it adds
/// that one argument at the end and changes nothing else, whatever the
/// presets and the thumbnail box say. Ticking the thumbnail box (with
/// metadata off) adds the thumbnail arguments at the end and nothing else.
pub proof fn law_check_boxes_add_their_arguments(
    output: Seq<(Seq<char>, Seq<Seq<char>>)>,
    sel_output: Seq<char>,
    typoi: Seq<(Seq<char>, Seq<Seq<char>>)>,
    sel_typoi: Seq<char>,
    thumbnails: bool,
)
    ensures
        spec_parameters(output, sel_output, typoi, sel_typoi, thumbnails, true) == spec_parameters(
            output,
            sel_output,
            typoi,
            sel_typoi,
            thumbnails,
            false,
        ).push("--add-metadata"@),
        spec_parameters(output, sel_output, typoi, sel_typoi, true, false) == spec_parameters(
            output,
            sel_output,
            typoi,
            sel_typoi,
            false,
            false,
        ) + seq!["--embed-thumbnail"@, "--postprocessor-args"@, "-id3v2_version 3"@],
{
    let base = spec_pick(output, sel_output) + spec_pick(typoi, sel_typoi);
    let th = if thumbnails {
        seq!["--embed-thumbnail"@, "--postprocessor-args"@, "-id3v2_version 3"@]
    } else {
        Seq::<Seq<char>>::empty()
    };
    assert(spec_parameters(output, sel_output, typoi, sel_typoi, thumbnails, true) =~= (base + th).push(
        "--add-metadata"@,
    ));
    assert(spec_parameters(output, sel_output, typoi, sel_typoi, thumbnails, false) =~= base + th);
    assert(spec_parameters(output, sel_output, typoi, sel_typoi, false, false) =~= base);
}

/// "Clear finished" keeps exactly the jobs that are running or queued, in
/// their order: every job it keeps is running or waiting for a slot, and
/// every running or waiting job is kept; a job that finished, failed or was
/// stopped goes.
pub proof fn law_clear_keeps_running_and_queued(jobs: Seq<Job>)
    ensures
        ({
            let kept = jobs.filter(|j: Job| !is_done(j));
            &&& forall|k: int| #![trigger kept[k]]
                0 <= k < kept.len() ==> kept[k]@.running || kept[k]@.state == State::Queued
            &&& forall|i: int| #![trigger jobs[i]]
                0 <= i < jobs.len() && (jobs[i]@.running || jobs[i]@.state == State::Queued)
                    ==> kept.contains(jobs[i])
            &&& forall|i: int| #![trigger jobs[i]]
                0 <= i < jobs.len() && !jobs[i]@.running && jobs[i]@.state != State::Queued
                    ==> !kept.contains(jobs[i])
        }),
{
    broadcast use vstd::seq_lib::group_filter_ensures;

    let pred = |j: Job| !is_done(j);
    let kept = jobs.filter(pred);
    assert forall|k: int| #![trigger kept[k]] 0 <= k < kept.len() implies kept[k]@.running
        || kept[k]@.state == State::Queued by {
        assert(pred(kept[k]));
    }
    assert forall|i: int| #![trigger jobs[i]]
        0 <= i < jobs.len() && (jobs[i]@.running || jobs[i]@.state == State::Queued)
            implies kept.contains(jobs[i]) by {
        assert(pred(jobs[i]));
    }
    assert forall|i: int| #![trigger jobs[i]]
        0 <= i < jobs.len() && !jobs[i]@.running && jobs[i]@.state != State::Queued
            implies !kept.contains(jobs[i]) by {
        if kept.contains(jobs[i]) {
            let k = choose|k: int| 0 <= k < kept.len() && kept[k] == jobs[i];
            assert(pred(kept[k]));
        }
    }
}

} // verus!
