//! One yt-dlp process per row: what a job is, what its output does to it, and
//! which queued job gets a slot. Starting, reading and killing the process is
//! the caller's; this module decides.

use vstd::prelude::*;
use crate::parse::{
    destination, download_destination, initial_progress, merged_destination, opt_string_view,
    spec_destination, spec_download_destination, spec_feed, spec_merged_destination,
    spec_split_lines, split_lines, Progress, ProgressView,
};
use crate::text::{
    chars_of, find_char_at, first_where, last_where, lemma_first_where, lemma_last_where,
    lemma_last_where_unique,
    strip_prefix, string_views, split_by, views, eq_char, starts_with_at, trim, trim_at, is_sep, Sep,
    sep_pred,
};

verus! {

// ---------------------------------------------------------------------------
// State
// ---------------------------------------------------------------------------

#[derive(Clone, Copy, PartialEq, Eq, Debug, Structural)]
pub enum State {
    Queued,
    Starting,
    Running,
    Finished,
    Error,
    Stopped,
}

pub open spec fn spec_ini_key(s: State) -> Seq<char> {
    match s {
        State::Queued | State::Starting => "starting"@,
        State::Running => "running"@,
        State::Finished => "finished"@,
        State::Error => "error"@,
        State::Stopped => "stopped"@,
    }
}

pub open spec fn spec_label(s: State) -> Seq<char> {
    match s {
        State::Queued => "Queued"@,
        State::Starting => "Starting"@,
        State::Running => "Running"@,
        State::Finished => "Finished"@,
        State::Error => "Error"@,
        State::Stopped => "Stopped"@,
    }
}

impl State {
    /// Key into the `[Tprocess]` colour section. Queued deliberately shares
    /// Starting's key: a settings file written before queueing existed has no
    /// `queued` entry, and a missing key would read as black.
    pub fn ini_key(self) -> (r: &'static str)
        ensures
            r@ == spec_ini_key(self),
    {
        match self {
            State::Queued | State::Starting => "starting",
            State::Running => "running",
            State::Finished => "finished",
            State::Error => "error",
            State::Stopped => "stopped",
        }
    }

    pub fn label(self) -> (r: &'static str)
        ensures
            r@ == spec_label(self),
    {
        match self {
            State::Queued => "Queued",
            State::Starting => "Starting",
            State::Running => "Running",
            State::Finished => "Finished",
            State::Error => "Error",
            State::Stopped => "Stopped",
        }
    }
}

// ---------------------------------------------------------------------------
// Spec
// ---------------------------------------------------------------------------

/// Everything needed to (re)start a job.
#[derive(Clone)]
pub struct Spec {
    pub name: String,
    /// The program to run.
    pub exe: String,
    pub args: Vec<String>,
    /// Working directory, per child.
    pub cwd: Option<String>,
}

// ---------------------------------------------------------------------------
// Which downloaded files were merge parts
// ---------------------------------------------------------------------------

/// A bare file name: no directory separator, no drive, not `.` or `..`.
/// Such a path is one plain component on every platform.
pub open spec fn plain_file_name(p: Seq<char>) -> bool {
    &&& p.len() > 0
    &&& forall|i: int| 0 <= i < p.len() ==> p[i] != '/' && p[i] != '\\' && p[i] != ':'
    &&& p != seq!['.']
    &&& p != seq!['.', '.']
}

/// The stem of a file name as `Path::file_stem` documents it: the whole name
/// when it has no `.` or only a leading one, otherwise what precedes the last `.`.
pub open spec fn doc_stem(name: Seq<char>) -> Seq<char> {
    let i = last_where(name, eq_char('.'));
    if i <= 0 {
        name
    } else {
        name.take(i)
    }
}

/// The pieces of a `/`-separated path that name something, in order: the
/// empty ones (from a leading, repeated or trailing `/`) and `.` dropped, as
/// `Path::components` normalizes them away.
pub open spec fn named_pieces(pieces: Seq<Seq<char>>) -> Seq<Seq<char>>
    decreases pieces.len(),
{
    if pieces.len() == 0 {
        pieces
    } else {
        let r = named_pieces(pieces.drop_last());
        if pieces.last().len() > 0 && pieces.last() != seq!['.'] {
            r.push(pieces.last())
        } else {
            r
        }
    }
}

/// A path read the same on every platform: `/` its only separator (no `\`),
/// and no drive or other prefix (no `:`, no leading `//`).
pub open spec fn portable_path(p: Seq<char>) -> bool {
    &&& forall|i: int| 0 <= i < p.len() ==> p[i] != '\\' && p[i] != ':'
    &&& !(p.len() >= 2 && p[0] == '/' && p[1] == '/')
}

/// `Path::file_name` of such a path: its last named piece, none when there is
/// none (``, `/`, `.`) or when that piece is `..`.
pub open spec fn spec_file_name(p: Seq<char>) -> Option<Seq<char>> {
    let c = named_pieces(split_by(p, eq_char('/')));
    if c.len() == 0 || c.last() == seq!['.', '.'] {
        None
    } else {
        Some(c.last())
    }
}

/// `Path::file_stem` of such a path: the documented stem of its file name.
pub open spec fn spec_file_stem(p: Seq<char>) -> Option<Seq<char>> {
    match spec_file_name(p) {
        Some(n) => Some(doc_stem(n)),
        None => None,
    }
}

proof fn lemma_split_without_sep(p: Seq<char>, c: char)
    requires
        forall|i: int| 0 <= i < p.len() ==> p[i] != c,
    ensures
        split_by(p, eq_char(c)) == seq![p],
    decreases p.len(),
{
    if p.len() > 0 {
        lemma_split_without_sep(p.drop_last(), c);
        assert(p.drop_last().push(p.last()) =~= p);
        assert(!eq_char(c)(p.last()));
        assert(seq![p.drop_last()].update(0, p) =~= seq![p]);
    } else {
        assert(p =~= Seq::<char>::empty());
    }
}

/// A bare file name is such a path, and its stem is its own.
pub proof fn law_bare_name_is_portable(p: Seq<char>)
    requires
        plain_file_name(p),
    ensures
        portable_path(p),
        spec_file_name(p) == Some(p),
        spec_file_stem(p) == Some(doc_stem(p)),
{
    lemma_split_without_sep(p, '/');
    let ps = seq![p];
    assert(ps.drop_last() =~= Seq::<Seq<char>>::empty());
    assert(ps.last() == p);
    assert(named_pieces(ps.drop_last()) == Seq::<Seq<char>>::empty());
    assert(named_pieces(ps) == named_pieces(ps.drop_last()).push(p));
    assert(named_pieces(ps) =~= seq![p]);
}

/// `std::path::Path::file_stem`, as UTF-8.
///
/// For a path with `/` as its only separator and no prefix, the documented
/// stem of its normalized last component is promised, none where it has no
/// file name; for a path holding `\`, a drive or a UNC prefix, whose parsing
/// differs between platforms, nothing is said of the result.
#[verifier::external_body]
fn file_stem(path: &str) -> (r: Option<String>)
    ensures
        portable_path(path@) ==> opt_string_view(r) == spec_file_stem(path@),
{
    let stem = std::path::Path::new(path).file_stem()?;
    Some(stem.to_str()?.to_string())
}

/// Is `name` the merged file's stem plus a `.f<id>.<ext>` tail, with a
/// non-empty id and a non-empty extension holding no further dot?
pub open spec fn spec_part_of_stem(name: Seq<char>, stem: Option<Seq<char>>) -> bool {
    match stem {
        None => false,
        Some(st) => match strip_prefix(name, st) {
            None => false,
            Some(r) => match strip_prefix(r, ".f"@) {
                None => false,
                Some(rest) => {
                    let i = first_where(rest, eq_char('.'));
                    i >= 0 && i > 0 && i + 1 < rest.len() && first_where(
                        rest.skip(i + 1),
                        eq_char('.'),
                    ) < 0
                },
            },
        },
    }
}

/// The part-of test against an already known stem.
pub fn is_part_of_stem(name: &str, stem: Option<&str>) -> (r: bool)
    ensures
        r == spec_part_of_stem(
            name@,
            match stem {
                Some(s) => Some(s@),
                None => None,
            },
        ),
{
    let st = match stem {
        None => {
            return false;
        },
        Some(s) => s,
    };
    let v = chars_of(name);
    let p = chars_of(st);
    let f = chars_of(".f");
    let n = v.len();
    assert(v@.subrange(0, n as int) =~= v@);
    if !starts_with_at(&v, 0, n, &p) {
        return false;
    }
    let lo = p.len();
    let ghost r1 = name@.skip(lo as int);
    assert(r1 =~= v@.subrange(lo as int, n as int));
    if !starts_with_at(&v, lo, n, &f) {
        return false;
    }
    let lo2 = lo + f.len();
    let ghost rest = r1.skip(f@.len() as int);
    assert(rest =~= v@.subrange(lo2 as int, n as int));
    let i = match find_char_at(&v, lo2, n, '.') {
        None => {
            return false;
        },
        Some(i) => i,
    };
    if i == lo2 || i + 1 >= n {
        return false;
    }
    assert(rest.skip(i - lo2 + 1) =~= v@.subrange(i + 1, n as int));
    let more = find_char_at(&v, i + 1, n, '.');
    more.is_none()
}

/// Is `name` one of the streams that were merged into `merged`? yt-dlp writes
/// the parts as `%(title)s.f%(format_id)s.%(ext)s`: the merged file's own stem
/// plus an `.f<id>` segment, whatever the id looks like.
///
/// `Rick.f251.webm` is part of `Rick.mkv`; `Rick.mkv` is not part of itself,
/// and `Rick and Morty.mp4` is not part of `Rick.mkv`.
pub fn is_part_of(name: &str, merged: &str) -> (r: bool)
    ensures
        portable_path(merged@) ==> r == spec_part_of_stem(name@, spec_file_stem(merged@)),
{
    let stem = file_stem(merged);
    match &stem {
        Some(s) => is_part_of_stem(name, Some(s.as_str())),
        None => is_part_of_stem(name, None),
    }
}

/// A merged output named by its file name alone is never taken for one of its
/// own parts: what follows its stem is its extension alone, with no `.f<id>`
/// segment in between. (A name with a directory is compared with the stem of
/// its last component: `x.fa.b/x` reads as a part of itself.)
pub proof fn law_merged_file_is_not_its_own_part(m: Seq<char>)
    ensures
        !spec_part_of_stem(m, Some(doc_stem(m))),
{
    let i = last_where(m, eq_char('.'));
    lemma_last_where(m, eq_char('.'));
    if i <= 0 {
        assert(m.skip(m.len() as int) =~= Seq::<char>::empty());
        assert(!(".f"@).is_prefix_of(Seq::<char>::empty())) by {
            reveal_strlit(".f");
        }
    } else {
        let s = m.take(i);
        assert(s.is_prefix_of(m));
        let r = m.skip(i);
        if (".f"@).is_prefix_of(r) {
            reveal_strlit(".f");
            let rest = r.skip(2);
            lemma_first_where(rest, eq_char('.'));
            assert forall|j: int| 0 <= j < rest.len() implies !eq_char('.')(rest[j]) by {
                assert(rest[j] == m[i + 2 + j]);
            }
            if first_where(rest, eq_char('.')) >= 0 {
                let k = first_where(rest, eq_char('.'));
                assert(eq_char('.')(rest[k]));
            }
        }
    }
}

/// The sweep only ever takes files that were downloaded, and none at all
/// without `--keep-video`.
pub proof fn law_cleanup_takes_only_downloads(
    args: Seq<Seq<char>>,
    downloads: Seq<Seq<char>>,
    stems: Seq<Option<Seq<char>>>,
)
    ensures
        forall|k: int|
            0 <= k < spec_files_to_clean(args, downloads, stems).len() ==> downloads.contains(
                #[trigger] spec_files_to_clean(args, downloads, stems)[k],
            ),
        !keeps_video(args) ==> spec_files_to_clean(args, downloads, stems).len() == 0,
    decreases downloads.len(),
{
    if keeps_video(args) && downloads.len() > 0 {
        let rest = downloads.drop_last();
        law_cleanup_takes_only_downloads(args, rest, stems);
        let r = spec_files_to_clean(args, rest, stems);
        let out = spec_files_to_clean(args, downloads, stems);
        assert forall|k: int| 0 <= k < out.len() implies downloads.contains(#[trigger] out[k]) by {
            if k < r.len() {
                assert(out[k] == r[k]);
                assert(rest.contains(r[k]));
                let j = choose|j: int| 0 <= j < rest.len() && rest[j] == r[k];
                assert(downloads[j] == rest[j]);
            } else {
                assert(out[k] == downloads.last());
                assert(downloads[downloads.len() - 1] == downloads.last());
            }
        }
    }
}

/// Does any of `args` read `--keep-video`?
pub open spec fn keeps_video(args: Seq<Seq<char>>) -> bool {
    exists|i: int| 0 <= i < args.len() && args[i] == "--keep-video"@
}

/// The downloads a clean exit should delete: with `--keep-video`, each
/// download that is a part of some merged output; without it, none.
pub open spec fn spec_files_to_clean(
    args: Seq<Seq<char>>,
    downloads: Seq<Seq<char>>,
    stems: Seq<Option<Seq<char>>>,
) -> Seq<Seq<char>>
    decreases downloads.len(),
{
    if !keeps_video(args) || downloads.len() == 0 {
        Seq::empty()
    } else {
        let r = spec_files_to_clean(args, downloads.drop_last(), stems);
        if exists|m: int| 0 <= m < stems.len() && spec_part_of_stem(downloads.last(), stems[m]) {
            r.push(downloads.last())
        } else {
            r
        }
    }
}

fn has_keep_video(args: &Vec<String>) -> (r: bool)
    ensures
        r == keeps_video(string_views(args@)),
{
    let flag = String::from_str("--keep-video");
    let mut i: usize = 0;
    while i < args.len()
        invariant
            i <= args@.len(),
            flag@ == "--keep-video"@,
            forall|j: int| 0 <= j < i ==> args@[j]@ != "--keep-video"@,
        decreases args@.len() - i,
    {
        if args[i] == flag {
            assert(string_views(args@)[i as int] == args@[i as int]@);
            return true;
        }
        i = i + 1;
    }
    assert forall|j: int| 0 <= j < string_views(args@).len() implies string_views(args@)[j]
        != "--keep-video"@ by {
        assert(string_views(args@)[j] == args@[j]@);
    }
    false
}

/// The stem of each merged output.
fn merged_stems(merged: &Vec<String>) -> (r: Vec<Option<String>>)
    ensures
        r@.len() == merged@.len(),
        forall|i: int| 0 <= i < merged@.len() && portable_path(#[trigger] merged@[i]@) ==> opt_string_view(
            r@[i],
        ) == spec_file_stem(merged@[i]@),
{
    let mut out: Vec<Option<String>> = Vec::new();
    let mut i: usize = 0;
    while i < merged.len()
        invariant
            i <= merged@.len(),
            out@.len() == i,
            forall|j: int| 0 <= j < i && portable_path(#[trigger] merged@[j]@) ==> opt_string_view(
                out@[j],
            ) == spec_file_stem(merged@[j]@),
        decreases merged@.len() - i,
    {
        out.push(file_stem(merged[i].as_str()));
        i = i + 1;
    }
    out
}

/// The downloads that a clean exit should delete, given the stem of every
/// merged output. Deliberately narrow, since this deletes the user's files.
pub fn files_to_clean(args: &Vec<String>, downloads: &Vec<String>, merged_stems: &Vec<Option<String>>) -> (r: Vec<String>)
    ensures
        string_views(r@) == spec_files_to_clean(
            string_views(args@),
            string_views(downloads@),
            merged_stems@.map_values(|s: Option<String>| opt_string_view(s)),
        ),
{
    let ghost a = string_views(args@);
    let ghost d = string_views(downloads@);
    let ghost st = merged_stems@.map_values(|s: Option<String>| opt_string_view(s));
    let mut out: Vec<String> = Vec::new();
    if !has_keep_video(args) {
        return out;
    }
    let mut k: usize = 0;
    assert(d.take(0) =~= Seq::<Seq<char>>::empty());
    while k < downloads.len()
        invariant
            k <= downloads@.len(),
            keeps_video(a),
            a == string_views(args@),
            d == string_views(downloads@),
            st == merged_stems@.map_values(|s: Option<String>| opt_string_view(s)),
            string_views(out@) == spec_files_to_clean(a, d.take(k as int), st),
        decreases downloads@.len() - k,
    {
        let name = downloads[k].as_str();
        assert(d.take(k + 1).drop_last() =~= d.take(k as int));
        assert(d.take(k + 1).last() == name@);
        let mut m: usize = 0;
        let mut hit = false;
        while m < merged_stems.len()
            invariant
                m <= merged_stems@.len(),
                st == merged_stems@.map_values(|s: Option<String>| opt_string_view(s)),
                hit == exists|j: int| 0 <= j < m && spec_part_of_stem(name@, st[j]),
            decreases merged_stems@.len() - m,
        {
            let here = match &merged_stems[m] {
                Some(s) => is_part_of_stem(name, Some(s.as_str())),
                None => is_part_of_stem(name, None),
            };
            assert(st[m as int] == opt_string_view(merged_stems@[m as int]));
            hit = hit || here;
            m = m + 1;
        }
        if hit {
            let ghost before = out@;
            out.push(downloads[k].clone());
            assert(string_views(out@) =~= string_views(before).push(name@));
        }
        k = k + 1;
    }
    assert(d.take(downloads@.len() as int) =~= d);
    out
}

// ---------------------------------------------------------------------------
// A job's bookkeeping
// ---------------------------------------------------------------------------

/// What a `Job` holds, as plain values.
pub struct JobView {
    pub name: Seq<char>,
    pub exe: Seq<char>,
    pub args: Seq<Seq<char>>,
    pub cwd: Option<Seq<char>>,
    pub state: State,
    /// Speed and ETA while running, empty otherwise.
    pub rate: Seq<char>,
    pub filename: Seq<char>,
    /// Every file yt-dlp downloaded for this job.
    pub downloads: Seq<Seq<char>>,
    /// Every file a merge produced from those downloads.
    pub merged: Seq<Seq<char>>,
    pub log: Seq<char>,
    /// A process is alive for this job.
    pub running: bool,
    pub killed: bool,
    /// The one-shot sweep of leftover parts has run.
    pub cleaned: bool,
    pub progress: ProgressView,
}

/// A job's bookkeeping, apart from the process itself: its state, what its
/// output said, and whether the leftover parts were swept.
pub struct Job {
    spec: Spec,
    state: State,
    rate: String,
    filename: String,
    downloads: Vec<String>,
    merged: Vec<String>,
    log: String,
    running: bool,
    killed: bool,
    cleaned: bool,
    progress: Progress,
}

impl View for Job {
    type V = JobView;

    closed spec fn view(&self) -> JobView {
        JobView {
            name: self.spec.name@,
            exe: self.spec.exe@,
            args: string_views(self.spec.args@),
            cwd: opt_string_view(self.spec.cwd),
            state: self.state,
            rate: self.rate@,
            filename: self.filename@,
            downloads: string_views(self.downloads@),
            merged: string_views(self.merged@),
            log: self.log@,
            running: self.running,
            killed: self.killed,
            cleaned: self.cleaned,
            progress: self.progress@,
        }
    }
}

/// A job as new, or as a restart leaves it: no output seen, nothing swept.
pub open spec fn is_fresh(j: JobView) -> bool {
    &&& j.rate.len() == 0
    &&& j.filename.len() == 0
    &&& j.downloads.len() == 0
    &&& j.merged.len() == 0
    &&& j.log.len() == 0
    &&& !j.killed
    &&& !j.cleaned
    &&& j.progress == initial_progress()
}

/// What one line of output does to a job.
pub open spec fn spec_on_line(j: JobView, line: Seq<char>) -> JobView {
    JobView {
        state: if j.state == State::Starting {
            State::Running
        } else {
            j.state
        },
        progress: spec_feed(j.progress, line),
        filename: match spec_destination(line) {
            Some(n) => n,
            None => j.filename,
        },
        downloads: match spec_download_destination(line) {
            Some(n) => j.downloads.push(n),
            None => j.downloads,
        },
        merged: match spec_merged_destination(line) {
            Some(n) => j.merged.push(n),
            None => j.merged,
        },
        log: line,
        ..j
    }
}

/// The state a job ends in when its process exits: stopped if it was killed,
/// finished on success, an error otherwise.
pub open spec fn exit_state(killed: bool, success: bool) -> State {
    if killed {
        State::Stopped
    } else if success {
        State::Finished
    } else {
        State::Error
    }
}

/// A job whose process started: starting, and running.
pub open spec fn spec_spawned(j: JobView) -> JobView {
    JobView { state: State::Starting, running: true, ..j }
}

/// A job whose process ended, with the state its exit gives it.
pub open spec fn spec_exited(j: JobView, success: bool) -> JobView {
    JobView { running: false, state: exit_state(j.killed, success), ..j }
}

/// A job the user stopped: a queued one never starts; a live one is marked
/// killed, so that its exit reads as stopped; a finished one stays as it is.
pub open spec fn spec_stop(j: JobView) -> JobView {
    if j.state == State::Queued {
        JobView { state: State::Stopped, ..j }
    } else if j.running {
        JobView { state: State::Stopped, killed: true, ..j }
    } else {
        j
    }
}

/// What several lines of output, in order, do to a job.
pub open spec fn spec_on_lines(j: JobView, lines: Seq<Seq<char>>) -> JobView
    decreases lines.len(),
{
    if lines.len() == 0 {
        j
    } else {
        spec_on_line(spec_on_lines(j, lines.drop_last()), lines.last())
    }
}

proof fn lemma_lines_keep_process(j: JobView, lines: Seq<Seq<char>>)
    ensures
        spec_on_lines(j, lines).killed == j.killed,
        spec_on_lines(j, lines).running == j.running,
        j.state != State::Queued ==> spec_on_lines(j, lines).state != State::Queued,
    decreases lines.len(),
{
    if lines.len() > 0 {
        lemma_lines_keep_process(j, lines.drop_last());
    }
}

/// How a started job ends is decided by whether it was stopped since it
/// started: stopped, if it was, whatever its process reported; otherwise
/// finished on success and an error on failure. The output read before and
/// after the stop makes no difference, and the job is not running afterwards.
pub proof fn law_exit_follows_stop(
    j: JobView,
    before: Seq<Seq<char>>,
    stopped: bool,
    after: Seq<Seq<char>>,
    success: bool,
)
    requires
        is_fresh(j),
    ensures
        ({
            let k = spec_on_lines(spec_spawned(j), before);
            let k2 = spec_on_lines(if stopped { spec_stop(k) } else { k }, after);
            &&& spec_exited(k2, success).state == (if stopped {
                State::Stopped
            } else if success {
                State::Finished
            } else {
                State::Error
            })
            &&& !spec_exited(k2, success).running
        }),
{
    let k = spec_on_lines(spec_spawned(j), before);
    lemma_lines_keep_process(spec_spawned(j), before);
    let k1 = if stopped { spec_stop(k) } else { k };
    lemma_lines_keep_process(k1, after);
}

impl Job {
    /// Waiting for a slot. Nothing runs until the queue says so.
    pub fn new(spec: Spec) -> (j: Job)
        ensures
            j@.name == spec.name@,
            j@.exe == spec.exe@,
            j@.args == string_views(spec.args@),
            j@.cwd == opt_string_view(spec.cwd),
            j@.state == State::Queued,
            !j@.running,
            is_fresh(j@),
    {
        Job {
            spec,
            state: State::Queued,
            rate: String::new(),
            filename: String::new(),
            downloads: Vec::new(),
            merged: Vec::new(),
            log: String::new(),
            running: false,
            killed: false,
            cleaned: false,
            progress: Progress::new(),
        }
    }

    fn reset(&mut self)
        ensures
            is_fresh(final(self)@),
            final(self)@.state == old(self)@.state,
            final(self)@.running == old(self)@.running,
            final(self)@.name == old(self)@.name,
            final(self)@.exe == old(self)@.exe,
            final(self)@.args == old(self)@.args,
            final(self)@.cwd == old(self)@.cwd,
    {
        self.progress = Progress::new();
        self.rate = String::new();
        self.filename = String::new();
        self.downloads = Vec::new();
        self.merged = Vec::new();
        self.log = String::new();
        self.killed = false;
        self.cleaned = false;
        assert(string_views(self.downloads@) =~= Seq::<Seq<char>>::empty());
        assert(string_views(self.merged@) =~= Seq::<Seq<char>>::empty());
    }

    /// About to start the process: everything from a previous run is dropped.
    pub fn begin_spawn(&mut self)
        ensures
            is_fresh(final(self)@),
            final(self)@ == (JobView { state: old(self)@.state, running: old(self)@.running, ..final(self)@ }),
            final(self)@.state == old(self)@.state,
            final(self)@.running == old(self)@.running,
            final(self)@.name == old(self)@.name,
            final(self)@.exe == old(self)@.exe,
            final(self)@.args == old(self)@.args,
            final(self)@.cwd == old(self)@.cwd,
    {
        self.reset();
    }

    /// The process started: the job is starting, and running.
    pub fn spawned(&mut self)
        ensures
            final(self)@ == spec_spawned(old(self)@),
    {
        self.state = State::Starting;
        self.running = true;
    }

    /// The process could not be started: the job is an error, and says why.
    pub fn spawn_failed(&mut self, reason: &str)
        ensures
            final(self)@ == (JobView {
                state: State::Error,
                log: "could not start "@ + old(self)@.exe + ": "@ + reason@,
                ..old(self)@
            }),
    {
        let mut log = String::from_str("could not start ");
        log.append(self.spec.exe.as_str());
        log.append(": ");
        log.append(reason);
        self.log = log;
        self.state = State::Error;
    }

    /// Take in one line of the process's output.
    pub fn on_line(&mut self, line: &str)
        requires
            old(self)@.progress.started < usize::MAX,
        ensures
            final(self)@ == spec_on_line(old(self)@, line@),
    {
        if self.state == State::Starting {
            self.state = State::Running;
        }
        self.progress.feed(line);
        match destination(line) {
            Some(name) => {
                self.filename = String::from_str(name);
            },
            None => {},
        }
        match download_destination(line) {
            Some(name) => {
                let ghost before = self.downloads@;
                self.downloads.push(String::from_str(name));
                assert(string_views(self.downloads@) =~= string_views(before).push(name@));
            },
            None => {},
        }
        match merged_destination(line) {
            Some(name) => {
                let ghost before = self.merged@;
                self.merged.push(String::from_str(name));
                assert(string_views(self.merged@) =~= string_views(before).push(name@));
            },
            None => {},
        }
        self.log = String::from_str(line);
    }

    /// The process exited, successfully or not.
    pub fn exited(&mut self, success: bool)
        ensures
            final(self)@ == spec_exited(old(self)@, success),
    {
        self.running = false;
        self.state = if self.killed {
            State::Stopped
        } else if success {
            State::Finished
        } else {
            State::Error
        };
    }

    /// The one-shot sweep of merge leftovers, due once a finished job's output
    /// has been read to the end: the names (relative to the working
    /// directory) to delete. Nothing when the sweep is not due or has already
    /// run. The names are always among the downloads; when every merged
    /// output is a `/`-separated path without a drive or UNC prefix (a bare
    /// name among them), they are exactly the downloads that are parts of one
    /// of them.
    pub fn sweep(&mut self, drained: bool) -> (r: Option<Vec<String>>)
        ensures
            (old(self)@.state == State::Finished && drained && !old(self)@.cleaned) <==> r is Some,
            match r {
                Some(files) => {
                    &&& final(self)@ == (JobView {
                        cleaned: true,
                        downloads: Seq::empty(),
                        merged: Seq::empty(),
                        ..old(self)@
                    })
                    &&& forall|k: int|
                        0 <= k < files@.len() ==> old(self)@.downloads.contains(#[trigger] files@[k]@)
                    &&& (forall|i: int| 0 <= i < old(self)@.merged.len() ==> portable_path(
                        #[trigger] old(self)@.merged[i],
                    )) ==> string_views(files@) == spec_files_to_clean(
                        old(self)@.args,
                        old(self)@.downloads,
                        old(self)@.merged.map_values(|m: Seq<char>| spec_file_stem(m)),
                    )
                },
                None => final(self)@ == old(self)@,
            },
    {
        if self.state == State::Finished && drained && !self.cleaned {
            self.cleaned = true;
            let stems = merged_stems(&self.merged);
            let files = files_to_clean(&self.spec.args, &self.downloads, &stems);
            proof {
                let m = string_views(self.merged@);
                if forall|i: int| 0 <= i < m.len() ==> portable_path(#[trigger] m[i]) {
                    assert(stems@.map_values(|s: Option<String>| opt_string_view(s)) =~= m.map_values(
                        |x: Seq<char>| spec_file_stem(x),
                    ));
                }
                let st = stems@.map_values(|s: Option<String>| opt_string_view(s));
                let d = string_views(self.downloads@);
                law_cleanup_takes_only_downloads(string_views(self.spec.args@), d, st);
                assert forall|k: int| 0 <= k < files@.len() implies d.contains(#[trigger] files@[k]@) by {
                    assert(files@[k]@ == string_views(files@)[k]);
                }
            }
            self.downloads = Vec::new();
            self.merged = Vec::new();
            assert(string_views(self.downloads@) =~= Seq::<Seq<char>>::empty());
            assert(string_views(self.merged@) =~= Seq::<Seq<char>>::empty());
            Some(files)
        } else {
            None
        }
    }

    /// The merged outputs recorded so far, in order.
    pub fn merged(&self) -> (r: &Vec<String>)
        ensures
            string_views(r@) == self@.merged,
    {
        &self.merged
    }

    /// After each poll: a job that is no longer running stops claiming a speed.
    pub fn refresh_rate(&mut self)
        ensures
            final(self)@ == (JobView {
                rate: if old(self)@.running {
                    old(self)@.progress.rate
                } else {
                    Seq::empty()
                },
                ..old(self)@
            }),
    {
        self.rate = if self.running {
            String::from_str(self.progress.rate())
        } else {
            String::new()
        };
    }

    /// Stop: a queued job simply never starts; a running one is marked as
    /// killed and stopped. True when the caller has a process to kill.
    pub fn stop(&mut self) -> (kill: bool)
        ensures
            kill == (old(self)@.state != State::Queued && old(self)@.running),
            old(self)@.state == State::Queued ==> final(self)@ == (JobView {
                state: State::Stopped,
                ..old(self)@
            }),
            old(self)@.state != State::Queued && old(self)@.running ==> final(self)@ == (JobView {
                state: State::Stopped,
                killed: true,
                ..old(self)@
            }),
            old(self)@.state != State::Queued && !old(self)@.running ==> final(self)@ == old(self)@,
            final(self)@ == spec_stop(old(self)@),
    {
        if self.state == State::Queued {
            self.state = State::Stopped;
            return false;
        }
        if self.running {
            self.killed = true;
            self.state = State::Stopped;
            return true;
        }
        false
    }

    /// Back to the end of the queue, as good as new: queued, fresh, and no
    /// longer running. True when the caller has a process to kill (and let
    /// go of) first.
    pub fn requeue(&mut self) -> (kill: bool)
        ensures
            kill == (old(self)@.state != State::Queued && old(self)@.running),
            final(self)@.state == State::Queued,
            is_fresh(final(self)@),
            !final(self)@.running,
            final(self)@.name == old(self)@.name,
            final(self)@.exe == old(self)@.exe,
            final(self)@.args == old(self)@.args,
            final(self)@.cwd == old(self)@.cwd,
    {
        let kill = self.stop();
        self.reset();
        self.state = State::Queued;
        self.running = false;
        kill
    }

    pub fn is_running(&self) -> (r: bool)
        ensures
            r == self@.running,
    {
        self.running
    }

    /// Still needs frames: running, or finished with the sweep still pending
    /// on the last of the output.
    pub fn needs_poll(&self) -> (r: bool)
        ensures
            r == (self@.running || (self@.state == State::Finished && !self@.cleaned)),
    {
        self.running || (self.state == State::Finished && !self.cleaned)
    }

    pub fn spec(&self) -> (r: &Spec)
        ensures
            r.name@ == self@.name,
            r.exe@ == self@.exe,
            string_views(r.args@) == self@.args,
            opt_string_view(r.cwd) == self@.cwd,
    {
        &self.spec
    }

    pub fn state(&self) -> (r: State)
        ensures
            r == self@.state,
    {
        self.state
    }

    pub fn rate(&self) -> (r: &str)
        ensures
            r@ == self@.rate,
    {
        self.rate.as_str()
    }

    pub fn filename(&self) -> (r: &str)
        ensures
            r@ == self@.filename,
    {
        self.filename.as_str()
    }

    pub fn log(&self) -> (r: &str)
        ensures
            r@ == self@.log,
    {
        self.log.as_str()
    }

    pub fn progress(&self) -> (r: &Progress)
        ensures
            r@ == self@.progress,
    {
        &self.progress
    }
}

// ---------------------------------------------------------------------------
// The queue
// ---------------------------------------------------------------------------

/// The first queued job at or after `from`, or -1.
pub open spec fn first_queued_from(states: Seq<State>, from: int) -> int
    decreases states.len() - from,
{
    if from >= states.len() || from < 0 {
        -1
    } else if states[from] == State::Queued {
        from
    } else {
        first_queued_from(states, from + 1)
    }
}

/// `first_queued_from` lands on a queued job at or after `from`, with none
/// queued in between; at -1 none is queued from `from` on.
pub proof fn lemma_first_queued_from(states: Seq<State>, from: int)
    requires
        0 <= from,
    ensures
        first_queued_from(states, from) >= 0 ==> from <= first_queued_from(states, from) < states.len()
            && states[first_queued_from(states, from)] == State::Queued,
        forall|j: int|
            from <= j < states.len() && (first_queued_from(states, from) < 0 || j < first_queued_from(
                states,
                from,
            )) ==> states[j] != State::Queued,
    decreases states.len() - from,
{
    if from < states.len() && states[from] != State::Queued {
        lemma_first_queued_from(states, from + 1);
    }
}

/// The job the queue starts next, as `next_to_start` picks it.
pub open spec fn spec_next_to_start(states: Seq<State>, from: int, running: int, max: int) -> Option<int> {
    if max > 0 && running >= max {
        None
    } else if first_queued_from(states, from) < 0 {
        None
    } else {
        Some(first_queued_from(states, from))
    }
}

/// A round of starts: `next_to_start` asked again after each start, from the
/// job after the one started, with one more running when that start took a
/// slot (`took`, in order; a spawn that failed takes none). The jobs picked,
/// in order, and how many run at the end.
pub open spec fn spec_start_round(
    states: Seq<State>,
    from: int,
    running: int,
    max: int,
    took: Seq<bool>,
) -> (Seq<int>, int)
    decreases states.len() - from,
{
    if from < 0 {
        (Seq::empty(), running)
    } else {
        match spec_next_to_start(states, from, running, max) {
            None => (Seq::empty(), running),
            Some(i) => {
                proof {
                    lemma_first_queued_from(states, from);
                }
                let t = took.len() > 0 && took[0];
                let rest = spec_start_round(
                    states,
                    i + 1,
                    if t {
                        running + 1
                    } else {
                        running
                    },
                    max,
                    took.drop_first(),
                );
                (seq![i] + rest.0, rest.1)
            },
        }
    }
}

/// A round of starts takes queued jobs only, oldest first, each once; with a
/// cap it never leaves more running than the cap allows (or than ran before),
/// and a queued job is left waiting only when the cap is reached. With no cap
/// (`max == 0`) every queued job is started.
pub proof fn law_start_round(states: Seq<State>, from: int, running: int, max: int, took: Seq<bool>)
    requires
        0 <= from,
        0 <= running,
        0 <= max,
    ensures
        ({
            let (picked, end) = spec_start_round(states, from, running, max, took);
            &&& forall|k: int| #![trigger picked[k]]
                0 <= k < picked.len() ==> from <= picked[k] < states.len() && states[picked[k]]
                    == State::Queued
            &&& forall|k: int, l: int| #![trigger picked[k], picked[l]]
                0 <= k < l < picked.len() ==> picked[k] < picked[l]
            &&& running <= end <= running + picked.len()
            &&& max > 0 ==> end <= max || (end == running && picked.len() == 0)
            &&& forall|j: int|
                from <= j < states.len() && states[j] == State::Queued && !picked.contains(j) ==> max
                    > 0 && end >= max
        }),
    decreases states.len() - from,
{
    lemma_first_queued_from(states, from);
    match spec_next_to_start(states, from, running, max) {
        None => {},
        Some(i) => {
            let t = took.len() > 0 && took[0];
            let r2 = if t {
                running + 1
            } else {
                running
            };
            law_start_round(states, i + 1, r2, max, took.drop_first());
            let rest = spec_start_round(states, i + 1, r2, max, took.drop_first());
            let (picked, end) = spec_start_round(states, from, running, max, took);
            assert(picked =~= seq![i] + rest.0);
            assert forall|k: int| #![trigger picked[k]] 0 <= k < picked.len() implies from <= picked[k]
                < states.len() && states[picked[k]] == State::Queued by {
                if k > 0 {
                    assert(picked[k] == rest.0[k - 1]);
                }
            }
            assert forall|k: int, l: int| #![trigger picked[k], picked[l]]
                0 <= k < l < picked.len() implies picked[k] < picked[l] by {
                assert(picked[l] == rest.0[l - 1]);
                if k > 0 {
                    assert(picked[k] == rest.0[k - 1]);
                } else {
                    assert(rest.0[l - 1] >= i + 1);
                }
            }
            assert forall|j: int|
                from <= j < states.len() && states[j] == State::Queued && !picked.contains(j) implies max
                > 0 && end >= max by {
                assert(picked[0] == i);
                if j > i {
                    if rest.0.contains(j) {
                        let k = choose|k: int| 0 <= k < rest.0.len() && rest.0[k] == j;
                        assert(picked[k + 1] == j);
                    }
                }
            }
        },
    }
}

/// Which queued job to start next, oldest first from `from`, with `running`
/// jobs already in flight; `max == 0` is no cap. None when every slot is taken
/// or nothing is queued.
pub fn next_to_start(states: &Vec<State>, from: usize, running: usize, max: usize) -> (r: Option<usize>)
    ensures
        max > 0 && running >= max ==> r is None,
        !(max > 0 && running >= max) ==> match r {
            Some(i) => i as int == first_queued_from(states@, from as int),
            None => first_queued_from(states@, from as int) == -1,
        },
        r matches Some(i) ==> from <= i < states@.len() && states@[i as int] == State::Queued && (
        max == 0 || running < max),
        spec_next_to_start(states@, from as int, running as int, max as int) == match r {
            Some(i) => Some(i as int),
            None => None::<int>,
        },
{
    if max > 0 && running >= max {
        return None;
    }
    let mut i = from;
    while i < states.len()
        invariant
            from <= i,
            !(max > 0 && running >= max),
            first_queued_from(states@, from as int) == first_queued_from(states@, i as int),
        decreases states@.len() - i,
    {
        if states[i] == State::Queued {
            return Some(i);
        }
        i = i + 1;
    }
    None
}

/// Where a round of starts goes on after job `started` was spawned: from the
/// job after it, with one more running when the spawn took a slot (a spawn
/// that failed takes none). With `next_to_start` this is one step of
/// `spec_start_round`.
pub fn after_start(started: usize, running: usize, took: bool) -> (r: (usize, usize))
    requires
        started < usize::MAX,
        running < usize::MAX,
    ensures
        r.0 == (if took {
            running + 1
        } else {
            running as int
        }),
        r.1 == started + 1,
{
    let running = if took {
        running + 1
    } else {
        running
    };
    (running, started + 1)
}

/// One step of a round, as `next_to_start` and `after_start` take it: the
/// round picks the job `next_to_start` gives, then goes on as `after_start`
/// says.
pub proof fn law_round_steps(
    states: Seq<State>,
    from: int,
    running: int,
    max: int,
    took: Seq<bool>,
    i: int,
)
    requires
        0 <= from,
        spec_next_to_start(states, from, running, max) == Some(i),
        took.len() > 0,
    ensures
        spec_start_round(states, from, running, max, took) == ({
            let rest = spec_start_round(
                states,
                i + 1,
                if took[0] {
                    running + 1
                } else {
                    running
                },
                max,
                took.drop_first(),
            );
            (seq![i] + rest.0, rest.1)
        }),
{
}

/// How many of `jobs` are running.
pub fn running_count(jobs: &Vec<Job>) -> (r: usize)
    ensures
        r as int == jobs@.filter(|j: Job| j@.running).len(),
{
    let mut n: usize = 0;
    let mut i: usize = 0;
    assert(jobs@.take(0).filter(|j: Job| j@.running) =~= Seq::<Job>::empty());
    while i < jobs.len()
        invariant
            i <= jobs@.len(),
            n as int == jobs@.take(i as int).filter(|j: Job| j@.running).len(),
            n <= i,
        decreases jobs@.len() - i,
    {
        assert(jobs@.take(i + 1).drop_last() =~= jobs@.take(i as int));
        reveal_with_fuel(Seq::filter, 1);
        if jobs[i].is_running() {
            n = n + 1;
        }
        i = i + 1;
    }
    assert(jobs@.take(jobs@.len() as int) =~= jobs@);
    n
}

// ---------------------------------------------------------------------------
// Reading the process's output
// ---------------------------------------------------------------------------

/// The complete lines of what has been read so far, and the unfinished tail
/// to keep: everything up to the last `\r` or `\n` is complete. None while no
/// line break has arrived.
pub open spec fn spec_complete_lines(pending: Seq<char>) -> Option<(Seq<Seq<char>>, Seq<char>)> {
    let i = last_where(pending, sep_pred(Sep::LineBreak));
    if i < 0 {
        None
    } else {
        Some((spec_split_lines(pending.take(i + 1)), pending.skip(i + 1)))
    }
}

/// Split what a reader has collected into complete lines and the tail that
/// is not a line yet.
pub fn complete_lines(pending: &str) -> (r: Option<(Vec<&str>, &str)>)
    ensures
        match r {
            None => spec_complete_lines(pending@) is None,
            Some((lines, tail)) => spec_complete_lines(pending@) == Some((views(lines@), tail@)),
        },
{
    let v = chars_of(pending);
    let n = v.len();
    let mut i = n;
    while i > 0 && !is_sep(&Sep::LineBreak, v[i - 1])
        invariant
            i <= n == v@.len(),
            forall|j: int| i <= j < n ==> !sep_pred(Sep::LineBreak)(v@[j]),
        decreases i,
    {
        i = i - 1;
    }
    proof {
        lemma_last_where_unique(pending@, sep_pred(Sep::LineBreak), i - 1);
    }
    if i == 0 {
        return None;
    }
    let head = pending.substring_char(0, i);
    let tail = pending.substring_char(i, n);
    assert(head@ =~= pending@.take(i as int));
    assert(tail@ =~= pending@.skip(i as int));
    Some((split_lines(head), tail))
}

/// What is left when the output ends: the unfinished tail, trimmed, if any.
pub fn final_line(pending: &str) -> (r: Option<&str>)
    ensures
        match r {
            None => trim(pending@).len() == 0,
            Some(t) => trim(pending@).len() > 0 && t@ == trim(pending@),
        },
{
    let v = chars_of(pending);
    assert(v@.subrange(0, v@.len() as int) =~= v@);
    let (a, b) = trim_at(&v, 0, v.len());
    if b > a {
        Some(pending.substring_char(a, b))
    } else {
        None
    }
}


/// With `--keep-video`, a download is swept exactly when it is a part of some
/// merged output, whichever merge it belongs to: a name is in the list if and
/// only if it was downloaded and one of the merged stems claims it.
pub proof fn law_sweep_takes_the_parts_of_every_merge(
    args: Seq<Seq<char>>,
    downloads: Seq<Seq<char>>,
    stems: Seq<Option<Seq<char>>>,
    d: Seq<char>,
)
    requires
        keeps_video(args),
    ensures
        spec_files_to_clean(args, downloads, stems).contains(d) <==> (downloads.contains(d) && exists|m: int|
            0 <= m < stems.len() && #[trigger] spec_part_of_stem(d, stems[m])),
    decreases downloads.len(),
{
    if downloads.len() > 0 {
        let rest = downloads.drop_last();
        let x = downloads.last();
        law_sweep_takes_the_parts_of_every_merge(args, rest, stems, d);
        let r = spec_files_to_clean(args, rest, stems);
        let out = spec_files_to_clean(args, downloads, stems);
        assert(downloads =~= rest.push(x));
        if rest.contains(d) {
            let j = choose|j: int| 0 <= j < rest.len() && rest[j] == d;
            assert(downloads[j] == d);
        }
        if downloads.contains(d) && d != x {
            let j = choose|j: int| 0 <= j < downloads.len() && downloads[j] == d;
            assert(j < rest.len());
            assert(rest[j] == d);
        }
        if downloads.contains(d) && d == x {
            assert(downloads[downloads.len() - 1] == d);
        }
        if r.contains(d) {
            let j = choose|j: int| 0 <= j < r.len() && r[j] == d;
            if exists|m: int| 0 <= m < stems.len() && spec_part_of_stem(x, stems[m]) {
                assert(out[j] == d);
            }
        }
        if exists|m: int| 0 <= m < stems.len() && spec_part_of_stem(x, stems[m]) {
            assert(out[r.len() as int] == x);
        }
        if out.contains(d) {
            let j = choose|j: int| 0 <= j < out.len() && out[j] == d;
            if j < r.len() {
                assert(r[j] == d);
            }
        }
    }
}

/// Output is taken in whole lines, where a bare `\r` ends a line as well as a
/// `\n`: nothing is taken exactly while no `\r` or `\n` has arrived; once one
/// has, the tail kept for later is what follows the last of them, so it holds
/// none, and the lines taken are those of everything before it.
pub proof fn law_complete_lines_end_at_either_break(pending: Seq<char>)
    ensures
        spec_complete_lines(pending) is None <==> forall|i: int|
            0 <= i < pending.len() ==> pending[i] != '\r' && pending[i] != '\n',
        spec_complete_lines(pending) matches Some((lines, tail)) ==> {
            let n = pending.len() - tail.len();
            &&& 0 < n <= pending.len()
            &&& (pending[n - 1] == '\r' || pending[n - 1] == '\n')
            &&& tail == pending.skip(n)
            &&& forall|i: int| 0 <= i < tail.len() ==> tail[i] != '\r' && tail[i] != '\n'
            &&& lines == spec_split_lines(pending.take(n))
        },
{
    let sep = sep_pred(Sep::LineBreak);
    lemma_last_where(pending, sep);
    let i = last_where(pending, sep);
    if i >= 0 {
        let tail = pending.skip(i + 1);
        assert forall|k: int| 0 <= k < tail.len() implies tail[k] != '\r' && tail[k] != '\n' by {
            assert(tail[k] == pending[i + 1 + k]);
            assert(!sep(pending[i + 1 + k]));
        }
    } else {
        assert forall|k: int| 0 <= k < pending.len() implies pending[k] != '\r' && pending[k] != '\n' by {
            assert(!sep(pending[k]));
        }
    }
}

} // verus!
