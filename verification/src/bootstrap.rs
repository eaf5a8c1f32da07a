//! The startup check for the tools rficus drives. yt-dlp is useless without
//! ffmpeg (merging video with audio and mp3 extraction both need it), so all
//! three are required: anything missing is fetched, and yt-dlp is brought up
//! to its latest release. The fetching and the process runs are the
//! caller's, on a worker thread; this module decides what to do next and what
//! the window shows of it.

use vstd::prelude::*;
use vstd::utf8::{decode_utf8, valid_utf8};
use crate::text::{chars_of, eq_char, first_where, string_views, trim, trim_at, find_char_at};
use crate::update::{is_newer, lossy_utf8, spec_is_newer, utf8_lossy};

verus! {

// ---------------------------------------------------------------------------
// Text
// ---------------------------------------------------------------------------

/// `parts.join(sep)`.
pub open spec fn join(parts: Seq<Seq<char>>, sep: Seq<char>) -> Seq<char>
    decreases parts.len(),
{
    if parts.len() == 0 {
        Seq::empty()
    } else if parts.len() == 1 {
        parts[0]
    } else {
        join(parts.drop_last(), sep) + sep + parts.last()
    }
}

pub fn join_strings(parts: &Vec<String>, sep: &str) -> (r: String)
    ensures
        r@ == join(string_views(parts@), sep@),
{
    let mut r = String::new();
    let mut k: usize = 0;
    while k < parts.len()
        invariant
            k <= parts@.len(),
            r@ == join(string_views(parts@.take(k as int)), sep@),
        decreases parts@.len() - k,
    {
        let ghost before = string_views(parts@.take(k as int));
        assert(string_views(parts@.take(k + 1)) =~= before.push(parts@[k as int]@));
        assert(before.push(parts@[k as int]@).drop_last() =~= before);
        if k > 0 {
            r.append(sep);
        }
        r.append(parts[k].as_str());
        k = k + 1;
    }
    assert(parts@.take(parts@.len() as int) =~= parts@);
    r
}

/// The first line of `text` as `str::lines` gives it: up to the first `\n`,
/// less the `\r` of a `\r\n`; None when the text is empty.
pub open spec fn first_line(text: Seq<char>) -> Option<Seq<char>> {
    if text.len() == 0 {
        None
    } else {
        let i = first_where(text, eq_char('\n'));
        if i < 0 {
            Some(text)
        } else if i > 0 && text[i - 1] == '\r' {
            Some(text.take(i - 1))
        } else {
            Some(text.take(i))
        }
    }
}

/// What `yt-dlp -U` came to: done when it exited successfully, else the
/// first line of what it wrote to stderr, trimmed, or "non-zero exit" when
/// that was empty.
pub open spec fn spec_self_update(success: bool, stderr: Seq<char>) -> Result<(), Seq<char>> {
    if success {
        Ok(())
    } else {
        match first_line(trim(stderr)) {
            Some(l) => Err(l),
            None => Err("non-zero exit"@),
        }
    }
}

/// yt-dlp replaces its own exe, including the Windows dance of renaming a
/// running binary; this reads how that went from its exit and its stderr.
pub fn self_update(success: bool, stderr: &[u8]) -> (r: Result<(), String>)
    ensures
        spec_self_update(success, lossy_utf8(stderr@)) == match r {
            Ok(()) => Ok(()),
            Err(e) => Err(e@),
        },
        valid_utf8(stderr@) ==> spec_self_update(success, decode_utf8(stderr@)) == match r {
            Ok(()) => Ok(()),
            Err(e) => Err(e@),
        },
        success <==> r is Ok,
{
    if success {
        return Ok(());
    }
    let text = utf8_lossy(stderr);
    let s = text.as_str();
    let v = chars_of(s);
    assert(v@.subrange(0, v@.len() as int) =~= v@);
    let (a, b) = trim_at(&v, 0, v.len());
    if a == b {
        return Err(String::from_str("non-zero exit"));
    }
    let ghost t = v@.subrange(a as int, b as int);
    let end = match find_char_at(&v, a, b, '\n') {
        None => b,
        Some(i) => {
            assert(v@.subrange(a as int, i as int) =~= t.take(i - a));
            if i > a && v[i - 1] == '\r' {
                assert(t[i - a - 1] == v@[i - 1]);
                assert(v@.subrange(a as int, i - 1) =~= t.take(i - a - 1));
                i - 1
            } else {
                i
            }
        },
    };
    Err(String::from_str(s.substring_char(a, end)))
}

// ---------------------------------------------------------------------------
// What the window shows
// ---------------------------------------------------------------------------

/// What the worker reports.
pub enum BootstrapMsg {
    Status(String),
    /// Bytes done and bytes in all, while a download's size is known.
    Progress(Option<(u64, u64)>),
    /// Finished: the yt-dlp version it ended up with, and what failed.
    Done(Option<String>, Vec<String>),
}

pub enum BootstrapMsgView {
    Status(Seq<char>),
    Progress(Option<(u64, u64)>),
    Done(Option<Seq<char>>, Seq<Seq<char>>),
}

impl View for BootstrapMsg {
    type V = BootstrapMsgView;

    open spec fn view(&self) -> BootstrapMsgView {
        match self {
            BootstrapMsg::Status(s) => BootstrapMsgView::Status(s@),
            BootstrapMsg::Progress(p) => BootstrapMsgView::Progress(*p),
            BootstrapMsg::Done(Some(v), ps) => BootstrapMsgView::Done(Some(v@), string_views(ps@)),
            BootstrapMsg::Done(None, ps) => BootstrapMsgView::Done(None, string_views(ps@)),
        }
    }
}

/// The status line once the tool check is over.
pub open spec fn spec_done_status(version: Option<Seq<char>>, problems: Seq<Seq<char>>) -> Seq<char> {
    match version {
        Some(v) => if problems.len() == 0 {
            "yt-dlp "@ + v
        } else {
            "yt-dlp "@ + v + " - "@ + join(problems, "; "@)
        },
        None => join(problems, "; "@),
    }
}

pub fn done_status(version: Option<&str>, problems: &Vec<String>) -> (r: String)
    ensures
        r@ == spec_done_status(
            match version {
                Some(v) => Some(v@),
                None => None,
            },
            string_views(problems@),
        ),
{
    match version {
        Some(v) => {
            let mut s = String::from_str("yt-dlp ");
            s.append(v);
            if problems.len() > 0 {
                s.append(" - ");
                let j = join_strings(problems, "; ");
                s.append(j.as_str());
            }
            s
        },
        None => join_strings(problems, "; "),
    }
}

/// The tool check as the window sees it.
pub struct Bootstrap {
    pub status: String,
    pub progress: Option<(u64, u64)>,
    pub version: Option<String>,
    pub problems: Vec<String>,
    pub busy: bool,
    /// Set for one poll when the worker finishes, so the app can look again
    /// for tools that may not have existed when it started.
    pub just_finished: bool,
}

pub struct BootstrapView {
    pub status: Seq<char>,
    pub progress: Option<(u64, u64)>,
    pub version: Option<Seq<char>>,
    pub problems: Seq<Seq<char>>,
    pub busy: bool,
    pub just_finished: bool,
}

impl View for Bootstrap {
    type V = BootstrapView;

    open spec fn view(&self) -> BootstrapView {
        BootstrapView {
            status: self.status@,
            progress: self.progress,
            version: match self.version {
                Some(v) => Some(v@),
                None => None,
            },
            problems: string_views(self.problems@),
            busy: self.busy,
            just_finished: self.just_finished,
        }
    }
}

/// The state after one report.
pub open spec fn spec_bootstrap_apply(b: BootstrapView, m: BootstrapMsgView) -> BootstrapView {
    match m {
        BootstrapMsgView::Status(s) => BootstrapView { status: s, ..b },
        BootstrapMsgView::Progress(p) => BootstrapView { progress: p, ..b },
        BootstrapMsgView::Done(v, ps) => BootstrapView {
            status: spec_done_status(v, ps),
            progress: None,
            version: v,
            problems: ps,
            busy: false,
            just_finished: true,
        },
    }
}

impl Bootstrap {
    /// A check that has just started.
    pub fn start() -> (b: Bootstrap)
        ensures
            b@ == (BootstrapView {
                status: "Checking tools…"@,
                progress: None,
                version: None,
                problems: Seq::empty(),
                busy: true,
                just_finished: false,
            }),
    {
        let b = Bootstrap {
            status: String::from_str("Checking tools…"),
            progress: None,
            version: None,
            problems: Vec::new(),
            busy: true,
            just_finished: false,
        };
        assert(string_views(b.problems@) =~= Seq::<Seq<char>>::empty());
        b
    }

    /// A new poll: whatever finished before has been seen.
    pub fn begin_poll(&mut self)
        ensures
            final(self)@ == (BootstrapView { just_finished: false, ..old(self)@ }),
    {
        self.just_finished = false;
    }

    /// Fold in one report from the worker.
    pub fn apply(&mut self, msg: BootstrapMsg)
        ensures
            final(self)@ == spec_bootstrap_apply(old(self)@, msg@),
    {
        match msg {
            BootstrapMsg::Status(s) => {
                self.status = s;
            },
            BootstrapMsg::Progress(p) => {
                self.progress = p;
            },
            BootstrapMsg::Done(version, problems) => {
                let status = match &version {
                    Some(v) => done_status(Some(v.as_str()), &problems),
                    None => done_status(None, &problems),
                };
                self.version = version;
                self.problems = problems;
                self.progress = None;
                self.busy = false;
                self.just_finished = true;
                self.status = status;
            },
        }
    }

    /// The worker has gone away: nothing more will come.
    pub fn disconnected(&mut self)
        ensures
            final(self)@ == (BootstrapView { busy: false, ..old(self)@ }),
    {
        self.busy = false;
    }
}

/// One progress report per 256 KB (per chunk would flood the channel), and
/// one when the count reaches the size; with no size known, a count of
/// `u64::MAX` stands in for it. `done` never falls below the last report.
pub fn progress_due(done: u64, last: u64, total: Option<u64>) -> (r: bool)
    requires
        last <= done,
    ensures
        r == (done - last >= 256 * 1024 || done == match total {
            Some(t) => t,
            None => u64::MAX,
        }),
{
    let end = match total {
        Some(t) => t,
        None => u64::MAX,
    };
    !(done - last < 256 * 1024 && done != end)
}

/// Which files of ffmpeg's `bin/` are copied next to the exe: every file but
/// `ffplay.exe`, a player nothing here opens. A shared build is useless
/// without the libraries beside it, so the rest all go.
pub fn copy_from_archive(name: &str, is_file: bool) -> (r: bool)
    ensures
        r == (is_file && name@ != "ffplay.exe"@),
{
    let skip = String::from_str("ffplay.exe");
    let n = String::from_str(name);
    is_file && n != skip
}

// ---------------------------------------------------------------------------
// The worker's script
// ---------------------------------------------------------------------------

/// The outside work the worker does next, each answered by one `Event`.
#[derive(Clone, Copy, PartialEq, Eq, Debug, Structural)]
pub enum Work {
    /// Look for yt-dlp next to the exe: `Event::Found`.
    FindYtDlp,
    /// Download yt-dlp next to the exe: `Event::Downloaded`.
    DownloadYtDlp,
    /// Run the yt-dlp that was found with `--version`: `Event::Version`. One
    /// that cannot say is taken for missing.
    AskVersion,
    /// The same, of a yt-dlp just downloaded.
    AskDownloadedVersion,
    /// The same, after `yt-dlp -U`.
    AskUpdatedVersion,
    /// Fetch the latest release's tag: `Event::Latest`.
    AskLatest,
    /// Run `yt-dlp -U`: `Event::Updated`.
    UpdateYtDlp,
    /// See whether ffmpeg and ffprobe are there and start: `Event::Usable`.
    CheckFfmpeg,
    /// Download and unpack ffmpeg: `Event::Installed`.
    InstallFfmpeg,
    /// Nothing more: report `Worker::into_done`.
    Finish,
}

/// What the outside work came to.
pub enum Event {
    Found(bool),
    Downloaded(Result<(), String>),
    Version(Option<String>),
    Latest(Option<String>),
    Updated(Result<(), String>),
    Usable { ffmpeg: bool, ffprobe: bool },
    Installed(Result<(), String>),
}

pub enum EventView {
    Found(bool),
    Downloaded(Result<(), Seq<char>>),
    Version(Option<Seq<char>>),
    Latest(Option<Seq<char>>),
    Updated(Result<(), Seq<char>>),
    Usable { ffmpeg: bool, ffprobe: bool },
    Installed(Result<(), Seq<char>>),
}

pub open spec fn res_view(r: Result<(), String>) -> Result<(), Seq<char>> {
    match r {
        Ok(()) => Ok(()),
        Err(e) => Err(e@),
    }
}

pub open spec fn opt_string(o: Option<String>) -> Option<Seq<char>> {
    match o {
        Some(s) => Some(s@),
        None => None,
    }
}

impl View for Event {
    type V = EventView;

    open spec fn view(&self) -> EventView {
        match self {
            Event::Found(b) => EventView::Found(*b),
            Event::Downloaded(r) => EventView::Downloaded(res_view(*r)),
            Event::Version(v) => EventView::Version(opt_string(*v)),
            Event::Latest(v) => EventView::Latest(opt_string(*v)),
            Event::Updated(r) => EventView::Updated(res_view(*r)),
            Event::Usable { ffmpeg, ffprobe } => EventView::Usable { ffmpeg: *ffmpeg, ffprobe: *ffprobe },
            Event::Installed(r) => EventView::Installed(res_view(*r)),
        }
    }
}

/// The event that answers `w`.
pub open spec fn answers(w: Work, e: EventView) -> bool {
    match w {
        Work::FindYtDlp => e is Found,
        Work::DownloadYtDlp => e is Downloaded,
        Work::AskVersion | Work::AskDownloadedVersion | Work::AskUpdatedVersion => e is Version,
        Work::AskLatest => e is Latest,
        Work::UpdateYtDlp => e is Updated,
        Work::CheckFfmpeg => e is Usable,
        Work::InstallFfmpeg => e is Installed,
        Work::Finish => false,
    }
}

/// Where a piece of work stands in the script; each step moves later.
pub open spec fn rank(w: Work) -> int {
    match w {
        Work::FindYtDlp => 0,
        Work::AskVersion => 1,
        Work::DownloadYtDlp => 2,
        Work::AskDownloadedVersion => 3,
        Work::AskLatest => 4,
        Work::UpdateYtDlp => 5,
        Work::AskUpdatedVersion => 6,
        Work::CheckFfmpeg => 7,
        Work::InstallFfmpeg => 8,
        Work::Finish => 9,
    }
}

/// The worker's memory between steps.
pub struct Worker {
    online: bool,
    version: Option<String>,
    problems: Vec<String>,
    pending: Work,
}

pub struct WorkerView {
    /// Whether it may use the network.
    pub online: bool,
    /// The yt-dlp version found so far.
    pub version: Option<Seq<char>>,
    pub problems: Seq<Seq<char>>,
    /// The work whose answer it waits for.
    pub pending: Work,
}

impl View for Worker {
    type V = WorkerView;

    closed spec fn view(&self) -> WorkerView {
        WorkerView {
            online: self.online,
            version: opt_string(self.version),
            problems: string_views(self.problems@),
            pending: self.pending,
        }
    }
}

/// The ffmpeg tools that are missing, in the order they are checked.
pub open spec fn missing_tools(ffmpeg: bool, ffprobe: bool) -> Seq<Seq<char>> {
    let a: Seq<Seq<char>> = if ffmpeg {
        seq![]
    } else {
        seq!["ffmpeg.exe"@]
    };
    if ffprobe {
        a
    } else {
        a.push("ffprobe.exe"@)
    }
}

/// yt-dlp is behind the latest release `latest`: its version is known and
/// older, compared as numbers.
pub open spec fn behind(version: Option<Seq<char>>, latest: Seq<char>) -> bool {
    match version {
        Some(v) => spec_is_newer(latest, v) == Some(true),
        None => false,
    }
}

/// After yt-dlp's version is known (or cannot be): ask for the latest
/// release when online and yt-dlp is there, else go on to ffmpeg.
pub open spec fn after_version(w: WorkerView, have_yt: bool) -> (WorkerView, Seq<BootstrapMsgView>, Work) {
    if w.online && have_yt {
        (
            WorkerView { pending: Work::AskLatest, ..w },
            seq![BootstrapMsgView::Status("Checking for a newer yt-dlp…"@)],
            Work::AskLatest,
        )
    } else {
        (WorkerView { pending: Work::CheckFfmpeg, ..w }, seq![], Work::CheckFfmpeg)
    }
}

/// One step of the script: the worker's state after `e` answers its pending
/// work, the reports to send, and the work to do next.
pub open spec fn spec_step(w: WorkerView, e: EventView) -> (WorkerView, Seq<BootstrapMsgView>, Work) {
    match e {
        EventView::Found(true) => (WorkerView { pending: Work::AskVersion, ..w }, seq![], Work::AskVersion),
        EventView::Found(false) => (
            WorkerView { pending: Work::DownloadYtDlp, ..w },
            seq![BootstrapMsgView::Status("Downloading yt-dlp…"@)],
            Work::DownloadYtDlp,
        ),
        EventView::Downloaded(Ok(())) => (
            WorkerView { pending: Work::AskDownloadedVersion, ..w },
            seq![BootstrapMsgView::Progress(None)],
            Work::AskDownloadedVersion,
        ),
        EventView::Downloaded(Err(err)) => {
            let w2 = WorkerView { problems: w.problems.push("yt-dlp download failed: "@ + err), ..w };
            let (w3, msgs, next) = after_version(w2, false);
            (w3, seq![BootstrapMsgView::Progress(None)] + msgs, next)
        },
        EventView::Version(v) => match w.pending {
            Work::AskUpdatedVersion => (
                WorkerView { version: v, pending: Work::CheckFfmpeg, ..w },
                seq![],
                Work::CheckFfmpeg,
            ),
            Work::AskVersion => if v is None {
                (
                    WorkerView { pending: Work::DownloadYtDlp, ..w },
                    seq![BootstrapMsgView::Status("Downloading yt-dlp…"@)],
                    Work::DownloadYtDlp,
                )
            } else {
                after_version(WorkerView { version: v, ..w }, true)
            },
            _ => after_version(WorkerView { version: v, ..w }, true),
        },
        EventView::Latest(Some(l)) => if behind(w.version, l) {
            (
                WorkerView { pending: Work::UpdateYtDlp, ..w },
                seq![BootstrapMsgView::Status("Updating yt-dlp to "@ + l + "…"@)],
                Work::UpdateYtDlp,
            )
        } else {
            (WorkerView { pending: Work::CheckFfmpeg, ..w }, seq![], Work::CheckFfmpeg)
        },
        EventView::Latest(None) => (
            WorkerView {
                problems: w.problems.push("could not reach github for the version check"@),
                pending: Work::CheckFfmpeg,
                ..w
            },
            seq![],
            Work::CheckFfmpeg,
        ),
        EventView::Updated(Ok(())) => (
            WorkerView { pending: Work::AskUpdatedVersion, ..w },
            seq![],
            Work::AskUpdatedVersion,
        ),
        EventView::Updated(Err(err)) => (
            WorkerView {
                problems: w.problems.push("yt-dlp update failed: "@ + err),
                pending: Work::CheckFfmpeg,
                ..w
            },
            seq![],
            Work::CheckFfmpeg,
        ),
        EventView::Usable { ffmpeg, ffprobe } => if ffmpeg && ffprobe {
            (WorkerView { pending: Work::Finish, ..w }, seq![], Work::Finish)
        } else {
            (
                WorkerView { pending: Work::InstallFfmpeg, ..w },
                seq![
                    BootstrapMsgView::Status(
                        "Downloading ffmpeg ("@ + join(missing_tools(ffmpeg, ffprobe), ", "@) + ")…"@,
                    ),
                ],
                Work::InstallFfmpeg,
            )
        },
        EventView::Installed(r) => (
            WorkerView {
                problems: match r {
                    Ok(()) => w.problems,
                    Err(err) => w.problems.push("ffmpeg download failed: "@ + err),
                },
                pending: Work::Finish,
                ..w
            },
            seq![BootstrapMsgView::Progress(None)],
            Work::Finish,
        ),
    }
}

/// With `check_updates` off the tool check never touches the network: whatever
/// happens, it neither asks for the latest release nor runs an update.
pub proof fn law_offline_never_asks_github(w: WorkerView, e: EventView)
    requires
        !w.online,
        answers(w.pending, e),
        w.pending != Work::AskLatest,
        w.pending != Work::UpdateYtDlp,
    ensures
        spec_step(w, e).2 != Work::AskLatest,
        spec_step(w, e).2 != Work::UpdateYtDlp,
        !spec_step(w, e).0.online,
{
}

/// The worker after answering `events` in turn.
pub open spec fn spec_run(w: WorkerView, events: Seq<EventView>) -> WorkerView
    decreases events.len(),
{
    if events.len() == 0 {
        w
    } else {
        spec_step(spec_run(w, events.drop_last()), events.last()).0
    }
}

/// Each of `events` answers the work pending when it comes.
pub open spec fn answers_all(w: WorkerView, events: Seq<EventView>) -> bool {
    forall|i: int| #![trigger events[i]]
        0 <= i < events.len() ==> answers(spec_run(w, events.take(i)).pending, events[i])
}

/// The same over a whole run: an offline tool check that answers any number
/// of events still has the network off, and the work it waits for is never
/// the latest release nor an update.
pub proof fn law_offline_run_never_asks_github(w: WorkerView, events: Seq<EventView>)
    requires
        !w.online,
        w.pending != Work::AskLatest,
        w.pending != Work::UpdateYtDlp,
        answers_all(w, events),
    ensures
        !spec_run(w, events).online,
        spec_run(w, events).pending != Work::AskLatest,
        spec_run(w, events).pending != Work::UpdateYtDlp,
    decreases events.len(),
{
    if events.len() > 0 {
        let rest = events.drop_last();
        assert forall|i: int| #![trigger rest[i]] 0 <= i < rest.len() implies answers(
            spec_run(w, rest.take(i)).pending,
            rest[i],
        ) by {
            assert(rest.take(i) =~= events.take(i));
            assert(rest[i] == events[i]);
        }
        law_offline_run_never_asks_github(w, rest);
        let n = events.len() - 1;
        assert(events.take(n) =~= rest);
        assert(answers(spec_run(w, events.take(n)).pending, events[n]));
        law_offline_never_asks_github(spec_run(w, rest), events.last());
    }
}

/// `yt-dlp -U` runs only when yt-dlp is behind: when the latest release is
/// newer than the version it reported.
pub proof fn law_update_only_when_behind(w: WorkerView, e: EventView)
    requires
        answers(w.pending, e),
        spec_step(w, e).2 == Work::UpdateYtDlp,
    ensures
        e matches EventView::Latest(Some(l)) && behind(w.version, l),
{
}

/// Each tool is checked to run, not merely to exist: a yt-dlp that was found
/// but cannot report its version is downloaded like a missing one.
pub proof fn law_unusable_yt_dlp_is_downloaded(w: WorkerView)
    requires
        w.pending == Work::AskVersion,
    ensures
        spec_step(w, EventView::Version(None)).2 == Work::DownloadYtDlp,
        spec_step(w, EventView::Found(false)).2 == Work::DownloadYtDlp,
{
}

/// ffmpeg and ffprobe are checked to run: when either is not usable, ffmpeg
/// is installed; when both are, the check is done.
pub proof fn law_unusable_ffmpeg_is_installed(w: WorkerView, ffmpeg: bool, ffprobe: bool)
    requires
        w.pending == Work::CheckFfmpeg,
    ensures
        spec_step(w, EventView::Usable { ffmpeg, ffprobe }).2 == (if ffmpeg && ffprobe {
            Work::Finish
        } else {
            Work::InstallFfmpeg
        }),
{
}

/// Every answered step moves the script on, so a run ends after at most as
/// many steps as the script has places; what it waits for next is the work it
/// asked for; and a step only ever adds a problem, at most one, to those
/// already found.
pub proof fn law_each_step_moves_on(w: WorkerView, e: EventView)
    requires
        answers(w.pending, e),
    ensures
        rank(spec_step(w, e).2) > rank(w.pending),
        spec_step(w, e).0.pending == spec_step(w, e).2,
        w.problems.is_prefix_of(spec_step(w, e).0.problems),
        spec_step(w, e).0.problems.len() <= w.problems.len() + 1,
        spec_step(w, e).0.online == w.online,
{
}

/// Over a whole run: each answered event moves the script at least one place
/// on, so no run answers more events than the script has places after the
/// start; and the problems found along the way are only ever added to.
pub proof fn law_run_moves_on(w: WorkerView, events: Seq<EventView>)
    requires
        answers_all(w, events),
    ensures
        rank(spec_run(w, events).pending) >= rank(w.pending) + events.len(),
        rank(spec_run(w, events).pending) <= rank(Work::Finish),
        w.problems.is_prefix_of(spec_run(w, events).problems),
    decreases events.len(),
{
    if events.len() > 0 {
        let rest = events.drop_last();
        assert forall|i: int| #![trigger rest[i]] 0 <= i < rest.len() implies answers(
            spec_run(w, rest.take(i)).pending,
            rest[i],
        ) by {
            assert(rest.take(i) =~= events.take(i));
            assert(rest[i] == events[i]);
        }
        law_run_moves_on(w, rest);
        let n = events.len() - 1;
        assert(events.take(n) =~= rest);
        assert(answers(spec_run(w, events.take(n)).pending, events[n]));
        law_each_step_moves_on(spec_run(w, rest), events.last());
        let p0 = spec_run(w, rest).problems;
        let p1 = spec_run(w, events).problems;
        assert(w.problems.is_prefix_of(p1)) by {
            assert forall|k: int| 0 <= k < w.problems.len() implies w.problems[k] == p1[k] by {
                assert(w.problems[k] == p0[k]);
            }
        }
    }
}

/// A failure does not stop the rest: every step before the ffmpeg check
/// leads at the latest to it, so ffmpeg and ffprobe are always checked.
pub proof fn law_ffmpeg_is_always_checked(w: WorkerView, e: EventView)
    requires
        answers(w.pending, e),
        rank(w.pending) < rank(Work::CheckFfmpeg),
    ensures
        rank(spec_step(w, e).2) <= rank(Work::CheckFfmpeg),
{
}

pub open spec fn msg_views(ms: Seq<BootstrapMsg>) -> Seq<BootstrapMsgView> {
    ms.map_values(|m: BootstrapMsg| m@)
}

fn status(text: String) -> (r: Vec<BootstrapMsg>)
    ensures
        msg_views(r@) == seq![BootstrapMsgView::Status(text@)],
{
    let r = vec![BootstrapMsg::Status(text)];
    assert(msg_views(r@) =~= seq![BootstrapMsgView::Status(text@)]);
    r
}

fn prefixed(p: &str, s: &str) -> (r: String)
    ensures
        r@ == p@ + s@,
{
    let mut r = String::from_str(p);
    r.append(s);
    r
}

impl Worker {
    /// The script's start: it first looks for yt-dlp.
    pub fn new(online: bool) -> (w: Worker)
        ensures
            w@ == (WorkerView { online, version: None, problems: Seq::empty(), pending: Work::FindYtDlp }),
    {
        let w = Worker { online, version: None, problems: Vec::new(), pending: Work::FindYtDlp };
        assert(string_views(w.problems@) =~= Seq::<Seq<char>>::empty());
        w
    }

    pub fn pending(&self) -> (r: Work)
        ensures
            r == self@.pending,
    {
        self.pending
    }

    fn push_problem(&mut self, p: &str, s: &str)
        ensures
            final(self)@ == (WorkerView { problems: old(self)@.problems.push(p@ + s@), ..old(self)@ }),
    {
        let e = prefixed(p, s);
        let ghost before = self.problems@;
        self.problems.push(e);
        assert(string_views(self.problems@) =~= string_views(before).push(p@ + s@));
    }

    fn after_version(&mut self, have_yt: bool) -> (r: (Vec<BootstrapMsg>, Work))
        ensures
            (final(self)@, msg_views(r.0@), r.1) == after_version(old(self)@, have_yt),
    {
        if self.online && have_yt {
            self.pending = Work::AskLatest;
            (status(String::from_str("Checking for a newer yt-dlp…")), Work::AskLatest)
        } else {
            self.pending = Work::CheckFfmpeg;
            let r: Vec<BootstrapMsg> = Vec::new();
            assert(msg_views(r@) =~= Seq::<BootstrapMsgView>::empty());
            (r, Work::CheckFfmpeg)
        }
    }

    /// Take the answer to the pending work: the reports to send, and the work
    /// to do next, which always stands later in the script.
    pub fn step(&mut self, e: Event) -> (r: (Vec<BootstrapMsg>, Work))
        requires
            answers(old(self)@.pending, e@),
        ensures
            (final(self)@, msg_views(r.0@), r.1) == spec_step(old(self)@, e@),
            r.1 == final(self)@.pending,
            rank(old(self)@.pending) < rank(r.1),
            old(self)@.problems.is_prefix_of(final(self)@.problems),
    {
        let ghost w = self@;
        let none: Vec<BootstrapMsg> = Vec::new();
        assert(msg_views(none@) =~= Seq::<BootstrapMsgView>::empty());
        let r = match e {
            Event::Found(true) => {
                self.pending = Work::AskVersion;
                (none, Work::AskVersion)
            },
            Event::Found(false) => {
                self.pending = Work::DownloadYtDlp;
                (status(String::from_str("Downloading yt-dlp…")), Work::DownloadYtDlp)
            },
            Event::Downloaded(Ok(())) => {
                self.pending = Work::AskDownloadedVersion;
                let m = vec![BootstrapMsg::Progress(None)];
                assert(msg_views(m@) =~= seq![BootstrapMsgView::Progress(None)]);
                (m, Work::AskDownloadedVersion)
            },
            Event::Downloaded(Err(err)) => {
                self.push_problem("yt-dlp download failed: ", err.as_str());
                let mut m = vec![BootstrapMsg::Progress(None)];
                let (mut rest, next) = self.after_version(false);
                let ghost rv = msg_views(rest@);
                m.append(&mut rest);
                assert(msg_views(m@) =~= seq![BootstrapMsgView::Progress(None)] + rv);
                (m, next)
            },
            Event::Version(v) => {
                match self.pending {
                    Work::AskUpdatedVersion => {
                        self.version = v;
                        self.pending = Work::CheckFfmpeg;
                        (none, Work::CheckFfmpeg)
                    },
                    Work::AskVersion => {
                        if v.is_none() {
                            self.pending = Work::DownloadYtDlp;
                            (status(String::from_str("Downloading yt-dlp…")), Work::DownloadYtDlp)
                        } else {
                            self.version = v;
                            self.after_version(true)
                        }
                    },
                    _ => {
                        self.version = v;
                        self.after_version(true)
                    },
                }
            },
            Event::Latest(Some(l)) => {
                let behind_now = match &self.version {
                    Some(v) => is_newer(l.as_str(), v.as_str()) == Some(true),
                    None => false,
                };
                if behind_now {
                    self.pending = Work::UpdateYtDlp;
                    let mut t = prefixed("Updating yt-dlp to ", l.as_str());
                    t.append("…");
                    (status(t), Work::UpdateYtDlp)
                } else {
                    self.pending = Work::CheckFfmpeg;
                    (none, Work::CheckFfmpeg)
                }
            },
            Event::Latest(None) => {
                let ghost before = self.problems@;
                self.problems.push(String::from_str("could not reach github for the version check"));
                assert(string_views(self.problems@) =~= string_views(before).push(
                    "could not reach github for the version check"@,
                ));
                self.pending = Work::CheckFfmpeg;
                (none, Work::CheckFfmpeg)
            },
            Event::Updated(Ok(())) => {
                self.pending = Work::AskUpdatedVersion;
                (none, Work::AskUpdatedVersion)
            },
            Event::Updated(Err(err)) => {
                self.push_problem("yt-dlp update failed: ", err.as_str());
                self.pending = Work::CheckFfmpeg;
                (none, Work::CheckFfmpeg)
            },
            Event::Usable { ffmpeg, ffprobe } => {
                if ffmpeg && ffprobe {
                    self.pending = Work::Finish;
                    (none, Work::Finish)
                } else {
                    let mut names: Vec<String> = Vec::new();
                    if !ffmpeg {
                        names.push(String::from_str("ffmpeg.exe"));
                    }
                    if !ffprobe {
                        names.push(String::from_str("ffprobe.exe"));
                    }
                    assert(string_views(names@) =~= missing_tools(ffmpeg, ffprobe));
                    let mut t = String::from_str("Downloading ffmpeg (");
                    let j = join_strings(&names, ", ");
                    t.append(j.as_str());
                    t.append(")…");
                    self.pending = Work::InstallFfmpeg;
                    (status(t), Work::InstallFfmpeg)
                }
            },
            Event::Installed(res) => {
                match res {
                    Ok(()) => {},
                    Err(err) => self.push_problem("ffmpeg download failed: ", err.as_str()),
                }
                self.pending = Work::Finish;
                let m = vec![BootstrapMsg::Progress(None)];
                assert(msg_views(m@) =~= seq![BootstrapMsgView::Progress(None)]);
                (m, Work::Finish)
            },
        };
        r
    }

    /// The final report: the version it ended up with, and what failed.
    pub fn into_done(self) -> (m: BootstrapMsg)
        ensures
            m@ == BootstrapMsgView::Done(self@.version, self@.problems),
    {
        BootstrapMsg::Done(self.version, self.problems)
    }
}

} // verus!
