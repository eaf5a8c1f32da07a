//! The About window's state: where a self-update stands, what the update card
//! says about it, and what the window asks of the app when it closes. The
//! network work and the drawing are the caller's; the worker reports back in
//! `UpdateMsg`s that `SelfUpdate::apply` folds in.

use vstd::prelude::*;

verus! {

/// Where rficus's own update stands. A download reports how far it got as
/// (bytes done, bytes in all), when the size is known.
pub enum Update {
    /// Automatic checks are off and nobody has asked yet.
    Idle,
    Checking,
    UpToDate,
    Available(String),
    Downloading(String, Option<(u64, u64)>),
    Installed(String),
    Failed(String),
}

pub enum UpdateView {
    Idle,
    Checking,
    UpToDate,
    Available(Seq<char>),
    Downloading(Seq<char>, Option<(u64, u64)>),
    Installed(Seq<char>),
    Failed(Seq<char>),
}

impl View for Update {
    type V = UpdateView;

    open spec fn view(&self) -> UpdateView {
        match self {
            Update::Idle => UpdateView::Idle,
            Update::Checking => UpdateView::Checking,
            Update::UpToDate => UpdateView::UpToDate,
            Update::Available(v) => UpdateView::Available(v@),
            Update::Downloading(v, p) => UpdateView::Downloading(v@, *p),
            Update::Installed(v) => UpdateView::Installed(v@),
            Update::Failed(e) => UpdateView::Failed(e@),
        }
    }
}

/// What the update worker reports.
pub enum UpdateMsg {
    /// The update check's answer: a newer version, none, or why it failed.
    Checked(Result<Option<String>, String>),
    /// How far the download got, when its size is known.
    Progress(Option<(u64, u64)>),
    Installed(Result<(), String>),
}

pub enum UpdateMsgView {
    Checked(Result<Option<Seq<char>>, Seq<char>>),
    Progress(Option<(u64, u64)>),
    Installed(Result<(), Seq<char>>),
}

impl View for UpdateMsg {
    type V = UpdateMsgView;

    open spec fn view(&self) -> UpdateMsgView {
        match self {
            UpdateMsg::Checked(Ok(Some(v))) => UpdateMsgView::Checked(Ok(Some(v@))),
            UpdateMsg::Checked(Ok(None)) => UpdateMsgView::Checked(Ok(None)),
            UpdateMsg::Checked(Err(e)) => UpdateMsgView::Checked(Err(e@)),
            UpdateMsg::Progress(p) => UpdateMsgView::Progress(*p),
            UpdateMsg::Installed(Ok(())) => UpdateMsgView::Installed(Ok(())),
            UpdateMsg::Installed(Err(e)) => UpdateMsgView::Installed(Err(e@)),
        }
    }
}

/// The state after a report. A check's answer and a failed install always
/// land; progress and a finished install only while downloading; anything
/// else leaves the state as it was.
pub open spec fn spec_apply(s: UpdateView, m: UpdateMsgView) -> UpdateView {
    match m {
        UpdateMsgView::Checked(Ok(Some(v))) => UpdateView::Available(v),
        UpdateMsgView::Checked(Ok(None)) => UpdateView::UpToDate,
        UpdateMsgView::Checked(Err(e)) => UpdateView::Failed(e),
        UpdateMsgView::Progress(p) => match s {
            UpdateView::Downloading(v, _) => UpdateView::Downloading(v, p),
            _ => s,
        },
        UpdateMsgView::Installed(Ok(())) => match s {
            UpdateView::Downloading(v, _) => UpdateView::Installed(v),
            _ => s,
        },
        UpdateMsgView::Installed(Err(e)) => UpdateView::Failed(e),
    }
}

/// rficus's own update, as far as the window knows.
pub struct SelfUpdate {
    pub state: Update,
}

impl SelfUpdate {
    /// Checking from the start when automatic checks are on, idle otherwise.
    pub fn new(check: bool) -> (s: SelfUpdate)
        ensures
            s.state@ == if check {
                UpdateView::Checking
            } else {
                UpdateView::Idle
            },
    {
        if check {
            SelfUpdate { state: Update::Checking }
        } else {
            SelfUpdate { state: Update::Idle }
        }
    }

    /// A check has been started.
    pub fn check(&mut self)
        ensures
            final(self).state@ == UpdateView::Checking,
    {
        self.state = Update::Checking;
    }

    /// Start installing the version on offer: the version to fetch, with the
    /// state now downloading it; None, and nothing changed, when no version is
    /// on offer.
    pub fn install(&mut self) -> (r: Option<String>)
        ensures
            match old(self).state@ {
                UpdateView::Available(v) => {
                    &&& r matches Some(w) && w@ == v
                    &&& final(self).state@ == UpdateView::Downloading(v, None)
                },
                _ => r is None && final(self).state@ == old(self).state@,
            },
    {
        let v = match &self.state {
            Update::Available(v) => v.clone(),
            _ => {
                return None;
            },
        };
        self.state = Update::Downloading(v.clone(), None);
        Some(v)
    }

    /// Fold in one report from the worker.
    pub fn apply(&mut self, msg: UpdateMsg)
        ensures
            final(self).state@ == spec_apply(old(self).state@, msg@),
    {
        match msg {
            UpdateMsg::Checked(Ok(Some(v))) => {
                self.state = Update::Available(v);
            },
            UpdateMsg::Checked(Ok(None)) => {
                self.state = Update::UpToDate;
            },
            UpdateMsg::Checked(Err(e)) => {
                self.state = Update::Failed(e);
            },
            UpdateMsg::Progress(p) => {
                let v = match &self.state {
                    Update::Downloading(v, _) => v.clone(),
                    _ => {
                        return ;
                    },
                };
                self.state = Update::Downloading(v, p);
            },
            UpdateMsg::Installed(Ok(())) => {
                let v = match &self.state {
                    Update::Downloading(v, _) => v.clone(),
                    _ => {
                        return ;
                    },
                };
                self.state = Update::Installed(v);
            },
            UpdateMsg::Installed(Err(e)) => {
                self.state = Update::Failed(e);
            },
        }
    }

    /// Worth a badge on the About button.
    pub fn has_news(&self) -> (r: bool)
        ensures
            r == (self.state@ is Available || self.state@ is Installed),
    {
        match &self.state {
            Update::Available(_) | Update::Installed(_) => true,
            _ => false,
        }
    }
}

/// The colour of the card's status dot, by role.
#[derive(Clone, Copy, PartialEq, Eq, Debug, Structural)]
pub enum Tone {
    Dim,
    Good,
    Accent,
    Error,
}

/// The button on the right of the update card.
#[derive(Clone, Copy, PartialEq, Eq, Debug, Structural)]
pub enum CardAction {
    Upgrade,
    /// Restart into the new version; offered, but not enabled, while
    /// downloads are running.
    Restart { enabled: bool },
    CheckNow,
    CheckAgain,
    Nothing,
}

/// What the update card shows.
pub struct Card {
    pub tone: Tone,
    pub title: String,
    pub detail: String,
    pub action: CardAction,
}

/// The card's dot, title and detail line, for this build's `version`.
pub open spec fn spec_card_text(s: UpdateView, version: Seq<char>, running: bool) -> (Tone, Seq<char>, Seq<char>) {
    match s {
        UpdateView::Idle => (Tone::Dim, "Updates"@, "Automatic checks are off"@),
        UpdateView::Checking => (Tone::Dim, "Checking for updates…"@, "You have "@ + version),
        UpdateView::UpToDate => (Tone::Good, "You're up to date"@, version + " is the latest release"@),
        UpdateView::Available(v) => (Tone::Accent, "rficus "@ + v + " is available"@, "You have "@ + version),
        UpdateView::Downloading(v, _) => (
            Tone::Accent,
            "Downloading "@ + v + "…"@,
            "The app restarts into it when you are ready"@,
        ),
        UpdateView::Installed(v) => (
            Tone::Good,
            "Updated to "@ + v,
            if running {
                "Restart once your downloads finish"@
            } else {
                "Restart to start using it"@
            },
        ),
        UpdateView::Failed(e) => (Tone::Error, "Update failed"@, e),
    }
}

pub open spec fn spec_card_action(s: UpdateView, running: bool) -> CardAction {
    match s {
        UpdateView::Available(_) => CardAction::Upgrade,
        UpdateView::Installed(_) => CardAction::Restart { enabled: !running },
        UpdateView::Idle => CardAction::CheckNow,
        UpdateView::UpToDate | UpdateView::Failed(_) => CardAction::CheckAgain,
        UpdateView::Checking | UpdateView::Downloading(..) => CardAction::Nothing,
    }
}

fn joined(a: &str, b: &str, c: &str) -> (r: String)
    ensures
        r@ == a@ + b@ + c@,
{
    let mut s = String::from_str(a);
    s.append(b);
    s.append(c);
    s
}

impl SelfUpdate {
    /// The update card for this build's `version`, with or without
    /// downloads running.
    pub fn card(&self, version: &str, downloads_running: bool) -> (c: Card)
        ensures
            (c.tone, c.title@, c.detail@) == spec_card_text(self.state@, version@, downloads_running),
            c.action == spec_card_action(self.state@, downloads_running),
    {
        proof {
            reveal_strlit("");
        }
        match &self.state {
            Update::Idle => Card {
                tone: Tone::Dim,
                title: String::from_str("Updates"),
                detail: String::from_str("Automatic checks are off"),
                action: CardAction::CheckNow,
            },
            Update::Checking => Card {
                tone: Tone::Dim,
                title: String::from_str("Checking for updates…"),
                detail: joined("You have ", version, ""),
                action: CardAction::Nothing,
            },
            Update::UpToDate => Card {
                tone: Tone::Good,
                title: String::from_str("You're up to date"),
                detail: joined("", version, " is the latest release"),
                action: CardAction::CheckAgain,
            },
            Update::Available(v) => Card {
                tone: Tone::Accent,
                title: joined("rficus ", v.as_str(), " is available"),
                detail: joined("You have ", version, ""),
                action: CardAction::Upgrade,
            },
            Update::Downloading(v, _) => Card {
                tone: Tone::Accent,
                title: joined("Downloading ", v.as_str(), "…"),
                detail: String::from_str("The app restarts into it when you are ready"),
                action: CardAction::Nothing,
            },
            Update::Installed(v) => Card {
                tone: Tone::Good,
                title: joined("Updated to ", v.as_str(), ""),
                detail: if downloads_running {
                    String::from_str("Restart once your downloads finish")
                } else {
                    String::from_str("Restart to start using it")
                },
                action: CardAction::Restart { enabled: !downloads_running },
            },
            Update::Failed(e) => Card {
                tone: Tone::Error,
                title: String::from_str("Update failed"),
                detail: e.clone(),
                action: CardAction::CheckAgain,
            },
        }
    }
}

/// A download's progress is worth a report every 256 KB, and at the end.
/// `done` never falls below the last reported count.
pub fn progress_due(done: u64, last: u64, total: Option<u64>) -> (r: bool)
    requires
        last <= done,
    ensures
        r == (done - last >= 256 * 1024 || total == Some(done)),
{
    done - last >= 256 * 1024 || match total {
        Some(t) => t == done,
        None => false,
    }
}

/// What the window asks of the app once it has been drawn.
pub struct Outcome {
    pub close: bool,
    pub restart: bool,
    /// A theme picked in the window, by name.
    pub theme: Option<&'static str>,
}

impl Default for Outcome {
    fn default() -> (o: Outcome)
        ensures
            !o.close && !o.restart && o.theme is None,
    {
        Outcome { close: false, restart: false, theme: None }
    }
}

} // verus!
