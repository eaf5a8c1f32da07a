use rficus::about::{progress_due, CardAction, Outcome, SelfUpdate, Tone, Update, UpdateMsg};

#[test]
fn a_check_lands_whatever_came_before() {
    let mut u = SelfUpdate::new(true);
    assert!(matches!(u.state, Update::Checking));
    u.apply(UpdateMsg::Checked(Ok(Some("0.2.0".to_string()))));
    assert!(matches!(&u.state, Update::Available(v) if v == "0.2.0"));
    assert!(u.has_news());
    u.apply(UpdateMsg::Checked(Ok(None)));
    assert!(matches!(u.state, Update::UpToDate));
    assert!(!u.has_news());
    u.apply(UpdateMsg::Checked(Err("offline".to_string())));
    assert!(matches!(&u.state, Update::Failed(e) if e == "offline"));
}

#[test]
fn an_install_runs_from_offer_to_restart() {
    let mut u = SelfUpdate::new(false);
    assert!(matches!(u.state, Update::Idle));
    // nothing on offer: nothing to install
    assert_eq!(u.install(), None);
    u.check();
    u.apply(UpdateMsg::Checked(Ok(Some("0.2.0".to_string()))));
    assert_eq!(u.install(), Some("0.2.0".to_string()));
    assert!(matches!(&u.state, Update::Downloading(v, None) if v == "0.2.0"));
    u.apply(UpdateMsg::Progress(Some((10, 100))));
    assert!(matches!(&u.state, Update::Downloading(_, Some((10, 100)))));
    u.apply(UpdateMsg::Installed(Ok(())));
    assert!(matches!(&u.state, Update::Installed(v) if v == "0.2.0"));
    assert!(u.has_news());
}

#[test]
fn stray_reports_change_nothing() {
    let mut u = SelfUpdate::new(false);
    u.apply(UpdateMsg::Progress(Some((1, 2))));
    assert!(matches!(u.state, Update::Idle));
    u.apply(UpdateMsg::Installed(Ok(())));
    assert!(matches!(u.state, Update::Idle));
    u.apply(UpdateMsg::Installed(Err("disk full".to_string())));
    assert!(matches!(&u.state, Update::Failed(e) if e == "disk full"));
}

#[test]
fn the_card_says_where_the_update_stands() {
    let mut u = SelfUpdate::new(false);
    let c = u.card("0.1.9", false);
    assert_eq!((c.tone, c.title.as_str(), c.detail.as_str()), (Tone::Dim, "Updates", "Automatic checks are off"));
    assert_eq!(c.action, CardAction::CheckNow);
    u.check();
    let c = u.card("0.1.9", false);
    assert_eq!((c.title.as_str(), c.detail.as_str()), ("Checking for updates…", "You have 0.1.9"));
    assert_eq!(c.action, CardAction::Nothing);
    u.apply(UpdateMsg::Checked(Ok(None)));
    let c = u.card("0.1.9", false);
    assert_eq!((c.tone, c.title.as_str(), c.detail.as_str()), (Tone::Good, "You're up to date", "0.1.9 is the latest release"));
    assert_eq!(c.action, CardAction::CheckAgain);
    u.apply(UpdateMsg::Checked(Ok(Some("0.2.0".to_string()))));
    let c = u.card("0.1.9", false);
    assert_eq!((c.tone, c.title.as_str()), (Tone::Accent, "rficus 0.2.0 is available"));
    assert_eq!(c.action, CardAction::Upgrade);
    u.install();
    let c = u.card("0.1.9", false);
    assert_eq!(c.title, "Downloading 0.2.0…");
    u.apply(UpdateMsg::Installed(Ok(())));
    let c = u.card("0.1.9", true);
    assert_eq!((c.title.as_str(), c.detail.as_str()), ("Updated to 0.2.0", "Restart once your downloads finish"));
    assert_eq!(c.action, CardAction::Restart { enabled: false });
    let c = u.card("0.1.9", false);
    assert_eq!(c.detail, "Restart to start using it");
    assert_eq!(c.action, CardAction::Restart { enabled: true });
    u.apply(UpdateMsg::Checked(Err("no network".to_string())));
    let c = u.card("0.1.9", false);
    assert_eq!((c.tone, c.title.as_str(), c.detail.as_str()), (Tone::Error, "Update failed", "no network"));
}

#[test]
fn progress_is_reported_every_256_kb_and_at_the_end() {
    assert!(!progress_due(100, 0, Some(1000)));
    assert!(progress_due(1000, 900, Some(1000)));
    assert!(progress_due(256 * 1024, 0, None));
    assert!(!progress_due(256 * 1024 - 1, 0, None));
}

#[test]
fn the_window_asks_for_nothing_by_default() {
    let o = Outcome::default();
    assert!(!o.close && !o.restart && o.theme.is_none());
}
