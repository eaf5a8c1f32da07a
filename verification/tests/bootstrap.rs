use rficus::bootstrap::{
    copy_from_archive, done_status, join_strings, progress_due, self_update, Bootstrap,
    BootstrapMsg, Event, Work, Worker,
};

fn strings(v: &[&str]) -> Vec<String> {
    v.iter().map(|s| s.to_string()).collect()
}

fn statuses(msgs: &[BootstrapMsg]) -> Vec<String> {
    msgs.iter()
        .filter_map(|m| match m {
            BootstrapMsg::Status(s) => Some(s.clone()),
            _ => None,
        })
        .collect()
}

#[test]
fn the_status_line_sums_up_the_check() {
    assert_eq!(done_status(Some("2025.01.15"), &vec![]), "yt-dlp 2025.01.15");
    assert_eq!(
        done_status(Some("2025.01.15"), &strings(&["a failed", "b failed"])),
        "yt-dlp 2025.01.15 - a failed; b failed"
    );
    assert_eq!(done_status(None, &strings(&["a failed"])), "a failed");
    assert_eq!(join_strings(&strings(&["x", "y", "z"]), ", "), "x, y, z");
    assert_eq!(join_strings(&vec![], ", "), "");
}

#[test]
fn the_window_follows_the_reports() {
    let mut b = Bootstrap::start();
    assert_eq!(b.status, "Checking tools…");
    assert!(b.busy);
    b.apply(BootstrapMsg::Status("Downloading yt-dlp…".to_string()));
    b.apply(BootstrapMsg::Progress(Some((5, 10))));
    assert_eq!(b.status, "Downloading yt-dlp…");
    assert_eq!(b.progress, Some((5, 10)));
    b.apply(BootstrapMsg::Done(Some("2025.01.15".to_string()), strings(&["ffmpeg download failed: x"])));
    assert_eq!(b.status, "yt-dlp 2025.01.15 - ffmpeg download failed: x");
    assert_eq!(b.progress, None);
    assert!(!b.busy);
    assert!(b.just_finished);
    b.begin_poll();
    assert!(!b.just_finished);

    let mut gone = Bootstrap::start();
    gone.disconnected();
    assert!(!gone.busy);
}

#[test]
fn an_update_failure_is_the_first_line_of_stderr() {
    assert_eq!(self_update(true, b"whatever"), Ok(()));
    assert_eq!(
        self_update(false, b"\n  ERROR: unable to write\r\nmore\n"),
        Err("ERROR: unable to write".to_string())
    );
    assert_eq!(self_update(false, b"  \n"), Err("non-zero exit".to_string()));
}

#[test]
fn ffplay_is_left_in_the_archive() {
    assert!(copy_from_archive("ffmpeg.exe", true));
    assert!(copy_from_archive("avcodec-61.dll", true));
    assert!(!copy_from_archive("ffplay.exe", true));
    assert!(!copy_from_archive("doc", false));
}

#[test]
fn bootstrap_progress_every_256_kb() {
    assert!(!progress_due(1024, 0, Some(4096)));
    assert!(progress_due(4096, 1024, Some(4096)));
    assert!(progress_due(300 * 1024, 0, None));
    assert!(progress_due(u64::MAX, u64::MAX - 1, None));
}

#[test]
fn everything_present_and_current() {
    let mut w = Worker::new(true);
    assert_eq!(w.pending(), Work::FindYtDlp);
    let (m, next) = w.step(Event::Found(true));
    assert!(m.is_empty());
    assert_eq!(next, Work::AskVersion);
    let (m, next) = w.step(Event::Version(Some("2025.01.15".to_string())));
    assert_eq!(statuses(&m), vec!["Checking for a newer yt-dlp…"]);
    assert_eq!(next, Work::AskLatest);
    let (_, next) = w.step(Event::Latest(Some("2025.01.15".to_string())));
    assert_eq!(next, Work::CheckFfmpeg);
    let (_, next) = w.step(Event::Usable { ffmpeg: true, ffprobe: true });
    assert_eq!(next, Work::Finish);
    match w.into_done() {
        BootstrapMsg::Done(v, p) => {
            assert_eq!(v.as_deref(), Some("2025.01.15"));
            assert!(p.is_empty());
        }
        _ => panic!("not done"),
    }
}

#[test]
fn everything_missing_and_offline() {
    let mut w = Worker::new(false);
    let (m, next) = w.step(Event::Found(false));
    assert_eq!(statuses(&m), vec!["Downloading yt-dlp…"]);
    assert_eq!(next, Work::DownloadYtDlp);
    let (m, next) = w.step(Event::Downloaded(Err("timed out".to_string())));
    assert!(matches!(m[0], BootstrapMsg::Progress(None)));
    assert_eq!(next, Work::CheckFfmpeg);
    let (m, next) = w.step(Event::Usable { ffmpeg: false, ffprobe: false });
    assert_eq!(statuses(&m), vec!["Downloading ffmpeg (ffmpeg.exe, ffprobe.exe)…"]);
    assert_eq!(next, Work::InstallFfmpeg);
    let (_, next) = w.step(Event::Installed(Err("tar: bad".to_string())));
    assert_eq!(next, Work::Finish);
    match w.into_done() {
        BootstrapMsg::Done(v, p) => {
            assert_eq!(v, None);
            assert_eq!(p, vec!["yt-dlp download failed: timed out", "ffmpeg download failed: tar: bad"]);
        }
        _ => panic!("not done"),
    }
}

#[test]
fn an_old_yt_dlp_updates_itself() {
    let mut w = Worker::new(true);
    w.step(Event::Found(true));
    w.step(Event::Version(Some("2024.01.01".to_string())));
    let (m, next) = w.step(Event::Latest(Some("2025.01.15".to_string())));
    assert_eq!(statuses(&m), vec!["Updating yt-dlp to 2025.01.15…"]);
    assert_eq!(next, Work::UpdateYtDlp);
    let (_, next) = w.step(Event::Updated(Ok(())));
    assert_eq!(next, Work::AskUpdatedVersion);
    let (_, next) = w.step(Event::Version(Some("2025.01.15".to_string())));
    assert_eq!(next, Work::CheckFfmpeg);
    let (m, _) = w.step(Event::Usable { ffmpeg: true, ffprobe: false });
    assert_eq!(statuses(&m), vec!["Downloading ffmpeg (ffprobe.exe)…"]);
    w.step(Event::Installed(Ok(())));
    match w.into_done() {
        BootstrapMsg::Done(v, p) => {
            assert_eq!(v.as_deref(), Some("2025.01.15"));
            assert!(p.is_empty());
        }
        _ => panic!("not done"),
    }
}

#[test]
fn no_answer_from_github_is_a_problem() {
    let mut w = Worker::new(true);
    w.step(Event::Found(true));
    w.step(Event::Version(Some("2024.01.01".to_string())));
    let (_, next) = w.step(Event::Latest(None));
    assert_eq!(next, Work::CheckFfmpeg);
    w.step(Event::Usable { ffmpeg: true, ffprobe: true });
    match w.into_done() {
        BootstrapMsg::Done(_, p) => assert_eq!(p, vec!["could not reach github for the version check"]),
        _ => panic!("not done"),
    }
}

#[test]
fn a_failed_update_is_a_problem() {
    let mut w = Worker::new(true);
    w.step(Event::Found(true));
    w.step(Event::Version(Some("1".to_string())));
    w.step(Event::Latest(Some("2".to_string())));
    let (_, next) = w.step(Event::Updated(Err("non-zero exit".to_string())));
    assert_eq!(next, Work::CheckFfmpeg);
    w.step(Event::Usable { ffmpeg: true, ffprobe: true });
    match w.into_done() {
        BootstrapMsg::Done(v, p) => {
            assert_eq!(v.as_deref(), Some("1"));
            assert_eq!(p, vec!["yt-dlp update failed: non-zero exit"]);
        }
        _ => panic!("not done"),
    }
}

#[test]
fn offline_never_asks_github() {
    let mut w = Worker::new(false);
    let (_, next) = w.step(Event::Found(true));
    assert_eq!(next, Work::AskVersion);
    let (m, next) = w.step(Event::Version(Some("2024.01.01".to_string())));
    assert!(m.is_empty());
    assert_eq!(next, Work::CheckFfmpeg);
}

#[test]
fn a_newer_or_unknown_local_yt_dlp_is_not_updated() {
    for local in ["2025.02.01", "custom-build"] {
        let mut w = Worker::new(true);
        w.step(Event::Found(true));
        w.step(Event::Version(Some(local.to_string())));
        let (m, next) = w.step(Event::Latest(Some("2025.01.15".to_string())));
        assert!(m.is_empty(), "{local}");
        assert_eq!(next, Work::CheckFfmpeg, "{local}");
    }
}

#[test]
fn a_yt_dlp_that_does_not_start_is_downloaded() {
    let mut w = Worker::new(false);
    w.step(Event::Found(true));
    let (m, next) = w.step(Event::Version(None));
    assert_eq!(statuses(&m), vec!["Downloading yt-dlp…"]);
    assert_eq!(next, Work::DownloadYtDlp);
    let (_, next) = w.step(Event::Downloaded(Ok(())));
    assert_eq!(next, Work::AskDownloadedVersion);
    let (_, next) = w.step(Event::Version(Some("2025.01.15".to_string())));
    assert_eq!(next, Work::CheckFfmpeg);
    w.step(Event::Usable { ffmpeg: true, ffprobe: true });
    match w.into_done() {
        BootstrapMsg::Done(v, p) => {
            assert_eq!(v.as_deref(), Some("2025.01.15"));
            assert!(p.is_empty());
        }
        _ => panic!("not done"),
    }
}

/// An ffmpeg that does not run is installed; with both tools usable the check is done.
#[test]
fn an_unusable_ffmpeg_is_installed() {
    for (ffmpeg, ffprobe, install) in [(false, true, true), (true, false, true), (true, true, false)] {
        let mut w = Worker::new(false);
        w.step(Event::Found(true));
        w.step(Event::Version(Some("2025.01.01".to_string())));
        let (_, next) = w.step(Event::Usable { ffmpeg, ffprobe });
        assert_eq!(next == Work::InstallFfmpeg, install);
        assert_eq!(next == Work::Finish, !install);
    }
}
