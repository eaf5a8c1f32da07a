use rficus::job::{
    after_start, complete_lines, final_line, is_part_of, next_to_start, running_count, Job, Spec, State,
};

fn spec(name: &str, args: &[&str]) -> Spec {
    Spec {
        name: name.to_string(),
        exe: "yt-dlp".to_string(),
        args: args.iter().map(|a| a.to_string()).collect(),
        cwd: Some("downloads".to_string()),
    }
}

/// The "both" cleanup takes the merge parts and nothing else.
#[test]
fn cleanup_takes_only_the_stream_parts() {
    assert!(is_part_of("Adele - Hello.f251.webm", "Adele - Hello.mkv"));
    assert!(is_part_of("Adele - Hello.f616.mp4", "Adele - Hello.mkv"));
    // a format id is not always digits
    assert!(is_part_of("Adele - Hello.f251-drc.webm", "Adele - Hello.mkv"));
    // the merged file itself, and the mp3 beside it, stay
    assert!(!is_part_of("Adele - Hello.mkv", "Adele - Hello.mkv"));
    assert!(!is_part_of("Adele - Hello.mp3", "Adele - Hello.mkv"));
    // a different video that merely starts the same way
    assert!(!is_part_of("Adele - Hello Again.f251.webm", "Adele - Hello.mkv"));
    // a title with its own dotted segment is not a part of this merge
    assert!(!is_part_of("Adele - Hello.feat.Someone.mp4", "Adele - Hello.mkv"));
    // the merged name may carry a directory; the stem is its last component
    assert!(is_part_of("Song.f1.mp4", "dir/Song.mkv"));
    assert!(is_part_of("Song.f1.mp4", "a/b/Song.mkv"));
    assert!(!is_part_of("dir.f1.mp4", "dir/Song.mkv"));
    // std normalizes a trailing `/` and `.` away, and `..` names no file
    assert!(is_part_of("dir.f1.mp4", "a/dir.mkv/"));
    assert!(is_part_of("Song.f1.mp4", "a//Song.mkv/."));
    assert!(!is_part_of("a.f1.mp4", "a/.."));
    assert!(!is_part_of(".f1.mp4", "/"));
    // only the last component is the merged name
    assert!(is_part_of("x.fa.b/x", "x.fa.b/x"));

    let mut job = Job::new(spec("both", &["--extract-audio", "--keep-video"]));
    job.begin_spawn();
    job.spawned();
    for line in [
        "[download] Destination: Song.f616.mp4",
        "[download] Destination: Song.f251-drc.webm",
        "[Merger] Merging formats into \"Song.webm\"",
        "[ExtractAudio] Destination: Song.mp3",
    ] {
        job.on_line(line);
    }
    job.exited(true);
    let files = job.sweep(true).expect("a finished job is swept");
    assert_eq!(files, vec!["Song.f616.mp4", "Song.f251-drc.webm"]);
    assert_eq!(job.filename(), "Song.mp3");

    // A playlist entry that needed no merge is the video itself, not a part.
    let mut plain = Job::new(spec("playlist", &["--keep-video"]));
    plain.spawned();
    plain.on_line("[download] Destination: First.mp4");
    plain.on_line("[Merger] Merging formats into \"Second.mkv\"");
    plain.exited(true);
    assert_eq!(plain.sweep(true), Some(Vec::<String>::new()));
}

/// A merge written into a subdirectory still takes its own parts.
#[test]
fn cleanup_follows_a_merge_into_a_directory() {
    let mut job = Job::new(spec("both", &["--keep-video"]));
    job.spawned();
    for line in [
        "[download] Destination: Song.f616.mp4",
        "[download] Destination: Other.f251.webm",
        "[Merger] Merging formats into \"sub/Song.webm\"",
    ] {
        job.on_line(line);
    }
    job.exited(true);
    assert_eq!(job.sweep(true), Some(vec!["Song.f616.mp4".to_string()]));
}

/// The process can be reaped while its last lines are still in flight; the
/// sweep has to wait for the output to be read to the end.
#[test]
fn cleanup_waits_for_the_last_of_the_output() {
    let mut job = Job::new(spec("both", &["--keep-video"]));
    job.spawned();
    job.on_line("[download] Destination: Song.f602.mp4");
    job.exited(true);
    assert_eq!(job.sweep(false), None, "swept before the output was drained");
    assert!(job.needs_poll());

    for line in [
        "[download] Destination: Song.f233.mp4",
        "[Merger] Merging formats into \"Song.mp4\"",
        "[ExtractAudio] Destination: Song.mp3",
    ] {
        job.on_line(line);
    }
    let files = job.sweep(true).expect("never swept");
    assert_eq!(files, vec!["Song.f602.mp4", "Song.f233.mp4"]);
    // once only
    assert_eq!(job.sweep(true), None);
    assert!(!job.needs_poll());
}

#[test]
fn no_sweep_without_keep_video_or_success() {
    let mut job = Job::new(spec("video", &[]));
    job.spawned();
    job.on_line("[download] Destination: V.f1.mp4");
    job.on_line("[Merger] Merging formats into \"V.mkv\"");
    job.exited(true);
    assert_eq!(job.sweep(true), Some(Vec::<String>::new()));

    let mut failed = Job::new(spec("both", &["--keep-video"]));
    failed.spawned();
    failed.on_line("[download] Destination: V.f1.mp4");
    failed.exited(false);
    assert_eq!(failed.state(), State::Error);
    assert_eq!(failed.sweep(true), None);
}

#[test]
fn states_have_keys_and_labels() {
    assert_eq!(State::Queued.ini_key(), "starting");
    assert_eq!(State::Starting.ini_key(), "starting");
    assert_eq!(State::Running.ini_key(), "running");
    assert_eq!(State::Finished.ini_key(), "finished");
    assert_eq!(State::Error.ini_key(), "error");
    assert_eq!(State::Stopped.ini_key(), "stopped");
    assert_eq!(State::Queued.label(), "Queued");
    assert_eq!(State::Stopped.label(), "Stopped");
}

#[test]
fn a_job_moves_through_its_states() {
    let mut job = Job::new(spec("u", &[]));
    assert_eq!(job.state(), State::Queued);
    assert!(!job.is_running());
    job.spawned();
    assert_eq!(job.state(), State::Starting);
    job.on_line("[download]  12.0% of 1MiB at 2.00MiB/s ETA 00:01");
    assert_eq!(job.state(), State::Running);
    job.refresh_rate();
    assert_eq!(job.rate(), "2.00MiB/s · 00:01");
    assert_eq!(job.log(), "[download]  12.0% of 1MiB at 2.00MiB/s ETA 00:01");
    // stop: a running job is killed
    assert!(job.stop());
    job.exited(false);
    assert_eq!(job.state(), State::Stopped);
    job.refresh_rate();
    assert_eq!(job.rate(), "");
}

#[test]
fn stopping_a_queued_job_kills_nothing() {
    let mut job = Job::new(spec("u", &[]));
    assert!(!job.stop());
    assert_eq!(job.state(), State::Stopped);
}

#[test]
fn requeue_starts_over() {
    let mut job = Job::new(spec("u", &[]));
    job.spawned();
    job.on_line("[download] Destination: a.mp4");
    assert!(job.requeue());
    assert_eq!(job.state(), State::Queued);
    assert!(!job.is_running());
    assert!(!job.needs_poll());
    assert_eq!(job.filename(), "");
    assert_eq!(job.log(), "");
    assert_eq!(job.progress().started(), 0);
}

#[test]
fn a_failed_start_says_why() {
    let mut job = Job::new(spec("u", &[]));
    job.spawn_failed("not found");
    assert_eq!(job.state(), State::Error);
    assert_eq!(job.log(), "could not start yt-dlp: not found");
}

#[test]
fn next_to_start_honours_the_cap() {
    let states = vec![State::Finished, State::Queued, State::Running, State::Queued, State::Queued];
    assert_eq!(next_to_start(&states, 0, 1, 2), Some(1));
    assert_eq!(next_to_start(&states, 2, 1, 2), Some(3));
    assert_eq!(next_to_start(&states, 0, 2, 2), None);
    // no cap
    assert_eq!(next_to_start(&states, 4, 100, 0), Some(4));
    assert_eq!(next_to_start(&states, 5, 0, 0), None);

    let mut jobs = vec![Job::new(spec("a", &[])), Job::new(spec("b", &[]))];
    assert_eq!(running_count(&jobs), 0);
    jobs[1].spawned();
    assert_eq!(running_count(&jobs), 1);
}

#[test]
fn output_is_read_in_whole_lines() {
    let (lines, tail) = complete_lines("[download] 1%\r[download] 2%\n[down").unwrap();
    assert_eq!(lines, vec!["[download] 1%", "[download] 2%"]);
    assert_eq!(tail, "[down");
    assert_eq!(complete_lines("no break yet"), None);
    assert_eq!(final_line("  last words \n"), Some("last words"));
    assert_eq!(final_line(" \r\n"), None);
}

/// A stop since the start decides the end, whatever the process reports.
#[test]
fn the_end_state_follows_the_stop() {
    let mut stopped = Job::new(spec("u", &[]));
    stopped.begin_spawn();
    stopped.spawned();
    stopped.on_line("[download] Destination: a.mp4");
    assert!(stopped.stop());
    stopped.on_line("[download]  50.0% of 1.00MiB");
    stopped.exited(true);
    assert_eq!(stopped.state(), State::Stopped);
    assert!(!stopped.is_running());

    for (success, end) in [(true, State::Finished), (false, State::Error)] {
        let mut job = Job::new(spec("u", &[]));
        job.begin_spawn();
        job.spawned();
        job.on_line("[download] Destination: a.mp4");
        job.exited(success);
        assert_eq!(job.state(), end);
        assert!(!job.is_running());
    }
}

/// A round of starts, as the window runs it: oldest queued first, a failed
/// spawn takes no slot, and the round ends at the cap.
#[test]
fn a_round_of_starts_fills_the_free_slots() {
    let round = |states: &Vec<State>, running: usize, max: usize, took: &[bool]| {
        let (mut running, mut from, mut picked) = (running, 0, Vec::new());
        while let Some(i) = next_to_start(states, from, running, max) {
            let t = took.get(picked.len()).copied().unwrap_or(false);
            picked.push(i);
            (running, from) = after_start(i, running, t);
        }
        (picked, running)
    };
    let states = vec![State::Queued, State::Running, State::Queued, State::Queued, State::Finished, State::Queued];
    // two slots, one taken: the first queued job fills the other
    assert_eq!(round(&states, 1, 2, &[true]), (vec![0], 2));
    // a failed spawn frees its slot for the next queued job
    assert_eq!(round(&states, 1, 2, &[false, true]), (vec![0, 2], 2));
    // no cap: every queued job starts
    assert_eq!(round(&states, 1, 0, &[true, true, true, true]), (vec![0, 2, 3, 5], 5));
    // already over the cap: nothing starts
    assert_eq!(round(&states, 3, 2, &[true]), (vec![], 3));
}

#[test]
fn after_a_start_the_round_moves_on() {
    assert_eq!(after_start(3, 1, true), (2, 4));
    assert_eq!(after_start(3, 1, false), (1, 4));
    assert_eq!(after_start(0, 0, true), (1, 1));
}
