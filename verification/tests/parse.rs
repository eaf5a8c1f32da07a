use rficus::parse::{
    destination, download_destination, merged_destination, percent_numeral, rate, speed_numeral,
    split_lines, stream_count, stream_started, Progress,
};

// One real read() off yt-dlp's stdout: progress separated by \r, no newlines.
const CHUNK: &str = "[download] Destination: Rick Astley.webm\n\
                     [download]   0.0% of 3.50MiB at 1.00MiB/s ETA 00:03\r\
                     [download]  49.7% of 3.50MiB at 2.00MiB/s ETA 00:01\r\
                     [download] 100.0% of 3.50MiB in 00:02\r\n\
                     [ffmpeg] Destination: Rick Astley.mp3\n";

/// A progress line's percent, as a number.
fn percent(line: &str) -> Option<f32> {
    percent_numeral(line).map(|t| t.parse::<f32>().unwrap())
}

/// A progress line's speed in bytes per second.
fn speed_bps(line: &str) -> Option<f64> {
    let (digits, scale) = speed_numeral(line)?;
    Some(digits.trim().parse::<f64>().ok()? * scale as f64)
}

/// 0-100 over the whole job.
fn job_percent(p: &Progress) -> f32 {
    let (done, total) = p.stream_totals();
    let current: f32 = p.current().parse().unwrap();
    ((done as f32 + current / 100.0) / total as f32 * 100.0).clamp(0.0, 100.0)
}

fn run(lines: &[&str]) -> Progress {
    let mut p = Progress::default();
    for line in lines {
        p.feed(line);
    }
    p
}

#[test]
fn splits_on_carriage_returns() {
    assert_eq!(split_lines(CHUNK).len(), 5);
}

#[test]
fn scrapes_progress() {
    let vals: Vec<f32> = split_lines(CHUNK).into_iter().filter_map(percent).collect();
    assert_eq!(vals, vec![0.0, 49.7, 100.0]);
    assert_eq!(percent("[download] Destination: x.webm"), None);
    // small/fast files report a whole percent with no decimal point
    assert_eq!(percent("[download] 100% of 3.50MiB"), Some(100.0));
    // a '%' inside a filename is not progress
    assert_eq!(percent("[download] Destination: 100% Real Mix.webm"), None);
    assert_eq!(percent("[info] 50% something"), None);
    // non-ascii right before the number must not split a char boundary
    assert_eq!(percent("[download] Τραγούδι50% of x"), None);
    assert_eq!(percent("[download] Ελληνικά 12.5% of x"), None);
}

/// The numeral follows the tag after at least one space, and a dot has digits
/// on both sides.
#[test]
fn a_percentage_needs_space_and_whole_digits() {
    assert_eq!(percent_numeral("[download]  42.3% of 3.50MiB"), Some("42.3"));
    assert_eq!(percent_numeral("[download]\t7% of 1MiB"), Some("7"));
    assert_eq!(percent_numeral("[download]5%"), None);
    assert_eq!(percent_numeral("[download] .5%"), None);
    assert_eq!(percent_numeral("[download] 5.%"), None);
    assert_eq!(percent_numeral("[download] 1.2.3%"), None);
    assert_eq!(percent_numeral("[download] %"), None);
}

#[test]
fn scrapes_rate() {
    let rates: Vec<String> = split_lines(CHUNK).into_iter().filter_map(rate).collect();
    assert_eq!(rates, vec!["1.00MiB/s · 00:03", "2.00MiB/s · 00:01"]);
    // the closing line has no ETA
    assert_eq!(rate("[download] 100.0% of 3.50MiB in 00:02"), None);
    assert_eq!(rate("[download] 12% of 1MiB at 500.00KiB/s"), Some("500.00KiB/s".into()));
    // " at " inside a filename is not a rate
    assert_eq!(rate("[ffmpeg] Destination: Look at Me.mp3"), None);
}

#[test]
fn scrapes_speed_as_a_number() {
    assert_eq!(
        speed_bps("[download]  49.7% of 3.50MiB at 2.00MiB/s ETA 00:01"),
        Some(2.0 * 1024.0 * 1024.0)
    );
    assert_eq!(speed_bps("[download] 12% of 1MiB at 500.00KiB/s"), Some(500.0 * 1024.0));
    assert_eq!(speed_bps("[download] 1% of 1MiB at 900.00B/s"), Some(900.0));
    // yt-dlp before it has a measurement, and the closing line with no speed
    assert_eq!(speed_bps("[download] 0.0% of 3.50MiB at Unknown B/s ETA Unknown"), None);
    assert_eq!(speed_bps("[download] 100.0% of 3.50MiB in 00:02"), None);
}

#[test]
fn scrapes_destination() {
    let names: Vec<&str> = split_lines(CHUNK).into_iter().filter_map(destination).collect();
    assert_eq!(names, vec!["Rick Astley.webm", "Rick Astley.mp3"]);
}

#[test]
fn scrapes_extracted_audio() {
    // The mp3 preset downloads a webm and converts; the mp3 is the name the
    // user actually wants to see.
    let chunk = "[download] Destination: Song.webm\n\
                 [ExtractAudio] Destination: Song.mp3\n";
    assert_eq!(split_lines(chunk).into_iter().filter_map(destination).last(), Some("Song.mp3"));
}

#[test]
fn scrapes_already_downloaded() {
    assert_eq!(
        destination("[download] Adele - Hello.mp3 has already been downloaded"),
        Some("Adele - Hello.mp3")
    );
    assert_eq!(percent("[download] Adele - Hello.mp3 has already been downloaded"), None);
}

#[test]
fn scrapes_merged_output() {
    // Separate video+audio streams: the last Destination is an intermediate
    // file, and the merged name only shows up on the [Merger] line.
    let chunk = "[download] Destination: Rick.f401.mp4\n\
                 [download] Destination: Rick.f251.webm\n\
                 [Merger] Merging formats into \"Rick.mkv\"\n";
    assert_eq!(split_lines(chunk).into_iter().filter_map(destination).last(), Some("Rick.mkv"));
}

/// The reported bug: the bar read 100% while the job was still running,
/// because a finished video stream is not a finished download.
#[test]
fn a_finished_stream_is_not_a_finished_job() {
    let head = ["[info] x: Downloading 1 format(s): 401+251"];
    let first = ["[download] Destination: V.f401.mp4", "[download]  50.0% of 393.77MiB"];
    let first_done = ["[download] Destination: V.f401.mp4", "[download] 100% of 393.77MiB in 00:01:15"];

    assert_eq!(job_percent(&run(&[&head[..], &first[..]].concat())), 25.0);
    // The moment that pinned the bar at 100%: half the job, not all of it.
    assert_eq!(job_percent(&run(&[&head[..], &first_done[..]].concat())), 50.0);

    // The second stream restarts at 0%, and the bar must not fall back.
    let second = ["[download] Destination: V.f251.webm", "[download]   0.0% of 3.27MiB"];
    assert_eq!(job_percent(&run(&[&head[..], &first_done[..], &second[..]].concat())), 50.0);

    let second_done = ["[download] Destination: V.f251.webm", "[download] 100% of 3.27MiB in 00:00:00"];
    assert_eq!(job_percent(&run(&[&head[..], &first_done[..], &second_done[..]].concat())), 100.0);
}

#[test]
fn single_stream_maps_straight_through() {
    let p = run(&[
        "[info] x: Downloading 1 format(s): 251",
        "[download] Destination: Song.webm",
        "[download]  42.0% of 3.27MiB",
    ]);
    assert_eq!(job_percent(&p), 42.0);
}

#[test]
fn counts_streams_even_when_yt_dlp_announces_none() {
    // No "format(s):" line: the streams that have begun are all we know.
    let p = run(&[
        "[download] Destination: a.mp4",
        "[download] 100% of 1.00MiB",
        "[download] Destination: b.webm",
        "[download]  50.0% of 1.00MiB",
    ]);
    assert_eq!(job_percent(&p), 75.0);
}

#[test]
fn an_already_downloaded_stream_counts_as_complete() {
    let p = run(&[
        "[info] x: Downloading 1 format(s): 251",
        "[download] Song.mp3 has already been downloaded",
    ]);
    assert_eq!(job_percent(&p), 100.0);
}

#[test]
fn split_lines_drops_blank_lines_and_trailing_space() {
    assert_eq!(split_lines("a  \r\r\n\nb\t\n"), vec!["a", "b"]);
    assert!(split_lines("").is_empty());
    assert!(split_lines("\r\n  \n").is_empty());
}

#[test]
fn counts_announced_streams() {
    assert_eq!(stream_count("[info] x: Downloading 1 format(s): 401+251"), Some(2));
    assert_eq!(stream_count("[info] x: Downloading 1 format(s): 251"), Some(1));
    assert_eq!(stream_count("[info] x: Downloading 1 format(s): "), None);
    assert_eq!(stream_count("[download] 12%"), None);
}

#[test]
fn a_destination_line_starts_a_stream() {
    assert!(stream_started("[download] Destination: a.mp4"));
    assert!(!stream_started("[ffmpeg] Destination: a.mp3"));
}

#[test]
fn only_downloads_are_download_destinations() {
    assert_eq!(download_destination("[download] Destination:  a.f1.mp4 "), Some("a.f1.mp4"));
    assert_eq!(download_destination("[ffmpeg] Destination: a.mp3"), None);
    assert_eq!(merged_destination("[Merger] Merging formats into \"Rick.mkv\""), Some("Rick.mkv"));
    assert_eq!(merged_destination("[download] Destination: Rick.mkv"), None);
}

#[test]
fn a_new_stream_resets_the_speed() {
    let p = run(&[
        "[download] Destination: a.mp4",
        "[download]  50.0% of 1.00MiB at 2.00MiB/s ETA 00:01",
    ]);
    assert_eq!(p.rate(), "2.00MiB/s · 00:01");
    assert_eq!(p.speed(), Some(("2.00", 1024 * 1024)));
    let p = run(&[
        "[download] Destination: a.mp4",
        "[download]  50.0% of 1.00MiB at 2.00MiB/s ETA 00:01",
        "[download] Destination: b.webm",
    ]);
    assert_eq!(p.rate(), "");
    assert_eq!(p.speed(), None);
    assert_eq!(p.current(), "0");
    assert_eq!(p.stream_totals(), (1, 2));
}

/// A merge or postprocessor line moves nothing.
#[test]
fn other_lines_leave_the_progress_alone() {
    let mut p = run(&[
        "[info] abc: Downloading 1 format(s): 251",
        "[download] Destination: Rick.webm",
        "[download]  49.7% of 3.50MiB at 2.00MiB/s ETA 00:01",
    ]);
    let before = (p.expected(), p.started(), p.current().to_string(), p.rate().to_string(), p.speed().map(|(d, s)| (d.to_string(), s)));
    for line in ["[Merger] Merging formats into \"Rick.mkv\"", "[ExtractAudio] Destination: Rick.mp3", "Deleting original file Rick.webm"] {
        p.feed(line);
        let after = (p.expected(), p.started(), p.current().to_string(), p.rate().to_string(), p.speed().map(|(d, s)| (d.to_string(), s)));
        assert_eq!(after, before);
    }
    assert_eq!(p.current(), "49.7");
    assert_eq!(p.rate(), "2.00MiB/s · 00:01");
}

/// Whatever the chunk, each line is non-empty, unbroken and already trimmed.
#[test]
fn split_lines_gives_clean_lines() {
    for chunk in ["x\ry \r\n z\t\r", "\r\r", "one", " lead\rtrail  \n\n", "a\u{a0}\nb"] {
        for line in split_lines(chunk) {
            assert!(!line.is_empty());
            assert!(!line.contains('\r') && !line.contains('\n'));
            assert_eq!(line, line.trim_end());
        }
    }
    assert_eq!(split_lines("x\ry \r\n z\t\r"), vec!["x", "y", " z"]);
}
