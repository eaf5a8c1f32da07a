use ini::Ini;
use rficus::config::Config;
use rficus::job::{Job, Spec, State};
use rficus::panel::{
    backslashed, download_label, has_done, queued_count, remember_window, resize_direction,
    restorable, saved_window, select_arg, shown_file, shown_save_path, status_text, urls_of, Panel,
    ResizeDir,
};

fn config(text: &str) -> Config {
    Config::new("ficus.ini".to_string(), None, Ini::load_from_str(text).unwrap())
}

fn panel() -> Panel {
    let cfg = config(
        "[General]\nsave_path=D:/Music\ntypoi=mp3\noutput=title\nthubnails=true\nmetadata=false\nmax_jobs= 2 \ntheme=light\n",
    );
    Panel::new(&cfg, true)
}

#[test]
fn the_panel_starts_from_the_settings() {
    let p = panel();
    assert_eq!(p.sel_typoi, "mp3");
    assert_eq!(p.sel_output, "title");
    assert!(p.thumbnails);
    assert!(!p.metadata);
    assert_eq!(p.save_path, "D:/Music");
    assert_eq!(p.max_jobs, 2);
    assert_eq!(p.theme, "Light");
    assert!(p.jobs.is_empty());
    // the defaults fill in what the file lacks
    assert!(p.typoi.iter().any(|(k, _)| k == "both"));

    // a save path that no longer exists is cleared, a bad max_jobs is 3
    let cfg = config("[General]\nsave_path=gone\nmax_jobs=many\n");
    let p = Panel::new(&cfg, false);
    assert_eq!(p.save_path, "");
    assert_eq!(p.max_jobs, 3);
}

#[test]
fn parameters_are_name_then_format_then_extras() {
    let mut p = panel();
    let args = p.parameters("mp3");
    assert_eq!(
        args,
        vec![
            "--output", "%(title)s.%(ext)s", "--ignore-errors", "--no-playlist",
            "--extract-audio", "--audio-format", "mp3", "--audio-quality", "0",
            "--embed-thumbnail", "--postprocessor-args", "-id3v2_version 3",
        ]
    );
    p.thumbnails = false;
    p.metadata = true;
    p.sel_output = "nothing".to_string();
    assert_eq!(p.parameters("video"), vec!["--add-metadata"]);
}

#[test]
fn download_queues_each_url_once() {
    let mut p = panel();
    p.urls = " https://a.test/1 \r\n\nhttps://b.test/2\nhttps://a.test/1\n".to_string();
    assert_eq!(p.url_count(), 3);
    p.download(Some("yt-dlp.exe"), true);
    assert_eq!(p.urls, "");
    let names: Vec<&str> = p.jobs.iter().map(|j| j.spec().name.as_str()).collect();
    assert_eq!(names, vec!["https://a.test/1", "https://b.test/2"]);
    let first = p.jobs[0].spec();
    assert_eq!(first.exe, "yt-dlp.exe");
    assert_eq!(first.cwd.as_deref(), Some("D:/Music"));
    assert_eq!(first.args.last().map(String::as_str), Some("https://a.test/1"));
    assert_eq!(p.jobs[0].state(), State::Queued);

    // a url already listed is not queued again
    p.urls = "https://b.test/2\nhttps://c.test/3".to_string();
    p.download(Some("yt-dlp.exe"), true);
    assert_eq!(p.jobs.len(), 3);
    assert_eq!(p.jobs[2].spec().name, "https://c.test/3");
}

#[test]
fn download_refuses_without_tools_or_folder() {
    let mut p = panel();
    p.urls = "https://a.test/1".to_string();
    p.download(None, true);
    assert_eq!(p.message.as_deref(), Some("yt-dlp.exe not found next to rficus.exe."));
    assert!(p.jobs.is_empty());
    assert_eq!(p.urls, "https://a.test/1");

    p.download(Some("yt-dlp.exe"), false);
    assert_eq!(p.message.as_deref(), Some("Save path does not exist:\nD:/Music"));

    p.save_path = String::new();
    assert!(!p.check_before_run(true, true));
    assert_eq!(p.message.as_deref(), Some("Save path not set."));
    assert!(p.jobs.is_empty());
}

#[test]
fn clearing_finished_keeps_queued_and_running_jobs() {
    let mut p = panel();
    for name in ["a", "b", "c", "d"] {
        p.jobs.push(Job::new(Spec {
            name: name.to_string(),
            exe: "yt-dlp".to_string(),
            args: vec![],
            cwd: None,
        }));
    }
    p.jobs[0].spawned();
    p.jobs[0].exited(true);
    p.jobs[1].spawned();
    p.jobs[3].stop();
    assert!(has_done(&p.jobs));
    assert_eq!(queued_count(&p.jobs), 1);
    p.remove_finished();
    let names: Vec<&str> = p.jobs.iter().map(|j| j.spec().name.as_str()).collect();
    assert_eq!(names, vec!["b", "c"]);
    assert!(!has_done(&p.jobs));
    p.remove(0);
    assert_eq!(p.jobs.len(), 1);
}

#[test]
fn the_status_bar_counts_jobs() {
    assert_eq!(status_text(0, 0, 0), "No jobs");
    assert_eq!(status_text(3, 0, 0), "3 jobs, none running");
    assert_eq!(status_text(3, 2, 1), "3 jobs, 2 running, 1 queued");
    assert_eq!(download_label(0), "Download");
    assert_eq!(download_label(1), "Download");
    assert_eq!(download_label(12), "Download 12");
    assert_eq!(shown_save_path(""), "not set - click Browse");
    assert_eq!(shown_save_path("D:/x"), "D:/x");
    assert_eq!(shown_file(""), "…");
    assert_eq!(shown_file("a.mp4"), "a.mp4");
}

#[test]
fn urls_are_the_nonblank_lines_trimmed() {
    assert_eq!(urls_of("  a \r\n\t\n b"), vec!["a", "b"]);
    assert!(urls_of("").is_empty());
}

#[test]
fn the_window_comes_back_where_it_was() {
    let mut cfg = config("[General]\n");
    assert_eq!(saved_window(&cfg), None);
    remember_window(&mut cfg, false, Some(false), Some((-8, 20)), (1280, 720));
    assert_eq!(cfg.get("General", "window"), "-8,20,1280,720");
    assert_eq!(saved_window(&cfg), Some([-8, 20, 1280, 720]));
    // not while maximized or minimized, nor without a position
    remember_window(&mut cfg, true, Some(false), Some((0, 0)), (1, 1));
    remember_window(&mut cfg, false, Some(true), Some((-32000, -32000)), (1, 1));
    remember_window(&mut cfg, false, None, None, (1, 1));
    assert_eq!(saved_window(&cfg), Some([-8, 20, 1280, 720]));
}

#[test]
fn a_damaged_window_entry_is_ignored() {
    assert_eq!(saved_window(&config("[General]\nwindow= 1, 2 ,3,4\n")), Some([1, 2, 3, 4]));
    assert_eq!(saved_window(&config("[General]\nwindow=1,2,3\n")), None);
    assert_eq!(saved_window(&config("[General]\nwindow=1,2,3,4,5\n")), None);
    assert_eq!(saved_window(&config("[General]\nwindow=1,x,3,4\n")), None);
    assert_eq!(saved_window(&config("[General]\nwindow=1,2,3,99999999999\n")), None);
}

#[test]
fn corners_win_over_edges() {
    assert_eq!(resize_direction(true, false, true, false), Some(ResizeDir::NorthWest));
    assert_eq!(resize_direction(true, false, false, true), Some(ResizeDir::NorthEast));
    assert_eq!(resize_direction(false, true, true, false), Some(ResizeDir::SouthWest));
    assert_eq!(resize_direction(false, true, false, true), Some(ResizeDir::SouthEast));
    assert_eq!(resize_direction(true, false, false, false), Some(ResizeDir::North));
    assert_eq!(resize_direction(false, true, false, false), Some(ResizeDir::South));
    assert_eq!(resize_direction(false, false, true, false), Some(ResizeDir::West));
    assert_eq!(resize_direction(false, false, false, true), Some(ResizeDir::East));
    assert_eq!(resize_direction(false, false, false, false), None);
}

#[test]
fn explorer_gets_backslashes() {
    assert_eq!(backslashed("D:/Music/a b.mp3"), "D:\\Music\\a b.mp3");
    assert_eq!(select_arg("D:\\x.mp3"), "/select,D:\\x.mp3");
}

#[test]
fn settings_are_written_back() {
    let mut cfg = config("[General]\n");
    let mut p = Panel::new(&cfg, true);
    p.thumbnails = true;
    p.sel_typoi = "both".to_string();
    p.save_path = "E:/v".to_string();
    p.save_settings(&mut cfg);
    assert_eq!(cfg.get("General", "thubnails"), "true");
    assert_eq!(cfg.get("General", "metadata"), "false");
    assert_eq!(cfg.get("General", "typoi"), "both");
    assert_eq!(cfg.get("General", "save_path"), "E:/v");
    assert_eq!(cfg.get("General", "theme"), "Dark");
}

#[test]
fn a_window_comes_back_only_onto_a_monitor() {
    let monitors = vec![((0, 0), (1920, 1080)), ((1920, 0), (1280, 1024))];
    assert!(restorable(100, 100, &monitors));
    // the grab point of a window at 3150 is 3210: past the second monitor
    assert!(restorable(3000, 10, &monitors));
    assert!(!restorable(3150, 10, &monitors));
    // a window whose title bar sits above every monitor
    assert!(!restorable(0, -30, &monitors));
    assert!(!restorable(100, 100, &vec![]));
}
