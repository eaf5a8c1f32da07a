use ini::Ini;
use rficus::config::{add_new_defaults, find, Config};

/// An ini written by an older version gains new presets, keeps its own edits.
#[test]
fn new_defaults_fill_gaps_without_overwriting() {
    let old = "[General]\ntheme=light\n\n[Typoi]\nvideo=\nmp3=--extract-audio\n";
    let mut ini = Ini::load_from_str(old).unwrap();
    add_new_defaults(&mut ini);

    let typoi = ini.section(Some("Typoi")).unwrap();
    assert!(typoi.get("both").is_some(), "new format preset not added");
    assert_eq!(typoi.get("mp3"), Some("--extract-audio"), "user's own value was overwritten");
    assert_eq!(ini.section(Some("General")).unwrap().get("theme"), Some("light"));
    // and a key the old file never had
    assert_eq!(ini.section(Some("General")).unwrap().get("max_jobs"), Some("3"));
}

fn config(text: &str) -> Config {
    Config::new("ficus.ini".to_string(), None, Ini::load_from_str(text).unwrap())
}

#[test]
fn reads_settings_back() {
    let mut cfg = config("[General]\nthubnails=true\n");
    assert_eq!(cfg.get("General", "thubnails"), "true");
    assert!(cfg.get_bool("General", "thubnails"));
    assert!(!cfg.get_bool("General", "metadata"));
    assert_eq!(cfg.get("General", "nothing"), "");
    assert_eq!(cfg.get("Nowhere", "x"), "");
    cfg.set("General", "save_path", "D:\\Music");
    assert_eq!(cfg.get("General", "save_path"), "D:\\Music");
    cfg.set_bool("General", "metadata", true);
    assert!(cfg.get_bool("General", "metadata"));
    // a new section
    cfg.set("Extra", "k", "v");
    assert_eq!(cfg.get("Extra", "k"), "v");
    assert_eq!(cfg.path(), "ficus.ini");
    assert_eq!(cfg.dl_exe(), None);
    cfg.set_dl_exe(Some("yt-dlp.exe".to_string()));
    assert_eq!(cfg.dl_exe(), Some("yt-dlp.exe"));
}

#[test]
fn presets_keep_file_order() {
    let cfg = config("[Typoi]\nvideo=\nmp3=--extract-audio  --audio-format mp3\n");
    let map = cfg.args_map("Typoi");
    let keys: Vec<&str> = map.iter().map(|(k, _)| k.as_str()).collect();
    assert_eq!(keys[..2], ["video", "mp3"]);
    assert!(map[0].1.is_empty());
    assert_eq!(map[1].1, vec!["--extract-audio", "--audio-format", "mp3"]);
    assert!(cfg.args_map("Nowhere").is_empty());
}

#[test]
fn reads_state_colours() {
    let cfg = config("[Tprocess]\nrunning=#ffbb6c\nbad=#zz0000\n");
    assert_eq!(cfg.color("running"), [0xff, 0xbb, 0x6c]);
    assert_eq!(cfg.color("bad"), [0, 0, 0]);
    assert_eq!(cfg.color("missing"), [0, 0, 0]);
}

#[test]
fn finds_the_first_existing_file() {
    // dirs 0 and 1, names 0 and 1; only (1, 0) and (1, 1) exist
    assert_eq!(find(2, 2, |d, _| d == 1), Some((1, 0)));
    // within a directory the first name wins
    assert_eq!(find(2, 2, |_, n| n == 1), Some((0, 1)));
    assert_eq!(find(2, 2, |_, _| false), None);
    assert_eq!(find(0, 2, |_, _| true), None);
}

#[test]
fn an_old_file_is_brought_up_to_date() {
    let cfg = config("[General]\nmax_jobs=5\n");
    assert_eq!(cfg.get("General", "max_jobs"), "5");
    assert_eq!(cfg.get("General", "theme"), "Dark");
    assert_eq!(cfg.get("Tprocess", "running"), "#ffbb6c");
}

#[test]
fn a_missing_file_loads_the_defaults() {
    let cfg = Config::load("ficus.ini".to_string(), Some("yt-dlp".to_string()), None).unwrap();
    assert_eq!(cfg.get("General", "max_jobs"), "3");
    assert_eq!(cfg.get("Typoi", "both"), "--extract-audio --audio-format mp3 --audio-quality 0 --keep-video");
    assert_eq!(cfg.dl_exe(), Some("yt-dlp"));
    let cfg = Config::load("ficus.ini".to_string(), None, Some("[General]\nmax_jobs=7\n")).unwrap();
    assert_eq!(cfg.get("General", "max_jobs"), "7");
    assert_eq!(cfg.get("General", "theme"), "Dark");
    // a byte order mark is not part of the first section's name
    let cfg = Config::load("ficus.ini".to_string(), None, Some("\u{feff}[General]\nmax_jobs=9\n")).unwrap();
    assert_eq!(cfg.get("General", "max_jobs"), "9");
    // a file that is not valid ini gives the defaults
    let cfg = Config::load("ficus.ini".to_string(), None, Some("[General]\n=1\n")).unwrap();
    assert_eq!(cfg.get("General", "max_jobs"), "3");
}

/// Six hex digits in either case, spaces around them, give the bytes in order.
#[test]
fn a_colour_is_read_byte_by_byte() {
    let cfg = config("[Tprocess]\nfinished=  #97F5f5  \nstopped=#0a0B0c\n");
    assert_eq!(cfg.color("finished"), [0x97, 0xf5, 0xf5]);
    assert_eq!(cfg.color("stopped"), [0x0a, 0x0b, 0x0c]);
    assert_eq!(cfg.color("queued"), [0, 0, 0]);
}
