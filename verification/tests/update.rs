use rficus::update::{
    content_length, head_ok, is_newer, latest_version, local_version, newer_app_version,
    release_asset_url, tag_from_location, REPO,
};

#[test]
fn compares_versions_as_numbers() {
    assert_eq!(is_newer("0.1.10", "0.1.9"), Some(true));
    assert_eq!(is_newer("0.2.0", "0.1.2"), Some(true));
    assert_eq!(is_newer("0.1.2", "0.1.2"), Some(false));
    assert_eq!(is_newer("0.1.1", "0.1.2"), Some(false));
    assert_eq!(is_newer("releases", "0.1.2"), None);
}

#[test]
fn newer_is_never_both_ways() {
    for (a, b) in [("1.2", "1.10"), ("2", "1.9.9"), ("0.1", "0.1.0")] {
        let ab = is_newer(a, b).unwrap();
        let ba = is_newer(b, a).unwrap();
        assert!(!(ab && ba), "{a} and {b} both newer");
    }
    // a longer version with the same start is the newer one
    assert_eq!(is_newer("0.1.0", "0.1"), Some(true));
    assert_eq!(is_newer("1..2", "1.2"), None);
}

#[test]
fn reads_the_tag_out_of_a_redirect() {
    let loc = "https://github.com/yt-dlp/yt-dlp/releases/tag/2025.01.15";
    assert_eq!(tag_from_location(loc), Some("2025.01.15"));
    assert_eq!(latest_version(Some(loc)), Some("2025.01.15".to_string()));
    assert_eq!(latest_version(Some("https://github.com/x/releases/tag/ ")), None);
    assert_eq!(latest_version(None), None);
}

#[test]
fn newer_app_version_strips_the_v() {
    assert_eq!(newer_app_version(Some("v0.2.0"), "0.1.9"), Ok(Some("0.2.0".to_string())));
    assert_eq!(newer_app_version(Some("v0.1.9"), "0.1.9"), Ok(None));
    assert_eq!(newer_app_version(None, "0.1.9"), Err("could not reach GitHub".to_string()));
    assert_eq!(
        newer_app_version(Some("nightly"), "0.1.9"),
        Err("unexpected release tag nightly".to_string())
    );
}

#[test]
fn local_version_is_the_trimmed_output() {
    assert_eq!(local_version(b"2025.01.15\r\n"), Ok("2025.01.15".to_string()));
    assert_eq!(local_version(b"  \n"), Err("no version output".to_string()));
    // bytes that are not UTF-8 are kept as the replacement character
    assert_eq!(local_version(b"2025\xff\n"), Ok("2025\u{FFFD}".to_string()));
}

#[test]
fn only_a_200_is_served() {
    assert_eq!(head_ok("https://x.test/a", 200), Ok(()));
    assert_eq!(
        head_ok("https://x.test/a", 404),
        Err("https://x.test/a returned HTTP 404 Not Found".to_string())
    );
    assert_eq!(
        head_ok("https://x.test/a", 599),
        Err("https://x.test/a returned HTTP 599 <unknown status code>".to_string())
    );
}

#[test]
fn reads_a_content_length() {
    assert_eq!(content_length(Some("65536")), Some(65536));
    assert_eq!(content_length(Some("18446744073709551615")), Some(u64::MAX));
    assert_eq!(content_length(Some("18446744073709551616")), None);
    assert_eq!(content_length(Some("12 ")), None);
    assert_eq!(content_length(None), None);
}

#[test]
fn points_at_the_release_exe() {
    assert_eq!(
        release_asset_url("0.2.0"),
        format!("{REPO}/releases/download/v0.2.0/rficus.exe")
    );
}
