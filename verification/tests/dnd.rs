use rficus::dnd::{dropped_urls, may_read_list, urls_in_text, wants_files, MAX_LIST_BYTES};

#[test]
fn picks_urls_out_of_dropped_text() {
    // What a browser hands over for a dragged link.
    assert_eq!(
        urls_in_text("https://www.youtube.com/watch?v=dQw4w9WgXcQ"),
        vec!["https://www.youtube.com/watch?v=dQw4w9WgXcQ"]
    );
    // A .url shortcut file.
    let shortcut = "[InternetShortcut]\r\nURL=https://example.com/v\r\n";
    assert_eq!(urls_in_text(shortcut), vec!["https://example.com/v"]);
    // A list, with noise around it.
    let list = "  https://a.test/1  \nnot a url\nhttps://b.test/2\n";
    assert_eq!(urls_in_text(list), vec!["https://a.test/1", "https://b.test/2"]);
    // Nothing droppable.
    assert!(urls_in_text("ftp://a.test/x\nplain words").is_empty());
}

#[test]
fn plain_http_links_count_too() {
    assert_eq!(urls_in_text("http://a.test/1"), vec!["http://a.test/1"]);
    assert!(urls_in_text("").is_empty());
}

#[test]
fn a_drop_prefers_the_link_then_the_text_then_the_files() {
    let files = vec!["https://c.test/3\nhttps://d.test/4".to_string(), "https://e.test/5".to_string()];
    // The shell's url format wins.
    assert_eq!(
        dropped_urls(Some("https://a.test/1"), Some("https://b.test/2"), &files),
        vec!["https://a.test/1"]
    );
    // A url format without a link falls through to the text.
    assert_eq!(dropped_urls(Some("nothing"), Some("https://b.test/2"), &files), vec!["https://b.test/2"]);
    // Then the files, in order.
    assert_eq!(
        dropped_urls(None, Some("plain words"), &files),
        vec!["https://c.test/3", "https://d.test/4", "https://e.test/5"]
    );
    assert!(dropped_urls(None, None, &Vec::new()).is_empty());

    assert!(!wants_files(Some("https://a.test/1"), None));
    assert!(!wants_files(None, Some("https://b.test/2")));
    assert!(wants_files(Some("no link"), None));
    assert!(wants_files(None, None));
}

#[test]
fn only_small_files_are_read_as_lists() {
    assert_eq!(MAX_LIST_BYTES, 1 << 20);
    assert!(may_read_list(0));
    assert!(may_read_list(1 << 20));
    assert!(!may_read_list((1 << 20) + 1));
    assert!(!may_read_list(4_000_000_000));
}
