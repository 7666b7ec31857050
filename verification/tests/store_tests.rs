use herobot::status::ScanItem;
use herobot::status::StatusStore;

#[test]
fn first_observation_is_a_change() {
    let mut store = StatusStore::new();
    let changed = store.observe(String::from("/w/a.txt"), "ok\n", Some(3));
    assert!(changed);
    assert!(store.contains(&String::from("/w/a.txt")));
    assert!(!store.contains(&String::from("/w/b.txt")));
}

#[test]
fn repeated_content_is_no_change() {
    let mut store = StatusStore::new();
    assert!(store.observe(String::from("/w/a.txt"), "ok\n", Some(1)));
    assert!(!store.observe(String::from("/w/a.txt"), "ok\n", Some(2)));
    assert!(store.observe(String::from("/w/a.txt"), "fail\n", Some(3)));
    assert!(!store.observe(String::from("/w/a.txt"), "fail\n", Some(4)));
}

#[test]
fn change_is_judged_on_trimmed_first_line() {
    let mut store = StatusStore::new();
    assert!(store.observe(String::from("/w/a.txt"), "ok\n", None));
    // Same first line, different tail and trailing whitespace: no change.
    assert!(!store.observe(String::from("/w/a.txt"), "ok   \nmore text", None));
}

#[test]
fn summary_renders_text_and_date() {
    let mut store = StatusStore::new();
    store.observe(String::from("/w/a.txt"), "hi\n", Some(0));
    let listing = vec![String::from("/w/a.txt")];
    assert_eq!(store.summary(&listing), "hi at 1970-01-01 00:00:00 UTC\n");
}

#[test]
fn summary_renders_unknown_date() {
    let mut store = StatusStore::new();
    store.observe(String::from("/w/a.txt"), "hi\n", None);
    let listing = vec![String::from("/w/a.txt")];
    assert_eq!(store.summary(&listing), "hi at unknown date\n");
}

#[test]
fn summary_normalizes_out_of_range_date() {
    let mut store = StatusStore::new();
    store.observe(String::from("/w/a.txt"), "hi\n", Some(-7));
    let listing = vec![String::from("/w/a.txt")];
    assert_eq!(store.summary(&listing), "hi at unknown date\n");
}

#[test]
fn summary_follows_listing_order() {
    let mut store = StatusStore::new();
    store.observe(String::from("/w/b.txt"), "second\n", None);
    store.observe(String::from("/w/a.txt"), "first\n", None);
    let listing = vec![String::from("/w/a.txt"), String::from("/w/b.txt")];
    assert_eq!(
        store.summary(&listing),
        "first at unknown date\nsecond at unknown date\n"
    );
}

#[test]
fn summary_omits_stale_entries() {
    let mut store = StatusStore::new();
    store.observe(String::from("/w/a.txt"), "kept\n", None);
    store.observe(String::from("/w/gone.txt"), "stale\n", None);
    // The directory listing no longer holds gone.txt: its stale entry
    // contributes nothing.
    let listing = vec![String::from("/w/a.txt")];
    assert_eq!(store.summary(&listing), "kept at unknown date\n");
}

#[test]
fn summary_omits_unobserved_files() {
    let mut store = StatusStore::new();
    store.observe(String::from("/w/a.txt"), "seen\n", None);
    let listing = vec![String::from("/w/new.txt"), String::from("/w/a.txt")];
    assert_eq!(store.summary(&listing), "seen at unknown date\n");
}

#[test]
fn scan_observes_every_readable_file() {
    let mut store = StatusStore::new();
    let items = vec![
        ScanItem {
            path: String::from("/w/a.txt"),
            content: Some(String::from("alpha\n")),
            mtime: Some(0),
        },
        ScanItem {
            path: String::from("/w/b.txt"),
            content: None,
            mtime: Some(0),
        },
        ScanItem {
            path: String::from("/w/c.txt"),
            content: Some(String::from("gamma\n")),
            mtime: None,
        },
    ];
    store.observe_all(&items);
    assert!(store.contains(&String::from("/w/a.txt")));
    // The unreadable file was left unobserved.
    assert!(!store.contains(&String::from("/w/b.txt")));
    assert!(store.contains(&String::from("/w/c.txt")));
    let listing = vec![
        String::from("/w/a.txt"),
        String::from("/w/b.txt"),
        String::from("/w/c.txt"),
    ];
    assert_eq!(
        store.summary(&listing),
        "alpha at 1970-01-01 00:00:00 UTC\ngamma at unknown date\n"
    );
}

#[test]
fn scan_never_modified_file_is_summarized() {
    // A file present at startup produces an entry in the initial summary
    // with its current first-line content, even if never modified later.
    let mut store = StatusStore::new();
    let items = vec![ScanItem {
        path: String::from("/w/a.txt"),
        content: Some(String::from("present\n")),
        mtime: None,
    }];
    store.observe_all(&items);
    let listing = vec![String::from("/w/a.txt")];
    assert_eq!(store.summary(&listing), "present at unknown date\n");
}
