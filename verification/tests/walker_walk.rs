use grrs::errors::SearchError;
use grrs::walker::{DirEntry, Walker};

fn entry(path: &str, is_dir: bool) -> DirEntry {
    DirEntry { path: String::from(path), is_dir }
}

#[test]
fn empty_readable_directory_yields_empty_file_list() {
    let mut walker = Walker::new(String::from("root"));
    let dir = walker.next_dir().unwrap();
    assert_eq!(dir, "root");
    walker.record_listing(Some(Vec::new())).unwrap();
    assert!(walker.next_dir().is_none());
    let files = walker.into_files();
    assert!(files.is_empty());
}

#[test]
fn unreadable_root_fails_with_directory_unreadable() {
    let mut walker = Walker::new(String::from("/no/such/dir"));
    let dir = walker.next_dir().unwrap();
    assert_eq!(dir, "/no/such/dir");
    let err = walker.record_listing(None).unwrap_err();
    assert_eq!(err, SearchError::DirectoryUnreadable);
    // The failed listing leaves no trace: nothing collected, nothing pending.
    assert!(walker.next_dir().is_none());
    let files = walker.into_files();
    assert!(files.is_empty());
}

#[test]
fn nested_files_are_collected_exactly_once_and_no_directories() {
    let mut walker = Walker::new(String::from("root"));
    let mut listed: Vec<String> = Vec::new();
    while let Some(dir) = walker.next_dir() {
        let listing = match dir.as_str() {
            "root" => vec![
                entry("root/a.txt", false),
                entry("root/sub", true),
                entry("root/b.txt", false),
                entry("root/deep", true),
            ],
            "root/sub" => vec![entry("root/sub/c.txt", false)],
            "root/deep" => vec![entry("root/deep/lower", true)],
            "root/deep/lower" => vec![entry("root/deep/lower/d.txt", false)],
            other => panic!("unexpected directory listed: {}", other),
        };
        listed.push(dir);
        walker.record_listing(Some(listing)).unwrap();
    }
    let files = walker.into_files();
    let mut sorted = files.clone();
    sorted.sort();
    let expected = vec![
        String::from("root/a.txt"),
        String::from("root/b.txt"),
        String::from("root/deep/lower/d.txt"),
        String::from("root/sub/c.txt"),
    ];
    assert_eq!(sorted, expected);
    // Each file exactly once, and every listed directory stayed out.
    for dir in &listed {
        assert!(!files.contains(dir));
    }
}

#[test]
fn listing_order_is_kept_within_a_directory() {
    let mut walker = Walker::new(String::from("r"));
    let dir = walker.next_dir().unwrap();
    assert_eq!(dir, "r");
    walker
        .record_listing(Some(vec![
            entry("r/1", false),
            entry("r/2", false),
            entry("r/3", false),
        ]))
        .unwrap();
    assert!(walker.next_dir().is_none());
    let files = walker.into_files();
    let expected = vec![String::from("r/1"), String::from("r/2"), String::from("r/3")];
    assert_eq!(files, expected);
}

#[test]
fn pending_directories_are_taken_last_in_first_out() {
    let mut walker = Walker::new(String::from("r"));
    let dir = walker.next_dir().unwrap();
    assert_eq!(dir, "r");
    walker
        .record_listing(Some(vec![entry("r/x", true), entry("r/y", true)]))
        .unwrap();
    assert_eq!(walker.next_dir().unwrap(), "r/y");
    walker.record_listing(Some(Vec::new())).unwrap();
    assert_eq!(walker.next_dir().unwrap(), "r/x");
    walker.record_listing(Some(Vec::new())).unwrap();
    assert!(walker.next_dir().is_none());
}
