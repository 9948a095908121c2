use grrs::resolver::parse_args;
use grrs::scanner::{scan_file, LineRead};
use grrs::walker::{DirEntry, Walker};

// Drives the full pipeline over a simulated directory tree
// root/{a.txt: "hello world", sub/b.txt: "hello again"}, the way the
// binary drives it over a real one.
#[test]
fn end_to_end_two_files_one_match_each() {
    let args = vec![String::from("grrs"), String::from("root"), String::from("hello")];
    let request = parse_args(&args).unwrap();
    assert_eq!(request.root_path, "root");
    assert_eq!(request.term, "hello");

    let mut walker = Walker::new(request.root_path.clone());
    while let Some(dir) = walker.next_dir() {
        let listing = match dir.as_str() {
            "root" => vec![
                DirEntry { path: String::from("root/a.txt"), is_dir: false },
                DirEntry { path: String::from("root/sub"), is_dir: true },
            ],
            "root/sub" => vec![DirEntry { path: String::from("root/sub/b.txt"), is_dir: false }],
            other => panic!("unexpected directory listed: {}", other),
        };
        walker.record_listing(Some(listing)).unwrap();
    }
    let files = walker.into_files();
    assert_eq!(files.len(), 2);
    assert!(files.contains(&String::from("root/a.txt")));
    assert!(files.contains(&String::from("root/sub/b.txt")));

    let mut total_matches = 0;
    for file in &files {
        let content = match file.as_str() {
            "root/a.txt" => Some(vec![LineRead::Text(String::from("hello world"))]),
            "root/sub/b.txt" => Some(vec![LineRead::Text(String::from("hello again"))]),
            other => panic!("unexpected file scanned: {}", other),
        };
        let records = scan_file(file, content, &request.term).unwrap();
        assert_eq!(records.len(), 1);
        assert_eq!(&records[0].file_path, file);
        assert_eq!(records[0].line_number, 0);
        if file == "root/a.txt" {
            assert_eq!(records[0].line_text, "hello world");
        } else {
            assert_eq!(records[0].line_text, "hello again");
        }
        total_matches += records.len();
    }
    assert_eq!(total_matches, 2);
}
