use textutils::grep::{find_files, find_lines, format_match_count, select_lines, wants_walk, PathEntry, PathKind, Pattern, WalkEntry};

fn lines(v: &[&str]) -> Vec<String> {
    v.iter().map(|s| s.to_string()).collect()
}

fn entry(path: &str, kind: PathKind, walked: Vec<WalkEntry>) -> PathEntry {
    PathEntry { path: path.to_string(), kind, walked }
}

fn walk(path: &str, is_file: bool) -> WalkEntry {
    WalkEntry { path: path.to_string(), is_file }
}

#[test]
fn invalid_pattern_is_reported() {
    match Pattern::new("*foo", false) {
        Err(e) => assert_eq!(e, "Invalid pattern \"\"*foo\"\""),
        Ok(_) => panic!("pattern should not compile"),
    }
}

#[test]
fn find_lines_selects_matching_lines_in_order() {
    let text = lines(&["The quick\n", "brown fox\n", "jumps over the\n", "lazy dog.\n"]);
    let p = Pattern::new("the", false).unwrap();
    assert_eq!(find_lines(&text, &p, false), lines(&["jumps over the\n"]));
    assert_eq!(
        find_lines(&text, &p, true),
        lines(&["The quick\n", "brown fox\n", "lazy dog.\n"])
    );
    let pi = Pattern::new("the", true).unwrap();
    assert_eq!(find_lines(&text, &pi, false), lines(&["The quick\n", "jumps over the\n"]));
}

#[test]
fn pattern_is_match() {
    let p = Pattern::new("^b.*x$", false).unwrap();
    assert!(p.is_match("brown fox"));
    assert!(!p.is_match("a brown fox"));
}

#[test]
fn select_lines_follows_flags() {
    let text = lines(&["a", "b", "c"]);
    assert_eq!(select_lines(&text, &vec![true, false, true], false), lines(&["a", "c"]));
    assert_eq!(select_lines(&text, &vec![true, false, true], true), lines(&["b"]));
}

#[test]
fn find_files_resolves_each_path() {
    let entries = vec![
        entry("-", PathKind::Missing("gone".to_string()), vec![]),
        entry("./tests/inputs/fox.txt", PathKind::File, vec![]),
        entry("./tests/inputs", PathKind::Directory, vec![]),
        entry("blargh", PathKind::Missing("No such file or directory (os error 2)".to_string()), vec![]),
        entry("/dev/null", PathKind::Other, vec![]),
    ];
    let found = find_files(&entries, false);
    assert_eq!(
        found,
        vec![
            Ok("-".to_string()),
            Ok("./tests/inputs/fox.txt".to_string()),
            Err("./tests/inputs is a directory".to_string()),
            Err("blargh: No such file or directory (os error 2)".to_string()),
        ]
    );
}

#[test]
fn find_files_recursive_takes_only_regular_files() {
    let walked = vec![
        walk("./tests/inputs", false),
        walk("./tests/inputs/bustle.txt", true),
        walk("./tests/inputs/sub", false),
        walk("./tests/inputs/sub/deep.txt", true),
        walk("./tests/inputs/empty.txt", true),
    ];
    let entries = vec![entry("./tests/inputs", PathKind::Directory, walked)];
    let found = find_files(&entries, true);
    assert_eq!(
        found,
        vec![
            Ok("./tests/inputs/bustle.txt".to_string()),
            Ok("./tests/inputs/sub/deep.txt".to_string()),
            Ok("./tests/inputs/empty.txt".to_string()),
        ]
    );
}

#[test]
fn wants_walk_only_directories_under_recursion() {
    let dir = "./d".to_string();
    assert!(wants_walk(&dir, &PathKind::Directory, true));
    assert!(!wants_walk(&dir, &PathKind::Directory, false));
    assert!(!wants_walk(&dir, &PathKind::File, true));
    assert!(!wants_walk(&"-".to_string(), &PathKind::Directory, true));
}

#[test]
fn test_find_files() {
    let missing = PathKind::Missing("No such file or directory (os error 2)".to_string());

    // a file known to exist
    let files = find_files(&vec![entry("./tests/inputs/fox.txt", PathKind::File, vec![])], false);
    assert_eq!(files.len(), 1);
    assert_eq!(files[0].as_ref().unwrap(), "./tests/inputs/fox.txt");

    // a directory without recursion is rejected
    let files = find_files(&vec![entry("./tests/inputs", PathKind::Directory, vec![])], false);
    assert_eq!(files.len(), 1);
    if let Err(e) = &files[0] {
        assert_eq!(e, "./tests/inputs is a directory");
    }

    // with recursion, the four files of the directory
    let walked = vec![
        walk("./tests/inputs", false),
        walk("./tests/inputs/fox.txt", true),
        walk("./tests/inputs/nobody.txt", true),
        walk("./tests/inputs/bustle.txt", true),
        walk("./tests/inputs/empty.txt", true),
    ];
    let res = find_files(&vec![entry("./tests/inputs", PathKind::Directory, walked)], true);
    let mut files: Vec<String> = res
        .iter()
        .map(|r| r.as_ref().unwrap().replace("\\", "/"))
        .collect();
    files.sort();
    assert_eq!(files.len(), 4);
    assert_eq!(
        files,
        vec![
            "./tests/inputs/bustle.txt",
            "./tests/inputs/empty.txt",
            "./tests/inputs/fox.txt",
            "./tests/inputs/nobody.txt"
        ]
    );

    // a path that does not exist is an error
    let files = find_files(&vec![entry("k3Vq9Zp", missing, vec![])], false);
    assert_eq!(files.len(), 1);
    assert!(files[0].is_err());
}

#[test]
fn match_count_line() {
    assert_eq!(format_match_count(0, "a.txt"), "0 a.txt");
    assert_eq!(format_match_count(120, "-"), "120 -");
}
