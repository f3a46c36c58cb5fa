use dupfinder::empty::{count_message, find_empty_dirs, find_empty_files};
use dupfinder::progress::SilentProgress;
use dupfinder::types::FileEntry;

fn entry(path: &str, size: u64) -> FileEntry {
    FileEntry { path: path.to_string(), size, mtime: 0, dev: 0, ino: 0 }
}

#[test]
fn test_find_empty_files() {
    let files = vec![entry("/a/empty.txt", 0), entry("/a/nonempty.txt", 100), entry("/b/also_empty.txt", 0)];

    let empty = find_empty_files(&files, &SilentProgress);
    assert_eq!(empty.len(), 2);
    assert!(empty.contains(&"/a/empty.txt".to_string()));
    assert!(empty.contains(&"/b/also_empty.txt".to_string()));
}

#[test]
fn test_find_empty_dirs() {
    let directories = vec![
        "/root".to_string(),
        "/root/has_files".to_string(),
        "/root/empty_dir".to_string(),
        "/root/empty_dir/nested_empty".to_string(),
    ];

    let files = vec![entry("/root/has_files/doc.txt", 100)];

    let empty = find_empty_dirs(&directories, &files, &SilentProgress);
    assert_eq!(empty.len(), 2);
    // Deepest first
    assert!(empty.contains(&"/root/empty_dir/nested_empty".to_string()));
    assert!(empty.contains(&"/root/empty_dir".to_string()));
}

#[test]
fn empty_files_keep_scan_order() {
    let files = vec![entry("/z", 0), entry("/y", 1), entry("/x", 0)];
    assert_eq!(find_empty_files(&files, &SilentProgress), vec!["/z".to_string(), "/x".to_string()]);
    assert!(find_empty_files(&Vec::new(), &SilentProgress).is_empty());
}

#[test]
fn empty_dirs_deepest_first_order() {
    let directories = vec!["/r".to_string(), "/r/a".to_string(), "/r/a/b".to_string(), "/r/a/b/c".to_string()];
    let empty = find_empty_dirs(&directories, &Vec::new(), &SilentProgress);
    assert_eq!(
        empty,
        vec!["/r/a/b/c".to_string(), "/r/a/b".to_string(), "/r/a".to_string(), "/r".to_string()]
    );
}

#[test]
fn a_file_keeps_every_ancestor_non_empty() {
    let directories = vec!["/r".to_string(), "/r/a".to_string(), "/r/a/b".to_string(), "/r/c".to_string()];
    let files = vec![entry("/r/a/b/f.txt", 0)];
    let empty = find_empty_dirs(&directories, &files, &SilentProgress);
    assert_eq!(empty, vec!["/r/c".to_string()]);
}

#[test]
fn count_message_text() {
    assert_eq!(count_message("Found ", 12, " empty files"), "Found 12 empty files");
    assert_eq!(count_message("", 0, ""), "0");
}
