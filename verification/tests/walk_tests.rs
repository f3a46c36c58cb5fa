use dupfinder::filter::FileFilter;
use dupfinder::paths::{file_name, normalize, parent_path, path_depth};
use dupfinder::progress::SilentProgress;
use dupfinder::scanner::{should_enter, walk_depth_limit, ScanResult};
use dupfinder::symlinks::{find_broken_symlinks, resolve_symlink_target};
use dupfinder::types::{FileEntry, FilterConfig, ScanPhase};

#[test]
fn test_broken_symlink_detection() {
    let dir = "/tmp/t";
    let valid_target = format!("{}/exists.txt", dir);
    let valid_link = format!("{}/valid_link", dir);
    let broken_link = format!("{}/broken_link", dir);
    let symlinks = vec![
        (valid_link.clone(), valid_target.clone()),
        (broken_link.clone(), format!("{}/nonexistent", dir)),
    ];
    // What the file system says of each resolved target.
    let present: Vec<bool> = symlinks
        .iter()
        .map(|(l, t)| resolve_symlink_target(l, t) == valid_target)
        .collect();
    let broken = find_broken_symlinks(&symlinks, &present, &SilentProgress);
    assert_eq!(broken.len(), 1);
    assert_eq!(broken[0].link_path, broken_link);
    assert_eq!(broken[0].target_path, "/tmp/t/nonexistent");
}

#[test]
fn symlink_targets_resolve_against_link_directory() {
    assert_eq!(resolve_symlink_target("/a/b/link", "target"), "/a/b/target");
    assert_eq!(resolve_symlink_target("/a/b/link", "/abs"), "/abs");
    assert_eq!(resolve_symlink_target("link", "t"), "t");
    assert_eq!(resolve_symlink_target("/link", "../x"), "/../x");
}

#[test]
fn test_scanner_prunes_build_dirs_and_jars() {
    let filter = FileFilter::from_config(&FilterConfig::default(), &Vec::new()).unwrap();
    assert!(should_enter(&filter, false, "/p", 0, true));
    assert!(should_enter(&filter, false, "/p/src", 1, true));
    assert!(!should_enter(&filter, false, "/p/node_modules", 1, true));
    assert!(!should_enter(&filter, false, "/p/target", 1, true));
    assert!(!should_enter(&filter, false, "/p/.config", 1, true));
    assert!(should_enter(&filter, true, "/p/.config", 1, true));
    assert!(should_enter(&filter, false, "/p/.hidden_root", 0, true));
    // Files are never pruned by directory rules; patterns apply when recorded.
    assert!(should_enter(&filter, false, "/p/lib.jar", 1, false));

    let mut result = ScanResult::start(&SilentProgress);
    let jar = FileEntry { path: "/p/app/lib.jar".to_string(), size: 3, mtime: 0, dev: 0, ino: 0 };
    let pyc = FileEntry { path: "/p/test.pyc".to_string(), size: 3, mtime: 0, dev: 0, ino: 0 };
    let rs = FileEntry { path: "/p/src/main.rs".to_string(), size: 3, mtime: 0, dev: 0, ino: 0 };
    assert_eq!(result.add_file(&filter, jar, &SilentProgress), None);
    assert_eq!(result.add_file(&filter, pyc, &SilentProgress), None);
    assert_eq!(result.add_file(&filter, rs, &SilentProgress), Some(1));
    assert_eq!(result.files.len(), 1);
    assert_eq!(result.files[0].path, "/p/src/main.rs");
    assert_eq!(result.add_directory("/p".to_string(), &SilentProgress), 1);
    assert_eq!(result.add_directory("/p/src".to_string(), &SilentProgress), 2);
    result.add_symlink("/p/l".to_string(), "t".to_string());
    assert_eq!(result.symlinks.len(), 1);
    assert_eq!(result.total_files, 1);
    assert_eq!(result.total_dirs, 2);
    result.finish(&SilentProgress);
}

#[test]
fn test_scanner_loads_project_dupignore() {
    let config = FilterConfig::default();
    let sources = vec!["*.txt\ncustom_cache/\n".to_string()];
    let filter = FileFilter::from_config(&config, &sources).unwrap();
    assert!(!should_enter(&filter, false, "/p/custom_cache", 1, true));
    let mut result = ScanResult::new();
    let notes = FileEntry { path: "/p/notes.txt".to_string(), size: 1, mtime: 0, dev: 0, ino: 0 };
    let main = FileEntry { path: "/p/main.rs".to_string(), size: 1, mtime: 0, dev: 0, ino: 0 };
    assert_eq!(result.add_file(&filter, notes, &SilentProgress), None);
    assert_eq!(result.add_file(&filter, main, &SilentProgress), Some(1));
    assert_eq!(result.files.len(), 1);
}

#[test]
fn depth_limits() {
    assert_eq!(walk_depth_limit(Some(0)), Some(1));
    assert_eq!(walk_depth_limit(Some(3)), Some(4));
    assert_eq!(walk_depth_limit(None), None);
}

#[test]
fn path_helpers() {
    assert_eq!(file_name("/a/b.txt"), Some("b.txt".to_string()));
    assert_eq!(file_name("/a/b/"), Some("b".to_string()));
    assert_eq!(file_name("/"), None);
    assert_eq!(file_name("/a/.."), None);
    assert_eq!(parent_path("/a/b"), Some("/a".to_string()));
    assert_eq!(parent_path("/a"), Some("/".to_string()));
    assert_eq!(parent_path("/"), None);
    assert_eq!(parent_path("a"), Some("".to_string()));
    assert_eq!(normalize("/a//b/./c/"), "/a/b/c");
    assert_eq!(normalize("./x"), "./x");
    assert_eq!(path_depth("/a/b"), 3);
    assert_eq!(path_depth("a/b"), 2);
}

#[test]
fn phase_labels() {
    assert_eq!(ScanPhase::DirectoryTraversal.label(), "Scanning directories");
    assert_eq!(ScanPhase::FullHashing.label(), "Full hashing");
}
