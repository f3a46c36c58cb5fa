use dupfinder::errors::DupfinderError;
use dupfinder::safety::{
    is_hidden_path, is_protected_canonical, is_structural_sentinel, is_system_or_protected_path,
    resolve_canonical, validate_deletion_safety, verify_file_unmodified, FileState, PathFacts, ScanStamp,
};

fn stamp(size: u64) -> ScanStamp {
    ScanStamp { size, mtime: 0, dev: 0, ino: 0 }
}

fn existing(canonical: &str) -> PathFacts {
    PathFacts { canonical: Some(Ok(canonical.to_string())), parent_canonical: None }
}

fn missing() -> PathFacts {
    PathFacts { canonical: None, parent_canonical: None }
}

fn protected(path: &str, facts: &PathFacts) -> bool {
    is_system_or_protected_path(path, facts).unwrap()
}

#[test]
fn test_sentinel_files() {
    assert!(is_structural_sentinel("/project/src/__init__.py"));
    assert!(is_structural_sentinel(".gitkeep"));
    assert!(is_structural_sentinel("keep.me"));
    assert!(!is_structural_sentinel("normal_empty_file.txt"));
}

#[test]
fn test_hidden_paths() {
    assert!(is_hidden_path("/home/user/.hidden_file"));
    assert!(is_hidden_path(".hidden_file"));
    assert!(!is_hidden_path("/home/user/documents/file.txt"));
}

#[test]
fn test_protected_paths() {
    assert!(protected("/", &existing("/")));
    assert!(protected("/System", &existing("/System")));
    assert!(protected("/Library/Preferences", &existing("/Library/Preferences")));
    assert!(protected("/usr/bin/git", &existing("/usr/bin/git")));
    assert!(protected("/etc/passwd", &existing("/etc/passwd")));
    assert!(protected("/usr/bin", &existing("/usr/bin")));
    assert!(protected("/home/user/.ssh/id_rsa", &missing()));
    assert!(protected("/workspace/.git/config", &missing()));
}

#[test]
fn protection_follows_canonical_form() {
    // A link in a scratch directory that resolves into a system directory.
    assert!(protected("/tmp/innocent", &existing("/etc/shadow")));
    // Scratch locations are not system directories.
    assert!(!protected("/tmp/x/file", &existing("/tmp/x/file")));
    assert!(!protected("/var/tmp/f", &existing("/var/tmp/f")));
    assert!(protected("/var/log/f", &existing("/var/log/f")));
    // Secrets stay protected even in scratch locations.
    assert!(protected("/tmp/.ssh/key", &existing("/tmp/.ssh/key")));
    // A name that merely starts like a system directory is not one.
    assert!(!protected("/usrdata/f", &existing("/usrdata/f")));
    assert!(!is_protected_canonical("/home/u/docs/a.txt"));
    assert!(is_protected_canonical("/home/u/.cargo/registry/x"));
}

#[test]
fn canonical_of_missing_path_uses_parent() {
    let facts = PathFacts { canonical: None, parent_canonical: Some(Ok("/real/dir".to_string())) };
    assert_eq!(resolve_canonical("/link/dir/f.txt", &facts).unwrap(), "/real/dir/f.txt");
    let into_etc = PathFacts { canonical: None, parent_canonical: Some(Ok("/etc".to_string())) };
    assert!(protected("/home/x/f", &into_etc));
    let broken = PathFacts { canonical: None, parent_canonical: Some(Err("denied".to_string())) };
    match resolve_canonical("/p/q", &broken) {
        Err(DupfinderError::IoError { path, message }) => {
            assert_eq!(path, "/p");
            assert_eq!(message, "denied");
        },
        other => panic!("unexpected {:?}", other),
    }
    let unreadable = PathFacts { canonical: Some(Err("loop".to_string())), parent_canonical: None };
    assert!(is_system_or_protected_path("/a", &unreadable).is_err());
    assert_eq!(resolve_canonical("/nowhere/f", &missing()).unwrap(), "/nowhere/f");
}

#[test]
fn test_validate_deletion_safety_preserves_original() {
    let orig = "/work/original.txt";
    let dup = "/work/duplicate.txt";
    let ofacts = existing(orig);

    // Valid cleanup
    assert!(validate_deletion_safety(orig, &ofacts, &vec![dup.to_string()], &vec![existing(dup)]).is_ok());

    // Invalid: deleting original
    let err = validate_deletion_safety(orig, &ofacts, &vec![orig.to_string()], &vec![existing(orig)]);
    assert!(err.is_err());
}

#[test]
fn deletion_safety_errors() {
    let orig = "/work/o.txt";
    match validate_deletion_safety(orig, &missing(), &Vec::new(), &Vec::new()) {
        Err(DupfinderError::OriginalPreservationError(m)) => {
            assert_eq!(m, "Designated original file '/work/o.txt' does not exist on disk")
        },
        other => panic!("unexpected {:?}", other),
    }
    // A duplicate that is a link to the original resolves to it.
    match validate_deletion_safety(orig, &existing(orig), &vec!["/work/l".to_string()], &vec![existing("/work/./o.txt")]) {
        Err(DupfinderError::OriginalPreservationError(m)) => {
            assert_eq!(m, "Safety invariant violated: cannot delete original file '/work/o.txt'")
        },
        other => panic!("unexpected {:?}", other),
    }
    match validate_deletion_safety(orig, &existing(orig), &vec!["/etc/hosts".to_string()], &vec![existing("/etc/hosts")]) {
        Err(DupfinderError::ProtectedPathError { path, reason }) => {
            assert_eq!(path, "/etc/hosts");
            assert_eq!(reason, "Operation on system or protected path is forbidden");
        },
        other => panic!("unexpected {:?}", other),
    }
}

#[test]
fn test_toctou_verification() {
    let ok = Ok(FileState { is_symlink: false, is_file: true, len: 5, mtime: 0, dev: 0, ino: 0 });
    // Size matches
    assert!(verify_file_unmodified("file.txt", stamp(5), &ok).is_ok());
    // Size changed
    assert!(verify_file_unmodified("file.txt", stamp(10), &ok).is_err());
    // Deleted file
    let gone: Result<FileState, String> = Err("No such file or directory (os error 2)".to_string());
    assert!(verify_file_unmodified("gone.txt", stamp(5), &gone).is_err());
}

#[test]
fn toctou_reasons() {
    let reason = |r: Result<(), DupfinderError>| match r {
        Err(DupfinderError::StateChangedError { reason, .. }) => reason,
        other => panic!("unexpected {:?}", other),
    };
    let grown = Ok(FileState { is_symlink: false, is_file: true, len: 12, mtime: 0, dev: 0, ino: 0 });
    assert_eq!(reason(verify_file_unmodified("f", stamp(10), &grown)), "File size changed (expected 10 bytes, found 12 bytes)");
    let link = Ok(FileState { is_symlink: true, is_file: false, len: 10, mtime: 0, dev: 0, ino: 0 });
    assert_eq!(reason(verify_file_unmodified("f", stamp(10), &link)), "Target was swapped for a symlink");
    let dir = Ok(FileState { is_symlink: false, is_file: false, len: 10, mtime: 0, dev: 0, ino: 0 });
    assert_eq!(reason(verify_file_unmodified("f", stamp(10), &dir)), "Target is no longer a regular file");
    let gone: Result<FileState, String> = Err("gone".to_string());
    assert_eq!(reason(verify_file_unmodified("f", stamp(10), &gone)), "File inaccessible or deleted: gone");
}

#[test]
fn toctou_refuses_replaced_or_modified_file() {
    let reason = |r: Result<(), DupfinderError>| match r {
        Err(DupfinderError::StateChangedError { reason, .. }) => reason,
        other => panic!("unexpected {:?}", other),
    };
    let scanned = ScanStamp { size: 7, mtime: 1_000, dev: 3, ino: 42 };
    let same = Ok(FileState { is_symlink: false, is_file: true, len: 7, mtime: 1_000, dev: 3, ino: 42 });
    assert!(verify_file_unmodified("f", scanned, &same).is_ok());
    let touched = Ok(FileState { is_symlink: false, is_file: true, len: 7, mtime: 2_000, dev: 3, ino: 42 });
    assert_eq!(reason(verify_file_unmodified("f", scanned, &touched)), "File was modified since the scan");
    let other_inode = Ok(FileState { is_symlink: false, is_file: true, len: 7, mtime: 1_000, dev: 3, ino: 43 });
    assert_eq!(reason(verify_file_unmodified("f", scanned, &other_inode)), "Target was replaced by another file");
    let other_device = Ok(FileState { is_symlink: false, is_file: true, len: 7, mtime: 1_000, dev: 4, ino: 42 });
    assert_eq!(reason(verify_file_unmodified("f", scanned, &other_device)), "Target was replaced by another file");
}
