use dupfinder::tui::{
    bytes_preview_text, execution_message, preview_text, tally_marked, App, FocusPane, Key, KeyOutcome,
    MarkedAction, PreviewProbe,
};
use dupfinder::types::{CacheStats, DuplicateGroup, DuplicateReport, FileEntry, ScanInfo, ScanReport};

fn entry(path: &str, size: u64) -> FileEntry {
    FileEntry { path: path.to_string(), size, mtime: 0, dev: 0, ino: 0 }
}

fn group(hash: &str, size: u64, original: &str, dups: &[&str]) -> DuplicateGroup {
    DuplicateGroup {
        hash: hash.to_string(),
        size,
        original: entry(original, size),
        duplicates: dups.iter().map(|d| entry(d, size)).collect(),
    }
}

fn mock_scan_report(groups: Vec<DuplicateGroup>) -> ScanReport {
    let total_groups = groups.len();
    let total_redundant = groups.iter().map(|g| g.duplicates.len()).sum();
    let reclaimable = groups.iter().map(|g| g.size * g.duplicates.len() as u64).sum();
    ScanReport {
        version: "0.1.0".to_string(),
        scan_info: ScanInfo {
            paths: vec!["/test".to_string()],
            timestamp: "2026-08-14T00:00:00Z".to_string(),
            duration_nanos: 1_000_000_000,
            files_scanned: 10,
            dirs_scanned: 2,
        },
        duplicates: DuplicateReport {
            total_groups,
            total_redundant_files: total_redundant,
            reclaimable_bytes: reclaimable,
            groups,
        },
        empty_files: vec![],
        empty_dirs: vec![],
        broken_symlinks: vec![],
        cache_stats: CacheStats::default(),
    }
}

#[test]
fn test_app_navigation() {
    let group1 = group("hash1", 100, "orig1.txt", &["dup1.txt"]);
    let group2 = group("hash2", 200, "orig2.txt", &["dup2.txt"]);

    let mut app = App::new(mock_scan_report(vec![group1, group2]));
    assert_eq!(app.selected_group_idx, 0);

    app.next_group();
    assert_eq!(app.selected_group_idx, 1);

    app.next_group(); // Wrap around
    assert_eq!(app.selected_group_idx, 0);

    app.prev_group(); // Wrap backwards
    assert_eq!(app.selected_group_idx, 1);
}

#[test]
fn test_app_item_navigation_and_original_protection() {
    let g = group("hash1", 100, "orig.txt", &["dup1.txt", "dup2.txt"]);

    let mut app = App::new(mock_scan_report(vec![g]));
    assert_eq!(app.selected_dup_idx, 0);

    // Attempting to mark original must be blocked!
    app.toggle_mark(MarkedAction::Delete);
    assert!(app.marked_actions.is_empty());
    assert!(app.status_message.contains("Cannot mark canonical original"));

    // Navigate to first duplicate copy
    app.next_item();
    assert_eq!(app.selected_dup_idx, 1);

    // Mark first duplicate for deletion
    app.toggle_mark(MarkedAction::Delete);
    assert_eq!(app.marked_actions.len(), 1);
    assert_eq!(app.marked("dup1.txt"), Some(MarkedAction::Delete));

    // Change to Hardlink
    app.toggle_mark(MarkedAction::Hardlink);
    assert_eq!(app.marked("dup1.txt"), Some(MarkedAction::Hardlink));

    // Unmark
    app.toggle_mark(MarkedAction::Hardlink);
    assert!(app.marked_actions.is_empty());
}

#[test]
fn test_app_preview_text_and_binary() {
    let g = group("testhash", 10, "test.txt", &["test.bin", "empty.txt"]);
    let mut app = App::new(mock_scan_report(vec![g]));

    // Text file preview
    app.selected_dup_idx = 0;
    assert_eq!(app.current_duplicate_path().map(|p| p.as_str()), Some("test.txt"));
    app.set_preview(&PreviewProbe::Read(b"Line 1\nLine 2\nLine 3".to_vec()));
    assert!(app.preview_content.contains("Line 1"));

    // Binary file preview
    app.selected_dup_idx = 1;
    assert_eq!(app.current_duplicate_path().map(|p| p.as_str()), Some("test.bin"));
    app.set_preview(&PreviewProbe::Read(vec![0x00, 0xFF, 0xFE, 0x00, 0x12, 0x34]));
    assert!(app.preview_content.contains("[Binary File - Hex Preview]"));

    // Empty file preview
    app.selected_dup_idx = 2;
    assert_eq!(app.current_duplicate_path().map(|p| p.as_str()), Some("empty.txt"));
    app.set_preview(&PreviewProbe::Read(Vec::new()));
    assert!(app.preview_content.contains("[Empty 0-byte file]"));
}

#[test]
fn hex_preview_exact_lines() {
    let t = bytes_preview_text(&vec![0x00, 0xFF, 0xFE, 0x00, 0x12, 0x34]);
    let expected = format!("[Binary File - Hex Preview]\n0000: {:<48} |.....4|", "00 ff fe 00 12 34");
    assert_eq!(t, expected);

    let bytes: Vec<u8> = (0u8..20).map(|b| if b == 0 { 0xC3 } else { b'A' + b }).collect();
    let t2 = bytes_preview_text(&bytes);
    let lines: Vec<&str> = t2.lines().collect();
    assert_eq!(lines.len(), 3);
    assert!(lines[1].starts_with("0000: c3 42 43"));
    assert!(lines[2].starts_with("0010: 51 52 53 54"));
    assert!(lines[2].ends_with("|QRST|"));
}

#[test]
fn text_preview_keeps_twenty_lines() {
    let text: String = (1..=25).map(|i| format!("line {}\n", i)).collect();
    let t = bytes_preview_text(&text.into_bytes());
    assert_eq!(t.lines().count(), 20);
    assert!(t.starts_with("line 1\nline 2"));
    assert!(t.ends_with("line 20"));
}

#[test]
fn preview_messages() {
    assert_eq!(preview_text(&PreviewProbe::NoSelection), "No file selected.");
    assert_eq!(preview_text(&PreviewProbe::Missing("/x".to_string())), "File does not exist: /x");
    assert_eq!(preview_text(&PreviewProbe::OpenFailed("denied".to_string())), "Could not open file: denied");
    assert_eq!(preview_text(&PreviewProbe::ReadFailed("eio".to_string())), "Error reading file: eio");
}

#[test]
fn keys_drive_the_inspector() {
    let g1 = group("h1", 10, "/o1", &["/d1", "/d2"]);
    let g2 = group("h2", 20, "/o2", &["/d3"]);
    let mut app = App::new(mock_scan_report(vec![g1, g2]));
    assert_eq!(app.handle_key(Key::Down), KeyOutcome::RefreshPreview);
    assert_eq!(app.selected_group_idx, 1);
    assert_eq!(app.handle_key(Key::Tab), KeyOutcome::Continue);
    assert_eq!(app.focus, FocusPane::DuplicatesList);
    assert_eq!(app.handle_key(Key::Char('j')), KeyOutcome::RefreshPreview);
    assert_eq!(app.selected_dup_idx, 1);
    assert_eq!(app.handle_key(Key::Enter), KeyOutcome::Continue);
    assert!(!app.show_confirm);
    assert_eq!(app.status_message, "No items marked! Use [D] to mark for deletion or [L] for hardlink.");
    assert_eq!(app.handle_key(Key::Char('d')), KeyOutcome::Continue);
    assert_eq!(app.status_message, "Marked '/d3' for Delete");
    assert!(app.has_marks());
    assert_eq!(app.handle_key(Key::Enter), KeyOutcome::Continue);
    assert!(app.show_confirm);
    assert_eq!(app.handle_key(Key::Char('n')), KeyOutcome::Continue);
    assert_eq!(app.status_message, "Execution cancelled.");
    assert_eq!(app.handle_key(Key::Enter), KeyOutcome::Continue);
    assert_eq!(app.handle_key(Key::Char('y')), KeyOutcome::ExecuteMarked);
    assert_eq!(app.handle_key(Key::Char('?')), KeyOutcome::Continue);
    assert!(app.show_help);
    assert_eq!(app.handle_key(Key::Char('q')), KeyOutcome::Continue);
    assert!(!app.show_help);
    assert_eq!(app.handle_key(Key::Char('o')), KeyOutcome::OpenViewer);
    assert_eq!(app.handle_key(Key::Esc), KeyOutcome::Quit);
}

#[test]
fn marked_work_in_report_order() {
    let g1 = group("h1", 10, "/o1", &["/d1", "/d2"]);
    let g2 = group("h2", 20, "/o2", &["/d3"]);
    let mut app = App::new(mock_scan_report(vec![g1, g2]));
    app.next_group();
    app.next_item();
    app.toggle_mark(MarkedAction::Hardlink);
    app.prev_group();
    app.prev_item();
    assert_eq!(app.selected_dup_idx, 2);
    app.toggle_mark(MarkedAction::Delete);
    let work = app.marked_work();
    assert_eq!(work.len(), 2);
    assert_eq!(work[0].path, "/d2");
    assert_eq!(work[0].original, "/o1");
    assert_eq!(work[0].action, MarkedAction::Delete);
    assert_eq!(work[1].path, "/d3");
    assert_eq!(work[1].size, 20);
    assert_eq!(work[1].action, MarkedAction::Hardlink);
    app.clear_marks();
    assert!(!app.has_marks());
}

#[test]
fn marks_match_equivalent_paths() {
    let g = group("h", 1, "/o", &["/a/./b"]);
    let mut app = App::new(mock_scan_report(vec![g]));
    app.next_item();
    app.toggle_mark(MarkedAction::Delete);
    assert_eq!(app.marked("/a/b"), Some(MarkedAction::Delete));
    assert_eq!(app.marked("/a/c"), None);
}

#[test]
fn execution_message_text() {
    assert_eq!(
        execution_message(2, 1, 2048),
        "Success! Trashed 2 files, Hardlinked 1 files. Reclaimed 2.00 KB."
    );
}

#[test]
fn empty_report_navigation_is_inert() {
    let mut app = App::new(mock_scan_report(Vec::new()));
    app.next_group();
    app.prev_group();
    app.next_item();
    assert_eq!(app.selected_group_idx, 0);
    assert!(app.current_group().is_none());
    assert!(app.current_duplicate_path().is_none());
}

#[test]
fn next_then_prev_returns_to_the_same_place() {
    let g1 = group("h1", 10, "/o1", &["/d1", "/d2"]);
    let g2 = group("h2", 20, "/o2", &["/d3"]);
    let g3 = group("h3", 30, "/o3", &["/d4"]);
    let mut app = App::new(mock_scan_report(vec![g1, g2, g3]));
    for _ in 0..4 {
        let before = app.selected_group_idx;
        app.next_group();
        app.prev_group();
        assert_eq!(app.selected_group_idx, before);
        app.next_group();
    }
    for _ in 0..4 {
        let before = app.selected_dup_idx;
        app.next_item();
        app.prev_item();
        assert_eq!(app.selected_dup_idx, before);
        app.next_item();
    }
}

#[test]
fn toggling_twice_restores_the_mark() {
    let g = group("h", 1, "/o", &["/d1", "/d2"]);
    let mut app = App::new(mock_scan_report(vec![g]));
    app.next_item();
    app.toggle_mark(MarkedAction::Delete);
    app.toggle_mark(MarkedAction::Delete);
    assert_eq!(app.marked("/d1"), None);
    app.toggle_mark(MarkedAction::Hardlink);
    app.next_item();
    app.toggle_mark(MarkedAction::Delete);
    app.toggle_mark(MarkedAction::Delete);
    assert_eq!(app.marked("/d1"), Some(MarkedAction::Hardlink));
    assert_eq!(app.marked("/d2"), None);
}

#[test]
fn test_app_execute_marked_actions() {
    let g = group("h", 7, "/w/orig.txt", &["/w/dup1.txt", "/w/dup2.txt"]);
    let mut app = App::new(mock_scan_report(vec![g]));

    // Mark dup1 for Delete and dup2 for Hardlink
    app.next_item();
    app.toggle_mark(MarkedAction::Delete);
    app.next_item();
    app.toggle_mark(MarkedAction::Hardlink);

    // What is to be done, in the report's order, each with the original it keeps.
    let work = app.marked_work();
    assert_eq!(work.len(), 2);
    assert_eq!((work[0].path.as_str(), work[0].action), ("/w/dup1.txt", MarkedAction::Delete));
    assert_eq!((work[1].path.as_str(), work[1].action), ("/w/dup2.txt", MarkedAction::Hardlink));
    assert!(work.iter().all(|w| w.original == "/w/orig.txt" && w.size == 7));
    assert!(work.iter().all(|w| w.path != "/w/orig.txt"), "Original file must never be acted on");

    app.clear_marks();
    assert!(app.marked_actions.is_empty());
    assert_eq!(execution_message(1, 1, 14), "Success! Trashed 1 files, Hardlinked 1 files. Reclaimed 14 B.");
}

#[test]
fn header_and_footer_texts() {
    let g = group("h", 2048, "/o", &["/d"]);
    let mut app = App::new(mock_scan_report(vec![g]));
    assert_eq!(
        app.header_text(),
        " 🔍 dupfinder TUI Inspector  │  Groups: 1  │  Wasted Space: 2.00 KB  │  Marked: 0"
    );
    app.next_item();
    app.toggle_mark(MarkedAction::Delete);
    assert!(app.header_text().ends_with("Marked: 1"));
    assert!(app.footer_text().ends_with("│ Marked '/d' for Delete"));
    assert!(app.footer_text().starts_with(" [↑/↓/j/k] Navigate  [Tab] Pane"));
}

#[test]
fn keys_move_and_mark_the_way_they_say() {
    let g1 = group("h1", 10, "/o1", &["/d1", "/d2"]);
    let g2 = group("h2", 20, "/o2", &["/d3"]);
    let mut app = App::new(mock_scan_report(vec![g1, g2]));
    // Up in the groups pane wraps to the last group; Down back to the first.
    assert_eq!(app.handle_key(Key::Char('k')), KeyOutcome::RefreshPreview);
    assert_eq!((app.selected_group_idx, app.selected_dup_idx), (1, 0));
    assert_eq!(app.handle_key(Key::Down), KeyOutcome::RefreshPreview);
    assert_eq!((app.selected_group_idx, app.selected_dup_idx), (0, 0));
    // In the files pane, Up from the original goes to the last duplicate.
    app.handle_key(Key::Tab);
    assert_eq!(app.handle_key(Key::Up), KeyOutcome::RefreshPreview);
    assert_eq!((app.selected_group_idx, app.selected_dup_idx), (0, 2));
    // `d` marks for deletion, `L` for hardlinking, and again unmarks.
    assert_eq!(app.handle_key(Key::Char('d')), KeyOutcome::Continue);
    assert_eq!(app.marked("/d2"), Some(MarkedAction::Delete));
    assert_eq!(app.handle_key(Key::Char('L')), KeyOutcome::Continue);
    assert_eq!(app.marked("/d2"), Some(MarkedAction::Hardlink));
    assert_eq!(app.status_message, "Marked '/d2' for Hardlink");
    assert_eq!(app.handle_key(Key::Char('l')), KeyOutcome::Continue);
    assert_eq!(app.marked("/d2"), None);
    assert_eq!(app.status_message, "Unmarked '/d2'");
    // Any other key changes nothing.
    let before = (app.selected_group_idx, app.selected_dup_idx, app.focus, app.status_message.clone());
    assert_eq!(app.handle_key(Key::Char('x')), KeyOutcome::Continue);
    assert_eq!(app.handle_key(Key::Other), KeyOutcome::Continue);
    assert_eq!((app.selected_group_idx, app.selected_dup_idx, app.focus, app.status_message.clone()), before);
    assert!(!app.has_marks() && !app.show_help && !app.show_confirm);
}

#[test]
fn tally_counts_the_successes() {
    let g1 = group("h1", 10, "/o1", &["/d1", "/d2"]);
    let g2 = group("h2", 20, "/o2", &["/d3"]);
    let mut app = App::new(mock_scan_report(vec![g1, g2]));
    app.next_item();
    app.toggle_mark(MarkedAction::Delete);
    app.next_item();
    app.toggle_mark(MarkedAction::Hardlink);
    app.next_group();
    app.next_item();
    app.toggle_mark(MarkedAction::Delete);
    let work = app.marked_work();
    assert_eq!(work.len(), 3);
    assert_eq!(tally_marked(&work, &vec![true, true, true]), Some((2, 1, 40)));
    assert_eq!(tally_marked(&work, &vec![true, false, true]), Some((2, 0, 30)));
    assert_eq!(tally_marked(&work, &vec![false, false, false]), Some((0, 0, 0)));
    let mut huge = app.marked_work();
    huge[0].size = u64::MAX;
    assert_eq!(tally_marked(&huge, &vec![true, false, true]), None);
    assert_eq!(tally_marked(&huge, &vec![true, false, false]), Some((1, 0, u64::MAX)));
}
