use std::cell::RefCell;

use dupfinder::dedup::{partial_stage, report_stage, size_stage};
use dupfinder::grouping::count_distinct;
use dupfinder::pipeline::{assemble_report, ScanParts};
use dupfinder::progress::{ProgressHandler, SilentProgress};
use dupfinder::scanner::ScanResult;
use dupfinder::tui::{badge, confirm_count_text, files_title, group_label, App, MarkedAction};
use dupfinder::types::{CacheStats, DuplicateGroup, DuplicateReport, FeatureFlags, FileEntry, FilterConfig, ScanPhase};
use dupfinder::filter::FileFilter;

/// Records every progress message.
struct Recorder {
    lines: RefCell<Vec<String>>,
}

impl ProgressHandler for Recorder {
    fn on_phase_start(&self, phase: ScanPhase, _total: Option<u64>) {
        self.lines.borrow_mut().push(format!("start {}", phase.label()));
    }
    fn on_progress(&self, _phase: ScanPhase, _current: u64, message: &str) {
        self.lines.borrow_mut().push(message.to_string());
    }
    fn on_phase_end(&self, phase: ScanPhase) {
        self.lines.borrow_mut().push(format!("end {}", phase.label()));
    }
}

fn entry(path: &str, size: u64) -> FileEntry {
    FileEntry { path: path.to_string(), size, mtime: 0, dev: 0, ino: 0 }
}

#[test]
fn traversal_progress_messages() {
    let rec = Recorder { lines: RefCell::new(Vec::new()) };
    let filter = FileFilter::from_config(&FilterConfig::default(), &Vec::new()).unwrap();
    let mut r = ScanResult::start(&rec);
    for i in 0..100 {
        r.add_directory(format!("/d{}", i), &rec);
    }
    for i in 0..500 {
        r.add_file(&filter, entry(&format!("/f{}", i), 1), &rec);
    }
    r.finish(&rec);
    let lines = rec.lines.borrow();
    assert_eq!(
        *lines,
        vec![
            "start Scanning directories".to_string(),
            "100 dirs scanned".to_string(),
            "500 files discovered".to_string(),
            "Discovered 500 files in 100 directories".to_string(),
            "end Scanning directories".to_string(),
        ]
    );
}

#[test]
fn dedup_stage_messages() {
    let rec = Recorder { lines: RefCell::new(Vec::new()) };
    let files = vec![entry("/a", 5), entry("/b", 5), entry("/c", 7), entry("/d", 7), entry("/e", 9)];
    let cands = size_stage(&files, 1, &rec);
    assert_eq!(cands, vec![0, 1, 2, 3]);
    let partial = vec![Some("p".to_string()), Some("p".to_string()), Some("q".to_string()), Some("r".to_string())];
    let keep = partial_stage(&files, &cands, &partial, &rec);
    assert_eq!(keep, vec![0, 1]);
    let hashed = vec![(0usize, "h".to_string()), (1usize, "h".to_string())];
    let report = report_stage(&files, &hashed, &rec).unwrap();
    assert_eq!(report.total_groups, 1);
    let lines = rec.lines.borrow();
    assert_eq!(
        *lines,
        vec![
            "start Grouping by size".to_string(),
            "4 files in 2 size groups".to_string(),
            "end Grouping by size".to_string(),
            "2 files in 1 partial-hash groups".to_string(),
            "end Partial hashing".to_string(),
            "1 duplicate groups confirmed".to_string(),
            "end Full hashing".to_string(),
        ]
    );
}

#[test]
fn distinct_counts() {
    assert_eq!(count_distinct(&vec![]), 0);
    assert_eq!(count_distinct(&vec![4, 4, 4]), 1);
    assert_eq!(count_distinct(&vec![1, 2, 1, 3, 2]), 3);
}

fn scanned() -> ScanResult {
    let mut r = ScanResult::new();
    r.add_directory("/r".to_string(), &SilentProgress);
    r.add_directory("/r/empty".to_string(), &SilentProgress);
    let filter = FileFilter::from_config(&FilterConfig { preset: None, ..Default::default() }, &Vec::new()).unwrap();
    r.add_file(&filter, entry("/r/zero", 0), &SilentProgress);
    r.add_file(&filter, entry("/r/one", 1), &SilentProgress);
    r.add_symlink("/r/ok".to_string(), "one".to_string());
    r.add_symlink("/r/bad".to_string(), "gone".to_string());
    r
}

#[test]
fn report_assembly_follows_features() {
    let s = scanned();
    let dups = DuplicateReport { total_groups: 0, total_redundant_files: 0, reclaimable_bytes: 0, groups: vec![] };
    let parts = ScanParts {
        version: "0.1.0".to_string(),
        paths: vec!["/r".to_string()],
        timestamp: "T".to_string(),
        duration_nanos: 5,
        features: FeatureFlags::default(),
        duplicates: Some((dups, CacheStats { hits: 1, misses: 2 })),
    };
    let r = assemble_report(parts, &s, &vec![true, false], &SilentProgress);
    assert_eq!(r.empty_files, vec!["/r/zero".to_string()]);
    assert_eq!(r.empty_dirs, vec!["/r/empty".to_string()]);
    assert_eq!(r.broken_symlinks.len(), 1);
    assert_eq!(r.broken_symlinks[0].link_path, "/r/bad");
    assert_eq!(r.cache_stats.misses, 2);
    assert_eq!(r.scan_info.files_scanned, 2);
    assert_eq!(r.scan_info.dirs_scanned, 2);

    let off = ScanParts {
        version: "0.1.0".to_string(),
        paths: vec![],
        timestamp: "T".to_string(),
        duration_nanos: 0,
        features: FeatureFlags { duplicates: false, empty_files: false, empty_dirs: false, broken_links: false },
        duplicates: None,
    };
    let r2 = assemble_report(off, &s, &vec![true, false], &SilentProgress);
    assert!(r2.empty_files.is_empty());
    assert!(r2.empty_dirs.is_empty());
    assert!(r2.broken_symlinks.is_empty());
    assert_eq!(r2.duplicates.total_groups, 0);
    assert_eq!(r2.cache_stats.hits, 0);
}

fn group(original: &str, dups: &[&str], size: u64) -> DuplicateGroup {
    DuplicateGroup {
        hash: "abcdef0123456789".to_string(),
        size,
        original: entry(original, size),
        duplicates: dups.iter().map(|d| entry(d, size)).collect(),
    }
}

#[test]
fn inspector_texts() {
    let g = group("/x/photo.jpg", &["/y/photo.jpg"], 2048);
    let (a, b, c) = group_label(0, &g);
    assert_eq!(a, "#01 ");
    assert_eq!(b, format!("{:<20} ", "photo.jpg"));
    assert_eq!(c, "(2 copies, 2.00 KB)");
    let (a2, _, _) = group_label(11, &g);
    assert_eq!(a2, "#12 ");
    let long = group("/x/a_very_long_file_name_indeed.txt", &["/y"], 1);
    assert_eq!(group_label(0, &long).1, "a_very_long_file_name_indeed.txt ");
    assert_eq!(files_title(&g), " Group Files (Hash: abcdef01...) ");
    assert_eq!(badge(Some(MarkedAction::Delete)), " [DELETE]   ");
    assert_eq!(badge(Some(MarkedAction::Hardlink)), " [HARDLINK] ");
    assert_eq!(badge(None), " [KEEP]     ");
    assert_eq!(confirm_count_text(3), "You have marked 3 file(s) for remediation.");
}
