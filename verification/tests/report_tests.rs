use dupfinder::errors::DupfinderError;
use dupfinder::report::{
    byte_prefix_text, format_bytes, format_mtime, format_number, generate_text_report, is_renderable,
    one_decimal_text, percent_text,
};
use dupfinder::types::{
    BrokenSymlink, CacheStats, DuplicateGroup, DuplicateReport, FileEntry, ScanInfo, ScanReport,
};

const SEC: i128 = 1_000_000_000;
const DAY: i128 = 86_400 * SEC;

fn sample_report() -> ScanReport {
    ScanReport {
        version: "0.1.0".to_string(),
        scan_info: ScanInfo {
            paths: vec!["/a".to_string(), "/b".to_string()],
            timestamp: "T".to_string(),
            duration_nanos: 1_500_000_000,
            files_scanned: 12345,
            dirs_scanned: 7,
        },
        duplicates: DuplicateReport {
            total_groups: 1,
            total_redundant_files: 1,
            reclaimable_bytes: 2048,
            groups: vec![DuplicateGroup {
                hash: "0123456789abcdef".to_string(),
                size: 2048,
                original: FileEntry { path: "/a/x".to_string(), size: 2048, mtime: 0, dev: 0, ino: 0 },
                duplicates: vec![FileEntry { path: "/b/x".to_string(), size: 2048, mtime: DAY, dev: 0, ino: 0 }],
            }],
        },
        empty_files: vec!["/a/e".to_string()],
        empty_dirs: vec!["/a/d".to_string()],
        broken_symlinks: vec![BrokenSymlink { link_path: "/a/l".to_string(), target_path: "/a/t".to_string() }],
        cache_stats: CacheStats { hits: 1, misses: 2 },
    }
}

#[test]
fn text_report_exact() {
    let sep = "═".repeat(65);
    let thin = "─".repeat(65);
    let mut expected = String::new();
    expected += &format!("{}\n  dupfinder v0.1.0 — Scan Report\n  Scanned: /a, /b\n  Date: T\n  Duration: 1.5s\n{}\n\n", sep, sep);
    expected += &format!("── Duplicate Files {}\n  Found 1 duplicate group (1 redundant file, 2.0 KB reclaimable)\n\n", thin);
    expected += "  Group 1 — 2 files, 2.0 KB each (BLAKE3: 0123456789ab…)\n";
    expected += "    [ORIGINAL]  /a/x  (1970-01-01)\n    [DUPLICATE] /b/x  (1970-01-02)\n\n";
    expected += &format!("── Empty Files {}\n  Found 1 empty file\n\n    /a/e\n\n", thin);
    expected += &format!("── Empty Directories {}\n  Found 1 empty directory\n\n    /a/d/\n\n", thin);
    expected += &format!("── Broken Symbolic Links {}\n  Found 1 broken symbolic link\n\n    /a/l → /a/t (target missing)\n\n", thin);
    expected += &format!("── Summary {}\n  Scanned:            12,345 files in 7 directories\n", thin);
    expected += "  Duplicates:       1 group (1 redundant, 2.0 KB reclaimable)\n";
    expected += "  Empty files:      1\n  Empty dirs:       1\n  Broken symlinks:  1\n";
    expected += &format!("  Cache hits:       1 / 3 (33.3%)\n{}\n", sep);
    let r = sample_report();
    assert!(is_renderable(&r));
    assert_eq!(generate_text_report(&r).unwrap(), expected);
}

#[test]
fn text_report_without_findings() {
    let mut r = sample_report();
    r.duplicates = DuplicateReport { total_groups: 0, total_redundant_files: 0, reclaimable_bytes: 0, groups: vec![] };
    r.empty_files.clear();
    r.empty_dirs.clear();
    r.broken_symlinks.clear();
    r.cache_stats = CacheStats::default();
    let t = generate_text_report(&r).unwrap();
    assert!(t.contains("  No duplicates found.\n"));
    assert!(t.contains("  Duplicates:       None\n"));
    assert!(!t.contains("Empty Files"));
    assert!(!t.contains("Cache hits"));
}

#[test]
fn text_report_plurals() {
    let mut r = sample_report();
    r.empty_files.push("/a/f".to_string());
    r.empty_dirs.push("/a/g".to_string());
    let t = generate_text_report(&r).unwrap();
    assert!(t.contains("  Found 2 empty files\n"));
    assert!(t.contains("  Found 2 empty directories\n"));
}

#[test]
fn unrenderable_report_is_an_error() {
    let mut r = sample_report();
    // A hash cut after its twelfth byte would split a character.
    r.duplicates.groups[0].hash = "01234567890é".to_string();
    assert!(!is_renderable(&r));
    assert!(matches!(generate_text_report(&r), Err(DupfinderError::ConfigError(_))));
}

#[test]
fn number_formats() {
    assert_eq!(format_number(0), "0");
    assert_eq!(format_number(999), "999");
    assert_eq!(format_number(1000), "1,000");
    assert_eq!(format_number(1234567), "1,234,567");
    assert_eq!(format_number(u64::MAX), "18,446,744,073,709,551,615");
    assert_eq!(format_bytes(1023), "1023 B");
    assert_eq!(format_bytes(1536), "1.5 KB");
    assert_eq!(format_bytes(10 * 1024 * 1024), "10.0 MB");
    assert_eq!(format_bytes(5 * 1024 * 1024 * 1024), "5.0 GB");
    assert_eq!(one_decimal_text(1, 3), "0.3");
    assert_eq!(one_decimal_text(5, 2), "2.5");
    assert_eq!(percent_text(1, 3), "33.3");
    assert_eq!(percent_text(2, 3), "66.7");
    assert_eq!(percent_text(3, 3), "100.0");
}

#[test]
fn dates_and_prefixes() {
    assert_eq!(format_mtime(0), Some("1970-01-01".to_string()));
    assert_eq!(format_mtime(DAY - 1), Some("1970-01-01".to_string()));
    assert_eq!(format_mtime(1_700_000_000 * SEC), Some("2023-11-14".to_string()));
    assert_eq!(format_mtime(-1), Some("1969-12-31".to_string()));
    assert_eq!(byte_prefix_text("abcdef", 3), "abc");
    assert_eq!(byte_prefix_text("ab", 12), "ab");
}
