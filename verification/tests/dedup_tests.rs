use dupfinder::cache::HashCache;
use dupfinder::dedup::{
    build_duplicate_report, partial_survivors, record_computed, select_positions, size_candidates,
    split_cached,
};
use dupfinder::grouping::{number_strings, shared_keys, stable_order};
use dupfinder::hasher::{full_hash_of, partial_hash_of};
use dupfinder::types::{CacheStats, DuplicateReport, FileEntry};

const SEC: i128 = 1_000_000_000;

fn file(name: &str, content: &str, mtime_offset: i128) -> (FileEntry, Vec<u8>) {
    let bytes = content.as_bytes().to_vec();
    let entry = FileEntry { path: format!("/t/{}", name), size: bytes.len() as u64, mtime: (1000 + mtime_offset) * SEC, dev: 0, ino: 0 };
    (entry, bytes)
}

/// The three stages, with contents held in memory in place of files.
fn find_duplicates(
    input: &[(FileEntry, Vec<u8>)],
    min_size: u64,
    cache: &mut Option<HashCache>,
) -> (DuplicateReport, CacheStats) {
    let files: Vec<FileEntry> = input.iter().map(|(f, _)| f.clone()).collect();
    let mut stats = CacheStats::default();
    let cands = size_candidates(&files, min_size);
    let partial: Vec<Option<String>> = cands.iter().map(|&i| Some(partial_hash_of(&input[i].1))).collect();
    let keep = partial_survivors(&files, &cands, &partial);
    let survivors = select_positions(&cands, &keep);
    let (mut hashed, need) = split_cached(&files, &survivors, cache, &mut stats);
    let computed: Vec<Option<String>> = need.iter().map(|&i| Some(full_hash_of(&input[i].1))).collect();
    hashed.extend(record_computed(&files, &need, &computed, cache));
    (build_duplicate_report(&files, &hashed).unwrap(), stats)
}

#[test]
fn test_no_duplicates() {
    let files = vec![
        file("a.txt", "unique content A", 0),
        file("b.txt", "unique content B", 1),
        file("c.txt", "unique content C", 2),
    ];
    let (report, _stats) = find_duplicates(&files, 1, &mut None);
    assert_eq!(report.total_groups, 0);
    assert_eq!(report.total_redundant_files, 0);
}

#[test]
fn test_finds_duplicates() {
    let files = vec![
        file("a.txt", "duplicate content", 0),
        file("b.txt", "duplicate content", 1),
        file("c.txt", "unique content", 2),
    ];
    let (report, _stats) = find_duplicates(&files, 1, &mut None);
    assert_eq!(report.total_groups, 1);
    assert_eq!(report.total_redundant_files, 1);
}

#[test]
fn test_oldest_is_original() {
    let file_old = file("old.txt", "same content", 0);
    let file_new = file("new.txt", "same content", 100);
    let files = vec![file_new, file_old];
    let (report, _stats) = find_duplicates(&files, 1, &mut None);
    assert_eq!(report.total_groups, 1);
    // The original should have the earlier mtime
    assert!(report.groups[0].original.mtime <= report.groups[0].duplicates[0].mtime);
    assert_eq!(report.groups[0].original.path, "/t/old.txt");
}

#[test]
fn groups_sorted_by_reclaimable_bytes_with_totals() {
    let files = vec![
        file("s1", "ab", 0),
        file("s2", "ab", 1),
        file("l1", "0123456789", 5),
        file("l2", "0123456789", 3),
        file("l3", "0123456789", 4),
        file("u", "xy", 0),
    ];
    let (report, stats) = find_duplicates(&files, 1, &mut None);
    assert_eq!(report.total_groups, 2);
    assert_eq!(report.groups[0].size, 10);
    assert_eq!(report.groups[0].original.path, "/t/l2");
    let dups: Vec<&str> = report.groups[0].duplicates.iter().map(|d| d.path.as_str()).collect();
    assert_eq!(dups, vec!["/t/l3", "/t/l1"]);
    assert_eq!(report.groups[1].size, 2);
    assert_eq!(report.total_redundant_files, 3);
    assert_eq!(report.reclaimable_bytes, 2 * 10 + 2);
    assert_eq!(report.groups[0].hash, full_hash_of(b"0123456789"));
    assert_eq!(stats.hits, 0);
    assert_eq!(stats.misses, 5);
}

#[test]
fn min_size_and_empty_files_are_left_out() {
    let files = vec![file("e1", "", 0), file("e2", "", 1), file("a", "abc", 0), file("b", "abc", 1)];
    let (report, _) = find_duplicates(&files, 1, &mut None);
    assert_eq!(report.total_groups, 1);
    assert_eq!(report.groups[0].size, 3);
    let (none, _) = find_duplicates(&files, 4, &mut None);
    assert_eq!(none.total_groups, 0);
}

#[test]
fn equal_mtimes_keep_scan_order() {
    let files = vec![file("first", "same", 0), file("second", "same", 0)];
    let (report, _) = find_duplicates(&files, 1, &mut None);
    assert_eq!(report.groups[0].original.path, "/t/first");
}

#[test]
fn cache_supplies_and_records_full_hashes() {
    let files = vec![file("a", "dup", 0), file("b", "dup", 1)];
    let mut cache = Some(HashCache::from_loaded("/c/cache.json".to_string(), None));
    let (first, stats1) = find_duplicates(&files, 1, &mut cache);
    assert_eq!(first.total_groups, 1);
    assert_eq!((stats1.hits, stats1.misses), (0, 2));
    let c = cache.as_ref().unwrap();
    assert_eq!(c.entry_count(), 2);
    assert!(c.needs_save());
    assert_eq!(c.lookup("/t/a", 3, 1000 * SEC), Some(full_hash_of(b"dup").as_str()));
    let (second, stats2) = find_duplicates(&files, 1, &mut cache);
    assert_eq!(second.total_groups, 1);
    assert_eq!((stats2.hits, stats2.misses), (2, 0));
}

#[test]
fn stage_functions_directly() {
    let files = vec![file("a", "xx", 0).0, file("b", "yy", 0).0, file("c", "zzz", 0).0];
    assert_eq!(size_candidates(&files, 1), vec![0, 1]);
    let partial = vec![Some("p".to_string()), None];
    assert!(partial_survivors(&files, &vec![0, 1], &partial).is_empty());
    let same = vec![Some("p".to_string()), Some("p".to_string())];
    assert_eq!(partial_survivors(&files, &vec![0, 1], &same), vec![0, 1]);
    assert_eq!(select_positions(&vec![7, 8, 9], &vec![2, 0]), vec![9, 7]);
    let recorded = record_computed(&files, &vec![0, 1], &vec![None, Some("h".to_string())], &mut None);
    assert_eq!(recorded, vec![(1, "h".to_string())]);
}

#[test]
fn grouping_helpers() {
    assert_eq!(shared_keys(&vec![Some(3), None, Some(5), Some(3), None]), vec![0, 3]);
    let ids = number_strings(&vec![Some("a".to_string()), None, Some("b".to_string()), Some("a".to_string())]);
    assert_eq!(ids[1], None);
    assert_eq!(ids[0], ids[3]);
    assert_ne!(ids[0], ids[2]);
    assert_eq!(stable_order(&vec![3, 1, 2, 1]), vec![1, 3, 2, 0]);
}

#[test]
fn large_files_among_many_are_grouped() {
    // A huge duplicate pair among many hashed files: only the group's own
    // reclaimable bytes count toward the u64 total.
    let big = u64::MAX / 2;
    let mut files = vec![
        FileEntry { path: "/big1".to_string(), size: big, mtime: 0, dev: 0, ino: 0 },
        FileEntry { path: "/big2".to_string(), size: big, mtime: SEC, dev: 0, ino: 0 },
    ];
    let mut hashed = vec![(0usize, "hb".to_string()), (1usize, "hb".to_string())];
    for k in 0..10 {
        files.push(FileEntry { path: format!("/s{}", k), size: 3, mtime: 0, dev: 0, ino: 0 });
        hashed.push((k + 2, format!("u{}", k)));
    }
    let report = build_duplicate_report(&files, &hashed).unwrap();
    assert_eq!(report.total_groups, 1);
    assert_eq!(report.reclaimable_bytes, big);
    assert_eq!(report.groups[0].original.path, "/big1");
}

#[test]
fn reclaimable_total_past_u64_is_refused() {
    let big = u64::MAX / 2 + 1;
    let files = vec![
        FileEntry { path: "/a1".to_string(), size: big, mtime: 0, dev: 0, ino: 0 },
        FileEntry { path: "/a2".to_string(), size: big, mtime: 0, dev: 0, ino: 0 },
        FileEntry { path: "/b1".to_string(), size: big, mtime: 0, dev: 0, ino: 0 },
        FileEntry { path: "/b2".to_string(), size: big, mtime: 0, dev: 0, ino: 0 },
    ];
    let hashed = vec![
        (0usize, "ha".to_string()),
        (1usize, "ha".to_string()),
        (2usize, "hb".to_string()),
        (3usize, "hb".to_string()),
    ];
    assert!(build_duplicate_report(&files, &hashed).is_none());
    assert!(build_duplicate_report(&files[..2].to_vec(), &hashed[..2].to_vec()).is_some());
}
