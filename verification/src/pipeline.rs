//! The last part of a scan: the detections that need nothing but what the
//! traversal found, and the assembly of the report. Traversal, hashing and
//! the checks of symlink targets read the file system and are done before.

use vstd::prelude::*;
use crate::empty::{deepest_first, empty_file_paths, find_empty_dirs, find_empty_files, unheld_dirs};
use crate::progress::ProgressHandler;
use crate::scanner::ScanResult;
use crate::symlinks::{broken_links, find_broken_symlinks};
use crate::types::{CacheStats, DuplicateReport, FeatureFlags, ScanInfo, ScanPhase, ScanReport};

verus! {

/// What the traversal and the duplicate search of a scan produced, with the
/// scan's circumstances.
pub struct ScanParts {
    /// The version of the program.
    pub version: String,
    /// The scanned roots.
    pub paths: Vec<String>,
    /// When the scan started (RFC 3339).
    pub timestamp: String,
    /// How long the scan took, in nanoseconds.
    pub duration_nanos: u64,
    /// Which detections were asked for.
    pub features: FeatureFlags,
    /// The duplicate groups and cache use, when duplicates were searched for.
    pub duplicates: Option<(DuplicateReport, CacheStats)>,
}

/// Runs the enabled detections on what the traversal found and assembles
/// the scan report. `target_exists[i]` says whether the target of the
/// `i`-th symlink exists. Empty files come in scan order, empty directories
/// deepest first, broken links in scan order; a detection that is off gives
/// nothing.
pub fn assemble_report(
    parts: ScanParts,
    scanned: &ScanResult,
    target_exists: &Vec<bool>,
    progress: &dyn ProgressHandler,
) -> (r: ScanReport)
    requires
        target_exists@.len() == scanned.symlinks@.len(),
    ensures
        r.version == parts.version,
        r.scan_info == (ScanInfo {
            paths: parts.paths,
            timestamp: parts.timestamp,
            duration_nanos: parts.duration_nanos,
            files_scanned: scanned.total_files,
            dirs_scanned: scanned.total_dirs,
        }),
        match parts.duplicates {
            Some((d, s)) => r.duplicates == d && r.cache_stats == s,
            None => r.duplicates.groups@.len() == 0 && r.duplicates.total_groups == 0
                && r.duplicates.total_redundant_files == 0 && r.duplicates.reclaimable_bytes == 0
                && r.cache_stats == (CacheStats { hits: 0, misses: 0 }),
        },
        parts.features.empty_files ==> r.empty_files@.len() == empty_file_paths(scanned.files@).len() && forall|i: int|
            0 <= i < r.empty_files@.len() ==> (#[trigger] r.empty_files@[i])@ == empty_file_paths(scanned.files@)[i],
        !parts.features.empty_files ==> r.empty_files@.len() == 0,
        parts.features.empty_dirs ==> exists|order: Seq<int>|
            deepest_first(unheld_dirs(scanned.directories@, scanned.files@), order) && r.empty_dirs@.len()
                == order.len() && forall|a: int|
                0 <= a < r.empty_dirs@.len() ==> (#[trigger] r.empty_dirs@[a])@ == unheld_dirs(
                    scanned.directories@,
                    scanned.files@,
                )[order[a]],
        !parts.features.empty_dirs ==> r.empty_dirs@.len() == 0,
        parts.features.broken_links ==> r.broken_symlinks@.len() == broken_links(scanned.symlinks@, target_exists@).len()
            && forall|i: int|
            0 <= i < r.broken_symlinks@.len() ==> ((#[trigger] r.broken_symlinks@[i]).link_path@,
                r.broken_symlinks@[i].target_path@) == broken_links(scanned.symlinks@, target_exists@)[i],
        !parts.features.broken_links ==> r.broken_symlinks@.len() == 0,
{
    let (duplicates, cache_stats) = match parts.duplicates {
        Some((d, s)) => (d, s),
        None => (DuplicateReport::empty(), CacheStats { hits: 0, misses: 0 }),
    };
    let empty_files = if parts.features.empty_files {
        find_empty_files(&scanned.files, progress)
    } else {
        Vec::new()
    };
    let empty_dirs = if parts.features.empty_dirs {
        find_empty_dirs(&scanned.directories, &scanned.files, progress)
    } else {
        Vec::new()
    };
    let broken_symlinks = if parts.features.broken_links {
        find_broken_symlinks(&scanned.symlinks, target_exists, progress)
    } else {
        Vec::new()
    };
    progress.on_phase_start(ScanPhase::ReportGeneration, None);
    progress.on_phase_end(ScanPhase::ReportGeneration);
    ScanReport {
        version: parts.version,
        scan_info: ScanInfo {
            paths: parts.paths,
            timestamp: parts.timestamp,
            duration_nanos: parts.duration_nanos,
            files_scanned: scanned.total_files,
            dirs_scanned: scanned.total_dirs,
        },
        duplicates,
        empty_files,
        empty_dirs,
        broken_symlinks,
        cache_stats,
    }
}

} // verus!
