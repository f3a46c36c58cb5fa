//! Shared configuration and report types.
//!
//! Paths are path strings (`crate::paths` reads them); modification times are
//! nanoseconds since the Unix epoch, negative before it.

use vstd::prelude::*;
use crate::ignore::IgnorePreset;

verus! {

/// Configuration for a scan operation.
#[derive(Debug, Clone)]
pub struct ScanConfig {
    /// One or more directories to scan.
    pub paths: Vec<String>,
    /// Which detection features are enabled.
    pub features: FeatureFlags,
    /// File filtering options.
    pub filters: FilterConfig,
    /// Cache configuration.
    pub cache_config: CacheConfig,
    /// Maximum recursion depth (None = unlimited).
    pub max_depth: Option<usize>,
    /// Whether to include hidden files/directories.
    pub include_hidden: bool,
}

/// Flags controlling which detection features to run.
#[derive(Debug, Clone, Copy, PartialEq, Eq, Structural)]
pub struct FeatureFlags {
    pub duplicates: bool,
    pub empty_files: bool,
    pub empty_dirs: bool,
    pub broken_links: bool,
}

impl Default for FeatureFlags {
    /// Every detector on.
    fn default() -> (r: FeatureFlags)
        ensures
            r.duplicates && r.empty_files && r.empty_dirs && r.broken_links,
    {
        FeatureFlags { duplicates: true, empty_files: true, empty_dirs: true, broken_links: true }
    }
}

/// File filtering configuration.
#[derive(Debug, Clone)]
pub struct FilterConfig {
    /// Minimum file size in bytes (smaller files are skipped for duplicate detection).
    pub min_size: u64,
    /// Glob patterns to exclude files.
    pub exclude_patterns: Vec<String>,
    /// Directory names to skip entirely.
    pub exclude_dirs: Vec<String>,
    /// Built-in ignore preset (None = no preset).
    pub preset: Option<IgnorePreset>,
    /// Keep scanning JVM archives even when the preset excludes them.
    pub include_jars: bool,
    /// Load the user's global ignore file.
    pub use_global_ignore: bool,
    /// Load `<scan_root>/.dupignore` files.
    pub use_project_ignore: bool,
    /// Further ignore files to load.
    pub custom_ignore_files: Vec<String>,
}

impl FilterConfig {
    /// The default filter settings.
    pub open spec fn is_default(&self) -> bool {
        &&& self.min_size == 1
        &&& self.exclude_patterns@.len() == 0
        &&& self.exclude_dirs@.len() == 4
        &&& self.exclude_dirs@[0]@ == ".git"@
        &&& self.exclude_dirs@[1]@ == "node_modules"@
        &&& self.exclude_dirs@[2]@ == "__pycache__"@
        &&& self.exclude_dirs@[3]@ == ".DS_Store"@
        &&& self.preset == Some(IgnorePreset::Default)
        &&& !self.include_jars
        &&& self.use_global_ignore
        &&& self.use_project_ignore
        &&& self.custom_ignore_files@.len() == 0
    }
}

impl Default for FilterConfig {
    /// Minimum size one byte, the default preset, the common VCS and
    /// dependency directories excluded, global and project ignore files on.
    fn default() -> (r: FilterConfig)
        ensures
            r.is_default(),
    {
        let dirs = vec![
            crate::text::string_from_str(".git"),
            crate::text::string_from_str("node_modules"),
            crate::text::string_from_str("__pycache__"),
            crate::text::string_from_str(".DS_Store"),
        ];
        FilterConfig {
            min_size: 1,
            exclude_patterns: Vec::new(),
            exclude_dirs: dirs,
            preset: Some(IgnorePreset::Default),
            include_jars: false,
            use_global_ignore: true,
            use_project_ignore: true,
            custom_ignore_files: Vec::new(),
        }
    }
}

/// Cache configuration.
#[derive(Debug, Clone)]
pub struct CacheConfig {
    /// Whether caching is enabled.
    pub enabled: bool,
    /// Custom cache directory (None = platform default).
    pub cache_dir: Option<String>,
}

impl Default for CacheConfig {
    /// Caching on, in the platform's cache directory.
    fn default() -> (r: CacheConfig)
        ensures
            r.enabled,
            r.cache_dir is None,
    {
        CacheConfig { enabled: true, cache_dir: None }
    }
}

/// Phases of the scanning process (for progress reporting).
#[derive(Debug, Clone, Copy, PartialEq, Eq, Structural)]
pub enum ScanPhase {
    /// Traversing directories to discover files.
    DirectoryTraversal,
    /// Grouping files by size.
    SizeGrouping,
    /// Computing partial (8KB prefix) hashes.
    PartialHashing,
    /// Computing full content hashes.
    FullHashing,
    /// Detecting empty files.
    EmptyFileDetection,
    /// Detecting empty directories.
    EmptyDirDetection,
    /// Detecting broken symbolic links.
    BrokenLinkDetection,
    /// Computing perceptual image hashes.
    PerceptualHashing,
    /// Generating report.
    ReportGeneration,
}

/// The label a phase is shown with.
pub open spec fn phase_label(p: ScanPhase) -> Seq<char> {
    match p {
        ScanPhase::DirectoryTraversal => "Scanning directories"@,
        ScanPhase::SizeGrouping => "Grouping by size"@,
        ScanPhase::PartialHashing => "Partial hashing"@,
        ScanPhase::FullHashing => "Full hashing"@,
        ScanPhase::EmptyFileDetection => "Finding empty files"@,
        ScanPhase::EmptyDirDetection => "Finding empty directories"@,
        ScanPhase::BrokenLinkDetection => "Finding broken symlinks"@,
        ScanPhase::PerceptualHashing => "Perceptual hashing"@,
        ScanPhase::ReportGeneration => "Generating report"@,
    }
}

impl ScanPhase {
    /// The label this phase is shown with.
    pub fn label(&self) -> (r: &'static str)
        ensures
            r@ == phase_label(*self),
    {
        match self {
            ScanPhase::DirectoryTraversal => "Scanning directories",
            ScanPhase::SizeGrouping => "Grouping by size",
            ScanPhase::PartialHashing => "Partial hashing",
            ScanPhase::FullHashing => "Full hashing",
            ScanPhase::EmptyFileDetection => "Finding empty files",
            ScanPhase::EmptyDirDetection => "Finding empty directories",
            ScanPhase::BrokenLinkDetection => "Finding broken symlinks",
            ScanPhase::PerceptualHashing => "Perceptual hashing",
            ScanPhase::ReportGeneration => "Generating report",
        }
    }
}

/// Metadata about a file discovered during scanning.
#[derive(Debug, Clone)]
pub struct FileEntry {
    /// Path to the file.
    pub path: String,
    /// File size in bytes.
    pub size: u64,
    /// Last modification time, in nanoseconds since the Unix epoch.
    pub mtime: i128,
    /// Device the file was on when scanned.
    pub dev: u64,
    /// Inode number the file had when scanned.
    pub ino: u64,
}

impl FileEntry {
    /// A copy of this entry.
    pub fn copied(&self) -> (r: FileEntry)
        ensures
            r == *self,
    {
        FileEntry { path: self.path.clone(), size: self.size, mtime: self.mtime, dev: self.dev, ino: self.ino }
    }
}

/// A group of duplicate files sharing the same content.
#[derive(Debug, Clone)]
pub struct DuplicateGroup {
    /// BLAKE3 hash of the file content.
    pub hash: String,
    /// File size in bytes (same for all files in the group).
    pub size: u64,
    /// The file considered the "original" (oldest mtime).
    pub original: FileEntry,
    /// All other copies (duplicates).
    pub duplicates: Vec<FileEntry>,
}

/// Copies of the entries of a vector.
pub fn copy_entries(v: &Vec<FileEntry>) -> (r: Vec<FileEntry>)
    ensures
        r@ == v@,
{
    let mut r: Vec<FileEntry> = Vec::new();
    let mut i: usize = 0;
    while i < v.len()
        invariant
            i <= v@.len(),
            r@ == v@.take(i as int),
        decreases v@.len() - i,
    {
        r.push(v[i].copied());
        i = i + 1;
        assert(r@ =~= v@.take(i as int));
    }
    assert(v@.take(i as int) =~= v@);
    r
}

impl DuplicateGroup {
    /// Whether two groups hold the same hash, size, original and duplicates.
    pub open spec fn same_as(&self, other: DuplicateGroup) -> bool {
        &&& self.hash == other.hash
        &&& self.size == other.size
        &&& self.original == other.original
        &&& self.duplicates@ == other.duplicates@
    }

    /// A copy of this group.
    pub fn copied(&self) -> (r: DuplicateGroup)
        ensures
            r.same_as(*self),
    {
        DuplicateGroup {
            hash: self.hash.clone(),
            size: self.size,
            original: self.original.copied(),
            duplicates: copy_entries(&self.duplicates),
        }
    }
}

/// A broken symbolic link.
#[derive(Debug, Clone)]
pub struct BrokenSymlink {
    /// Path to the symlink itself.
    pub link_path: String,
    /// The target path the symlink points to (which doesn't exist).
    pub target_path: String,
}

/// Information about the scan itself.
#[derive(Debug, Clone)]
pub struct ScanInfo {
    /// Directories that were scanned.
    pub paths: Vec<String>,
    /// ISO 8601 timestamp of when the scan started.
    pub timestamp: String,
    /// Duration of the scan in nanoseconds.
    pub duration_nanos: u64,
    /// Total number of files scanned.
    pub files_scanned: u64,
    /// Total number of directories scanned.
    pub dirs_scanned: u64,
}

/// Statistics about cache usage during the scan.
#[derive(Debug, Clone, Copy, Default, PartialEq, Eq, Structural)]
pub struct CacheStats {
    /// Number of files whose hash was found in the cache.
    pub hits: u64,
    /// Number of files whose hash had to be computed.
    pub misses: u64,
}

/// Duplicate detection results.
#[derive(Debug, Clone)]
pub struct DuplicateReport {
    /// Total number of duplicate groups.
    pub total_groups: usize,
    /// Total number of redundant files (excluding originals).
    pub total_redundant_files: usize,
    /// Total bytes that could be reclaimed.
    pub reclaimable_bytes: u64,
    /// All duplicate groups.
    pub groups: Vec<DuplicateGroup>,
}

impl DuplicateReport {
    /// A report with no groups.
    pub fn empty() -> (r: DuplicateReport)
        ensures
            r.total_groups == 0,
            r.total_redundant_files == 0,
            r.reclaimable_bytes == 0,
            r.groups@.len() == 0,
    {
        DuplicateReport { total_groups: 0, total_redundant_files: 0, reclaimable_bytes: 0, groups: Vec::new() }
    }
}

/// The complete result of a scan operation.
#[derive(Debug, Clone)]
pub struct ScanReport {
    /// Version of dupfinder that generated this report.
    pub version: String,
    /// Information about the scan.
    pub scan_info: ScanInfo,
    /// Duplicate file results.
    pub duplicates: DuplicateReport,
    /// Empty files found.
    pub empty_files: Vec<String>,
    /// Empty directories found.
    pub empty_dirs: Vec<String>,
    /// Broken symbolic links found.
    pub broken_symlinks: Vec<BrokenSymlink>,
    /// Cache usage statistics.
    pub cache_stats: CacheStats,
}

} // verus!
