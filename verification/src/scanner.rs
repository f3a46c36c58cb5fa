//! The decisions of directory traversal: which entries to descend into and
//! how discovered entries are recorded. The traversal itself reads the file
//! system and is driven from outside the library.

use vstd::prelude::*;
use crate::filter::{hidden_spec, is_hidden, FileFilter};
use crate::ignore::excluded_by;
use crate::paths::{file_name, file_name_of};
use crate::empty::count_message;
use crate::progress::ProgressHandler;
use crate::text::{push_str, u64_to_string};
use crate::types::{FileEntry, ScanPhase};

verus! {

/// Result of scanning directories.
pub struct ScanResult {
    /// All discovered file entries (with metadata).
    pub files: Vec<FileEntry>,
    /// All discovered directory paths.
    pub directories: Vec<String>,
    /// All discovered symlinks (path, target).
    pub symlinks: Vec<(String, String)>,
    /// Total files scanned.
    pub total_files: u64,
    /// Total directories scanned.
    pub total_dirs: u64,
}

/// Whether the walk enters an entry: hidden entries below the root only with
/// `include_hidden`; directories below the root only when neither their name
/// nor their path is excluded.
pub open spec fn enters(
    filter: FileFilter,
    include_hidden: bool,
    path: Seq<char>,
    depth: nat,
    is_dir: bool,
) -> bool {
    &&& !(!include_hidden && hidden_spec(path) && depth > 0)
    &&& !(is_dir && depth > 0 && match file_name_of(path) {
        Some(n) => filter.rules.dirs_view().contains(n),
        None => false,
    })
    &&& !(is_dir && depth > 0 && excluded_by(filter.rules.globs_view(), path))
}

/// Whether the walk enters the entry at `path` (the walker's entry filter).
pub fn should_enter(filter: &FileFilter, include_hidden: bool, path: &str, depth: usize, is_dir: bool) -> (r:
    bool)
    ensures
        r == enters(*filter, include_hidden, path@, depth as nat, is_dir),
{
    if !include_hidden && is_hidden(path) {
        if depth > 0 {
            return false;
        }
    }
    if is_dir && depth > 0 {
        if let Some(name) = file_name(path) {
            if filter.is_excluded_dir(name.as_str()) {
                return false;
            }
        }
        if filter.is_excluded_by_pattern(path) {
            return false;
        }
    }
    true
}

/// The walker's depth limit for a maximum recursion depth: one more than it,
/// since the root itself is depth 0.
pub fn walk_depth_limit(max_depth: Option<usize>) -> (r: Option<usize>)
    requires
        max_depth matches Some(d) ==> d < usize::MAX,
    ensures
        match max_depth {
            Some(d) => r == Some((d + 1) as usize),
            None => r is None,
        },
{
    match max_depth {
        Some(d) => Some(d + 1),
        None => None,
    }
}

impl ScanResult {
    /// An empty result.
    pub fn new() -> (r: ScanResult)
        ensures
            r.files@.len() == 0,
            r.directories@.len() == 0,
            r.symlinks@.len() == 0,
            r.total_files == 0,
            r.total_dirs == 0,
    {
        ScanResult { files: Vec::new(), directories: Vec::new(), symlinks: Vec::new(), total_files: 0, total_dirs: 0 }
    }

    /// Records a symbolic link and its target.
    pub fn add_symlink(&mut self, path: String, target: String)
        ensures
            final(self).symlinks@ == old(self).symlinks@.push((path, target)),
            final(self).files == old(self).files,
            final(self).directories == old(self).directories,
            final(self).total_files == old(self).total_files,
            final(self).total_dirs == old(self).total_dirs,
    {
        self.symlinks.push((path, target));
    }

    /// The result a traversal starts from; announces the traversal phase.
    pub fn start(progress: &dyn ProgressHandler) -> (r: ScanResult)
        ensures
            r.files@.len() == 0,
            r.directories@.len() == 0,
            r.symlinks@.len() == 0,
            r.total_files == 0,
            r.total_dirs == 0,
    {
        progress.on_phase_start(ScanPhase::DirectoryTraversal, None);
        ScanResult::new()
    }

    /// Records a directory; returns the number of directories so far, and
    /// reports it at every hundredth.
    pub fn add_directory(&mut self, path: String, progress: &dyn ProgressHandler) -> (count: u64)
        requires
            old(self).total_dirs < u64::MAX,
        ensures
            final(self).directories@ == old(self).directories@.push(path),
            final(self).total_dirs == old(self).total_dirs + 1,
            count == final(self).total_dirs,
            final(self).files == old(self).files,
            final(self).symlinks == old(self).symlinks,
            final(self).total_files == old(self).total_files,
    {
        self.total_dirs = self.total_dirs + 1;
        self.directories.push(path);
        if self.total_dirs % 100 == 0 {
            let msg = count_message("", self.total_dirs, " dirs scanned");
            progress.on_progress(ScanPhase::DirectoryTraversal, self.total_dirs, msg.as_str());
        }
        self.total_dirs
    }

    /// Records a regular file unless the filter's patterns exclude its path;
    /// returns the number of files so far when it was recorded, and reports
    /// it at every five hundredth.
    pub fn add_file(&mut self, filter: &FileFilter, entry: FileEntry, progress: &dyn ProgressHandler) -> (count:
        Option<u64>)
        requires
            old(self).total_files < u64::MAX,
        ensures
            excluded_by(filter.rules.globs_view(), entry.path@) ==> {
                &&& count is None
                &&& final(self).files == old(self).files
                &&& final(self).total_files == old(self).total_files
            },
            !excluded_by(filter.rules.globs_view(), entry.path@) ==> {
                &&& count == Some(final(self).total_files)
                &&& final(self).files@ == old(self).files@.push(entry)
                &&& final(self).total_files == old(self).total_files + 1
            },
            final(self).directories == old(self).directories,
            final(self).symlinks == old(self).symlinks,
            final(self).total_dirs == old(self).total_dirs,
    {
        if filter.is_excluded_by_pattern(entry.path.as_str()) {
            return None;
        }
        self.total_files = self.total_files + 1;
        self.files.push(entry);
        if self.total_files % 500 == 0 {
            let msg = count_message("", self.total_files, " files discovered");
            progress.on_progress(ScanPhase::DirectoryTraversal, self.total_files, msg.as_str());
        }
        Some(self.total_files)
    }

    /// Reports the totals and ends the traversal phase.
    pub fn finish(&self, progress: &dyn ProgressHandler) {
        let mut msg = count_message("Discovered ", self.total_files, " files in ");
        push_str(&mut msg, u64_to_string(self.total_dirs).as_str());
        push_str(&mut msg, " directories");
        progress.on_progress(ScanPhase::DirectoryTraversal, self.total_files, msg.as_str());
        progress.on_phase_end(ScanPhase::DirectoryTraversal);
    }
}

} // verus!
