//! Broken symbolic link detection.
//!
//! Whether a link's target exists is read from the file system by the
//! caller; this module resolves each target and decides which links are
//! broken.

use vstd::prelude::*;
use crate::empty::count_message;
use crate::paths::{is_rooted, join_path, join_spec, parent_of, parent_path};
use crate::progress::ProgressHandler;
use crate::types::{BrokenSymlink, ScanPhase};

verus! {

/// Where a link's target is looked for: an absolute target as it is, a
/// relative one from the link's parent directory (or from the link itself
/// when it has no parent).
pub open spec fn resolved_target_of(link: Seq<char>, target: Seq<char>) -> Seq<char> {
    if is_rooted(target) {
        target
    } else {
        join_spec(
            match parent_of(link) {
                Some(p) => p,
                None => link,
            },
            target,
        )
    }
}

/// Resolves the symlink target relative to the link's parent directory.
pub fn resolve_symlink_target(link: &str, target: &str) -> (r: String)
    ensures
        r@ == resolved_target_of(link@, target@),
{
    match parent_path(link) {
        Some(p) => join_path(p.as_str(), target),
        None => join_path(link, target),
    }
}

/// The broken links, in order: those whose resolved target does not exist.
pub open spec fn broken_links(symlinks: Seq<(String, String)>, exists: Seq<bool>) -> Seq<(Seq<char>, Seq<char>)>
    decreases symlinks.len(),
{
    if symlinks.len() == 0 {
        Seq::empty()
    } else {
        let k = broken_links(symlinks.drop_last(), exists);
        if exists[symlinks.len() - 1] {
            k
        } else {
            k.push((symlinks.last().0@, symlinks.last().1@))
        }
    }
}

/// Find broken symbolic links from the list of discovered symlinks
/// (link path, target path). `target_exists[i]` tells whether the target of
/// link `i`, resolved by `resolve_symlink_target`, exists or is accessible.
///
/// A symlink is "broken" if its target does not exist or is inaccessible.
pub fn find_broken_symlinks(
    symlinks: &Vec<(String, String)>,
    target_exists: &Vec<bool>,
    progress: &dyn ProgressHandler,
) -> (r: Vec<BrokenSymlink>)
    requires
        target_exists@.len() == symlinks@.len(),
    ensures
        r@.len() == broken_links(symlinks@, target_exists@).len(),
        forall|i: int|
            0 <= i < r@.len() ==> ((#[trigger] r@[i]).link_path@, r@[i].target_path@) == broken_links(
                symlinks@,
                target_exists@,
            )[i],
{
    progress.on_phase_start(ScanPhase::BrokenLinkDetection, Some(symlinks.len() as u64));
    let mut broken: Vec<BrokenSymlink> = Vec::new();
    let mut i: usize = 0;
    while i < symlinks.len()
        invariant
            i <= symlinks@.len(),
            target_exists@.len() == symlinks@.len(),
            broken@.len() == broken_links(symlinks@.take(i as int), target_exists@).len(),
            forall|k: int|
                0 <= k < broken@.len() ==> ((#[trigger] broken@[k]).link_path@, broken@[k].target_path@)
                    == broken_links(symlinks@.take(i as int), target_exists@)[k],
        decreases symlinks@.len() - i,
    {
        proof {
            assert(symlinks@.take(i + 1).drop_last() =~= symlinks@.take(i as int));
            assert(symlinks@.take(i + 1).last() == symlinks@[i as int]);
        }
        if !target_exists[i] {
            let (link, target) = &symlinks[i];
            broken.push(BrokenSymlink { link_path: link.clone(), target_path: target.clone() });
        }
        i = i + 1;
    }
    assert(symlinks@.take(i as int) =~= symlinks@);
    let msg = count_message("Found ", broken.len() as u64, " broken symlinks");
    progress.on_progress(ScanPhase::BrokenLinkDetection, broken.len() as u64, msg.as_str());
    progress.on_phase_end(ScanPhase::BrokenLinkDetection);
    broken
}

} // verus!
