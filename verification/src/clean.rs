//! Safe cleanup planning and execution.
//!
//! A plan lists, for every duplicate (and, when asked, every empty file and
//! directory) of a scan report, whether it is deleted, blocked by a safety
//! rule or skipped. Executing a plan alternates file system work (re-checking
//! a file, moving it to the trash, removing it) with decisions; the file
//! system work is done by the caller, which asks `execution_step` what to do
//! next for an action and records what happened with `record_execution`.

use vstd::prelude::*;
use crate::errors::{res_view, view_message, DupfinderError, ErrorView};
use crate::ignore::string_views;
use crate::safety::{
    canonical_or_self, deletion_safety_spec, hidden_path_spec, is_hidden_path, is_structural_sentinel, is_system_or_protected_path,
    protected_spec, sentinel_spec, unmodified_spec, validate_deletion_safety, verify_file_unmodified, FileState,
    PathFacts, ScanStamp,
};
use crate::text::{push_str, string_from_str};
use crate::paths::same_path;
use crate::types::{DuplicateGroup, FileEntry, ScanReport};

verus! {

/// The deletion method to apply during cleanup.
#[derive(Debug, Clone, Copy, PartialEq, Eq, Structural)]
pub enum DeletionMethod {
    /// Move items to the OS Recycle Bin / Trash (default).
    Trash,
    /// Permanently remove items from disk.
    Permanent,
}

impl Default for DeletionMethod {
    /// Moving to the trash.
    fn default() -> (r: DeletionMethod)
        ensures
            r == DeletionMethod::Trash,
    {
        DeletionMethod::Trash
    }
}

/// Options configuring the cleanup operation.
#[derive(Debug, Clone, Copy, PartialEq, Eq, Structural)]
pub struct CleanOptions {
    /// The deletion method (Trash by default).
    pub method: DeletionMethod,
    /// Whether to remove detected empty files.
    pub clean_empty_files: bool,
    /// Whether to remove detected empty directories.
    pub clean_empty_dirs: bool,
    /// Whether to include hidden files in deletion.
    pub include_hidden: bool,
    /// Dry run mode (simulate operations without disk modification).
    pub dry_run: bool,
}

impl Default for CleanOptions {
    /// Trash, duplicates only, hidden files left alone, for real.
    fn default() -> (r: CleanOptions)
        ensures
            r.method == DeletionMethod::Trash,
            !r.clean_empty_files,
            !r.clean_empty_dirs,
            !r.include_hidden,
            !r.dry_run,
    {
        CleanOptions {
            method: DeletionMethod::Trash,
            clean_empty_files: false,
            clean_empty_dirs: false,
            include_hidden: false,
            dry_run: false,
        }
    }
}

/// A specific remediation action planned for a target path.
#[derive(Debug, Clone, PartialEq, Eq)]
pub enum CleanAction {
    /// Delete a duplicate copy while preserving the original; `mtime`, `dev`
    /// and `ino` are what the scan recorded of the copy.
    DeleteDuplicate { path: String, size: u64, original: String, mtime: i128, dev: u64, ino: u64 },
    /// Delete a zero-byte file.
    DeleteEmptyFile { path: String },
    /// Delete a recursively empty directory.
    DeleteEmptyDir { path: String },
    /// Action blocked by safety or system path protection.
    Blocked { path: String, reason: String },
    /// Action skipped (e.g. hidden file or structural sentinel).
    Skipped { path: String, reason: String },
}

/// An action with its texts taken by their characters.
pub enum ActionView {
    DeleteDuplicate { path: Seq<char>, size: u64, original: Seq<char>, mtime: i128, dev: u64, ino: u64 },
    DeleteEmptyFile { path: Seq<char> },
    DeleteEmptyDir { path: Seq<char> },
    Blocked { path: Seq<char>, reason: Seq<char> },
    Skipped { path: Seq<char>, reason: Seq<char> },
}

impl View for CleanAction {
    type V = ActionView;

    open spec fn view(&self) -> ActionView {
        match *self {
            CleanAction::DeleteDuplicate { path, size, original, mtime, dev, ino } => ActionView::DeleteDuplicate {
                path: path@,
                size: size,
                original: original@,
                mtime: mtime,
                dev: dev,
                ino: ino,
            },
            CleanAction::DeleteEmptyFile { path } => ActionView::DeleteEmptyFile { path: path@ },
            CleanAction::DeleteEmptyDir { path } => ActionView::DeleteEmptyDir { path: path@ },
            CleanAction::Blocked { path, reason } => ActionView::Blocked { path: path@, reason: reason@ },
            CleanAction::Skipped { path, reason } => ActionView::Skipped { path: path@, reason: reason@ },
        }
    }
}

/// The path an action is about.
pub open spec fn action_target(a: ActionView) -> Seq<char> {
    match a {
        ActionView::DeleteDuplicate { path, .. } => path,
        ActionView::DeleteEmptyFile { path } => path,
        ActionView::DeleteEmptyDir { path } => path,
        ActionView::Blocked { path, .. } => path,
        ActionView::Skipped { path, .. } => path,
    }
}

/// The bytes an action reclaims when it succeeds.
pub open spec fn action_bytes(a: ActionView) -> int {
    match a {
        ActionView::DeleteDuplicate { size, .. } => size as int,
        _ => 0,
    }
}

impl CleanAction {
    /// Target path of this action.
    pub fn target_path(&self) -> (r: &str)
        ensures
            r@ == action_target(self@),
    {
        match self {
            CleanAction::DeleteDuplicate { path, .. } => path.as_str(),
            CleanAction::DeleteEmptyFile { path } => path.as_str(),
            CleanAction::DeleteEmptyDir { path } => path.as_str(),
            CleanAction::Blocked { path, .. } => path.as_str(),
            CleanAction::Skipped { path, .. } => path.as_str(),
        }
    }

    /// Size in bytes to be reclaimed if this action succeeds.
    pub fn reclaimable_bytes(&self) -> (r: u64)
        ensures
            r == action_bytes(self@),
    {
        match self {
            CleanAction::DeleteDuplicate { size, .. } => *size,
            _ => 0,
        }
    }
}

impl CleanAction {
    /// A copy of this action.
    pub fn clone_action(&self) -> (r: CleanAction)
        ensures
            r == *self,
    {
        match self {
            CleanAction::DeleteDuplicate { path, size, original, mtime, dev, ino } => CleanAction::DeleteDuplicate {
                path: path.clone(),
                size: *size,
                original: original.clone(),
                mtime: *mtime,
                dev: *dev,
                ino: *ino,
            },
            CleanAction::DeleteEmptyFile { path } => CleanAction::DeleteEmptyFile { path: path.clone() },
            CleanAction::DeleteEmptyDir { path } => CleanAction::DeleteEmptyDir { path: path.clone() },
            CleanAction::Blocked { path, reason } => CleanAction::Blocked { path: path.clone(), reason: reason.clone() },
            CleanAction::Skipped { path, reason } => CleanAction::Skipped { path: path.clone(), reason: reason.clone() },
        }
    }
}

/// The views of a sequence of actions.
pub open spec fn actions_view(v: Seq<CleanAction>) -> Seq<ActionView> {
    v.map_values(|a: CleanAction| a@)
}

/// How many actions remove a file (a duplicate or an empty file).
pub open spec fn files_to_remove(s: Seq<ActionView>) -> int
    decreases s.len(),
{
    if s.len() == 0 {
        0
    } else {
        files_to_remove(s.drop_last()) + (if s.last() is DeleteDuplicate || s.last() is DeleteEmptyFile {
            1int
        } else {
            0int
        })
    }
}

/// How many actions remove a directory.
pub open spec fn dirs_to_remove(s: Seq<ActionView>) -> int
    decreases s.len(),
{
    if s.len() == 0 {
        0
    } else {
        dirs_to_remove(s.drop_last()) + (if s.last() is DeleteEmptyDir {
            1int
        } else {
            0int
        })
    }
}

/// How many actions are blocked.
pub open spec fn blocked_in(s: Seq<ActionView>) -> int
    decreases s.len(),
{
    if s.len() == 0 {
        0
    } else {
        blocked_in(s.drop_last()) + (if s.last() is Blocked {
            1int
        } else {
            0int
        })
    }
}

/// How many actions are skipped.
pub open spec fn skipped_in(s: Seq<ActionView>) -> int
    decreases s.len(),
{
    if s.len() == 0 {
        0
    } else {
        skipped_in(s.drop_last()) + (if s.last() is Skipped {
            1int
        } else {
            0int
        })
    }
}

/// The bytes the actions reclaim.
pub open spec fn bytes_in(s: Seq<ActionView>) -> int
    decreases s.len(),
{
    if s.len() == 0 {
        0
    } else {
        bytes_in(s.drop_last()) + action_bytes(s.last())
    }
}

/// A structured plan describing all cleanup actions before execution.
#[derive(Debug, Clone)]
pub struct CleanPlan {
    pub actions: Vec<CleanAction>,
    pub total_files_to_remove: usize,
    pub total_dirs_to_remove: usize,
    pub total_bytes_reclaimable: u64,
    pub blocked_count: usize,
    pub skipped_count: usize,
}

impl CleanPlan {
    /// Whether the totals count the plan's actions.
    pub open spec fn tallied(&self) -> bool {
        let s = actions_view(self.actions@);
        &&& self.total_files_to_remove == files_to_remove(s)
        &&& self.total_dirs_to_remove == dirs_to_remove(s)
        &&& self.blocked_count == blocked_in(s)
        &&& self.skipped_count == skipped_in(s)
        &&& self.total_bytes_reclaimable == bytes_in(s)
    }

    /// A plan with no actions.
    pub fn empty() -> (r: CleanPlan)
        ensures
            r.actions@.len() == 0,
            r.tallied(),
    {
        let r = CleanPlan {
            actions: Vec::new(),
            total_files_to_remove: 0,
            total_dirs_to_remove: 0,
            total_bytes_reclaimable: 0,
            blocked_count: 0,
            skipped_count: 0,
        };
        assert(actions_view(r.actions@) =~= Seq::<ActionView>::empty());
        r
    }

    /// Appends an action and counts it.
    fn push_action(&mut self, a: CleanAction)
        requires
            old(self).tallied(),
            old(self).total_bytes_reclaimable + action_bytes(a@) <= u64::MAX,
        ensures
            final(self).actions@ == old(self).actions@.push(a),
            actions_view(final(self).actions@) == actions_view(old(self).actions@).push(a@),
            final(self).total_bytes_reclaimable == old(self).total_bytes_reclaimable + action_bytes(a@),
            final(self).tallied(),
    {
        let ghost before = actions_view(self.actions@);
        proof {
            lemma_tally_bound(before);
            assert(self.actions@.len() == self.actions.len());
        }
        self.actions.push(a);
        let ghost after = actions_view(self.actions@);
        assert(after =~= before.push(a@));
        assert(after.drop_last() =~= before);
        assert(self.actions@.len() == self.actions.len());
        match &self.actions[self.actions.len() - 1] {
            CleanAction::DeleteDuplicate { size, .. } => {
                self.total_files_to_remove = self.total_files_to_remove + 1;
                self.total_bytes_reclaimable = self.total_bytes_reclaimable + *size;
            },
            CleanAction::DeleteEmptyFile { .. } => {
                self.total_files_to_remove = self.total_files_to_remove + 1;
            },
            CleanAction::DeleteEmptyDir { .. } => {
                self.total_dirs_to_remove = self.total_dirs_to_remove + 1;
            },
            CleanAction::Blocked { .. } => {
                self.blocked_count = self.blocked_count + 1;
            },
            CleanAction::Skipped { .. } => {
                self.skipped_count = self.skipped_count + 1;
            },
        }
    }
}

/// The bytes of a prefix of the actions are at most those of all of them.
pub proof fn lemma_bytes_prefix(s: Seq<ActionView>, j: int)
    requires
        0 <= j <= s.len(),
    ensures
        0 <= bytes_in(s.take(j)) <= bytes_in(s),
    decreases s.len(),
{
    lemma_tally_bound(s.take(j));
    if j < s.len() {
        lemma_bytes_prefix(s.drop_last(), j);
        assert(s.drop_last().take(j) =~= s.take(j));
        assert(action_bytes(s.last()) >= 0);
    } else {
        assert(s.take(j) =~= s);
    }
}

/// The action counts together are the number of actions.
proof fn lemma_tally_bound(s: Seq<ActionView>)
    ensures
        files_to_remove(s) + dirs_to_remove(s) + blocked_in(s) + skipped_in(s) == s.len(),
        files_to_remove(s) >= 0,
        dirs_to_remove(s) >= 0,
        blocked_in(s) >= 0,
        skipped_in(s) >= 0,
        bytes_in(s) >= 0,
    decreases s.len(),
{
    if s.len() > 0 {
        lemma_tally_bound(s.drop_last());
    }
}

/// What the file system says of every path of a report, in the report's
/// order: each group's original, each group's duplicates, the empty files
/// and the empty directories.
pub struct PlanFacts {
    pub originals: Vec<PathFacts>,
    pub duplicates: Vec<Vec<PathFacts>>,
    pub empty_files: Vec<PathFacts>,
    pub empty_dirs: Vec<PathFacts>,
}

/// Whether the facts have the report's shape.
pub open spec fn facts_fit(report: ScanReport, facts: PlanFacts) -> bool {
    let groups = report.duplicates.groups@;
    &&& facts.originals@.len() == groups.len()
    &&& facts.duplicates@.len() == groups.len()
    &&& forall|g: int| 0 <= g < groups.len() ==> (#[trigger] facts.duplicates@[g])@.len() == groups[g].duplicates@.len()
    &&& facts.empty_files@.len() == report.empty_files@.len()
    &&& facts.empty_dirs@.len() == report.empty_dirs@.len()
}

/// Whether a path counts as protected: it is, or whether it is cannot be told.
pub open spec fn protected_or_unknown(path: Seq<char>, facts: PathFacts) -> bool {
    match protected_spec(path, facts) {
        Ok(b) => b,
        Err(_) => true,
    }
}

/// The action planned for a duplicate of `original`.
pub open spec fn duplicate_action(
    dup: FileEntry,
    original: Seq<char>,
    options: CleanOptions,
    dup_facts: PathFacts,
    original_facts: PathFacts,
) -> ActionView {
    let path = dup.path@;
    if protected_or_unknown(path, dup_facts) {
        ActionView::Blocked { path: path, reason: "Protected system path or security vault"@ }
    } else if !options.include_hidden && hidden_path_spec(path) {
        ActionView::Skipped { path: path, reason: "Hidden file (use --include-hidden to enable)"@ }
    } else {
        match deletion_safety_spec(original, original_facts, seq![path], seq![dup_facts]) {
            Err(e) => ActionView::Blocked { path: path, reason: view_message(e) },
            Ok(_) => ActionView::DeleteDuplicate {
                path: path,
                size: dup.size,
                original: original,
                mtime: dup.mtime,
                dev: dup.dev,
                ino: dup.ino,
            },
        }
    }
}

/// The action planned for an empty file.
pub open spec fn empty_file_action(path: Seq<char>, options: CleanOptions, facts: PathFacts) -> ActionView {
    if sentinel_spec(path) {
        ActionView::Skipped { path: path, reason: "Structural sentinel file (e.g. __init__.py, .gitkeep)"@ }
    } else if protected_or_unknown(path, facts) {
        ActionView::Blocked { path: path, reason: "Protected system path"@ }
    } else if !options.include_hidden && hidden_path_spec(path) {
        ActionView::Skipped { path: path, reason: "Hidden file"@ }
    } else {
        ActionView::DeleteEmptyFile { path: path }
    }
}

/// The action planned for an empty directory.
pub open spec fn empty_dir_action(path: Seq<char>, options: CleanOptions, facts: PathFacts) -> ActionView {
    if protected_or_unknown(path, facts) {
        ActionView::Blocked { path: path, reason: "Protected system directory"@ }
    } else if !options.include_hidden && hidden_path_spec(path) {
        ActionView::Skipped { path: path, reason: "Hidden directory"@ }
    } else {
        ActionView::DeleteEmptyDir { path: path }
    }
}

/// The actions for the duplicates of one group.
pub open spec fn group_actions(
    g: DuplicateGroup,
    options: CleanOptions,
    original_facts: PathFacts,
    dup_facts: Seq<PathFacts>,
) -> Seq<ActionView> {
    Seq::new(
        g.duplicates@.len(),
        |d: int| duplicate_action(g.duplicates@[d], g.original.path@, options, dup_facts[d], original_facts),
    )
}

/// The actions for the duplicates of every group, group by group.
pub open spec fn duplicate_actions(
    groups: Seq<DuplicateGroup>,
    options: CleanOptions,
    originals: Seq<PathFacts>,
    dups: Seq<Vec<PathFacts>>,
) -> Seq<ActionView>
    decreases groups.len(),
{
    if groups.len() == 0 {
        Seq::empty()
    } else {
        let g = groups.len() - 1;
        duplicate_actions(groups.drop_last(), options, originals, dups) + group_actions(
            groups[g],
            options,
            originals[g],
            dups[g]@,
        )
    }
}

/// The actions of the plan for a report: the duplicates', then, when asked
/// for, the empty files', then the empty directories'.
pub open spec fn plan_actions(report: ScanReport, options: CleanOptions, facts: PlanFacts) -> Seq<ActionView> {
    let files = report.empty_files@;
    let dirs = report.empty_dirs@;
    duplicate_actions(report.duplicates.groups@, options, facts.originals@, facts.duplicates@) + (if options.clean_empty_files {
        Seq::new(files.len(), |i: int| empty_file_action(files[i]@, options, facts.empty_files@[i]))
    } else {
        Seq::empty()
    }) + (if options.clean_empty_dirs {
        Seq::new(dirs.len(), |i: int| empty_dir_action(dirs[i]@, options, facts.empty_dirs@[i]))
    } else {
        Seq::empty()
    })
}

/// The sum of the sizes of the entries.
pub open spec fn sizes_sum(es: Seq<FileEntry>) -> int
    decreases es.len(),
{
    if es.len() == 0 {
        0
    } else {
        sizes_sum(es.drop_last()) + es.last().size
    }
}

/// The sum of the sizes of every group's duplicates.
pub open spec fn dup_bytes(groups: Seq<DuplicateGroup>) -> int
    decreases groups.len(),
{
    if groups.len() == 0 {
        0
    } else {
        dup_bytes(groups.drop_last()) + sizes_sum(groups.last().duplicates@)
    }
}

proof fn lemma_sizes_prefix(es: Seq<FileEntry>, k: int)
    requires
        0 <= k <= es.len(),
    ensures
        0 <= sizes_sum(es.take(k)) <= sizes_sum(es),
    decreases es.len(),
{
    if k < es.len() {
        lemma_sizes_prefix(es.drop_last(), k);
        assert(es.drop_last().take(k) =~= es.take(k));
    } else {
        assert(es.take(k) =~= es);
        lemma_sizes_nonneg(es);
    }
}

proof fn lemma_sizes_nonneg(es: Seq<FileEntry>)
    ensures
        sizes_sum(es) >= 0,
    decreases es.len(),
{
    if es.len() > 0 {
        lemma_sizes_nonneg(es.drop_last());
    }
}

proof fn lemma_dup_bytes_prefix(groups: Seq<DuplicateGroup>, k: int)
    requires
        0 <= k <= groups.len(),
    ensures
        0 <= dup_bytes(groups.take(k)) <= dup_bytes(groups),
    decreases groups.len(),
{
    if k < groups.len() {
        lemma_dup_bytes_prefix(groups.drop_last(), k);
        assert(groups.drop_last().take(k) =~= groups.take(k));
        lemma_sizes_nonneg(groups.last().duplicates@);
    } else {
        assert(groups.take(k) =~= groups);
        if k > 0 {
            lemma_dup_bytes_prefix(groups.drop_last(), k - 1);
            assert(groups.drop_last().take(k - 1) =~= groups.drop_last());
            lemma_sizes_nonneg(groups.last().duplicates@);
        }
    }
}

impl PathFacts {
    /// A copy of these facts.
    pub fn copied(&self) -> (r: PathFacts)
        ensures
            r == *self,
    {
        let canonical = match &self.canonical {
            Some(Ok(c)) => Some(Ok(c.clone())),
            Some(Err(e)) => Some(Err(e.clone())),
            None => None,
        };
        let parent_canonical = match &self.parent_canonical {
            Some(Ok(c)) => Some(Ok(c.clone())),
            Some(Err(e)) => Some(Err(e.clone())),
            None => None,
        };
        PathFacts { canonical, parent_canonical }
    }
}

/// Whether the path counts as protected (an undecidable check counts as protected).
fn protected_or_unknown_exec(path: &str, facts: &PathFacts) -> (r: bool)
    ensures
        r == protected_or_unknown(path@, *facts),
{
    match is_system_or_protected_path(path, facts) {
        Ok(b) => b,
        Err(_) => true,
    }
}

/// The action for a duplicate of `original`.
pub fn plan_duplicate(
    dup: &FileEntry,
    original: &str,
    options: &CleanOptions,
    dup_facts: &PathFacts,
    original_facts: &PathFacts,
) -> (r: CleanAction)
    ensures
        r@ == duplicate_action(*dup, original@, *options, *dup_facts, *original_facts),
{
    let path = &dup.path;
    if protected_or_unknown_exec(path.as_str(), dup_facts) {
        return CleanAction::Blocked {
            path: path.clone(),
            reason: string_from_str("Protected system path or security vault"),
        };
    }
    if !options.include_hidden && is_hidden_path(path.as_str()) {
        return CleanAction::Skipped {
            path: path.clone(),
            reason: string_from_str("Hidden file (use --include-hidden to enable)"),
        };
    }
    let mut one: Vec<String> = Vec::new();
    one.push(path.clone());
    let mut one_facts: Vec<PathFacts> = Vec::new();
    one_facts.push(dup_facts.copied());
    assert(string_views(one@) =~= seq![path@]);
    assert(one_facts@ =~= seq![*dup_facts]);
    match validate_deletion_safety(original, original_facts, &one, &one_facts) {
        Err(e) => CleanAction::Blocked { path: path.clone(), reason: e.message() },
        Ok(_) => CleanAction::DeleteDuplicate {
            path: path.clone(),
            size: dup.size,
            original: string_from_str(original),
            mtime: dup.mtime,
            dev: dup.dev,
            ino: dup.ino,
        },
    }
}

/// The action for an empty file.
pub fn plan_empty_file(path: &String, options: &CleanOptions, facts: &PathFacts) -> (r: CleanAction)
    ensures
        r@ == empty_file_action(path@, *options, *facts),
{
    if is_structural_sentinel(path.as_str()) {
        CleanAction::Skipped {
            path: path.clone(),
            reason: string_from_str("Structural sentinel file (e.g. __init__.py, .gitkeep)"),
        }
    } else if protected_or_unknown_exec(path.as_str(), facts) {
        CleanAction::Blocked { path: path.clone(), reason: string_from_str("Protected system path") }
    } else if !options.include_hidden && is_hidden_path(path.as_str()) {
        CleanAction::Skipped { path: path.clone(), reason: string_from_str("Hidden file") }
    } else {
        CleanAction::DeleteEmptyFile { path: path.clone() }
    }
}

/// The action for an empty directory.
pub fn plan_empty_dir(path: &String, options: &CleanOptions, facts: &PathFacts) -> (r: CleanAction)
    ensures
        r@ == empty_dir_action(path@, *options, *facts),
{
    if protected_or_unknown_exec(path.as_str(), facts) {
        CleanAction::Blocked { path: path.clone(), reason: string_from_str("Protected system directory") }
    } else if !options.include_hidden && is_hidden_path(path.as_str()) {
        CleanAction::Skipped { path: path.clone(), reason: string_from_str("Hidden directory") }
    } else {
        CleanAction::DeleteEmptyDir { path: path.clone() }
    }
}

/// Generate a verified `CleanPlan` from a `ScanReport`; `facts` says what
/// the file system holds of each of its paths.
pub fn generate_clean_plan(report: &ScanReport, options: &CleanOptions, facts: &PlanFacts) -> (r: Result<
    CleanPlan,
    DupfinderError,
>)
    requires
        facts_fit(*report, *facts),
        dup_bytes(report.duplicates.groups@) <= u64::MAX,
    ensures
        match r {
            Ok(p) => actions_view(p.actions@) == plan_actions(*report, *options, *facts) && p.tallied(),
            Err(_) => false,
        },
{
    let mut plan = CleanPlan::empty();
    let groups = &report.duplicates.groups;
    let mut g: usize = 0;
    while g < groups.len()
        invariant
            g <= groups@.len(),
            groups@ == report.duplicates.groups@,
            facts_fit(*report, *facts),
            dup_bytes(groups@) <= u64::MAX,
            plan.tallied(),
            actions_view(plan.actions@) == duplicate_actions(groups@.take(g as int), *options, facts.originals@, facts.duplicates@),
            plan.total_bytes_reclaimable <= dup_bytes(groups@.take(g as int)),
        decreases groups@.len() - g,
    {
        let group = &groups[g];
        let ofacts = &facts.originals[g];
        let dfs = &facts.duplicates[g];
        let ghost base = duplicate_actions(groups@.take(g as int), *options, facts.originals@, facts.duplicates@);
        let ghost ga = group_actions(*group, *options, *ofacts, dfs@);
        proof {
            lemma_dup_bytes_prefix(groups@, g + 1);
            assert(groups@.take(g + 1).drop_last() =~= groups@.take(g as int));
            assert(groups@.take(g + 1).last() == *group);
            assert(dup_bytes(groups@.take(g + 1)) == dup_bytes(groups@.take(g as int)) + sizes_sum(group.duplicates@));
            assert(actions_view(plan.actions@) =~= base + ga.take(0));
            assert(group.duplicates@.take(0) =~= Seq::<FileEntry>::empty());
        }
        let mut d: usize = 0;
        while d < group.duplicates.len()
            invariant
                d <= group.duplicates@.len(),
                dfs@.len() == group.duplicates@.len(),
                plan.tallied(),
                actions_view(plan.actions@) == base + ga.take(d as int),
                ga == group_actions(*group, *options, *ofacts, dfs@),
                plan.total_bytes_reclaimable <= dup_bytes(groups@.take(g as int)) + sizes_sum(group.duplicates@.take(d as int)),
                dup_bytes(groups@.take(g as int)) + sizes_sum(group.duplicates@) <= u64::MAX,
            decreases group.duplicates@.len() - d,
        {
            let a = plan_duplicate(&group.duplicates[d], group.original.path.as_str(), options, &dfs[d], ofacts);
            proof {
                let es = group.duplicates@;
                assert(es.take(d + 1).drop_last() =~= es.take(d as int));
                assert(es.take(d + 1).last() == es[d as int]);
                lemma_sizes_prefix(es, d + 1);
                assert(action_bytes(a@) <= es[d as int].size);
            }
            plan.push_action(a);
            proof {
                assert(ga[d as int] == a@);
                assert(ga.take(d + 1) =~= ga.take(d as int).push(a@));
                assert(actions_view(plan.actions@) =~= base + ga.take(d + 1));
            }
            d = d + 1;
        }
        proof {
            assert(ga.take(d as int) =~= ga);
            assert(group.duplicates@.take(d as int) =~= group.duplicates@);
            assert(duplicate_actions(groups@.take(g + 1), *options, facts.originals@, facts.duplicates@) == base + ga);
        }
        g = g + 1;
    }
    assert(groups@.take(g as int) =~= groups@);
    let ghost dup_part = actions_view(plan.actions@);
    let files = &report.empty_files;
    let ghost fpart = if options.clean_empty_files {
        Seq::new(files@.len(), |i: int| empty_file_action(files@[i]@, *options, facts.empty_files@[i]))
    } else {
        Seq::<ActionView>::empty()
    };
    if options.clean_empty_files {
        let mut i: usize = 0;
        while i < files.len()
            invariant
                i <= files@.len(),
                files@ == report.empty_files@,
                facts.empty_files@.len() == files@.len(),
                options.clean_empty_files,
                plan.tallied(),
                fpart == Seq::new(files@.len(), |i: int| empty_file_action(files@[i]@, *options, facts.empty_files@[i])),
                actions_view(plan.actions@) == dup_part + fpart.take(i as int),
            decreases files@.len() - i,
        {
            let a = plan_empty_file(&files[i], options, &facts.empty_files[i]);
            plan.push_action(a);
            assert(fpart.take(i + 1) =~= fpart.take(i as int).push(a@));
            assert(actions_view(plan.actions@) =~= dup_part + fpart.take(i + 1));
            i = i + 1;
        }
        assert(fpart.take(i as int) =~= fpart);
    } else {
        assert(dup_part + fpart =~= dup_part);
    }
    let ghost file_part = actions_view(plan.actions@);
    let dirs = &report.empty_dirs;
    let ghost dpart = if options.clean_empty_dirs {
        Seq::new(dirs@.len(), |i: int| empty_dir_action(dirs@[i]@, *options, facts.empty_dirs@[i]))
    } else {
        Seq::<ActionView>::empty()
    };
    if options.clean_empty_dirs {
        let mut i: usize = 0;
        while i < dirs.len()
            invariant
                i <= dirs@.len(),
                dirs@ == report.empty_dirs@,
                facts.empty_dirs@.len() == dirs@.len(),
                options.clean_empty_dirs,
                plan.tallied(),
                dpart == Seq::new(dirs@.len(), |i: int| empty_dir_action(dirs@[i]@, *options, facts.empty_dirs@[i])),
                actions_view(plan.actions@) == file_part + dpart.take(i as int),
            decreases dirs@.len() - i,
        {
            let a = plan_empty_dir(&dirs[i], options, &facts.empty_dirs[i]);
            plan.push_action(a);
            assert(dpart.take(i + 1) =~= dpart.take(i as int).push(a@));
            assert(actions_view(plan.actions@) =~= file_part + dpart.take(i + 1));
            i = i + 1;
        }
        assert(dpart.take(i as int) =~= dpart);
    } else {
        assert(file_part + dpart =~= file_part);
    }
    assert(actions_view(plan.actions@) =~= plan_actions(*report, *options, *facts));
    Ok(plan)
}

/// An entry in the audit remediation manifest.
#[derive(Debug, Clone)]
pub struct RemediationManifestEntry {
    pub timestamp: String,
    pub path: String,
    pub action_type: String,
    pub size: u64,
    pub original: Option<String>,
    pub status: String,
    pub error: Option<String>,
}

/// Summary result of executing a cleanup plan.
#[derive(Debug, Clone)]
pub struct CleanExecutionResult {
    pub succeeded_files: usize,
    pub succeeded_dirs: usize,
    pub bytes_reclaimed: u64,
    pub failed: Vec<(String, String)>,
    pub manifest: Vec<RemediationManifestEntry>,
}

impl Default for CleanExecutionResult {
    /// Nothing done yet.
    fn default() -> (r: CleanExecutionResult)
        ensures
            r.succeeded_files == 0,
            r.succeeded_dirs == 0,
            r.bytes_reclaimed == 0,
            r.failed@.len() == 0,
            r.manifest@.len() == 0,
    {
        CleanExecutionResult {
            succeeded_files: 0,
            succeeded_dirs: 0,
            bytes_reclaimed: 0,
            failed: Vec::new(),
            manifest: Vec::new(),
        }
    }
}

impl CleanExecutionResult {
    /// Whether the success counts are no more than the recorded actions.
    pub open spec fn counted(&self) -> bool {
        self.succeeded_files + self.succeeded_dirs <= self.manifest@.len()
    }
}

/// File system work the caller performs for an action of a plan.
#[derive(Debug, Clone, PartialEq, Eq)]
pub enum ExecStep {
    /// No (more) work: record the action.
    Record,
    /// Read the file's metadata, not following symlinks, to re-check it.
    Inspect(String),
    /// Move the file to the trash.
    Trash(String),
    /// Remove the file permanently.
    RemoveFile(String),
    /// Remove the (empty) directory.
    RemoveDir(String),
}

/// A step with its path taken by its characters.
pub enum StepView {
    Record,
    Inspect(Seq<char>),
    Trash(Seq<char>),
    RemoveFile(Seq<char>),
    RemoveDir(Seq<char>),
}

impl View for ExecStep {
    type V = StepView;

    open spec fn view(&self) -> StepView {
        match *self {
            ExecStep::Record => StepView::Record,
            ExecStep::Inspect(p) => StepView::Inspect(p@),
            ExecStep::Trash(p) => StepView::Trash(p@),
            ExecStep::RemoveFile(p) => StepView::RemoveFile(p@),
            ExecStep::RemoveDir(p) => StepView::RemoveDir(p@),
        }
    }
}

/// The metadata read for a re-check, if it was read.
pub open spec fn inspected_view(i: Option<Result<FileState, String>>) -> Option<Result<FileState, Seq<char>>> {
    match i {
        Some(Ok(s)) => Some(Ok(s)),
        Some(Err(e)) => Some(Err(e@)),
        None => None,
    }
}

/// The outcome of a removal, if one was made.
pub open spec fn removal_view(r: Option<Result<(), String>>) -> Option<Result<(), Seq<char>>> {
    match r {
        Some(Ok(())) => Some(Ok(())),
        Some(Err(e)) => Some(Err(e@)),
        None => None,
    }
}

/// The removal of a file by the chosen method.
pub open spec fn file_removal(path: Seq<char>, method: DeletionMethod) -> StepView {
    match method {
        DeletionMethod::Trash => StepView::Trash(path),
        DeletionMethod::Permanent => StepView::RemoveFile(path),
    }
}

/// The removal of an empty directory by the chosen method.
pub open spec fn dir_removal(path: Seq<char>, method: DeletionMethod) -> StepView {
    match method {
        DeletionMethod::Trash => StepView::Trash(path),
        DeletionMethod::Permanent => StepView::RemoveDir(path),
    }
}

/// The next file system work for an action: none in a dry run or for a
/// blocked or skipped action; for a duplicate, first a re-check, then (if
/// the file is unchanged) its removal; for an empty file or directory, its
/// removal, by the chosen method.
pub open spec fn step_spec(
    a: ActionView,
    method: DeletionMethod,
    dry_run: bool,
    inspected: Option<Result<FileState, Seq<char>>>,
) -> StepView {
    if dry_run {
        StepView::Record
    } else {
        match a {
            ActionView::DeleteDuplicate { path, size, mtime, dev, ino, .. } => match inspected {
                None => StepView::Inspect(path),
                Some(state) => match unmodified_spec(path, ScanStamp { size, mtime, dev, ino }, state) {
                    Ok(_) => file_removal(path, method),
                    Err(_) => StepView::Record,
                },
            },
            ActionView::DeleteEmptyFile { path } => file_removal(path, method),
            ActionView::DeleteEmptyDir { path } => dir_removal(path, method),
            _ => StepView::Record,
        }
    }
}

/// What the caller does next for `action`, given the re-check of the file
/// (`inspected`, once it was asked for and done).
pub fn execution_step(
    action: &CleanAction,
    method: DeletionMethod,
    dry_run: bool,
    inspected: &Option<Result<FileState, String>>,
) -> (r: ExecStep)
    ensures
        r@ == step_spec(action@, method, dry_run, inspected_view(*inspected)),
{
    if dry_run {
        return ExecStep::Record;
    }
    match action {
        CleanAction::DeleteDuplicate { path, size, mtime, dev, ino, .. } => match inspected {
            None => ExecStep::Inspect(path.clone()),
            Some(state) => match verify_file_unmodified(
                path.as_str(),
                ScanStamp { size: *size, mtime: *mtime, dev: *dev, ino: *ino },
                state,
            ) {
                Ok(_) => match method {
                    DeletionMethod::Trash => ExecStep::Trash(path.clone()),
                    DeletionMethod::Permanent => ExecStep::RemoveFile(path.clone()),
                },
                Err(_) => ExecStep::Record,
            },
        },
        CleanAction::DeleteEmptyFile { path } => match method {
            DeletionMethod::Trash => ExecStep::Trash(path.clone()),
            DeletionMethod::Permanent => ExecStep::RemoveFile(path.clone()),
        },
        CleanAction::DeleteEmptyDir { path } => match method {
            DeletionMethod::Trash => ExecStep::Trash(path.clone()),
            DeletionMethod::Permanent => ExecStep::RemoveDir(path.clone()),
        },
        _ => ExecStep::Record,
    }
}

/// What executing one action amounts to.
pub struct Outcome {
    pub files: int,
    pub dirs: int,
    pub bytes: int,
    pub action_type: Seq<char>,
    pub size: u64,
    pub original: Option<Seq<char>>,
    pub status: Seq<char>,
    pub error: Option<Seq<char>>,
}

/// The message of a failed file removal: the trash's error as a remediation
/// error, a permanent removal's as an I/O error at the path.
pub open spec fn removal_message(path: Seq<char>, method: DeletionMethod, raw: Seq<char>) -> Seq<char> {
    match method {
        DeletionMethod::Trash => view_message(ErrorView::Remediation("Trash error: "@ + raw)),
        DeletionMethod::Permanent => view_message(ErrorView::Io { path: path, message: raw }),
    }
}

/// The message of a failed directory removal: the trash's error as a
/// remediation error, a permanent removal's error as it came.
pub open spec fn dir_removal_message(path: Seq<char>, method: DeletionMethod, raw: Seq<char>) -> Seq<char> {
    match method {
        DeletionMethod::Trash => removal_message(path, method, raw),
        DeletionMethod::Permanent => raw,
    }
}

/// A failed action.
pub open spec fn failed_outcome(action_type: Seq<char>, size: u64, original: Option<Seq<char>>, msg: Seq<char>) -> Outcome {
    Outcome {
        files: 0,
        dirs: 0,
        bytes: 0,
        action_type: action_type,
        size: size,
        original: original,
        status: "failed"@,
        error: Some(msg),
    }
}

/// A recorded action that changes nothing on disk.
pub open spec fn plain_outcome(
    files: int,
    dirs: int,
    bytes: int,
    action_type: Seq<char>,
    size: u64,
    original: Option<Seq<char>>,
    status: Seq<char>,
    error: Option<Seq<char>>,
) -> Outcome {
    Outcome { files, dirs, bytes, action_type, size, original, status, error }
}

/// The outcome of executing an action, given what the file system said.
pub open spec fn outcome_spec(
    a: ActionView,
    method: DeletionMethod,
    dry_run: bool,
    inspected: Option<Result<FileState, Seq<char>>>,
    removal: Option<Result<(), Seq<char>>>,
) -> Outcome {
    match a {
        ActionView::DeleteDuplicate { path, size, original, mtime, dev, ino } => if dry_run {
            plain_outcome(1, 0, size as int, "delete_duplicate (dry-run)"@, size, Some(original), "simulated"@, None)
        } else {
            match unmodified_spec(path, ScanStamp { size, mtime, dev, ino }, inspected->0) {
                Err(e) => failed_outcome("delete_duplicate"@, size, Some(original), view_message(e)),
                Ok(_) => match removal->0 {
                    Ok(_) => plain_outcome(
                        1,
                        0,
                        size as int,
                        match method {
                            DeletionMethod::Trash => "trash_duplicate"@,
                            DeletionMethod::Permanent => "permanent_delete_duplicate"@,
                        },
                        size,
                        Some(original),
                        "success"@,
                        None,
                    ),
                    Err(raw) => failed_outcome(
                        "delete_duplicate"@,
                        size,
                        Some(original),
                        removal_message(path, method, raw),
                    ),
                },
            }
        },
        ActionView::DeleteEmptyFile { path } => if dry_run {
            plain_outcome(1, 0, 0, "delete_empty_file (dry-run)"@, 0, None, "simulated"@, None)
        } else {
            match removal->0 {
                Ok(_) => plain_outcome(1, 0, 0, "delete_empty_file"@, 0, None, "success"@, None),
                Err(raw) => failed_outcome("delete_empty_file"@, 0, None, removal_message(path, method, raw)),
            }
        },
        ActionView::DeleteEmptyDir { path } => if dry_run {
            plain_outcome(0, 1, 0, "delete_empty_dir (dry-run)"@, 0, None, "simulated"@, None)
        } else {
            match removal->0 {
                Ok(_) => plain_outcome(0, 1, 0, "delete_empty_dir"@, 0, None, "success"@, None),
                Err(raw) => failed_outcome("delete_empty_dir"@, 0, None, dir_removal_message(path, method, raw)),
            }
        },
        ActionView::Blocked { reason, .. } => plain_outcome(0, 0, 0, "blocked"@, 0, None, "blocked"@, Some(reason)),
        ActionView::Skipped { reason, .. } => plain_outcome(0, 0, 0, "skipped"@, 0, None, "skipped"@, Some(reason)),
    }
}

/// Whether the caller did the work `step_spec` asked for: the re-check of
/// a duplicate before recording it, and the removal wherever one was due.
pub open spec fn work_done(
    a: ActionView,
    method: DeletionMethod,
    dry_run: bool,
    inspected: Option<Result<FileState, Seq<char>>>,
    removal: Option<Result<(), Seq<char>>>,
) -> bool {
    &&& (!dry_run && a is DeleteDuplicate) ==> inspected is Some
    &&& (step_spec(a, method, dry_run, inspected) is Trash || step_spec(a, method, dry_run, inspected) is RemoveFile
        || step_spec(a, method, dry_run, inspected) is RemoveDir) ==> removal is Some
}

/// The view of an optional text.
pub open spec fn opt_text(o: Option<String>) -> Option<Seq<char>> {
    match o {
        Some(s) => Some(s@),
        None => None,
    }
}

/// Whether the manifest entry records `o` for the action on `path`.
pub open spec fn entry_records(e: RemediationManifestEntry, timestamp: Seq<char>, path: Seq<char>, o: Outcome) -> bool {
    &&& e.timestamp@ == timestamp
    &&& e.path@ == path
    &&& e.action_type@ == o.action_type
    &&& e.size == o.size
    &&& opt_text(e.original) == o.original
    &&& e.status@ == o.status
    &&& opt_text(e.error) == o.error
}

/// A manifest entry.
fn manifest_entry(
    timestamp: &String,
    path: &String,
    action_type: &str,
    size: u64,
    original: Option<&String>,
    status: &str,
    error: Option<&String>,
) -> (e: RemediationManifestEntry)
    ensures
        e.timestamp@ == timestamp@,
        e.path@ == path@,
        e.action_type@ == action_type@,
        e.size == size,
        opt_text(e.original) == (match original {
            Some(s) => Some(s@),
            None => None::<Seq<char>>,
        }),
        e.status@ == status@,
        opt_text(e.error) == (match error {
            Some(s) => Some(s@),
            None => None::<Seq<char>>,
        }),
{
    RemediationManifestEntry {
        timestamp: timestamp.clone(),
        path: path.clone(),
        action_type: string_from_str(action_type),
        size,
        original: match original {
            Some(s) => Some(s.clone()),
            None => None,
        },
        status: string_from_str(status),
        error: match error {
            Some(s) => Some(s.clone()),
            None => None,
        },
    }
}

/// The message of a failed file removal.
fn removal_message_exec(path: &String, method: DeletionMethod, raw: &String) -> (r: String)
    ensures
        r@ == removal_message(path@, method, raw@),
{
    match method {
        DeletionMethod::Trash => {
            let mut m = string_from_str("Trash error: ");
            push_str(&mut m, raw.as_str());
            DupfinderError::RemediationError(m).message()
        },
        DeletionMethod::Permanent => DupfinderError::IoError { path: path.clone(), message: raw.clone() }.message(),
    }
}

/// Records the execution of `action`: counts a success, lists a failure
/// with its message, and adds the manifest entry stamped `timestamp`.
/// `inspected` and `removal` are what the file system answered to the steps
/// `execution_step` asked for.
pub fn record_execution(
    result: &mut CleanExecutionResult,
    action: &CleanAction,
    method: DeletionMethod,
    dry_run: bool,
    timestamp: &String,
    inspected: &Option<Result<FileState, String>>,
    removal: &Option<Result<(), String>>,
)
    requires
        old(result).counted(),
        old(result).bytes_reclaimed + action_bytes(action@) <= u64::MAX,
        work_done(action@, method, dry_run, inspected_view(*inspected), removal_view(*removal)),
    ensures
        ({
            let o = outcome_spec(action@, method, dry_run, inspected_view(*inspected), removal_view(*removal));
            &&& final(result).succeeded_files == old(result).succeeded_files + o.files
            &&& final(result).succeeded_dirs == old(result).succeeded_dirs + o.dirs
            &&& final(result).bytes_reclaimed == old(result).bytes_reclaimed + o.bytes
            &&& final(result).manifest@.len() == old(result).manifest@.len() + 1
            &&& final(result).manifest@.drop_last() == old(result).manifest@
            &&& entry_records(final(result).manifest@.last(), timestamp@, action_target(action@), o)
            &&& (o.status == "failed"@ ==> final(result).failed@.len() == old(result).failed@.len() + 1
                && final(result).failed@.drop_last() == old(result).failed@
                && final(result).failed@.last().0@ == action_target(action@)
                && Some(final(result).failed@.last().1@) == o.error)
            &&& (o.status != "failed"@ ==> final(result).failed@ == old(result).failed@)
        }),
        final(result).counted(),
{
    proof {
        reveal_strlit("failed");
        reveal_strlit("simulated");
        reveal_strlit("success");
        reveal_strlit("blocked");
        reveal_strlit("skipped");
        assert("simulated"@.len() != "failed"@.len());
        assert("success"@.len() != "failed"@.len());
        assert("blocked"@.len() != "failed"@.len());
        assert("skipped"@.len() != "failed"@.len());
    }
    let ghost m0 = result.manifest@;
    match action {
        CleanAction::DeleteDuplicate { path, size, original, mtime, dev, ino } => {
            if dry_run {
                result.manifest.push(
                    manifest_entry(timestamp, path, "delete_duplicate (dry-run)", *size, Some(original), "simulated", None),
                );
                assert(result.manifest@.len() == result.manifest.len());
                result.succeeded_files = result.succeeded_files + 1;
                result.bytes_reclaimed = result.bytes_reclaimed + *size;
                return;
            }
            let state = match inspected {
                Some(s) => s,
                None => {
                    return;
                },
            };
            match verify_file_unmodified(path.as_str(), ScanStamp { size: *size, mtime: *mtime, dev: *dev, ino: *ino }, state) {
                Err(e) => {
                    let msg = e.message();
                    result.failed.push((path.clone(), msg.clone()));
                    result.manifest.push(
                        manifest_entry(timestamp, path, "delete_duplicate", *size, Some(original), "failed", Some(&msg)),
                    );
                },
                Ok(_) => match removal {
                    Some(Ok(())) => {
                        let kind = match method {
                            DeletionMethod::Trash => "trash_duplicate",
                            DeletionMethod::Permanent => "permanent_delete_duplicate",
                        };
                        result.manifest.push(
                            manifest_entry(timestamp, path, kind, *size, Some(original), "success", None),
                        );
                        assert(result.manifest@.len() == result.manifest.len());
                        result.succeeded_files = result.succeeded_files + 1;
                        result.bytes_reclaimed = result.bytes_reclaimed + *size;
                    },
                    Some(Err(raw)) => {
                        let msg = removal_message_exec(path, method, raw);
                        result.failed.push((path.clone(), msg.clone()));
                        result.manifest.push(
                            manifest_entry(timestamp, path, "delete_duplicate", *size, Some(original), "failed", Some(&msg)),
                        );
                    },
                    None => {},
                },
            }
        },
        CleanAction::DeleteEmptyFile { path } => {
            if dry_run {
                result.manifest.push(
                    manifest_entry(timestamp, path, "delete_empty_file (dry-run)", 0, None, "simulated", None),
                );
                assert(result.manifest@.len() == result.manifest.len());
                result.succeeded_files = result.succeeded_files + 1;
                return;
            }
            match removal {
                Some(Ok(())) => {
                    result.manifest.push(manifest_entry(timestamp, path, "delete_empty_file", 0, None, "success", None));
                    assert(result.manifest@.len() == result.manifest.len());
                    result.succeeded_files = result.succeeded_files + 1;
                },
                Some(Err(raw)) => {
                    let msg = removal_message_exec(path, method, raw);
                    result.failed.push((path.clone(), msg.clone()));
                    result.manifest.push(
                        manifest_entry(timestamp, path, "delete_empty_file", 0, None, "failed", Some(&msg)),
                    );
                },
                None => {},
            }
        },
        CleanAction::DeleteEmptyDir { path } => {
            if dry_run {
                result.manifest.push(
                    manifest_entry(timestamp, path, "delete_empty_dir (dry-run)", 0, None, "simulated", None),
                );
                assert(result.manifest@.len() == result.manifest.len());
                result.succeeded_dirs = result.succeeded_dirs + 1;
                return;
            }
            match removal {
                Some(Ok(())) => {
                    result.manifest.push(manifest_entry(timestamp, path, "delete_empty_dir", 0, None, "success", None));
                    assert(result.manifest@.len() == result.manifest.len());
                    result.succeeded_dirs = result.succeeded_dirs + 1;
                },
                Some(Err(raw)) => {
                    let msg = match method {
                        DeletionMethod::Trash => removal_message_exec(path, method, raw),
                        DeletionMethod::Permanent => raw.clone(),
                    };
                    result.failed.push((path.clone(), msg.clone()));
                    result.manifest.push(
                        manifest_entry(timestamp, path, "delete_empty_dir", 0, None, "failed", Some(&msg)),
                    );
                },
                None => {},
            }
        },
        CleanAction::Blocked { path, reason } => {
            result.manifest.push(manifest_entry(timestamp, path, "blocked", 0, None, "blocked", Some(reason)));
        },
        CleanAction::Skipped { path, reason } => {
            result.manifest.push(manifest_entry(timestamp, path, "skipped", 0, None, "skipped", Some(reason)));
        },
    }
}

/// What the file system answered for one action of a plan, and when the
/// action was carried out.
pub struct ActionAnswers {
    pub timestamp: String,
    pub inspected: Option<Result<FileState, String>>,
    pub removal: Option<Result<(), String>>,
}

/// Whether the answers hold the work `step_spec` asked for.
pub open spec fn answers_done(a: ActionView, method: DeletionMethod, dry_run: bool, ans: ActionAnswers) -> bool {
    work_done(a, method, dry_run, inspected_view(ans.inspected), removal_view(ans.removal))
}

/// Whether every action of `s` has its answers, with the work done.
pub open spec fn all_answered(s: Seq<ActionView>, method: DeletionMethod, dry_run: bool, answers: Seq<ActionAnswers>) -> bool {
    &&& answers.len() == s.len()
    &&& forall|i: int| 0 <= i < s.len() ==> #[trigger] answers_done(s[i], method, dry_run, answers[i])
}

/// The outcome of every action of `s`, given its answers.
pub open spec fn plan_outcomes(
    s: Seq<ActionView>,
    method: DeletionMethod,
    dry_run: bool,
    answers: Seq<ActionAnswers>,
) -> Seq<Outcome> {
    Seq::new(
        s.len(),
        |i: int| outcome_spec(s[i], method, dry_run, inspected_view(answers[i].inspected), removal_view(answers[i].removal)),
    )
}

/// The files the outcomes count as removed.
pub open spec fn total_files(os: Seq<Outcome>) -> int
    decreases os.len(),
{
    if os.len() == 0 {
        0
    } else {
        total_files(os.drop_last()) + os.last().files
    }
}

/// The directories the outcomes count as removed.
pub open spec fn total_dirs(os: Seq<Outcome>) -> int
    decreases os.len(),
{
    if os.len() == 0 {
        0
    } else {
        total_dirs(os.drop_last()) + os.last().dirs
    }
}

/// The bytes the outcomes reclaim.
pub open spec fn total_bytes(os: Seq<Outcome>) -> int
    decreases os.len(),
{
    if os.len() == 0 {
        0
    } else {
        total_bytes(os.drop_last()) + os.last().bytes
    }
}

/// The failed outcomes, each with its action's path and message, in order.
pub open spec fn fail_list(targets: Seq<Seq<char>>, os: Seq<Outcome>) -> Seq<(Seq<char>, Seq<char>)>
    decreases os.len(),
{
    if os.len() == 0 {
        Seq::empty()
    } else {
        let k = fail_list(targets.drop_last(), os.drop_last());
        if os.last().status == "failed"@ {
            k.push((targets.last(), os.last().error->0))
        } else {
            k
        }
    }
}

/// The paths of the actions.
pub open spec fn targets_of(s: Seq<ActionView>) -> Seq<Seq<char>> {
    s.map_values(|a: ActionView| action_target(a))
}

/// The failure list by its texts.
pub open spec fn failed_view(f: Seq<(String, String)>) -> Seq<(Seq<char>, Seq<char>)> {
    f.map_values(|p: (String, String)| (p.0@, p.1@))
}

/// Whether the answers for one action hold the work `execution_step` asked
/// for: the re-check of a duplicate, and the removal wherever one was due.
pub fn answered(
    action: &CleanAction,
    method: DeletionMethod,
    dry_run: bool,
    inspected: &Option<Result<FileState, String>>,
    removal: &Option<Result<(), String>>,
) -> (r: bool)
    ensures
        r == work_done(action@, method, dry_run, inspected_view(*inspected), removal_view(*removal)),
{
    let checked = match action {
        CleanAction::DeleteDuplicate { .. } => dry_run || inspected.is_some(),
        _ => true,
    };
    let removed = match execution_step(action, method, dry_run, inspected) {
        ExecStep::Record => true,
        ExecStep::Inspect(_) => true,
        _ => removal.is_some(),
    };
    checked && removed
}

proof fn lemma_outcome_bytes(a: ActionView, method: DeletionMethod, dry_run: bool, i: Option<Result<FileState, Seq<char>>>, r: Option<Result<(), Seq<char>>>)
    ensures
        0 <= outcome_spec(a, method, dry_run, i, r).bytes <= action_bytes(a),
{
}

proof fn lemma_status_texts()
    ensures
        "simulated"@ != "failed"@,
        "success"@ != "failed"@,
        "blocked"@ != "failed"@,
        "skipped"@ != "failed"@,
{
    reveal_strlit("failed");
    reveal_strlit("simulated");
    reveal_strlit("success");
    reveal_strlit("blocked");
    reveal_strlit("skipped");
    assert("simulated"@.len() != "failed"@.len());
    assert("success"@.len() != "failed"@.len());
    assert("blocked"@.len() != "failed"@.len());
    assert("skipped"@.len() != "failed"@.len());
}

proof fn lemma_outcomes_prefix(s: Seq<ActionView>, method: DeletionMethod, dry_run: bool, answers: Seq<ActionAnswers>, n: int)
    requires
        0 <= n <= s.len(),
        answers.len() == s.len(),
    ensures
        plan_outcomes(s, method, dry_run, answers).take(n) == plan_outcomes(s.take(n), method, dry_run, answers.take(n)),
        targets_of(s).take(n) == targets_of(s.take(n)),
{
    assert(plan_outcomes(s, method, dry_run, answers).take(n) =~= plan_outcomes(s.take(n), method, dry_run, answers.take(n)));
    assert(targets_of(s).take(n) =~= targets_of(s.take(n)));
}

proof fn lemma_total_bytes_bound(s: Seq<ActionView>, method: DeletionMethod, dry_run: bool, answers: Seq<ActionAnswers>)
    requires
        answers.len() == s.len(),
    ensures
        0 <= total_bytes(plan_outcomes(s, method, dry_run, answers)) <= bytes_in(s),
    decreases s.len(),
{
    if s.len() > 0 {
        let n = s.len() - 1;
        lemma_total_bytes_bound(s.drop_last(), method, dry_run, answers.drop_last());
        assert(plan_outcomes(s, method, dry_run, answers).drop_last() =~= plan_outcomes(s.drop_last(), method, dry_run, answers.drop_last()));
        lemma_outcome_bytes(s[n], method, dry_run, inspected_view(answers[n].inspected), removal_view(answers[n].removal));
    }
}

/// Records the execution of every action of a plan, in order: one manifest
/// entry per action, stamped with its time, holding what the action came to;
/// the counts and bytes of the successes; the failures with their messages.
/// `answers[i]` is what the file system answered to the steps
/// `execution_step` asked for the `i`-th action.
pub fn record_plan(plan: &CleanPlan, method: DeletionMethod, dry_run: bool, answers: &Vec<ActionAnswers>) -> (r:
    CleanExecutionResult)
    requires
        all_answered(actions_view(plan.actions@), method, dry_run, answers@),
        bytes_in(actions_view(plan.actions@)) <= u64::MAX,
    ensures
        ({
            let s = actions_view(plan.actions@);
            let os = plan_outcomes(s, method, dry_run, answers@);
            &&& r.manifest@.len() == s.len()
            &&& forall|i: int|
                0 <= i < s.len() ==> entry_records(
                    #[trigger] r.manifest@[i],
                    answers@[i].timestamp@,
                    action_target(s[i]),
                    os[i],
                )
            &&& r.succeeded_files == total_files(os)
            &&& r.succeeded_dirs == total_dirs(os)
            &&& r.bytes_reclaimed == total_bytes(os)
            &&& failed_view(r.failed@) == fail_list(targets_of(s), os)
        }),
{
    let ghost s = actions_view(plan.actions@);
    let ghost os = plan_outcomes(s, method, dry_run, answers@);
    let ghost ts = targets_of(s);
    let mut result = CleanExecutionResult::default();
    proof {
        assert(os.take(0) =~= Seq::<Outcome>::empty());
        assert(ts.take(0) =~= Seq::<Seq<char>>::empty());
        assert(failed_view(result.failed@) =~= Seq::<(Seq<char>, Seq<char>)>::empty());
    }
    let mut i: usize = 0;
    while i < plan.actions.len()
        invariant
            i <= s.len(),
            s == actions_view(plan.actions@),
            os == plan_outcomes(s, method, dry_run, answers@),
            ts == targets_of(s),
            all_answered(s, method, dry_run, answers@),
            bytes_in(s) <= u64::MAX,
            result.counted(),
            result.manifest@.len() == i,
            forall|k: int|
                0 <= k < i ==> entry_records(#[trigger] result.manifest@[k], answers@[k].timestamp@, action_target(s[k]), os[k]),
            result.succeeded_files == total_files(os.take(i as int)),
            result.succeeded_dirs == total_dirs(os.take(i as int)),
            result.bytes_reclaimed == total_bytes(os.take(i as int)),
            failed_view(result.failed@) == fail_list(ts.take(i as int), os.take(i as int)),
        decreases s.len() - i,
    {
        let ghost before = result;
        proof {
            assert(plan.actions@.len() == plan.actions.len());
            lemma_outcomes_prefix(s, method, dry_run, answers@, i as int);
            lemma_total_bytes_bound(s.take(i as int), method, dry_run, answers@.take(i as int));
            lemma_bytes_prefix(s, i + 1);
            assert(s.take(i + 1).drop_last() =~= s.take(i as int));
            assert(s[i as int] == plan.actions@[i as int]@);
            assert(answers_done(s[i as int], method, dry_run, answers@[i as int]));
        }
        record_execution(
            &mut result,
            &plan.actions[i],
            method,
            dry_run,
            &answers[i].timestamp,
            &answers[i].inspected,
            &answers[i].removal,
        );
        proof {
            let o = os[i as int];
            assert(os.take(i + 1).drop_last() =~= os.take(i as int));
            assert(os.take(i + 1).last() == o);
            assert(ts.take(i + 1).drop_last() =~= ts.take(i as int));
            assert(ts.take(i + 1).last() == action_target(s[i as int]));
            assert forall|k: int| 0 <= k < i + 1 implies entry_records(
                #[trigger] result.manifest@[k],
                answers@[k].timestamp@,
                action_target(s[k]),
                os[k],
            ) by {
                if k < i {
                    assert(result.manifest@[k] == before.manifest@[k]);
                }
            }
            if o.status == "failed"@ {
                assert(failed_view(result.failed@) =~= failed_view(before.failed@).push((action_target(s[i as int]), o.error->0)));
            } else {
                assert(failed_view(result.failed@) =~= failed_view(before.failed@));
            }
        }
        i = i + 1;
    }
    proof {
        assert(os.take(s.len() as int) =~= os);
        assert(ts.take(s.len() as int) =~= ts);
    }
    result
}

/// Every action of a plan comes to exactly one of: a removed file, a removed
/// directory, a failure, a blocked or a skipped action.
pub proof fn law_plan_accounting(s: Seq<ActionView>, method: DeletionMethod, dry_run: bool, answers: Seq<ActionAnswers>)
    requires
        answers.len() == s.len(),
    ensures
        ({
            let os = plan_outcomes(s, method, dry_run, answers);
            total_files(os) + total_dirs(os) + fail_list(targets_of(s), os).len() + blocked_in(s) + skipped_in(s) == s.len()
        }),
    decreases s.len(),
{
    lemma_status_texts();
    if s.len() > 0 {
        law_plan_accounting(s.drop_last(), method, dry_run, answers.drop_last());
        assert(plan_outcomes(s, method, dry_run, answers).drop_last() =~= plan_outcomes(s.drop_last(), method, dry_run, answers.drop_last()));
        assert(targets_of(s).drop_last() =~= targets_of(s.drop_last()));
    }
}

/// A dry run removes nothing and fails nothing, and counts every planned
/// file, directory and byte as reclaimed: the plan's own totals.
pub proof fn law_dry_run_totals(s: Seq<ActionView>, method: DeletionMethod, answers: Seq<ActionAnswers>)
    requires
        answers.len() == s.len(),
    ensures
        ({
            let os = plan_outcomes(s, method, true, answers);
            &&& total_files(os) == files_to_remove(s)
            &&& total_dirs(os) == dirs_to_remove(s)
            &&& total_bytes(os) == bytes_in(s)
            &&& fail_list(targets_of(s), os).len() == 0
        }),
    decreases s.len(),
{
    lemma_status_texts();
    if s.len() > 0 {
        law_dry_run_totals(s.drop_last(), method, answers.drop_last());
        assert(plan_outcomes(s, method, true, answers).drop_last() =~= plan_outcomes(s.drop_last(), method, true, answers.drop_last()));
        assert(targets_of(s).drop_last() =~= targets_of(s.drop_last()));
    }
}

/// A dry run asks for no file system work: every action is only recorded.
pub proof fn law_dry_run_touches_nothing(
    a: ActionView,
    method: DeletionMethod,
    inspected: Option<Result<FileState, Seq<char>>>,
)
    ensures
        step_spec(a, method, true, inspected) == StepView::Record,
{
}

/// Blocked and skipped actions never lead to file system work.
pub proof fn law_blocked_and_skipped_untouched(
    a: ActionView,
    method: DeletionMethod,
    dry_run: bool,
    inspected: Option<Result<FileState, Seq<char>>>,
)
    requires
        a is Blocked || a is Skipped,
    ensures
        step_spec(a, method, dry_run, inspected) == StepView::Record,
{
}

/// A duplicate is removed only after the re-check found it unchanged: a
/// regular file, no symlink, with the size, modification time, device and
/// inode it was scanned with.
pub proof fn law_removal_after_recheck(
    a: ActionView,
    method: DeletionMethod,
    dry_run: bool,
    inspected: Option<Result<FileState, Seq<char>>>,
)
    requires
        a is DeleteDuplicate,
        step_spec(a, method, dry_run, inspected) is Trash || step_spec(a, method, dry_run, inspected) is RemoveFile,
    ensures
        !dry_run,
        inspected matches Some(state) && unmodified_spec(
            a->DeleteDuplicate_path,
            (ScanStamp {
                size: a->DeleteDuplicate_size,
                mtime: a->DeleteDuplicate_mtime,
                dev: a->DeleteDuplicate_dev,
                ino: a->DeleteDuplicate_ino,
            }),
            state,
        ) is Ok,
        inspected matches Some(Ok(st)) && !st.is_symlink && st.is_file && st.len == a->DeleteDuplicate_size
            && st.mtime == a->DeleteDuplicate_mtime && st.dev == a->DeleteDuplicate_dev
            && st.ino == a->DeleteDuplicate_ino,
{
}

/// A duplicate is planned for deletion only when its original exists, is not
/// the duplicate itself, and the duplicate is neither protected, of unknown
/// protection, nor a hidden file left alone.
pub proof fn law_planned_duplicate_deletion_is_safe(
    dup: FileEntry,
    original: Seq<char>,
    options: CleanOptions,
    dup_facts: PathFacts,
    original_facts: PathFacts,
)
    requires
        duplicate_action(dup, original, options, dup_facts, original_facts) is DeleteDuplicate,
    ensures
        original_facts.canonical is Some,
        !same_path(canonical_or_self(original, original_facts), canonical_or_self(dup.path@, dup_facts)),
        protected_spec(dup.path@, dup_facts) == Ok::<bool, ErrorView>(false),
        options.include_hidden || !hidden_path_spec(dup.path@),
{
    let ds = seq![dup.path@];
    let fs = seq![dup_facts];
    assert(deletion_safety_spec(original, original_facts, ds, fs) is Ok);
    assert(ds[0] == dup.path@ && fs[0] == dup_facts);
}

/// An empty file is planned for deletion only when it is no structural
/// sentinel, not protected, and not a hidden file left alone.
pub proof fn law_planned_empty_file_deletion_is_safe(path: Seq<char>, options: CleanOptions, facts: PathFacts)
    requires
        empty_file_action(path, options, facts) is DeleteEmptyFile,
    ensures
        !sentinel_spec(path),
        protected_spec(path, facts) == Ok::<bool, ErrorView>(false),
        options.include_hidden || !hidden_path_spec(path),
{
}

/// An empty directory is planned for deletion only when it is not protected
/// and not a hidden directory left alone.
pub proof fn law_planned_empty_dir_deletion_is_safe(path: Seq<char>, options: CleanOptions, facts: PathFacts)
    requires
        empty_dir_action(path, options, facts) is DeleteEmptyDir,
    ensures
        protected_spec(path, facts) == Ok::<bool, ErrorView>(false),
        options.include_hidden || !hidden_path_spec(path),
{
}

/// Whether `path` passed the path rules with facts `f`: whether it is
/// protected could be told, and it is not; and it is no hidden path left
/// alone.
pub open spec fn passes_path_rules(path: Seq<char>, options: CleanOptions, f: PathFacts) -> bool {
    &&& protected_spec(path, f) == Ok::<bool, ErrorView>(false)
    &&& options.include_hidden || !hidden_path_spec(path)
}

/// Whether a planned deletion is backed by the report and by what the file
/// system said of its paths: a duplicate is one of a group's duplicates,
/// with its size and scan stamp, whose original exists and is another file,
/// and it passes the path rules;
/// an empty file is one of the report's, asked for, no structural sentinel,
/// and passes the path rules; an empty directory is one of the report's,
/// asked for, and passes them. Other actions delete nothing.
pub open spec fn deletion_backed(report: ScanReport, options: CleanOptions, facts: PlanFacts, a: ActionView) -> bool {
    let groups = report.duplicates.groups@;
    match a {
        ActionView::DeleteDuplicate { path, size, original, mtime, dev, ino } => exists|g: int, d: int|
            #![trigger groups[g].duplicates@[d]]
            {
                &&& 0 <= g < groups.len()
                &&& 0 <= d < groups[g].duplicates@.len()
                &&& groups[g].duplicates@[d].path@ == path
                &&& groups[g].duplicates@[d].size == size
                &&& groups[g].duplicates@[d].mtime == mtime
                &&& groups[g].duplicates@[d].dev == dev
                &&& groups[g].duplicates@[d].ino == ino
                &&& groups[g].original.path@ == original
                &&& facts.originals@[g].canonical is Some
                &&& !same_path(
                    canonical_or_self(original, facts.originals@[g]),
                    canonical_or_self(path, facts.duplicates@[g]@[d]),
                )
                &&& passes_path_rules(path, options, facts.duplicates@[g]@[d])
            },
        ActionView::DeleteEmptyFile { path } => exists|j: int|
            #![trigger report.empty_files@[j]]
            {
                &&& 0 <= j < report.empty_files@.len()
                &&& report.empty_files@[j]@ == path
                &&& options.clean_empty_files
                &&& !sentinel_spec(path)
                &&& passes_path_rules(path, options, facts.empty_files@[j])
            },
        ActionView::DeleteEmptyDir { path } => exists|j: int|
            #![trigger report.empty_dirs@[j]]
            {
                &&& 0 <= j < report.empty_dirs@.len()
                &&& report.empty_dirs@[j]@ == path
                &&& options.clean_empty_dirs
                &&& passes_path_rules(path, options, facts.empty_dirs@[j])
            },
        _ => true,
    }
}

proof fn lemma_duplicate_actions_backed(report: ScanReport, options: CleanOptions, facts: PlanFacts, n: int)
    requires
        facts_fit(report, facts),
        0 <= n <= report.duplicates.groups@.len(),
    ensures
        ({
            let da = duplicate_actions(report.duplicates.groups@.take(n), options, facts.originals@, facts.duplicates@);
            forall|i: int| 0 <= i < da.len() ==> deletion_backed(report, options, facts, #[trigger] da[i])
        }),
    decreases n,
{
    let groups = report.duplicates.groups@;
    if n > 0 {
        lemma_duplicate_actions_backed(report, options, facts, n - 1);
        let gs = groups.take(n);
        assert(gs.drop_last() =~= groups.take(n - 1));
        assert(gs[n - 1] == groups[n - 1]);
        let prev = duplicate_actions(groups.take(n - 1), options, facts.originals@, facts.duplicates@);
        let g = groups[n - 1];
        let ga = group_actions(g, options, facts.originals@[n - 1], facts.duplicates@[n - 1]@);
        let da = duplicate_actions(gs, options, facts.originals@, facts.duplicates@);
        assert(da == prev + ga);
        assert forall|i: int| 0 <= i < da.len() implies deletion_backed(report, options, facts, #[trigger] da[i]) by {
            if i < prev.len() {
                assert(da[i] == prev[i]);
            } else {
                let d = i - prev.len();
                let dup = g.duplicates@[d];
                assert(da[i] == ga[d]);
                assert(ga[d] == duplicate_action(dup, g.original.path@, options, facts.duplicates@[n - 1]@[d], facts.originals@[n - 1]));
                if da[i] is DeleteDuplicate {
                    law_planned_duplicate_deletion_is_safe(
                        dup,
                        g.original.path@,
                        options,
                        facts.duplicates@[n - 1]@[d],
                        facts.originals@[n - 1],
                    );
                    assert(groups[n - 1].duplicates@[d] == dup);
                }
            }
        }
    }
}

/// Every deletion a plan holds is backed by the report and passed the
/// safety rules: no protected path (nor one whose protection could not be
/// told), no hidden path unless hidden ones are included, no structural
/// sentinel, and no duplicate whose original is missing or is the
/// duplicate itself.
pub proof fn law_plan_deletions_are_safe(report: ScanReport, options: CleanOptions, facts: PlanFacts)
    requires
        facts_fit(report, facts),
    ensures
        forall|i: int|
            0 <= i < plan_actions(report, options, facts).len() ==> deletion_backed(
                report,
                options,
                facts,
                #[trigger] plan_actions(report, options, facts)[i],
            ),
{
    let groups = report.duplicates.groups@;
    let files = report.empty_files@;
    let dirs = report.empty_dirs@;
    lemma_duplicate_actions_backed(report, options, facts, groups.len() as int);
    assert(groups.take(groups.len() as int) =~= groups);
    let da = duplicate_actions(groups, options, facts.originals@, facts.duplicates@);
    let fpart = if options.clean_empty_files {
        Seq::new(files.len(), |i: int| empty_file_action(files[i]@, options, facts.empty_files@[i]))
    } else {
        Seq::<ActionView>::empty()
    };
    let dpart = if options.clean_empty_dirs {
        Seq::new(dirs.len(), |i: int| empty_dir_action(dirs[i]@, options, facts.empty_dirs@[i]))
    } else {
        Seq::<ActionView>::empty()
    };
    let all = plan_actions(report, options, facts);
    assert(all == da + fpart + dpart);
    assert forall|i: int| 0 <= i < all.len() implies deletion_backed(report, options, facts, #[trigger] all[i]) by {
        if i < da.len() {
            assert(all[i] == da[i]);
        } else if i < da.len() + fpart.len() {
            let j = i - da.len();
            assert(all[i] == fpart[j]);
            assert(fpart[j] == empty_file_action(files[j]@, options, facts.empty_files@[j]));
            if all[i] is DeleteEmptyFile {
                law_planned_empty_file_deletion_is_safe(files[j]@, options, facts.empty_files@[j]);
                assert(report.empty_files@[j] == files[j]);
            }
        } else {
            let j = i - da.len() - fpart.len();
            assert(all[i] == dpart[j]);
            assert(dpart[j] == empty_dir_action(dirs[j]@, options, facts.empty_dirs@[j]));
            if all[i] is DeleteEmptyDir {
                law_planned_empty_dir_deletion_is_safe(dirs[j]@, options, facts.empty_dirs@[j]);
                assert(report.empty_dirs@[j] == dirs[j]);
            }
        }
    }
}

/// The paths of every group's duplicates, group by group.
pub open spec fn dup_paths(groups: Seq<DuplicateGroup>) -> Seq<Seq<char>>
    decreases groups.len(),
{
    if groups.len() == 0 {
        Seq::empty()
    } else {
        dup_paths(groups.drop_last()) + groups.last().duplicates@.map_values(|f: FileEntry| f.path@)
    }
}

proof fn lemma_duplicate_targets(report: ScanReport, options: CleanOptions, facts: PlanFacts, n: int)
    requires
        facts_fit(report, facts),
        0 <= n <= report.duplicates.groups@.len(),
    ensures
        targets_of(duplicate_actions(report.duplicates.groups@.take(n), options, facts.originals@, facts.duplicates@))
            == dup_paths(report.duplicates.groups@.take(n)),
    decreases n,
{
    let groups = report.duplicates.groups@;
    if n == 0 {
        assert(targets_of(duplicate_actions(groups.take(0), options, facts.originals@, facts.duplicates@)) =~= Seq::<Seq<char>>::empty());
    } else {
        lemma_duplicate_targets(report, options, facts, n - 1);
        let gs = groups.take(n);
        assert(gs.drop_last() =~= groups.take(n - 1));
        let g = groups[n - 1];
        let ga = group_actions(g, options, facts.originals@[n - 1], facts.duplicates@[n - 1]@);
        let prev = duplicate_actions(groups.take(n - 1), options, facts.originals@, facts.duplicates@);
        assert(duplicate_actions(gs, options, facts.originals@, facts.duplicates@) == prev + ga);
        assert(targets_of(ga) =~= g.duplicates@.map_values(|f: FileEntry| f.path@));
        assert(targets_of(prev + ga) =~= targets_of(prev) + targets_of(ga));
    }
}

/// A plan has one action for each duplicate of each group, in the report's
/// order, then, when asked for, one for each empty file, then one for each
/// empty directory: the actions' paths are those paths, in that order.
pub proof fn law_plan_covers_report(report: ScanReport, options: CleanOptions, facts: PlanFacts)
    requires
        facts_fit(report, facts),
    ensures
        targets_of(plan_actions(report, options, facts)) == dup_paths(report.duplicates.groups@) + (if options.clean_empty_files {
            string_views(report.empty_files@)
        } else {
            Seq::empty()
        }) + (if options.clean_empty_dirs {
            string_views(report.empty_dirs@)
        } else {
            Seq::empty()
        }),
{
    let groups = report.duplicates.groups@;
    let files = report.empty_files@;
    let dirs = report.empty_dirs@;
    lemma_duplicate_targets(report, options, facts, groups.len() as int);
    assert(groups.take(groups.len() as int) =~= groups);
    let da = duplicate_actions(groups, options, facts.originals@, facts.duplicates@);
    let fpart = if options.clean_empty_files {
        Seq::new(files.len(), |i: int| empty_file_action(files[i]@, options, facts.empty_files@[i]))
    } else {
        Seq::<ActionView>::empty()
    };
    let dpart = if options.clean_empty_dirs {
        Seq::new(dirs.len(), |i: int| empty_dir_action(dirs[i]@, options, facts.empty_dirs@[i]))
    } else {
        Seq::<ActionView>::empty()
    };
    assert(plan_actions(report, options, facts) == da + fpart + dpart);
    assert(targets_of(da + fpart + dpart) =~= targets_of(da) + targets_of(fpart) + targets_of(dpart));
    if options.clean_empty_files {
        assert(targets_of(fpart) =~= string_views(files));
    } else {
        assert(targets_of(fpart) =~= Seq::<Seq<char>>::empty());
    }
    if options.clean_empty_dirs {
        assert(targets_of(dpart) =~= string_views(dirs));
    } else {
        assert(targets_of(dpart) =~= Seq::<Seq<char>>::empty());
    }
}

/// Whether an outcome is a success: the action was carried out, or
/// simulated in a dry run.
pub open spec fn succeeded(o: Outcome) -> bool {
    o.status == "success"@ || o.status == "simulated"@
}

/// The sizes of the duplicates whose removal succeeded.
pub open spec fn succeeded_duplicate_bytes(s: Seq<ActionView>, os: Seq<Outcome>) -> int
    decreases os.len(),
{
    if os.len() == 0 || s.len() == 0 {
        0
    } else {
        succeeded_duplicate_bytes(s.drop_last(), os.drop_last()) + (if succeeded(os.last()) {
            match s.last() {
                ActionView::DeleteDuplicate { size, .. } => size as int,
                _ => 0int,
            }
        } else {
            0int
        })
    }
}

/// A succeeded duplicate removal reclaims the duplicate's size, by either
/// method; nothing else reclaims bytes.
pub proof fn law_success_reclaims_the_duplicate(
    a: ActionView,
    method: DeletionMethod,
    dry_run: bool,
    inspected: Option<Result<FileState, Seq<char>>>,
    removal: Option<Result<(), Seq<char>>>,
)
    ensures
        ({
            let o = outcome_spec(a, method, dry_run, inspected, removal);
            &&& (succeeded(o) && a is DeleteDuplicate) ==> o.bytes == a->DeleteDuplicate_size
            &&& !(succeeded(o) && a is DeleteDuplicate) ==> o.bytes == 0
        }),
        outcome_spec(a, DeletionMethod::Trash, dry_run, inspected, removal).bytes == outcome_spec(
            a,
            DeletionMethod::Permanent,
            dry_run,
            inspected,
            removal,
        ).bytes,
{
    lemma_status_texts();
}

/// After a plan is executed, the bytes reclaimed are the sizes of the
/// duplicates whose removal succeeded, whatever the deletion method.
pub proof fn law_reclaimed_bytes_of_a_plan(s: Seq<ActionView>, method: DeletionMethod, dry_run: bool, answers: Seq<ActionAnswers>)
    requires
        answers.len() == s.len(),
    ensures
        total_bytes(plan_outcomes(s, method, dry_run, answers)) == succeeded_duplicate_bytes(
            s,
            plan_outcomes(s, method, dry_run, answers),
        ),
    decreases s.len(),
{
    if s.len() > 0 {
        let n = s.len() - 1;
        law_reclaimed_bytes_of_a_plan(s.drop_last(), method, dry_run, answers.drop_last());
        assert(plan_outcomes(s, method, dry_run, answers).drop_last() =~= plan_outcomes(
            s.drop_last(),
            method,
            dry_run,
            answers.drop_last(),
        ));
        law_success_reclaims_the_duplicate(
            s[n],
            method,
            dry_run,
            inspected_view(answers[n].inspected),
            removal_view(answers[n].removal),
        );
    }
}

} // verus!
