//! The state and decisions of the interactive inspector: which group and
//! file are selected, which duplicates are marked for deletion or linking,
//! what a key press does, and what the preview pane shows of a file's first
//! bytes. Drawing the screen, reading keys and files, and carrying out the
//! marked actions happen outside the library.

use vstd::prelude::*;
use crate::paths::{lemma_normalized_same_path, normalize, same_path};
use crate::text::{lines_chars, lines_of, push_char, push_chars, push_str, string_from_str};
use crate::types::{DuplicateGroup, ScanReport};

verus! {

/// Which pane has the keyboard focus.
#[derive(Debug, Clone, Copy, PartialEq, Eq, Structural)]
pub enum FocusPane {
    GroupsList,
    DuplicatesList,
}

/// What a duplicate is marked for.
#[derive(Debug, Clone, Copy, PartialEq, Eq, Structural)]
pub enum MarkedAction {
    Delete,
    Hardlink,
}

/// The inspector's state.
pub struct App {
    pub report: ScanReport,
    pub selected_group_idx: usize,
    /// 0 is the group's original; `i > 0` its `i`-th duplicate.
    pub selected_dup_idx: usize,
    pub focus: FocusPane,
    /// Marked duplicates, no path twice.
    pub marked_actions: Vec<(String, MarkedAction)>,
    pub show_help: bool,
    pub show_confirm: bool,
    pub status_message: String,
    pub preview_content: String,
}

/// Whether no two marks are for the same path.
pub open spec fn marks_distinct(m: Seq<(String, MarkedAction)>) -> bool {
    forall|i: int, j: int| 0 <= i < j < m.len() ==> !same_path(m[i].0@, m[j].0@)
}

/// The mark for `p`, if any.
pub open spec fn mark_of(m: Seq<(String, MarkedAction)>, p: Seq<char>) -> Option<MarkedAction> {
    if exists|i: int| 0 <= i < m.len() && same_path(#[trigger] m[i].0@, p) {
        Some(m[choose|i: int| 0 <= i < m.len() && same_path(#[trigger] m[i].0@, p)].1)
    } else {
        None
    }
}

/// The path of the `idx`-th file of a group (0: the original).
pub open spec fn item_path(g: DuplicateGroup, idx: int) -> Option<Seq<char>> {
    if idx == 0 {
        Some(g.original.path@)
    } else if 1 <= idx <= g.duplicates@.len() {
        Some(g.duplicates@[idx - 1].path@)
    } else {
        None
    }
}

/// `same_path` on two path strings.
fn same_path_exec(a: &str, b: &str) -> (r: bool)
    ensures
        r == same_path(a@, b@),
{
    let na = normalize(a);
    let nb = normalize(b);
    proof {
        lemma_normalized_same_path(a@, b@);
    }
    crate::text::str_eq(na.as_str(), nb.as_str())
}

/// The `{:?}` text of a mark.
pub open spec fn mark_name(a: MarkedAction) -> Seq<char> {
    match a {
        MarkedAction::Delete => "Delete"@,
        MarkedAction::Hardlink => "Hardlink"@,
    }
}

impl App {
    /// The state's invariant: no path is marked twice.
    pub open spec fn wf(&self) -> bool {
        marks_distinct(self.marked_actions@)
    }

    /// The inspector for a report: first group, its original selected, the
    /// groups pane focused, nothing marked. The preview is filled in by
    /// `set_preview` once the file has been read.
    pub fn new(report: ScanReport) -> (app: App)
        ensures
            app.wf(),
            app.report == report,
            app.selected_group_idx == 0,
            app.selected_dup_idx == 0,
            app.focus == FocusPane::GroupsList,
            app.marked_actions@.len() == 0,
            !app.show_help,
            !app.show_confirm,
            app.status_message@ == "Ready. Press [?] for help, [Enter] to apply marked actions."@,
            app.preview_content@.len() == 0,
    {
        App {
            report,
            selected_group_idx: 0,
            selected_dup_idx: 0,
            focus: FocusPane::GroupsList,
            marked_actions: Vec::new(),
            show_help: false,
            show_confirm: false,
            status_message: string_from_str("Ready. Press [?] for help, [Enter] to apply marked actions."),
            preview_content: String::new(),
        }
    }

    /// The selected group, if any.
    pub fn current_group(&self) -> (r: Option<&DuplicateGroup>)
        ensures
            match r {
                Some(g) => self.selected_group_idx < self.report.duplicates.groups@.len() && *g
                    == self.report.duplicates.groups@[self.selected_group_idx as int],
                None => self.selected_group_idx >= self.report.duplicates.groups@.len(),
            },
    {
        if self.selected_group_idx < self.report.duplicates.groups.len() {
            Some(&self.report.duplicates.groups[self.selected_group_idx])
        } else {
            None
        }
    }

    /// The path of the selected file, if any.
    pub fn current_duplicate_path(&self) -> (r: Option<&String>)
        ensures
            match r {
                Some(p) => self.selected_group_idx < self.report.duplicates.groups@.len() && item_path(
                    self.report.duplicates.groups@[self.selected_group_idx as int],
                    self.selected_dup_idx as int,
                ) == Some(p@),
                None => self.selected_group_idx >= self.report.duplicates.groups@.len() || item_path(
                    self.report.duplicates.groups@[self.selected_group_idx as int],
                    self.selected_dup_idx as int,
                ) is None,
            },
    {
        match self.current_group() {
            Some(group) => {
                if self.selected_dup_idx == 0 {
                    Some(&group.original.path)
                } else if self.selected_dup_idx - 1 < group.duplicates.len() {
                    Some(&group.duplicates[self.selected_dup_idx - 1].path)
                } else {
                    None
                }
            },
            None => None,
        }
    }

    /// Moves to the next group (after the last, the first); selects its original.
    pub fn next_group(&mut self)
        ensures
            ({
                let n = old(self).report.duplicates.groups@.len();
                &&& n > 0 ==> final(self).selected_group_idx == (old(self).selected_group_idx + 1) % (n as int)
                    && final(self).selected_dup_idx == 0
                &&& n == 0 ==> final(self).selected_group_idx == old(self).selected_group_idx
                    && final(self).selected_dup_idx == old(self).selected_dup_idx
            }),
            final(self).report == old(self).report,
            final(self).marked_actions == old(self).marked_actions,
            final(self).focus == old(self).focus,
            final(self).show_help == old(self).show_help,
            final(self).show_confirm == old(self).show_confirm,
            final(self).status_message == old(self).status_message,
            final(self).preview_content == old(self).preview_content,
    {
        let n = self.report.duplicates.groups.len();
        if n > 0 {
            let i = self.selected_group_idx;
            self.selected_group_idx = ((i as u128 + 1) % (n as u128)) as usize;
            self.selected_dup_idx = 0;
        }
    }

    /// Moves to the previous group (before the first, the last); selects its original.
    pub fn prev_group(&mut self)
        ensures
            ({
                let n = old(self).report.duplicates.groups@.len();
                &&& n > 0 ==> final(self).selected_group_idx == (if old(self).selected_group_idx == 0 {
                    n - 1
                } else {
                    old(self).selected_group_idx - 1
                }) && final(self).selected_dup_idx == 0
                &&& n == 0 ==> final(self).selected_group_idx == old(self).selected_group_idx
                    && final(self).selected_dup_idx == old(self).selected_dup_idx
            }),
            final(self).report == old(self).report,
            final(self).marked_actions == old(self).marked_actions,
            final(self).focus == old(self).focus,
            final(self).show_help == old(self).show_help,
            final(self).show_confirm == old(self).show_confirm,
            final(self).status_message == old(self).status_message,
            final(self).preview_content == old(self).preview_content,
    {
        let n = self.report.duplicates.groups.len();
        if n > 0 {
            if self.selected_group_idx == 0 {
                self.selected_group_idx = n - 1;
            } else {
                self.selected_group_idx = self.selected_group_idx - 1;
            }
            self.selected_dup_idx = 0;
        }
    }

    /// Moves to the next file of the group (after the last, the original).
    pub fn next_item(&mut self)
        ensures
            ({
                let gs = old(self).report.duplicates.groups@;
                let gi = old(self).selected_group_idx;
                &&& gi < gs.len() ==> final(self).selected_dup_idx == (old(self).selected_dup_idx + 1) % (
                gs[gi as int].duplicates@.len() as int + 1)
                &&& gi >= gs.len() ==> final(self).selected_dup_idx == old(self).selected_dup_idx
            }),
            final(self).selected_group_idx == old(self).selected_group_idx,
            final(self).report == old(self).report,
            final(self).marked_actions == old(self).marked_actions,
            final(self).focus == old(self).focus,
            final(self).show_help == old(self).show_help,
            final(self).show_confirm == old(self).show_confirm,
            final(self).status_message == old(self).status_message,
            final(self).preview_content == old(self).preview_content,
    {
        if self.selected_group_idx < self.report.duplicates.groups.len() {
            let total: u128 = self.report.duplicates.groups[self.selected_group_idx].duplicates.len() as u128 + 1;
            let next: u128 = (self.selected_dup_idx as u128 + 1) % total;
            assert(next < total);
            self.selected_dup_idx = next as usize;
        }
    }

    /// Moves to the previous file of the group (before the original, the last duplicate).
    pub fn prev_item(&mut self)
        ensures
            ({
                let gs = old(self).report.duplicates.groups@;
                let gi = old(self).selected_group_idx;
                &&& gi < gs.len() ==> final(self).selected_dup_idx == (if old(self).selected_dup_idx == 0 {
                    gs[gi as int].duplicates@.len() as int
                } else {
                    old(self).selected_dup_idx - 1
                })
                &&& gi >= gs.len() ==> final(self).selected_dup_idx == old(self).selected_dup_idx
            }),
            final(self).selected_group_idx == old(self).selected_group_idx,
            final(self).report == old(self).report,
            final(self).marked_actions == old(self).marked_actions,
            final(self).focus == old(self).focus,
            final(self).show_help == old(self).show_help,
            final(self).show_confirm == old(self).show_confirm,
            final(self).status_message == old(self).status_message,
            final(self).preview_content == old(self).preview_content,
    {
        if self.selected_group_idx < self.report.duplicates.groups.len() {
            if self.selected_dup_idx == 0 {
                self.selected_dup_idx = self.report.duplicates.groups[self.selected_group_idx].duplicates.len();
            } else {
                self.selected_dup_idx = self.selected_dup_idx - 1;
            }
        }
    }

    /// The position of the mark for `p`, if any.
    fn find_mark(&self, p: &str) -> (r: Option<usize>)
        ensures
            match r {
                Some(i) => i < self.marked_actions@.len() && same_path(self.marked_actions@[i as int].0@, p@),
                None => forall|i: int| 0 <= i < self.marked_actions@.len() ==> !same_path(#[trigger] self.marked_actions@[i].0@, p@),
            },
    {
        let mut i: usize = 0;
        while i < self.marked_actions.len()
            invariant
                i <= self.marked_actions@.len(),
                forall|j: int| 0 <= j < i ==> !same_path(#[trigger] self.marked_actions@[j].0@, p@),
            decreases self.marked_actions@.len() - i,
        {
            if same_path_exec(self.marked_actions[i].0.as_str(), p) {
                return Some(i);
            }
            i = i + 1;
        }
        None
    }

    /// The mark for `p`, if any.
    pub fn marked(&self, p: &str) -> (r: Option<MarkedAction>)
        requires
            self.wf(),
        ensures
            r == mark_of(self.marked_actions@, p@),
    {
        match self.find_mark(p) {
            Some(i) => {
                proof {
                    lemma_mark_at(self.marked_actions@, i as int, p@);
                }
                Some(self.marked_actions[i].1)
            },
            None => None,
        }
    }

    /// Marks the selected duplicate for `action`, or, when it is already
    /// marked for it, unmarks it; the original can never be marked.
    pub fn toggle_mark(&mut self, action: MarkedAction)
        requires
            old(self).wf(),
        ensures
            final(self).wf(),
            mark_toggled(*old(self), *final(self), action),
            final(self).report == old(self).report,
            final(self).selected_group_idx == old(self).selected_group_idx,
            final(self).selected_dup_idx == old(self).selected_dup_idx,
            final(self).focus == old(self).focus,
            final(self).show_help == old(self).show_help,
            final(self).show_confirm == old(self).show_confirm,
            final(self).preview_content == old(self).preview_content,
    {
        if self.selected_group_idx >= self.report.duplicates.groups.len() {
            return;
        }
        if self.selected_dup_idx == 0 {
            self.status_message = string_from_str("Cannot mark canonical original file for deletion/linking!");
            return;
        }
        let gi = self.selected_group_idx;
        let di = self.selected_dup_idx;
        if di - 1 >= self.report.duplicates.groups[gi].duplicates.len() {
            return;
        }
        let path = self.report.duplicates.groups[gi].duplicates[di - 1].path.clone();
        let ghost m0 = self.marked_actions@;
        let ghost p = path@;
        match self.find_mark(path.as_str()) {
            Some(i) => {
                proof {
                    lemma_mark_at(m0, i as int, p);
                }
                if self.marked_actions[i].1 == action {
                    self.marked_actions.remove(i);
                    proof {
                        lemma_mark_removed(m0, i as int, p);
                    }
                    let mut m = string_from_str("Unmarked '");
                    push_str(&mut m, path.as_str());
                    push_str(&mut m, "'");
                    self.status_message = m;
                } else {
                    let key = self.marked_actions[i].0.clone();
                    self.marked_actions.set(i, (key, action));
                    proof {
                        lemma_mark_set(m0, i as int, p, action);
                    }
                    self.status_message = marked_message(&path, action);
                }
            },
            None => {
                self.marked_actions.push((path.clone(), action));
                proof {
                    lemma_mark_pushed(m0, path, action);
                }
                self.status_message = marked_message(&path, action);
            },
        }
    }

    /// Whether any duplicate is marked.
    pub fn has_marks(&self) -> (r: bool)
        ensures
            r == (self.marked_actions@.len() > 0),
    {
        self.marked_actions.len() > 0
    }

    /// Removes every mark.
    pub fn clear_marks(&mut self)
        ensures
            final(self).marked_actions@.len() == 0,
            final(self).report == old(self).report,
            final(self).selected_group_idx == old(self).selected_group_idx,
            final(self).selected_dup_idx == old(self).selected_dup_idx,
            final(self).status_message == old(self).status_message,
    {
        self.marked_actions = Vec::new();
    }
}

/// "Marked '<path>' for <action>".
fn marked_message(path: &String, action: MarkedAction) -> (m: String)
    ensures
        m@ == "Marked '"@ + path@ + "' for "@ + mark_name(action),
{
    let mut m = string_from_str("Marked '");
    push_str(&mut m, path.as_str());
    push_str(&mut m, "' for ");
    match action {
        MarkedAction::Delete => push_str(&mut m, "Delete"),
        MarkedAction::Hardlink => push_str(&mut m, "Hardlink"),
    }
    m
}

/// The mark at a position whose path is `p` is the mark for `p`.
proof fn lemma_mark_at(m: Seq<(String, MarkedAction)>, i: int, p: Seq<char>)
    requires
        marks_distinct(m),
        0 <= i < m.len(),
        same_path(m[i].0@, p),
    ensures
        mark_of(m, p) == Some(m[i].1),
{
    let c = choose|c: int| 0 <= c < m.len() && same_path(#[trigger] m[c].0@, p);
    if c != i {
        if c < i {
            assert(!same_path(m[c].0@, m[i].0@));
        } else {
            assert(!same_path(m[i].0@, m[c].0@));
        }
    }
}

proof fn lemma_mark_removed(m: Seq<(String, MarkedAction)>, i: int, p: Seq<char>)
    requires
        marks_distinct(m),
        0 <= i < m.len(),
        same_path(m[i].0@, p),
    ensures
        marks_distinct(m.remove(i)),
        mark_of(m.remove(i), p) is None,
        forall|q: Seq<char>| !same_path(q, p) ==> mark_of(m.remove(i), q) == mark_of(m, q),
{
    let r = m.remove(i);
    assert forall|a: int, b: int| 0 <= a < b < r.len() implies !same_path(r[a].0@, r[b].0@) by {
        let aa = if a < i { a } else { a + 1 };
        let bb = if b < i { b } else { b + 1 };
        assert(r[a] == m[aa] && r[b] == m[bb]);
    }
    assert forall|j: int| 0 <= j < r.len() implies !same_path(#[trigger] r[j].0@, p) by {
        let jj = if j < i { j } else { j + 1 };
        assert(r[j] == m[jj]);
        if jj < i {
            assert(!same_path(m[jj].0@, m[i].0@));
        } else {
            assert(!same_path(m[i].0@, m[jj].0@));
        }
    }
    assert forall|q: Seq<char>| !same_path(q, p) implies mark_of(r, q) == mark_of(m, q) by {
        if exists|j: int| 0 <= j < m.len() && same_path(#[trigger] m[j].0@, q) {
            let j = choose|j: int| 0 <= j < m.len() && same_path(#[trigger] m[j].0@, q);
            lemma_mark_at(m, j, q);
            assert(j != i);
            let jr = if j < i { j } else { j - 1 };
            assert(r[jr] == m[j]);
            lemma_mark_at(r, jr, q);
        } else {
            assert forall|j: int| 0 <= j < r.len() implies !same_path(#[trigger] r[j].0@, q) by {
                let jj = if j < i { j } else { j + 1 };
                assert(r[j] == m[jj]);
            }
        }
    }
}

proof fn lemma_mark_set(m: Seq<(String, MarkedAction)>, i: int, p: Seq<char>, a: MarkedAction)
    requires
        marks_distinct(m),
        0 <= i < m.len(),
        same_path(m[i].0@, p),
    ensures
        marks_distinct(m.update(i, (m[i].0, a))),
        mark_of(m.update(i, (m[i].0, a)), p) == Some(a),
        forall|q: Seq<char>| !same_path(q, p) ==> mark_of(m.update(i, (m[i].0, a)), q) == mark_of(m, q),
{
    let r = m.update(i, (m[i].0, a));
    assert forall|x: int, y: int| 0 <= x < y < r.len() implies !same_path(r[x].0@, r[y].0@) by {
        assert(r[x].0 == m[x].0 && r[y].0 == m[y].0);
    }
    lemma_mark_at(r, i, p);
    assert forall|q: Seq<char>| !same_path(q, p) implies mark_of(r, q) == mark_of(m, q) by {
        if exists|j: int| 0 <= j < m.len() && same_path(#[trigger] m[j].0@, q) {
            let j = choose|j: int| 0 <= j < m.len() && same_path(#[trigger] m[j].0@, q);
            lemma_mark_at(m, j, q);
            assert(j != i);
            lemma_mark_at(r, j, q);
        } else {
            assert forall|j: int| 0 <= j < r.len() implies !same_path(#[trigger] r[j].0@, q) by {
                assert(r[j].0 == m[j].0);
            }
        }
    }
}

proof fn lemma_mark_pushed(m: Seq<(String, MarkedAction)>, path: String, a: MarkedAction)
    requires
        marks_distinct(m),
        forall|i: int| 0 <= i < m.len() ==> !same_path(#[trigger] m[i].0@, path@),
    ensures
        marks_distinct(m.push((path, a))),
        mark_of(m.push((path, a)), path@) == Some(a),
        mark_of(m, path@) is None,
        forall|q: Seq<char>| !same_path(q, path@) ==> mark_of(m.push((path, a)), q) == mark_of(m, q),
{
    let r = m.push((path, a));
    assert forall|x: int, y: int| 0 <= x < y < r.len() implies !same_path(r[x].0@, r[y].0@) by {
        if y == m.len() {
            assert(!same_path(m[x].0@, path@));
        }
    }
    lemma_mark_at(r, m.len() as int, path@);
    assert forall|q: Seq<char>| !same_path(q, path@) implies mark_of(r, q) == mark_of(m, q) by {
        if exists|j: int| 0 <= j < m.len() && same_path(#[trigger] m[j].0@, q) {
            let j = choose|j: int| 0 <= j < m.len() && same_path(#[trigger] m[j].0@, q);
            lemma_mark_at(m, j, q);
            assert(r[j] == m[j]);
            lemma_mark_at(r, j, q);
        } else {
            assert forall|j: int| 0 <= j < r.len() implies !same_path(#[trigger] r[j].0@, q) by {
                if j < m.len() {
                    assert(r[j] == m[j]);
                } else {
                    assert(r[j].0@ == path@);
                    crate::tui::lemma_same_path_symmetric(q, path@);
                }
            }
        }
    }
}

/// `same_path` is symmetric.
pub proof fn lemma_same_path_symmetric(a: Seq<char>, b: Seq<char>)
    ensures
        same_path(a, b) == same_path(b, a),
{
}

/// Whether `b`'s marks and status message are what toggling `action` on
/// `a`'s selected duplicate gives: the original cannot be marked; a
/// duplicate already marked for `action` is unmarked, else marked for it;
/// no other path's mark changes.
pub open spec fn mark_toggled(a: App, b: App, action: MarkedAction) -> bool {
    let gs = a.report.duplicates.groups@;
    let gi = a.selected_group_idx;
    let di = a.selected_dup_idx;
    let m0 = a.marked_actions@;
    let m1 = b.marked_actions@;
    if gi >= gs.len() {
        m1 == m0 && b.status_message == a.status_message
    } else if di == 0 {
        m1 == m0 && b.status_message@ == "Cannot mark canonical original file for deletion/linking!"@
    } else if di > gs[gi as int].duplicates@.len() {
        m1 == m0 && b.status_message == a.status_message
    } else {
        let p = gs[gi as int].duplicates@[di - 1].path@;
        &&& mark_of(m1, p) == (if mark_of(m0, p) == Some(action) {
            None
        } else {
            Some(action)
        })
        &&& forall|q: Seq<char>| !same_path(q, p) ==> mark_of(m1, q) == mark_of(m0, q)
        &&& b.status_message@ == (if mark_of(m0, p) == Some(action) {
            "Unmarked '"@ + p + "'"@
        } else {
            "Marked '"@ + p + "' for "@ + mark_name(action)
        })
    }
}

/// The selection (group, file) after moving to the next group: the first
/// after the last, with its original selected.
pub open spec fn next_group_sel(a: App) -> (usize, usize) {
    let n = a.report.duplicates.groups@.len();
    if n > 0 {
        (((a.selected_group_idx + 1) % (n as int)) as usize, 0usize)
    } else {
        (a.selected_group_idx, a.selected_dup_idx)
    }
}

/// The selection after moving to the previous group: the last before the
/// first, with its original selected.
pub open spec fn prev_group_sel(a: App) -> (usize, usize) {
    let n = a.report.duplicates.groups@.len();
    if n > 0 {
        (if a.selected_group_idx == 0 {
            (n - 1) as usize
        } else {
            (a.selected_group_idx - 1) as usize
        }, 0usize)
    } else {
        (a.selected_group_idx, a.selected_dup_idx)
    }
}

/// The selection after moving to the group's next file: the original after
/// the last duplicate.
pub open spec fn next_item_sel(a: App) -> (usize, usize) {
    let gs = a.report.duplicates.groups@;
    let gi = a.selected_group_idx;
    if gi < gs.len() {
        (gi, ((a.selected_dup_idx + 1) % (gs[gi as int].duplicates@.len() as int + 1)) as usize)
    } else {
        (gi, a.selected_dup_idx)
    }
}

/// The selection after moving to the group's previous file: the last
/// duplicate before the original.
pub open spec fn prev_item_sel(a: App) -> (usize, usize) {
    let gs = a.report.duplicates.groups@;
    let gi = a.selected_group_idx;
    if gi < gs.len() {
        (gi, if a.selected_dup_idx == 0 {
            gs[gi as int].duplicates@.len() as usize
        } else {
            (a.selected_dup_idx - 1) as usize
        })
    } else {
        (gi, a.selected_dup_idx)
    }
}

/// `a` with the selection `sel`.
pub open spec fn with_selection(a: App, sel: (usize, usize)) -> App {
    App { selected_group_idx: sel.0, selected_dup_idx: sel.1, ..a }
}

/// Whether `b` is `a` but for its marks and status message.
pub open spec fn same_but_marks(a: App, b: App) -> bool {
    &&& b.report == a.report
    &&& b.selected_group_idx == a.selected_group_idx
    &&& b.selected_dup_idx == a.selected_dup_idx
    &&& b.focus == a.focus
    &&& b.show_help == a.show_help
    &&& b.show_confirm == a.show_confirm
    &&& b.preview_content == a.preview_content
}

/// The keys the inspector acts on when no dialog is open.
pub open spec fn bound_key(k: Key) -> bool {
    ||| k == Key::Esc || k == Key::Enter || k == Key::Tab || k == Key::Up || k == Key::Down
    ||| is_char(k, 'q') || is_char(k, '?') || is_char(k, 'k') || is_char(k, 'j')
    ||| is_char(k, 'd') || is_char(k, 'D') || is_char(k, 'l') || is_char(k, 'L')
    ||| is_char(k, 'o') || is_char(k, 'O')
}

/// A key press, as far as the inspector tells keys apart.
#[derive(Debug, Clone, Copy, PartialEq, Eq, Structural)]
pub enum Key {
    Esc,
    Enter,
    Tab,
    Up,
    Down,
    Char(char),
    Other,
}

/// What the caller does after a key press.
#[derive(Debug, Clone, Copy, PartialEq, Eq, Structural)]
pub enum KeyOutcome {
    /// Nothing more: redraw.
    Continue,
    /// The selection may have moved: read the selected file again for the preview.
    RefreshPreview,
    /// Leave the inspector.
    Quit,
    /// Carry out the marked actions (`marked_work`), then report with `execution_message`.
    ExecuteMarked,
    /// Open the selected file in the default application.
    OpenViewer,
}

/// Whether the key is the character `c`.
pub open spec fn is_char(k: Key, c: char) -> bool {
    k == Key::Char(c)
}

impl App {
    /// Everything but the messages, marks and selection is as it was.
    pub open spec fn same_frame(&self, other: App) -> bool {
        &&& self.report == other.report
        &&& self.preview_content == other.preview_content
    }

    /// Handles a key press: closes the help or confirmation dialog when one
    /// is open; else quits, opens the help, switches panes, moves the
    /// selection in the focused pane, marks the selected duplicate, opens
    /// it, or asks to confirm the marked actions.
    pub fn handle_key(&mut self, key: Key) -> (out: KeyOutcome)
        requires
            old(self).wf(),
        ensures
            final(self).wf(),
            final(self).same_frame(*old(self)),
            old(self).show_help ==> {
                let closes = key == Key::Esc || is_char(key, '?') || is_char(key, 'q') || key == Key::Enter;
                &&& out == KeyOutcome::Continue
                &&& final(self).show_help == !closes
                &&& final(self).show_confirm == old(self).show_confirm
                &&& final(self).marked_actions == old(self).marked_actions
                &&& final(self).status_message == old(self).status_message
                &&& final(self).selected_group_idx == old(self).selected_group_idx
                &&& final(self).selected_dup_idx == old(self).selected_dup_idx
                &&& final(self).focus == old(self).focus
            },
            !old(self).show_help && old(self).show_confirm ==> {
                let yes = is_char(key, 'y') || is_char(key, 'Y') || key == Key::Enter;
                let no = key == Key::Esc || is_char(key, 'n') || is_char(key, 'N') || is_char(key, 'q');
                &&& out == (if yes { KeyOutcome::ExecuteMarked } else { KeyOutcome::Continue })
                &&& final(self).show_confirm == !(yes || no)
                &&& final(self).show_help == old(self).show_help
                &&& final(self).marked_actions == old(self).marked_actions
                &&& (no ==> final(self).status_message@ == "Execution cancelled."@)
                &&& (!no ==> final(self).status_message == old(self).status_message)
                &&& final(self).selected_group_idx == old(self).selected_group_idx
                &&& final(self).selected_dup_idx == old(self).selected_dup_idx
                &&& final(self).focus == old(self).focus
            },
            !old(self).show_help && !old(self).show_confirm ==> {
                &&& (is_char(key, 'q') || key == Key::Esc) ==> out == KeyOutcome::Quit && *final(self) == *old(self)
                &&& is_char(key, '?') ==> out == KeyOutcome::Continue && *final(self) == (App {
                    show_help: true,
                    ..*old(self)
                })
                &&& key == Key::Tab ==> out == KeyOutcome::Continue && *final(self) == (App {
                    focus: if old(self).focus == FocusPane::GroupsList {
                        FocusPane::DuplicatesList
                    } else {
                        FocusPane::GroupsList
                    },
                    ..*old(self)
                })
                &&& (key == Key::Up || is_char(key, 'k')) ==> out == KeyOutcome::RefreshPreview && *final(self)
                    == with_selection(
                    *old(self),
                    if old(self).focus == FocusPane::GroupsList {
                        prev_group_sel(*old(self))
                    } else {
                        prev_item_sel(*old(self))
                    },
                )
                &&& (key == Key::Down || is_char(key, 'j')) ==> out == KeyOutcome::RefreshPreview && *final(self)
                    == with_selection(
                    *old(self),
                    if old(self).focus == FocusPane::GroupsList {
                        next_group_sel(*old(self))
                    } else {
                        next_item_sel(*old(self))
                    },
                )
                &&& (is_char(key, 'd') || is_char(key, 'D')) ==> out == KeyOutcome::Continue && mark_toggled(
                    *old(self),
                    *final(self),
                    MarkedAction::Delete,
                ) && same_but_marks(*old(self), *final(self))
                &&& (is_char(key, 'l') || is_char(key, 'L')) ==> out == KeyOutcome::Continue && mark_toggled(
                    *old(self),
                    *final(self),
                    MarkedAction::Hardlink,
                ) && same_but_marks(*old(self), *final(self))
                &&& (is_char(key, 'o') || is_char(key, 'O')) ==> out == KeyOutcome::OpenViewer && *final(self)
                    == *old(self)
                &&& key == Key::Enter ==> out == KeyOutcome::Continue && *final(self) == (App {
                    show_confirm: final(self).show_confirm,
                    status_message: final(self).status_message,
                    ..*old(self)
                }) && (old(self).marked_actions@.len()
                    > 0 ==> final(self).show_confirm && final(self).status_message == old(self).status_message) && (
                old(self).marked_actions@.len() == 0 ==> !final(self).show_confirm && final(self).status_message@
                    == "No items marked! Use [D] to mark for deletion or [L] for hardlink."@)
                &&& !bound_key(key) ==> out == KeyOutcome::Continue && *final(self) == *old(self)
            },
    {
        if self.show_help {
            match key {
                Key::Esc | Key::Char('?') | Key::Char('q') | Key::Enter => {
                    self.show_help = false;
                },
                _ => {},
            }
            return KeyOutcome::Continue;
        }
        if self.show_confirm {
            match key {
                Key::Char('y') | Key::Char('Y') | Key::Enter => {
                    self.show_confirm = false;
                    return KeyOutcome::ExecuteMarked;
                },
                Key::Esc | Key::Char('n') | Key::Char('N') | Key::Char('q') => {
                    self.show_confirm = false;
                    self.status_message = string_from_str("Execution cancelled.");
                },
                _ => {},
            }
            return KeyOutcome::Continue;
        }
        match key {
            Key::Char('q') | Key::Esc => KeyOutcome::Quit,
            Key::Char('?') => {
                self.show_help = true;
                KeyOutcome::Continue
            },
            Key::Tab => {
                self.focus = match self.focus {
                    FocusPane::GroupsList => FocusPane::DuplicatesList,
                    FocusPane::DuplicatesList => FocusPane::GroupsList,
                };
                KeyOutcome::Continue
            },
            Key::Up | Key::Char('k') => {
                match self.focus {
                    FocusPane::GroupsList => self.prev_group(),
                    FocusPane::DuplicatesList => self.prev_item(),
                }
                KeyOutcome::RefreshPreview
            },
            Key::Down | Key::Char('j') => {
                match self.focus {
                    FocusPane::GroupsList => self.next_group(),
                    FocusPane::DuplicatesList => self.next_item(),
                }
                KeyOutcome::RefreshPreview
            },
            Key::Char('d') | Key::Char('D') => {
                self.toggle_mark(MarkedAction::Delete);
                KeyOutcome::Continue
            },
            Key::Char('l') | Key::Char('L') => {
                self.toggle_mark(MarkedAction::Hardlink);
                KeyOutcome::Continue
            },
            Key::Char('o') | Key::Char('O') => KeyOutcome::OpenViewer,
            Key::Enter => {
                if self.marked_actions.len() > 0 {
                    self.show_confirm = true;
                } else {
                    self.status_message = string_from_str(
                        "No items marked! Use [D] to mark for deletion or [L] for hardlink.",
                    );
                }
                KeyOutcome::Continue
            },
            _ => KeyOutcome::Continue,
        }
    }
}

/// The text of bytes that are valid UTF-8 (`std::str::from_utf8`), or
/// `None` when they are not.
pub uninterp spec fn utf8_text(bytes: Seq<u8>) -> Option<Seq<char>>;

/// `std::str::from_utf8`. Claimed: the result is the named `utf8_text` of
/// the bytes (the decoding rules are not restated here).
#[verifier::external_body]
fn utf8_decode(bytes: &Vec<u8>) -> (r: Option<String>)
    ensures
        crate::cache::opt_view(r) == utf8_text(bytes@),
{
    match std::str::from_utf8(bytes.as_slice()) {
        Ok(t) => Some(t.to_string()),
        Err(_) => None,
    }
}

/// What was read of the selected file for the preview.
pub enum PreviewProbe {
    /// No file is selected.
    NoSelection,
    /// The selected path does not exist.
    Missing(String),
    /// The file could not be opened: the error's message.
    OpenFailed(String),
    /// The file could not be read: the error's message.
    ReadFailed(String),
    /// The first bytes of the file (up to 1024).
    Read(Vec<u8>),
}

/// A lower-case hexadecimal digit.
pub open spec fn hex_char(d: nat) -> char {
    if d < 10 {
        crate::text::digit_char(d)
    } else {
        ((d - 10 + 97) as u32) as char
    }
}

/// A byte as two hexadecimal digits (`{:02x}`).
pub open spec fn hex2(b: u8) -> Seq<char> {
    seq![hex_char((b / 16) as nat), hex_char((b % 16) as nat)]
}

/// An offset below 65536 as four hexadecimal digits (`{:04x}`).
pub open spec fn hex4(n: nat) -> Seq<char> {
    seq![hex_char((n / 4096) % 16), hex_char((n / 256) % 16), hex_char((n / 16) % 16), hex_char(n % 16)]
}

/// The bytes in hexadecimal, separated by spaces.
pub open spec fn hex_bytes(c: Seq<u8>) -> Seq<char>
    decreases c.len(),
{
    if c.len() == 0 {
        Seq::empty()
    } else if c.len() == 1 {
        hex2(c[0])
    } else {
        hex_bytes(c.drop_last()) + seq![' '] + hex2(c.last())
    }
}

/// A byte as the preview shows it: printable ASCII and space as themselves, else `.`.
pub open spec fn shown_byte(b: u8) -> char {
    if 0x20 <= b <= 0x7e {
        (b as u32) as char
    } else {
        '.'
    }
}

/// The bytes as the preview shows them.
pub open spec fn shown_bytes(c: Seq<u8>) -> Seq<char> {
    c.map_values(|b: u8| shown_byte(b))
}

/// `s` left-aligned in a field of `w` characters (`{:<w}`).
pub open spec fn pad_right(s: Seq<char>, w: nat) -> Seq<char> {
    if s.len() < w {
        s + Seq::new((w - s.len()) as nat, |i: int| ' ')
    } else {
        s
    }
}

/// The preview line of the chunk of 16 bytes starting at `offset`.
pub open spec fn hex_line(offset: nat, c: Seq<u8>) -> Seq<char> {
    hex4(offset) + ": "@ + pad_right(hex_bytes(c), 48) + " |"@ + shown_bytes(c) + "|"@
}

/// The lines of a hex dump of `data`, 16 bytes per line, the first `n` lines.
pub open spec fn hex_lines(data: Seq<u8>, n: nat) -> Seq<Seq<char>>
    decreases n,
{
    if n == 0 {
        Seq::empty()
    } else {
        let i = (n - 1) as nat;
        let end: int = if (i + 1) * 16 <= data.len() { ((i + 1) * 16) as int } else { data.len() as int };
        hex_lines(data, i).push(hex_line(i * 16, data.subrange((i * 16) as int, end)))
    }
}

/// The number of 16-byte lines needed for `len` bytes.
pub open spec fn line_count(len: nat) -> nat {
    (len + 15) / 16
}

/// The preview of the first bytes of a file: a note for an empty file; the
/// first 20 lines of text; or, for bytes that are not text, a hex dump of
/// at most the first 256 bytes.
pub open spec fn bytes_preview(bytes: Seq<u8>) -> Seq<char> {
    if bytes.len() == 0 {
        "[Empty 0-byte file]"@
    } else {
        match utf8_text(bytes) {
            Some(t) => crate::report::joined(lines_of(t).take(if lines_of(t).len() < 20 {
                lines_of(t).len() as int
            } else {
                20
            }), seq!['\n']),
            None => {
                let data = bytes.take(if bytes.len() < 256 { bytes.len() as int } else { 256 });
                "[Binary File - Hex Preview]\n"@ + crate::report::joined(
                    hex_lines(data, line_count(data.len())),
                    seq!['\n'],
                )
            },
        }
    }
}

/// What the preview pane shows for a probe.
pub open spec fn preview_spec(p: PreviewProbe) -> Seq<char> {
    match p {
        PreviewProbe::NoSelection => "No file selected."@,
        PreviewProbe::Missing(path) => "File does not exist: "@ + path@,
        PreviewProbe::OpenFailed(e) => "Could not open file: "@ + e@,
        PreviewProbe::ReadFailed(e) => "Error reading file: "@ + e@,
        PreviewProbe::Read(b) => bytes_preview(b@),
    }
}

/// A hexadecimal digit.
fn hex_digit(d: u8) -> (c: char)
    requires
        d < 16,
    ensures
        c == hex_char(d as nat),
{
    if d < 10 {
        crate::text::char_from_ascii((d as u32) + 48)
    } else {
        crate::text::char_from_ascii((d as u32) - 10 + 97)
    }
}

/// The preview line of a chunk.
fn hex_line_text(offset: usize, c: &Vec<u8>) -> (t: String)
    requires
        offset < 65536,
        c@.len() <= 16,
    ensures
        t@ == hex_line(offset as nat, c@),
{
    let mut t = String::new();
    let o = offset as u32;
    push_char(&mut t, hex_digit(((o / 4096) % 16) as u8));
    assert(t@ =~= seq![hex_char((offset as nat / 4096) % 16)]);
    push_char(&mut t, hex_digit(((o / 256) % 16) as u8));
    push_char(&mut t, hex_digit(((o / 16) % 16) as u8));
    push_char(&mut t, hex_digit((o % 16) as u8));
    assert(t@ =~= hex4(offset as nat));
    push_str(&mut t, ": ");
    let mut hb = String::new();
    let mut i: usize = 0;
    while i < c.len()
        invariant
            i <= c@.len(),
            c@.len() <= 16,
            hb@ == hex_bytes(c@.take(i as int)),
            hb@.len() == (if i == 0 { 0 } else { 3 * i - 1 }),
        decreases c@.len() - i,
    {
        let ghost before = hb@;
        if i > 0 {
            push_char(&mut hb, ' ');
        }
        push_char(&mut hb, hex_digit(c[i] / 16));
        push_char(&mut hb, hex_digit(c[i] % 16));
        proof {
            assert(c@.take(i + 1).drop_last() =~= c@.take(i as int));
            assert(c@.take(i + 1).last() == c@[i as int]);
            if i == 0 {
                assert(c@.take(1).len() == 1);
                assert(hb@ =~= hex2(c@[0]));
            } else {
                assert(hb@ =~= before + seq![' '] + hex2(c@[i as int]));
            }
        }
        i = i + 1;
    }
    assert(c@.take(c@.len() as int) =~= c@);
    let ghost hbv = hb@;
    let mut k: usize = if c.len() == 0 { 0 } else { 3 * c.len() - 1 };
    while k < 48
        invariant
            hbv.len() <= 48,
            hbv.len() <= k <= 48,
            hb@ == hbv + Seq::new((k - hbv.len()) as nat, |j: int| ' '),
        decreases 48 - k,
    {
        push_char(&mut hb, ' ');
        k = k + 1;
        assert(hb@ =~= hbv + Seq::new((k - hbv.len()) as nat, |j: int| ' '));
    }
    assert(hb@ =~= pad_right(hbv, 48));
    push_str(&mut t, hb.as_str());
    push_str(&mut t, " |");
    let ghost tb = t@;
    let mut j: usize = 0;
    while j < c.len()
        invariant
            j <= c@.len(),
            t@ == tb + shown_bytes(c@.take(j as int)),
        decreases c@.len() - j,
    {
        let b = c[j];
        let ch = if b >= 0x20 && b <= 0x7e { crate::text::char_from_ascii(b as u32) } else { '.' };
        push_char(&mut t, ch);
        j = j + 1;
        assert(shown_bytes(c@.take(j as int)) =~= shown_bytes(c@.take(j - 1)).push(shown_byte(c@[j - 1])));
    }
    assert(c@.take(c@.len() as int) =~= c@);
    push_str(&mut t, "|");
    t
}

/// The preview of the first bytes of a file.
pub fn bytes_preview_text(bytes: &Vec<u8>) -> (t: String)
    ensures
        t@ == bytes_preview(bytes@),
{
    if bytes.len() == 0 {
        return string_from_str("[Empty 0-byte file]");
    }
    match utf8_decode(bytes) {
        Some(text) => {
            let cs = crate::text::to_chars(text.as_str());
            let lines = lines_chars(&cs);
            let n = if lines.len() < 20 { lines.len() } else { 20 };
            let ghost ls = lines_of(text@);
            let mut out = String::new();
            let mut i: usize = 0;
            while i < n
                invariant
                    i <= n <= lines@.len(),
                    n == (if lines@.len() < 20 { lines@.len() } else { 20 }),
                    lines@.len() == ls.len(),
                    forall|j: int| 0 <= j < lines@.len() ==> (#[trigger] lines@[j])@ == ls[j],
                    out@ == crate::report::joined(ls.take(i as int), seq!['\n']),
                decreases n - i,
            {
                if i > 0 {
                    push_char(&mut out, '\n');
                }
                push_chars(&mut out, &lines[i]);
                proof {
                    assert(ls.take(i + 1).drop_last() =~= ls.take(i as int));
                    assert(ls.take(i + 1).last() == ls[i as int]);
                    if i == 0 {
                        assert(ls.take(1).len() == 1);
                    }
                }
                i = i + 1;
            }
            out
        },
        None => {
            let len = if bytes.len() < 256 { bytes.len() } else { 256 };
            let ghost data = bytes@.take(len as int);
            let nl = (len + 15) / 16;
            let mut out = string_from_str("[Binary File - Hex Preview]\n");
            let ghost head = out@;
            let mut i: usize = 0;
            while i < nl
                invariant
                    i <= nl,
                    nl == line_count(len as nat),
                    len <= 256,
                    len <= bytes@.len(),
                    data == bytes@.take(len as int),
                    out@ == head + crate::report::joined(hex_lines(data, i as nat), seq!['\n']),
                decreases nl - i,
            {
                let start = i * 16;
                let end = if (i + 1) * 16 <= len { (i + 1) * 16 } else { len };
                let mut chunk: Vec<u8> = Vec::new();
                let mut j: usize = start;
                while j < end
                    invariant
                        start <= j <= end <= len <= bytes@.len(),
                        chunk@ == bytes@.subrange(start as int, j as int),
                    decreases end - j,
                {
                    chunk.push(bytes[j]);
                    j = j + 1;
                    assert(chunk@ =~= bytes@.subrange(start as int, j as int));
                }
                assert(chunk@ =~= data.subrange(start as int, end as int));
                let line = hex_line_text(start, &chunk);
                if i > 0 {
                    push_char(&mut out, '\n');
                }
                push_str(&mut out, line.as_str());
                proof {
                    let hl = hex_lines(data, (i + 1) as nat);
                    assert(hl.drop_last() =~= hex_lines(data, i as nat));
                    if i == 0 {
                        assert(hex_lines(data, 0) =~= Seq::<Seq<char>>::empty());
                        assert(hl.len() == 1);
                    }
                }
                i = i + 1;
            }
            out
        },
    }
}

/// What the preview pane shows for a probe.
pub fn preview_text(probe: &PreviewProbe) -> (t: String)
    ensures
        t@ == preview_spec(*probe),
{
    match probe {
        PreviewProbe::NoSelection => string_from_str("No file selected."),
        PreviewProbe::Missing(path) => {
            let mut m = string_from_str("File does not exist: ");
            push_str(&mut m, path.as_str());
            m
        },
        PreviewProbe::OpenFailed(e) => {
            let mut m = string_from_str("Could not open file: ");
            push_str(&mut m, e.as_str());
            m
        },
        PreviewProbe::ReadFailed(e) => {
            let mut m = string_from_str("Error reading file: ");
            push_str(&mut m, e.as_str());
            m
        },
        PreviewProbe::Read(b) => bytes_preview_text(b),
    }
}

impl App {
    /// Shows the preview of what was read of the selected file.
    pub fn set_preview(&mut self, probe: &PreviewProbe)
        ensures
            final(self).preview_content@ == preview_spec(*probe),
            final(self).report == old(self).report,
            final(self).selected_group_idx == old(self).selected_group_idx,
            final(self).selected_dup_idx == old(self).selected_dup_idx,
            final(self).marked_actions == old(self).marked_actions,
            final(self).status_message == old(self).status_message,
    {
        self.preview_content = preview_text(probe);
    }
}

/// A marked duplicate to act on: its path and size, its group's original,
/// what it is marked for, and the modification time, device and inode the
/// scan recorded of it.
pub struct MarkedWork {
    pub path: String,
    pub size: u64,
    pub original: String,
    pub action: MarkedAction,
    pub mtime: i128,
    pub dev: u64,
    pub ino: u64,
}

/// A marked duplicate, its texts by their characters.
pub open spec fn work_view(w: MarkedWork) -> (Seq<char>, u64, Seq<char>, MarkedAction, (i128, u64, u64)) {
    (w.path@, w.size, w.original@, w.action, (w.mtime, w.dev, w.ino))
}

/// The marked duplicates among `ds` (of the original `orig`), in order.
pub open spec fn dup_work(
    ds: Seq<crate::types::FileEntry>,
    orig: Seq<char>,
    marks: Seq<(String, MarkedAction)>,
) -> Seq<(Seq<char>, u64, Seq<char>, MarkedAction, (i128, u64, u64))>
    decreases ds.len(),
{
    if ds.len() == 0 {
        Seq::empty()
    } else {
        let k = dup_work(ds.drop_last(), orig, marks);
        match mark_of(marks, ds.last().path@) {
            Some(a) => k.push((ds.last().path@, ds.last().size, orig, a, (ds.last().mtime, ds.last().dev, ds.last().ino))),
            None => k,
        }
    }
}

/// The marked duplicates of every group, group by group.
pub open spec fn marked_list(
    gs: Seq<DuplicateGroup>,
    marks: Seq<(String, MarkedAction)>,
) -> Seq<(Seq<char>, u64, Seq<char>, MarkedAction, (i128, u64, u64))>
    decreases gs.len(),
{
    if gs.len() == 0 {
        Seq::empty()
    } else {
        marked_list(gs.drop_last(), marks) + dup_work(gs.last().duplicates@, gs.last().original.path@, marks)
    }
}

impl App {
    /// The marked duplicates, in the report's order, to be acted on.
    pub fn marked_work(&self) -> (r: Vec<MarkedWork>)
        requires
            self.wf(),
        ensures
            r@.map_values(|w: MarkedWork| work_view(w)) == marked_list(
                self.report.duplicates.groups@,
                self.marked_actions@,
            ),
    {
        let gs = &self.report.duplicates.groups;
        let mut r: Vec<MarkedWork> = Vec::new();
        let mut g: usize = 0;
        while g < gs.len()
            invariant
                g <= gs@.len(),
                gs@ == self.report.duplicates.groups@,
                self.wf(),
                r@.map_values(|w: MarkedWork| work_view(w)) == marked_list(gs@.take(g as int), self.marked_actions@),
            decreases gs@.len() - g,
        {
            let group = &gs[g];
            let ghost base = r@.map_values(|w: MarkedWork| work_view(w));
            let mut d: usize = 0;
            while d < group.duplicates.len()
                invariant
                    d <= group.duplicates@.len(),
                    self.wf(),
                    r@.map_values(|w: MarkedWork| work_view(w)) == base + dup_work(
                        group.duplicates@.take(d as int),
                        group.original.path@,
                        self.marked_actions@,
                    ),
                decreases group.duplicates@.len() - d,
            {
                let dup = &group.duplicates[d];
                let ghost before = r@;
                match self.marked(dup.path.as_str()) {
                    Some(a) => {
                        r.push(
                            MarkedWork {
                                path: dup.path.clone(),
                                size: dup.size,
                                original: group.original.path.clone(),
                                action: a,
                                mtime: dup.mtime,
                                dev: dup.dev,
                                ino: dup.ino,
                            },
                        );
                        assert(r@.map_values(|w: MarkedWork| work_view(w)) =~= before.map_values(
                            |w: MarkedWork| work_view(w),
                        ).push((dup.path@, dup.size, group.original.path@, a, (dup.mtime, dup.dev, dup.ino))));
                    },
                    None => {},
                }
                proof {
                    let ds = group.duplicates@;
                    assert(ds.take(d + 1).drop_last() =~= ds.take(d as int));
                    assert(ds.take(d + 1).last() == ds[d as int]);
                }
                d = d + 1;
            }
            proof {
                assert(group.duplicates@.take(d as int) =~= group.duplicates@);
                assert(gs@.take(g + 1).drop_last() =~= gs@.take(g as int));
                assert(gs@.take(g + 1).last() == gs@[g as int]);
            }
            g = g + 1;
        }
        assert(gs@.take(g as int) =~= gs@);
        r
    }
}

/// What carrying out the marked work came to, given which items succeeded:
/// (files trashed, files hardlinked, bytes saved).
pub open spec fn work_tally(work: Seq<MarkedWork>, ok: Seq<bool>) -> (int, int, int)
    decreases work.len(),
{
    if work.len() == 0 || ok.len() == 0 {
        (0, 0, 0)
    } else {
        let t = work_tally(work.drop_last(), ok.drop_last());
        let w = work.last();
        if ok.last() {
            match w.action {
                MarkedAction::Delete => (t.0 + 1, t.1, t.2 + w.size),
                MarkedAction::Hardlink => (t.0, t.1 + 1, t.2 + w.size),
            }
        } else {
            t
        }
    }
}

proof fn lemma_tally_grows(work: Seq<MarkedWork>, ok: Seq<bool>, j: int)
    requires
        work.len() == ok.len(),
        0 <= j <= work.len(),
    ensures
        0 <= work_tally(work.take(j), ok.take(j)).0 <= j,
        0 <= work_tally(work.take(j), ok.take(j)).1 <= j,
        0 <= work_tally(work.take(j), ok.take(j)).2 <= work_tally(work, ok).2,
    decreases work.len(),
{
    if j < work.len() {
        lemma_tally_grows(work.drop_last(), ok.drop_last(), j);
        assert(work.drop_last().take(j) =~= work.take(j));
        assert(ok.drop_last().take(j) =~= ok.take(j));
    } else {
        assert(work.take(j) =~= work);
        assert(ok.take(j) =~= ok);
        if j > 0 {
            lemma_tally_grows(work.drop_last(), ok.drop_last(), j - 1);
            assert(work.drop_last().take(j - 1) =~= work.drop_last());
            assert(ok.drop_last().take(j - 1) =~= ok.drop_last());
        }
    }
}

/// Counts the marked work that succeeded (`ok[i]` for `work[i]`): the files
/// trashed, the files hardlinked and the bytes they saved; `None` when the
/// bytes do not fit in a `u64`.
pub fn tally_marked(work: &Vec<MarkedWork>, ok: &Vec<bool>) -> (r: Option<(u64, u64, u64)>)
    requires
        work@.len() == ok@.len(),
    ensures
        match r {
            Some(t) => (t.0 as int, t.1 as int, t.2 as int) == work_tally(work@, ok@),
            None => work_tally(work@, ok@).2 > u64::MAX,
        },
{
    let mut deleted: u64 = 0;
    let mut linked: u64 = 0;
    let mut bytes: u64 = 0;
    let mut i: usize = 0;
    while i < work.len()
        invariant
            i <= work@.len(),
            work@.len() == ok@.len(),
            (deleted as int, linked as int, bytes as int) == work_tally(work@.take(i as int), ok@.take(i as int)),
        decreases work@.len() - i,
    {
        proof {
            lemma_tally_grows(work@, ok@, i as int);
            lemma_tally_grows(work@, ok@, i + 1);
            assert(work@.take(i + 1).drop_last() =~= work@.take(i as int));
            assert(ok@.take(i + 1).drop_last() =~= ok@.take(i as int));
            assert(work@.take(i + 1).last() == work@[i as int]);
            assert(ok@.take(i + 1).last() == ok@[i as int]);
        }
        if ok[i] {
            let size = work[i].size;
            if bytes > u64::MAX - size {
                return None;
            }
            bytes = bytes + size;
            match work[i].action {
                MarkedAction::Delete => {
                    deleted = deleted + 1;
                },
                MarkedAction::Hardlink => {
                    linked = linked + 1;
                },
            }
        }
        i = i + 1;
    }
    proof {
        assert(work@.take(i as int) =~= work@);
        assert(ok@.take(i as int) =~= ok@);
    }
    Some((deleted, linked, bytes))
}

/// The status line after the marked actions were carried out.
pub open spec fn execution_message_spec(deleted: nat, linked: nat, bytes: nat) -> Seq<char> {
    "Success! Trashed "@ + crate::text::decimal(deleted) + " files, Hardlinked "@ + crate::text::decimal(linked)
        + " files. Reclaimed "@ + crate::cli::bytes_text2(bytes) + "."@
}

/// The status line after the marked actions were carried out.
pub fn execution_message(deleted: u64, linked: u64, bytes: u64) -> (m: String)
    ensures
        m@ == execution_message_spec(deleted as nat, linked as nat, bytes as nat),
{
    let mut m = string_from_str("Success! Trashed ");
    push_str(&mut m, crate::text::u64_to_string(deleted).as_str());
    push_str(&mut m, " files, Hardlinked ");
    push_str(&mut m, crate::text::u64_to_string(linked).as_str());
    push_str(&mut m, " files. Reclaimed ");
    push_str(&mut m, crate::cli::format_bytes(bytes).as_str());
    push_str(&mut m, ".");
    m
}

/// The position after `i` among `n`, wrapping around.
pub open spec fn next_index(i: int, n: int) -> int {
    (i + 1) % n
}

/// The position before `i` among `n`, wrapping around.
pub open spec fn prev_index(i: int, n: int) -> int {
    if i == 0 {
        n - 1
    } else {
        i - 1
    }
}

/// Moving forward then back (or back then forward) returns to the same
/// group, or the same file of a group.
pub proof fn law_next_prev_inverse(i: int, n: int)
    requires
        0 <= i < n,
    ensures
        prev_index(next_index(i, n), n) == i,
        next_index(prev_index(i, n), n) == i,
{
    if i + 1 < n {
        vstd::arithmetic::div_mod::lemma_small_mod((i + 1) as nat, n as nat);
    } else {
        vstd::arithmetic::div_mod::lemma_mod_self_0(n);
    }
    if i > 0 {
        vstd::arithmetic::div_mod::lemma_small_mod(i as nat, n as nat);
    } else {
        vstd::arithmetic::div_mod::lemma_mod_self_0(n);
    }
}

/// A mark after toggling `a`: cleared when it was `a`, else `a`.
pub open spec fn toggled(x: Option<MarkedAction>, a: MarkedAction) -> Option<MarkedAction> {
    if x == Some(a) {
        None
    } else {
        Some(a)
    }
}

/// Toggling the same mark twice restores the duplicate's mark, except that
/// a mark for the other action is dropped.
pub proof fn law_toggle_twice(x: Option<MarkedAction>, a: MarkedAction)
    ensures
        toggled(toggled(x, a), a) == (if x is Some && x != Some(a) {
            None
        } else {
            x
        }),
{
}

/// The header line of the inspector.
pub open spec fn header_spec(app: App) -> Seq<char> {
    " 🔍 dupfinder TUI Inspector  │  Groups: "@ + crate::text::decimal(app.report.duplicates.total_groups as nat)
        + "  │  Wasted Space: "@ + crate::cli::bytes_text2(app.report.duplicates.reclaimable_bytes as nat)
        + "  │  Marked: "@ + crate::text::decimal(app.marked_actions@.len())
}

/// A number of at least two digits, zero-padded (`{:02}`).
pub open spec fn two_digits(n: nat) -> Seq<char> {
    if n < 10 {
        seq!['0'] + crate::text::decimal(n)
    } else {
        crate::text::decimal(n)
    }
}

/// The line of the groups pane for the group at `idx`, in its three styled
/// parts: its number, its original's file name padded to 20 characters, and
/// its copies and size.
pub open spec fn group_label_spec(idx: nat, g: DuplicateGroup) -> (Seq<char>, Seq<char>, Seq<char>) {
    (
        "#"@ + two_digits(idx + 1) + " "@,
        pad_right(
            match crate::paths::file_name_of(g.original.path@) {
                Some(n) => n,
                None => Seq::empty(),
            },
            20,
        ) + " "@,
        "("@ + crate::text::decimal(g.duplicates@.len() + 1) + " copies, "@ + crate::cli::bytes_text2(g.size as nat)
            + ")"@,
    )
}

/// The badge shown before a duplicate: its mark, or that it is kept.
pub open spec fn badge_spec(m: Option<MarkedAction>) -> Seq<char> {
    match m {
        Some(MarkedAction::Delete) => " [DELETE]   "@,
        Some(MarkedAction::Hardlink) => " [HARDLINK] "@,
        None => " [KEEP]     "@,
    }
}

/// The title of the files pane: the first eight bytes of the group's hash.
pub open spec fn files_title_spec(g: DuplicateGroup) -> Seq<char> {
    " Group Files (Hash: "@ + crate::report::byte_prefix(g.hash@, 8) + "...) "@
}

/// The footer line: the key bindings and the status message.
pub open spec fn footer_spec(app: App) -> Seq<char> {
    " [↑/↓/j/k] Navigate  [Tab] Pane  [D] Mark Delete  [L] Mark Hardlink  [O] Open Viewer  [Enter] Apply  [?] Help  [q] Quit │ "@
        + app.status_message@
}

/// The count line of the confirmation dialog.
pub open spec fn confirm_count_spec(n: nat) -> Seq<char> {
    "You have marked "@ + crate::text::decimal(n) + " file(s) for remediation."@
}

/// Appends `t` padded with spaces to `w` characters.
fn push_padded(s: &mut String, t: &Vec<char>, w: usize)
    ensures
        final(s)@ == old(s)@ + pad_right(t@, w as nat),
{
    push_chars(s, t);
    let ghost base = old(s)@ + t@;
    let mut k: usize = t.len();
    while k < w
        invariant
            t@.len() <= k <= w || (k == t@.len() && k >= w),
            t@.len() < w ==> t@.len() <= k <= w,
            s@ == base + Seq::new((k - t@.len()) as nat, |j: int| ' '),
        decreases w - k,
    {
        push_char(s, ' ');
        k = k + 1;
        assert(s@ =~= base + Seq::new((k - t@.len()) as nat, |j: int| ' '));
    }
    assert(s@ =~= old(s)@ + pad_right(t@, w as nat));
}

impl App {
    /// The header line of the inspector.
    pub fn header_text(&self) -> (t: String)
        ensures
            t@ == header_spec(*self),
    {
        let mut t = string_from_str(" 🔍 dupfinder TUI Inspector  │  Groups: ");
        push_str(&mut t, crate::text::u64_to_string(self.report.duplicates.total_groups as u64).as_str());
        push_str(&mut t, "  │  Wasted Space: ");
        push_str(&mut t, crate::cli::format_bytes(self.report.duplicates.reclaimable_bytes).as_str());
        push_str(&mut t, "  │  Marked: ");
        push_str(&mut t, crate::text::u64_to_string(self.marked_actions.len() as u64).as_str());
        t
    }

    /// The footer line: the key bindings and the status message.
    pub fn footer_text(&self) -> (t: String)
        ensures
            t@ == footer_spec(*self),
    {
        let mut t = string_from_str(
            " [↑/↓/j/k] Navigate  [Tab] Pane  [D] Mark Delete  [L] Mark Hardlink  [O] Open Viewer  [Enter] Apply  [?] Help  [q] Quit │ ",
        );
        push_str(&mut t, self.status_message.as_str());
        t
    }
}

/// The line of the groups pane for the group at `idx`, in its parts.
pub fn group_label(idx: usize, g: &DuplicateGroup) -> (t: (String, String, String))
    requires
        idx < usize::MAX,
        g.duplicates@.len() < u64::MAX,
    ensures
        (t.0@, t.1@, t.2@) == group_label_spec(idx as nat, *g),
{
    let mut a = string_from_str("#");
    let n: u64 = idx as u64 + 1;
    if n < 10 {
        push_char(&mut a, '0');
    }
    push_str(&mut a, crate::text::u64_to_string(n).as_str());
    push_str(&mut a, " ");
    let name: Vec<char> = match crate::paths::file_name_chars(g.original.path.as_str()) {
        Some(c) => c,
        None => Vec::new(),
    };
    let mut b = String::new();
    push_padded(&mut b, &name, 20);
    push_str(&mut b, " ");
    let mut c = string_from_str("(");
    push_str(&mut c, crate::text::u64_to_string(g.duplicates.len() as u64 + 1).as_str());
    push_str(&mut c, " copies, ");
    push_str(&mut c, crate::cli::format_bytes(g.size).as_str());
    push_str(&mut c, ")");
    proof {
        assert(name@ == match crate::paths::file_name_of(g.original.path@) {
            Some(n) => n,
            None => Seq::<char>::empty(),
        });
    }
    assert(a@ =~= group_label_spec(idx as nat, *g).0);
    assert(b@ =~= group_label_spec(idx as nat, *g).1);
    assert(c@ =~= group_label_spec(idx as nat, *g).2);
    (a, b, c)
}

/// The badge shown before a duplicate.
pub fn badge(m: Option<MarkedAction>) -> (t: &'static str)
    ensures
        t@ == badge_spec(m),
{
    match m {
        Some(MarkedAction::Delete) => " [DELETE]   ",
        Some(MarkedAction::Hardlink) => " [HARDLINK] ",
        None => " [KEEP]     ",
    }
}

/// The title of the files pane.
pub fn files_title(g: &DuplicateGroup) -> (t: String)
    requires
        crate::report::byte_prefix_ok(g.hash@, 8),
    ensures
        t@ == files_title_spec(*g),
{
    let mut t = string_from_str(" Group Files (Hash: ");
    push_str(&mut t, crate::report::byte_prefix_text(g.hash.as_str(), 8).as_str());
    push_str(&mut t, "...) ");
    t
}

/// The count line of the confirmation dialog.
pub fn confirm_count_text(n: usize) -> (t: String)
    ensures
        t@ == confirm_count_spec(n as nat),
{
    let mut t = string_from_str("You have marked ");
    push_str(&mut t, crate::text::u64_to_string(n as u64).as_str());
    push_str(&mut t, " file(s) for remediation.");
    t
}

} // verus!
