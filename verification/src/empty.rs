//! Empty file and empty directory detection.

use vstd::prelude::*;
use crate::grouping::{is_stable_order, key_before, stable_order};
use crate::paths::{
    clean_parts, depth_of, is_rooted, lemma_norm_of_injective, lemma_path_parts_clean, norm_of, normalize,
    normalized, path_depth, path_parts, path_parts_exec,
};
use crate::progress::ProgressHandler;
use crate::strmap::{str_index_get, str_index_insert, str_index_new, str_index_view, StrIndex};
use crate::text::{decimal, push_char, push_chars, push_str, string_from_str, u64_to_string};
use crate::types::{FileEntry, ScanPhase};

verus! {

/// The paths of the empty (0-byte) files among `files`, in order.
pub open spec fn empty_file_paths(files: Seq<FileEntry>) -> Seq<Seq<char>>
    decreases files.len(),
{
    if files.len() == 0 {
        Seq::empty()
    } else {
        let k = empty_file_paths(files.drop_last());
        if files.last().size == 0 {
            k.push(files.last().path@)
        } else {
            k
        }
    }
}

/// A count message: `before`, the number in decimal, then `after`.
pub fn count_message(before: &str, n: u64, after: &str) -> (r: String)
    ensures
        r@ == before@ + decimal(n as nat) + after@,
{
    let mut m = string_from_str(before);
    let d = u64_to_string(n);
    push_str(&mut m, d.as_str());
    push_str(&mut m, after);
    m
}

/// Find all empty (0-byte) files from the scanned file list.
pub fn find_empty_files(files: &Vec<FileEntry>, progress: &dyn ProgressHandler) -> (r: Vec<String>)
    ensures
        r@.len() == empty_file_paths(files@).len(),
        forall|i: int| 0 <= i < r@.len() ==> (#[trigger] r@[i])@ == empty_file_paths(files@)[i],
{
    progress.on_phase_start(ScanPhase::EmptyFileDetection, Some(files.len() as u64));
    let mut empty: Vec<String> = Vec::new();
    let mut i: usize = 0;
    while i < files.len()
        invariant
            i <= files@.len(),
            empty@.len() == empty_file_paths(files@.take(i as int)).len(),
            forall|k: int| 0 <= k < empty@.len() ==> (#[trigger] empty@[k])@ == empty_file_paths(files@.take(i as int))[k],
        decreases files@.len() - i,
    {
        assert(files@.take(i + 1).drop_last() =~= files@.take(i as int));
        if files[i].size == 0 {
            empty.push(files[i].path.clone());
        }
        i = i + 1;
    }
    assert(files@.take(i as int) =~= files@);
    let msg = count_message("Found ", empty.len() as u64, " empty files");
    progress.on_progress(ScanPhase::EmptyFileDetection, empty.len() as u64, msg.as_str());
    progress.on_phase_end(ScanPhase::EmptyFileDetection);
    empty
}

/// Whether `d` is a proper ancestor of the path `f` (`f.parent()`, its
/// parent, and so on): both rooted or both not, and the components of `d`
/// a proper prefix of those of `f`.
pub open spec fn is_proper_ancestor(d: Seq<char>, f: Seq<char>) -> bool {
    &&& is_rooted(d) == is_rooted(f)
    &&& path_parts(d).len() < path_parts(f).len()
    &&& path_parts(f).take(path_parts(d).len() as int) == path_parts(d)
}

/// Whether some file lies (at any depth) under the directory `d`.
pub open spec fn holds_file(files: Seq<FileEntry>, d: Seq<char>) -> bool {
    exists|i: int| 0 <= i < files.len() && is_proper_ancestor(d, #[trigger] files[i].path@)
}

/// The directories, in order, under which no file lies.
pub open spec fn unheld_dirs(dirs: Seq<String>, files: Seq<FileEntry>) -> Seq<Seq<char>>
    decreases dirs.len(),
{
    if dirs.len() == 0 {
        Seq::empty()
    } else {
        let k = unheld_dirs(dirs.drop_last(), files);
        if holds_file(files, dirs.last()@) {
            k
        } else {
            k.push(dirs.last()@)
        }
    }
}

/// Whether `order` lists the positions of `e` deepest path first, keeping
/// the given order among paths of equal depth (a stable sort).
pub open spec fn deepest_first(e: Seq<Seq<char>>, order: Seq<int>) -> bool {
    &&& order.len() == e.len()
    &&& forall|a: int| 0 <= a < order.len() ==> 0 <= #[trigger] order[a] < e.len()
    &&& forall|a: int, b: int|
        0 <= a < b < order.len() ==> depth_of(e[#[trigger] order[a]]) > depth_of(e[#[trigger] order[b]]) || (
        depth_of(e[order[a]]) == depth_of(e[order[b]]) && order[a] < order[b])
    &&& forall|k: int| 0 <= k < e.len() ==> #[trigger] order.contains(k)
}

/// The normal form of the `k`-th ancestor key of file `i`: its first `k`
/// components, rooted as the file is.
pub open spec fn ancestor_key(files: Seq<FileEntry>, i: int, k: int) -> Seq<char> {
    norm_of(is_rooted(files[i].path@), path_parts(files[i].path@).take(k))
}

/// Whether `key` is an ancestor key of one of the first `i` files, or one
/// of the first `k` of file `i`.
pub open spec fn marked_upto(files: Seq<FileEntry>, i: int, k: int, key: Seq<char>) -> bool {
    exists|ii: int, kk: int|
        0 <= ii < files.len() && 0 <= kk && ((ii < i && kk < path_parts(files[ii].path@).len()) || (ii == i
            && kk < k)) && key == #[trigger] ancestor_key(files, ii, kk)
}

/// A directory is under a file's path exactly when its normal form is one
/// of the file's ancestor keys.
proof fn lemma_ancestor_key(files: Seq<FileEntry>, d: Seq<char>)
    ensures
        holds_file(files, d) <==> marked_upto(files, files.len() as int, 0, normalized(d)),
{
    if holds_file(files, d) {
        let i = choose|i: int| 0 <= i < files.len() && is_proper_ancestor(d, #[trigger] files[i].path@);
        let kk = path_parts(d).len() as int;
        assert(normalized(d) == ancestor_key(files, i, kk));
    }
    if marked_upto(files, files.len() as int, 0, normalized(d)) {
        let (ii, kk) = choose|ii: int, kk: int|
            0 <= ii < files.len() && 0 <= kk && ((ii < files.len() && kk < path_parts(files[ii].path@).len()) || (
            ii == files.len() && kk < 0)) && normalized(d) == #[trigger] ancestor_key(files, ii, kk);
        let f = files[ii].path@;
        lemma_path_parts_clean(d);
        lemma_path_parts_clean(f);
        let pre = path_parts(f).take(kk);
        assert(clean_parts(pre)) by {
            assert forall|j: int| 0 <= j < pre.len() implies (#[trigger] pre[j]).len() > 0 && !pre[j].contains('/') by {
                assert(pre[j] == path_parts(f)[j]);
            }
        }
        lemma_norm_of_injective(is_rooted(d), path_parts(d), is_rooted(f), pre);
        assert(is_proper_ancestor(d, files[ii].path@));
    }
}

/// Find all empty directories.
///
/// A directory is considered empty if it contains no files (recursively).
/// A directory containing only other empty directories is itself empty.
/// Results are returned in bottom-up order (deepest first).
pub fn find_empty_dirs(directories: &Vec<String>, files: &Vec<FileEntry>, progress: &dyn ProgressHandler) -> (r:
    Vec<String>)
    ensures
        exists|order: Seq<int>|
            deepest_first(unheld_dirs(directories@, files@), order) && r@.len() == order.len() && forall|a: int|
                0 <= a < r@.len() ==> (#[trigger] r@[a])@ == unheld_dirs(directories@, files@)[order[a]],
{
    progress.on_phase_start(ScanPhase::EmptyDirDetection, Some(directories.len() as u64));
    // The normal forms of all directories that hold a file.
    let mut marked: StrIndex = str_index_new();
    let mut i: usize = 0;
    while i < files.len()
        invariant
            i <= files@.len(),
            forall|key: Seq<char>| str_index_view(marked).contains_key(key) <==> marked_upto(files@, i as int, 0, key),
        decreases files@.len() - i,
    {
        let (rooted, parts) = path_parts_exec(files[i].path.as_str());
        let ghost f = files@[i as int].path@;
        let mut cur: String = String::new();
        if rooted {
            push_char(&mut cur, '/');
        }
        let mut k: usize = 0;
        while k < parts.len()
            invariant
                i < files@.len(),
                f == files@[i as int].path@,
                rooted == is_rooted(f),
                parts@.len() == path_parts(f).len(),
                forall|j: int| 0 <= j < parts@.len() ==> (#[trigger] parts@[j])@ == path_parts(f)[j],
                k <= parts@.len(),
                cur@ == ancestor_key(files@, i as int, k as int),
                forall|key: Seq<char>|
                    str_index_view(marked).contains_key(key) <==> marked_upto(files@, i as int, k as int, key),
            decreases parts@.len() - k,
        {
            let key = cur.clone();
            str_index_insert(&mut marked, key, 0);
            proof {
                assert forall|key: Seq<char>|
                    str_index_view(marked).contains_key(key) <==> marked_upto(files@, i as int, k + 1, key) by {
                    if key == cur@ {
                        assert(key == ancestor_key(files@, i as int, k as int));
                    }
                    if marked_upto(files@, i as int, k + 1, key) && key != cur@ {
                        let (ii, kk) = choose|ii: int, kk: int|
                            0 <= ii < files@.len() && 0 <= kk && ((ii < i && kk < path_parts(files@[ii].path@).len()) || (
                            ii == i && kk < k + 1)) && key == #[trigger] ancestor_key(files@, ii, kk);
                        assert(marked_upto(files@, i as int, k as int, key));
                    }
                }
            }
            if k > 0 {
                push_char(&mut cur, '/');
            }
            push_chars(&mut cur, &parts[k]);
            proof {
                let pp = path_parts(f);
                assert(pp.take(k + 1).drop_last() =~= pp.take(k as int));
                assert(pp.take(k + 1).last() == pp[k as int]);
                if k == 0 {
                    assert(pp.take(1) =~= seq![pp[0]]);
                }
            }
            k = k + 1;
        }
        proof {
            assert forall|key: Seq<char>|
                str_index_view(marked).contains_key(key) <==> marked_upto(files@, i + 1, 0, key) by {
                if marked_upto(files@, i as int, k as int, key) {
                    let (ii, kk) = choose|ii: int, kk: int|
                        0 <= ii < files@.len() && 0 <= kk && ((ii < i && kk < path_parts(files@[ii].path@).len()) || (
                        ii == i && kk < k)) && key == #[trigger] ancestor_key(files@, ii, kk);
                }
                if marked_upto(files@, i + 1, 0, key) {
                    let (ii, kk) = choose|ii: int, kk: int|
                        0 <= ii < files@.len() && 0 <= kk && ((ii < i + 1 && kk < path_parts(files@[ii].path@).len()) || (
                        ii == i + 1 && kk < 0)) && key == #[trigger] ancestor_key(files@, ii, kk);
                }
            }
        }
        i = i + 1;
    }
    // The directories that hold no file, in order, with their depths.
    let mut found: Vec<String> = Vec::new();
    let mut keys: Vec<i128> = Vec::new();
    let mut j: usize = 0;
    while j < directories.len()
        invariant
            j <= directories@.len(),
            forall|key: Seq<char>|
                str_index_view(marked).contains_key(key) <==> marked_upto(files@, files@.len() as int, 0, key),
            found@.len() == unheld_dirs(directories@.take(j as int), files@).len(),
            forall|a: int| 0 <= a < found@.len() ==> (#[trigger] found@[a])@ == unheld_dirs(directories@.take(j as int), files@)[a],
            keys@.len() == found@.len(),
            forall|a: int| 0 <= a < keys@.len() ==> #[trigger] keys@[a] == -(depth_of(found@[a]@) as int),
        decreases directories@.len() - j,
    {
        let d = &directories[j];
        let key = normalize(d.as_str());
        let hit = str_index_get(&marked, key.as_str());
        proof {
            lemma_ancestor_key(files@, d@);
            assert(directories@.take(j + 1).drop_last() =~= directories@.take(j as int));
            assert(directories@.take(j + 1).last() == directories@[j as int]);
        }
        if hit.is_none() {
            let depth = path_depth(d.as_str());
            keys.push(0i128 - (depth as i128));
            found.push(d.clone());
        }
        j = j + 1;
    }
    assert(directories@.take(j as int) =~= directories@);
    let order = stable_order(&keys);
    let mut r: Vec<String> = Vec::new();
    let mut m: usize = 0;
    while m < order.len()
        invariant
            m <= order@.len(),
            is_stable_order(keys@, order@),
            keys@.len() == found@.len(),
            r@.len() == m,
            forall|a: int| 0 <= a < m ==> (#[trigger] r@[a])@ == found@[order@[a] as int]@,
        decreases order@.len() - m,
    {
        r.push(found[order[m]].clone());
        m = m + 1;
    }
    proof {
        let e = unheld_dirs(directories@, files@);
        let ord = order@.map_values(|x: usize| x as int);
        assert forall|a: int| 0 <= a < ord.len() implies 0 <= #[trigger] ord[a] < e.len() by {}
        assert forall|a: int, b: int| 0 <= a < b < ord.len() implies depth_of(e[#[trigger] ord[a]]) > depth_of(
            e[#[trigger] ord[b]]) || (depth_of(e[ord[a]]) == depth_of(e[ord[b]]) && ord[a] < ord[b]) by {
            assert(key_before(keys@, order@[a], order@[b]));
        }
        assert forall|k: int| 0 <= k < e.len() implies #[trigger] ord.contains(k) by {
            assert(order@.contains(k as usize));
            let a = choose|a: int| 0 <= a < order@.len() && order@[a] == k as usize;
            assert(ord[a] == k);
        }
        assert(deepest_first(e, ord));
        assert forall|a: int| 0 <= a < r@.len() implies (#[trigger] r@[a])@ == e[ord[a]] by {}
    }
    let msg = count_message("Found ", r.len() as u64, " empty directories");
    progress.on_progress(ScanPhase::EmptyDirDetection, r.len() as u64, msg.as_str());
    progress.on_phase_end(ScanPhase::EmptyDirDetection);
    r
}

/// Lying under a directory is transitive.
pub proof fn lemma_ancestor_transitive(d: Seq<char>, e: Seq<char>, f: Seq<char>)
    requires
        is_proper_ancestor(d, e),
        is_proper_ancestor(e, f),
    ensures
        is_proper_ancestor(d, f),
{
    let pd = path_parts(d);
    let pe = path_parts(e);
    let pf = path_parts(f);
    assert(pf.take(pd.len() as int) =~= pe.take(pd.len() as int)) by {
        assert forall|i: int| 0 <= i < pd.len() implies pf[i] == pe[i] by {
            assert(pf.take(pe.len() as int)[i] == pe[i]);
        }
    }
}

/// A directory under an empty directory is empty too: a directory holding
/// only empty directories holds no file.
pub proof fn law_under_empty_dir_is_empty(files: Seq<FileEntry>, d: Seq<char>, e: Seq<char>)
    requires
        !holds_file(files, d),
        is_proper_ancestor(d, e),
    ensures
        !holds_file(files, e),
{
    if holds_file(files, e) {
        let i = choose|i: int| 0 <= i < files.len() && is_proper_ancestor(e, #[trigger] files[i].path@);
        lemma_ancestor_transitive(d, e, files[i].path@);
        assert(is_proper_ancestor(d, files[i].path@));
    }
}

/// The empty files found are exactly the paths of the scanned files of size
/// 0, in scan order, whatever their names.
pub proof fn law_empty_files_are_the_zero_sized(files: Seq<FileEntry>)
    ensures
        empty_file_paths(files) == files.filter(|f: FileEntry| f.size == 0).map_values(|f: FileEntry| f.path@),
    decreases files.len(),
{
    reveal(Seq::filter);
    if files.len() > 0 {
        law_empty_files_are_the_zero_sized(files.drop_last());
        let k = files.drop_last().filter(|f: FileEntry| f.size == 0);
        if files.last().size == 0 {
            assert(k.push(files.last()).map_values(|f: FileEntry| f.path@) =~= k.map_values(|f: FileEntry| f.path@).push(
                files.last().path@,
            ));
        }
    } else {
        assert(files.filter(|f: FileEntry| f.size == 0).map_values(|f: FileEntry| f.path@) =~= Seq::<Seq<char>>::empty());
    }
}

/// Every file of size 0 is listed as empty, whatever its name.
pub proof fn law_zero_sized_files_are_listed(files: Seq<FileEntry>)
    ensures
        forall|i: int| 0 <= i < files.len() && files[i].size == 0 ==> empty_file_paths(files).contains(#[trigger] files[i].path@),
    decreases files.len(),
{
    if files.len() > 0 {
        let n = files.len() - 1;
        let d = files.drop_last();
        law_zero_sized_files_are_listed(d);
        let k = empty_file_paths(d);
        let r = empty_file_paths(files);
        assert forall|i: int| 0 <= i < files.len() && files[i].size == 0 implies r.contains(#[trigger] files[i].path@) by {
            if i < n {
                assert(d[i] == files[i]);
                assert(k.contains(d[i].path@));
                let t = choose|t: int| 0 <= t < k.len() && k[t] == d[i].path@;
                assert(r[t] == k[t]);
            } else {
                assert(r[r.len() - 1] == files[i].path@);
            }
        }
    }
}

/// Every path listed as empty is that of a scanned file of size 0.
pub proof fn law_listed_files_are_zero_sized(files: Seq<FileEntry>, j: int)
    requires
        0 <= j < empty_file_paths(files).len(),
    ensures
        exists|i: int| 0 <= i < files.len() && files[i].size == 0 && empty_file_paths(files)[j] == (#[trigger] files[i]).path@,
    decreases files.len(),
{
    let n = files.len() - 1;
    let d = files.drop_last();
    let k = empty_file_paths(d);
    if j < k.len() {
        law_listed_files_are_zero_sized(d, j);
        let i = choose|i: int| 0 <= i < d.len() && d[i].size == 0 && k[j] == (#[trigger] d[i]).path@;
        assert(files[i] == d[i]);
    } else {
        assert(files[n].size == 0);
    }
}

} // verus!
