//! The three-stage duplicate detection pipeline.
//!
//! Stage 1 keeps files whose size (at least the minimum) another file shares.
//! Stage 2 keeps, of those, files whose partial hash another file of the same
//! size shares. Stage 3 takes full hashes (from the cache or computed) and
//! groups files with equal full hashes; in each group the oldest file is the
//! original. Hashing reads files and is done between the stages by the
//! caller; these functions make every decision.

use vstd::prelude::*;
use crate::cache::{cached_hash, mtime_in_range, mtime_secs_of, CacheEntry, HashCache};
use crate::grouping::{
    count_distinct,
    is_stable_order, key_before, number_strings, shares_key, shared_keys, stable_order,
    strictly_increasing,
};
use crate::empty::count_message;
use crate::progress::ProgressHandler;
use crate::text::{push_str, u64_to_string};
use crate::types::{CacheStats, DuplicateGroup, DuplicateReport, FileEntry, ScanPhase};

verus! {

/// Whether file `i` is at least `min_size` bytes and another file has its size.
pub open spec fn size_shared(files: Seq<FileEntry>, min_size: u64, i: int) -> bool {
    &&& files[i].size >= min_size
    &&& exists|j: int| 0 <= j < files.len() && j != i && files[j].size == files[i].size
}

/// The stage-1 keys: a file's size when it is at least the minimum.
pub open spec fn size_keys(files: Seq<FileEntry>, min_size: u64) -> Seq<Option<u128>> {
    Seq::new(
        files.len(),
        |i: int|
            if files[i].size >= min_size {
                Some(files[i].size as u128)
            } else {
                None
            },
    )
}

/// Stage 1: the indices of files that are at least `min_size` bytes and
/// share their size with another such file, in increasing order.
pub fn size_candidates(files: &Vec<FileEntry>, min_size: u64) -> (r: Vec<usize>)
    ensures
        strictly_increasing(r@),
        forall|a: int| 0 <= a < r@.len() ==> r@[a] < files@.len() && size_shared(files@, min_size, r@[a] as int),
        forall|k: int| 0 <= k < files@.len() && size_shared(files@, min_size, k) ==> #[trigger] r@.contains(k as usize),
{
    let mut keys: Vec<Option<u128>> = Vec::new();
    let mut i: usize = 0;
    while i < files.len()
        invariant
            i <= files@.len(),
            keys@ == size_keys(files@, min_size).take(i as int),
        decreases files@.len() - i,
    {
        let f = &files[i];
        if f.size >= min_size {
            keys.push(Some(f.size as u128));
        } else {
            keys.push(None);
        }
        i = i + 1;
        assert(keys@ =~= size_keys(files@, min_size).take(i as int));
    }
    assert(keys@ =~= size_keys(files@, min_size));
    let r = shared_keys(&keys);
    proof {
        let ks = size_keys(files@, min_size);
        assert forall|k: int| 0 <= k < files@.len() && size_shared(files@, min_size, k) implies #[trigger] r@.contains(k as usize) by {
            let j = choose|j: int| 0 <= j < files@.len() && j != k && files@[j].size == files@[k].size;
            assert(ks[j] == ks[k]);
            assert(shares_key(ks, k));
        }
        assert forall|a: int| 0 <= a < r@.len() implies r@[a] < files@.len() && size_shared(files@, min_size, r@[a] as int) by {
            let k = r@[a] as int;
            assert(shares_key(ks, k));
            let j = choose|j: int| 0 <= j < ks.len() && j != k && ks[j] == ks[k];
            assert(files@[j].size == files@[k].size);
        }
    }
    r
}

/// Whether the `k`-th stage-1 candidate has a partial hash that another
/// candidate of the same size also has.
pub open spec fn partial_shared(
    files: Seq<FileEntry>,
    cands: Seq<usize>,
    partial: Seq<Option<String>>,
    k: int,
) -> bool {
    &&& partial[k] is Some
    &&& exists|j: int|
        0 <= j < cands.len() && j != k && partial[j] is Some && partial[j]->0@ == partial[k]->0@
            && files[cands[j] as int].size == files[cands[k] as int].size
}

/// Stage 2: given a partial hash (or none, when the file could not be read)
/// for each stage-1 candidate, the positions in `cands` of candidates whose
/// partial hash a candidate of the same size shares, in increasing order.
pub fn partial_survivors(files: &Vec<FileEntry>, cands: &Vec<usize>, partial: &Vec<Option<String>>) -> (r:
    Vec<usize>)
    requires
        cands@.len() == partial@.len(),
        forall|k: int| 0 <= k < cands@.len() ==> cands@[k] < files@.len(),
    ensures
        strictly_increasing(r@),
        forall|a: int|
            0 <= a < r@.len() ==> r@[a] < cands@.len() && partial_shared(files@, cands@, partial@, r@[a] as int),
        forall|k: int|
            0 <= k < cands@.len() && partial_shared(files@, cands@, partial@, k) ==> #[trigger] r@.contains(
                k as usize,
            ),
{
    let ids = number_strings(partial);
    let mut keys: Vec<Option<u128>> = Vec::new();
    let mut i: usize = 0;
    while i < cands.len()
        invariant
            i <= cands@.len(),
            cands@.len() == partial@.len(),
            ids@.len() == partial@.len(),
            forall|k: int| 0 <= k < cands@.len() ==> cands@[k] < files@.len(),
            forall|k: int| 0 <= k < partial@.len() && ids@[k] is Some ==> (#[trigger] ids@[k])->0 < partial@.len(),
            keys@.len() == i,
            forall|k: int| 0 <= k < i ==> (#[trigger] keys@[k] is Some) == (ids@[k] is Some),
            forall|k: int|
                0 <= k < i && keys@[k] is Some ==> (#[trigger] keys@[k])->0 as int == (files@[cands@[k] as int].size as int)
                    * 0x1_0000_0000_0000_0000 + (ids@[k]->0 as int),
        decreases cands@.len() - i,
    {
        match ids[i] {
            Some(id) => {
                let size: u64 = files[cands[i]].size;
                let s128: u128 = size as u128;
                let id128: u128 = id as u128;
                assert(s128 * 0x1_0000_0000_0000_0000u128 <= 0xffff_ffff_ffff_ffff_0000_0000_0000_0000u128) by (nonlinear_arith)
                    requires
                        s128 <= 0xffff_ffff_ffff_ffffu128,
                ;
                let key: u128 = s128 * 0x1_0000_0000_0000_0000u128 + id128;
                keys.push(Some(key));
            },
            None => {
                keys.push(None);
            },
        }
        i = i + 1;
    }
    let r = shared_keys(&keys);
    proof {
        assert forall|k: int| 0 <= k < cands@.len() implies (shares_key(keys@, k) <==> partial_shared(files@, cands@, partial@, k)) by {
            assert((keys@[k] is Some) == (ids@[k] is Some));
            assert((keys@[k] is Some) == (partial@[k] is Some));
            if partial_shared(files@, cands@, partial@, k) {
                let j = choose|j: int|
                    0 <= j < cands@.len() && j != k && partial@[j] is Some && partial@[j]->0@ == partial@[k]->0@
                        && files@[cands@[j] as int].size == files@[cands@[k] as int].size;
                assert((keys@[j] is Some) == (ids@[j] is Some));
                assert(ids@[j] == ids@[k]);
                assert(keys@[j]->0 as int == keys@[k]->0 as int);
                assert(shares_key(keys@, k));
            }
            if shares_key(keys@, k) {
                let j = choose|j: int| 0 <= j < keys@.len() && j != k && keys@[j] == keys@[k];
                assert((keys@[j] is Some) == (ids@[j] is Some));
                let sj = files@[cands@[j] as int].size as int;
                let sk = files@[cands@[k] as int].size as int;
                let ij = ids@[j]->0 as int;
                let ik = ids@[k]->0 as int;
                assert(sj * 0x1_0000_0000_0000_0000 + ij == sk * 0x1_0000_0000_0000_0000 + ik);
                assert(sj == sk && ij == ik) by (nonlinear_arith)
                    requires
                        sj * 0x1_0000_0000_0000_0000 + ij == sk * 0x1_0000_0000_0000_0000 + ik,
                        0 <= ij < 0x1_0000_0000_0000_0000,
                        0 <= ik < 0x1_0000_0000_0000_0000,
                        0 <= sj,
                        0 <= sk,
                ;
                assert(ids@[j] == ids@[k]);
                assert(partial_shared(files@, cands@, partial@, k));
            }
        }
        assert forall|k: int| 0 <= k < cands@.len() && partial_shared(files@, cands@, partial@, k) implies #[trigger] r@.contains(k as usize) by {
            assert(shares_key(keys@, k));
        }
        assert forall|a: int| 0 <= a < r@.len() implies r@[a] < cands@.len() && partial_shared(files@, cands@, partial@, r@[a] as int) by {
            assert(shares_key(keys@, r@[a] as int));
        }
    }
    r
}

/// The entries of `v` at the given positions, in order.
pub fn select_positions(v: &Vec<usize>, positions: &Vec<usize>) -> (r: Vec<usize>)
    requires
        forall|a: int| 0 <= a < positions@.len() ==> positions@[a] < v@.len(),
    ensures
        r@.len() == positions@.len(),
        forall|a: int| 0 <= a < r@.len() ==> r@[a] == v@[#[trigger] positions@[a] as int],
{
    let mut r: Vec<usize> = Vec::new();
    let mut i: usize = 0;
    while i < positions.len()
        invariant
            i <= positions@.len(),
            forall|a: int| 0 <= a < positions@.len() ==> positions@[a] < v@.len(),
            r@.len() == i,
            forall|a: int| 0 <= a < i ==> r@[a] == v@[#[trigger] positions@[a] as int],
        decreases positions@.len() - i,
    {
        r.push(v[positions[i]]);
        i = i + 1;
    }
    r
}


/// The cached entries of an optional cache.
pub open spec fn cache_view(cache: Option<HashCache>) -> Option<Map<Seq<char>, CacheEntry>> {
    match cache {
        Some(c) => Some(c.entries()),
        None => None,
    }
}

/// The cached full hash of file `i`, if the cache has a matching entry.
pub open spec fn hit_for(
    files: Seq<FileEntry>,
    entries: Option<Map<Seq<char>, CacheEntry>>,
    i: usize,
) -> Option<Seq<char>> {
    match entries {
        Some(m) => cached_hash(m, files[i as int].path@, files[i as int].size, files[i as int].mtime),
        None => None,
    }
}

/// The candidates with a cached hash, with that hash, in order.
pub open spec fn cache_hits(
    files: Seq<FileEntry>,
    entries: Option<Map<Seq<char>, CacheEntry>>,
    cands: Seq<usize>,
) -> Seq<(usize, Seq<char>)>
    decreases cands.len(),
{
    if cands.len() == 0 {
        Seq::empty()
    } else {
        let k = cache_hits(files, entries, cands.drop_last());
        match hit_for(files, entries, cands.last()) {
            Some(h) => k.push((cands.last(), h)),
            None => k,
        }
    }
}

/// The candidates without a cached hash, in order.
pub open spec fn cache_misses(
    files: Seq<FileEntry>,
    entries: Option<Map<Seq<char>, CacheEntry>>,
    cands: Seq<usize>,
) -> Seq<usize>
    decreases cands.len(),
{
    if cands.len() == 0 {
        Seq::empty()
    } else {
        let k = cache_misses(files, entries, cands.drop_last());
        match hit_for(files, entries, cands.last()) {
            Some(h) => k,
            None => k.push(cands.last()),
        }
    }
}

/// File indices paired with hash texts.
pub open spec fn hashed_view(v: Seq<(usize, String)>) -> Seq<(usize, Seq<char>)> {
    v.map_values(|e: (usize, String)| (e.0, e.1@))
}

/// Whether every listed file has a modification time a file can have.
pub open spec fn mtimes_in_range(files: Seq<FileEntry>, idx: Seq<usize>) -> bool {
    forall|k: int| 0 <= k < idx.len() ==> idx[k] < files.len() && mtime_in_range(files[#[trigger] idx[k] as int].mtime)
}

/// Stage 3, first step: splits the stage-2 survivors into those whose full
/// hash the cache holds (with that hash) and those still to hash, and counts
/// them as cache hits and misses.
pub fn split_cached(
    files: &Vec<FileEntry>,
    cands: &Vec<usize>,
    cache: &Option<HashCache>,
    stats: &mut CacheStats,
) -> (r: (Vec<(usize, String)>, Vec<usize>))
    requires
        mtimes_in_range(files@, cands@),
        old(stats).hits + cands@.len() <= u64::MAX,
        old(stats).misses + cands@.len() <= u64::MAX,
    ensures
        hashed_view(r.0@) == cache_hits(files@, cache_view(*cache), cands@),
        r.1@ == cache_misses(files@, cache_view(*cache), cands@),
        final(stats).hits == old(stats).hits + r.0@.len(),
        final(stats).misses == old(stats).misses + r.1@.len(),
{
    let mut hits: Vec<(usize, String)> = Vec::new();
    let mut need: Vec<usize> = Vec::new();
    let mut i: usize = 0;
    while i < cands.len()
        invariant
            i <= cands@.len(),
            mtimes_in_range(files@, cands@),
            old(stats).hits + cands@.len() <= u64::MAX,
            old(stats).misses + cands@.len() <= u64::MAX,
            hashed_view(hits@) == cache_hits(files@, cache_view(*cache), cands@.take(i as int)),
            need@ == cache_misses(files@, cache_view(*cache), cands@.take(i as int)),
            hits@.len() + need@.len() == i,
            stats.hits == old(stats).hits + hits@.len(),
            stats.misses == old(stats).misses + need@.len(),
        decreases cands@.len() - i,
    {
        let c = cands[i];
        proof {
            assert(cands@.take(i + 1).drop_last() =~= cands@.take(i as int));
            assert(cands@.take(i + 1).last() == c);
            assert(mtime_in_range(files@[cands@[i as int] as int].mtime));
        }
        let f = &files[c];
        let found: Option<String> = match cache {
            Some(cr) => match cr.lookup(f.path.as_str(), f.size, f.mtime) {
                Some(h) => Some(crate::text::string_from_str(h)),
                None => None,
            },
            None => None,
        };
        match found {
            Some(h) => {
                let ghost before = hits@;
                hits.push((c, h));
                assert(hashed_view(hits@) =~= hashed_view(before).push((c, h@)));
                stats.hits = stats.hits + 1;
            },
            None => {
                need.push(c);
                stats.misses = stats.misses + 1;
            },
        }
        i = i + 1;
    }
    assert(cands@.take(i as int) =~= cands@);
    (hits, need)
}

/// The successfully hashed files among `need`, with their hashes, in order.
pub open spec fn computed_successes(need: Seq<usize>, computed: Seq<Option<String>>) -> Seq<(usize, String)>
    decreases need.len(),
{
    if need.len() == 0 {
        Seq::empty()
    } else {
        let k = computed_successes(need.drop_last(), computed);
        match computed[need.len() - 1] {
            Some(h) => k.push((need.last(), h)),
            None => k,
        }
    }
}

/// The cache entries after recording each successfully hashed file.
pub open spec fn recorded(
    m: Map<Seq<char>, CacheEntry>,
    files: Seq<FileEntry>,
    succ: Seq<(usize, String)>,
) -> Map<Seq<char>, CacheEntry>
    decreases succ.len(),
{
    if succ.len() == 0 {
        m
    } else {
        let f = files[succ.last().0 as int];
        recorded(m, files, succ.drop_last()).insert(
            f.path@,
            CacheEntry { hash: succ.last().1, size: f.size, mtime_secs: mtime_secs_of(f.mtime) as u64 },
        )
    }
}

/// Stage 3, second step: given a full hash (or none, when the file could not
/// be read) for each file still to hash, records the hashed ones in the
/// cache, if there is one, and returns them with their hashes.
pub fn record_computed(
    files: &Vec<FileEntry>,
    need: &Vec<usize>,
    computed: &Vec<Option<String>>,
    cache: &mut Option<HashCache>,
) -> (r: Vec<(usize, String)>)
    requires
        need@.len() == computed@.len(),
        mtimes_in_range(files@, need@),
    ensures
        r@ == computed_successes(need@, computed@),
        match *old(cache) {
            Some(c0) => match *final(cache) {
                Some(c1) => c1.entries() == recorded(c0.entries(), files@, r@) && c1.path_view()
                    == c0.path_view() && c1.version() == c0.version() && (r@.len() > 0 ==> c1.is_dirty())
                    && (r@.len() == 0 ==> c1 == c0),
                None => false,
            },
            None => *final(cache) is None,
        },
{
    let mut out: Vec<(usize, String)> = Vec::new();
    let ghost c0 = *cache;
    let mut i: usize = 0;
    while i < need.len()
        invariant
            i <= need@.len(),
            need@.len() == computed@.len(),
            mtimes_in_range(files@, need@),
            out@ == computed_successes(need@.take(i as int), computed@),
            match c0 {
                Some(c0) => match *cache {
                    Some(c1) => c1.entries() == recorded(c0.entries(), files@, out@) && c1.path_view()
                        == c0.path_view() && c1.version() == c0.version() && (out@.len() > 0 ==> c1.is_dirty())
                        && (out@.len() == 0 ==> c1 == c0),
                    None => false,
                },
                None => *cache is None,
            },
        decreases need@.len() - i,
    {
        let k = need[i];
        proof {
            assert(need@.take(i + 1).drop_last() =~= need@.take(i as int));
            assert(need@.take(i + 1).last() == k);
            assert(mtime_in_range(files@[need@[i as int] as int].mtime));
        }
        match &computed[i] {
            Some(h) => {
                let f = &files[k];
                let ghost before = out@;
                let h1 = h.clone();
                let h2 = h.clone();
                let ghost newout = before.push((k, h2));
                let taken = cache.take();
                match taken {
                    Some(mut c) => {
                        let ghost e0 = c.entries();
                        c.insert(f.path.as_str(), f.size, f.mtime, h1);
                        proof {
                            let c00 = c0->0;
                            assert(e0 == recorded(c00.entries(), files@, before));
                            assert(newout.drop_last() =~= before);
                            assert(newout.last() == (k, h2));
                            assert(h1 == h2);
                            assert(c.entries() == recorded(c00.entries(), files@, newout));
                        }
                        *cache = Some(c);
                    },
                    None => {},
                }
                out.push((k, h2));
                assert(out@ == newout);
            },
            None => {},
        }
        i = i + 1;
    }
    assert(need@.take(i as int) =~= need@);
    out
}


/// Whether the hash at position `p` of the hashed list occurs at another position.
pub open spec fn hash_repeated_at(l: Seq<(usize, Seq<char>)>, p: int) -> bool {
    exists|q: int| 0 <= q < l.len() && q != p && l[q].1 == l[p].1
}

/// Numbers the hashes of the list and finds the positions whose hash repeats.
fn repeated_positions(hashed: &Vec<(usize, String)>) -> (r: (Vec<Option<usize>>, Vec<usize>))
    ensures
        numbered_repeats(hashed@, r.0@, r.1@),
{
    let mut strs: Vec<Option<String>> = Vec::new();
    let mut i: usize = 0;
    while i < hashed.len()
        invariant
            i <= hashed@.len(),
            strs@.len() == i,
            forall|k: int| 0 <= k < i ==> (#[trigger] strs@[k]) is Some && strs@[k]->0@ == hashed@[k].1@,
        decreases hashed@.len() - i,
    {
        strs.push(Some(hashed[i].1.clone()));
        i = i + 1;
    }
    let ids = number_strings(&strs);
    let mut keys: Vec<Option<u128>> = Vec::new();
    let mut j: usize = 0;
    while j < ids.len()
        invariant
            j <= ids@.len(),
            ids@.len() == strs@.len(),
            keys@.len() == j,
            forall|k: int| 0 <= k < j ==> (#[trigger] keys@[k]) == (match ids@[k] {
                Some(x) => Some(x as u128),
                None => None,
            }),
        decreases ids@.len() - j,
    {
        match ids[j] {
            Some(x) => keys.push(Some(x as u128)),
            None => keys.push(None),
        }
        j = j + 1;
    }
    let shared = shared_keys(&keys);
    proof {
        let hv = hashed_view(hashed@);
        assert forall|a: int, b: int|
            0 <= a < hashed@.len() && 0 <= b < hashed@.len() implies ((ids@[a] == ids@[b]) <==> (hashed@[a].1@
                == hashed@[b].1@)) by {
            assert(strs@[a] is Some && strs@[b] is Some);
        }
        assert forall|k: int| 0 <= k < hashed@.len() implies (#[trigger] ids@[k]) is Some && ids@[k]->0 < hashed@.len() by {
            assert(strs@[k] is Some);
        }
        assert forall|p: int| 0 <= p < hashed@.len() implies (shares_key(keys@, p) <==> hash_repeated_at(hv, p)) by {
            assert(keys@[p] == Some(ids@[p]->0 as u128));
            if hash_repeated_at(hv, p) {
                let q = choose|q: int| 0 <= q < hv.len() && q != p && hv[q].1 == hv[p].1;
                assert(hv[q].1 == hashed@[q].1@ && hv[p].1 == hashed@[p].1@);
                assert(ids@[q] == ids@[p]);
                assert(keys@[q] == Some(ids@[q]->0 as u128));
            }
            if shares_key(keys@, p) {
                let q = choose|q: int| 0 <= q < keys@.len() && q != p && keys@[q] == keys@[p];
                assert(keys@[q] == Some(ids@[q]->0 as u128));
                assert(ids@[q] == ids@[p]);
                assert(hv[q].1 == hv[p].1);
            }
        }
        assert forall|p: int| 0 <= p < hashed@.len() && hash_repeated_at(hv, p) implies #[trigger] shared@.contains(p as usize) by {
            assert(shares_key(keys@, p));
        }
        assert forall|a: int| 0 <= a < shared@.len() implies shared@[a] < hashed@.len() && hash_repeated_at(hv, shared@[a] as int) by {
            assert(shares_key(keys@, shared@[a] as int));
        }
    }
    (ids, shared)
}

/// Collects the repeated positions into groups of equal number: each group's
/// positions in increasing order, groups in order of first position.
#[verifier::rlimit(60)]
fn form_groups(ids: &Vec<Option<usize>>, shared: &Vec<usize>) -> (r: (Vec<Vec<usize>>, Vec<usize>))
    requires
        forall|k: int| 0 <= k < ids@.len() ==> (#[trigger] ids@[k]) is Some && ids@[k]->0 < ids@.len(),
        strictly_increasing(shared@),
        forall|a: int| 0 <= a < shared@.len() ==> (#[trigger] shared@[a]) < ids@.len(),
    ensures
        grouped(ids@, shared@, r.0@, r.1@),
{
    let n = ids.len();
    let mut slot_of: Vec<Option<usize>> = Vec::new();
    let mut i: usize = 0;
    while i < n
        invariant
            i <= n,
            slot_of@.len() == i,
            forall|k: int| 0 <= k < i ==> (#[trigger] slot_of@[k]) is None,
        decreases n - i,
    {
        slot_of.push(None);
        i = i + 1;
    }
    let mut gpos: Vec<Vec<usize>> = Vec::new();
    let mut gid: Vec<usize> = Vec::new();
    let mut t: usize = 0;
    while t < shared.len()
        invariant
            t <= shared@.len(),
            n == ids@.len(),
            forall|k: int| 0 <= k < ids@.len() ==> (#[trigger] ids@[k]) is Some && ids@[k]->0 < ids@.len(),
            strictly_increasing(shared@),
            forall|a: int| 0 <= a < shared@.len() ==> (#[trigger] shared@[a]) < ids@.len(),
            slot_of@.len() == n,
            gpos@.len() == gid@.len(),
            forall|k: int| 0 <= k < n && (#[trigger] slot_of@[k]) is Some ==> slot_of@[k]->0 < gid@.len() && gid@[slot_of@[k]->0 as int] == k,
            forall|g: int| 0 <= g < gid@.len() ==> (#[trigger] gid@[g]) < n && (slot_of@[gid@[g] as int] is Some && slot_of@[gid@[g] as int]->0 == g),
            int_sum(vec_lens(gpos@)) == t,
            forall|g: int| 0 <= g < gpos@.len() ==> (#[trigger] gpos@[g])@.len() >= 1 && strictly_increasing(gpos@[g]@),
            forall|g: int, a: int|
                0 <= g < gpos@.len() && 0 <= a < gpos@[g]@.len() ==> exists|tt: int| 0 <= tt < t && shared@[tt] == #[trigger] gpos@[g]@[a],
            forall|g: int, a: int|
                0 <= g < gpos@.len() && 0 <= a < gpos@[g]@.len() ==> ids@[#[trigger] gpos@[g]@[a] as int] == Some(gid@[g]),
            forall|tt: int|
                0 <= tt < t ==> exists|g: int|
                    0 <= g < gid@.len() && gid@[g] == ids@[#[trigger] shared@[tt] as int]->0 && gpos@[g]@.contains(shared@[tt]),
        decreases shared@.len() - t,
    {
        let p = shared[t];
        let id: usize = match ids[p] {
            Some(x) => x,
            None => 0,
        };
        let ghost gpos0 = gpos@;
        let ghost gid0 = gid@;
        let ghost slot0 = slot_of@;
        match slot_of[id] {
            Some(g) => {
                let ghost inner0 = gpos@[g as int]@;
                gpos[g].push(p);
                proof {
                    assert(gpos@[g as int]@ == inner0.push(p));
                    assert(vec_lens(gpos@) =~= vec_lens(gpos0).update(g as int, inner0.len() as int + 1));
                    lemma_sum_update(vec_lens(gpos0), g as int, inner0.len() as int + 1);
                    assert forall|a: int| 0 <= a < inner0.len() implies inner0[a] < p by {
                        let tt = choose|tt: int| 0 <= tt < t && shared@[tt] == #[trigger] gpos0[g as int]@[a];
                    }
                    assert forall|h: int| 0 <= h < gpos@.len() && h != g implies gpos@[h] == gpos0[h] by {}
                    assert forall|h: int, a: int|
                        0 <= h < gpos@.len() && 0 <= a < gpos@[h]@.len() implies exists|tt: int| 0 <= tt < t + 1 && shared@[tt] == #[trigger] gpos@[h]@[a] by {
                        if h == g && a == inner0.len() {
                            assert(shared@[t as int] == gpos@[h]@[a]);
                        } else {
                            assert(gpos@[h]@[a] == gpos0[h]@[a]);
                            let tt = choose|tt: int| 0 <= tt < t && shared@[tt] == #[trigger] gpos0[h]@[a];
                        }
                    }
                    assert forall|h: int, a: int|
                        0 <= h < gpos@.len() && 0 <= a < gpos@[h]@.len() implies ids@[#[trigger] gpos@[h]@[a] as int] == Some(gid@[h]) by {
                        if !(h == g && a == inner0.len()) {
                            assert(gpos@[h]@[a] == gpos0[h]@[a]);
                        }
                    }
                    assert forall|tt: int| 0 <= tt < t + 1 implies exists|h: int|
                        0 <= h < gid@.len() && gid@[h] == ids@[#[trigger] shared@[tt] as int]->0 && gpos@[h]@.contains(shared@[tt]) by {
                        if tt == t {
                            assert(gpos@[g as int]@[inner0.len() as int] == p);
                        } else {
                            let h = choose|h: int|
                                0 <= h < gid0.len() && gid0[h] == ids@[shared@[tt] as int]->0 && gpos0[h]@.contains(shared@[tt]);
                            let a = choose|a: int| 0 <= a < gpos0[h]@.len() && gpos0[h]@[a] == shared@[tt];
                            if h == g {
                                assert(gpos@[h]@[a] == shared@[tt]);
                            }
                        }
                    }
                }
            },
            None => {
                let k = gpos.len();
                slot_of.set(id, Some(k));
                let mut v: Vec<usize> = Vec::new();
                v.push(p);
                gpos.push(v);
                gid.push(id);
                proof {
                    assert(vec_lens(gpos@) =~= vec_lens(gpos0).push(1));
                    lemma_sum_push(vec_lens(gpos0), 1);
                    assert forall|kk: int| 0 <= kk < n && (#[trigger] slot_of@[kk]) is Some implies slot_of@[kk]->0 < gid@.len() && gid@[slot_of@[kk]->0 as int] == kk by {
                        if kk != id {
                            assert(slot_of@[kk] == slot0[kk]);
                        }
                    }
                    assert forall|g: int| 0 <= g < gid@.len() implies (#[trigger] gid@[g]) < n && (slot_of@[gid@[g] as int] is Some && slot_of@[gid@[g] as int]->0 == g) by {
                        if g < k {
                            assert(gid@[g] == gid0[g]);
                            assert(slot0[gid0[g] as int] is Some && slot0[gid0[g] as int]->0 == g);
                            assert(gid0[g] != id);
                        }
                    }
                    assert forall|h: int, a: int|
                        0 <= h < gpos@.len() && 0 <= a < gpos@[h]@.len() implies exists|tt: int| 0 <= tt < t + 1 && shared@[tt] == #[trigger] gpos@[h]@[a] by {
                        if h == k {
                            assert(shared@[t as int] == gpos@[h]@[a]);
                        } else {
                            assert(gpos@[h] == gpos0[h]);
                            let tt = choose|tt: int| 0 <= tt < t && shared@[tt] == #[trigger] gpos0[h]@[a];
                        }
                    }
                    assert forall|h: int, a: int|
                        0 <= h < gpos@.len() && 0 <= a < gpos@[h]@.len() implies ids@[#[trigger] gpos@[h]@[a] as int] == Some(gid@[h]) by {
                        if h < k {
                            assert(gpos@[h] == gpos0[h]);
                        }
                    }
                    assert forall|tt: int| 0 <= tt < t + 1 implies exists|h: int|
                        0 <= h < gid@.len() && gid@[h] == ids@[#[trigger] shared@[tt] as int]->0 && gpos@[h]@.contains(shared@[tt]) by {
                        if tt == t {
                            assert(gpos@[k as int]@[0] == p);
                        } else {
                            let h = choose|h: int|
                                0 <= h < gid0.len() && gid0[h] == ids@[shared@[tt] as int]->0 && gpos0[h]@.contains(shared@[tt]);
                            assert(gpos@[h] == gpos0[h]);
                        }
                    }
                    assert forall|g: int| 0 <= g < gpos@.len() implies (#[trigger] gpos@[g])@.len() >= 1 && strictly_increasing(gpos@[g]@) by {
                        if g < k {
                            assert(gpos@[g] == gpos0[g]);
                        }
                    }
                }
            },
        }
        t = t + 1;
    }
    proof {
        assert forall|g: int, a: int|
            0 <= g < gpos@.len() && 0 <= a < gpos@[g]@.len() implies shared@.contains(#[trigger] gpos@[g]@[a]) by {
            let tt = choose|tt: int| 0 <= tt < t && shared@[tt] == #[trigger] gpos@[g]@[a];
        }
        assert forall|g1: int, g2: int| 0 <= g1 < g2 < gid@.len() implies gid@[g1] != gid@[g2] by {
            assert(slot_of@[gid@[g1] as int]->0 == g1);
            assert(slot_of@[gid@[g2] as int]->0 == g2);
        }
    }
    (gpos, gid)
}


/// The files of a group: the original, then the duplicates.
pub open spec fn group_files(g: DuplicateGroup) -> Seq<FileEntry> {
    seq![g.original] + g.duplicates@
}

/// Whether `members` are the files listed with hash `h`, each listed position
/// once (`ps` gives the positions), ordered by modification time and, for
/// equal times, by position in the list.
pub open spec fn group_members(
    files: Seq<FileEntry>,
    l: Seq<(usize, Seq<char>)>,
    h: Seq<char>,
    members: Seq<FileEntry>,
    ps: Seq<int>,
) -> bool {
    &&& ps.len() == members.len()
    &&& forall|i: int|
        0 <= i < ps.len() ==> 0 <= #[trigger] ps[i] < l.len() && l[ps[i]].1 == h && members[i] == files[l[ps[i]].0 as int]
    &&& forall|i: int, j: int|
        0 <= i < j < ps.len() ==> (#[trigger] members[i]).mtime < (#[trigger] members[j]).mtime || (members[i].mtime
            == members[j].mtime && ps[i] < ps[j])
    &&& forall|p: int| 0 <= p < l.len() && l[p].1 == h ==> #[trigger] ps.contains(p)
}

/// Whether the files of group `g` are the files listed with its hash, as
/// `group_members` says, for some choice of their positions.
pub open spec fn has_members(files: Seq<FileEntry>, l: Seq<(usize, Seq<char>)>, g: DuplicateGroup) -> bool {
    exists|ps: Seq<int>| group_members(files, l, g.hash@, group_files(g), ps)
}

/// The group of the files at positions `pos` of the hashed list (all the
/// positions with one hash): oldest first, the rest as duplicates.
fn group_entry(files: &Vec<FileEntry>, hashed: &Vec<(usize, String)>, pos: &Vec<usize>) -> (g: DuplicateGroup)
    requires
        pos@.len() >= 2,
        strictly_increasing(pos@),
        forall|a: int| 0 <= a < pos@.len() ==> (#[trigger] pos@[a]) < hashed@.len(),
        forall|p: int| 0 <= p < hashed@.len() ==> (#[trigger] hashed@[p]).0 < files@.len(),
        forall|a: int| 0 <= a < pos@.len() ==> hashed@[#[trigger] pos@[a] as int].1@ == hashed@[pos@[0] as int].1@,
        forall|p: int| 0 <= p < hashed@.len() && hashed@[p].1@ == hashed@[pos@[0] as int].1@ ==> #[trigger] pos@.contains(p as usize),
    ensures
        g.hash@ == hashed@[pos@[0] as int].1@,
        has_members(files@, hashed_view(hashed@), g),
        g.size == g.original.size,
        g.duplicates@.len() == pos@.len() - 1,
        exists|a: int| 0 <= a < pos@.len() && g.original == files@[hashed@[#[trigger] pos@[a] as int].0 as int],
{
    let ghost hv = hashed_view(hashed@);
    let mut keys: Vec<i128> = Vec::new();
    let mut i: usize = 0;
    while i < pos.len()
        invariant
            i <= pos@.len(),
            forall|a: int| 0 <= a < pos@.len() ==> (#[trigger] pos@[a]) < hashed@.len(),
            forall|p: int| 0 <= p < hashed@.len() ==> (#[trigger] hashed@[p]).0 < files@.len(),
            keys@.len() == i,
            forall|a: int| 0 <= a < i ==> #[trigger] keys@[a] == files@[hashed@[pos@[a] as int].0 as int].mtime,
        decreases pos@.len() - i,
    {
        let p = pos[i];
        keys.push(files[hashed[p].0].mtime);
        i = i + 1;
    }
    let order = stable_order(&keys);
    let mut members: Vec<FileEntry> = Vec::new();
    let ghost mut ps: Seq<int> = Seq::empty();
    let mut j: usize = 0;
    while j < order.len()
        invariant
            j <= order@.len(),
            is_stable_order(keys@, order@),
            keys@.len() == pos@.len(),
            forall|a: int| 0 <= a < pos@.len() ==> (#[trigger] pos@[a]) < hashed@.len(),
            forall|p: int| 0 <= p < hashed@.len() ==> (#[trigger] hashed@[p]).0 < files@.len(),
            forall|a: int| 0 <= a < pos@.len() ==> #[trigger] keys@[a] == files@[hashed@[pos@[a] as int].0 as int].mtime,
            members@.len() == j,
            ps.len() == j,
            forall|a: int| 0 <= a < j ==> #[trigger] ps[a] == pos@[order@[a] as int] as int,
            forall|a: int| 0 <= a < j ==> #[trigger] members@[a] == files@[hashed@[ps[a]].0 as int],
        decreases order@.len() - j,
    {
        let p = pos[order[j]];
        members.push(files[hashed[p].0].copied());
        proof {
            ps = ps.push(p as int);
        }
        j = j + 1;
    }
    proof {
        let h = hashed@[pos@[0] as int].1@;
        assert forall|i: int, k: int| 0 <= i < k < ps.len() implies (#[trigger] members@[i]).mtime < (#[trigger] members@[k]).mtime
            || (members@[i].mtime == members@[k].mtime && ps[i] < ps[k]) by {
            assert(key_before(keys@, order@[i], order@[k]));
            assert(keys@[order@[i] as int] == members@[i].mtime);
            assert(keys@[order@[k] as int] == members@[k].mtime);
            if keys@[order@[i] as int] == keys@[order@[k] as int] {
                assert(order@[i] < order@[k]);
                assert(pos@[order@[i] as int] < pos@[order@[k] as int]);
            }
        }
        assert forall|p: int| 0 <= p < hv.len() && hv[p].1 == h implies #[trigger] ps.contains(p) by {
            assert(hashed@.len() == hashed.len());
            assert(pos@.contains(p as usize));
            let a = choose|a: int| 0 <= a < pos@.len() && pos@[a] == p as usize;
            assert(pos@.len() == pos.len());
            assert(order@.contains(a as usize));
            let b = choose|b: int| 0 <= b < order@.len() && order@[b] == a as usize;
            assert(order@[b] as int == a);
            assert(ps[b] == pos@[a] as int);
            assert(ps[b] == p);
        }
        assert forall|i: int| 0 <= i < ps.len() implies 0 <= #[trigger] ps[i] < hv.len() && hv[ps[i]].1 == h && members@[i] == files@[hv[ps[i]].0 as int] by {
            assert(order@[i] < pos@.len());
        }
    }
    let original = members[0].copied();
    let mut duplicates: Vec<FileEntry> = Vec::new();
    let mut k: usize = 1;
    while k < members.len()
        invariant
            1 <= k <= members@.len(),
            duplicates@ == members@.subrange(1, k as int),
        decreases members@.len() - k,
    {
        duplicates.push(members[k].copied());
        k = k + 1;
        assert(duplicates@ =~= members@.subrange(1, k as int));
    }
    let g = DuplicateGroup { hash: hashed[pos[0]].1.clone(), size: original.size, original, duplicates };
    proof {
        assert(order@[0] < pos@.len());
        assert(g.original == files@[hashed@[pos@[order@[0] as int] as int].0 as int]);
        assert(group_files(g) =~= members@);
        assert(group_members(files@, hv, g.hash@, group_files(g), ps));
    }
    g
}

/// The sum of a sequence of integers.
pub open spec fn int_sum(s: Seq<int>) -> int
    decreases s.len(),
{
    if s.len() == 0 {
        0
    } else {
        int_sum(s.drop_last()) + s.last()
    }
}

/// The lengths of a sequence of vectors.
pub open spec fn vec_lens(v: Seq<Vec<usize>>) -> Seq<int> {
    Seq::new(v.len(), |g: int| v[g]@.len() as int)
}

proof fn lemma_sum_push(s: Seq<int>, x: int)
    ensures
        int_sum(s.push(x)) == int_sum(s) + x,
{
    assert(s.push(x).drop_last() =~= s);
}

proof fn lemma_sum_update(s: Seq<int>, i: int, x: int)
    requires
        0 <= i < s.len(),
    ensures
        int_sum(s.update(i, x)) == int_sum(s) - s[i] + x,
    decreases s.len(),
{
    if i == s.len() - 1 {
        assert(s.update(i, x).drop_last() =~= s.drop_last());
    } else {
        lemma_sum_update(s.drop_last(), i, x);
        assert(s.update(i, x).drop_last() =~= s.drop_last().update(i, x));
    }
}

proof fn lemma_sum_remove(s: Seq<int>, m: int)
    requires
        0 <= m < s.len(),
    ensures
        int_sum(s) == int_sum(s.remove(m)) + s[m],
    decreases s.len(),
{
    if m < s.len() - 1 {
        lemma_sum_remove(s.drop_last(), m);
        assert(s.remove(m).drop_last() =~= s.drop_last().remove(m));
        assert(s.remove(m).last() == s.last());
    } else {
        assert(s.remove(m) =~= s.drop_last());
    }
}

/// Reordering a sequence by a permutation keeps its sum.
proof fn lemma_sum_permuted(s: Seq<int>, order: Seq<usize>)
    requires
        order.len() == s.len(),
        s.len() <= usize::MAX,
        forall|i: int| 0 <= i < order.len() ==> (#[trigger] order[i]) < s.len(),
        forall|i: int, j: int| 0 <= i < j < order.len() ==> order[i] != order[j],
        forall|k: int| 0 <= k < s.len() ==> #[trigger] order.contains(k as usize),
    ensures
        int_sum(Seq::new(s.len(), |i: int| s[order[i] as int])) == int_sum(s),
    decreases s.len(),
{
    let n = s.len();
    let t = Seq::new(n, |i: int| s[order[i] as int]);
    if n > 0 {
        assert(order.contains((n - 1) as usize));
        let m = choose|m: int| 0 <= m < n && order[m] == (n - 1) as usize;
        let o2 = order.remove(m);
        let s2 = s.drop_last();
        assert forall|i: int| 0 <= i < o2.len() implies (#[trigger] o2[i]) < s2.len() by {
            if i < m {
                assert(o2[i] == order[i]);
            } else {
                assert(o2[i] == order[i + 1]);
            }
        }
        assert forall|i: int, j: int| 0 <= i < j < o2.len() implies o2[i] != o2[j] by {
            let ii = if i < m { i } else { i + 1 };
            let jj = if j < m { j } else { j + 1 };
            assert(o2[i] == order[ii] && o2[j] == order[jj]);
        }
        assert forall|k: int| 0 <= k < s2.len() implies #[trigger] o2.contains(k as usize) by {
            assert(order.contains(k as usize));
            let a = choose|a: int| 0 <= a < n && order[a] == k as usize;
            if a < m {
                assert(o2[a] == k as usize);
            } else {
                assert(a != m);
                assert(o2[a - 1] == k as usize);
            }
        }
        lemma_sum_permuted(s2, o2);
        let t2 = Seq::new(s2.len(), |i: int| s2[o2[i] as int]);
        assert(t2 =~= t.remove(m));
        lemma_sum_remove(t, m);
        assert(order[m] as int == n - 1);
        assert(t[m] == s[n - 1]);
    }
}

/// What numbering the hashed list gives: each position a number, equal
/// numbers for equal hashes, and the positions whose hash repeats.
spec fn numbered_repeats(hashed: Seq<(usize, String)>, ids: Seq<Option<usize>>, shared: Seq<usize>) -> bool {
    &&& ids.len() == hashed.len()
    &&& forall|k: int| 0 <= k < hashed.len() ==> (#[trigger] ids[k]) is Some && ids[k]->0 < hashed.len()
    &&& forall|a: int, b: int|
        0 <= a < hashed.len() && 0 <= b < hashed.len() ==> ((ids[a] == ids[b]) <==> (hashed[a].1@
            == hashed[b].1@))
    &&& strictly_increasing(shared)
    &&& forall|a: int| 0 <= a < shared.len() ==> shared[a] < hashed.len() && hash_repeated_at(hashed_view(hashed), shared[a] as int)
    &&& forall|p: int| 0 <= p < hashed.len() && hash_repeated_at(hashed_view(hashed), p) ==> #[trigger] shared.contains(p as usize)
}

/// What grouping the repeated positions by number gives.
spec fn grouped(ids: Seq<Option<usize>>, shared: Seq<usize>, gpos: Seq<Vec<usize>>, gid: Seq<usize>) -> bool {
    &&& gpos.len() == gid.len()
    &&& forall|g: int| 0 <= g < gpos.len() ==> (#[trigger] gpos[g])@.len() >= 1 && strictly_increasing(gpos[g]@)
    &&& forall|g: int, a: int|
        0 <= g < gpos.len() && 0 <= a < gpos[g]@.len() ==> shared.contains(#[trigger] gpos[g]@[a]) && ids[gpos[g]@[a] as int]
            == Some(gid[g])
    &&& forall|t: int|
        0 <= t < shared.len() ==> exists|g: int|
            0 <= g < gid.len() && gid[g] == ids[#[trigger] shared[t] as int]->0 && gpos[g]@.contains(shared[t])
    &&& forall|g1: int, g2: int| 0 <= g1 < g2 < gid.len() ==> gid[g1] != gid[g2]
    &&& int_sum(vec_lens(gpos)) == shared.len()
}

/// Each group of positions holds at least two positions, all with one hash,
/// and every position with that hash.
proof fn lemma_group_ready(
    files: Seq<FileEntry>,
    hashed: Seq<(usize, String)>,
    ids: Seq<Option<usize>>,
    shared: Seq<usize>,
    gpos: Seq<Vec<usize>>,
    gid: Seq<usize>,
    g: int,
)
    requires
        numbered_repeats(hashed, ids, shared),
        grouped(ids, shared, gpos, gid),
        0 <= g < gpos.len(),
        hashed.len() <= usize::MAX,
    ensures
        gpos[g]@.len() >= 2,
        strictly_increasing(gpos[g]@),
        forall|a: int| 0 <= a < gpos[g]@.len() ==> (#[trigger] gpos[g]@[a]) < hashed.len(),
        forall|a: int| 0 <= a < gpos[g]@.len() ==> hashed[#[trigger] gpos[g]@[a] as int].1@ == hashed[gpos[g]@[0] as int].1@,
        forall|p: int| 0 <= p < hashed.len() && hashed[p].1@ == hashed[gpos[g]@[0] as int].1@ ==> #[trigger] gpos[g]@.contains(p as usize),
{
    let pos = gpos[g]@;
    let hv = hashed_view(hashed);
    assert forall|a: int| 0 <= a < pos.len() implies (#[trigger] pos[a]) < hashed.len() by {
        assert(shared.contains(gpos[g]@[a]));
    }
    assert(shared.contains(gpos[g]@[0]));
    let p0 = pos[0] as int;
    assert(ids[p0] == Some(gid[g]));
    assert forall|a: int| 0 <= a < pos.len() implies hashed[#[trigger] pos[a] as int].1@ == hashed[p0].1@ by {
        assert(shared.contains(gpos[g]@[a]));
        assert(ids[pos[a] as int] == Some(gid[g]));
    }
    assert(hash_repeated_at(hv, p0)) by {
        let t0 = choose|t: int| 0 <= t < shared.len() && shared[t] == pos[0];
    }
    assert forall|p: int| 0 <= p < hashed.len() && hashed[p].1@ == hashed[p0].1@ implies #[trigger] pos.contains(p as usize) by {
        if p == p0 {
            assert(pos[0] == p as usize);
        } else {
            assert(hv[p].1 == hv[p0].1);
            assert(hash_repeated_at(hv, p));
            assert(shared.contains(p as usize));
            let t = choose|t: int| 0 <= t < shared.len() && shared[t] == p as usize;
            let h = choose|h: int| 0 <= h < gid.len() && gid[h] == ids[#[trigger] shared[t] as int]->0 && gpos[h]@.contains(shared[t]);
            assert(ids[p] == ids[p0]);
            if h != g {
                if h < g {
                    assert(gid[h] != gid[g]);
                } else {
                    assert(gid[g] != gid[h]);
                }
            }
        }
    }
    let q = choose|q: int| 0 <= q < hv.len() && q != p0 && hv[q].1 == hv[p0].1;
    assert(pos.contains(q as usize));
    let b = choose|b: int| 0 <= b < pos.len() && pos[b] == q as usize;
    assert(b != 0);
}

/// The sum of a sequence of integers is no more than the sum of another,
/// element by element at least as large.
proof fn lemma_sum_le(s: Seq<int>, t: Seq<int>)
    requires
        s.len() == t.len(),
        forall|i: int| 0 <= i < s.len() ==> s[i] <= t[i],
    ensures
        int_sum(s) <= int_sum(t),
    decreases s.len(),
{
    if s.len() > 0 {
        lemma_sum_le(s.drop_last(), t.drop_last());
    }
}

/// A prefix of a sequence of non-negative integers sums to no more than the whole.
proof fn lemma_sum_prefix(s: Seq<int>, j: int)
    requires
        0 <= j <= s.len(),
        forall|i: int| 0 <= i < s.len() ==> s[i] >= 0,
    ensures
        int_sum(s.take(j)) <= int_sum(s),
    decreases s.len(),
{
    if j < s.len() {
        lemma_sum_prefix(s.drop_last(), j);
        assert(s.drop_last().take(j) =~= s.take(j));
    } else {
        assert(s.take(j) =~= s);
    }
}

/// A strictly increasing sequence of numbers below `n` has at most `n` entries.
proof fn lemma_increasing_len(s: Seq<usize>, n: int)
    requires
        0 <= n,
        strictly_increasing(s),
        forall|a: int| 0 <= a < s.len() ==> s[a] < n,
    ensures
        s.len() <= n,
    decreases s.len(),
{
    if s.len() > 0 {
        let m = s.last() as int;
        assert forall|a: int| 0 <= a < s.drop_last().len() implies s.drop_last()[a] < m by {
            assert(s[a] < s[s.len() - 1]);
        }
        lemma_increasing_len(s.drop_last(), m);
        assert(s.drop_last().len() == s.len() - 1);
        assert(m == s[s.len() - 1] as int);
        assert(s[s.len() - 1] < n);
    }
}

/// Reclaimable bytes of a group: its size times its number of duplicates.
pub open spec fn group_reclaim(g: DuplicateGroup) -> int {
    g.size * g.duplicates@.len()
}

/// The number of duplicates of each group.
pub open spec fn dup_counts(gs: Seq<DuplicateGroup>) -> Seq<int> {
    Seq::new(gs.len(), |i: int| gs[i].duplicates@.len() as int)
}

/// The reclaimable bytes of each group.
pub open spec fn reclaims(gs: Seq<DuplicateGroup>) -> Seq<int> {
    Seq::new(gs.len(), |i: int| group_reclaim(gs[i]))
}

/// Whether `gs` are the duplicate groups of the hashed list `l`: one group
/// for each hash that occurs at two or more positions, with exactly the
/// files listed with that hash, the oldest (first listed, among equally old)
/// as the original.
pub open spec fn groups_of(files: Seq<FileEntry>, l: Seq<(usize, Seq<char>)>, gs: Seq<DuplicateGroup>) -> bool {
    &&& forall|i: int|
        0 <= i < gs.len() ==> (#[trigger] gs[i]).duplicates@.len() >= 1 && gs[i].size == gs[i].original.size
    &&& forall|i: int|
        0 <= i < gs.len() ==> has_members(files, l, #[trigger] gs[i])
    &&& forall|i: int, j: int| 0 <= i < j < gs.len() ==> (#[trigger] gs[i]).hash@ != (#[trigger] gs[j]).hash@
    &&& forall|p: int| 0 <= p < l.len() && hash_repeated_at(l, p) ==> exists|i: int| 0 <= i < gs.len() && (#[trigger] gs[i]).hash@ == l[p].1
}

/// Stage 3, last step: the report of the files listed with their full
/// hashes. Files with equal hashes form a group whose original is the oldest;
/// groups come in order of reclaimable bytes, largest first; the totals count
/// the duplicates and their bytes. `None` when the reclaimable bytes of the
/// groups, together, do not fit in a `u64`.
#[verifier::rlimit(80)]
pub fn build_duplicate_report(files: &Vec<FileEntry>, hashed: &Vec<(usize, String)>) -> (r: Option<DuplicateReport>)
    requires
        forall|p: int| 0 <= p < hashed@.len() ==> (#[trigger] hashed@[p]).0 < files@.len(),
    ensures
        match r {
            Some(rep) => {
                &&& groups_of(files@, hashed_view(hashed@), rep.groups@)
                &&& forall|i: int, j: int|
                    0 <= i < j < rep.groups@.len() ==> group_reclaim(#[trigger] rep.groups@[i]) >= group_reclaim(
                        #[trigger] rep.groups@[j],
                    )
                &&& rep.total_groups == rep.groups@.len()
                &&& rep.total_redundant_files == int_sum(dup_counts(rep.groups@))
                &&& rep.reclaimable_bytes == int_sum(reclaims(rep.groups@))
            },
            None => exists|gs: Seq<DuplicateGroup>|
                groups_of(files@, hashed_view(hashed@), gs) && int_sum(reclaims(gs)) > u64::MAX,
        },
{
    let ghost hv = hashed_view(hashed@);
    let (ids, shared) = repeated_positions(hashed);
    let (gpos, gid) = form_groups(&ids, &shared);
    proof {
        assert(hashed@.len() == hashed.len());
        lemma_increasing_len(shared@, hashed@.len() as int);
    }
    let mut groups: Vec<DuplicateGroup> = Vec::new();
    let mut keys: Vec<i128> = Vec::new();
    let mut fits: bool = true;
    let mut total_bytes: u64 = 0;
    let mut g: usize = 0;
    proof {
        assert(reclaims(groups@) =~= Seq::<int>::empty());
    }
    while g < gpos.len()
        invariant
            g <= gpos@.len(),
            hashed@.len() <= usize::MAX,
            numbered_repeats(hashed@, ids@, shared@),
            grouped(ids@, shared@, gpos@, gid@),
            shared@.len() <= hashed@.len(),
            hv == hashed_view(hashed@),
            forall|p: int| 0 <= p < hashed@.len() ==> (#[trigger] hashed@[p]).0 < files@.len(),
            groups@.len() == g,
            keys@.len() == g,
            forall|k: int|
                0 <= k < g ==> (#[trigger] groups@[k]).duplicates@.len() >= 1 && groups@[k].size == groups@[k].original.size
                    && groups@[k].duplicates@.len() == gpos@[k]@.len() - 1
                    && groups@[k].hash@ == hashed@[gpos@[k]@[0] as int].1@
                    && (fits ==> keys@[k] == -group_reclaim(groups@[k]))
                    && has_members(files@, hv, groups@[k]),
            fits ==> total_bytes == int_sum(reclaims(groups@)),
            !fits ==> int_sum(reclaims(groups@)) > u64::MAX,
        decreases gpos@.len() - g,
    {
        proof {
            lemma_group_ready(files@, hashed@, ids@, shared@, gpos@, gid@, g as int);
        }
        let e = group_entry(files, hashed, &gpos[g]);
        let dups: usize = e.duplicates.len();
        let ghost before = groups@;
        proof {
            assert(dups < hashed@.len()) by {
                lemma_group_ready(files@, hashed@, ids@, shared@, gpos@, gid@, g as int);
                lemma_increasing_len(gpos@[g as int]@, hashed@.len() as int);
            }
            let sz = e.size as int;
            let dd = dups as int;
            assert(sz * dd <= 0xffff_ffff_ffff_ffff * 0xffff_ffff_ffff_ffff) by (nonlinear_arith)
                requires
                    0 <= sz <= 0xffff_ffff_ffff_ffff,
                    0 <= dd <= 0xffff_ffff_ffff_ffff,
            ;
        }
        let rc: u128 = (e.size as u128) * (dups as u128);
        if fits && rc <= (u64::MAX - total_bytes) as u128 {
            total_bytes = total_bytes + (rc as u64);
            keys.push(0i128 - (rc as i128));
        } else {
            fits = false;
            keys.push(0i128);
        }
        groups.push(e);
        proof {
            assert(groups@.drop_last() =~= before);
            assert(reclaims(groups@) =~= reclaims(before).push(group_reclaim(e)));
            lemma_sum_push(reclaims(before), group_reclaim(e));
            assert(group_reclaim(e) == rc);
            assert(group_reclaim(e) >= 0) by (nonlinear_arith)
                requires
                    e.size >= 0,
                    e.duplicates@.len() >= 0,
            ;
            assert forall|k: int| 0 <= k < g implies groups@[k] == before[k] by {}
        }
        g = g + 1;
    }
    proof {
        let gs = groups@;
        assert forall|i: int, j: int| 0 <= i < j < gs.len() implies (#[trigger] gs[i]).hash@ != (#[trigger] gs[j]).hash@ by {
            assert(shared@.contains(gpos@[i]@[0]));
            assert(shared@.contains(gpos@[j]@[0]));
            assert(ids@[gpos@[i]@[0] as int] == Some(gid@[i]));
            assert(ids@[gpos@[j]@[0] as int] == Some(gid@[j]));
            assert(gid@[i] != gid@[j]);
        }
        assert forall|p: int| 0 <= p < hv.len() && hash_repeated_at(hv, p) implies exists|i: int| 0 <= i < gs.len() && (#[trigger] gs[i]).hash@ == hv[p].1 by {
            assert(shared@.contains(p as usize));
            let t = choose|t: int| 0 <= t < shared@.len() && shared@[t] == p as usize;
            let h = choose|h: int| 0 <= h < gid@.len() && gid@[h] == ids@[#[trigger] shared@[t] as int]->0 && gpos@[h]@.contains(shared@[t]);
            let a = choose|a: int| 0 <= a < gpos@[h]@.len() && gpos@[h]@[a] == p as usize;
            lemma_group_ready(files@, hashed@, ids@, shared@, gpos@, gid@, h);
            assert(gs[h].hash@ == hashed@[gpos@[h]@[0] as int].1@);
        }
        assert(groups_of(files@, hv, gs));
    }
    if !fits {
        return None;
    }
    let order = stable_order(&keys);
    let ghost n = groups@.len();
    let ghost dall = dup_counts(groups@);
    let ghost rall = reclaims(groups@);
    let ghost pd = Seq::new(n, |a: int| dall[order@[a] as int]);
    let ghost pr = Seq::new(n, |a: int| rall[order@[a] as int]);
    proof {
        assert(forall|k: int| 0 <= k < n ==> dall[k] <= vec_lens(gpos@)[k]);
        lemma_sum_le(dall, vec_lens(gpos@));
        assert forall|i: int, j: int| 0 <= i < j < order@.len() implies order@[i] != order@[j] by {
            assert(key_before(keys@, order@[i], order@[j]));
        }
        assert(groups@.len() == groups.len());
        lemma_sum_permuted(dall, order@);
        lemma_sum_permuted(rall, order@);
        assert forall|i: int| 0 <= i < n implies pd[i] >= 0 by {}
        assert forall|i: int| 0 <= i < n implies pr[i] >= 0 by {
            let k = order@[i] as int;
            assert(rall[k] == group_reclaim(groups@[k]));
            assert(group_reclaim(groups@[k]) >= 0) by (nonlinear_arith)
                requires
                    groups@[k].size >= 0,
                    groups@[k].duplicates@.len() >= 0,
            ;
        }
    }
    let mut sorted: Vec<DuplicateGroup> = Vec::new();
    let mut total: usize = 0;
    let mut reclaim: u64 = 0;
    let mut j: usize = 0;
    while j < order.len()
        invariant
            j <= order@.len(),
            n == groups@.len(),
            is_stable_order(keys@, order@),
            keys@.len() == n,
            dall == dup_counts(groups@),
            rall == reclaims(groups@),
            pd == Seq::new(n, |a: int| dall[order@[a] as int]),
            pr == Seq::new(n, |a: int| rall[order@[a] as int]),
            int_sum(pd) <= hashed@.len(),
            int_sum(pr) <= u64::MAX,
            forall|i: int| 0 <= i < n ==> pd[i] >= 0,
            forall|i: int| 0 <= i < n ==> pr[i] >= 0,
            hashed@.len() <= usize::MAX,
            forall|k: int|
                0 <= k < n ==> (#[trigger] groups@[k]).duplicates@.len() >= 1 && groups@[k].size == groups@[k].original.size
                    && keys@[k] == -group_reclaim(groups@[k])
                    && has_members(files@, hv, groups@[k]),
            sorted@.len() == j,
            forall|a: int| 0 <= a < j ==> (#[trigger] sorted@[a]).same_as(groups@[order@[a] as int]),
            total == int_sum(dup_counts(sorted@)),
            reclaim == int_sum(reclaims(sorted@)),
            dup_counts(sorted@) == pd.take(j as int),
            reclaims(sorted@) == pr.take(j as int),
        decreases order@.len() - j,
    {
        let gr = groups[order[j]].copied();
        let ghost before = sorted@;
        let d: usize = gr.duplicates.len();
        let sz: u64 = gr.size;
        proof {
            assert(d == pd[j as int]);
            lemma_sum_prefix(pd, j + 1);
            assert(pd.take(j + 1).drop_last() =~= pd.take(j as int));
            assert(int_sum(pd.take(j + 1)) == total + d);
            lemma_sum_prefix(pr, j + 1);
            assert(pr.take(j + 1).drop_last() =~= pr.take(j as int));
            assert(pr[j as int] == group_reclaim(groups@[order@[j as int] as int]));
            assert(pr[j as int] == sz * d);
            assert(int_sum(pr.take(j + 1)) == reclaim + sz * d);
            assert(sz * d <= u64::MAX);
        }
        let add: u64 = sz * (d as u64);
        sorted.push(gr);
        total = total + d;
        reclaim = reclaim + add;
        proof {
            assert(sorted@.drop_last() =~= before);
            assert(dup_counts(sorted@).drop_last() =~= dup_counts(before));
            assert(reclaims(sorted@).drop_last() =~= reclaims(before));
            assert(dup_counts(sorted@) =~= pd.take(j + 1));
            assert(reclaims(sorted@) =~= pr.take(j + 1));
        }
        j = j + 1;
    }
    let r = DuplicateReport { total_groups: sorted.len(), total_redundant_files: total, reclaimable_bytes: reclaim, groups: sorted };
    proof {
        let gs = r.groups@;
        assert forall|i: int| 0 <= i < gs.len() implies (#[trigger] gs[i]).duplicates@.len() >= 1 && gs[i].size == gs[i].original.size by {
            assert(gs[i].same_as(groups@[order@[i] as int]));
        }
        assert forall|i: int| 0 <= i < gs.len() implies has_members(files@, hv, #[trigger] gs[i]) by {
            let k = order@[i] as int;
            assert(group_files(gs[i]) =~= group_files(groups@[k]));
        }
        assert forall|i: int, j: int| 0 <= i < j < gs.len() implies group_reclaim(#[trigger] gs[i]) >= group_reclaim(#[trigger] gs[j]) by {
            assert(key_before(keys@, order@[i], order@[j]));
        }
        assert forall|i: int, j: int| 0 <= i < j < gs.len() implies (#[trigger] gs[i]).hash@ != (#[trigger] gs[j]).hash@ by {
            let gi = order@[i] as int;
            let gj = order@[j] as int;
            assert(key_before(keys@, order@[i], order@[j]));
            assert(gi != gj);
            assert(gs[i].hash@ == groups@[gi].hash@);
            assert(gs[j].hash@ == groups@[gj].hash@);
            if gi < gj {
                assert(groups@[gi].hash@ != groups@[gj].hash@);
            } else {
                assert(groups@[gj].hash@ != groups@[gi].hash@);
            }
        }
        assert forall|p: int| 0 <= p < hv.len() && hash_repeated_at(hv, p) implies exists|i: int| 0 <= i < gs.len() && (#[trigger] gs[i]).hash@ == hv[p].1 by {
            let h = choose|h: int| 0 <= h < groups@.len() && (#[trigger] groups@[h]).hash@ == hv[p].1;
            assert(order@.contains(h as usize));
            let i = choose|i: int| 0 <= i < order@.len() && order@[i] == h as usize;
            assert(gs[i].hash@ == groups@[h].hash@);
        }
        assert(groups_of(files@, hv, gs));
    }
    Some(r)
}

/// In a group, the original is the oldest file: no duplicate was modified
/// before it.
pub proof fn law_original_is_oldest(files: Seq<FileEntry>, l: Seq<(usize, Seq<char>)>, g: DuplicateGroup)
    requires
        has_members(files, l, g),
    ensures
        forall|d: int| 0 <= d < g.duplicates@.len() ==> g.original.mtime <= (#[trigger] g.duplicates@[d]).mtime,
{
    let ps = choose|ps: Seq<int>| group_members(files, l, g.hash@, group_files(g), ps);
    let members = group_files(g);
    assert forall|d: int| 0 <= d < g.duplicates@.len() implies g.original.mtime <= (#[trigger] g.duplicates@[d]).mtime by {
        assert(members[0] == g.original);
        assert(members[d + 1] == g.duplicates@[d]);
        assert(members[0].mtime < members[d + 1].mtime || (members[0].mtime == members[d + 1].mtime && ps[0] < ps[d + 1]));
    }
}

/// Every file of a group was listed with the group's hash, and no listed
/// position counts twice.
pub proof fn law_members_share_hash(files: Seq<FileEntry>, l: Seq<(usize, Seq<char>)>, g: DuplicateGroup)
    requires
        has_members(files, l, g),
    ensures
        forall|k: int| 0 <= k < group_files(g).len() ==> listed_with(files, l, g.hash@, #[trigger] group_files(g)[k]),
        group_files(g).len() == count_hash(l, g.hash@),
{
    let ps = choose|ps: Seq<int>| group_members(files, l, g.hash@, group_files(g), ps);
    assert forall|k: int| 0 <= k < group_files(g).len() implies listed_with(files, l, g.hash@, #[trigger] group_files(g)[k]) by {
        let p = ps[k];
        assert(0 <= p < l.len() && l[p].1 == g.hash@ && files[l[p].0 as int] == group_files(g)[k]);
    }
    lemma_positions_count(files, l, g.hash@, group_files(g), ps);
}

/// In every group of a report, the original is the oldest file.
pub proof fn law_originals_are_oldest(files: Seq<FileEntry>, l: Seq<(usize, Seq<char>)>, gs: Seq<DuplicateGroup>)
    requires
        groups_of(files, l, gs),
    ensures
        forall|i: int, d: int|
            0 <= i < gs.len() && 0 <= d < gs[i].duplicates@.len() ==> gs[i].original.mtime <= (
            #[trigger] gs[i].duplicates@[d]).mtime,
{
    assert forall|i: int, d: int|
        0 <= i < gs.len() && 0 <= d < gs[i].duplicates@.len() implies gs[i].original.mtime <= (
        #[trigger] gs[i].duplicates@[d]).mtime by {
        assert(has_members(files, l, gs[i]));
        law_original_is_oldest(files, l, gs[i]);
    }
}

/// Every member of every group passed the size stage when every listed file
/// did: it is at least `min_size` bytes.
pub proof fn law_members_meet_min_size(
    files: Seq<FileEntry>,
    l: Seq<(usize, Seq<char>)>,
    gs: Seq<DuplicateGroup>,
    min_size: u64,
)
    requires
        groups_of(files, l, gs),
        forall|p: int| 0 <= p < l.len() ==> size_shared(files, min_size, #[trigger] l[p].0 as int),
    ensures
        forall|i: int, k: int|
            0 <= i < gs.len() && 0 <= k < group_files(gs[i]).len() ==> (#[trigger] group_files(gs[i])[k]).size >= min_size,
{
    assert forall|i: int, k: int|
        0 <= i < gs.len() && 0 <= k < group_files(gs[i]).len() implies (#[trigger] group_files(gs[i])[k]).size >= min_size by {
        assert(has_members(files, l, gs[i]));
        law_members_share_hash(files, l, gs[i]);
        assert(listed_with(files, l, gs[i].hash@, group_files(gs[i])[k]));
        let p = choose|p: int| 0 <= p < l.len() && l[p].1 == gs[i].hash@ && files[l[p].0 as int] == group_files(gs[i])[k];
        assert(size_shared(files, min_size, l[p].0 as int));
    }
}

/// Two listed files with one hash are in one group: the group of that hash
/// holds both.
pub proof fn law_same_hash_same_group(
    files: Seq<FileEntry>,
    l: Seq<(usize, Seq<char>)>,
    gs: Seq<DuplicateGroup>,
    p: int,
    q: int,
)
    requires
        groups_of(files, l, gs),
        0 <= p < l.len(),
        0 <= q < l.len(),
        p != q,
        l[p].1 == l[q].1,
    ensures
        exists|i: int|
            0 <= i < gs.len() && (#[trigger] gs[i]).hash@ == l[p].1 && group_files(gs[i]).contains(files[l[p].0 as int])
                && group_files(gs[i]).contains(files[l[q].0 as int]),
{
    assert(hash_repeated_at(l, p));
    let i = choose|i: int| 0 <= i < gs.len() && (#[trigger] gs[i]).hash@ == l[p].1;
    assert(has_members(files, l, gs[i]));
    let ps = choose|ps: Seq<int>| group_members(files, l, gs[i].hash@, group_files(gs[i]), ps);
    let members = group_files(gs[i]);
    assert(ps.contains(p));
    assert(ps.contains(q));
    let kp = choose|k: int| 0 <= k < ps.len() && ps[k] == p;
    let kq = choose|k: int| 0 <= k < ps.len() && ps[k] == q;
    assert(members[kp] == files[l[p].0 as int]);
    assert(members[kq] == files[l[q].0 as int]);
    assert(members.contains(files[l[p].0 as int]));
    assert(members.contains(files[l[q].0 as int]));
}

/// No two groups share a hash.
pub proof fn law_one_group_per_hash(
    files: Seq<FileEntry>,
    l: Seq<(usize, Seq<char>)>,
    gs: Seq<DuplicateGroup>,
    i: int,
    j: int,
)
    requires
        groups_of(files, l, gs),
        0 <= i < gs.len(),
        0 <= j < gs.len(),
        gs[i].hash@ == gs[j].hash@,
    ensures
        i == j,
{
    if i < j {
        assert(gs[i].hash@ != gs[j].hash@);
    } else if j < i {
        assert(gs[j].hash@ != gs[i].hash@);
    }
}

/// Whether the file `f` is listed with hash `h`.
pub open spec fn listed_with(files: Seq<FileEntry>, l: Seq<(usize, Seq<char>)>, h: Seq<char>, f: FileEntry) -> bool {
    exists|p: int| 0 <= p < l.len() && l[p].1 == h && files[l[p].0 as int] == f
}

/// How many positions of the list carry hash `h`.
pub open spec fn count_hash(l: Seq<(usize, Seq<char>)>, h: Seq<char>) -> nat
    decreases l.len(),
{
    if l.len() == 0 {
        0
    } else {
        count_hash(l.drop_last(), h) + (if l.last().1 == h { 1nat } else { 0nat })
    }
}

/// The positions of a group's members are exactly the positions with its hash.
proof fn lemma_positions_count(
    files: Seq<FileEntry>,
    l: Seq<(usize, Seq<char>)>,
    h: Seq<char>,
    members: Seq<FileEntry>,
    ps: Seq<int>,
)
    requires
        group_members(files, l, h, members, ps),
    ensures
        members.len() == count_hash(l, h),
{
    // the positions are distinct
    assert forall|i: int, j: int| 0 <= i < j < ps.len() implies ps[i] != ps[j] by {
        if ps[i] == ps[j] {
            assert(members[i] == files[l[ps[i]].0 as int]);
            assert(members[j] == files[l[ps[j]].0 as int]);
        }
    }
    let sp = ps.to_set();
    let hs = Set::new(|p: int| 0 <= p < l.len() && l[p].1 == h);
    assert(sp =~= hs) by {
        assert forall|p: int| sp.contains(p) implies hs.contains(p) by {
            let i = choose|i: int| 0 <= i < ps.len() && ps[i] == p;
            assert(0 <= ps[i] < l.len());
        }
        assert forall|p: int| hs.contains(p) implies sp.contains(p) by {
            assert(ps.contains(p));
        }
    }
    ps.unique_seq_to_set();
    lemma_count_hash_set(l, h);
}

/// `count_hash` counts the set of positions carrying the hash.
proof fn lemma_count_hash_set(l: Seq<(usize, Seq<char>)>, h: Seq<char>)
    ensures
        Set::new(|p: int| 0 <= p < l.len() && l[p].1 == h).len() == count_hash(l, h),
        Set::new(|p: int| 0 <= p < l.len() && l[p].1 == h).finite(),
    decreases l.len(),
{
    let s = Set::new(|p: int| 0 <= p < l.len() && l[p].1 == h);
    if l.len() == 0 {
        assert(s =~= Set::<int>::empty());
    } else {
        let t = l.drop_last();
        lemma_count_hash_set(t, h);
        let st = Set::new(|p: int| 0 <= p < t.len() && t[p].1 == h);
        let last = l.len() - 1;
        if l.last().1 == h {
            assert(s =~= st.insert(last));
            assert(!st.contains(last));
        } else {
            assert(s =~= st);
        }
    }
}

/// A progress line: `n`, `middle`, the number of groups `g`, then `after`.
fn groups_message(n: u64, middle: &str, g: u64, after: &str) -> (m: String)
    ensures
        m@ == crate::text::decimal(n as nat) + middle@ + crate::text::decimal(g as nat) + after@,
{
    let mut m = count_message("", n, middle);
    proof {
        reveal_strlit("");
        assert(m@ =~= crate::text::decimal(n as nat) + middle@);
    }
    push_str(&mut m, u64_to_string(g).as_str());
    push_str(&mut m, after);
    m
}

/// Stage 1 as a phase of the scan: the size candidates, reported with the
/// number of size groups they form.
pub fn size_stage(files: &Vec<FileEntry>, min_size: u64, progress: &dyn ProgressHandler) -> (r: Vec<usize>)
    ensures
        strictly_increasing(r@),
        forall|a: int| 0 <= a < r@.len() ==> r@[a] < files@.len() && size_shared(files@, min_size, r@[a] as int),
        forall|k: int| 0 <= k < files@.len() && size_shared(files@, min_size, k) ==> #[trigger] r@.contains(k as usize),
{
    progress.on_phase_start(ScanPhase::SizeGrouping, Some(files.len() as u64));
    let r = size_candidates(files, min_size);
    let mut sizes: Vec<u128> = Vec::new();
    let mut i: usize = 0;
    while i < r.len()
        invariant
            i <= r@.len(),
            forall|a: int| 0 <= a < r@.len() ==> r@[a] < files@.len(),
        decreases r@.len() - i,
    {
        sizes.push(files[r[i]].size as u128);
        i = i + 1;
    }
    let g = count_distinct(&sizes);
    let msg = groups_message(r.len() as u64, " files in ", g as u64, " size groups");
    progress.on_progress(ScanPhase::SizeGrouping, r.len() as u64, msg.as_str());
    progress.on_phase_end(ScanPhase::SizeGrouping);
    r
}

/// Stage 2 as a phase of the scan (its start is announced before the
/// hashing): the positions of the surviving candidates, reported with the
/// number of (size, partial hash) groups they form.
pub fn partial_stage(
    files: &Vec<FileEntry>,
    cands: &Vec<usize>,
    partial: &Vec<Option<String>>,
    progress: &dyn ProgressHandler,
) -> (r: Vec<usize>)
    requires
        cands@.len() == partial@.len(),
        forall|k: int| 0 <= k < cands@.len() ==> cands@[k] < files@.len(),
    ensures
        strictly_increasing(r@),
        forall|a: int|
            0 <= a < r@.len() ==> r@[a] < cands@.len() && partial_shared(files@, cands@, partial@, r@[a] as int),
        forall|k: int|
            0 <= k < cands@.len() && partial_shared(files@, cands@, partial@, k) ==> #[trigger] r@.contains(
                k as usize,
            ),
{
    let r = partial_survivors(files, cands, partial);
    let ids = number_strings(partial);
    let mut keys: Vec<u128> = Vec::new();
    let mut i: usize = 0;
    while i < r.len()
        invariant
            i <= r@.len(),
            ids@.len() == partial@.len(),
            cands@.len() == partial@.len(),
            forall|k: int| 0 <= k < cands@.len() ==> cands@[k] < files@.len(),
            forall|a: int| 0 <= a < r@.len() ==> r@[a] < cands@.len(),
        decreases r@.len() - i,
    {
        let p = r[i];
        let size = files[cands[p]].size as u128;
        let id: u128 = match ids[p] {
            Some(n) => n as u128,
            None => 0,
        };
        assert(size * 0x1_0000_0000_0000_0000 + id <= u128::MAX) by (nonlinear_arith)
            requires
                size < 0x1_0000_0000_0000_0000,
                id < 0x1_0000_0000_0000_0000,
        ;
        keys.push(size * 0x1_0000_0000_0000_0000 + id);
        i = i + 1;
    }
    let g = count_distinct(&keys);
    let msg = groups_message(r.len() as u64, " files in ", g as u64, " partial-hash groups");
    progress.on_progress(ScanPhase::PartialHashing, r.len() as u64, msg.as_str());
    progress.on_phase_end(ScanPhase::PartialHashing);
    r
}

/// Stage 3's grouping as the end of the full-hashing phase: the report,
/// with the number of groups confirmed; `None`, with nothing reported, when
/// the reclaimable bytes of the groups do not fit in a `u64`.
pub fn report_stage(files: &Vec<FileEntry>, hashed: &Vec<(usize, String)>, progress: &dyn ProgressHandler) -> (r:
    Option<DuplicateReport>)
    requires
        forall|p: int| 0 <= p < hashed@.len() ==> (#[trigger] hashed@[p]).0 < files@.len(),
    ensures
        match r {
            Some(rep) => {
                &&& groups_of(files@, hashed_view(hashed@), rep.groups@)
                &&& forall|i: int, j: int|
                    0 <= i < j < rep.groups@.len() ==> group_reclaim(#[trigger] rep.groups@[i]) >= group_reclaim(
                        #[trigger] rep.groups@[j],
                    )
                &&& rep.total_groups == rep.groups@.len()
                &&& rep.total_redundant_files == int_sum(dup_counts(rep.groups@))
                &&& rep.reclaimable_bytes == int_sum(reclaims(rep.groups@))
            },
            None => exists|gs: Seq<DuplicateGroup>|
                groups_of(files@, hashed_view(hashed@), gs) && int_sum(reclaims(gs)) > u64::MAX,
        },
{
    let r = build_duplicate_report(files, hashed);
    if let Some(rep) = &r {
        let msg = count_message("", rep.total_groups as u64, " duplicate groups confirmed");
        progress.on_progress(ScanPhase::FullHashing, rep.total_groups as u64, msg.as_str());
        progress.on_phase_end(ScanPhase::FullHashing);
    }
    r
}

} // verus!
