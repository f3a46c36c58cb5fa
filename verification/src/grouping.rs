//! Grouping by key: which items share a key with another item, numbering of
//! distinct strings, and a stable ordering by integer keys.

use vstd::prelude::*;
use std::collections::HashMap;
use crate::strmap::{str_index_get, str_index_insert, str_index_new, str_index_view, StrIndex};

verus! {

broadcast use vstd::std_specs::hash::group_hash_axioms;

/// Whether item `k` has a key that another item also has.
pub open spec fn shares_key(keys: Seq<Option<u128>>, k: int) -> bool {
    keys[k] is Some && exists|j: int| 0 <= j < keys.len() && j != k && keys[j] == keys[k]
}

/// Whether `r` lists indices in strictly increasing order.
pub open spec fn strictly_increasing(r: Seq<usize>) -> bool {
    forall|a: int, b: int| 0 <= a < b < r.len() ==> r[a] < r[b]
}

/// How many of the first `n` keys equal `Some(v)`.
pub open spec fn key_count(keys: Seq<Option<u128>>, v: u128, n: int) -> nat
    decreases n,
{
    if n <= 0 {
        0
    } else {
        key_count(keys, v, n - 1) + (if keys[n - 1] == Some(v) {
            1nat
        } else {
            0nat
        })
    }
}

proof fn lemma_count_le(keys: Seq<Option<u128>>, v: u128, n: int)
    ensures
        key_count(keys, v, n) <= if n < 0 { 0 } else { n },
    decreases n,
{
    if n > 0 {
        lemma_count_le(keys, v, n - 1);
    }
}

proof fn lemma_count_two(keys: Seq<Option<u128>>, v: u128, n: int, i: int, j: int)
    requires
        0 <= i < n,
        0 <= j < n,
        i != j,
        keys[i] == Some(v),
        keys[j] == Some(v),
    ensures
        key_count(keys, v, n) >= 2,
    decreases n,
{
    if i == n - 1 {
        lemma_count_one(keys, v, n - 1, j);
    } else if j == n - 1 {
        lemma_count_one(keys, v, n - 1, i);
    } else {
        lemma_count_two(keys, v, n - 1, i, j);
    }
}

proof fn lemma_count_one(keys: Seq<Option<u128>>, v: u128, n: int, i: int)
    requires
        0 <= i < n,
        keys[i] == Some(v),
    ensures
        key_count(keys, v, n) >= 1,
    decreases n,
{
    if i < n - 1 {
        lemma_count_one(keys, v, n - 1, i);
    }
}

proof fn lemma_count_witness(keys: Seq<Option<u128>>, v: u128, n: int, i: int)
    requires
        0 <= i < n,
        keys[i] == Some(v),
        key_count(keys, v, n) >= 2,
    ensures
        exists|j: int| 0 <= j < n && j != i && keys[j] == Some(v),
    decreases n,
{
    if keys[n - 1] == Some(v) && n - 1 != i {
        assert(keys[n - 1] == Some(v));
    } else if n - 1 == i {
        // the other occurrence is among the first n - 1
        lemma_count_pos_witness(keys, v, n - 1);
    } else {
        lemma_count_witness(keys, v, n - 1, i);
    }
}

proof fn lemma_count_pos_witness(keys: Seq<Option<u128>>, v: u128, n: int)
    requires
        key_count(keys, v, n) >= 1,
    ensures
        exists|j: int| 0 <= j < n && keys[j] == Some(v),
    decreases n,
{
    if n > 0 && keys[n - 1] != Some(v) {
        lemma_count_pos_witness(keys, v, n - 1);
    }
}

/// The indices of items whose key another item shares, in increasing order.
pub fn shared_keys(keys: &Vec<Option<u128>>) -> (r: Vec<usize>)
    ensures
        strictly_increasing(r@),
        forall|a: int| 0 <= a < r@.len() ==> r@[a] < keys@.len() && shares_key(keys@, r@[a] as int),
        forall|k: int| 0 <= k < keys@.len() && shares_key(keys@, k) ==> r@.contains(k as usize),
{
    let mut counts: HashMap<u128, usize> = HashMap::new();
    let mut i: usize = 0;
    while i < keys.len()
        invariant
            i <= keys@.len(),
            forall|v: u128| #[trigger] counts@.contains_key(v) <==> key_count(keys@, v, i as int) > 0,
            forall|v: u128| #[trigger] counts@.contains_key(v) ==> counts@[v] == key_count(keys@, v, i as int),
            forall|v: u128| #[trigger] key_count(keys@, v, i as int) <= i,
        decreases keys@.len() - i,
    {
        proof {
            assert forall|v: u128| key_count(keys@, v, i + 1) == key_count(keys@, v, i as int) + (if keys@[i as int] == Some(v) { 1nat } else { 0nat }) by {}
            assert forall|v: u128| #[trigger] key_count(keys@, v, i + 1) <= i + 1 by {
                lemma_count_le(keys@, v, i + 1);
            }
        }
        match keys[i] {
            Some(v) => {
                let c: usize = match counts.get(&v) {
                    Some(c) => *c,
                    None => 0,
                };
                proof {
                    assert(key_count(keys@, v, i as int) <= i);
                }
                counts.insert(v, c + 1);
            },
            None => {},
        }
        i = i + 1;
    }
    let mut r: Vec<usize> = Vec::new();
    let mut k: usize = 0;
    while k < keys.len()
        invariant
            k <= keys@.len(),
            forall|v: u128| #[trigger] counts@.contains_key(v) <==> key_count(keys@, v, keys@.len() as int) > 0,
            forall|v: u128| #[trigger] counts@.contains_key(v) ==> counts@[v] == key_count(keys@, v, keys@.len() as int),
            strictly_increasing(r@),
            forall|a: int| 0 <= a < r@.len() ==> r@[a] < k && shares_key(keys@, r@[a] as int),
            forall|j: int| 0 <= j < k && shares_key(keys@, j) ==> r@.contains(j as usize),
        decreases keys@.len() - k,
    {
        match keys[k] {
            Some(v) => {
                let c: usize = match counts.get(&v) {
                    Some(c) => *c,
                    None => 0,
                };
                proof {
                    lemma_count_one(keys@, v, keys@.len() as int, k as int);
                }
                if c >= 2 {
                    proof {
                        lemma_count_witness(keys@, v, keys@.len() as int, k as int);
                    }
                    let ghost before = r@;
                    r.push(k);
                    proof {
                        assert(r@[r@.len() - 1] == k);
                        assert forall|j: int| 0 <= j < k + 1 && shares_key(keys@, j) implies r@.contains(j as usize) by {
                            if j < k {
                                assert(before.contains(j as usize));
                                let t = choose|t: int| 0 <= t < before.len() && before[t] == j as usize;
                                assert(r@[t] == j as usize);
                            }
                        }
                    }
                } else {
                    proof {
                        if shares_key(keys@, k as int) {
                            let j = choose|j: int| 0 <= j < keys@.len() && j != k && keys@[j] == keys@[k as int];
                            lemma_count_two(keys@, v, keys@.len() as int, k as int, j);
                        }
                    }
                }
            },
            None => {},
        }
        k = k + 1;
    }
    r
}

/// Whether `id` is the number `m` gives the string `s`, when there is one.
pub open spec fn numbered(m: Map<Seq<char>, usize>, s: Option<String>, id: Option<usize>) -> bool {
    s matches Some(x) ==> m.contains_key(x@) && id == Some(m[x@])
}

/// Numbers distinct strings: present strings get numbers, equal strings
/// equal numbers, different strings different numbers.
pub fn number_strings(strs: &Vec<Option<String>>) -> (ids: Vec<Option<usize>>)
    ensures
        ids@.len() == strs@.len(),
        forall|k: int| 0 <= k < strs@.len() ==> (#[trigger] ids@[k] is Some) == (strs@[k] is Some),
        forall|k: int| 0 <= k < strs@.len() && ids@[k] is Some ==> (#[trigger] ids@[k])->0 < strs@.len(),
        forall|a: int, b: int|
            0 <= a < strs@.len() && 0 <= b < strs@.len() && strs@[a] is Some && strs@[b] is Some
                ==> ((ids@[a] == ids@[b]) <==> (strs@[a]->0@ == strs@[b]->0@)),
{
    let mut m: StrIndex = str_index_new();
    let mut ids: Vec<Option<usize>> = Vec::new();
    let mut next: usize = 0;
    let mut i: usize = 0;
    while i < strs.len()
        invariant
            i <= strs@.len(),
            next <= i,
            ids@.len() == i,
            forall|s: Seq<char>| #[trigger] str_index_view(m).contains_key(s) ==> str_index_view(m)[s] < next,
            forall|s: Seq<char>, t: Seq<char>|
                #[trigger] str_index_view(m).contains_key(s) && #[trigger] str_index_view(m).contains_key(t)
                    && str_index_view(m)[s] == str_index_view(m)[t] ==> s == t,
            forall|k: int| 0 <= k < i ==> (#[trigger] ids@[k] is Some) == (strs@[k] is Some),
            forall|k: int| 0 <= k < i && ids@[k] is Some ==> (#[trigger] ids@[k])->0 < next,
            forall|k: int| 0 <= k < i ==> numbered(str_index_view(m), strs@[k], #[trigger] ids@[k]),
        decreases strs@.len() - i,
    {
        let ghost ids0 = ids@;
        let ghost m0 = str_index_view(m);
        match &strs[i] {
            Some(s) => {
                match str_index_get(&m, s.as_str()) {
                    Some(id) => {
                        ids.push(Some(id));
                    },
                    None => {
                        str_index_insert(&mut m, s.clone(), next);
                        ids.push(Some(next));
                        next = next + 1;
                    },
                }
            },
            None => {
                ids.push(None);
            },
        }
        proof {
            assert forall|k: int| 0 <= k < i + 1 implies numbered(str_index_view(m), strs@[k], #[trigger] ids@[k]) by {
                if k < i {
                    assert(ids@[k] == ids0[k]);
                    assert(numbered(m0, strs@[k], ids0[k]));
                }
            }
            assert forall|k: int| 0 <= k < i + 1 implies (#[trigger] ids@[k] is Some) == (strs@[k] is Some) by {
                if k < i {
                    assert(ids@[k] == ids0[k]);
                }
            }
            assert forall|k: int| 0 <= k < i + 1 && ids@[k] is Some implies (#[trigger] ids@[k])->0 < next by {
                if k < i {
                    assert(ids@[k] == ids0[k]);
                } else {
                    assert(numbered(str_index_view(m), strs@[k], ids@[k]));
                }
            }
        }
        i = i + 1;
    }
    proof {
        assert forall|a: int, b: int|
            0 <= a < strs@.len() && 0 <= b < strs@.len() && strs@[a] is Some && strs@[b] is Some
                implies ((ids@[a] == ids@[b]) <==> (strs@[a]->0@ == strs@[b]->0@)) by {
            assert(numbered(str_index_view(m), strs@[a], ids@[a]));
            assert(numbered(str_index_view(m), strs@[b], ids@[b]));
        }
    }
    ids
}

/// Whether index `a` comes before index `b` in the stable ascending order by
/// `keys`: a smaller key first, and for equal keys the earlier index.
pub open spec fn key_before(keys: Seq<i128>, a: usize, b: usize) -> bool {
    keys[a as int] < keys[b as int] || (keys[a as int] == keys[b as int] && a < b)
}

/// Whether `r` lists every index of `keys` once, in stable ascending key order.
pub open spec fn is_stable_order(keys: Seq<i128>, r: Seq<usize>) -> bool {
    &&& r.len() == keys.len()
    &&& forall|a: int| 0 <= a < r.len() ==> r[a] < keys.len()
    &&& forall|a: int, b: int| 0 <= a < b < r.len() ==> key_before(keys, r[a], r[b])
    &&& forall|k: int| 0 <= k < keys.len() ==> #[trigger] r.contains(k as usize)
}

/// The indices of `keys` in stable ascending order of key (a stable sort).
pub fn stable_order(keys: &Vec<i128>) -> (r: Vec<usize>)
    ensures
        is_stable_order(keys@, r@),
{
    let mut r: Vec<usize> = Vec::new();
    let mut i: usize = 0;
    while i < keys.len()
        invariant
            i <= keys@.len(),
            r@.len() == i,
            forall|a: int| 0 <= a < r@.len() ==> r@[a] < i,
            forall|a: int, b: int| 0 <= a < b < r@.len() ==> key_before(keys@, r@[a], r@[b]),
            forall|k: int| 0 <= k < i ==> #[trigger] r@.contains(k as usize),
        decreases keys@.len() - i,
    {
        // position: after every entry whose key is at most keys[i]
        let ghost before = r@;
        let mut p: usize = r.len();
        while p > 0 && keys[r[p - 1]] > keys[i]
            invariant
                r@ == before,
                p <= r@.len(),
                r@.len() == i,
                i < keys@.len(),
                forall|a: int| 0 <= a < r@.len() ==> r@[a] < i,
                forall|a: int| p <= a < r@.len() ==> keys@[r@[a] as int] > keys@[i as int],
            decreases p,
        {
            p = p - 1;
        }
        proof {
            if p > 0 {
                assert(keys@[r@[p - 1] as int] <= keys@[i as int]);
            }
            assert forall|a: int| 0 <= a < p implies key_before(keys@, before[a], i) by {
                if a < p - 1 {
                    assert(key_before(keys@, before[a], before[p - 1]));
                }
            }
        }
        r.insert(p, i);
        proof {
            assert(r@ == before.insert(p as int, i));
            assert forall|a: int, b: int| 0 <= a < b < r@.len() implies key_before(keys@, r@[a], r@[b]) by {
                if a < p && b < p {
                    assert(r@[a] == before[a] && r@[b] == before[b]);
                } else if a < p && b == p {
                } else if a < p && b > p {
                    assert(r@[b] == before[b - 1]);
                    assert(key_before(keys@, before[a], i));
                    assert(keys@[before[b - 1] as int] > keys@[i as int]);
                } else if a == p {
                    assert(r@[b] == before[b - 1]);
                } else {
                    assert(r@[a] == before[a - 1] && r@[b] == before[b - 1]);
                }
            }
            assert forall|k: int| 0 <= k < i + 1 implies #[trigger] r@.contains(k as usize) by {
                if k == i {
                    assert(r@[p as int] == i);
                } else {
                    assert(before.contains(k as usize));
                    let t = choose|t: int| 0 <= t < before.len() && before[t] == k as usize;
                    if t < p {
                        assert(r@[t] == k as usize);
                    } else {
                        assert(r@[t + 1] == k as usize);
                    }
                }
            }
            assert forall|a: int| 0 <= a < r@.len() implies r@[a] < i + 1 by {
                if a < p {
                    assert(r@[a] == before[a]);
                } else if a > p {
                    assert(r@[a] == before[a - 1]);
                }
            }
        }
        i = i + 1;
    }
    r
}

/// Whether the key of item `k` occurs before it.
pub open spec fn seen_before(keys: Seq<u128>, k: int) -> bool {
    exists|j: int| 0 <= j < k && keys[j] == keys[k]
}

/// The number of distinct keys among the first `n` items: the items whose
/// key does not occur before them.
pub open spec fn distinct_count(keys: Seq<u128>, n: int) -> nat
    decreases n,
{
    if n <= 0 {
        0
    } else {
        distinct_count(keys, n - 1) + (if seen_before(keys, n - 1) {
            0nat
        } else {
            1nat
        })
    }
}

proof fn lemma_distinct_le(keys: Seq<u128>, n: int)
    ensures
        distinct_count(keys, n) <= if n < 0 { 0 } else { n },
    decreases n,
{
    if n > 0 {
        lemma_distinct_le(keys, n - 1);
    }
}

/// The number of distinct keys.
pub fn count_distinct(keys: &Vec<u128>) -> (r: usize)
    ensures
        r == distinct_count(keys@, keys@.len() as int),
{
    let mut seen: HashMap<u128, bool> = HashMap::new();
    let mut count: usize = 0;
    let mut i: usize = 0;
    while i < keys.len()
        invariant
            i <= keys@.len(),
            count == distinct_count(keys@, i as int),
            forall|v: u128| #[trigger] seen@.contains_key(v) <==> exists|j: int| 0 <= j < i && keys@[j] == v,
        decreases keys@.len() - i,
    {
        proof {
            lemma_distinct_le(keys@, i as int);
        }
        let v = keys[i];
        let known = match seen.get(&v) {
            Some(_) => true,
            None => false,
        };
        proof {
            assert(known == seen_before(keys@, i as int));
        }
        if !known {
            count = count + 1;
            seen.insert(v, true);
        }
        i = i + 1;
        proof {
            assert forall|w: u128| #[trigger] seen@.contains_key(w) <==> exists|j: int| 0 <= j < i && keys@[j] == w by {
                if seen@.contains_key(w) && w != v {
                    let j = choose|j: int| 0 <= j < i - 1 && keys@[j] == w;
                }
                if exists|j: int| 0 <= j < i && keys@[j] == w {
                    let j = choose|j: int| 0 <= j < i && keys@[j] == w;
                    if j < i - 1 {
                        assert(exists|j2: int| 0 <= j2 < i - 1 && keys@[j2] == w);
                    }
                }
            }
        }
    }
    count
}

} // verus!
