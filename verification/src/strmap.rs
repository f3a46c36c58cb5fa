//! A `std::collections::HashMap` from strings to indices, used to number
//! distinct strings.
//!
//! vstd models `HashMap` only for keys whose hashing it knows; these wrappers
//! state, for `String` keys, what `HashMap` documents: `get` finds what the
//! last `insert` of an equal key put there.

use vstd::prelude::*;
use std::collections::HashMap;

verus! {

/// A map numbering strings.
pub type StrIndex = HashMap<String, usize>;

/// The entries of a string-keyed index map, keys taken by their characters.
pub uninterp spec fn str_index_view(m: StrIndex) -> Map<Seq<char>, usize>;

/// `HashMap::new()`: no entries.
#[verifier::external_body]
pub(crate) fn str_index_new() -> (r: StrIndex)
    ensures
        str_index_view(r).dom() == Set::<Seq<char>>::empty(),
{
    HashMap::new()
}

/// `HashMap::get`: the value stored under an equal key, if any.
#[verifier::external_body]
pub(crate) fn str_index_get(m: &StrIndex, k: &str) -> (r: Option<usize>)
    ensures
        r == (if str_index_view(*m).contains_key(k@) {
            Some(str_index_view(*m)[k@])
        } else {
            None
        }),
{
    m.get(k).copied()
}

/// `HashMap::insert`: stores `v` under `k`, replacing an equal key's value.
#[verifier::external_body]
pub(crate) fn str_index_insert(m: &mut StrIndex, k: String, v: usize)
    ensures
        str_index_view(*final(m)) == str_index_view(*old(m)).insert(k@, v),
{
    m.insert(k, v);
}

} // verus!
