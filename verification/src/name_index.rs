//! The index from names to positions, kept in an `indexmap` map.
//!
//! Nothing here is proved: each function states what the map does, as its
//! source and documentation show it, over the finite map from names to
//! positions that it holds. The keys are strings, which the map tells apart
//! by their text.

use indexmap::IndexMap;
use vstd::prelude::*;

verus! {

/// `indexmap::IndexMap`: a hash map that keeps its entries in the order of
/// their insertion. What it holds is known only through the functions below.
#[verifier::external_type_specification]
#[verifier::external_body]
#[verifier::reject_recursive_types(K)]
#[verifier::reject_recursive_types(V)]
#[verifier::reject_recursive_types(S)]
pub struct ExIndexMap<K, V, S>(IndexMap<K, V, S>);

/// The positions that an index holds, by name.
pub uninterp spec fn index_entries(index: IndexMap<String, usize>) -> Map<Seq<char>, usize>;

/// `IndexMap::new`: a map that holds nothing.
#[verifier::external_body]
pub(crate) fn new_index() -> (index: IndexMap<String, usize>)
    ensures
        index_entries(index).dom() == Set::<Seq<char>>::empty(),
{
    IndexMap::new()
}

/// `IndexMap::get`: the value stored for the key that equals `name`, if one
/// is stored.
#[verifier::external_body]
pub(crate) fn index_get(index: &IndexMap<String, usize>, name: &str) -> (r: Option<usize>)
    ensures
        r == (if index_entries(*index).contains_key(name@) {
            Some(index_entries(*index)[name@])
        } else {
            None
        }),
{
    index.get(name).copied()
}

/// `IndexMap::insert`: stores `position` for `name`, in place of what was
/// stored for it before, if anything was; every other key keeps its value.
#[verifier::external_body]
pub(crate) fn index_insert(index: &mut IndexMap<String, usize>, name: String, position: usize)
    ensures
        index_entries(*final(index)) == index_entries(*old(index)).insert(name@, position),
{
    index.insert(name, position);
}

} // verus!
