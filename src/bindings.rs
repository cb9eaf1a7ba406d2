//! The per-scope binding map. It is rustc_hash's `FxHashMap` (std's
//! `HashMap` with the Fx hasher), seen by the proofs through the map of
//! names it holds.

use rustc_hash::FxHashMap;
use vstd::prelude::*;

use crate::scope::ScopeInfoId;

verus! {

/// rustc_hash's `FxHasher`, carried in the map's type and never inspected.
#[verifier::external_type_specification]
#[verifier::external_body]
pub struct ExFxHasher(rustc_hash::FxHasher);

/// std's `BuildHasherDefault`, carried in the map's type and never inspected.
#[verifier::external_type_specification]
#[verifier::external_body]
#[verifier::reject_recursive_types(H)]
pub struct ExBuildHasherDefault<H>(std::hash::BuildHasherDefault<H>);

/// The entries of a binding map, keyed by the characters of each name.
pub uninterp spec fn bindings_of(m: FxHashMap<String, ScopeInfoId>) -> Map<Seq<char>, ScopeInfoId>;

/// Relies on `Default` for `HashMap` (rustc_hash's `FxHashMap`): a new map
/// holds no entries.
#[verifier::external_body]
pub(crate) fn empty_bindings() -> (r: FxHashMap<String, ScopeInfoId>)
    ensures
        bindings_of(r).dom() == Set::<Seq<char>>::empty(),
{
    FxHashMap::default()
}

/// Relies on `HashMap::get`: the value stored under a key equal to `key`, if
/// there is one. `String` keys compare by their characters.
#[verifier::external_body]
pub(crate) fn binding_get(m: &FxHashMap<String, ScopeInfoId>, key: &str) -> (r: Option<
    ScopeInfoId,
>)
    ensures
        r == (if bindings_of(*m).contains_key(key@) {
            Some(bindings_of(*m)[key@])
        } else {
            None
        }),
{
    m.get(key).copied()
}

/// Relies on `HashMap::insert`: afterwards `key` maps to `value`, and every
/// other entry is kept.
#[verifier::external_body]
pub(crate) fn binding_insert(m: &mut FxHashMap<String, ScopeInfoId>, key: String, value: ScopeInfoId)
    ensures
        bindings_of(*final(m)) == bindings_of(*old(m)).insert(key@, value),
{
    m.insert(key, value);
}

/// Relies on `HashMap::remove`: afterwards no entry for `key` is left, and
/// every other entry is kept.
#[verifier::external_body]
pub(crate) fn binding_remove(m: &mut FxHashMap<String, ScopeInfoId>, key: &str)
    ensures
        bindings_of(*final(m)) == bindings_of(*old(m)).remove(key@),
{
    m.remove(key);
}

} // verus!
