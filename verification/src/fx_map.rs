//! Hash maps that hash fast.
use rustc_hash::FxHashMap;
use vstd::prelude::*;

verus! {

/// `rustc_hash::FxHasher`, the hasher of these maps.
#[verifier::external_type_specification]
#[verifier::external_body]
pub struct ExFxHasher(rustc_hash::FxHasher);

/// `core::hash::BuildHasherDefault`, which makes the hashers of these maps.
#[verifier::external_type_specification]
#[verifier::external_body]
#[verifier::reject_recursive_types(H)]
pub struct ExBuildHasherDefault<H>(core::hash::BuildHasherDefault<H>);

/// `FxHashMap::default` makes a map with nothing in it.
#[verifier::external_body]
pub(crate) fn fx_map_default<K, V>() -> (map: FxHashMap<K, V>)
    ensures
        map@.dom() == Set::<K>::empty(),
{
    FxHashMap::default()
}

} // verus!
