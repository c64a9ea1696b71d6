//! The concurrent hash map of the `dashmap` crate, as the data store and
//! the session manager hold it. Each user declares the name of its map's
//! contents and the calls it makes, next to its own code.

use vstd::prelude::*;
use dashmap::DashMap;

verus! {

#[verifier::external_type_specification]
#[verifier::external_body]
#[verifier::reject_recursive_types(K)]
#[verifier::reject_recursive_types(V)]
#[verifier::reject_recursive_types(S)]
pub struct ExDashMap<K, V, S>(DashMap<K, V, S>);

} // verus!
