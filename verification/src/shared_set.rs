//! The shared dedup set: a concurrency-safe set of barcode values with
//! atomic insert-if-absent and no removal, kept for the duration of one
//! run. The set itself comes from the dashmap crate; the library
//! states what its calls do and proves everything around them.

use vstd::prelude::*;

use dashmap::DashSet;

verus! {

#[verifier::external_type_specification]
#[verifier::external_body]
#[verifier::reject_recursive_types(K)]
#[verifier::reject_recursive_types(S)]
pub struct ExDashSet<K, S>(DashSet<K, S>);

/// The barcode values a shared set holds.
pub uninterp spec fn shared_set_contents(s: DashSet<Vec<u8>>) -> Set<Seq<u8>>;

/// Relies on dashmap::DashSet::new: a freshly built set holds nothing.
#[verifier::external_body]
pub(crate) fn shared_set_new() -> (s: DashSet<Vec<u8>>)
    ensures
        shared_set_contents(s) == Set::<Seq<u8>>::empty(),
{
    DashSet::new()
}

/// Relies on dashmap::DashSet::insert: the value joins the set, and
/// the call reports whether it was absent before.
#[verifier::external_body]
pub(crate) fn shared_set_insert(s: &mut DashSet<Vec<u8>>, v: Vec<u8>) -> (r: bool)
    ensures
        r == !shared_set_contents(*old(s)).contains(v@),
        shared_set_contents(*final(s)) == shared_set_contents(*old(s)).insert(v@),
{
    s.insert(v)
}

/// Relies on dashmap::DashSet::into_iter: every held value comes out
/// exactly once, in an order this contract leaves open.
#[verifier::external_body]
pub(crate) fn shared_set_into_vec(s: DashSet<Vec<u8>>) -> (r: Vec<Vec<u8>>)
    ensures
        r@.map_values(|v: Vec<u8>| v@).to_set() == shared_set_contents(s),
        forall|i: int, j: int| 0 <= i < j < r@.len() ==> r@[i]@ != r@[j]@,
{
    s.into_iter().collect()
}

} // verus!
