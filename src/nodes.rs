//! Append-only node containers: a scope's signals, effects and resources
//! are kept in `elsa::FrozenVec`s of the collaborators' node handles.
use vstd::prelude::*;
use elsa::FrozenVec;

verus! {

#[verifier::external_type_specification]
#[verifier::external_body]
#[verifier::reject_recursive_types(T)]
pub struct ExFrozenVec<T>(FrozenVec<T>);

/// The handles a node container holds, in the order they were pushed.
pub uninterp spec fn frozen_items(v: FrozenVec<u64>) -> Seq<u64>;

/// Relies on `FrozenVec::new`: an empty container.
#[verifier::external_body]
pub(crate) fn frozen_new() -> (r: FrozenVec<u64>)
    ensures
        frozen_items(r) == Seq::<u64>::empty(),
{
    FrozenVec::new()
}

/// Relies on `FrozenVec::push`: appends at the back, keeping every earlier
/// element where it was.
#[verifier::external_body]
pub(crate) fn frozen_push(v: &mut FrozenVec<u64>, x: u64)
    ensures
        frozen_items(*final(v)) == frozen_items(*old(v)).push(x),
{
    v.push(x)
}

/// Relies on `FrozenVec::len`: the number of elements.
#[verifier::external_body]
pub(crate) fn frozen_len(v: &FrozenVec<u64>) -> (r: usize)
    ensures
        r == frozen_items(*v).len(),
{
    v.len()
}

/// Relies on `FrozenVec::get_copy`: the element at `i`, if there is one.
#[verifier::external_body]
pub(crate) fn frozen_get(v: &FrozenVec<u64>, i: usize) -> (r: Option<u64>)
    ensures
        r == if i < frozen_items(*v).len() {
            Some(frozen_items(*v)[i as int])
        } else {
            None
        },
{
    v.get_copy(i)
}

} // verus!
