//! Container ids.

use vstd::prelude::*;

use crate::tree::{counted_on, Nodes, Tree};

verus! {

/// Whether `id` is marked as a randomly drawn UUID: the digit that gives its
/// version is 4, and the two bits that give its variant are 1 and 0.
pub open spec fn is_random_uuid(id: u128) -> bool {
    &&& (id >> 76) & 0xf == 4
    &&& (id >> 62) & 3 == 2
}

/// Draws a container id.
///
/// Calls `uuid::Uuid::new_v4` and hands out its 128 bits, the most significant
/// first. Nothing is claimed of which id is drawn, only that it carries the
/// marks of a random one.
#[verifier::external_body]
pub(crate) fn draw_id() -> (id: u128)
    ensures
        is_random_uuid(id),
{
    uuid::Uuid::new_v4().as_u128()
}

/// Whether `id` can be given to a new container: it is not in use, and it is
/// marked as random unless a random id has been found in use.
pub open spec fn is_fresh(m: Nodes, id: u128) -> bool {
    &&& !m.contains_key(id)
    &&& is_random_uuid(id) || exists|taken: u128| #[trigger]
        is_random_uuid(taken) && m.contains_key(taken)
}

/// An id for a new container: a random one, or the next that is free should
/// that one be in use.
pub fn fresh_id(tree: &Tree) -> (id: u128)
    ensures
        is_fresh(tree@, id),
{
    let drawn: u128 = draw_id();
    let id: u128 = tree.free_id(drawn);
    proof {
        assert(counted_on(drawn, 0) == drawn);
    }
    id
}

} // verus!
