//! The floods a node has already handled.

use std::collections::HashSet;
use vstd::prelude::*;
use crate::network::NodeId;

verus! {

broadcast use vstd::std_specs::hash::group_hash_axioms;

/// The number under which a flood is remembered: the flood's identifier in
/// the upper bits, its initiator in the lowest eight.
pub open spec fn flood_key(flood_id: u64, initiator_id: NodeId) -> u128 {
    (flood_id as u128 * 256 + initiator_id as u128) as u128
}

/// Different floods are remembered under different numbers.
pub proof fn lemma_flood_key_injective(a: (u64, NodeId), b: (u64, NodeId))
    ensures
        flood_key(a.0, a.1) == flood_key(b.0, b.1) <==> a == b,
{
}

/// The set of floods, each named by its identifier and its initiator, that a
/// node has handled. Nothing ever leaves it.
#[derive(Debug)]
pub struct SeenFloods {
    numbers: HashSet<u128>,
}

impl View for SeenFloods {
    type V = Set<(u64, NodeId)>;

    closed spec fn view(&self) -> Set<(u64, NodeId)> {
        Set::new(|flood: (u64, NodeId)| self.numbers@.contains(flood_key(flood.0, flood.1)))
    }
}

impl SeenFloods {
    /// The empty set.
    pub fn new() -> (seen: Self)
        ensures
            seen@ == Set::<(u64, NodeId)>::empty(),
    {
        let seen = SeenFloods { numbers: HashSet::new() };
        assert(seen@ =~= Set::<(u64, NodeId)>::empty());
        seen
    }

    /// Whether the flood `flood_id` of `initiator_id` has been handled.
    pub fn has_seen(&self, flood_id: u64, initiator_id: NodeId) -> (seen: bool)
        ensures
            seen == self@.contains((flood_id, initiator_id)),
    {
        let number: u128 = flood_id as u128 * 256 + initiator_id as u128;
        self.numbers.contains(&number)
    }

    /// Records the flood `flood_id` of `initiator_id` as handled.
    pub fn mark_seen(&mut self, flood_id: u64, initiator_id: NodeId)
        ensures
            final(self)@ == old(self)@.insert((flood_id, initiator_id)),
    {
        let number: u128 = flood_id as u128 * 256 + initiator_id as u128;
        self.numbers.insert(number);
        assert forall|flood: (u64, NodeId)|
            final(self)@.contains(flood) <==> old(self)@.insert((flood_id, initiator_id)).contains(
                flood,
            ) by {
            lemma_flood_key_injective(flood, (flood_id, initiator_id));
        }
        assert(final(self)@ =~= old(self)@.insert((flood_id, initiator_id)));
    }
}

} // verus!
