//! Node identifiers and source routing headers.

use vstd::prelude::*;

verus! {

/// Identifier of a node, unique within one network.
pub type NodeId = u8;

/// Mathematical model of a source route: the hops chosen by the sender and a
/// cursor. While a packet is being handled by a node the cursor names the next
/// hop to visit; a cursor equal to the number of hops means that nothing is
/// left to visit.
pub struct Route {
    pub hops: Seq<NodeId>,
    pub hop_index: int,
}

impl Route {
    /// The hop under the cursor, if the cursor is on the route.
    pub open spec fn current_hop(self) -> Option<NodeId> {
        if 0 <= self.hop_index < self.hops.len() {
            Some(self.hops[self.hop_index])
        } else {
            None
        }
    }

    /// The cursor sits on or directly behind the route.
    pub open spec fn in_bounds(self) -> bool {
        0 <= self.hop_index <= self.hops.len()
    }

    /// The same route with the cursor moved one hop on.
    pub open spec fn advanced(self) -> Route {
        Route { hops: self.hops, hop_index: self.hop_index + 1 }
    }

    /// The route walked the other way. With the cursor on the next hop to
    /// visit, the node holding the packet sits one place before it; in the
    /// reversed route the cursor lands on the first hop behind that node,
    /// which is the hop the packet came from. A cursor of zero has no holder,
    /// so nothing is left to visit; a cursor beyond the route leaves the whole
    /// reversed route to visit.
    pub open spec fn reversed(self) -> Route {
        let n = self.hops.len() as int;
        Route {
            hops: self.hops.reverse(),
            hop_index: if self.hop_index <= 0 {
                n
            } else if self.hop_index > n {
                0
            } else {
                n + 1 - self.hop_index
            },
        }
    }
}

/// Reversing a route twice gives the route back, as long as some node holds
/// the packet, that is, the cursor is at least one and at most the number of
/// hops.
pub proof fn lemma_reverse_twice(r: Route)
    requires
        1 <= r.hop_index <= r.hops.len(),
    ensures
        r.reversed().reversed() == r,
{
    let once = r.reversed();
    assert(once.hops.len() == r.hops.len());
    assert(once.reversed().hops =~= r.hops);
}

/// Reversal keeps the cursor on or directly behind the route, whatever the
/// cursor was.
pub proof fn lemma_reverse_in_bounds(r: Route)
    requires
        0 <= r.hop_index,
    ensures
        r.reversed().in_bounds(),
        r.reversed().hops.len() == r.hops.len(),
{
}

/// The hop a reversed route points at is the one before the holder: two
/// places before the cursor of the route it was made from.
pub proof fn lemma_reverse_points_back(r: Route)
    requires
        2 <= r.hop_index <= r.hops.len(),
    ensures
        r.reversed().current_hop() == Some(r.hops[r.hop_index - 2]),
{
}

/// A source routing header: the hops from sender to destination, and the
/// cursor into them.
#[derive(Debug, PartialEq, Eq)]
pub struct SourceRoutingHeader {
    pub hop_index: usize,
    pub hops: Vec<NodeId>,
}

impl View for SourceRoutingHeader {
    type V = Route;

    open spec fn view(&self) -> Route {
        Route { hops: self.hops@, hop_index: self.hop_index as int }
    }
}

/// A copy of a list of hops.
pub fn copy_hops(hops: &Vec<NodeId>) -> (out: Vec<NodeId>)
    ensures
        out@ == hops@,
{
    let mut out: Vec<NodeId> = Vec::new();
    let mut i: usize = 0;
    while i < hops.len()
        invariant
            i <= hops.len(),
            out@ == hops@.take(i as int),
        decreases hops.len() - i,
    {
        out.push(hops[i]);
        assert(hops@.take(i as int + 1) =~= hops@.take(i as int).push(hops@[i as int]));
        i += 1;
    }
    assert(hops@.take(hops.len() as int) =~= hops@);
    out
}

/// A list of hops in the opposite order.
pub fn reverse_hops(hops: &Vec<NodeId>) -> (out: Vec<NodeId>)
    ensures
        out@ == hops@.reverse(),
{
    let n: usize = hops.len();
    let mut out: Vec<NodeId> = Vec::new();
    let mut i: usize = 0;
    while i < n
        invariant
            n == hops.len(),
            i <= n,
            out@.len() == i,
            forall|k: int| 0 <= k < i ==> out@[k] == hops@[n - 1 - k],
        decreases n - i,
    {
        out.push(hops[n - 1 - i]);
        i += 1;
    }
    assert(out@ =~= hops@.reverse());
    out
}

impl SourceRoutingHeader {
    /// A header over `hops` with the cursor at `hop_index`.
    pub fn new(hops: Vec<NodeId>, hop_index: usize) -> (header: Self)
        ensures
            header@ == (Route { hops: hops@, hop_index: hop_index as int }),
    {
        SourceRoutingHeader { hop_index, hops }
    }

    /// A copy of this header.
    pub fn duplicate(&self) -> (copy: Self)
        ensures
            copy@ == self@,
    {
        SourceRoutingHeader { hop_index: self.hop_index, hops: copy_hops(&self.hops) }
    }

    /// The hop under the cursor, or `None` where the cursor is off the route.
    pub fn current_hop(&self) -> (hop: Option<NodeId>)
        ensures
            hop == self@.current_hop(),
    {
        if self.hop_index < self.hops.len() {
            Some(self.hops[self.hop_index])
        } else {
            None
        }
    }

    /// Whether nothing is left to visit: the cursor stands behind the last hop.
    pub fn is_exhausted(&self) -> (done: bool)
        ensures
            done == (self@.hop_index >= self@.hops.len()),
    {
        self.hop_index >= self.hops.len()
    }

    /// Moves the cursor one hop on.
    pub fn increase_hop_index(&mut self)
        requires
            old(self).hop_index < usize::MAX,
        ensures
            final(self)@ == old(self)@.advanced(),
    {
        self.hop_index = self.hop_index + 1;
    }

    /// Turns the header round: the hops are reversed and the cursor is set on
    /// the first hop not yet visited in the new direction.
    pub fn reverse(&mut self)
        ensures
            final(self)@ == old(self)@.reversed(),
    {
        let n: usize = self.hops.len();
        let cursor: usize = if self.hop_index == 0 {
            n
        } else if self.hop_index > n {
            0
        } else {
            n - (self.hop_index - 1)
        };
        let turned: Vec<NodeId> = reverse_hops(&self.hops);
        self.hops = turned;
        self.hop_index = cursor;
    }
}

} // verus!
