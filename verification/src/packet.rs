//! The packets that travel between nodes, and their mathematical models.

use vstd::prelude::*;
use crate::network::{NodeId, Route, SourceRoutingHeader};

verus! {

/// Number of payload bytes a fragment carries.
pub const FRAGMENT_DSIZE: usize = 128;

/// What kind of node an entry of a flood's path trace is.
#[derive(Clone, Copy, Debug, PartialEq, Eq, Structural)]
pub enum NodeType {
    Client,
    Drone,
    Server,
}

/// One piece of a message.
#[derive(Clone, Copy, Debug, PartialEq, Eq)]
pub struct Fragment {
    pub fragment_index: u64,
    pub total_n_fragments: u64,
    pub length: u8,
    pub data: [u8; FRAGMENT_DSIZE],
}

/// Confirms that the fragment with this index arrived.
#[derive(Clone, Copy, Debug, PartialEq, Eq, Structural)]
pub struct Ack {
    pub fragment_index: u64,
}

/// Why a packet could not go on.
#[derive(Clone, Copy, Debug, PartialEq, Eq, Structural)]
pub enum NackType {
    /// The node named here has no link to the next hop.
    ErrorInRouting(NodeId),
    /// The route ends at a drone.
    DestinationIsDrone,
    /// The fragment was discarded on purpose.
    Dropped,
    /// The node named here received a packet addressed to another node.
    UnexpectedRecipient(NodeId),
}

/// Reports that the fragment with this index did not go on, and why.
#[derive(Clone, Copy, Debug, PartialEq, Eq, Structural)]
pub struct Nack {
    pub fragment_index: u64,
    pub nack_type: NackType,
}

/// A topology-discovery request. The trace lists the nodes it has passed.
#[derive(Debug, PartialEq, Eq)]
pub struct FloodRequest {
    pub flood_id: u64,
    pub initiator_id: NodeId,
    pub path_trace: Vec<(NodeId, NodeType)>,
}

/// The answer to a flood request: the trace at the point where the flood
/// stopped.
#[derive(Debug, PartialEq, Eq)]
pub struct FloodResponse {
    pub flood_id: u64,
    pub path_trace: Vec<(NodeId, NodeType)>,
}

/// What a packet carries.
#[derive(Debug, PartialEq, Eq)]
pub enum PacketType {
    MsgFragment(Fragment),
    Ack(Ack),
    Nack(Nack),
    FloodRequest(FloodRequest),
    FloodResponse(FloodResponse),
}

/// A packet: the session it belongs to, its route, and what it carries.
#[derive(Debug, PartialEq, Eq)]
pub struct Packet {
    pub routing_header: SourceRoutingHeader,
    pub session_id: u64,
    pub pack_type: PacketType,
}

/// Model of a flood request.
pub struct FloodRequestView {
    pub flood_id: u64,
    pub initiator_id: NodeId,
    pub path_trace: Seq<(NodeId, NodeType)>,
}

/// Model of a flood response.
pub struct FloodResponseView {
    pub flood_id: u64,
    pub path_trace: Seq<(NodeId, NodeType)>,
}

/// Model of a packet's payload.
pub enum PacketTypeView {
    MsgFragment(Fragment),
    Ack(Ack),
    Nack(Nack),
    FloodRequest(FloodRequestView),
    FloodResponse(FloodResponseView),
}

/// Model of a packet.
pub struct PacketView {
    pub routing_header: Route,
    pub session_id: u64,
    pub pack_type: PacketTypeView,
}

impl View for FloodRequest {
    type V = FloodRequestView;

    open spec fn view(&self) -> FloodRequestView {
        FloodRequestView {
            flood_id: self.flood_id,
            initiator_id: self.initiator_id,
            path_trace: self.path_trace@,
        }
    }
}

impl View for FloodResponse {
    type V = FloodResponseView;

    open spec fn view(&self) -> FloodResponseView {
        FloodResponseView { flood_id: self.flood_id, path_trace: self.path_trace@ }
    }
}

impl View for PacketType {
    type V = PacketTypeView;

    open spec fn view(&self) -> PacketTypeView {
        match *self {
            PacketType::MsgFragment(f) => PacketTypeView::MsgFragment(f),
            PacketType::Ack(a) => PacketTypeView::Ack(a),
            PacketType::Nack(n) => PacketTypeView::Nack(n),
            PacketType::FloodRequest(r) => PacketTypeView::FloodRequest(r@),
            PacketType::FloodResponse(r) => PacketTypeView::FloodResponse(r@),
        }
    }
}

impl View for Packet {
    type V = PacketView;

    open spec fn view(&self) -> PacketView {
        PacketView {
            routing_header: self.routing_header@,
            session_id: self.session_id,
            pack_type: self.pack_type@,
        }
    }
}

/// The node identifiers of a path trace, in the trace's order.
pub open spec fn trace_ids(trace: Seq<(NodeId, NodeType)>) -> Seq<NodeId> {
    Seq::new(trace.len(), |i: int| trace[i].0)
}

/// A copy of a path trace.
pub fn copy_trace(trace: &Vec<(NodeId, NodeType)>) -> (out: Vec<(NodeId, NodeType)>)
    ensures
        out@ == trace@,
{
    let mut out: Vec<(NodeId, NodeType)> = Vec::new();
    let mut i: usize = 0;
    while i < trace.len()
        invariant
            i <= trace.len(),
            out@.len() == i,
            forall|k: int| 0 <= k < i ==> out@[k] == trace@[k],
        decreases trace.len() - i,
    {
        out.push(trace[i]);
        i += 1;
    }
    assert(out@ =~= trace@);
    out
}

/// The node identifiers of a path trace, last entry first.
pub fn reversed_trace_ids(trace: &Vec<(NodeId, NodeType)>) -> (out: Vec<NodeId>)
    ensures
        out@ == trace_ids(trace@).reverse(),
{
    let n: usize = trace.len();
    let mut out: Vec<NodeId> = Vec::new();
    let mut i: usize = 0;
    while i < n
        invariant
            n == trace.len(),
            i <= n,
            out@.len() == i,
            forall|k: int| 0 <= k < i ==> out@[k] == trace@[n - 1 - k].0,
        decreases n - i,
    {
        out.push(trace[n - 1 - i].0);
        i += 1;
    }
    assert(out@ =~= trace_ids(trace@).reverse());
    out
}

impl FloodRequest {
    /// A copy of this request.
    pub fn duplicate(&self) -> (copy: Self)
        ensures
            copy@ == self@,
    {
        FloodRequest {
            flood_id: self.flood_id,
            initiator_id: self.initiator_id,
            path_trace: copy_trace(&self.path_trace),
        }
    }
}

impl FloodResponse {
    /// A copy of this response.
    pub fn duplicate(&self) -> (copy: Self)
        ensures
            copy@ == self@,
    {
        FloodResponse { flood_id: self.flood_id, path_trace: copy_trace(&self.path_trace) }
    }
}

impl PacketType {
    /// A copy of this payload.
    pub fn duplicate(&self) -> (copy: Self)
        ensures
            copy@ == self@,
    {
        match self {
            PacketType::MsgFragment(f) => PacketType::MsgFragment(*f),
            PacketType::Ack(a) => PacketType::Ack(*a),
            PacketType::Nack(n) => PacketType::Nack(*n),
            PacketType::FloodRequest(r) => PacketType::FloodRequest(r.duplicate()),
            PacketType::FloodResponse(r) => PacketType::FloodResponse(r.duplicate()),
        }
    }
}

impl Packet {
    /// A packet made of its three parts.
    pub fn new(routing_header: SourceRoutingHeader, session_id: u64, pack_type: PacketType) -> (packet: Self)
        ensures
            packet@ == (PacketView {
                routing_header: routing_header@,
                session_id,
                pack_type: pack_type@,
            }),
    {
        Packet { routing_header, session_id, pack_type }
    }

    /// A copy of this packet.
    pub fn duplicate(&self) -> (copy: Self)
        ensures
            copy@ == self@,
    {
        Packet {
            routing_header: self.routing_header.duplicate(),
            session_id: self.session_id,
            pack_type: self.pack_type.duplicate(),
        }
    }
}

} // verus!
