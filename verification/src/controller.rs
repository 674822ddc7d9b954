//! What the simulation controller tells a node, and what a node tells it.

use crossbeam_channel::Sender;
use vstd::prelude::*;
use crate::network::NodeId;
use crate::packet::Packet;

verus! {

/// A command from the controller.
#[derive(Debug)]
pub enum DroneCommand {
    /// Link the node to a neighbor through the given channel.
    AddSender(NodeId, Sender<Packet>),
    /// Set the share of fragments to drop, in percent, from 0 to 100.
    SetPacketDropRate(u8),
    /// Take away the link to a neighbor.
    RemoveSender(NodeId),
    /// Stop the node.
    Crash,
}

/// A report to the controller.
#[derive(Debug)]
pub enum DroneEvent {
    /// This packet could not be handed to its next hop.
    PacketDropped(Packet),
}

} // verus!
