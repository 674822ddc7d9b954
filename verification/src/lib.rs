//! A packet-forwarding node ("drone") for a simulated source-routed overlay
//! network.
//!
//! The node forwards traffic along routes chosen by the sender, takes part in
//! flood-based topology discovery, and retransmits fragments hop by hop out of
//! a bounded cache when a negative acknowledgment comes back.
//!
//! Every decision the node takes is a verified function from the node's state
//! and an inbound message to the next state and the list of packets to emit.
//! The functions that touch channels or draw random numbers call those
//! decisions and perform what they say.

pub mod controller;
pub mod coverage;
pub mod drone;
pub mod laws;
pub mod links;
pub mod network;
pub mod packet;
pub mod packet_buffer;
pub mod protocol;
pub mod seen_floods;
pub mod swarm;
