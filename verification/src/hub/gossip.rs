//! What hubs tell each other.
use vstd::prelude::*;

use crate::bytes::copy_bytes;

verus! {

/// Routing identifier: where an envelope is to go.
pub type RoutingId = [u8; 16];

/// How far a hub that starts a gossip frame lets it travel.
pub const GOSSIP_TTL_DEFAULT: u8 = 3;

/// When envelopes of clients are passed on to other hubs.
#[derive(Debug, Clone, Copy, PartialEq, Eq, Structural)]
pub enum GossipMode {
    /// Only where no local subscriber took the envelope.
    Lazy,
    /// Always.
    Eager,
}

/// What a gossip frame carries.
#[derive(Debug, Clone, Copy, PartialEq, Eq, Structural)]
pub enum GossipKind {
    /// A key package for the directory.
    Publish,
    /// An envelope for a routing id.
    Deliver,
}

/// A gossip frame.
#[derive(Debug)]
pub struct GossipFrame {
    /// How many hubs it may still reach.
    pub ttl: u8,
    /// The hub that sent it last.
    pub seen_by: [u8; 16],
    pub routing_id: RoutingId,
    pub body: Vec<u8>,
}

/// A gossip frame as a value.
pub struct GossipModel {
    pub ttl: u8,
    pub seen_by: [u8; 16],
    pub routing_id: RoutingId,
    pub body: Seq<u8>,
}

impl View for GossipFrame {
    type V = GossipModel;

    open spec fn view(&self) -> GossipModel {
        GossipModel {
            ttl: self.ttl,
            seen_by: self.seen_by,
            routing_id: self.routing_id,
            body: self.body@,
        }
    }
}

impl GossipFrame {
    /// A copy of the frame.
    pub fn duplicate(&self) -> (f: Self)
        ensures
            f@ == self@,
    {
        GossipFrame {
            ttl: self.ttl,
            seen_by: self.seen_by,
            routing_id: self.routing_id,
            body: copy_bytes(self.body.as_slice()),
        }
    }
}

/// A frame on its way to another hub.
#[derive(Debug)]
pub struct GossipOut {
    pub kind: GossipKind,
    pub frame: GossipFrame,
}

impl View for GossipOut {
    type V = (GossipKind, GossipModel);

    open spec fn view(&self) -> (GossipKind, GossipModel) {
        (self.kind, self.frame@)
    }
}

/// The frame that a hub passes on: one hop less to go, and its own mark on it.
pub open spec fn passed_on(f: GossipModel, self_hash: [u8; 16]) -> GossipModel {
    GossipModel { ttl: (f.ttl - 1) as u8, seen_by: self_hash, ..f }
}

} // verus!
