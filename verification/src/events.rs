//! What happens in the topology, as told to its observers.

use crate::kademlia::admission::ConnectionDirection;
use crate::kademlia::phase::TopologyPhase;
use crate::primitives::{OverlayAddress, PeerId, SwarmNodeType};
use crate::time::Duration;
use vstd::prelude::*;

verus! {

/// Why a peer is dialed.
#[derive(Clone, Copy, Debug, PartialEq, Eq, Structural)]
pub enum DialReason {
    /// The peer is a bootnode.
    Bootnode,
    /// The peer is explicitly configured.
    Trusted,
    /// The peer was picked to fill the routing table.
    Discovery,
}

/// Why a connection was rejected after its handshake.
#[derive(Clone, Copy, Debug, PartialEq, Eq, Structural)]
pub enum ConnectionRejection {
    /// The peer is banned.
    Banned,
    /// The peer's bin has no slot left.
    BinSaturated,
    /// A newer connection to the same peer took over.
    DuplicateConnection,
}

/// Why a connection ended.
#[derive(Clone, Copy, Debug, PartialEq, Eq, Structural)]
pub enum DisconnectReason {
    /// The transport failed.
    ConnectionError,
    /// One side closed the connection.
    Closed,
}

/// Why a handshake failed.
#[derive(Clone, Copy, Debug, PartialEq, Eq, Structural)]
pub enum HandshakeError {
    NetworkIdMismatch,
    MissingField,
    FieldTooLong,
    InvalidData,
    InvalidMultiaddr,
    InvalidSignature,
    InvalidPeer,
    InvalidOverlay,
    InvalidObservedAddress,
    Protobuf,
    Timeout,
    ConnectionClosed,
    Io,
    Upgrade,
}

impl HandshakeError {
    /// The error comes from the local side or from the wire, not from what the
    /// peer sent.
    pub open spec fn is_circumstance(self) -> bool {
        self is Timeout || self is ConnectionClosed || self is Io || self is Upgrade
    }

    /// Whether only the peer can have caused the error.
    ///
    /// Timeouts, closed connections and transport errors can be the result of
    /// what this node does (closing a duplicate, shutting down), so they do
    /// not count against the peer.
    pub fn is_peer_fault(&self) -> (fault: bool)
        ensures
            fault == !self.is_circumstance(),
    {
        match self {
            HandshakeError::NetworkIdMismatch => true,
            HandshakeError::MissingField => true,
            HandshakeError::FieldTooLong => true,
            HandshakeError::InvalidData => true,
            HandshakeError::InvalidMultiaddr => true,
            HandshakeError::InvalidSignature => true,
            HandshakeError::InvalidPeer => true,
            HandshakeError::InvalidOverlay => true,
            HandshakeError::InvalidObservedAddress => true,
            HandshakeError::Protobuf => true,
            HandshakeError::Timeout => false,
            HandshakeError::ConnectionClosed => false,
            HandshakeError::Io => false,
            HandshakeError::Upgrade => false,
        }
    }
}

/// Why a dial failed.
#[derive(Clone, Copy, Debug, PartialEq, Eq, Structural)]
pub enum DialError {
    ConnectionRefused,
    HandshakeFailed(HandshakeError),
}

/// Something that happened in the topology.
#[derive(Clone, Copy, Debug, PartialEq, Eq, Structural)]
#[allow(inconsistent_fields)]
pub enum TopologyEvent {
    /// A peer completed its handshake.
    PeerReady {
        overlay: OverlayAddress,
        peer_id: PeerId,
        node_type: SwarmNodeType,
        direction: ConnectionDirection,
    },
    /// A connection was rejected.
    PeerRejected {
        overlay: OverlayAddress,
        peer_id: PeerId,
        reason: ConnectionRejection,
        direction: ConnectionDirection,
    },
    /// A connection ended.
    PeerDisconnected {
        overlay: OverlayAddress,
        reason: DisconnectReason,
        connection_duration: Option<Duration>,
        node_type: SwarmNodeType,
    },
    /// The neighborhood depth moved.
    DepthChanged { old_depth: u8, new_depth: u8 },
    /// A dial ended without a connection.
    DialFailed {
        overlay: Option<OverlayAddress>,
        /// How many addresses were tried.
        addr_count: usize,
        error: DialError,
        dial_duration: Option<Duration>,
        reason: Option<DialReason>,
    },
    /// A ping came back.
    PingCompleted { overlay: OverlayAddress, rtt: Duration },
    /// The topology phase moved.
    PhaseChanged { from: TopologyPhase, to: TopologyPhase, depth: u8 },
}

/// A handshake fails by circumstance where it timed out, the connection was
/// closed, the transport failed or its upgrade did; any other failure is the
/// peer's.
pub proof fn circumstances_are_local(error: HandshakeError)
    ensures
        error.is_circumstance() <==> {
            ||| error == HandshakeError::Timeout
            ||| error == HandshakeError::ConnectionClosed
            ||| error == HandshakeError::Io
            ||| error == HandshakeError::Upgrade
        },
{
}

} // verus!
