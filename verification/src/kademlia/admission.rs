//! Admission of peers during their handshake, backed by the routing table.

use super::routing::KademliaRouting;
use crate::primitives::{Bin, OverlayAddress, SwarmNodeType};
use vstd::prelude::*;

verus! {

/// Who opened a connection.
#[derive(Clone, Copy, Debug, PartialEq, Eq, Structural)]
pub enum ConnectionDirection {
    /// The peer dialed this node.
    Inbound,
    /// This node dialed the peer.
    Outbound,
}

/// Why a handshake was not admitted.
#[derive(Clone, Copy, Debug, PartialEq, Eq, Structural)]
pub enum AdmissionRejection {
    /// The peer's bin has no slot left.
    Saturated,
}

/// Outcome of the admission gate.
#[derive(Clone, Copy, Debug, PartialEq, Eq, Structural)]
pub enum AdmissionDecision {
    /// Go on with the handshake.
    Accept,
    /// End the handshake.
    Reject(AdmissionRejection),
}

/// Admission gate backed by the routing table, so that the handshake shares
/// one source of truth for capacity with the dial planner.
#[derive(Clone, Copy)]
pub struct KademliaAdmissionControl<'a> {
    pub routing: &'a KademliaRouting,
}

/// The slots that a peer takes and the routing table does not count yet.
pub open spec fn uncounted_slots(direction: ConnectionDirection) -> int {
    match direction {
        ConnectionDirection::Inbound => 1,
        ConnectionDirection::Outbound => 0,
    }
}

impl<'a> KademliaAdmissionControl<'a> {
    /// A gate over `routing`.
    pub fn new(routing: &'a KademliaRouting) -> (control: KademliaAdmissionControl<'a>)
        ensures
            control.routing == routing,
    {
        KademliaAdmissionControl { routing }
    }

    /// Decide on a peer in its handshake. An inbound peer holds no slot yet;
    /// an outbound one reserved its slot when it was dialed.
    pub fn evaluate(
        &self,
        peer_overlay: &OverlayAddress,
        _node_type: SwarmNodeType,
        direction: ConnectionDirection,
    ) -> (decision: AdmissionDecision)
        requires
            self.routing.wf(),
        ensures
            decision == {
                let bin = Bin { raw: self.routing.bin_of(*peer_overlay) as u8 };
                let ceiling = self.routing.config.limits.spec_ceiling(bin, self.routing.depth);
                let held = self.routing.capacity.counts@[bin.raw as int].total();
                if ceiling == usize::MAX || held + uncounted_slots(direction) <= ceiling {
                    AdmissionDecision::Accept
                } else {
                    AdmissionDecision::Reject(AdmissionRejection::Saturated)
                }
            },
            ({
                let bin = Bin { raw: self.routing.bin_of(*peer_overlay) as u8 };
                let ceiling = self.routing.config.limits.spec_ceiling(bin, self.routing.depth);
                let count = self.routing.capacity.counts@[bin.raw as int];
                let held = count.dialing + count.handshaking + count.active;
                &&& ceiling == usize::MAX || held < ceiling ==> decision
                    == AdmissionDecision::Accept
                &&& ceiling < usize::MAX && held > ceiling ==> decision
                    == AdmissionDecision::Reject(AdmissionRejection::Saturated)
                &&& ceiling < usize::MAX && held == ceiling ==> (decision
                    == AdmissionDecision::Accept <==> direction == ConnectionDirection::Outbound)
            }),
    {
        let extra: usize = match direction {
            ConnectionDirection::Inbound => 1,
            ConnectionDirection::Outbound => 0,
        };
        if self.routing.admission_within_capacity(peer_overlay, extra) {
            AdmissionDecision::Accept
        } else {
            AdmissionDecision::Reject(AdmissionRejection::Saturated)
        }
    }
}

/// The admission gate over `routing`.
pub fn kademlia_admission_control<'a>(routing: &'a KademliaRouting) -> (control:
    KademliaAdmissionControl<'a>)
    ensures
        control.routing == routing,
{
    KademliaAdmissionControl::new(routing)
}

/// A peer that the routing table would take inbound is admitted: what
/// [`KademliaRouting::should_accept_inbound`] promises, the handshake keeps.
pub proof fn accepted_inbound_is_admitted(routing: KademliaRouting, overlay: OverlayAddress)
    requires
        ({
            let bin = Bin { raw: routing.bin_of(overlay) as u8 };
            routing.config.limits.spec_target(bin, routing.depth) == usize::MAX
                || routing.capacity.counts@[bin.raw as int].total()
                < routing.config.limits.spec_ceiling(bin, routing.depth)
        }),
    ensures
        ({
            let bin = Bin { raw: routing.bin_of(overlay) as u8 };
            let ceiling = routing.config.limits.spec_ceiling(bin, routing.depth);
            ceiling == usize::MAX || routing.capacity.counts@[bin.raw as int].total()
                + uncounted_slots(ConnectionDirection::Inbound) <= ceiling
        }),
{
}

/// An inbound peer takes one slot that is not counted yet, an outbound one
/// none.
pub proof fn inbound_peers_take_a_slot()
    ensures
        uncounted_slots(ConnectionDirection::Inbound) == 1,
        uncounted_slots(ConnectionDirection::Outbound) == 0,
{
}

} // verus!
