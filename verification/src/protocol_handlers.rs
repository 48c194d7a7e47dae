//! What the node does when a protocol event arrives.
//!
//! The handlers own the routing table, the peer book and the local addresses.
//! They take the event together with what the connection registry says about
//! the connection, update their state, and return the actions that are left:
//! events to emit, connections to close, and work for the peer store, the
//! gossip task and the exported gauges.

use crate::events::{ConnectionRejection, DialError, DialReason, HandshakeError, TopologyEvent};
use crate::kademlia::admission::ConnectionDirection;
use crate::kademlia::peers::PeerBook;
use crate::kademlia::phase::PhaseTransition;
use crate::kademlia::routing::KademliaRouting;
use crate::nat_discovery::{LocalAddressManager, Multiaddr};
use crate::primitives::{Bin, NeighborhoodDepth, OverlayAddress, PeerId, SwarmNodeType};
use crate::time::{Duration, Instant};
use vstd::prelude::*;

verus! {

/// How far a connection is trusted.
#[derive(Clone, Copy, Debug, PartialEq, Eq, Structural)]
pub enum TrustLevel {
    /// Nothing speaks for the peer.
    Normal,
    /// The peer is on the local subnet.
    LocalSubnet,
    /// The peer is explicitly configured.
    Trusted,
}

/// How far the registry has a connection.
#[derive(Clone, Copy, Debug, PartialEq, Eq, Structural)]
pub enum RegistryStage {
    Pending,
    Active,
    Other,
}

/// What the connection registry knows about a connection.
#[derive(Clone, Copy, Debug, PartialEq, Eq, Structural)]
pub struct ConnectionState {
    /// The overlay that was dialed, or that the connection was activated for.
    pub id: Option<OverlayAddress>,
    pub direction: Option<ConnectionDirection>,
    pub reason: Option<DialReason>,
    pub stage: RegistryStage,
    pub started_at: Option<Instant>,
}

/// What activating a connection in the registry came to.
#[derive(Clone, Copy, Debug, PartialEq, Eq, Structural)]
pub enum ActivateResult {
    /// The connection is the only one of its peer.
    Accepted,
    /// The connection took over from an older one.
    Replaced {
        old_peer_id: PeerId,
        old_connection_id: u64,
        /// The overlay of the older connection, if it was active.
        old_id: Option<OverlayAddress>,
    },
}

/// What a completed handshake told about the peer.
#[derive(Clone, Copy, Debug, PartialEq, Eq, Structural)]
pub struct HandshakeInfo {
    /// The overlay that the peer asserted.
    pub overlay: OverlayAddress,
    pub node_type: SwarmNodeType,
    /// The peer is on the local subnet.
    pub is_local: bool,
    /// Where the peer observed this node.
    pub observed: Option<Multiaddr>,
}

/// A peer heard of through gossip.
#[derive(Clone, Copy, Debug, PartialEq, Eq, Structural)]
pub struct GossipedPeer {
    pub overlay: OverlayAddress,
    /// The node's own address families reach the peer.
    pub reachable: bool,
}

/// A gauge of the connection registry.
#[derive(Clone, Copy, Debug, PartialEq, Eq, Structural)]
pub enum RegistryGauge {
    Pending,
    Active,
}

/// What is left to do after an event.
#[derive(Clone, Copy, Debug, PartialEq, Eq, Structural)]
pub enum Action {
    /// Tell the observers.
    Emit(TopologyEvent),
    /// Close all connections to the peer.
    CloseAll(PeerId),
    /// Close one connection to the peer.
    CloseOne { peer_id: PeerId, connection_id: u64 },
    /// The record that led to a dial belongs to another peer: demote it.
    DemoteDialedRecord(OverlayAddress),
    /// One more connection in a registry gauge.
    RaiseGauge(RegistryGauge),
    /// One connection less in a registry gauge.
    LowerGauge(RegistryGauge),
    /// A counted connection of a node of this type is gone.
    DecrementConnected(SwarmNodeType),
    /// Store the peer and its connection.
    StorePeer {
        overlay: OverlayAddress,
        connection_id: u64,
        node_type: SwarmNodeType,
        direction: ConnectionDirection,
        trust: TrustLevel,
    },
    /// Export the gauges of a bin.
    RoutingGauges(Bin),
    /// The depth moved.
    DepthChanged { old_depth: NeighborhoodDepth, new_depth: NeighborhoodDepth },
    /// Tell the gossip task about the peer.
    GossipPeerActivated { peer_id: PeerId, overlay: OverlayAddress, node_type: SwarmNodeType },
    /// The dial of a record failed.
    RecordDialFailure(OverlayAddress),
    /// The peer broke the handshake protocol.
    ReportHandshakeFailure(OverlayAddress),
    /// Record a round-trip time.
    RecordLatency { overlay: OverlayAddress, rtt: Duration },
    /// Look for dial candidates again.
    TriggerEvaluation,
}

/// A connection that may be activated.
#[derive(Clone, Copy, Debug, PartialEq, Eq, Structural)]
pub struct Admission {
    pub direction: ConnectionDirection,
    pub reason: Option<DialReason>,
}

/// The first half of a completed handshake: whether the connection may be
/// activated, and what is to be done either way.
#[derive(Debug)]
pub struct HandshakeVerdict {
    pub admission: Option<Admission>,
    pub actions: Vec<Action>,
}

/// What became of gossiped peers.
#[derive(Debug)]
pub struct HiveVerdict {
    /// The peers to hand on, with the gossiper; empty if there are none.
    pub peers: Vec<GossipedPeer>,
    pub gossiper: OverlayAddress,
    /// The gossiper is a bootnode that has done its part: close the connection.
    pub close: bool,
}

/// The direction of a connection; one the registry does not know is inbound.
pub open spec fn direction_of(state: Option<ConnectionState>) -> ConnectionDirection {
    match state {
        Some(s) => match s.direction {
            Some(direction) => direction,
            None => ConnectionDirection::Inbound,
        },
        None => ConnectionDirection::Inbound,
    }
}

/// The registry's state of a connection whose handshake completed: the one of
/// the overlay that the peer asserted, and else the one of the overlay that its
/// peer id resolves to.
pub fn handshake_state(
    by_overlay: Option<ConnectionState>,
    by_peer: Option<ConnectionState>,
) -> (state: Option<ConnectionState>)
    ensures
        state == (match by_overlay {
            Some(s) => Some(s),
            None => by_peer,
        }),
{
    match by_overlay {
        Some(s) => Some(s),
        None => by_peer,
    }
}

/// Why the peer was dialed.
pub open spec fn reason_of(state: Option<ConnectionState>) -> Option<DialReason> {
    match state {
        Some(s) => s.reason,
        None => None,
    }
}

/// The overlay that was dialed, where the peer asserted another one.
pub open spec fn misdialed(state: Option<ConnectionState>, overlay: OverlayAddress) -> Option<
    OverlayAddress,
> {
    match state {
        Some(s) => match s.id {
            Some(dialed) => if dialed != overlay {
                Some(dialed)
            } else {
                None
            },
            None => None,
        },
        None => None,
    }
}

/// What closes a connection that is rejected.
pub open spec fn rejection(
    overlay: OverlayAddress,
    peer_id: PeerId,
    reason: ConnectionRejection,
    direction: ConnectionDirection,
) -> Seq<Action> {
    seq![
        Action::Emit(TopologyEvent::PeerRejected { overlay, peer_id, reason, direction }),
        Action::CloseAll(peer_id),
    ]
}

/// The trust level of a connection.
pub open spec fn trust_of(reason: Option<DialReason>, is_local: bool) -> TrustLevel {
    if reason == Some(DialReason::Trusted) {
        TrustLevel::Trusted
    } else if is_local {
        TrustLevel::LocalSubnet
    } else {
        TrustLevel::Normal
    }
}

/// Those of `peers` that the node can reach, in order.
pub open spec fn reachable_peers(peers: Seq<GossipedPeer>) -> Seq<GossipedPeer>
    decreases peers.len(),
{
    if peers.len() == 0 {
        Seq::empty()
    } else if peers.last().reachable {
        reachable_peers(peers.drop_last()).push(peers.last())
    } else {
        reachable_peers(peers.drop_last())
    }
}

/// The routing table, the peer book and the local addresses of a node, as the
/// protocol handlers see them.
#[derive(Debug)]
pub struct TopologyBehaviour {
    pub routing: KademliaRouting,
    pub peers: PeerBook,
    pub nat_discovery: LocalAddressManager,
    /// Connections that this node dialed at a public address.
    pub outbound_public_dials: Vec<u64>,
}

impl TopologyBehaviour {
    /// The parts are valid, and no dial is noted twice.
    pub open spec fn wf(self) -> bool {
        &&& self.routing.wf()
        &&& self.peers.wf()
        &&& self.nat_discovery.wf()
        &&& self.outbound_public_dials@.no_duplicates()
    }

    /// Whether the peer is banned.
    pub open spec fn bans(self, overlay: OverlayAddress) -> bool {
        self.peers.lookup(overlay) matches Some(record) && record.banned
    }

    /// The connections and counts after a dialed overlay other than the
    /// asserted one gave its place to the latter.
    pub open spec fn reassigned(
        self,
        state: Option<ConnectionState>,
        overlay: OverlayAddress,
    ) -> crate::kademlia::capacity::CapacityState {
        let before = self.routing.capacity.state();
        match misdialed(state, overlay) {
            Some(dialed) => crate::kademlia::capacity::after_reserve(
                crate::kademlia::capacity::after_release(
                    before,
                    dialed,
                    self.routing.bin_of(dialed),
                    Some(crate::kademlia::capacity::ConnectionPhase::Handshaking),
                ),
                overlay,
                self.routing.bin_of(overlay),
            ),
            None => before,
        }
    }

    /// The type of the node behind a replaced connection.
    pub open spec fn replaced_type(self, overlay: OverlayAddress) -> SwarmNodeType {
        match self.peers.lookup(overlay) {
            Some(record) => match record.node_type {
                Some(node_type) => node_type,
                None => SwarmNodeType::Client,
            },
            None => SwarmNodeType::Client,
        }
    }

    /// The actions of activating a connection of `overlay`.
    pub open spec fn activation_actions(
        self,
        overlay: OverlayAddress,
        direction: ConnectionDirection,
        activation: ActivateResult,
    ) -> Seq<Action> {
        match activation {
            ActivateResult::Accepted => seq![
                Action::LowerGauge(RegistryGauge::Pending),
                Action::RaiseGauge(RegistryGauge::Active),
            ],
            ActivateResult::Replaced { old_peer_id, old_connection_id, old_id } => {
                let old_overlay = match old_id {
                    Some(id) => id,
                    None => overlay,
                };
                (if old_id is None {
                    seq![Action::LowerGauge(RegistryGauge::Pending)]
                } else {
                    seq![]
                }) + seq![
                    Action::DecrementConnected(self.replaced_type(old_overlay)),
                    Action::LowerGauge(RegistryGauge::Active),
                    Action::Emit(
                        TopologyEvent::PeerRejected {
                            overlay,
                            peer_id: old_peer_id,
                            reason: ConnectionRejection::DuplicateConnection,
                            direction,
                        },
                    ),
                    Action::CloseOne {
                        peer_id: old_peer_id,
                        connection_id: old_connection_id,
                    },
                ]
            },
        }
    }

    /// Decide whether a connection whose handshake completed may be activated.
    ///
    /// A banned peer is rejected. Where the peer asserted another overlay than
    /// was dialed, the dialed record is demoted and its place given to the
    /// asserted overlay. An inbound connection needs a free slot in its bin,
    /// which it then holds; an outbound one reserved its slot when it was
    /// dialed.
    pub fn admit_handshake(
        &mut self,
        peer_id: PeerId,
        info: &HandshakeInfo,
        state: Option<ConnectionState>,
    ) -> (verdict: HandshakeVerdict)
        requires
            old(self).wf(),
            old(self).routing.capacity.has_room(info.overlay),
        ensures
            final(self).wf(),
            *final(self) == (TopologyBehaviour { routing: final(self).routing, ..*old(self) }),
            final(self).routing == (KademliaRouting {
                capacity: final(self).routing.capacity,
                ..old(self).routing
            }),
            ({
                let overlay = info.overlay;
                let direction = direction_of(state);
                let inbound = direction == ConnectionDirection::Inbound;
                let held = old(self).reassigned(state, overlay);
                let demotion = match misdialed(state, overlay) {
                    Some(dialed) => seq![Action::DemoteDialedRecord(dialed)],
                    None => seq![],
                };
                if old(self).bans(overlay) {
                    &&& *final(self) == *old(self)
                    &&& verdict.admission is None
                    &&& verdict.actions@ == rejection(
                        overlay,
                        peer_id,
                        ConnectionRejection::Banned,
                        direction,
                    )
                } else if inbound && !old(self).routing.accepts_inbound(held, overlay) {
                    &&& final(self).routing.capacity.state() == held
                    &&& verdict.admission is None
                    &&& verdict.actions@ == demotion + rejection(
                        overlay,
                        peer_id,
                        ConnectionRejection::BinSaturated,
                        direction,
                    )
                } else {
                    &&& final(self).routing.capacity.state() == if inbound {
                        crate::kademlia::capacity::after_reserve(
                            held,
                            overlay,
                            old(self).routing.bin_of(overlay),
                        )
                    } else {
                        held
                    }
                    &&& verdict.admission == Some(
                        Admission { direction, reason: reason_of(state) },
                    )
                    &&& verdict.actions@ == demotion
                }
            }),
            old(self).routing.capacity.exact() && (misdialed(state, info.overlay) matches Some(
                dialed,
            ) ==> crate::kademlia::capacity::phase_of(
                old(self).routing.capacity.connections@,
                dialed,
            ) matches Some(phase) ==> phase
                == crate::kademlia::capacity::ConnectionPhase::Handshaking) ==> final(
                self).routing.capacity.exact(),
            // A banned peer is turned away and nothing is touched; a connection
            // that this node dialed is let in otherwise.
            match old(self).peers.lookup(info.overlay) {
                Some(record) => record.banned ==> verdict.admission is None && *final(self)
                    == *old(self),
                None => true,
            },
            match (state, old(self).peers.lookup(info.overlay)) {
                (Some(s), Some(record)) => !record.banned && s.direction == Some(
                    ConnectionDirection::Outbound,
                ) ==> verdict.admission == Some(
                    Admission { direction: ConnectionDirection::Outbound, reason: s.reason },
                ),
                (Some(s), None) => s.direction == Some(ConnectionDirection::Outbound)
                    ==> verdict.admission == Some(
                    Admission { direction: ConnectionDirection::Outbound, reason: s.reason },
                ),
                _ => true,
            },
            // Whoever is let in from outside is in its handshake, and its bin
            // holds no more than it may.
            verdict.admission matches Some(admission) && admission.direction
                == ConnectionDirection::Inbound ==> {
                let home = Bin { raw: old(self).routing.bin_of(info.overlay) as u8 };
                let count = final(self).routing.capacity.counts@[home.raw as int];
                let ceiling = old(self).routing.config.limits.spec_ceiling(
                    home,
                    old(self).routing.depth,
                );
                &&& crate::kademlia::capacity::phase_of(
                    final(self).routing.capacity.connections@,
                    info.overlay,
                ) == Some(crate::kademlia::capacity::ConnectionPhase::Handshaking)
                &&& ceiling == usize::MAX || count.dialing + count.handshaking + count.active
                    <= ceiling
            },
            // Who is turned away is told of and closed.
            verdict.admission is None ==> verdict.actions.len() >= 2 && verdict.actions@.last()
                == Action::CloseAll(peer_id),
            // A dialed record that stood for somebody else is demoted, and the
            // dial no longer followed.
            match state {
                Some(s) => match s.id {
                    Some(dialed) => dialed != info.overlay && (match old(self).peers.lookup(
                        info.overlay,
                    ) {
                        Some(record) => !record.banned,
                        None => true,
                    }) ==> {
                        &&& verdict.actions@.len() > 0
                        &&& verdict.actions@[0] == Action::DemoteDialedRecord(dialed)
                        &&& !crate::kademlia::capacity::tracks(
                            final(self).routing.capacity.connections@,
                            dialed,
                        )
                    },
                    None => true,
                },
                None => true,
            },
    {
        let overlay: OverlayAddress = info.overlay;
        let direction: ConnectionDirection = match state {
            Some(s) => match s.direction {
                Some(direction) => direction,
                None => ConnectionDirection::Inbound,
            },
            None => ConnectionDirection::Inbound,
        };
        let reason: Option<DialReason> = match state {
            Some(s) => s.reason,
            None => None,
        };
        let mut actions: Vec<Action> = Vec::new();
        if self.peers.is_banned(&overlay) {
            push_rejection(
                &mut actions,
                overlay,
                peer_id,
                ConnectionRejection::Banned,
                direction,
            );
            proof {
                assert(actions@ =~= rejection(
                    overlay,
                    peer_id,
                    ConnectionRejection::Banned,
                    direction,
                ));
            }
            return HandshakeVerdict { admission: None, actions };
        }
        let dialed: Option<OverlayAddress> = match state {
            Some(s) => s.id,
            None => None,
        };
        if let Some(dialed) = dialed {
            if dialed != overlay {
                self.routing.release_handshake(&dialed);
                let ghost freed = self.routing.capacity.state();
                actions.push(Action::DemoteDialedRecord(dialed));
                self.routing.reserve_inbound(&overlay);
                proof {
                    crate::kademlia::capacity::releasing_clears_the_phase(
                        old(self).routing.capacity.state(),
                        dialed,
                        old(self).routing.bin_of(dialed),
                        Some(crate::kademlia::capacity::ConnectionPhase::Handshaking),
                        dialed,
                    );
                    crate::kademlia::capacity::reserving_starts_a_handshake(
                        freed,
                        overlay,
                        old(self).routing.bin_of(overlay),
                        dialed,
                    );
                    assert(crate::kademlia::capacity::phase_of(
                        self.routing.capacity.connections@,
                        dialed,
                    ) is None);
                    assert(!crate::kademlia::capacity::tracks(
                        self.routing.capacity.connections@,
                        dialed,
                    ));
                    let held = self.routing.capacity.connections@;
                    if !crate::kademlia::capacity::tracks(held, overlay) {
                        assert(crate::kademlia::capacity::connection_at(
                            held,
                            overlay,
                            held.len() - 1,
                        ));
                    }
                }
            }
        }
        let ghost demotion = match misdialed(state, overlay) {
            Some(dialed) => seq![Action::DemoteDialedRecord(dialed)],
            None => seq![],
        };
        proof {
            assert(actions@ =~= demotion);
            assert(self.routing.capacity.state() == old(self).reassigned(state, overlay));
        }
        if direction == ConnectionDirection::Inbound {
            if !self.routing.should_accept_inbound(&overlay, info.node_type) {
                push_rejection(
                    &mut actions,
                    overlay,
                    peer_id,
                    ConnectionRejection::BinSaturated,
                    direction,
                );
                return HandshakeVerdict { admission: None, actions };
            }
            self.routing.reserve_inbound(&overlay);
        }
        HandshakeVerdict { admission: Some(Admission { direction, reason }), actions }
    }

    /// Complete the activation of an admitted connection.
    ///
    /// The connection becomes active in the routing capacity, the peer's
    /// reachability is settled before it joins the routing table, and the
    /// depth and the topology phase follow. A connection that this node dialed
    /// at a public address proves the peer reachable; any other handshake is a
    /// sign of life only. An inbound peer that observed this node at a public
    /// address speaks for this node's own reachability.
    pub fn activate_handshake(
        &mut self,
        peer_id: PeerId,
        connection_id: u64,
        info: &HandshakeInfo,
        admission: &Admission,
        activation: ActivateResult,
        now: Instant,
    ) -> (actions: Vec<Action>)
        requires
            old(self).wf(),
        ensures
            final(self).wf(),
            final(self).peers == old(self).peers,
            final(self).outbound_public_dials@ == without_dial(
                old(self).outbound_public_dials@,
                connection_id,
            ),
            settled(
                old(self).nat_discovery,
                final(self).nat_discovery,
                peer_id,
                old(self).outbound_public_dials@.contains(connection_id),
                admission.direction,
                info.observed,
                now,
            ),
            joined_table(old(self).routing, final(self).routing, info.overlay, now),
            actions@ == old(self).activation_actions(
                info.overlay,
                admission.direction,
                activation,
            ) + seq![
                Action::StorePeer {
                    overlay: info.overlay,
                    connection_id,
                    node_type: info.node_type,
                    direction: admission.direction,
                    trust: trust_of(admission.reason, info.is_local),
                },
            ] + join_actions(old(self).routing, final(self).routing, info.overlay, now) + seq![
                Action::Emit(
                    TopologyEvent::PeerReady {
                        overlay: info.overlay,
                        peer_id,
                        node_type: info.node_type,
                        direction: admission.direction,
                    },
                ),
                Action::GossipPeerActivated {
                    peer_id,
                    overlay: info.overlay,
                    node_type: info.node_type,
                },
                Action::TriggerEvaluation,
            ],
    {
        let overlay: OverlayAddress = info.overlay;
        let direction: ConnectionDirection = admission.direction;
        let mut actions: Vec<Action> = self.activation_work(&overlay, direction, activation);
        let ghost activated = actions@;
        let trust: TrustLevel = trust_level(admission.reason, info.is_local);
        actions.push(
            Action::StorePeer {
                overlay,
                connection_id,
                node_type: info.node_type,
                direction,
                trust,
            },
        );
        let ghost stored = actions@;
        self.settle_reachability(peer_id, connection_id, direction, info.observed, now);
        let mut joining: Vec<Action> = self.join_table(overlay, now);
        let ghost join = joining@;
        actions.append(&mut joining);
        actions.push(
            Action::Emit(
                TopologyEvent::PeerReady { overlay, peer_id, node_type: info.node_type, direction },
            ),
        );
        actions.push(Action::GossipPeerActivated { peer_id, overlay, node_type: info.node_type });
        actions.push(Action::TriggerEvaluation);
        proof {
            assert(stored =~= activated + seq![
                Action::StorePeer {
                    overlay,
                    connection_id,
                    node_type: info.node_type,
                    direction,
                    trust,
                },
            ]);
            assert(actions@ =~= stored + join + seq![
                Action::Emit(
                    TopologyEvent::PeerReady {
                        overlay,
                        peer_id,
                        node_type: info.node_type,
                        direction,
                    },
                ),
                Action::GossipPeerActivated { peer_id, overlay, node_type: info.node_type },
                Action::TriggerEvaluation,
            ]);
        }
        actions
    }

    /// Settle what a completed handshake says about reachability.
    fn settle_reachability(
        &mut self,
        peer_id: PeerId,
        connection_id: u64,
        direction: ConnectionDirection,
        observed: Option<Multiaddr>,
        now: Instant,
    )
        requires
            old(self).wf(),
        ensures
            final(self).wf(),
            final(self).routing == old(self).routing,
            final(self).peers == old(self).peers,
            final(self).outbound_public_dials@ == without_dial(
                old(self).outbound_public_dials@,
                connection_id,
            ),
            settled(
                old(self).nat_discovery,
                final(self).nat_discovery,
                peer_id,
                old(self).outbound_public_dials@.contains(connection_id),
                direction,
                observed,
                now,
            ),
    {
        if self.take_public_dial(connection_id) {
            self.nat_discovery.reachability.on_outbound_reachable(peer_id, now);
        } else {
            self.nat_discovery.reachability.update_from_handshake(peer_id, true, now);
        }
        if direction == ConnectionDirection::Inbound {
            if let Some(observed) = observed {
                if observed.is_public() {
                    self.nat_discovery.on_observed_addr(&observed);
                }
            }
        }
    }

    /// The connection becomes active and the peer joins the routing table.
    fn join_table(&mut self, overlay: OverlayAddress, now: Instant) -> (actions: Vec<Action>)
        requires
            old(self).wf(),
        ensures
            final(self).wf(),
            *final(self) == (TopologyBehaviour { routing: final(self).routing, ..*old(self) }),
            joined_table(old(self).routing, final(self).routing, overlay, now),
            actions@ == join_actions(old(self).routing, final(self).routing, overlay, now),
    {
        self.routing.handshake_completed(&overlay);
        let bin: Bin = self.routing.bin_for(&overlay);
        let old_depth: NeighborhoodDepth = self.routing.depth();
        let ghost completed = self.routing;
        self.routing.connected(overlay, now);
        let new_depth: NeighborhoodDepth = self.routing.depth();
        let ghost joined = self.routing;
        proof {
            let seated = KademliaRouting {
                capacity: joined.capacity,
                connected_peers: joined.connected_peers,
                ..old(self).routing
            };
            if joins(old(self).routing, overlay) {
                assert(KademliaRouting { connected_peers: joined.connected_peers, ..completed }
                    == seated);
            }
            assert(joined == table_with_peer(old(self).routing, joined, overlay, now));
        }
        let mut actions: Vec<Action> = Vec::new();
        actions.push(Action::RoutingGauges(bin));
        if new_depth != old_depth {
            actions.push(Action::DepthChanged { old_depth, new_depth });
        }
        let transition: Option<PhaseTransition> = self.routing.evaluate_phase(now);
        if let Some(t) = transition {
            actions.push(
                Action::Emit(
                    TopologyEvent::PhaseChanged { from: t.from, to: t.to, depth: t.depth.get() },
                ),
            );
        }
        proof {
            assert(table_with_peer(old(self).routing, self.routing, overlay, now) == joined);
            assert(actions@ =~= seq![Action::RoutingGauges(bin)] + depth_actions(
                old_depth,
                new_depth,
            ) + phase_actions(transition));
        }
        actions
    }

    fn activation_work(
        &self,
        overlay: &OverlayAddress,
        direction: ConnectionDirection,
        activation: ActivateResult,
    ) -> (actions: Vec<Action>)
        requires
            self.wf(),
        ensures
            actions@ == self.activation_actions(*overlay, direction, activation),
    {
        let mut actions: Vec<Action> = Vec::new();
        match activation {
            ActivateResult::Accepted => {
                actions.push(Action::LowerGauge(RegistryGauge::Pending));
                actions.push(Action::RaiseGauge(RegistryGauge::Active));
            },
            ActivateResult::Replaced { old_peer_id, old_connection_id, old_id } => {
                if old_id.is_none() {
                    actions.push(Action::LowerGauge(RegistryGauge::Pending));
                }
                let old_overlay: OverlayAddress = match old_id {
                    Some(id) => id,
                    None => *overlay,
                };
                let old_node_type: SwarmNodeType = match self.peers.node_type(&old_overlay) {
                    Some(node_type) => node_type,
                    None => SwarmNodeType::Client,
                };
                actions.push(Action::DecrementConnected(old_node_type));
                actions.push(Action::LowerGauge(RegistryGauge::Active));
                actions.push(
                    Action::Emit(
                        TopologyEvent::PeerRejected {
                            overlay: *overlay,
                            peer_id: old_peer_id,
                            reason: ConnectionRejection::DuplicateConnection,
                            direction,
                        },
                    ),
                );
                actions.push(
                    Action::CloseOne { peer_id: old_peer_id, connection_id: old_connection_id },
                );
            },
        }
        proof {
            assert(actions@ =~= self.activation_actions(*overlay, direction, activation));
        }
        actions
    }

    /// Forget that a connection was dialed at a public address, and return
    /// whether it was.
    fn take_public_dial(&mut self, connection_id: u64) -> (found: bool)
        requires
            old(self).wf(),
        ensures
            final(self).wf(),
            found == old(self).outbound_public_dials@.contains(connection_id),
            *final(self) == (TopologyBehaviour {
                outbound_public_dials: final(self).outbound_public_dials,
                ..*old(self)
            }),
            final(self).outbound_public_dials@ == without_dial(
                old(self).outbound_public_dials@,
                connection_id,
            ),
    {
        let ghost dials = self.outbound_public_dials@;
        let mut i: usize = 0;
        while i < self.outbound_public_dials.len()
            invariant
                *self == *old(self),
                self.wf(),
                dials == self.outbound_public_dials@,
                i <= dials.len(),
                forall|j: int| 0 <= j < i ==> dials[j] != connection_id,
            decreases dials.len() - i,
        {
            if self.outbound_public_dials[i] == connection_id {
                let _gone: u64 = self.outbound_public_dials.remove(i);
                proof {
                    assert(dials.contains(connection_id));
                    assert(dials.index_of(connection_id) == i as int);
                    let after = self.outbound_public_dials@;
                    assert forall|x: int, y: int| 0 <= x < y < after.len() implies after[x]
                        != after[y] by {
                        let x0 = if x < i {
                            x
                        } else {
                            x + 1
                        };
                        let y0 = if y < i {
                            y
                        } else {
                            y + 1
                        };
                        assert(after[x] == dials[x0] && after[y] == dials[y0]);
                    }
                }
                return true;
            }
            i = i + 1;
        }
        false
    }

    /// A handshake failed: release what the connection held and record the
    /// failure. Only an error that the peer alone can have caused counts
    /// against its reachability and its score.
    pub fn on_handshake_failed(
        &mut self,
        peer_id: PeerId,
        error: HandshakeError,
        state: Option<ConnectionState>,
        now: Instant,
    ) -> (actions: Vec<Action>)
        requires
            old(self).wf(),
        ensures
            final(self).wf(),
            final(self).peers == old(self).peers,
            final(self).outbound_public_dials == old(self).outbound_public_dials,
            ({
                let fault = !error.is_circumstance();
                let before = old(self).nat_discovery;
                let after = final(self).nat_discovery;
                let overlay = match state {
                    Some(s) => s.id,
                    None => None,
                };
                &&& after == (LocalAddressManager { reachability: after.reachability, ..before })
                &&& !fault ==> after.reachability == before.reachability
                &&& fault ==> after.reachability.is_update_of(
                    before.reachability,
                    peer_id,
                    before.reachability.lookup_or_fresh(peer_id, now).after_failure(now),
                )
                &&& final(self).routing == (KademliaRouting {
                    capacity: final(self).routing.capacity,
                    ..old(self).routing
                })
                &&& final(self).routing.capacity.state() == match overlay {
                    Some(overlay) => crate::kademlia::capacity::after_release(
                        old(self).routing.capacity.state(),
                        overlay,
                        old(self).routing.bin_of(overlay),
                        Some(crate::kademlia::capacity::ConnectionPhase::Handshaking),
                    ),
                    None => old(self).routing.capacity.state(),
                }
                &&& actions@ == failure_actions(state, error, now)
            }),
    {
        let fault: bool = error.is_peer_fault();
        if fault {
            self.nat_discovery.reachability.update_from_handshake(peer_id, false, now);
        }
        let mut actions: Vec<Action> = Vec::new();
        if let Some(s) = state {
            match s.stage {
                RegistryStage::Active => {
                    actions.push(Action::LowerGauge(RegistryGauge::Active));
                },
                RegistryStage::Pending => {
                    actions.push(Action::LowerGauge(RegistryGauge::Pending));
                },
                RegistryStage::Other => {},
            }
            if let Some(overlay) = s.id {
                self.routing.release_handshake(&overlay);
                actions.push(Action::RecordDialFailure(overlay));
                if fault {
                    actions.push(Action::ReportHandshakeFailure(overlay));
                }
            }
        }
        let event: TopologyEvent = match state {
            Some(s) => TopologyEvent::DialFailed {
                overlay: s.id,
                addr_count: 0,
                error: DialError::HandshakeFailed(error),
                dial_duration: match s.started_at {
                    Some(started) => Some(now.duration_since(started)),
                    None => None,
                },
                reason: s.reason,
            },
            None => TopologyEvent::DialFailed {
                overlay: None,
                addr_count: 0,
                error: DialError::HandshakeFailed(error),
                dial_duration: None,
                reason: None,
            },
        };
        actions.push(Action::Emit(event));
        proof {
            assert(actions@ =~= failure_actions(state, error, now));
        }
        actions
    }

    /// A ping came back after `rtt`, or failed.
    pub fn on_ping_result(
        &mut self,
        peer_id: PeerId,
        rtt: Option<Duration>,
        overlay: Option<OverlayAddress>,
        now: Instant,
    ) -> (actions: Vec<Action>)
        requires
            old(self).wf(),
        ensures
            final(self).wf(),
            *final(self) == (TopologyBehaviour {
                nat_discovery: final(self).nat_discovery,
                ..*old(self)
            }),
            final(self).nat_discovery == (LocalAddressManager {
                reachability: final(self).nat_discovery.reachability,
                ..old(self).nat_discovery
            }),
            ({
                let tracker = old(self).nat_discovery.reachability;
                let record = tracker.lookup_or_fresh(peer_id, now);
                final(self).nat_discovery.reachability.is_update_of(
                    tracker,
                    peer_id,
                    if rtt is Some {
                        record.after_success(now)
                    } else {
                        record.after_failure(now)
                    },
                )
            }),
            actions@ == (match (rtt, overlay) {
                (Some(rtt), Some(overlay)) => seq![
                    Action::RecordLatency { overlay, rtt },
                    Action::Emit(TopologyEvent::PingCompleted { overlay, rtt }),
                ],
                _ => seq![],
            }),
    {
        let mut actions: Vec<Action> = Vec::new();
        match rtt {
            Some(rtt) => {
                self.nat_discovery.reachability.update_from_ping(peer_id, true, now);
                if let Some(overlay) = overlay {
                    actions.push(Action::RecordLatency { overlay, rtt });
                    actions.push(Action::Emit(TopologyEvent::PingCompleted { overlay, rtt }));
                }
            },
            None => {
                self.nat_discovery.reachability.update_from_ping(peer_id, false, now);
            },
        }
        actions
    }
}

/// Peers came in through gossip.
///
/// While the node's own address families are known, only peers it can reach
/// are handed on. A bootnode is disconnected once it handed peers over: it
/// would go on sending every new peer it meets.
pub fn on_hive_peers_received(
    peers: Vec<GossipedPeer>,
    capability_known: bool,
    gossiper: Option<OverlayAddress>,
    dial_reason: Option<DialReason>,
) -> (verdict: HiveVerdict)
    ensures
        verdict.peers@ == if capability_known {
            reachable_peers(peers@)
        } else {
            peers@
        },
        verdict.gossiper.value() == (match gossiper {
            Some(overlay) => overlay.value(),
            None => 0,
        }),
        gossiper matches Some(overlay) ==> verdict.gossiper == overlay,
        verdict.close == (verdict.peers.len() > 0 && dial_reason == Some(DialReason::Bootnode)),
{
    let gossiper: OverlayAddress = match gossiper {
        Some(overlay) => overlay,
        None => OverlayAddress::default(),
    };
    let kept: Vec<GossipedPeer> = if capability_known {
        keep_reachable(&peers)
    } else {
        peers
    };
    let bootnode: bool = match dial_reason {
        Some(DialReason::Bootnode) => true,
        _ => false,
    };
    let close: bool = kept.len() > 0 && bootnode;
    HiveVerdict { peers: kept, gossiper, close }
}

fn keep_reachable(peers: &Vec<GossipedPeer>) -> (kept: Vec<GossipedPeer>)
    ensures
        kept@ == reachable_peers(peers@),
{
    let mut kept: Vec<GossipedPeer> = Vec::new();
    let mut i: usize = 0;
    proof {
        assert(peers@.subrange(0, 0) =~= Seq::empty());
    }
    while i < peers.len()
        invariant
            i <= peers.len(),
            kept@ == reachable_peers(peers@.subrange(0, i as int)),
        decreases peers.len() - i,
    {
        proof {
            assert(peers@.subrange(0, i + 1).drop_last() =~= peers@.subrange(0, i as int));
        }
        if peers[i].reachable {
            kept.push(peers[i]);
        }
        i = i + 1;
    }
    proof {
        assert(peers@.subrange(0, i as int) =~= peers@);
    }
    kept
}

fn push_rejection(
    actions: &mut Vec<Action>,
    overlay: OverlayAddress,
    peer_id: PeerId,
    reason: ConnectionRejection,
    direction: ConnectionDirection,
)
    ensures
        final(actions)@ == old(actions)@ + rejection(overlay, peer_id, reason, direction),
{
    actions.push(
        Action::Emit(TopologyEvent::PeerRejected { overlay, peer_id, reason, direction }),
    );
    actions.push(Action::CloseAll(peer_id));
}

fn trust_level(reason: Option<DialReason>, is_local: bool) -> (trust: TrustLevel)
    ensures
        trust == trust_of(reason, is_local),
{
    match reason {
        Some(DialReason::Trusted) => TrustLevel::Trusted,
        _ => if is_local {
            TrustLevel::LocalSubnet
        } else {
            TrustLevel::Normal
        },
    }
}

/// What a completed handshake changes about reachability: a connection dialed
/// at a public address is proof, any other a sign of life; an inbound peer that
/// observed this node at a public address speaks for this node.
pub open spec fn settled(
    before: LocalAddressManager,
    after: LocalAddressManager,
    peer_id: PeerId,
    dialed_public: bool,
    direction: ConnectionDirection,
    observed: Option<Multiaddr>,
    now: Instant,
) -> bool {
    let record = before.reachability.lookup_or_fresh(peer_id, now);
    &&& after.reachability.is_update_of(
        before.reachability,
        peer_id,
        if dialed_public {
            record.after_proof(now)
        } else {
            record.after_success(now)
        },
    )
    &&& after == (LocalAddressManager {
        reachability: after.reachability,
        observed_reachable: before.observed_reachable || (direction
            == ConnectionDirection::Inbound && (observed matches Some(addr)
            && addr.spec_is_public())),
        ..before
    })
}

/// Whether a peer that becomes active enters the table.
pub open spec fn joins(before: KademliaRouting, overlay: OverlayAddress) -> bool {
    !before.connected_peers.holds(overlay) && before.connected_peers.count < usize::MAX
}

/// The table after a peer became active, before the phase is evaluated:
/// `after` supplies its connected peers and its capacity.
pub open spec fn table_with_peer(
    before: KademliaRouting,
    after: KademliaRouting,
    overlay: OverlayAddress,
    now: Instant,
) -> KademliaRouting {
    let seated = KademliaRouting {
        capacity: after.capacity,
        connected_peers: after.connected_peers,
        ..before
    };
    if joins(before, overlay) {
        seated.published(now).anchored(now)
    } else {
        seated
    }
}

/// `after` is the table `before` once the handshaking connection of a peer
/// became active, the peer joined, and depth, stability clock and topology
/// phase followed.
pub open spec fn joined_table(
    before: KademliaRouting,
    after: KademliaRouting,
    overlay: OverlayAddress,
    now: Instant,
) -> bool {
    &&& after.capacity.state() == crate::kademlia::capacity::after_advance(
        before.capacity.state(),
        overlay,
        before.bin_of(overlay),
        crate::kademlia::capacity::ConnectionPhase::Handshaking,
        crate::kademlia::capacity::ConnectionPhase::Active,
    )
    &&& before.capacity.exact() ==> after.capacity.exact()
    &&& !joins(before, overlay) ==> after.connected_peers == before.connected_peers
    &&& joins(before, overlay) ==> after.connected_peers.contents()
        == before.connected_peers.contents().update(
        before.bin_of(overlay),
        before.connected_peers.contents()[before.bin_of(overlay)].push(overlay),
    )
    &&& after == table_with_peer(before, after, overlay, now).phase_evaluated(now)
}

/// What a peer that becomes active asks for.
pub open spec fn join_actions(
    before: KademliaRouting,
    after: KademliaRouting,
    overlay: OverlayAddress,
    now: Instant,
) -> Seq<Action> {
    let joined = table_with_peer(before, after, overlay, now);
    seq![Action::RoutingGauges(Bin { raw: before.bin_of(overlay) as u8 })] + depth_actions(
        before.depth,
        joined.depth,
    ) + phase_actions(joined.phase_transition(now))
}

/// The noted public dials without one.
pub open spec fn without_dial(dials: Seq<u64>, connection_id: u64) -> Seq<u64> {
    if dials.contains(connection_id) {
        dials.remove(dials.index_of(connection_id))
    } else {
        dials
    }
}

/// What a moved depth asks for.
pub open spec fn depth_actions(
    old_depth: NeighborhoodDepth,
    new_depth: NeighborhoodDepth,
) -> Seq<Action> {
    if new_depth != old_depth {
        seq![Action::DepthChanged { old_depth, new_depth }]
    } else {
        seq![]
    }
}

/// What a moved topology phase asks for.
pub open spec fn phase_actions(transition: Option<PhaseTransition>) -> Seq<Action> {
    match transition {
        Some(t) => seq![
            Action::Emit(
                TopologyEvent::PhaseChanged { from: t.from, to: t.to, depth: t.depth.raw },
            ),
        ],
        None => seq![],
    }
}

/// What a failed handshake asks for.
pub open spec fn failure_actions(
    state: Option<ConnectionState>,
    error: HandshakeError,
    now: Instant,
) -> Seq<Action> {
    let gauge = match state {
        Some(s) => match s.stage {
            RegistryStage::Active => seq![Action::LowerGauge(RegistryGauge::Active)],
            RegistryStage::Pending => seq![Action::LowerGauge(RegistryGauge::Pending)],
            RegistryStage::Other => seq![],
        },
        None => seq![],
    };
    let overlay = match state {
        Some(s) => s.id,
        None => None,
    };
    let penalties = match overlay {
        Some(overlay) => seq![Action::RecordDialFailure(overlay)] + (if error.is_circumstance() {
            seq![]
        } else {
            seq![Action::ReportHandshakeFailure(overlay)]
        }),
        None => seq![],
    };
    let started = match state {
        Some(s) => s.started_at,
        None => None,
    };
    gauge + penalties + seq![
        Action::Emit(
            TopologyEvent::DialFailed {
                overlay,
                addr_count: 0,
                error: DialError::HandshakeFailed(error),
                dial_duration: match started {
                    Some(at) => Some(now.spec_since(at)),
                    None => None,
                },
                reason: reason_of(state),
            },
        ),
    ]
}

/// A handshake that failed by circumstance is never held against the peer.
pub proof fn circumstances_are_not_reported(
    state: Option<ConnectionState>,
    error: HandshakeError,
    now: Instant,
)
    requires
        error.is_circumstance(),
    ensures
        forall|i: int|
            0 <= i < failure_actions(state, error, now).len() ==> !(#[trigger] failure_actions(
                state,
                error,
                now,
            )[i] is ReportHandshakeFailure),
{
}

/// A handshake that failed by the peer's fault is held against the overlay
/// that the registry has for it.
pub proof fn faults_are_reported(state: ConnectionState, error: HandshakeError, now: Instant)
    requires
        !error.is_circumstance(),
        state.id is Some,
    ensures
        failure_actions(Some(state), error, now).contains(
            Action::ReportHandshakeFailure(state.id->0),
        ),
{
    let actions = failure_actions(Some(state), error, now);
    let gauges: int = if state.stage == RegistryStage::Other {
        0
    } else {
        1
    };
    assert(actions[gauges + 1] == Action::ReportHandshakeFailure(state.id->0));
}

/// Gossip is handed on only about peers that the node can reach, and about
/// each of those that were heard of.
pub proof fn handed_on_peers_are_reachable(peers: Seq<GossipedPeer>, peer: GossipedPeer)
    ensures
        reachable_peers(peers).contains(peer) <==> peers.contains(peer) && peer.reachable,
    decreases peers.len(),
{
    if peers.len() > 0 {
        let last = peers.last();
        let init = peers.drop_last();
        handed_on_peers_are_reachable(init, peer);
        assert(peers =~= init.push(last));
        if reachable_peers(peers).contains(peer) {
            let i = choose|i: int|
                0 <= i < reachable_peers(peers).len() && reachable_peers(peers)[i] == peer;
            if last.reachable && i == reachable_peers(init).len() {
                assert(peers[peers.len() - 1] == peer);
            } else {
                assert(reachable_peers(init)[i] == peer);
                let j = choose|j: int| 0 <= j < init.len() && init[j] == peer;
                assert(peers[j] == peer);
            }
        }
        if peers.contains(peer) && peer.reachable {
            let j = choose|j: int| 0 <= j < peers.len() && peers[j] == peer;
            if j == init.len() {
                assert(reachable_peers(peers)[reachable_peers(init).len() as int] == peer);
            } else {
                assert(init[j] == peer);
                let i = choose|i: int|
                    0 <= i < reachable_peers(init).len() && reachable_peers(init)[i] == peer;
                assert(reachable_peers(peers)[i] == peer);
            }
        }
    }
}

/// What the registry says of a connection is taken as it is; a connection that
/// it says nothing of is inbound and was dialed for no reason.
pub proof fn the_registry_is_taken_at_its_word(state: ConnectionState)
    ensures
        direction_of(None) == ConnectionDirection::Inbound,
        state.direction == Some(ConnectionDirection::Outbound) ==> direction_of(Some(state))
            == ConnectionDirection::Outbound,
        state.direction != Some(ConnectionDirection::Outbound) ==> direction_of(Some(state))
            == ConnectionDirection::Inbound,
        reason_of(None) is None,
        reason_of(Some(state)) == state.reason,
{
}

/// A dial went astray exactly where the registry has an overlay for it and the
/// peer asserted another one.
pub proof fn a_stray_dial_is_told_by_its_overlay(
    state: Option<ConnectionState>,
    overlay: OverlayAddress,
    dialed: OverlayAddress,
)
    ensures
        misdialed(state, overlay) == Some(dialed) <==> (state is Some && (state->0).id == Some(
            dialed,
        ) && dialed != overlay),
{
}

/// A rejected connection is told of once, with its reason and direction, and
/// then closed.
pub proof fn rejections_are_told_and_closed(
    overlay: OverlayAddress,
    peer_id: PeerId,
    reason: ConnectionRejection,
    direction: ConnectionDirection,
)
    ensures
        ({
            let actions = rejection(overlay, peer_id, reason, direction);
            &&& actions.len() == 2
            &&& actions[0] is Emit
            &&& actions[0]->Emit_0 == (TopologyEvent::PeerRejected {
                overlay,
                peer_id,
                reason,
                direction,
            })
            &&& actions[1] == Action::CloseAll(peer_id)
        }),
{
}

/// A connection is trusted exactly where it was dialed as a trusted one, and
/// otherwise better than normal exactly where it is on the local subnet.
pub proof fn trust_follows_the_dial(reason: Option<DialReason>, is_local: bool)
    ensures
        trust_of(reason, is_local) == TrustLevel::Trusted <==> reason == Some(DialReason::Trusted),
        trust_of(reason, is_local) == TrustLevel::LocalSubnet <==> is_local && reason != Some(
            DialReason::Trusted,
        ),
        trust_of(reason, is_local) == TrustLevel::Normal <==> !is_local && reason != Some(
            DialReason::Trusted,
        ),
{
}

/// A connection that was accepted moves from the pending to the active gauge,
/// and nothing is closed.
pub proof fn accepted_connections_move_the_gauges(
    behaviour: TopologyBehaviour,
    overlay: OverlayAddress,
    direction: ConnectionDirection,
)
    ensures
        ({
            let actions = behaviour.activation_actions(
                overlay,
                direction,
                ActivateResult::Accepted,
            );
            &&& actions.len() == 2
            &&& actions[0] == Action::LowerGauge(RegistryGauge::Pending)
            &&& actions[1] == Action::RaiseGauge(RegistryGauge::Active)
        }),
{
}

/// A connection that took over from an older one closes that one alone and has
/// the active gauge lowered once. The node counted before it is taken off the
/// count under the type that the book has for the older overlay, or as a
/// client. The pending gauge is lowered exactly where the older one was not
/// active yet, and no gauge is raised.
pub proof fn replaced_connections_are_closed(
    behaviour: TopologyBehaviour,
    overlay: OverlayAddress,
    direction: ConnectionDirection,
    old_peer_id: PeerId,
    old_connection_id: u64,
    old_id: Option<OverlayAddress>,
)
    ensures
        ({
            let actions = behaviour.activation_actions(
                overlay,
                direction,
                ActivateResult::Replaced { old_peer_id, old_connection_id, old_id },
            );
            let first: int = if old_id is None {
                1
            } else {
                0
            };
            let known = match old_id {
                Some(id) => behaviour.peers.lookup(id),
                None => behaviour.peers.lookup(overlay),
            };
            let counted = match known {
                Some(record) => match record.node_type {
                    Some(node_type) => node_type,
                    None => SwarmNodeType::Client,
                },
                None => SwarmNodeType::Client,
            };
            &&& actions.len() == first + 4
            &&& old_id is None ==> actions[0] == Action::LowerGauge(RegistryGauge::Pending)
            &&& actions[first] == Action::DecrementConnected(counted)
            &&& actions[first + 1] == Action::LowerGauge(RegistryGauge::Active)
            &&& actions[first + 2] == Action::Emit(
                TopologyEvent::PeerRejected {
                    overlay,
                    peer_id: old_peer_id,
                    reason: ConnectionRejection::DuplicateConnection,
                    direction,
                },
            )
            &&& actions[first + 3] == Action::CloseOne {
                peer_id: old_peer_id,
                connection_id: old_connection_id,
            }
        }),
{
}

/// What a completed handshake settles: a peer dialed at a public address is
/// reachable from now on, any other that was taken for unreachable is unknown
/// again and keeps its status otherwise, and none has a failure left; other
/// peers are as they were. This node counts as observed from outside once an
/// inbound peer saw it at a public address, and never ceases to.
pub proof fn handshakes_settle_reachability(
    before: LocalAddressManager,
    after: LocalAddressManager,
    peer_id: PeerId,
    dialed_public: bool,
    direction: ConnectionDirection,
    observed: Option<Multiaddr>,
    now: Instant,
    other: PeerId,
)
    requires
        settled(before, after, peer_id, dialed_public, direction, observed, now),
    ensures
        ({
            let was = before.reachability.spec_status(peer_id);
            let is_now = after.reachability.spec_status(peer_id);
            &&& dialed_public ==> is_now == crate::reachability::PeerReachability::Reachable
            &&& !dialed_public && was == crate::reachability::PeerReachability::Unreachable
                ==> is_now == crate::reachability::PeerReachability::Unknown
            &&& !dialed_public && was != crate::reachability::PeerReachability::Unreachable
                ==> is_now == was
            &&& after.reachability.lookup(peer_id) is Some
            &&& (after.reachability.lookup(peer_id)->0).failures == 0
        }),
        other != peer_id ==> after.reachability.lookup(other) == before.reachability.lookup(other),
        before.observed_reachable ==> after.observed_reachable,
        direction == ConnectionDirection::Inbound && observed is Some
            && (observed->0).spec_is_public() ==> after.observed_reachable,
        !before.observed_reachable && (direction != ConnectionDirection::Inbound || observed is None
            || !(observed->0).spec_is_public()) ==> !after.observed_reachable,
{
    assert(after.reachability.lookup(peer_id) is Some);
    assert(other != peer_id ==> after.reachability.lookup(other) == before.reachability.lookup(
        other,
    ));
}

/// A peer whose handshake completed is active from now on and stands in the
/// table, where it stood before or entered now at the end of its bin; every
/// other peer stays in its phase and in its place. Nothing else of the table
/// changes but the depth, the clocks and the topology phase.
pub proof fn a_completed_handshake_joins_the_table(
    before: KademliaRouting,
    after: KademliaRouting,
    overlay: OverlayAddress,
    now: Instant,
    other: OverlayAddress,
)
    requires
        before.wf(),
        joined_table(before, after, overlay, now),
    ensures
        crate::kademlia::capacity::phase_of(before.capacity.connections@, overlay) == Some(
            crate::kademlia::capacity::ConnectionPhase::Handshaking,
        ) ==> crate::kademlia::capacity::phase_of(after.capacity.connections@, overlay) == Some(
            crate::kademlia::capacity::ConnectionPhase::Active,
        ),
        other != overlay ==> crate::kademlia::capacity::phase_of(
            after.capacity.connections@,
            other,
        ) == crate::kademlia::capacity::phase_of(before.capacity.connections@, other),
        before.connected_peers.count < usize::MAX ==> after.connected_peers.contents()[before.bin_of(
            overlay,
        )].contains(overlay),
        before.connected_peers.contents()[before.bin_of(overlay)].contains(overlay)
            ==> after.connected_peers.contents() == before.connected_peers.contents(),
        forall|b: int|
            #![trigger after.connected_peers.contents()[b]]
            0 <= b <= before.max_po && b != before.bin_of(overlay)
                ==> after.connected_peers.contents()[b] == before.connected_peers.contents()[b],
        after.local == before.local,
        after.max_po == before.max_po,
        after.config == before.config,
        after.candidate_queues == before.candidate_queues,
{
    crate::kademlia::capacity::advancing_sets_the_phase(
        before.capacity.state(),
        overlay,
        before.bin_of(overlay),
        crate::kademlia::capacity::ConnectionPhase::Handshaking,
        crate::kademlia::capacity::ConnectionPhase::Active,
        overlay,
    );
    crate::kademlia::capacity::advancing_sets_the_phase(
        before.capacity.state(),
        overlay,
        before.bin_of(overlay),
        crate::kademlia::capacity::ConnectionPhase::Handshaking,
        crate::kademlia::capacity::ConnectionPhase::Active,
        other,
    );
    if joins(before, overlay) {
        let home = before.bin_of(overlay);
        let bin = before.connected_peers.contents()[home].push(overlay);
        assert(bin[bin.len() - 1] == overlay);
        assert(after.connected_peers.contents()[home] == bin);
    }
}

/// A peer that joins has the gauges of its bin exported; a move of the depth
/// and one of the topology phase are each told of where they happened, and
/// nothing else.
pub proof fn joining_tells_what_moved(
    before: KademliaRouting,
    after: KademliaRouting,
    overlay: OverlayAddress,
    now: Instant,
)
    requires
        joined_table(before, after, overlay, now),
    ensures
        ({
            let actions = join_actions(before, after, overlay, now);
            let depth_moved: int = if after.depth != before.depth {
                1
            } else {
                0
            };
            let phase_moved: int = if after.topology_phase.phase != before.topology_phase.phase {
                1
            } else {
                0
            };
            &&& actions.len() == 1 + depth_moved + phase_moved
            &&& actions[0] == Action::RoutingGauges(Bin { raw: before.bin_of(overlay) as u8 })
            &&& depth_moved == 1 ==> actions[1] == Action::DepthChanged {
                old_depth: before.depth,
                new_depth: after.depth,
            }
            &&& phase_moved == 1 ==> actions[1 + depth_moved] == Action::Emit(
                TopologyEvent::PhaseChanged {
                    from: before.topology_phase.phase,
                    to: after.topology_phase.phase,
                    depth: after.depth.raw,
                },
            )
        }),
{
}

/// Forgetting a dial takes that one off the notes and no other, and leaves the
/// others in order.
pub proof fn forgetting_a_dial_keeps_the_others(dials: Seq<u64>, connection_id: u64, other: u64)
    requires
        dials.no_duplicates(),
    ensures
        without_dial(dials, connection_id).contains(other) <==> dials.contains(other) && other
            != connection_id,
        without_dial(dials, connection_id).len() == dials.len() - (if dials.contains(
            connection_id,
        ) {
            1int
        } else {
            0
        }),
{
    if dials.contains(connection_id) {
        let at = dials.index_of(connection_id);
        let rest = dials.remove(at);
        if rest.contains(other) {
            let k = choose|k: int| 0 <= k < rest.len() && rest[k] == other;
            if k < at {
                assert(dials[k] == other);
            } else {
                assert(dials[k + 1] == other);
            }
        }
        if dials.contains(other) && other != connection_id {
            let k = choose|k: int| 0 <= k < dials.len() && dials[k] == other;
            if k < at {
                assert(rest[k] == other);
            } else {
                assert(rest[k - 1] == other);
            }
        }
    }
}

/// What a failed handshake asks for: the gauge of its stage lowered, where it
/// has one; its dial recorded as failed and, for a fault of the peer, reported,
/// where the registry has an overlay; and last the failed dial told of, with
/// what the registry knows of it.
pub proof fn failed_handshakes_are_recorded(
    state: ConnectionState,
    error: HandshakeError,
    now: Instant,
)
    ensures
        ({
            let actions = failure_actions(Some(state), error, now);
            let gauges: int = if state.stage == RegistryStage::Active || state.stage
                == RegistryStage::Pending {
                1
            } else {
                0
            };
            let penalties: int = if state.id is None {
                0
            } else if error == HandshakeError::Timeout || error == HandshakeError::ConnectionClosed
                || error == HandshakeError::Io || error == HandshakeError::Upgrade {
                1
            } else {
                2
            };
            &&& actions.len() == gauges + penalties + 1
            &&& state.stage == RegistryStage::Active ==> actions[0] == Action::LowerGauge(
                RegistryGauge::Active,
            )
            &&& state.stage == RegistryStage::Pending ==> actions[0] == Action::LowerGauge(
                RegistryGauge::Pending,
            )
            &&& state.id is Some ==> actions[gauges] == Action::RecordDialFailure(state.id->0)
            &&& penalties == 2 ==> actions[gauges + 1] == Action::ReportHandshakeFailure(
                state.id->0,
            )
            &&& actions.last() is Emit
            &&& actions.last()->Emit_0 is DialFailed
            &&& actions.last()->Emit_0->DialFailed_overlay == state.id
            &&& actions.last()->Emit_0->DialFailed_error == DialError::HandshakeFailed(error)
            &&& actions.last()->Emit_0->DialFailed_reason == state.reason
            &&& state.started_at is None
                ==> actions.last()->Emit_0->DialFailed_dial_duration is None
            &&& state.started_at is Some && (state.started_at->0).nanos <= now.nanos ==> {
                &&& actions.last()->Emit_0->DialFailed_dial_duration is Some
                &&& (state.started_at->0).nanos + (
                actions.last()->Emit_0->DialFailed_dial_duration->0).nanos == now.nanos
            }
        }),
        failure_actions(None, error, now).len() == 1,
{
}

/// A peer that enters the table has the depth follow: it is the shallowest
/// unsaturated bin of the table with the peer, or a lowering is held back.
pub proof fn joining_settles_the_depth(
    before: KademliaRouting,
    after: KademliaRouting,
    overlay: OverlayAddress,
    now: Instant,
)
    requires
        before.wf(),
        after.wf(),
        joined_table(before, after, overlay, now),
        before.config.limits.saturation <= u8::MAX,
        !before.connected_peers.holds(overlay),
        before.connected_peers.count < usize::MAX,
    ensures
        crate::kademlia::routing::is_frontier(
            after.connected_peers.contents(),
            after.config.limits.saturation,
            after.depth.raw as int,
        ) || (after.depth == before.depth && after.pending_depth_lower is Some),
        after.neighborhood_stability is Some <==> after.is_saturated(after.depth),
{
    let seated = KademliaRouting {
        capacity: after.capacity,
        connected_peers: after.connected_peers,
        ..before
    };
    assert(seated.wf());
    crate::kademlia::routing::publishing_settles_the_depth(seated, now);
}

/// Where a dial went astray, the peer that was dialed is followed no more and
/// the one that answered is, every other peer as before; where it did not,
/// nothing changes.
pub proof fn a_stray_dial_gives_up_its_place(
    behaviour: TopologyBehaviour,
    state: Option<ConnectionState>,
    overlay: OverlayAddress,
    other: OverlayAddress,
)
    requires
        behaviour.wf(),
    ensures
        ({
            let before = behaviour.routing.capacity.state();
            let after = behaviour.reassigned(state, overlay);
            let astray = state is Some && (state->0).id is Some && (state->0).id != Some(overlay);
            &&& !astray ==> after == before
            &&& astray ==> crate::kademlia::capacity::phase_of(after.0, (state->0).id->0) is None
            &&& astray ==> crate::kademlia::capacity::phase_of(after.0, overlay) is Some
            &&& astray && crate::kademlia::capacity::phase_of(before.0, overlay) is None
                ==> crate::kademlia::capacity::phase_of(after.0, overlay) == Some(
                crate::kademlia::capacity::ConnectionPhase::Handshaking,
            )
            &&& astray && other != overlay && Some(other) != (state->0).id
                ==> crate::kademlia::capacity::phase_of(after.0, other)
                == crate::kademlia::capacity::phase_of(before.0, other)
        }),
{
    let before = behaviour.routing.capacity.state();
    if let Some(dialed) = misdialed(state, overlay) {
        let home = behaviour.routing.bin_of(dialed);
        let counted = Some(crate::kademlia::capacity::ConnectionPhase::Handshaking);
        let freed = crate::kademlia::capacity::after_release(before, dialed, home, counted);
        crate::kademlia::capacity::releasing_clears_the_phase(
            before,
            dialed,
            home,
            counted,
            dialed,
        );
        crate::kademlia::capacity::releasing_clears_the_phase(
            before,
            dialed,
            home,
            counted,
            overlay,
        );
        crate::kademlia::capacity::releasing_clears_the_phase(
            before,
            dialed,
            home,
            counted,
            other,
        );
        crate::kademlia::capacity::releasing_keeps_distinct(before, dialed, home, counted);
        let place = behaviour.routing.bin_of(overlay);
        crate::kademlia::capacity::reserving_starts_a_handshake(freed, overlay, place, dialed);
        crate::kademlia::capacity::reserving_starts_a_handshake(freed, overlay, place, other);
    }
}

/// A peer is turned away as banned exactly where the book has it banned.
pub proof fn the_book_decides_on_bans(behaviour: TopologyBehaviour, overlay: OverlayAddress)
    ensures
        behaviour.bans(overlay) <==> behaviour.peers.lookup(overlay) is Some && (
        behaviour.peers.lookup(overlay)->0).banned,
{
}

/// Gossip is handed on in the order in which it came.
pub proof fn gossip_is_handed_on_in_order(peers: Seq<GossipedPeer>, peer: GossipedPeer)
    ensures
        reachable_peers(Seq::empty()) == Seq::<GossipedPeer>::empty(),
        peer.reachable ==> reachable_peers(peers.push(peer)) == reachable_peers(peers).push(peer),
        !peer.reachable ==> reachable_peers(peers.push(peer)) == reachable_peers(peers),
{
    assert(peers.push(peer).drop_last() =~= peers);
}

} // verus!
