//! What topology events mean for the exported metrics.
//!
//! The recorder keeps the current counts and turns each event into the updates
//! of gauges, counters and histograms that are to be exported.

use crate::events::{ConnectionRejection, DialReason, DisconnectReason, TopologyEvent};
use crate::kademlia::admission::ConnectionDirection;
use crate::kademlia::capacity::ConnectionPhase;
use crate::primitives::SwarmNodeType;
use crate::time::Duration;
use vstd::prelude::*;

verus! {

/// Label of a proximity order: its decimal digits.
pub open spec fn spec_po_label(po: u8) -> Seq<char> {
    if po > 31 {
        "overflow"@
    } else if po >= 10 {
        seq![digit(po / 10), digit(po % 10)]
    } else {
        seq![digit(po)]
    }
}

/// The character of a decimal digit.
pub open spec fn digit(d: u8) -> char {
    (48 + d) as char
}

/// Label of a proximity order, or `overflow` for one beyond the deepest bin.
pub fn po_label(po: u8) -> (label: &'static str)
    ensures
        label@ == spec_po_label(po),
{
    proof {
        reveal_strlit("0");
        reveal_strlit("1");
        reveal_strlit("2");
        reveal_strlit("3");
        reveal_strlit("4");
        reveal_strlit("5");
        reveal_strlit("6");
        reveal_strlit("7");
        reveal_strlit("8");
        reveal_strlit("9");
        reveal_strlit("10");
        reveal_strlit("11");
        reveal_strlit("12");
        reveal_strlit("13");
        reveal_strlit("14");
        reveal_strlit("15");
        reveal_strlit("16");
        reveal_strlit("17");
        reveal_strlit("18");
        reveal_strlit("19");
        reveal_strlit("20");
        reveal_strlit("21");
        reveal_strlit("22");
        reveal_strlit("23");
        reveal_strlit("24");
        reveal_strlit("25");
        reveal_strlit("26");
        reveal_strlit("27");
        reveal_strlit("28");
        reveal_strlit("29");
        reveal_strlit("30");
        reveal_strlit("31");
    }
    let label: &'static str = match po {
        0 => "0",
        1 => "1",
        2 => "2",
        3 => "3",
        4 => "4",
        5 => "5",
        6 => "6",
        7 => "7",
        8 => "8",
        9 => "9",
        10 => "10",
        11 => "11",
        12 => "12",
        13 => "13",
        14 => "14",
        15 => "15",
        16 => "16",
        17 => "17",
        18 => "18",
        19 => "19",
        20 => "20",
        21 => "21",
        22 => "22",
        23 => "23",
        24 => "24",
        25 => "25",
        26 => "26",
        27 => "27",
        28 => "28",
        29 => "29",
        30 => "30",
        31 => "31",
        _ => "overflow",
    };
    proof {
        assert(label@ =~= spec_po_label(po));
    }
    label
}

/// Label of a connection phase; `None` is the state before any.
pub fn phase_label(phase: Option<ConnectionPhase>) -> (label: &'static str)
    ensures
        label@ == (match phase {
            None => "none"@,
            Some(ConnectionPhase::Dialing) => "dialing"@,
            Some(ConnectionPhase::Handshaking) => "handshaking"@,
            Some(ConnectionPhase::Active) => "active"@,
        }),
{
    match phase {
        None => "none",
        Some(ConnectionPhase::Dialing) => "dialing",
        Some(ConnectionPhase::Handshaking) => "handshaking",
        Some(ConnectionPhase::Active) => "active",
    }
}

/// One update of the exported metrics.
#[derive(Clone, Copy, Debug, PartialEq, Eq, Structural)]
#[allow(inconsistent_fields)]
pub enum MetricUpdate {
    /// Gauges `topology_connected_peers` of both node types.
    ConnectedPeers { storers: u64, clients: u64 },
    /// Counter `topology_connections_total`, outcome success.
    ConnectionAccepted { node_type: SwarmNodeType, direction: ConnectionDirection },
    /// Counter `topology_connections_rejected_total`.
    ConnectionRejected { reason: ConnectionRejection, direction: ConnectionDirection },
    /// Counter `topology_disconnections_total`, connection type peer.
    Disconnection { reason: DisconnectReason, node_type: SwarmNodeType },
    /// Histogram `topology_connection_duration_seconds`.
    ConnectionDuration { node_type: SwarmNodeType, duration: Duration },
    /// Counter `topology_disconnections_total`, connection type unknown.
    UnknownOverlayDisconnection,
    /// Gauge `topology_depth`.
    Depth { depth: u8 },
    /// Counter `topology_depth_increases_total`.
    DepthIncrease,
    /// Counter `topology_depth_decreases_total`.
    DepthDecrease,
    /// Counter `topology_dial_failures_total`; no reason is labelled unknown.
    DialFailure { reason: Option<DialReason> },
    /// Histogram `topology_dial_duration_seconds`, outcome failure.
    FailedDialDuration { duration: Duration },
    /// Histogram `topology_dial_addr_count`.
    DialAddrCount { count: usize },
    /// Counter `topology_dial_exhausted_total`.
    DialExhausted,
    /// Counter `topology_pings_total`, outcome success.
    Ping,
    /// Histogram `topology_ping_rtt_seconds`.
    PingRtt { rtt: Duration },
    /// Gauges of the gossip verifier.
    GossipVerifier { pending: usize, in_flight: usize, gossipers: usize, memory_bytes: usize },
    /// Gauges of the proximity index cache.
    ProximityCache { cached_items: usize, valid: bool, generation: u64 },
    /// Gauges of the peer manager.
    PeerManager {
        total_peers: usize,
        banned_peers: usize,
        entries_bytes: usize,
        bin_index_bytes: usize,
    },
    /// Gauge `topology_memory_connection_registry_bytes`.
    ConnectionRegistry { memory_bytes: usize },
    /// Counter `topology_phase_transitions_total`.
    PhaseTransition { from: Option<ConnectionPhase>, to: Option<ConnectionPhase> },
}

/// One less, or zero.
pub fn saturating_decrement(counter: &mut u64)
    ensures
        *final(counter) == if *old(counter) == 0 {
            0
        } else {
            (*old(counter) - 1) as u64
        },
{
    *counter = counter.saturating_sub(1);
}

/// The node type that a peer is counted as: nodes that store chunks are
/// storers, all others clients.
pub open spec fn counted_as(node_type: SwarmNodeType) -> SwarmNodeType {
    if node_type == SwarmNodeType::Storer {
        SwarmNodeType::Storer
    } else {
        SwarmNodeType::Client
    }
}

/// Metrics recorder for topology events.
#[derive(Clone, Copy, Debug, PartialEq, Eq, Structural)]
pub struct TopologyMetrics {
    pub connected_storers: u64,
    pub connected_clients: u64,
    pub current_depth: u64,
}

impl TopologyMetrics {
    /// The gauges of both node types.
    pub open spec fn gauges(self) -> MetricUpdate {
        MetricUpdate::ConnectedPeers {
            storers: self.connected_storers,
            clients: self.connected_clients,
        }
    }

    /// The recorder after one more peer of `node_type`.
    pub open spec fn with_peer(self, node_type: SwarmNodeType) -> TopologyMetrics {
        if counted_as(node_type) == SwarmNodeType::Storer {
            TopologyMetrics { connected_storers: crate::arith::one_more(self.connected_storers), ..self }
        } else {
            TopologyMetrics { connected_clients: crate::arith::one_more(self.connected_clients), ..self }
        }
    }

    /// The recorder after one peer of `node_type` less.
    pub open spec fn without_peer(self, node_type: SwarmNodeType) -> TopologyMetrics {
        if counted_as(node_type) == SwarmNodeType::Storer {
            TopologyMetrics { connected_storers: crate::arith::one_less(self.connected_storers), ..self }
        } else {
            TopologyMetrics { connected_clients: crate::arith::one_less(self.connected_clients), ..self }
        }
    }

    /// The recorder after an event.
    pub open spec fn after(self, event: TopologyEvent) -> TopologyMetrics {
        match event {
            TopologyEvent::PeerReady { overlay, peer_id, node_type, direction } => self.with_peer(
                node_type,
            ),
            TopologyEvent::PeerDisconnected {
                overlay,
                reason,
                connection_duration,
                node_type,
            } => self.without_peer(node_type),
            TopologyEvent::DepthChanged { old_depth, new_depth } => TopologyMetrics {
                current_depth: new_depth as u64,
                ..self
            },
            _ => self,
        }
    }

    /// The metric updates of an event.
    pub open spec fn updates(self, event: TopologyEvent) -> Seq<MetricUpdate> {
        match event {
            TopologyEvent::PeerReady { overlay, peer_id, node_type, direction } => seq![
                self.after(event).gauges(),
                MetricUpdate::ConnectionAccepted { node_type: counted_as(node_type), direction },
            ],
            TopologyEvent::PeerRejected { overlay, peer_id, reason, direction } => seq![
                MetricUpdate::ConnectionRejected { reason, direction },
            ],
            TopologyEvent::PeerDisconnected {
                overlay,
                reason,
                connection_duration,
                node_type,
            } => seq![
                self.after(event).gauges(),
                MetricUpdate::Disconnection { reason, node_type: counted_as(node_type) },
            ] + (match connection_duration {
                Some(duration) => seq![
                    MetricUpdate::ConnectionDuration {
                        node_type: counted_as(node_type),
                        duration,
                    },
                ],
                None => seq![],
            }),
            TopologyEvent::DepthChanged { old_depth, new_depth } => seq![
                MetricUpdate::Depth { depth: new_depth },
                if new_depth > old_depth {
                    MetricUpdate::DepthIncrease
                } else {
                    MetricUpdate::DepthDecrease
                },
            ],
            TopologyEvent::DialFailed { overlay, addr_count, error, dial_duration, reason } => seq![
                MetricUpdate::DialFailure { reason },
            ] + (match dial_duration {
                Some(duration) => seq![MetricUpdate::FailedDialDuration { duration }],
                None => seq![],
            }) + seq![
                MetricUpdate::DialAddrCount { count: addr_count },
                MetricUpdate::DialExhausted,
            ],
            TopologyEvent::PingCompleted { overlay, rtt } => seq![
                MetricUpdate::Ping,
                MetricUpdate::PingRtt { rtt },
            ],
            TopologyEvent::PhaseChanged { from, to, depth } => seq![],
        }
    }

    /// A recorder with all counts at zero.
    pub fn new() -> (metrics: TopologyMetrics)
        ensures
            metrics == (TopologyMetrics {
                connected_storers: 0,
                connected_clients: 0,
                current_depth: 0,
            }),
    {
        TopologyMetrics { connected_storers: 0, connected_clients: 0, current_depth: 0 }
    }

    /// Take note of an event and return the metric updates it causes.
    pub fn record_event(&mut self, event: &TopologyEvent) -> (updates: Vec<MetricUpdate>)
        ensures
            *final(self) == old(self).after(*event),
            updates@ == old(self).updates(*event),
    {
        let updates: Vec<MetricUpdate> = match *event {
            TopologyEvent::PeerReady { overlay: _, peer_id: _, node_type, direction } => {
                self.record_peer_ready(node_type, direction)
            },
            TopologyEvent::PeerRejected { overlay: _, peer_id: _, reason, direction } => {
                self.record_peer_rejected(reason, direction)
            },
            TopologyEvent::PeerDisconnected {
                overlay: _,
                reason,
                connection_duration,
                node_type,
            } => { self.record_peer_disconnected(reason, connection_duration, node_type) },
            TopologyEvent::DepthChanged { old_depth, new_depth } => {
                self.record_depth_changed(old_depth, new_depth)
            },
            TopologyEvent::DialFailed {
                overlay: _,
                addr_count,
                error: _,
                dial_duration,
                reason,
            } => { self.record_dial_failed(dial_duration, addr_count, reason) },
            TopologyEvent::PingCompleted { overlay: _, rtt } => { self.record_ping_completed(rtt) },
            TopologyEvent::PhaseChanged { from: _, to: _, depth: _ } => { Vec::new() },
        };
        proof {
            assert(updates@ =~= old(self).updates(*event));
        }
        updates
    }

    fn record_peer_ready(
        &mut self,
        node_type: SwarmNodeType,
        direction: ConnectionDirection,
    ) -> (updates: Vec<MetricUpdate>)
        ensures
            *final(self) == old(self).with_peer(node_type),
            updates@ == seq![
                final(self).gauges(),
                MetricUpdate::ConnectionAccepted { node_type: counted_as(node_type), direction },
            ],
    {
        let counted: SwarmNodeType = if node_type.requires_storage() {
            self.connected_storers = self.connected_storers.wrapping_add(1);
            SwarmNodeType::Storer
        } else {
            self.connected_clients = self.connected_clients.wrapping_add(1);
            SwarmNodeType::Client
        };
        let mut updates: Vec<MetricUpdate> = Vec::new();
        updates.push(self.gauge_update());
        updates.push(MetricUpdate::ConnectionAccepted { node_type: counted, direction });
        updates
    }

    fn record_peer_rejected(
        &self,
        reason: ConnectionRejection,
        direction: ConnectionDirection,
    ) -> (updates: Vec<MetricUpdate>)
        ensures
            updates@ == seq![MetricUpdate::ConnectionRejected { reason, direction }],
    {
        let mut updates: Vec<MetricUpdate> = Vec::new();
        updates.push(MetricUpdate::ConnectionRejected { reason, direction });
        updates
    }

    fn record_peer_disconnected(
        &mut self,
        reason: DisconnectReason,
        connection_duration: Option<Duration>,
        node_type: SwarmNodeType,
    ) -> (updates: Vec<MetricUpdate>)
        ensures
            *final(self) == old(self).without_peer(node_type),
            updates@ == seq![
                final(self).gauges(),
                MetricUpdate::Disconnection { reason, node_type: counted_as(node_type) },
            ] + (match connection_duration {
                Some(duration) => seq![
                    MetricUpdate::ConnectionDuration {
                        node_type: counted_as(node_type),
                        duration,
                    },
                ],
                None => seq![],
            }),
    {
        let counted: SwarmNodeType = if node_type.requires_storage() {
            saturating_decrement(&mut self.connected_storers);
            SwarmNodeType::Storer
        } else {
            saturating_decrement(&mut self.connected_clients);
            SwarmNodeType::Client
        };
        let mut updates: Vec<MetricUpdate> = Vec::new();
        updates.push(self.gauge_update());
        updates.push(MetricUpdate::Disconnection { reason, node_type: counted });
        if let Some(duration) = connection_duration {
            updates.push(MetricUpdate::ConnectionDuration { node_type: counted, duration });
        }
        updates
    }

    fn record_depth_changed(&mut self, old_depth: u8, new_depth: u8) -> (updates: Vec<MetricUpdate>)
        ensures
            *final(self) == (TopologyMetrics { current_depth: new_depth as u64, ..*old(self) }),
            updates@ == seq![
                MetricUpdate::Depth { depth: new_depth },
                if new_depth > old_depth {
                    MetricUpdate::DepthIncrease
                } else {
                    MetricUpdate::DepthDecrease
                },
            ],
    {
        self.current_depth = new_depth as u64;
        let mut updates: Vec<MetricUpdate> = Vec::new();
        updates.push(MetricUpdate::Depth { depth: new_depth });
        if new_depth > old_depth {
            updates.push(MetricUpdate::DepthIncrease);
        } else {
            updates.push(MetricUpdate::DepthDecrease);
        }
        updates
    }

    fn record_dial_failed(
        &self,
        dial_duration: Option<Duration>,
        addr_count: usize,
        reason: Option<DialReason>,
    ) -> (updates: Vec<MetricUpdate>)
        ensures
            updates@ == seq![MetricUpdate::DialFailure { reason }] + (match dial_duration {
                Some(duration) => seq![MetricUpdate::FailedDialDuration { duration }],
                None => seq![],
            }) + seq![
                MetricUpdate::DialAddrCount { count: addr_count },
                MetricUpdate::DialExhausted,
            ],
    {
        let mut updates: Vec<MetricUpdate> = Vec::new();
        updates.push(MetricUpdate::DialFailure { reason });
        if let Some(duration) = dial_duration {
            updates.push(MetricUpdate::FailedDialDuration { duration });
        }
        updates.push(MetricUpdate::DialAddrCount { count: addr_count });
        updates.push(MetricUpdate::DialExhausted);
        updates
    }

    fn record_ping_completed(&self, rtt: Duration) -> (updates: Vec<MetricUpdate>)
        ensures
            updates@ == seq![MetricUpdate::Ping, MetricUpdate::PingRtt { rtt }],
    {
        let mut updates: Vec<MetricUpdate> = Vec::new();
        updates.push(MetricUpdate::Ping);
        updates.push(MetricUpdate::PingRtt { rtt });
        updates
    }

    fn gauge_update(&self) -> (update: MetricUpdate)
        ensures
            update == self.gauges(),
    {
        MetricUpdate::ConnectedPeers {
            storers: self.connected_storers,
            clients: self.connected_clients,
        }
    }

    /// Replace the connected counts.
    pub fn set_connected_peers(&mut self, storers: u64, clients: u64) -> (update: MetricUpdate)
        ensures
            *final(self) == (TopologyMetrics {
                connected_storers: storers,
                connected_clients: clients,
                ..*old(self)
            }),
            update == (MetricUpdate::ConnectedPeers { storers, clients }),
    {
        self.connected_storers = storers;
        self.connected_clients = clients;
        self.gauge_update()
    }

    /// A connection ended whose overlay address was not known.
    pub fn record_unknown_overlay_disconnect(&self) -> (update: MetricUpdate)
        ensures
            update == MetricUpdate::UnknownOverlayDisconnection,
    {
        MetricUpdate::UnknownOverlayDisconnection
    }

    /// The current depth, as its low byte.
    pub fn depth(&self) -> (depth: u8)
        ensures
            depth == self.current_depth as u8,
    {
        #[verifier::truncate]
        (self.current_depth as u8)
    }

    /// The current count of connected storers.
    pub fn connected_storers(&self) -> (n: u64)
        ensures
            n == self.connected_storers,
    {
        self.connected_storers
    }

    /// The current count of connected clients.
    pub fn connected_clients(&self) -> (n: u64)
        ensures
            n == self.connected_clients,
    {
        self.connected_clients
    }

    /// Statistics of the gossip verifier.
    pub fn record_gossip_verifier_stats(
        &self,
        pending: usize,
        in_flight: usize,
        gossipers: usize,
        estimated_memory_bytes: usize,
    ) -> (update: MetricUpdate)
        ensures
            update == (MetricUpdate::GossipVerifier {
                pending,
                in_flight,
                gossipers,
                memory_bytes: estimated_memory_bytes,
            }),
    {
        MetricUpdate::GossipVerifier {
            pending,
            in_flight,
            gossipers,
            memory_bytes: estimated_memory_bytes,
        }
    }

    /// Statistics of the proximity index cache.
    pub fn record_proximity_cache_stats(
        &self,
        cached_items: usize,
        cache_valid: bool,
        generation: u64,
    ) -> (update: MetricUpdate)
        ensures
            update == (MetricUpdate::ProximityCache {
                cached_items,
                valid: cache_valid,
                generation,
            }),
    {
        MetricUpdate::ProximityCache { cached_items, valid: cache_valid, generation }
    }

    /// Memory statistics of the peer manager.
    pub fn record_peer_manager_stats(
        &self,
        total_peers: usize,
        banned_peers: usize,
        estimated_entries_bytes: usize,
        estimated_bin_index_bytes: usize,
    ) -> (update: MetricUpdate)
        ensures
            update == (MetricUpdate::PeerManager {
                total_peers,
                banned_peers,
                entries_bytes: estimated_entries_bytes,
                bin_index_bytes: estimated_bin_index_bytes,
            }),
    {
        MetricUpdate::PeerManager {
            total_peers,
            banned_peers,
            entries_bytes: estimated_entries_bytes,
            bin_index_bytes: estimated_bin_index_bytes,
        }
    }

    /// Memory statistics of the connection registry.
    pub fn record_connection_registry_stats(&self, estimated_memory_bytes: usize) -> (update:
        MetricUpdate)
        ensures
            update == (MetricUpdate::ConnectionRegistry { memory_bytes: estimated_memory_bytes }),
    {
        MetricUpdate::ConnectionRegistry { memory_bytes: estimated_memory_bytes }
    }
}

/// A connection moved from one phase to another.
pub fn record_phase_transition(
    from: Option<ConnectionPhase>,
    to: Option<ConnectionPhase>,
) -> (update: MetricUpdate)
    ensures
        update == (MetricUpdate::PhaseTransition { from, to }),
{
    MetricUpdate::PhaseTransition { from, to }
}

impl Default for TopologyMetrics {
    fn default() -> (metrics: TopologyMetrics)
        ensures
            metrics == (TopologyMetrics {
                connected_storers: 0,
                connected_clients: 0,
                current_depth: 0,
            }),
    {
        TopologyMetrics::new()
    }
}

/// A peer that becomes ready and disconnects again leaves the counts as they
/// were, as long as they have not reached the largest value.
pub proof fn disconnect_undoes_ready(metrics: TopologyMetrics, node_type: SwarmNodeType)
    requires
        metrics.connected_storers < u64::MAX,
        metrics.connected_clients < u64::MAX,
    ensures
        metrics.with_peer(node_type).without_peer(node_type) == metrics,
{
}

/// A disconnect that no ready peer preceded leaves a count at zero.
pub proof fn disconnect_never_underflows(metrics: TopologyMetrics, node_type: SwarmNodeType)
    requires
        metrics.connected_storers == 0,
        metrics.connected_clients == 0,
    ensures
        metrics.without_peer(node_type) == metrics,
{
}

/// What an event does to the counts: a ready peer adds one and a disconnected
/// one takes one off, to the storers for a node that stores chunks and to the
/// clients for any other; a moved depth is kept; nothing else changes them.
pub proof fn events_move_the_counts(metrics: TopologyMetrics, event: TopologyEvent)
    ensures
        ({
            let after = metrics.after(event);
            match event {
                TopologyEvent::PeerReady { overlay, peer_id, node_type, direction } => {
                    &&& after.current_depth == metrics.current_depth
                    &&& node_type == SwarmNodeType::Storer ==> after.connected_clients
                        == metrics.connected_clients
                    &&& node_type != SwarmNodeType::Storer ==> after.connected_storers
                        == metrics.connected_storers
                    &&& node_type == SwarmNodeType::Storer && metrics.connected_storers < u64::MAX
                        ==> after.connected_storers == metrics.connected_storers + 1
                    &&& node_type != SwarmNodeType::Storer && metrics.connected_clients < u64::MAX
                        ==> after.connected_clients == metrics.connected_clients + 1
                },
                TopologyEvent::PeerDisconnected {
                    overlay,
                    reason,
                    connection_duration,
                    node_type,
                } => {
                    &&& after.current_depth == metrics.current_depth
                    &&& node_type == SwarmNodeType::Storer ==> after.connected_clients
                        == metrics.connected_clients
                    &&& node_type != SwarmNodeType::Storer ==> after.connected_storers
                        == metrics.connected_storers
                    &&& node_type == SwarmNodeType::Storer && metrics.connected_storers > 0
                        ==> after.connected_storers + 1 == metrics.connected_storers
                    &&& node_type != SwarmNodeType::Storer && metrics.connected_clients > 0
                        ==> after.connected_clients + 1 == metrics.connected_clients
                },
                TopologyEvent::DepthChanged { old_depth, new_depth } => {
                    &&& after.current_depth == new_depth
                    &&& after.connected_storers == metrics.connected_storers
                    &&& after.connected_clients == metrics.connected_clients
                },
                _ => after == metrics,
            }
        }),
{
}

/// What is exported for an event: for a ready or disconnected peer the counts
/// after it, then the peer under the type that it is counted as, and for a
/// disconnected one how long its connection lasted where that is known.
pub proof fn peers_are_exported_as_counted(
    metrics: TopologyMetrics,
    event: TopologyEvent,
    node_type: SwarmNodeType,
)
    requires
        event is PeerReady ==> event->PeerReady_node_type == node_type,
        event is PeerDisconnected ==> event->PeerDisconnected_node_type == node_type,
        event is PeerReady || event is PeerDisconnected,
    ensures
        ({
            let updates = metrics.updates(event);
            let after = metrics.after(event);
            let counted = if node_type == SwarmNodeType::Storer {
                SwarmNodeType::Storer
            } else {
                SwarmNodeType::Client
            };
            &&& updates[0] == MetricUpdate::ConnectedPeers {
                storers: after.connected_storers,
                clients: after.connected_clients,
            }
            &&& event is PeerReady ==> updates.len() == 2 && updates[1]
                == MetricUpdate::ConnectionAccepted {
                node_type: counted,
                direction: event->PeerReady_direction,
            }
            &&& event is PeerDisconnected ==> updates[1] == MetricUpdate::Disconnection {
                reason: event->PeerDisconnected_reason,
                node_type: counted,
            }
            &&& event is PeerDisconnected && event->connection_duration is None ==> updates.len()
                == 2
            &&& event is PeerDisconnected && event->connection_duration is Some ==> updates.len()
                == 3 && updates[2] == MetricUpdate::ConnectionDuration {
                node_type: counted,
                duration: event->connection_duration->0,
            }
        }),
{
}

/// What is exported for the other events: a rejected peer with its reason and
/// direction; a moved depth with the way it moved; a failed dial with its
/// reason, its duration where that is known, and the number of its addresses; a
/// ping with its round trip; a moved phase not at all.
pub proof fn other_events_are_exported_once(metrics: TopologyMetrics, event: TopologyEvent)
    ensures
        ({
            let updates = metrics.updates(event);
            match event {
                TopologyEvent::PeerRejected { overlay, peer_id, reason, direction } => {
                    &&& updates.len() == 1
                    &&& updates[0] == MetricUpdate::ConnectionRejected { reason, direction }
                },
                TopologyEvent::DepthChanged { old_depth, new_depth } => {
                    &&& updates.len() == 2
                    &&& updates[0] == MetricUpdate::Depth { depth: new_depth }
                    &&& new_depth > old_depth ==> updates[1] == MetricUpdate::DepthIncrease
                    &&& new_depth < old_depth ==> updates[1] == MetricUpdate::DepthDecrease
                },
                TopologyEvent::DialFailed { overlay, addr_count, error, dial_duration, reason } => {
                    let timed: int = if dial_duration is Some {
                        1
                    } else {
                        0
                    };
                    &&& updates.len() == 3 + timed
                    &&& updates[0] == MetricUpdate::DialFailure { reason }
                    &&& dial_duration is Some ==> updates[1] == MetricUpdate::FailedDialDuration {
                        duration: dial_duration->0,
                    }
                    &&& updates[1 + timed] == MetricUpdate::DialAddrCount { count: addr_count }
                    &&& updates[2 + timed] == MetricUpdate::DialExhausted
                },
                TopologyEvent::PingCompleted { overlay, rtt } => {
                    &&& updates.len() == 2
                    &&& updates[0] == MetricUpdate::Ping
                    &&& updates[1] == MetricUpdate::PingRtt { rtt }
                },
                TopologyEvent::PhaseChanged { from, to, depth } => updates.len() == 0,
                _ => true,
            }
        }),
{
}

/// The label of a proximity order has one digit up to nine and two beyond, and
/// different ones have different labels.
pub proof fn labels_tell_the_orders_apart(a: u8, b: u8)
    ensures
        a <= 9 ==> spec_po_label(a).len() == 1 && spec_po_label(a)[0] as int == '0' as int + a,
        10 <= a <= 31 ==> spec_po_label(a).len() == 2 && (spec_po_label(a)[0] as int - '0' as int)
            * 10 + (spec_po_label(a)[1] as int - '0' as int) == a,
        a > 31 ==> spec_po_label(a) == "overflow"@,
        a <= 31 && b <= 31 && a != b ==> spec_po_label(a) != spec_po_label(b),
{
    if a <= 31 && b <= 31 && spec_po_label(a) == spec_po_label(b) {
        assert(spec_po_label(a).len() == spec_po_label(b).len());
        assert(spec_po_label(a)[0] == spec_po_label(b)[0]);
        if a >= 10 && b >= 10 {
            assert(spec_po_label(a)[1] == spec_po_label(b)[1]);
        }
    }
}

} // verus!
