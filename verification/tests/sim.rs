//! A deterministic, transport-free world around the routing table: each tick
//! evaluates candidates, resolves dials against a per-peer script, applies
//! scripted churn, refreshes the depth, and checks the table's invariants.

use rand::rngs::StdRng;
use rand::seq::SliceRandom;
use rand::SeedableRng;
use std::collections::HashMap;
use vertex_topology::kademlia::admission::ConnectionDirection;
use vertex_topology::kademlia::config::KademliaConfig;
use vertex_topology::kademlia::peers::{PeerBook, PeerRecord};
use vertex_topology::kademlia::routing::KademliaRouting;
use vertex_topology::kademlia::slots::BIT_SUFFIX_LENGTH;
use vertex_topology::primitives::{Bin, NeighborhoodDepth, OverlayAddress, SwarmNodeType};
use vertex_topology::time::Instant;

const STORER: SwarmNodeType = SwarmNodeType::Storer;
const MAX_PO: u8 = 31;
const LOW_WATERMARK: u8 = 3;
const NOW: Instant = Instant { nanos: 1_000_000_000 };

/// Scripted per-peer behaviour that the dial resolver applies.
#[derive(Clone, Copy, Debug, PartialEq, Eq)]
enum PeerScript {
    /// The dial completes the handshake and the peer stays connected.
    Honest,
    /// Every dial fails and arms the peer's backoff.
    Unreachable,
    /// Connects, then disconnects cleanly some ticks later.
    AcceptThenDrop { after_ticks: usize },
    /// The transport connects but the handshake fails on the next tick.
    HandshakeFail,
    /// Reachable; its trait is address-space clustering.
    Sybil,
}

/// The world's own view of a peer's connection phase.
#[derive(Clone, Copy, PartialEq, Eq)]
enum SimPhase {
    Dialing,
    Handshaking(ConnectionDirection),
    Active(ConnectionDirection),
}

impl SimPhase {
    /// Whether the world dialed the peer: a dial is outbound by construction,
    /// the later phases by the direction they carry.
    fn is_outbound(&self) -> bool {
        match self {
            SimPhase::Dialing => true,
            SimPhase::Handshaking(direction) | SimPhase::Active(direction) => {
                *direction == ConnectionDirection::Outbound
            }
        }
    }
}

/// An overlay at proximity order `bin` to `base`, told apart by `idx` in the
/// deepest byte.
fn overlay_in_bin(base: OverlayAddress, bin: u8, idx: u8) -> OverlayAddress {
    let mut bytes = base.to_bytes();
    bytes[(bin / 8) as usize] ^= 0x80 >> (bin % 8);
    bytes[31] = idx;
    OverlayAddress::from(bytes)
}

/// An overlay in `bin` whose bits right after the differing bit spell `slot`.
fn overlay_in_bin_with_slot(base: OverlayAddress, bin: u8, slot: u8, idx: u8) -> OverlayAddress {
    let mut bytes = base.to_bytes();
    bytes[(bin / 8) as usize] ^= 0x80 >> (bin % 8);
    for i in 0..BIT_SUFFIX_LENGTH {
        let pos = bin as usize + 1 + i as usize;
        let bit = (slot >> (BIT_SUFFIX_LENGTH - 1 - i)) & 1;
        let mask = 0x80u8 >> (pos % 8);
        if bit == 1 {
            bytes[pos / 8] |= mask;
        } else {
            bytes[pos / 8] &= !mask;
        }
    }
    bytes[31] = idx;
    OverlayAddress::from(bytes)
}

struct SimWorld {
    base: OverlayAddress,
    routing: KademliaRouting,
    book: PeerBook,
    population: HashMap<OverlayAddress, PeerScript>,
    phases: HashMap<OverlayAddress, SimPhase>,
    connected_tick: HashMap<OverlayAddress, usize>,
    handshaking_tick: HashMap<OverlayAddress, usize>,
    saturation: usize,
    dials_per_tick: usize,
    rng: StdRng,
    tick_no: usize,
}

impl SimWorld {
    fn new(config: KademliaConfig, dials_per_tick: usize, seed: u64) -> Self {
        let base = OverlayAddress::from([0u8; 32]);
        let routing = KademliaRouting::new(base, MAX_PO, LOW_WATERMARK, config, NOW);
        let saturation = routing.limits().saturation();
        Self {
            base,
            routing,
            book: PeerBook::new(base, MAX_PO),
            population: HashMap::new(),
            phases: HashMap::new(),
            connected_tick: HashMap::new(),
            handshaking_tick: HashMap::new(),
            saturation,
            dials_per_tick,
            rng: StdRng::seed_from_u64(seed),
            tick_no: 0,
        }
    }

    fn depth(&self) -> u8 {
        self.routing.depth().get()
    }

    fn bin(&self, bin: u8) -> Bin {
        Bin::new(bin).expect("valid bin")
    }

    fn add_scripted(&mut self, overlay: OverlayAddress, script: PeerScript) {
        self.population.insert(overlay, script);
        if self.book.get(&overlay).is_none() {
            self.book.store(PeerRecord::discovered(overlay));
        }
    }

    fn populate_bin(&mut self, bin: u8, count: usize, script: PeerScript) {
        for idx in 0..count {
            let overlay = overlay_in_bin(self.base, bin, idx as u8);
            self.add_scripted(overlay, script);
        }
    }

    fn has_queued_candidates(&self) -> bool {
        self.routing.has_queued_candidates()
    }

    fn evaluate(&mut self) {
        self.routing.evaluate_connections(&self.book);
    }

    fn connected_in_bin(&self, bin: u8) -> usize {
        self.routing.bin_peer_counts(&self.book, self.bin(bin)).0
    }

    fn distinct_slots_in_bin(&self, bin: u8) -> usize {
        self.routing.filled_slots(self.bin(bin))
    }

    fn tick(&mut self) {
        self.tick_no += 1;
        self.evaluate();
        self.drain_dials();
        self.apply_scripted_handshake_failures();
        self.apply_scripted_drops();
        self.routing.refresh_depth(NOW);
        self.assert_invariants();
    }

    fn drain_dials(&mut self) {
        for _ in 0..self.dials_per_tick {
            let Some(overlay) = self.routing.pop_candidate() else {
                break;
            };
            assert!(
                !matches!(self.phases.get(&overlay), Some(SimPhase::Active(_))),
                "popped a connected peer"
            );
            assert!(!self.book.is_banned(&overlay), "popped a banned peer");
            assert!(!self.book.peer_is_in_backoff(&overlay), "popped a backoff peer");
            self.resolve_dial(overlay);
        }
    }

    fn record_dial_failure(&mut self, overlay: OverlayAddress) {
        let record = self.book.get(&overlay).expect("a dialed peer is known");
        self.book.store(PeerRecord { in_backoff: true, ..record });
    }

    fn confirm(&mut self, overlay: OverlayAddress) {
        let record = match self.book.get(&overlay) {
            Some(record) => record,
            None => PeerRecord::discovered(overlay),
        };
        self.book.store(PeerRecord { node_type: Some(STORER), in_backoff: false, ..record });
    }

    fn resolve_dial(&mut self, overlay: OverlayAddress) {
        let Some(script) = self.population.get(&overlay).copied() else {
            return;
        };
        if !self.routing.try_reserve_dial(&overlay, STORER) {
            return;
        }
        self.phases.insert(overlay, SimPhase::Dialing);
        match script {
            PeerScript::Unreachable => {
                self.routing.release_dial(&overlay);
                self.record_dial_failure(overlay);
                self.phases.remove(&overlay);
            }
            PeerScript::HandshakeFail => {
                self.routing.dial_connected(&overlay);
                self.phases
                    .insert(overlay, SimPhase::Handshaking(ConnectionDirection::Outbound));
                self.handshaking_tick.insert(overlay, self.tick_no);
            }
            PeerScript::Honest | PeerScript::Sybil | PeerScript::AcceptThenDrop { .. } => {
                self.routing.dial_connected(&overlay);
                self.phases
                    .insert(overlay, SimPhase::Handshaking(ConnectionDirection::Outbound));
                self.complete(overlay, ConnectionDirection::Outbound);
            }
        }
    }

    fn complete(&mut self, overlay: OverlayAddress, direction: ConnectionDirection) {
        self.routing.handshake_completed(&overlay);
        self.confirm(overlay);
        self.routing.connected(overlay, NOW);
        self.phases.insert(overlay, SimPhase::Active(direction));
        self.connected_tick.insert(overlay, self.tick_no);
    }

    /// Accept an inbound peer, unless its bin refuses it.
    fn flood_inbound(&mut self, overlay: OverlayAddress) -> bool {
        if !self.routing.should_accept_inbound(&overlay, STORER) {
            return false;
        }
        self.routing.reserve_inbound(&overlay);
        self.phases
            .insert(overlay, SimPhase::Handshaking(ConnectionDirection::Inbound));
        self.complete(overlay, ConnectionDirection::Inbound);
        true
    }

    fn disconnect(&mut self, overlay: OverlayAddress) {
        self.routing.disconnected(&overlay);
        self.routing.on_peer_disconnected(&overlay, NOW);
        self.phases.remove(&overlay);
        self.connected_tick.remove(&overlay);
    }

    fn active(&self) -> Vec<OverlayAddress> {
        let mut active: Vec<OverlayAddress> = self
            .phases
            .iter()
            .filter(|(_, phase)| matches!(phase, SimPhase::Active(_)))
            .map(|(overlay, _)| *overlay)
            .collect();
        active.sort();
        active
    }

    fn disconnect_bins_above(&mut self, bin: u8) -> Vec<OverlayAddress> {
        let victims: Vec<OverlayAddress> = self
            .active()
            .into_iter()
            .filter(|overlay| self.routing.bin_for(overlay).get() > bin)
            .collect();
        for overlay in &victims {
            self.disconnect(*overlay);
        }
        victims
    }

    /// Disconnect `percent` of the active peers, picked by the seeded order.
    fn churn_burst(&mut self, percent: usize) {
        let mut active = self.active();
        active.shuffle(&mut self.rng);
        let take = active.len() * percent / 100;
        for overlay in active.into_iter().take(take) {
            self.disconnect(overlay);
        }
    }

    fn apply_scripted_handshake_failures(&mut self) {
        let due: Vec<OverlayAddress> = self
            .handshaking_tick
            .iter()
            .filter(|(_, entered)| **entered < self.tick_no)
            .map(|(overlay, _)| *overlay)
            .collect();
        for overlay in due {
            self.routing.release_handshake(&overlay);
            self.record_dial_failure(overlay);
            self.phases.remove(&overlay);
            self.handshaking_tick.remove(&overlay);
        }
    }

    fn apply_scripted_drops(&mut self) {
        let due: Vec<OverlayAddress> = self
            .active()
            .into_iter()
            .filter(|overlay| match self.population.get(overlay) {
                Some(PeerScript::AcceptThenDrop { after_ticks }) => {
                    self.tick_no - self.connected_tick[overlay] >= *after_ticks
                }
                _ => false,
            })
            .collect();
        for overlay in due {
            self.disconnect(overlay);
        }
    }

    fn raw_depth(&self) -> NeighborhoodDepth {
        self.routing.recalc_depth(&self.routing.connected_peers.bin_sizes())
    }

    fn assert_no_double_count(&self) {
        let bin_sum: usize = self.routing.connected_peers.bin_sizes().iter().sum();
        assert_eq!(self.routing.connected_peers_total(), bin_sum);
        assert_eq!(self.routing.connected_peers_total(), self.active().len());
    }

    /// The per-bin phase counters match the world's own phases, the per-bin
    /// outbound counters the connections that it dialed, no bin below the
    /// published depth aims under saturation, the published depth never sits
    /// below the instantaneous one, and no peer counts twice.
    fn assert_invariants(&self) {
        let depth = self.routing.depth();
        let mut shadow: HashMap<u8, (usize, usize, usize)> = HashMap::new();
        let mut outbound_shadow: HashMap<u8, usize> = HashMap::new();
        for (overlay, phase) in &self.phases {
            let raw = self.routing.bin_for(overlay).get();
            let entry = shadow.entry(raw).or_insert((0, 0, 0));
            match phase {
                SimPhase::Dialing => entry.0 += 1,
                SimPhase::Handshaking(_) => entry.1 += 1,
                SimPhase::Active(_) => entry.2 += 1,
            }
            if phase.is_outbound() {
                *outbound_shadow.entry(raw).or_insert(0) += 1;
            }
        }
        for raw in 0..=MAX_PO {
            let bin = self.bin(raw);
            assert_eq!(
                self.routing.bin_phase_counts(bin),
                shadow.get(&raw).copied().unwrap_or((0, 0, 0)),
                "phase counters diverged at bin {raw}"
            );
            assert_eq!(
                self.routing.bin_outbound_count(bin),
                outbound_shadow.get(&raw).copied().unwrap_or(0),
                "outbound counter diverged at bin {raw}"
            );
            if !depth.contains(bin) {
                assert!(
                    self.routing.limits().target(bin, depth) >= self.saturation,
                    "below-depth bin {raw} target dropped under saturation"
                );
            }
        }
        assert!(depth.get() >= self.raw_depth().get());
        self.assert_no_double_count();
    }
}

fn run(world: &mut SimWorld, ticks: usize) {
    for _ in 0..ticks {
        world.tick();
    }
}

#[test]
fn converges_from_cold_start() {
    let mut world = SimWorld::new(KademliaConfig::default(), 16, 1);
    let sat = world.saturation;
    world.populate_bin(0, sat, PeerScript::Honest);
    world.populate_bin(1, sat, PeerScript::Honest);
    world.populate_bin(2, 3, PeerScript::Honest);

    run(&mut world, 50);

    assert_eq!(world.depth(), 2, "honest population converges to the anchored depth");
}

#[test]
fn churn_storm_holds_depth() {
    let mut world = SimWorld::new(KademliaConfig::default(), 16, 42);
    let sat = world.saturation;
    for bin in 0..3u8 {
        world.populate_bin(bin, sat, PeerScript::Honest);
        for idx in 200..204u8 {
            let overlay = overlay_in_bin(world.base, bin, idx);
            world.add_scripted(overlay, PeerScript::AcceptThenDrop { after_ticks: 3 });
        }
    }
    world.populate_bin(3, 4, PeerScript::Honest);

    run(&mut world, 50);
    let converged = world.depth();
    assert_eq!(converged, 3, "fixture converges to depth 3");

    for _ in 0..20 {
        world.churn_burst(30);
        run(&mut world, 5);
        assert_eq!(
            world.depth(),
            converged,
            "published depth returns to the converged value after each burst"
        );
    }

    run(&mut world, 50);
    assert_eq!(world.depth(), converged, "table fully recovers");
}

#[test]
fn partition_heal() {
    let mut world = SimWorld::new(KademliaConfig::default(), 16, 7);
    let sat = world.saturation;
    world.populate_bin(0, sat, PeerScript::Honest);
    world.populate_bin(1, sat, PeerScript::Honest);
    world.populate_bin(2, sat, PeerScript::Honest);
    world.populate_bin(3, 3, PeerScript::Honest);

    run(&mut world, 50);
    assert_eq!(world.depth(), 3, "fixture converges to depth 3");

    let severed = world.disconnect_bins_above(0);
    assert!(world.depth() <= 1, "partition collapses the neighborhood depth");
    for overlay in severed {
        world.population.insert(overlay, PeerScript::Unreachable);
    }

    for _ in 0..10 {
        world.tick();
        assert!(world.depth() <= 1, "depth must not heal without reachable supply");
    }

    for bin in 1..3u8 {
        for idx in 100..(100 + sat as u8) {
            let overlay = overlay_in_bin(world.base, bin, idx);
            world.add_scripted(overlay, PeerScript::Honest);
        }
    }
    for idx in 100..103u8 {
        let overlay = overlay_in_bin(world.base, 3, idx);
        world.add_scripted(overlay, PeerScript::Honest);
    }
    run(&mut world, 50);
    assert_eq!(world.depth(), 3, "depth re-climbs from the new supply");
    world.assert_no_double_count();
}

#[test]
fn all_backoff_is_starvation_without_probe() {
    let mut world = SimWorld::new(KademliaConfig::default(), 16, 3);
    for bin in 0..4 {
        world.populate_bin(bin, 4, PeerScript::Unreachable);
    }

    run(&mut world, 20);

    world.evaluate();
    assert!(
        !world.has_queued_candidates(),
        "an all-backoff table queues nothing"
    );
    assert!(
        world.routing.pop_candidate().is_none(),
        "no candidate is poppable under total backoff"
    );
}

#[test]
fn saturation_floor_never_violated() {
    let config = KademliaConfig::default().with_total_target(4);
    let mut world = SimWorld::new(config, 16, 9);
    let sat = world.saturation;
    world.populate_bin(0, sat, PeerScript::Honest);
    world.populate_bin(1, sat, PeerScript::Honest);
    world.populate_bin(2, sat, PeerScript::Honest);
    world.populate_bin(3, 3, PeerScript::Honest);

    run(&mut world, 60);

    let depth = world.depth();
    assert_eq!(depth, 3, "the saturation floor lets depth climb despite the hostile taper");
    for bin in 0..depth {
        assert!(
            world.connected_in_bin(bin) >= sat,
            "below-depth bin {bin} stays at saturation"
        );
    }
}

#[test]
fn eclipse_by_subprefix() {
    let config = KademliaConfig::default()
        .with_total_target(4)
        .with_bootstrap_target(4)
        .with_saturation(4);
    let mut world = SimWorld::new(config, 16, 11);
    let target = 4usize;
    let bin = 0u8;
    for idx in 0..target as u8 {
        let overlay = overlay_in_bin_with_slot(world.base, bin, 0xA, idx);
        world.add_scripted(overlay, PeerScript::Sybil);
    }
    world.populate_bin(1, 3, PeerScript::Honest);

    run(&mut world, 30);

    assert_eq!(world.depth(), 1, "the anchor bin establishes depth 1");
    assert_eq!(world.connected_in_bin(bin), target, "the bin reaches its count target");
    assert_eq!(world.distinct_slots_in_bin(bin), 1, "every admitted peer shares one slot");

    for (idx, slot) in [0x1u8, 0x2, 0x4, 0x8].into_iter().enumerate() {
        let overlay = overlay_in_bin_with_slot(world.base, bin, slot, 100 + idx as u8);
        world.add_scripted(overlay, PeerScript::Honest);
    }
    run(&mut world, 10);

    world.evaluate();
    assert!(
        !world.has_queued_candidates(),
        "the count-satisfied bin never dials the diverse supply"
    );
    assert_eq!(world.connected_in_bin(bin), target, "the connected set is unchanged");
    assert_eq!(world.distinct_slots_in_bin(bin), 1);
}

#[test]
fn inbound_flood_suppresses_outbound() {
    let config = KademliaConfig::default()
        .with_bootstrap_target(4)
        .with_saturation(4)
        .with_oversaturation_peers(4)
        .with_inbound_headroom(0)
        .with_nominal(10);
    let mut world = SimWorld::new(config, 16, 13);
    let bin = 5u8;

    for idx in 0..4u8 {
        let overlay = overlay_in_bin(world.base, bin, idx);
        world.add_scripted(overlay, PeerScript::Honest);
    }

    let mut flooded = 0;
    for idx in 100..108u8 {
        let overlay = overlay_in_bin(world.base, bin, idx);
        if world.flood_inbound(overlay) {
            flooded += 1;
        }
    }
    assert_eq!(flooded, 4, "inbound is accepted up to the ceiling");

    run(&mut world, 10);

    assert_eq!(world.connected_in_bin(bin), 4, "the fill target is satisfied by inbound alone");
    let (dialing, handshaking, active) = world.routing.bin_phase_counts(world.bin(bin));
    assert_eq!(dialing + handshaking, 0, "no outbound dial is launched for the flooded bin");
    assert_eq!(active, 4, "the four inbound peers are the only actives");

    world.evaluate();
    assert!(
        !world.has_queued_candidates(),
        "the direction-blind fill leaves the evaluator quiet"
    );
}

#[test]
fn a_failed_handshake_gives_its_slot_back() {
    let mut world = SimWorld::new(KademliaConfig::default(), 16, 5);
    let overlay = overlay_in_bin(world.base, 2, 0);
    world.add_scripted(overlay, PeerScript::HandshakeFail);

    world.tick();
    assert_eq!(world.routing.bin_phase_counts(world.bin(2)), (0, 1, 0));

    world.tick();
    assert_eq!(world.routing.bin_phase_counts(world.bin(2)), (0, 0, 0));
    assert!(world.book.peer_is_in_backoff(&overlay));
}

#[test]
fn only_dials_count_as_outbound() {
    let mut world = SimWorld::new(KademliaConfig::default(), 16, 6);
    let dialed = overlay_in_bin(world.base, 2, 0);
    let accepted = overlay_in_bin(world.base, 2, 1);
    let bin = world.bin(2);

    assert!(world.routing.try_reserve_dial(&dialed, STORER));
    assert_eq!(world.routing.bin_outbound_count(bin), 1);
    world.routing.reserve_inbound(&accepted);
    assert_eq!(world.routing.bin_outbound_count(bin), 1);

    world.routing.dial_connected(&dialed);
    world.routing.handshake_completed(&dialed);
    world.routing.handshake_completed(&accepted);
    assert_eq!(world.routing.bin_phase_counts(bin), (0, 0, 2));
    assert_eq!(world.routing.bin_outbound_count(bin), 1);

    world.routing.disconnected(&accepted);
    assert_eq!(world.routing.bin_outbound_count(bin), 1);
    world.routing.disconnected(&dialed);
    assert_eq!(world.routing.bin_outbound_count(bin), 0);
}

#[test]
fn candidates_wait_until_they_are_taken() {
    let mut world = SimWorld::new(KademliaConfig::default(), 16, 8);
    assert!(!world.has_queued_candidates());
    world.populate_bin(1, 1, PeerScript::Honest);
    world.evaluate();
    assert!(world.has_queued_candidates());
    assert!(world.routing.pop_candidate().is_some());
    assert!(!world.has_queued_candidates());
}
