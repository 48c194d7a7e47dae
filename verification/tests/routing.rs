use vertex_topology::kademlia::capacity::ConnectionPhase;
use vertex_topology::kademlia::config::KademliaConfig;
use vertex_topology::kademlia::eviction::{eviction_rank, EvictionPhase, EvictionRanks};
use vertex_topology::kademlia::peers::{PeerBook, PeerRecord};
use vertex_topology::kademlia::phase::TopologyPhase;
use vertex_topology::kademlia::routing::KademliaRouting;
use vertex_topology::kademlia::trim::{select_trim_victims, TrimEntry};
use vertex_topology::primitives::{
    Bin, ChunkAddress, NeighborhoodDepth, OverlayAddress, SwarmNodeType,
};
use vertex_topology::reachability::PeerReachability;
use vertex_topology::time::{Duration, Instant};


fn b(n: u8) -> Bin {
    Bin::new(n).expect("valid bin")
}

fn d(n: u8) -> NeighborhoodDepth {
    NeighborhoodDepth::new(b(n))
}

const NOW: Instant = Instant { nanos: 1_000_000_000 };

fn make_routing(base: OverlayAddress, config: KademliaConfig) -> (KademliaRouting, PeerBook) {
    (KademliaRouting::new(base, 31, 3, config, NOW), PeerBook::new(base, 31))
}

#[test]
fn routing_test_routing_creation() {
    let base = OverlayAddress::with_first_byte(0x00);
    let config = KademliaConfig::default();
    let (mut routing, _pm) = make_routing(base, config);

    assert_eq!(routing.depth().get(), 0);
    assert_eq!(routing.connected_peers.len(), 0);
}

#[test]
fn routing_test_add_and_connect_peers() {
    let base = OverlayAddress::with_first_byte(0x00);
    let config = KademliaConfig::default();
    let (mut routing, mut pm) = make_routing(base, config);

    let peer1 = OverlayAddress::with_first_byte(0x80);
    let peer2 = OverlayAddress::with_first_byte(0x40);

    // The peer book knows the peers.
    pm.store(PeerRecord::discovered(OverlayAddress::with_first_byte(0x80)));
    pm.store(PeerRecord::discovered(OverlayAddress::with_first_byte(0x40)));
    assert_eq!(pm.len(), 2);
    assert_eq!(routing.connected_peers.len(), 0);

    routing.connected(peer1, NOW);
    assert_eq!(routing.connected_peers.len(), 1);

    routing.connected(peer2, NOW);
    assert_eq!(routing.connected_peers.len(), 2);
}

#[test]
fn routing_test_capacity_reserve_and_release() {
    let base = OverlayAddress::with_first_byte(0x00);
    // Pin the depth-0 bootstrap target to 2 so the capacity mechanism is
    // exercised with small numbers (default bootstrap fill is generous).
    let config = KademliaConfig::default()
        .with_nominal(2)
        .with_bootstrap_target(2)
        .with_saturation(2);
    let (mut routing, _pm) = make_routing(base, config);

    let peer1 = OverlayAddress::with_first_byte(0x80); // bin=0
    let peer2 = OverlayAddress::with_first_byte(0xc0); // bin=0
    let peer3 = OverlayAddress::with_first_byte(0xa0); // bin=0

    // First reserve succeeds (effective=0 < target=2)
    assert!(routing.try_reserve_dial(&peer1, SwarmNodeType::Storer));

    // Second reserve succeeds (effective=1 < nominal=2)
    assert!(routing.try_reserve_dial(&peer2, SwarmNodeType::Storer));

    // Third fails (effective=2 >= nominal=2)
    assert!(!routing.try_reserve_dial(&peer3, SwarmNodeType::Storer));

    // Release one
    routing.release_dial(&peer1);

    // Now third succeeds (effective=1 < nominal=2)
    assert!(routing.try_reserve_dial(&peer3, SwarmNodeType::Storer));
}

#[test]
fn routing_test_capacity_state_transitions() {
    let base = OverlayAddress::with_first_byte(0x00);
    let config = KademliaConfig::default().with_nominal(2);
    let (mut routing, _pm) = make_routing(base, config);

    let peer = OverlayAddress::with_first_byte(0x80); // bin=0

    // Reserve dial
    assert!(routing.try_reserve_dial(&peer, SwarmNodeType::Storer));
    assert_eq!(routing.effective_count(b(0)), 1);

    // Transition to handshaking
    routing.dial_connected(&peer);
    assert_eq!(routing.effective_count(b(0)), 1);

    // Transition to active
    routing.handshake_completed(&peer);
    assert_eq!(routing.effective_count(b(0)), 1);
    assert_eq!(routing.bin_phase_counts(b(0)).2, 1);

    // Disconnect
    routing.disconnected(&peer);
    assert_eq!(routing.effective_count(b(0)), 0);
}

#[test]
fn routing_test_disconnect_and_reconnect() {
    let base = OverlayAddress::with_first_byte(0x00);
    let config = KademliaConfig::default();
    let (mut routing, mut pm) = make_routing(base, config);

    let peer = OverlayAddress::with_first_byte(0x80);

    // The peer book knows the peer
    pm.store(PeerRecord::discovered(OverlayAddress::with_first_byte(0x80)));

    routing.connected(peer, NOW);
    assert!(routing.connected_peers.contains(&peer));
    // Peer still known
    assert!(pm.get(&peer).is_some());

    routing.on_peer_disconnected(&peer, NOW);
    assert!(!routing.connected_peers.contains(&peer));
    // Peer still known after disconnect
    assert!(pm.get(&peer).is_some());
}

fn entry(overlay: OverlayAddress, rank: u64, score: i64) -> TrimEntry {
    TrimEntry { overlay, rank, score }
}

fn connect(routing: &mut KademliaRouting, peer: OverlayAddress) {
    routing.try_reserve_dial(&peer, SwarmNodeType::Storer);
    routing.dial_connected(&peer);
    routing.handshake_completed(&peer);
    routing.connected(peer, NOW);
}

fn accept_inbound(routing: &mut KademliaRouting, peer: OverlayAddress) {
    routing.reserve_inbound(&peer);
    routing.handshake_completed(&peer);
    routing.connected(peer, NOW);
}

/// Build an overlay at exactly proximity order `bin` to base `0x00`,
/// disambiguated by `idx` in a deep byte (does not affect proximity order).
fn addr_in_bin(bin: u8, idx: u8) -> OverlayAddress {
    let mut b = [0u8; 32];
    b[(bin / 8) as usize] = 0x80 >> (bin % 8);
    b[31] = idx;
    OverlayAddress::from(b)
}

#[test]
fn test_depth_stays_zero_below_saturation() {
    // A handful of peers in one mid bin, everything shallower empty. The
    // depth frontier is the shallowest unsaturated bin (0), so depth stays 0.
    let base = OverlayAddress::with_first_byte(0x00);
    let (mut routing, _pm) = make_routing(base, KademliaConfig::default());

    assert_eq!(routing.depth().get(), 0);
    for idx in 0..2 {
        routing.connected(addr_in_bin(5, idx), NOW);
    }
    assert_eq!(routing.depth().get(), 0);
}

#[test]
fn test_depth_caps_at_gap() {
    // Bin 0 is saturated, bins 1..8 are empty, and bin 8 holds several peers.
    // Depth is capped at the shallowest unsaturated bin (bin 1, just past the
    // saturated frontier at bin 0).
    let base = OverlayAddress::with_first_byte(0x00);
    let (mut routing, _pm) = make_routing(base, KademliaConfig::default());

    for idx in 0..8 {
        routing.connected(addr_in_bin(0, idx), NOW);
    }
    for idx in 0..5 {
        routing.connected(addr_in_bin(8, idx), NOW);
    }

    assert_eq!(
        routing.depth().get(),
        1,
        "gap below the deep bin must cap depth"
    );
}

#[test]
fn test_depth_climbs_with_saturated_bins() {
    // Bins 0,1,2 saturated (>= 8) with bin 3 holding the low-watermark (3)
    // anchors the neighborhood at bin 3.
    let base = OverlayAddress::with_first_byte(0x00);
    let (mut routing, _pm) = make_routing(base, KademliaConfig::default());

    for bin in 0..3 {
        for idx in 0..8 {
            routing.connected(addr_in_bin(bin, idx), NOW);
        }
    }
    for idx in 0..3 {
        routing.connected(addr_in_bin(3, idx), NOW);
    }

    assert_eq!(routing.depth().get(), 3);
}

/// Bin 0 saturated, bins 1..=3 holding 5 + 3 + 1 peers: depth anchors at
/// 1 and the neighborhood (bins at and above 1) holds 9 connected.
fn saturate_to_depth_one(routing: &mut KademliaRouting) {
    for idx in 0..8 {
        routing.connected(addr_in_bin(0, idx), NOW);
    }
    for idx in 0..5 {
        routing.connected(addr_in_bin(1, idx), NOW);
    }
    for idx in 0..3 {
        routing.connected(addr_in_bin(2, idx), NOW);
    }
    routing.connected(addr_in_bin(3, 0), NOW);
}

#[test]
fn test_neighborhood_stability_tracks_saturation() {
    let base = OverlayAddress::with_first_byte(0x00);
    let (mut routing, _pm) = make_routing(base, KademliaConfig::default());

    assert!(
        routing.neighborhood_stable_for(NOW).is_none(),
        "empty table is not saturated"
    );

    saturate_to_depth_one(&mut routing);
    assert_eq!(routing.depth().get(), 1);
    assert!(
        routing.neighborhood_stable_for(NOW).is_some(),
        "saturated neighborhood must carry a stability clock"
    );

    // Disconnecting two neighborhood peers (9 -> 7) drops below the
    // saturation threshold (8) and clears the clock.
    routing.on_peer_disconnected(&addr_in_bin(1, 0), NOW);
    routing.on_peer_disconnected(&addr_in_bin(1, 1), NOW);
    assert!(routing.neighborhood_stable_for(NOW).is_none());
}

#[test]
fn test_neighborhood_stability_cleared_by_remove_peer() {
    // remove_peer (the ban path) bypasses the disconnect bookkeeping but
    // still shrinks the neighborhood; the clock must observe it.
    let base = OverlayAddress::with_first_byte(0x00);
    let (mut routing, _pm) = make_routing(base, KademliaConfig::default());

    saturate_to_depth_one(&mut routing);
    assert!(routing.neighborhood_stable_for(NOW).is_some());

    routing.remove_peer(&addr_in_bin(1, 0), NOW);
    routing.remove_peer(&addr_in_bin(1, 1), NOW);
    assert!(routing.neighborhood_stable_for(NOW).is_none());
}

/// A depth lowering published by the periodic tick (no connect or
/// disconnect event) must re-anchor the neighborhood-stability clock
/// against the newly published depth, not leave it measuring against the
/// stale pre-change anchor.
#[test]
fn test_refresh_depth_reanchors_neighborhood_stability() {
    // bin0=8, bin1=5, bin2=3, bin3=1: depth anchors at 1 and the
    // neighborhood (bins >= 1, holding 9) is saturated, so the stability
    // clock is anchored at depth 1.
    let base = OverlayAddress::with_first_byte(0x00);
    let (mut routing, _pm) = make_routing(base, KademliaConfig::default());
    saturate_to_depth_one(&mut routing);
    assert_eq!(routing.depth().get(), 1);
    let anchored_at_depth_1 = routing
        .neighborhood_stability
        .as_ref()
        .map(|stable| stable.depth);
    assert_eq!(
        anchored_at_depth_1,
        Some(routing.depth()),
        "clock must start anchored at the depth-1 neighborhood"
    );

    // Drop one peer from bin 0 (below depth): a single-peer deficit, so
    // the lower depth is deferred and the published depth holds at 1 with
    // a pending window. No connection event publishes it.
    routing.on_peer_disconnected(&addr_in_bin(0, 0), NOW);
    assert_eq!(
        routing.depth().get(),
        1,
        "single-peer deficit must defer the lower"
    );
    assert!(routing.pending_depth_lower.is_some());

    // The periodic tick fires after the window expires and publishes the
    // lower depth (0). The clock must observe the change even though no
    // connect or disconnect occurred: at depth 0 the neighborhood is no
    // longer saturated, so the clock clears rather than staying anchored
    // at the stale depth 1.
    let after_window = NOW.plus(routing.config.depth_lower_window);
    routing.refresh_depth(after_window);
    assert_eq!(
        routing.depth().get(),
        0,
        "expired window must publish the lower depth through the tick"
    );
    assert!(
        routing.neighborhood_stability.is_none(),
        "the tick-driven lower must re-anchor (here clear) the stability clock"
    );
}

/// Depth-3 fixture: bins 0..=2 saturated (8 peers each, the default
/// saturation), bin 3 holding the low watermark (3 peers).
fn routing_at_depth_3() -> KademliaRouting {
    let base = OverlayAddress::with_first_byte(0x00);
    let (mut routing, _pm) = make_routing(base, KademliaConfig::default());
    for bin in 0..3 {
        for idx in 0..8 {
            routing.connected(addr_in_bin(bin, idx), NOW);
        }
    }
    for idx in 0..3 {
        routing.connected(addr_in_bin(3, idx), NOW);
    }
    assert_eq!(routing.depth().get(), 3, "fixture must start at depth 3");
    routing
}

#[test]
fn test_depth_lower_deferred_on_single_peer_deficit() {
    // One disconnect in a frontier bin sitting exactly at saturation
    // leaves a single-peer deficit: the published depth holds and the
    // stability window starts.
    let mut routing = routing_at_depth_3();

    routing.on_peer_disconnected(&addr_in_bin(1, 0), NOW);

    assert_eq!(
        routing.depth().get(),
        3,
        "single-peer deficit must not lower the published depth"
    );
    assert!(
        routing.pending_depth_lower.is_some(),
        "a stability window must be pending"
    );
}

#[test]
fn test_depth_recovery_within_window_publishes_nothing() {
    let mut routing = routing_at_depth_3();
    let peer = addr_in_bin(1, 0);

    routing.on_peer_disconnected(&peer, NOW);
    assert_eq!(routing.depth().get(), 3);

    // The bin refills before the window expires: pending lower clears.
    routing.connected(peer, NOW);
    assert_eq!(routing.depth().get(), 3);
    assert!(
        routing.pending_depth_lower.is_none(),
        "recovery must clear the pending lower"
    );

    // Even a refresh long after the first window would have expired
    // publishes nothing.
    let after_window = NOW.plus(routing.config.depth_lower_window);
    routing.publish_depth_at(after_window);
    assert_eq!(routing.depth().get(), 3);
}

#[test]
fn test_depth_lowers_immediately_on_two_peer_deficit() {
    // Two peers gone from the same frontier bin (saturation - 2) is real
    // capacity loss: the lower depth publishes with no window.
    let mut routing = routing_at_depth_3();

    routing.on_peer_disconnected(&addr_in_bin(1, 0), NOW);
    routing.on_peer_disconnected(&addr_in_bin(1, 1), NOW);

    assert_eq!(routing.depth().get(), 1);
    assert!(routing.pending_depth_lower.is_none());
}

#[test]
fn test_depth_lowers_immediately_when_two_bins_fall_below() {
    // Two frontier bins each one peer short also exceeds the one-peer
    // tolerance: the lower depth publishes immediately.
    let mut routing = routing_at_depth_3();

    routing.on_peer_disconnected(&addr_in_bin(0, 0), NOW);
    assert_eq!(routing.depth().get(), 3, "first loss is deferred");

    routing.on_peer_disconnected(&addr_in_bin(1, 0), NOW);
    assert_eq!(routing.depth().get(), 0);
    assert!(routing.pending_depth_lower.is_none());
}

#[test]
fn test_depth_lower_publishes_after_window_expiry() {
    let mut routing = routing_at_depth_3();

    routing.on_peer_disconnected(&addr_in_bin(1, 0), NOW);
    assert_eq!(routing.depth().get(), 3);

    // Re-checks inside the window keep holding the published depth.
    routing.publish_depth_at(NOW);
    assert_eq!(routing.depth().get(), 3);

    // A refresh after the window expires publishes the lower depth.
    let after_window = NOW.plus(routing.config.depth_lower_window);
    routing.publish_depth_at(after_window);
    assert_eq!(
        routing.depth().get(),
        1,
        "expired window must publish the lower depth"
    );
    assert!(routing.pending_depth_lower.is_none());
}

#[test]
fn test_churn_flap_never_changes_published_depth() {
    // Alternating disconnect/reconnect of one frontier peer (classic
    // churn) must never flap the published depth.
    let mut routing = routing_at_depth_3();
    let churner = addr_in_bin(1, 0);

    for _ in 0..10 {
        routing.on_peer_disconnected(&churner, NOW);
        assert_eq!(routing.depth().get(), 3);
        routing.connected(churner, NOW);
        assert_eq!(routing.depth().get(), 3);
    }
    assert!(routing.pending_depth_lower.is_none());
}

#[test]
fn test_phase_starts_bootstrap_and_converges_on_depth_climb() {
    let base = OverlayAddress::with_first_byte(0x00);
    let (mut routing, _pm) = make_routing(base, KademliaConfig::default());

    assert_eq!(routing.phase_status(NOW).0, TopologyPhase::Bootstrap);
    assert!(
        routing.evaluate_phase(NOW).is_none(),
        "no transition while depth stays 0"
    );

    // Same shape as test_depth_climbs_with_saturated_bins: depth -> 3.
    for bin in 0..3 {
        for idx in 0..8 {
            routing.connected(addr_in_bin(bin, idx), NOW);
        }
    }
    for idx in 0..3 {
        routing.connected(addr_in_bin(3, idx), NOW);
    }
    assert_eq!(routing.depth().get(), 3);

    let transition = routing.evaluate_phase(NOW).expect("depth climb transitions");
    assert_eq!(transition.from, TopologyPhase::Bootstrap);
    assert_eq!(transition.to, TopologyPhase::Converging);
    assert_eq!(transition.depth.get(), 3);

    assert!(
        routing.evaluate_phase(NOW).is_none(),
        "re-evaluation without state change commits nothing"
    );
    assert_eq!(routing.phase_status(NOW).0, TopologyPhase::Converging);
}

#[test]
fn test_phase_full_lifecycle_with_zero_window() {
    // A zero stability window makes the time gate pass immediately, so
    // the saturation condition alone drives Converging vs Stable and
    // the lifecycle is testable without simulated clocks.
    let base = OverlayAddress::with_first_byte(0x00);
    let config = KademliaConfig::default().with_phase_stability_window(Duration::zero());
    let (mut routing, _pm) = make_routing(base, config);

    // Saturate bin 0 (depth anchors at 1) and hold 9 connected peers in
    // the neighborhood, above the saturation threshold of 8.
    for idx in 0..8 {
        routing.connected(addr_in_bin(0, idx), NOW);
    }
    for idx in 0..5 {
        routing.connected(addr_in_bin(1, idx), NOW);
    }
    for idx in 0..3 {
        routing.connected(addr_in_bin(2, idx), NOW);
    }
    routing.connected(addr_in_bin(3, 0), NOW);
    assert_eq!(routing.depth().get(), 1);

    let transition = routing.evaluate_phase(NOW).expect("saturated neighborhood");
    assert_eq!(transition.to, TopologyPhase::Stable);

    // Losing neighborhood saturation (9 -> 7 connected at depth 1)
    // falls back to Converging.
    routing.on_peer_disconnected(&addr_in_bin(1, 3), NOW);
    routing.on_peer_disconnected(&addr_in_bin(1, 4), NOW);
    assert_eq!(routing.depth().get(), 1);
    let transition = routing.evaluate_phase(NOW).expect("saturation lost");
    assert_eq!(transition.from, TopologyPhase::Stable);
    assert_eq!(transition.to, TopologyPhase::Converging);

    // Depth collapsing to 0 falls all the way back to Bootstrap.
    for idx in 0..8 {
        routing.on_peer_disconnected(&addr_in_bin(0, idx), NOW);
    }
    assert_eq!(routing.depth().get(), 0);
    let transition = routing.evaluate_phase(NOW).expect("depth collapsed");
    assert_eq!(transition.to, TopologyPhase::Bootstrap);
}

#[test]
fn routing_test_closest_to() {
    let base = OverlayAddress::with_first_byte(0x00);
    let config = KademliaConfig::default();
    let (mut routing, _pm) = make_routing(base, config);

    let peer_po0 = OverlayAddress::with_first_byte(0x80);
    let peer_po1 = OverlayAddress::with_first_byte(0x40);
    let peer_po2 = OverlayAddress::with_first_byte(0x20);

    routing.connected(peer_po0, NOW);
    routing.connected(peer_po1, NOW);
    routing.connected(peer_po2, NOW);

    let mut target_bytes = [0x00u8; 32];
    target_bytes[0] = 0x21;
    let target = ChunkAddress::from(target_bytes);

    let closest = routing.closest_to(&target, 2);
    assert_eq!(closest.len(), 2);
    assert_eq!(closest[0], peer_po2);
}

#[test]
fn routing_test_neighbors() {
    let base = OverlayAddress::with_first_byte(0x00);
    let config = KademliaConfig::default().with_nominal(1);
    let (mut routing, _pm) = make_routing(base, config);

    let peer_po0 = OverlayAddress::with_first_byte(0x80);
    let peer_po1 = OverlayAddress::with_first_byte(0x40);
    let peer_po5 = {
        let mut bytes = [0x00u8; 32];
        bytes[0] = 0x04;
        OverlayAddress::from(bytes)
    };

    routing.connected(peer_po0, NOW);
    routing.connected(peer_po1, NOW);
    routing.connected(peer_po5, NOW);

    let neighbors_d0 = routing.neighbors(d(0));
    assert_eq!(neighbors_d0.len(), 3);

    let neighbors_d2 = routing.neighbors(d(2));
    assert_eq!(neighbors_d2.len(), 1);
    assert_eq!(neighbors_d2[0], peer_po5);
}

#[test]
fn routing_test_inbound_capacity() {
    let base = OverlayAddress::with_first_byte(0x00);
    // With bootstrap and oversaturation pinned to 2 and headroom 0, the
    // depth-0 inbound ceiling = 2
    let config = KademliaConfig::default()
        .with_nominal(2)
        .with_inbound_headroom(0)
        .with_bootstrap_target(2)
        .with_oversaturation_peers(2)
        .with_saturation(2);
    let (mut routing, _pm) = make_routing(base, config);

    let peer1 = OverlayAddress::with_first_byte(0x80);
    let peer2 = OverlayAddress::with_first_byte(0xc0);
    let peer3 = OverlayAddress::with_first_byte(0xa0);

    // Can accept first inbound
    assert!(routing.should_accept_inbound(&peer1, SwarmNodeType::Storer));
    routing.reserve_inbound(&peer1);

    // Can accept second inbound
    assert!(routing.should_accept_inbound(&peer2, SwarmNodeType::Storer));
    routing.reserve_inbound(&peer2);

    // At capacity (effective=2 >= target+headroom=2)
    assert!(!routing.should_accept_inbound(&peer3, SwarmNodeType::Storer));

    // Complete one handshake
    routing.handshake_completed(&peer1);

    // Still at capacity (peer1 now active)
    assert!(!routing.should_accept_inbound(&peer3, SwarmNodeType::Storer));

    // Disconnect peer1
    routing.disconnected(&peer1);

    // Now can accept
    assert!(routing.should_accept_inbound(&peer3, SwarmNodeType::Storer));
}

#[test]
fn test_depth_aware_targets() {
    let base = OverlayAddress::with_first_byte(0x00);
    let config = KademliaConfig::default();
    let (mut routing, _pm) = make_routing(base, config);

    // Initially depth=0, all bins fill toward the bootstrap target
    assert_eq!(routing.config.limits.target(b(0), d(0)), 18);
    assert_eq!(routing.config.limits.target(b(7), d(0)), 18);

    // At depth 8, targets should vary by bin
    // Bin 7: 160 × 8 / 36 = 35
    assert_eq!(routing.config.limits.target(b(7), d(8)), 35);
    // Bin 0: taper gives 160 × 1 / 36 = 4, floored at saturation (8)
    assert_eq!(routing.config.limits.target(b(0), d(8)), 8);
    // Neighborhood (bin >= depth) returns MAX
    assert_eq!(routing.config.limits.target(b(8), d(8)), usize::MAX);
}

#[test]
fn test_eviction_candidates_no_surplus() {
    let base = OverlayAddress::with_first_byte(0x00);
    let config = KademliaConfig::default().with_nominal(3);
    let (mut routing, _pm) = make_routing(base, config);

    // No peers, no surplus
    let candidates = routing.eviction_candidates(&_pm, &EvictionRanks::uniform(1));
    assert!(candidates.is_empty());

    // Add peers below nominal - still no surplus
    let peer1 = OverlayAddress::with_first_byte(0x80); // bin=0
    routing.connected(peer1, NOW);
    let candidates = routing.eviction_candidates(&_pm, &EvictionRanks::uniform(1));
    assert!(candidates.is_empty());
}

/// Place a peer as active in the routing state, past the capacity checks.
fn force_active(routing: &mut KademliaRouting, peer: OverlayAddress) {
    routing.capacity.track(&peer, ConnectionPhase::Active);
    routing.connected_peers.add(peer).expect("peer is new");
}

/// Place a peer as handshaking in the routing state.
fn force_handshaking(routing: &mut KademliaRouting, peer: OverlayAddress) {
    routing.capacity.track(&peer, ConnectionPhase::Handshaking);
}

#[test]
fn test_eviction_candidates_handshaking_first() {
    let base = OverlayAddress::with_first_byte(0x00);
    // Pin the trim floor (oversaturation_peers) and saturation to 4 so
    // a small bin-0 population yields a surplus and the depth-8 bin-0
    // target stays at 4.
    let config = KademliaConfig::default()
        .with_bootstrap_target(4)
        .with_oversaturation_peers(4)
        .with_saturation(4);
    let (mut routing, _pm) = make_routing(base, config);

    // Place 5 active peers in bin 0 (bin=0)
    let active_peers: Vec<_> = (0..5)
        .map(|i| {
            let mut bytes = [0x00u8; 32];
            bytes[0] = 0x80 + i;
            OverlayAddress::from(bytes)
        })
        .collect();
    for &peer in &active_peers {
        force_active(&mut routing, peer);
    }

    // Place 1 handshaking peer in bin 0
    let handshaking = {
        let mut bytes = [0x00u8; 32];
        bytes[0] = 0x90;
        OverlayAddress::from(bytes)
    };
    force_handshaking(&mut routing, handshaking);

    // Simulate depth increase to 8 (bin 0 target = max(160*1/36, 3) = 4)
    // effective = 6 (5 active + 1 handshaking), surplus = 2
    routing.depth = d(8);

    let candidates = routing.eviction_candidates(&_pm, &EvictionRanks::uniform(1));
    assert_eq!(candidates.len(), 2);
    // Handshaking peer should be selected
    assert!(
        candidates
            .iter()
            .any(|c| c.overlay == handshaking && c.phase == EvictionPhase::Handshaking)
    );
    // One active peer should also be selected
    assert!(candidates.iter().any(|c| c.phase == EvictionPhase::Active));
}

#[test]
fn test_eviction_candidates_active_lowest_score() {
    let base = OverlayAddress::with_first_byte(0x00);
    // Trim floor pinned to 4; see test_eviction_candidates_handshaking_first.
    let config = KademliaConfig::default()
        .with_bootstrap_target(4)
        .with_oversaturation_peers(4)
        .with_saturation(4);
    let (mut routing, _pm) = make_routing(base, config);

    // Place 6 active peers in bin 0
    let peers: Vec<_> = (0..6)
        .map(|i| {
            let mut bytes = [0x00u8; 32];
            bytes[0] = 0x80 + i;
            OverlayAddress::from(bytes)
        })
        .collect();
    for &peer in &peers {
        force_active(&mut routing, peer);
    }

    // Simulate depth increase to 8 (bin 0 target = 4, surplus = 2)
    routing.depth = d(8);

    let candidates = routing.eviction_candidates(&_pm, &EvictionRanks::uniform(1));
    assert_eq!(candidates.len(), 2);
    for c in &candidates {
        assert_eq!(c.phase, EvictionPhase::Active);
        assert_eq!(c.bin.get(), 0);
    }
}

#[test]
fn test_eviction_ignores_in_flight_dials() {
    let base = OverlayAddress::with_first_byte(0x00);
    // Trim floor pinned to 4; see test_eviction_candidates_handshaking_first.
    let config = KademliaConfig::default()
        .with_bootstrap_target(4)
        .with_oversaturation_peers(4)
        .with_saturation(4);
    let (mut routing, _pm) = make_routing(base, config);

    // 5 active peers and 3 in-flight dials in bin 0. At depth 8 the trim
    // floor is 4: the evictable population (5 active) carries a surplus
    // of 1. Counting the dials in would claim a surplus of 4 and cut the
    // bin's active set to 1, far below saturation, flapping depth.
    for i in 0..5 {
        let mut bytes = [0x00u8; 32];
        bytes[0] = 0x80 + i;
        force_active(&mut routing, OverlayAddress::from(bytes));
    }
    for i in 0..3 {
        let mut bytes = [0x00u8; 32];
        bytes[0] = 0x90 + i;
        let peer = OverlayAddress::from(bytes);
        routing.capacity.track(&peer, ConnectionPhase::Dialing);
    }
    routing.depth = d(8);

    let candidates = routing.eviction_candidates(&_pm, &EvictionRanks::uniform(1));
    assert_eq!(
        candidates.len(),
        1,
        "surplus must be computed from the evictable population only"
    );
    assert_eq!(candidates[0].phase, EvictionPhase::Active);
}

#[test]
fn test_eviction_prefers_least_reachable() {
    let base = OverlayAddress::with_first_byte(0x00);
    // Trim floor pinned to 4; see test_eviction_candidates_handshaking_first.
    let (mut routing, _pm) = make_routing(
        base,
        KademliaConfig::default()
            .with_bootstrap_target(4)
            .with_oversaturation_peers(4)
            .with_saturation(4),
    );

    // 6 active peers in bin 0; at depth 8 the target is 4, so surplus is 2.
    let peers: Vec<_> = (0..6)
        .map(|i| {
            let mut bytes = [0x00u8; 32];
            bytes[0] = 0x80 + i;
            OverlayAddress::from(bytes)
        })
        .collect();
    for &peer in &peers {
        force_active(&mut routing, peer);
    }
    routing.depth = d(8);

    // Two peers are least-reachable (rank 0); the rest are reachable (rank 2).
    // With equal scores, reachability decides: the two unreachable peers
    // must be the eviction victims regardless of position.
    let unreachable = [peers[1], peers[4]];
    let mut ranks = EvictionRanks::uniform(2);
    for peer in unreachable {
        ranks.set(peer, 0);
    }
    let candidates = routing.eviction_candidates(&_pm, &ranks);

    assert_eq!(candidates.len(), 2);
    let evicted: Vec<_> = candidates.iter().map(|c| c.overlay).collect();
    for peer in unreachable {
        assert!(
            evicted.contains(&peer),
            "least-reachable peer should be evicted before reachable ones"
        );
    }
}

#[test]
fn test_eviction_local_tiebreak_keeps_local_over_equal_remote() {
    let base = OverlayAddress::with_first_byte(0x00);
    // Trim floor pinned to 4; see test_eviction_candidates_handshaking_first.
    let (mut routing, _pm) = make_routing(
        base,
        KademliaConfig::default()
            .with_bootstrap_target(4)
            .with_oversaturation_peers(4)
            .with_saturation(4),
    );

    // 6 active peers in bin 0; at depth 8 the target is 4, so surplus is 2.
    let peers: Vec<_> = (0..6)
        .map(|i| {
            let mut bytes = [0x00u8; 32];
            bytes[0] = 0x80 + i;
            OverlayAddress::from(bytes)
        })
        .collect();
    for &peer in &peers {
        force_active(&mut routing, peer);
    }
    routing.depth = d(8);

    // Every peer has the same Unknown reachability; two are local. With the
    // `(reachability, is_local)` tuple, `false < true`, so the two non-local
    // peers rank lowest and are evicted while the locals are kept.
    let local = [peers[1], peers[4]];
    let mut ranks = EvictionRanks::uniform(eviction_rank(PeerReachability::Unknown, false));
    for peer in local {
        ranks.set(peer, eviction_rank(PeerReachability::Unknown, true));
    }
    let candidates = routing.eviction_candidates(&_pm, &ranks);

    assert_eq!(candidates.len(), 2);
    let evicted: Vec<_> = candidates.iter().map(|c| c.overlay).collect();
    for peer in local {
        assert!(
            !evicted.contains(&peer),
            "local peer must outrank a remote of equal reachability"
        );
    }
}

#[test]
fn test_eviction_remote_reachable_outranks_local_unreachable() {
    let base = OverlayAddress::with_first_byte(0x00);
    // Trim floor pinned to 4; see test_eviction_candidates_handshaking_first.
    let (mut routing, _pm) = make_routing(
        base,
        KademliaConfig::default()
            .with_bootstrap_target(4)
            .with_oversaturation_peers(4)
            .with_saturation(4),
    );

    // 5 active peers in bin 0; at depth 8 the target is 4, so surplus is 1.
    let peers: Vec<_> = (0..5)
        .map(|i| {
            let mut bytes = [0x00u8; 32];
            bytes[0] = 0x80 + i;
            OverlayAddress::from(bytes)
        })
        .collect();
    for &peer in &peers {
        force_active(&mut routing, peer);
    }
    routing.depth = d(8);

    // One local-but-unreachable peer; the rest are remote and reachable.
    // Locality is the low-order tiebreak, so a genuine liveness failure
    // (Unreachable) still ranks the local peer lowest and evicts it.
    let dead_local = peers[2];
    let mut ranks = EvictionRanks::uniform(eviction_rank(PeerReachability::Reachable, false));
    ranks.set(dead_local, eviction_rank(PeerReachability::Unreachable, true));
    let candidates = routing.eviction_candidates(&_pm, &ranks);

    assert_eq!(candidates.len(), 1);
    assert_eq!(
        candidates[0].overlay, dead_local,
        "an unreachable local is still evicted when it is the worst candidate"
    );
}

#[test]
fn test_select_trim_victims_prefix_diversity_within_ties() {
    // Two sub-tries inside one bin: a tight cluster sharing a long prefix
    // (first bytes 0x80..0x83, mutual proximity >= 6) and a spread pair
    // (0xC0 and 0xE0, mutual proximity 2). With every (rank, score) equal,
    // both victims must come from the tight cluster so the kept set still
    // covers both sub-tries.
    let cluster: Vec<OverlayAddress> =
        (0x80..=0x83u8).map(OverlayAddress::with_first_byte).collect();
    let spread = [
        OverlayAddress::with_first_byte(0xc0),
        OverlayAddress::with_first_byte(0xe0),
    ];

    let pool: Vec<TrimEntry> = cluster
        .iter()
        .chain(spread.iter())
        .map(|overlay| entry(*overlay, 1, 0))
        .collect();

    let victims = select_trim_victims(pool, 2);
    assert_eq!(victims.len(), 2);
    for victim in &victims {
        assert!(
            cluster.contains(victim),
            "victim {victim:?} should come from the clustered sub-trie"
        );
    }
}

#[test]
fn test_select_trim_victims_rank_and_score_dominate() {
    // The diversity tie-break never overrides the primary order: a
    // prefix-diverse peer with the worst rank (or, at equal rank, the
    // lowest score) is still evicted first.
    let clustered_a = OverlayAddress::with_first_byte(0x80);
    let clustered_b = OverlayAddress::with_first_byte(0x81);
    let diverse = OverlayAddress::with_first_byte(0xc0);

    // Worst rank loses despite being the diversity-preferred keep.
    let pool = vec![
        entry(clustered_a, 2, 0),
        entry(clustered_b, 2, 0),
        entry(diverse, 0, 0),
    ];
    assert_eq!(select_trim_victims(pool, 1), vec![diverse]);

    // Equal rank: lowest score loses despite diversity.
    let pool = vec![
        entry(clustered_a, 1, 0),
        entry(clustered_b, 1, 0),
        entry(diverse, 1, -1),
    ];
    assert_eq!(select_trim_victims(pool, 1), vec![diverse]);
}

#[test]
fn test_select_trim_victims_spreads_across_equal_clusters() {
    // Two equally tight clusters and one victim slot per round: the
    // incremental recompute alternates clusters instead of draining one,
    // keeping the survivors spread.
    let cluster_a: Vec<OverlayAddress> =
        (0x80..=0x81u8).map(OverlayAddress::with_first_byte).collect();
    let cluster_b: Vec<OverlayAddress> =
        (0xc0..=0xc1u8).map(OverlayAddress::with_first_byte).collect();

    let pool: Vec<TrimEntry> = cluster_a
        .iter()
        .chain(cluster_b.iter())
        .map(|overlay| entry(*overlay, 1, 0))
        .collect();

    let victims = select_trim_victims(pool, 2);
    assert_eq!(victims.len(), 2);
    assert_eq!(
        victims.iter().filter(|v| cluster_a.contains(v)).count(),
        1,
        "one victim from each cluster keeps both sub-tries represented"
    );
}

#[test]
fn test_eviction_tiebreak_keeps_bin_prefix_spread() {
    let base = OverlayAddress::with_first_byte(0x00);
    // Trim floor pinned to 4; see test_eviction_candidates_handshaking_first.
    let (mut routing, _pm) = make_routing(
        base,
        KademliaConfig::default()
            .with_bootstrap_target(4)
            .with_oversaturation_peers(4)
            .with_saturation(4),
    );

    // Bin 0 holds two sub-tries: four clustered peers (0x80..0x83) and two
    // spread peers (0xC0, 0xE0). At depth 8 the target is 4, so surplus is
    // 2. All ranks and scores are equal, so prefix diversity decides: both
    // victims come from the cluster and the kept set covers both sub-tries.
    let cluster: Vec<OverlayAddress> =
        (0x80..=0x83u8).map(OverlayAddress::with_first_byte).collect();
    let spread = [
        OverlayAddress::with_first_byte(0xc0),
        OverlayAddress::with_first_byte(0xe0),
    ];
    for peer in cluster.iter().chain(spread.iter()) {
        force_active(&mut routing, *peer);
    }
    routing.depth = d(8);

    let candidates = routing.eviction_candidates(&_pm, &EvictionRanks::uniform(1));
    assert_eq!(candidates.len(), 2);
    for c in &candidates {
        assert_eq!(c.phase, EvictionPhase::Active);
        assert!(
            cluster.contains(&c.overlay),
            "evicted {:?} from the spread sub-trie; the kept set must stay \
             spread across the bin's sub-tries",
            c.overlay
        );
    }
}

#[test]
fn test_eviction_candidates_neighborhood_never_evicted() {
    let base = OverlayAddress::with_first_byte(0x00);
    // Trim floor pinned to the saturation default (8); dialing alone can
    // never exceed it, so the overflow that yields eviction candidates
    // must arrive through the inbound headroom band.
    let config = KademliaConfig::default()
        .with_total_target(8)
        .with_bootstrap_target(8)
        .with_oversaturation_peers(8);
    let (mut routing, _pm) = make_routing(base, config);

    // Fill bins 0 and 1 to the trim floor by dialing, then overfill them
    // through the inbound band; anchor bin 2 with the low watermark so
    // depth climbs to 2 and bin 2 becomes a neighborhood bin.
    for bin in 0..2 {
        for idx in 0..8 {
            connect(&mut routing, addr_in_bin(bin, idx));
        }
        for idx in 8..10 {
            accept_inbound(&mut routing, addr_in_bin(bin, idx));
        }
    }
    for idx in 0..6 {
        connect(&mut routing, addr_in_bin(2, idx));
    }

    assert_eq!(routing.depth().get(), 2);

    let candidates = routing.eviction_candidates(&_pm, &EvictionRanks::uniform(1));
    // Below-depth bins (0, 1) overflow their small target; the neighborhood
    // bin (2) never produces candidates regardless of its population.
    assert!(!candidates.is_empty());
    for c in &candidates {
        assert!(
            !routing.depth().contains(c.bin),
            "neighborhood bin {:?} should not produce candidates",
            c.bin
        );
    }
}
