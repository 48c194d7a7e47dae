//! What the library promises as a whole, on concrete values.

use vertex_topology::error::Error;
use vertex_topology::events::TopologyEvent;
use vertex_topology::kademlia::candidate_queues::CandidateQueues;
use vertex_topology::kademlia::config::KademliaConfig;
use vertex_topology::kademlia::eviction::EvictionRanks;
use vertex_topology::kademlia::limits::DepthAwareLimits;
use vertex_topology::kademlia::peer_selection::select_for_distant;
use vertex_topology::kademlia::peers::{PeerBook, PeerRecord};
use vertex_topology::kademlia::phase::TopologyPhase;
use vertex_topology::kademlia::routing::KademliaRouting;
use vertex_topology::kademlia::trim::{select_trim_victims, TrimEntry};
use vertex_topology::metrics::{MetricUpdate, TopologyMetrics};
use vertex_topology::primitives::{
    Bin, NeighborhoodDepth, OverlayAddress, PeerId, SwarmNodeType,
};
use vertex_topology::profile::{ConnectionProfile, PacingProfile};
use vertex_topology::reachability::{PeerReachability, ReachabilityTracker};
use vertex_topology::routing;
use vertex_topology::swarmspec::hardforks::{
    ForkCondition, GenesisTimes, SwarmHardfork, SwarmHardforks,
};
use vertex_topology::swarmspec::spec::Hive;
use vertex_topology::tasks::interval::interval;
use vertex_topology::time::{Duration, Instant};

const NOW: Instant = Instant { nanos: 1_000_000_000_000 };

fn bin(raw: u8) -> Bin {
    Bin::new(raw).expect("valid bin")
}

fn depth(raw: u8) -> NeighborhoodDepth {
    NeighborhoodDepth::new(bin(raw))
}

fn in_bin(bin: u8, idx: u8) -> OverlayAddress {
    let mut bytes = [0u8; 32];
    bytes[(bin / 8) as usize] = 0x80 >> (bin % 8);
    bytes[31] = idx;
    OverlayAddress::from(bytes)
}

fn table(config: KademliaConfig) -> KademliaRouting {
    KademliaRouting::new(OverlayAddress::zero(), 31, 3, config, NOW)
}

fn fill(routing: &mut KademliaRouting, bin: u8, count: u8) {
    for idx in 0..count {
        routing.connected(in_bin(bin, idx), NOW);
    }
}

#[test]
fn targets_reach_saturation_and_grow_with_the_bin() {
    let limits = DepthAwareLimits::default().with_total_target(4);
    for raw in 0..8 {
        assert!(limits.target(bin(raw), depth(8)) >= limits.saturation());
        assert!(limits.target(bin(raw + 1), depth(8)) >= limits.target(bin(raw), depth(8)));
    }
}

#[test]
fn a_bin_that_wants_peers_accepts_them() {
    let limits = DepthAwareLimits::default();
    for connected in 0..40 {
        for raw in 0..12 {
            if limits.needs_more(bin(raw), depth(8), connected) {
                assert!(limits.should_accept_inbound(bin(raw), depth(8), connected));
            }
            let surplus = limits.surplus(bin(raw), depth(8), connected);
            if surplus > 0 {
                assert!(!limits.needs_more(bin(raw), depth(8), connected - surplus));
                assert!(connected - surplus >= limits.oversaturation);
            }
        }
    }
}

#[test]
fn trimming_takes_as_many_as_it_is_told_from_the_pool() {
    let pool: Vec<TrimEntry> = (0..6u8)
        .map(|idx| TrimEntry { overlay: in_bin(0, idx), rank: 1, score: i64::from(idx) })
        .collect();
    for count in 0..8usize {
        let victims = select_trim_victims(pool.clone(), count);
        assert_eq!(victims.len(), count.min(pool.len()));
        for victim in &victims {
            assert!(pool.iter().any(|entry| entry.overlay == *victim));
        }
    }
    assert_eq!(select_trim_victims(pool, 2), vec![in_bin(0, 0), in_bin(0, 1)]);
}

#[test]
fn evictions_stay_within_the_surplus() {
    let config = KademliaConfig::default()
        .with_total_target(4)
        .with_saturation(4)
        .with_oversaturation_peers(4);
    let mut routing = table(config);
    for idx in 0..7u8 {
        let peer = in_bin(0, idx);
        routing.reserve_inbound(&peer);
        routing.handshake_completed(&peer);
        routing.connected(peer, NOW);
    }
    fill(&mut routing, 1, 3);
    assert_eq!(routing.depth().get(), 1);
    let book = PeerBook::new(OverlayAddress::zero(), 31);
    let candidates = routing.eviction_candidates(&book, &EvictionRanks::uniform(0));
    assert_eq!(candidates.len(), 3);
    assert!(candidates.iter().all(|c| c.bin == bin(0)));
}

#[test]
fn raw_depth_is_the_shallowest_unsaturated_bin() {
    let routing = table(KademliaConfig::default());
    assert_eq!(routing.recalc_depth(&vec![8, 8, 7, 9]).get(), 2);
    assert_eq!(routing.recalc_depth(&vec![8; 32]).get(), 31);
    assert_eq!(routing.recalc_depth(&vec![]).get(), 0);
    assert_eq!(routing.recalc_depth(&vec![8; 40]).get(), 31);
    assert_eq!(routing.saturation_deficit_below(depth(3), &vec![8, 5, 9]), 3);
}

#[test]
fn depth_moves_restart_the_phase_window() {
    let mut routing = table(KademliaConfig::default());
    assert_eq!(routing.phase_status(NOW).0, TopologyPhase::Bootstrap);
    fill(&mut routing, 0, 8);
    fill(&mut routing, 1, 4);
    fill(&mut routing, 2, 4);
    assert!(routing.evaluate_phase(NOW).is_some());
    assert_eq!(routing.phase_status(NOW).0, TopologyPhase::Converging);
    let later = NOW.plus(Duration::from_secs(61));
    assert!(routing.evaluate_phase(later).is_some());
    assert_eq!(routing.phase_status(later).0, TopologyPhase::Stable);
    fill(&mut routing, 1, 8);
    assert_eq!(routing.depth().get(), 2);
    assert!(routing.evaluate_phase(later).is_some());
    assert_eq!(routing.phase_status(later).0, TopologyPhase::Converging);
}

#[test]
fn a_requeued_candidate_comes_back_deepest_first() {
    let mut routing = table(KademliaConfig::default());
    routing.requeue_candidate(in_bin(0, 1));
    routing.requeue_candidate(in_bin(4, 1));
    routing.requeue_candidate(in_bin(0, 1));
    assert_eq!(routing.pop_candidate(), Some(in_bin(4, 1)));
    assert_eq!(routing.pop_candidate(), Some(in_bin(0, 1)));
    assert_eq!(routing.pop_candidate(), None);
}

#[test]
fn phases_and_storers_are_counted() {
    let mut routing = table(KademliaConfig::default());
    let mut book = PeerBook::new(OverlayAddress::zero(), 31);
    book.store(PeerRecord {
        node_type: Some(SwarmNodeType::Storer),
        ..PeerRecord::discovered(in_bin(0, 1))
    });
    routing.connected(in_bin(0, 1), NOW);
    routing.connected(in_bin(0, 2), NOW);
    routing.reserve_inbound(&in_bin(3, 0));
    assert_eq!(routing.connected_storer_total(&book), 1);
    assert_eq!(routing.connected_peers_total(), 2);
    let phases = routing.all_bin_phases();
    assert_eq!(phases.len(), 32);
    assert_eq!(phases[3], (bin(3), 0, 1, 0));
    assert_eq!(routing.bin_sizes(&book)[0], (2, 1));
}

#[test]
fn a_reserved_slot_is_given_back() {
    let mut routing = table(KademliaConfig::default());
    let before = routing.bin_phase_counts(bin(2));
    assert!(routing.try_reserve_dial(&in_bin(2, 0), SwarmNodeType::Storer));
    routing.dial_connected(&in_bin(2, 0));
    assert_eq!(routing.effective_count(bin(2)), 1);
    routing.release_handshake(&in_bin(2, 0));
    assert_eq!(routing.bin_phase_counts(bin(2)), before);
}

#[test]
fn watermark_candidates_are_known_and_not_connected() {
    let mut table = routing::kademlia::KademliaRouting::new(
        OverlayAddress::zero(),
        31,
        routing::config::KademliaConfig::default(),
    );
    table.add_peers(&[in_bin(0, 1), in_bin(1, 1)]);
    table.connected(in_bin(0, 1));
    table.evaluate_connections();
    assert_eq!(table.peers_to_connect(), vec![in_bin(1, 1)]);
    assert!(table.peers_to_connect().is_empty());
    assert_eq!(table.connected_peers_in_bin(0), vec![in_bin(0, 1).to_hex()]);
    table.on_peer_disconnected(&in_bin(0, 1));
    assert!(table.known_peers.contains(&in_bin(0, 1)));
    assert!(table.connected_peers_in_bin(0).is_empty());
}

#[test]
fn liveness_never_promotes_and_success_recovers() {
    let peer = PeerId::from_bytes(&[1]).expect("one byte fits");
    let mut tracker = ReachabilityTracker::new();
    for _ in 0..10 {
        tracker.update_from_ping(peer, true, NOW);
        assert_ne!(tracker.status(&peer), PeerReachability::Reachable);
    }
    for _ in 0..3 {
        tracker.update_from_handshake(peer, false, NOW);
    }
    assert!(tracker.status(&peer).is_unreachable());
    tracker.update_from_ping(peer, true, NOW);
    assert_eq!(tracker.status(&peer), PeerReachability::Unknown);
}

#[test]
fn a_late_poll_waits_a_full_period() {
    let mut ticker = interval(Duration::from_secs(5));
    assert!(ticker.poll_tick(NOW));
    let late = NOW.plus(Duration::from_secs(12));
    assert!(ticker.poll_tick(late));
    assert!(!ticker.poll_tick(late.plus(Duration::from_secs(4))));
    assert!(ticker.poll_tick(late.plus(Duration::from_secs(5))));
}

#[test]
fn a_fork_stays_active() {
    let forks = SwarmHardforks::accord_at(100);
    for timestamp in 0..300 {
        assert_eq!(
            forks.is_fork_active_at_timestamp(SwarmHardfork::Accord, timestamp),
            timestamp >= 100
        );
    }
    let spec = Hive::init_testnet(&GenesisTimes { mainnet: 1, testnet: 50 });
    assert_eq!(
        spec.swarm_fork_activation(SwarmHardfork::Accord),
        ForkCondition::Timestamp(50)
    );
    assert_eq!(spec.genesis_timestamp(), 50);
}

#[test]
fn the_balanced_profile_is_the_default_budget() {
    let pacing = PacingProfile::from(ConnectionProfile::Balanced);
    let config = KademliaConfig::default().with_depth_lower_window(Duration::zero());
    assert_eq!(pacing.max_neighbor_candidates, config.max_neighbor_candidates);
    assert!(config.depth_lower_window.is_zero());
}

#[test]
fn statistics_become_gauges() {
    let metrics = TopologyMetrics::new();
    assert_eq!(
        metrics.record_unknown_overlay_disconnect(),
        MetricUpdate::UnknownOverlayDisconnection
    );
    assert_eq!(
        metrics.record_gossip_verifier_stats(1, 2, 3, 4),
        MetricUpdate::GossipVerifier { pending: 1, in_flight: 2, gossipers: 3, memory_bytes: 4 }
    );
    assert_eq!(
        metrics.record_proximity_cache_stats(5, true, 6),
        MetricUpdate::ProximityCache { cached_items: 5, valid: true, generation: 6 }
    );
    assert_eq!(
        metrics.record_peer_manager_stats(7, 8, 9, 10),
        MetricUpdate::PeerManager {
            total_peers: 7,
            banned_peers: 8,
            entries_bytes: 9,
            bin_index_bytes: 10,
        }
    );
    assert_eq!(
        metrics.record_connection_registry_stats(11),
        MetricUpdate::ConnectionRegistry { memory_bytes: 11 }
    );
}

#[test]
fn a_phase_change_is_no_gauge() {
    let mut metrics = TopologyMetrics::new();
    let updates = metrics.record_event(&TopologyEvent::PhaseChanged {
        from: TopologyPhase::Bootstrap,
        to: TopologyPhase::Converging,
        depth: 1,
    });
    assert!(updates.is_empty());
    assert_eq!(metrics.depth(), 0);
}

#[test]
fn every_error_kind_keeps_its_text() {
    assert!(matches!(Error::authentication("a"), Error::Authentication(t) if t == "a"));
    assert!(matches!(Error::authorization("b"), Error::Authorization(t) if t == "b"));
    assert!(matches!(Error::accounting("c"), Error::Accounting(t) if t == "c"));
    assert!(matches!(Error::not_found("d"), Error::NotFound(t) if t == "d"));
    assert!(matches!(Error::already_exists("e"), Error::AlreadyExists(t) if t == "e"));
    assert!(matches!(Error::invalid_operation("f"), Error::InvalidOperation(t) if t == "f"));
    assert!(matches!(Error::timeout("g"), Error::Timeout(t) if t == "g"));
    assert!(matches!(Error::io("h"), Error::Io(t) if t == "h"));
}

#[test]
fn bins_beyond_the_deepest_lack_nothing() {
    let base = OverlayAddress::zero();
    let mut routing = KademliaRouting::new(base, 3, 3, KademliaConfig::default(), NOW);
    assert_eq!(routing.saturation_deficit_below(depth(5), &vec![8; 4]), 0);
    assert_eq!(routing.saturation_deficit_below(depth(5), &vec![8, 8, 6]), 10);

    fill(&mut routing, 3, 9);
    assert_eq!(routing.neighborhood_connected(depth(3)), 9);
    assert_eq!(routing.neighborhood_connected(depth(4)), 0);
    assert!(routing.neighborhood_saturated(depth(3)));
    assert!(!routing.neighborhood_saturated(depth(4)));
    assert_eq!(routing.bin_outbound_count(bin(4)), 0);
}

#[test]
fn targets_share_the_total_target() {
    let limits = DepthAwareLimits::new(160, 3);
    let sum: usize = (0..8).map(|raw| limits.target(bin(raw), depth(8))).sum();
    assert!(sum <= 160 + 8 * 3);
    let floored = limits.with_saturation(50);
    let sum: usize = (0..8).map(|raw| floored.target(bin(raw), depth(8))).sum();
    assert_eq!(sum, 400);
    assert_eq!(limits.target(bin(8), depth(8)), usize::MAX);
}

#[test]
fn a_reserved_dial_takes_one_slot_until_it_is_released() {
    let mut routing = table(KademliaConfig::default());
    let peer = in_bin(2, 7);
    assert_eq!(routing.effective_count(bin(2)), 0);
    assert!(routing.try_reserve_dial(&peer, SwarmNodeType::Storer));
    assert_eq!(routing.effective_count(bin(2)), 1);
    assert!(!routing.try_reserve_dial(&peer, SwarmNodeType::Storer));
    routing.release_dial(&peer);
    assert_eq!(routing.effective_count(bin(2)), 0);
    assert_eq!(routing.bin_phase_counts(bin(2)), (0, 0, 0));
}

#[test]
fn a_liveness_signal_moves_one_status_only() {
    let mut tracker = ReachabilityTracker::new();
    let peer = PeerId::from_bytes(&[1]).expect("one byte fits");
    let other = PeerId::from_bytes(&[2]).expect("one byte fits");
    tracker.on_outbound_reachable(other, NOW);
    for _ in 0..2 {
        tracker.record_liveness(peer, false, NOW);
        assert_eq!(tracker.status(&peer), PeerReachability::Unknown);
    }
    tracker.record_liveness(peer, false, NOW);
    assert_eq!(tracker.status(&peer), PeerReachability::Unreachable);
    tracker.record_liveness(peer, true, NOW);
    assert_eq!(tracker.status(&peer), PeerReachability::Unknown);
    assert!(tracker.contains(&peer));
    assert_eq!(tracker.status(&other), PeerReachability::Reachable);
}

#[test]
fn every_victim_is_worth_no_more_than_a_survivor() {
    let pool: Vec<TrimEntry> = [(3, 0), (1, 5), (1, -5), (2, 9), (3, -1)]
        .iter()
        .enumerate()
        .map(|(idx, (rank, score))| TrimEntry {
            overlay: in_bin(0, idx as u8),
            rank: *rank,
            score: *score,
        })
        .collect();
    let victims = select_trim_victims(pool, 3);
    assert_eq!(victims, vec![in_bin(0, 2), in_bin(0, 1), in_bin(0, 3)]);
}

#[test]
fn a_drain_hands_out_the_deepest_bins_first() {
    let mut queues = CandidateQueues::new(4, 4);
    assert!(queues.is_empty());
    assert!(queues.push(bin(1), in_bin(1, 0)));
    assert!(queues.push(bin(3), in_bin(3, 0)));
    assert!(queues.push(bin(3), in_bin(3, 1)));
    assert!(queues.push(bin(0), in_bin(0, 0)));
    assert!(!queues.is_empty());
    assert_eq!(
        queues.drain_all(),
        vec![in_bin(3, 0), in_bin(3, 1), in_bin(1, 0), in_bin(0, 0)]
    );
    assert!(queues.is_empty());
}

#[test]
fn equally_close_storers_keep_their_order() {
    let mut book = PeerBook::new(OverlayAddress::zero(), 31);
    let peers = [in_bin(0, 9), in_bin(0, 2), in_bin(0, 5)];
    for overlay in peers {
        book.store(PeerRecord {
            node_type: Some(SwarmNodeType::Storer),
            addressed: true,
            ..PeerRecord::discovered(overlay)
        });
    }
    let selected = select_for_distant(&OverlayAddress::zero(), &book, OverlayAddress::zero());
    let named: Vec<OverlayAddress> = selected.iter().map(|(overlay, _)| *overlay).collect();
    assert_eq!(named, peers.to_vec());
}

#[test]
fn the_sorted_lists_run_from_end_to_end() {
    let mut pslice = routing::pslice::PSlice::new(31);
    for (raw, idx) in [(4u8, 0u8), (0, 1), (4, 2), (9, 3)] {
        assert!(pslice.add(in_bin(raw, idx), raw));
    }
    let up: Vec<u8> = pslice.iter_by_proximity().iter().map(|(po, _)| *po).collect();
    assert_eq!(up, vec![0, 4, 4, 9]);
    let down: Vec<u8> = pslice.iter_by_proximity_desc().iter().map(|(po, _)| *po).collect();
    assert_eq!(down, vec![9, 4, 4, 0]);
}

#[test]
fn equally_close_peers_come_back_in_table_order() {
    let mut routing = table(KademliaConfig::default());
    let peers = [in_bin(2, 9), in_bin(2, 1), in_bin(2, 5)];
    for peer in peers {
        routing.connected(peer, NOW);
    }
    routing.connected(in_bin(0, 3), NOW);
    let address = in_bin(1, 0);
    let all = routing.closest_to(&address, 4);
    assert_eq!(all, vec![peers[0], peers[1], peers[2], in_bin(0, 3)]);
    assert_eq!(routing.closest_to(&address, 9), all);
}
