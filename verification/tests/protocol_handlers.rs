use vertex_topology::events::{
    ConnectionRejection, DialError, DialReason, HandshakeError, TopologyEvent,
};
use vertex_topology::kademlia::admission::ConnectionDirection;
use vertex_topology::kademlia::config::KademliaConfig;
use vertex_topology::kademlia::evaluator::{
    evaluation_period, evaluation_round, evaluator_step, EvaluatorStep, EvaluatorWake,
};
use vertex_topology::kademlia::peers::{PeerBook, PeerRecord};
use vertex_topology::kademlia::phase::TopologyPhase;
use vertex_topology::kademlia::routing::KademliaRouting;
use vertex_topology::nat_discovery::{AddressScope, LocalAddressManager, Multiaddr};
use vertex_topology::primitives::{Bin, OverlayAddress, PeerId, SwarmNodeType};
use vertex_topology::protocol_handlers::{
    handshake_state, on_hive_peers_received, Action, ActivateResult, Admission, ConnectionState, GossipedPeer,
    HandshakeInfo, RegistryGauge, RegistryStage, TopologyBehaviour, TrustLevel,
};
use vertex_topology::reachability::PeerReachability;
use vertex_topology::time::{Duration, Instant};

const NOW: Instant = Instant { nanos: 1_000_000_000_000 };

fn overlay(byte: u8) -> OverlayAddress {
    OverlayAddress::with_first_byte(byte)
}

fn peer(byte: u8) -> PeerId {
    PeerId::from_bytes(&[byte]).expect("one byte fits")
}

fn behaviour(config: KademliaConfig) -> TopologyBehaviour {
    let base = overlay(0);
    TopologyBehaviour {
        routing: KademliaRouting::new(base, 31, 3, config, NOW),
        peers: PeerBook::new(base, 31),
        nat_discovery: LocalAddressManager::new(vec![]),
        outbound_public_dials: Vec::new(),
    }
}

fn info(byte: u8) -> HandshakeInfo {
    HandshakeInfo {
        overlay: overlay(byte),
        node_type: SwarmNodeType::Storer,
        is_local: false,
        observed: None,
    }
}

fn dialed(byte: u8, reason: DialReason) -> ConnectionState {
    ConnectionState {
        id: Some(overlay(byte)),
        direction: Some(ConnectionDirection::Outbound),
        reason: Some(reason),
        stage: RegistryStage::Pending,
        started_at: Some(NOW),
    }
}

fn rejected(byte: u8, reason: ConnectionRejection) -> Action {
    Action::Emit(TopologyEvent::PeerRejected {
        overlay: overlay(byte),
        peer_id: peer(byte),
        reason,
        direction: ConnectionDirection::Inbound,
    })
}

#[test]
fn a_banned_peer_is_rejected() {
    let mut node = behaviour(KademliaConfig::default());
    node.peers.store(PeerRecord { banned: true, ..PeerRecord::discovered(overlay(0x80)) });
    let verdict = node.admit_handshake(peer(0x80), &info(0x80), None);
    assert!(verdict.admission.is_none());
    assert_eq!(
        verdict.actions,
        vec![rejected(0x80, ConnectionRejection::Banned), Action::CloseAll(peer(0x80))]
    );
    assert_eq!(node.routing.bin_phase_counts(Bin::clamped(0)), (0, 0, 0));
}

#[test]
fn a_saturated_bin_rejects_inbound_peers() {
    let config = KademliaConfig::default()
        .with_bootstrap_target(1)
        .with_saturation(1)
        .with_oversaturation_peers(1)
        .with_inbound_headroom(0);
    let mut node = behaviour(config);
    let first = node.admit_handshake(peer(0x80), &info(0x80), None);
    assert_eq!(
        first.admission,
        Some(Admission { direction: ConnectionDirection::Inbound, reason: None })
    );
    let second = node.admit_handshake(peer(0xc0), &info(0xc0), None);
    assert!(second.admission.is_none());
    assert_eq!(
        second.actions,
        vec![rejected(0xc0, ConnectionRejection::BinSaturated), Action::CloseAll(peer(0xc0))]
    );
}

#[test]
fn a_misdialed_peer_takes_the_place_of_the_record() {
    let mut node = behaviour(KademliaConfig::default());
    assert!(node.routing.try_reserve_dial(&overlay(0x80), SwarmNodeType::Storer));
    node.routing.dial_connected(&overlay(0x80));
    let state = dialed(0x80, DialReason::Discovery);
    let verdict = node.admit_handshake(peer(0x40), &info(0x40), Some(state));
    assert!(verdict.admission.is_some());
    assert_eq!(verdict.actions, vec![Action::DemoteDialedRecord(overlay(0x80))]);
    assert_eq!(node.routing.bin_phase_counts(Bin::clamped(0)), (0, 0, 0));
    assert_eq!(node.routing.bin_phase_counts(Bin::clamped(1)), (0, 1, 0));
}

#[test]
fn an_activated_peer_joins_the_table() {
    let mut node = behaviour(KademliaConfig::default());
    node.outbound_public_dials.push(7);
    assert!(node.routing.try_reserve_dial(&overlay(0x80), SwarmNodeType::Storer));
    node.routing.dial_connected(&overlay(0x80));
    let state = dialed(0x80, DialReason::Trusted);
    let admission = node
        .admit_handshake(peer(0x80), &info(0x80), Some(state))
        .admission
        .expect("a dialed peer is admitted");
    let actions = node.activate_handshake(
        peer(0x80),
        7,
        &info(0x80),
        &admission,
        ActivateResult::Accepted,
        NOW,
    );
    assert_eq!(actions[0], Action::LowerGauge(RegistryGauge::Pending));
    assert_eq!(actions[1], Action::RaiseGauge(RegistryGauge::Active));
    assert!(actions.contains(&Action::StorePeer {
        overlay: overlay(0x80),
        connection_id: 7,
        node_type: SwarmNodeType::Storer,
        direction: ConnectionDirection::Outbound,
        trust: TrustLevel::Trusted,
    }));
    assert!(actions.contains(&Action::Emit(TopologyEvent::PeerReady {
        overlay: overlay(0x80),
        peer_id: peer(0x80),
        node_type: SwarmNodeType::Storer,
        direction: ConnectionDirection::Outbound,
    })));
    assert_eq!(actions[actions.len() - 1], Action::TriggerEvaluation);
    assert!(node.routing.connected_peers.contains(&overlay(0x80)));
    assert_eq!(node.routing.bin_phase_counts(Bin::clamped(0)), (0, 0, 1));
    assert!(node.outbound_public_dials.is_empty());
    assert_eq!(
        node.nat_discovery.reachability().status(&peer(0x80)),
        PeerReachability::Reachable
    );
}

#[test]
fn an_inbound_handshake_proves_life_only() {
    let mut node = behaviour(KademliaConfig::default());
    let observed =
        Multiaddr { bare: 5, p2p: None, scope: Some(AddressScope::Public), family: 1 };
    let told = HandshakeInfo { observed: Some(observed), ..info(0x80) };
    let admission = node
        .admit_handshake(peer(0x80), &told, None)
        .admission
        .expect("the bin has room");
    let actions = node.activate_handshake(
        peer(0x80),
        8,
        &told,
        &admission,
        ActivateResult::Replaced {
            old_peer_id: peer(0x11),
            old_connection_id: 3,
            old_id: Some(overlay(0x80)),
        },
        NOW,
    );
    assert_eq!(actions[0], Action::DecrementConnected(SwarmNodeType::Client));
    assert!(actions.contains(&Action::CloseOne { peer_id: peer(0x11), connection_id: 3 }));
    assert_eq!(
        node.nat_discovery.reachability().status(&peer(0x80)),
        PeerReachability::Unknown
    );
    assert!(node.nat_discovery.has_confirmed_reachability());
}

#[test]
fn only_a_peers_fault_is_held_against_it() {
    let mut node = behaviour(KademliaConfig::default());
    let state = dialed(0x80, DialReason::Discovery);
    let later = NOW.plus(Duration::from_secs(4));
    let timeout =
        node.on_handshake_failed(peer(0x80), HandshakeError::Timeout, Some(state), later);
    assert_eq!(
        timeout,
        vec![
            Action::LowerGauge(RegistryGauge::Pending),
            Action::RecordDialFailure(overlay(0x80)),
            Action::Emit(TopologyEvent::DialFailed {
                overlay: Some(overlay(0x80)),
                addr_count: 0,
                error: DialError::HandshakeFailed(HandshakeError::Timeout),
                dial_duration: Some(Duration::from_secs(4)),
                reason: Some(DialReason::Discovery),
            }),
        ]
    );
    assert!(!node.nat_discovery.reachability().contains(&peer(0x80)));
    let forged = node.on_handshake_failed(
        peer(0x80),
        HandshakeError::InvalidSignature,
        Some(state),
        later,
    );
    assert!(forged.contains(&Action::ReportHandshakeFailure(overlay(0x80))));
    assert!(node.nat_discovery.reachability().contains(&peer(0x80)));
}

#[test]
fn a_failed_handshake_releases_its_slot() {
    let mut node = behaviour(KademliaConfig::default());
    node.routing.reserve_inbound(&overlay(0x80));
    let state = ConnectionState {
        direction: Some(ConnectionDirection::Inbound),
        ..dialed(0x80, DialReason::Discovery)
    };
    node.on_handshake_failed(peer(0x80), HandshakeError::Timeout, Some(state), NOW);
    assert_eq!(node.routing.bin_phase_counts(Bin::clamped(0)), (0, 0, 0));
}

#[test]
fn a_ping_is_recorded_for_a_known_overlay() {
    let mut node = behaviour(KademliaConfig::default());
    let rtt = Duration::from_millis(40);
    assert_eq!(
        node.on_ping_result(peer(1), Some(rtt), Some(overlay(0x80)), NOW),
        vec![
            Action::RecordLatency { overlay: overlay(0x80), rtt },
            Action::Emit(TopologyEvent::PingCompleted { overlay: overlay(0x80), rtt }),
        ]
    );
    assert!(node.on_ping_result(peer(1), Some(rtt), None, NOW).is_empty());
    for _ in 0..3 {
        assert!(node.on_ping_result(peer(1), None, Some(overlay(0x80)), NOW).is_empty());
    }
    assert_eq!(
        node.nat_discovery.reachability().status(&peer(1)),
        PeerReachability::Unreachable
    );
}

#[test]
fn gossip_is_filtered_by_reach() {
    let heard = vec![
        GossipedPeer { overlay: overlay(1), reachable: true },
        GossipedPeer { overlay: overlay(2), reachable: false },
    ];
    let verdict = on_hive_peers_received(
        heard.clone(),
        true,
        Some(overlay(9)),
        Some(DialReason::Bootnode),
    );
    assert_eq!(verdict.peers, vec![heard[0]]);
    assert_eq!(verdict.gossiper, overlay(9));
    assert!(verdict.close);

    let verdict = on_hive_peers_received(heard.clone(), false, None, None);
    assert_eq!(verdict.peers, heard);
    assert_eq!(verdict.gossiper, OverlayAddress::zero());
    assert!(!verdict.close);

    let verdict =
        on_hive_peers_received(vec![heard[1]], true, Some(overlay(9)), Some(DialReason::Bootnode));
    assert!(verdict.peers.is_empty());
    assert!(!verdict.close);
}

#[test]
fn the_evaluator_debounces_triggers() {
    assert_eq!(evaluation_period(), Duration::from_secs(5));
    assert_eq!(evaluator_step(EvaluatorWake::Shutdown), EvaluatorStep::Stop);
    assert_eq!(
        evaluator_step(EvaluatorWake::Triggered),
        EvaluatorStep::EvaluateAfter(Duration::from_millis(100))
    );
    assert_eq!(
        evaluator_step(EvaluatorWake::Tick),
        EvaluatorStep::EvaluateAfter(Duration::zero())
    );
}

#[test]
fn a_round_queues_candidates_and_reports_a_moved_phase() {
    let mut node = behaviour(KademliaConfig::default());
    node.peers.store(PeerRecord::discovered(overlay(0x80)));
    assert!(evaluation_round(&mut node.routing, &node.peers, NOW).is_none());
    assert_eq!(node.routing.pop_candidate(), Some(overlay(0x80)));

    for idx in 0..8u8 {
        let mut bytes = [0u8; 32];
        bytes[0] = 0x80;
        bytes[31] = idx;
        node.routing.connected(OverlayAddress::from(bytes), NOW);
    }
    for idx in 0..3u8 {
        let mut bytes = [0u8; 32];
        bytes[0] = 0x40;
        bytes[31] = idx;
        node.routing.connected(OverlayAddress::from(bytes), NOW);
    }
    assert_eq!(
        evaluation_round(&mut node.routing, &node.peers, NOW),
        Some(TopologyEvent::PhaseChanged {
            from: TopologyPhase::Bootstrap,
            to: TopologyPhase::Converging,
            depth: 1,
        })
    );
}

#[test]
fn the_asserted_overlay_decides_the_connection_state() {
    let asserted = dialed(0x80, DialReason::Trusted);
    let resolved = dialed(0x40, DialReason::Bootnode);
    assert_eq!(handshake_state(Some(asserted), Some(resolved)), Some(asserted));
    assert_eq!(handshake_state(Some(asserted), None), Some(asserted));
    assert_eq!(handshake_state(None, Some(resolved)), Some(resolved));
    assert_eq!(handshake_state(None, None), None);
}
