use vertex_topology::events::{DialError, DialReason, DisconnectReason, TopologyEvent};
use vertex_topology::kademlia::admission::ConnectionDirection;
use vertex_topology::kademlia::capacity::ConnectionPhase;
use vertex_topology::metrics::{
    phase_label, po_label, record_phase_transition, MetricUpdate, TopologyMetrics,
};
use vertex_topology::primitives::{OverlayAddress, PeerId, SwarmNodeType};
use vertex_topology::time::Duration;


fn test_overlay() -> OverlayAddress {
    OverlayAddress::default()
}

fn test_peer_id() -> PeerId {
    PeerId::from_bytes(&[7, 7]).expect("two bytes fit")
}

#[test]
fn test_metrics_new() {
    let mut metrics = TopologyMetrics::new();
    assert_eq!(metrics.connected_storers(), 0);
    assert_eq!(metrics.connected_clients(), 0);
    assert_eq!(metrics.depth(), 0);
}

#[test]
fn test_record_peer_ready() {
    let mut metrics = TopologyMetrics::new();

    let event = TopologyEvent::PeerReady {
        overlay: test_overlay(),
        peer_id: test_peer_id(),
        node_type: SwarmNodeType::Storer,
        direction: ConnectionDirection::Outbound,
    };

    metrics.record_event(&event);
    assert_eq!(metrics.connected_storers(), 1);
    assert_eq!(metrics.connected_clients(), 0);

    let event = TopologyEvent::PeerReady {
        overlay: test_overlay(),
        peer_id: test_peer_id(),
        node_type: SwarmNodeType::Client,
        direction: ConnectionDirection::Inbound,
    };

    metrics.record_event(&event);
    assert_eq!(metrics.connected_storers(), 1);
    assert_eq!(metrics.connected_clients(), 1);
}

#[test]
fn test_record_depth_changed() {
    let mut metrics = TopologyMetrics::new();

    let event = TopologyEvent::DepthChanged {
        old_depth: 0,
        new_depth: 5,
    };

    metrics.record_event(&event);
    assert_eq!(metrics.depth(), 5);

    let event = TopologyEvent::DepthChanged {
        old_depth: 5,
        new_depth: 3,
    };

    metrics.record_event(&event);
    assert_eq!(metrics.depth(), 3);
}

#[test]
fn test_record_dial_failed() {
    let mut metrics = TopologyMetrics::new();

    let event = TopologyEvent::DialFailed {
        overlay: Some(test_overlay()),
        addr_count: 1,
        error: DialError::ConnectionRefused,
        dial_duration: Some(Duration::from_secs(5)),
        reason: Some(DialReason::Discovery),
    };

    // Should not panic
    metrics.record_event(&event);
}

#[test]
fn test_disconnect_without_connect_does_not_underflow() {
    let mut metrics = TopologyMetrics::new();
    assert_eq!(metrics.connected_clients(), 0);

    // Disconnect a client that was never connected — must not wrap to u64::MAX.
    let event = TopologyEvent::PeerDisconnected {
        overlay: test_overlay(),
        reason: DisconnectReason::ConnectionError,
        connection_duration: None,
        node_type: SwarmNodeType::Client,
    };

    metrics.record_event(&event);
    assert_eq!(metrics.connected_clients(), 0);
    assert_eq!(metrics.connected_storers(), 0);
}

#[test]
fn test_record_ping_completed() {
    let mut metrics = TopologyMetrics::new();

    let event = TopologyEvent::PingCompleted {
        overlay: test_overlay(),
        rtt: Duration::from_millis(50),
    };

    // Should not panic
    metrics.record_event(&event);
}

#[test]
fn a_ready_peer_updates_the_gauges_and_the_counter() {
    let mut metrics = TopologyMetrics::new();
    let updates = metrics.record_event(&TopologyEvent::PeerReady {
        overlay: test_overlay(),
        peer_id: test_peer_id(),
        node_type: SwarmNodeType::Storer,
        direction: ConnectionDirection::Outbound,
    });
    assert!(updates.contains(&MetricUpdate::ConnectedPeers { storers: 1, clients: 0 }));
    assert!(updates.contains(&MetricUpdate::ConnectionAccepted {
        node_type: SwarmNodeType::Storer,
        direction: ConnectionDirection::Outbound,
    }));
}

#[test]
fn a_disconnect_undoes_a_ready_peer() {
    let mut metrics = TopologyMetrics::new();
    metrics.set_connected_peers(4, 9);
    metrics.record_event(&TopologyEvent::PeerReady {
        overlay: test_overlay(),
        peer_id: test_peer_id(),
        node_type: SwarmNodeType::Client,
        direction: ConnectionDirection::Inbound,
    });
    assert_eq!(metrics.connected_clients(), 10);
    let updates = metrics.record_event(&TopologyEvent::PeerDisconnected {
        overlay: test_overlay(),
        reason: DisconnectReason::Closed,
        connection_duration: Some(Duration::from_secs(3)),
        node_type: SwarmNodeType::Client,
    });
    assert_eq!((metrics.connected_storers(), metrics.connected_clients()), (4, 9));
    assert!(updates.contains(&MetricUpdate::ConnectionDuration {
        node_type: SwarmNodeType::Client,
        duration: Duration::from_secs(3),
    }));
}

#[test]
fn depth_moves_are_counted_by_direction() {
    let mut metrics = TopologyMetrics::new();
    let up = metrics.record_event(&TopologyEvent::DepthChanged { old_depth: 1, new_depth: 4 });
    assert!(up.contains(&MetricUpdate::DepthIncrease));
    assert!(!up.contains(&MetricUpdate::DepthDecrease));
    let down = metrics.record_event(&TopologyEvent::DepthChanged { old_depth: 4, new_depth: 2 });
    assert!(down.contains(&MetricUpdate::DepthDecrease));
    assert!(down.contains(&MetricUpdate::Depth { depth: 2 }));
}

#[test]
fn proximity_order_labels_are_decimal() {
    assert_eq!(po_label(0), "0");
    assert_eq!(po_label(9), "9");
    assert_eq!(po_label(10), "10");
    assert_eq!(po_label(31), "31");
}

#[test]
fn phase_transitions_name_both_ends() {
    assert_eq!(phase_label(None), "none");
    assert_eq!(phase_label(Some(ConnectionPhase::Dialing)), "dialing");
    assert_eq!(
        record_phase_transition(None, Some(ConnectionPhase::Dialing)),
        MetricUpdate::PhaseTransition { from: None, to: Some(ConnectionPhase::Dialing) }
    );
}
