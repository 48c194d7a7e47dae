use vertex_topology::kademlia::phase::TopologyPhase;
use vertex_topology::primitives::{Bin, NeighborhoodDepth, SwarmNodeType};
use vertex_topology::readiness::ReadinessSnapshot;
use vertex_topology::time::Duration;

fn depth(n: u8) -> NeighborhoodDepth {
    NeighborhoodDepth::new(Bin::new(n).expect("valid bin"))
}

fn snapshot(node_type: SwarmNodeType) -> ReadinessSnapshot {
    ReadinessSnapshot {
        local_node_type: node_type,
        connected_peers: 0,
        connected_storers: 0,
        depth: NeighborhoodDepth::zero(),
        neighborhood_connected: 0,
        saturation_threshold: 8,
        bins: Vec::new(),
        bins_at_target: 0,
        neighborhood_stable_for: None,
        neighborhood_stability_window: Duration::from_secs(30),
        phase: TopologyPhase::Bootstrap,
        time_in_phase: Duration::zero(),
    }
}

#[test]
fn empty_snapshot_is_cold() {
    let s = snapshot(SwarmNodeType::Client);
    assert!(!s.is_routable());
    assert!(!s.is_saturated());
    assert!(!s.is_warm());
    assert!(s.depth_reached(NeighborhoodDepth::zero()));
    assert!(!s.depth_reached(depth(1)));
}

#[test]
fn routable_with_one_storer() {
    let mut s = snapshot(SwarmNodeType::Client);
    s.connected_peers = 1;
    s.connected_storers = 1;
    assert!(s.is_routable());
    assert!(s.is_warm(), "a client is warm as soon as it can route");
    assert!(!s.is_saturated());
}

#[test]
fn clients_alone_are_not_routable() {
    let mut s = snapshot(SwarmNodeType::Client);
    s.connected_peers = 5;
    s.connected_storers = 0;
    assert!(!s.is_routable());
    assert!(!s.is_warm());
}

#[test]
fn saturation_requires_established_depth() {
    let mut s = snapshot(SwarmNodeType::Storer);
    s.connected_peers = 20;
    s.connected_storers = 20;
    s.neighborhood_connected = 20;
    // Depth 0: no boundary established yet, so not saturated.
    assert!(!s.is_saturated());
    assert!(!s.is_warm(), "a storer is not warm before saturation");

    s.depth = depth(1);
    assert!(s.is_saturated());
    assert!(s.is_warm());
}

#[test]
fn saturation_requires_threshold_in_neighborhood() {
    let mut s = snapshot(SwarmNodeType::Storer);
    s.connected_peers = 30;
    s.connected_storers = 30;
    s.depth = depth(2);
    s.neighborhood_connected = 7;
    assert!(!s.is_saturated());

    s.neighborhood_connected = 8;
    assert!(s.is_saturated());
}

#[test]
fn neighborhood_ready_requires_full_window() {
    let mut s = snapshot(SwarmNodeType::Storer);
    assert!(!s.is_neighborhood_ready(), "unsaturated is never ready");

    s.neighborhood_stable_for = Some(Duration::from_secs(29));
    assert!(!s.is_neighborhood_ready(), "window not yet served");

    s.neighborhood_stable_for = Some(Duration::from_secs(30));
    assert!(s.is_neighborhood_ready(), "window boundary is inclusive");

    s.neighborhood_stable_for = Some(Duration::from_secs(31));
    assert!(s.is_neighborhood_ready());
}

#[test]
fn neighborhood_ready_with_zero_window_is_saturation() {
    let mut s = snapshot(SwarmNodeType::Storer);
    s.neighborhood_stability_window = Duration::zero();
    assert!(!s.is_neighborhood_ready(), "still needs saturation");

    s.neighborhood_stable_for = Some(Duration::zero());
    assert!(s.is_neighborhood_ready());
}

#[test]
fn depth_reached_is_monotonic_in_min_depth() {
    let mut s = snapshot(SwarmNodeType::Client);
    s.depth = depth(3);
    assert!(s.depth_reached(depth(1)));
    assert!(s.depth_reached(depth(3)));
    assert!(!s.depth_reached(depth(4)));
}
