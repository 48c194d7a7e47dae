use vertex_topology::kademlia::config::KademliaConfig;
use vertex_topology::kademlia::limits::DepthAwareLimits;
use vertex_topology::primitives::{Bin, NeighborhoodDepth};
use vertex_topology::time::Duration;


fn b(n: u8) -> Bin {
    Bin::new(n).expect("valid bin")
}

fn d(n: u8) -> NeighborhoodDepth {
    NeighborhoodDepth::new(b(n))
}

#[test]
fn test_config_default() {
    let config = KademliaConfig::default();
    assert_eq!(config.limits.nominal(), 3);
    assert_eq!(config.limits.total_target(), 160);
}

#[test]
fn test_with_total_target() {
    let config = KademliaConfig::default().with_total_target(256);
    assert_eq!(config.limits.total_target(), 256);
    assert_eq!(config.limits.nominal(), 3);
}

#[test]
fn test_with_nominal() {
    let config = KademliaConfig::default().with_nominal(5);
    assert_eq!(config.limits.nominal(), 5);
    assert_eq!(config.limits.total_target(), 160);
}

#[test]
fn test_builders_preserve_sibling_fields() {
    // Builders must not silently reset other limits to defaults.
    let config = KademliaConfig::default()
        .with_inbound_headroom(8)
        .with_total_target(64)
        .with_nominal(5);
    assert_eq!(config.limits.total_target(), 64);
    assert_eq!(config.limits.nominal(), 5);
    // Headroom survived the later builders: bin 7 at depth 8 has target
    // 64 * 8 / 36 = 14, ceiling = max(14 + 8, 18) = 22.
    assert!(config.limits.should_accept_inbound(b(7), d(8), 21));
    assert!(!config.limits.should_accept_inbound(b(7), d(8), 22));
}

#[test]
fn test_with_inbound_headroom() {
    let config = KademliaConfig::default().with_inbound_headroom(8);
    // Headroom is internal; verify depth-aware behavior works
    // At depth 8, bin 7 target = 35. With headroom 8, ceiling = 43.
    // At target + 7 = 42, should still accept inbound
    assert!(config.limits.should_accept_inbound(b(7), d(8), 35 + 7));
    // At target + 8 = 43, should not accept
    assert!(!config.limits.should_accept_inbound(b(7), d(8), 35 + 8));
}

#[test]
fn test_with_neighborhood_stability_window() {
    let config = KademliaConfig::default();
    assert_eq!(
        config.neighborhood_stability_window,
        Duration::from_secs(30)
    );

    let config = config.with_neighborhood_stability_window(Duration::from_secs(5));
    assert_eq!(config.neighborhood_stability_window, Duration::from_secs(5));
    // Sibling fields are preserved.
    assert_eq!(config.limits.total_target(), 160);
}

#[test]
fn test_with_limits() {
    let custom = DepthAwareLimits::new(200, 4);
    let config = KademliaConfig::with_limits(custom);
    assert_eq!(config.limits.total_target(), 200);
    assert_eq!(config.limits.nominal(), 4);
}
