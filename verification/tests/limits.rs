use vertex_topology::kademlia::limits::{
    DepthAwareLimits, LimitsSnapshot, DEFAULT_BOOTSTRAP_TARGET,
};
use vertex_topology::primitives::{Bin, NeighborhoodDepth};


/// Shorthand to build a Bin in tests.
fn b(n: u8) -> Bin {
    Bin::new(n).expect("valid bin")
}

fn d(n: u8) -> NeighborhoodDepth {
    NeighborhoodDepth::new(b(n))
}

#[test]
fn test_linear_taper_depth_8() {
    let limits = DepthAwareLimits::new(160, 3);

    // Weight sum for depth 8: 8 × 9 / 2 = 36
    // Bin 7: 160 × 8 / 36 = 35.5 → 35
    // Bin 0: 160 × 1 / 36 = 4.4 → max(4, 3) = 4

    assert_eq!(limits.target(b(7), d(8)), 35);
    assert_eq!(limits.target(b(6), d(8)), 31); // 160 × 7 / 36 = 31.1
    assert_eq!(limits.target(b(0), d(8)), 4); // 160 × 1 / 36 = 4.4

    // Neighborhood (bin >= depth) returns MAX
    assert_eq!(limits.target(b(8), d(8)), usize::MAX);
    assert_eq!(limits.target(b(10), d(8)), usize::MAX);
}

#[test]
fn test_needs_more() {
    let limits = DepthAwareLimits::new(160, 3);

    // Bin 7 target = 35
    assert!(limits.needs_more(b(7), d(8), 0));
    assert!(limits.needs_more(b(7), d(8), 34));
    assert!(!limits.needs_more(b(7), d(8), 35));
    assert!(!limits.needs_more(b(7), d(8), 40));

    // Neighborhood always needs more
    assert!(limits.needs_more(b(8), d(8), 1000));
}

#[test]
fn test_should_accept_inbound() {
    let limits = DepthAwareLimits::new(160, 3).with_inbound_headroom(4);

    // Bin 7 target = 35, ceiling = 35 + 4 = 39
    assert!(limits.should_accept_inbound(b(7), d(8), 35));
    assert!(limits.should_accept_inbound(b(7), d(8), 38));
    assert!(!limits.should_accept_inbound(b(7), d(8), 39));

    // Neighborhood always accepts
    assert!(limits.should_accept_inbound(b(8), d(8), 1000));
}

#[test]
fn test_expected_available() {
    let limits = DepthAwareLimits::new(160, 3);

    // Bin 7: 3 × 2^1 = 6
    assert_eq!(limits.expected_available(b(7), d(8)), 6);
    // Bin 6: 3 × 2^2 = 12
    assert_eq!(limits.expected_available(b(6), d(8)), 12);
    // Bin 0: 3 × 2^8 = 768
    assert_eq!(limits.expected_available(b(0), d(8)), 768);

    // Neighborhood returns nominal
    assert_eq!(limits.expected_available(b(8), d(8)), 3);
}

#[test]
fn test_total_expected() {
    let limits = DepthAwareLimits::new(160, 3);

    // Depth 8: 3 × 2 × (256 - 1) = 1530
    assert_eq!(limits.total_expected_at_depth(d(8)), 1530);

    // Depth 10: 3 × 2 × (1024 - 1) = 6138
    assert_eq!(limits.total_expected_at_depth(d(10)), 6138);
}

#[test]
fn test_snapshot_consistency() {
    let limits = DepthAwareLimits::new(160, 3);

    let snapshot = LimitsSnapshot::capture(&limits, d(8));

    // Snapshot captures depth at creation time
    assert_eq!(snapshot.depth.get(), 8);
    assert_eq!(snapshot.target(b(7)), 35); // Uses depth 8 calculation

    // A different snapshot at depth 10 has different targets
    let snapshot10 = LimitsSnapshot::capture(&limits, d(10));
    assert_eq!(snapshot10.depth.get(), 10);

    // The first snapshot is unchanged
    assert_eq!(snapshot.depth.get(), 8);
    assert_eq!(snapshot.target(b(7)), 35);
}

#[test]
fn test_deficit() {
    let limits = DepthAwareLimits::new(160, 3);

    // Bin 7 target at depth 8 = 35
    assert_eq!(limits.deficit(b(7), d(8), 0), 35);
    assert_eq!(limits.deficit(b(7), d(8), 20), 15);
    assert_eq!(limits.deficit(b(7), d(8), 35), 0);
    assert_eq!(limits.deficit(b(7), d(8), 40), 0);
}

#[test]
fn test_zero_depth() {
    let limits = DepthAwareLimits::new(160, 3);

    // All bins fill toward bootstrap_target when depth is 0 (aggressive
    // bootstrap so bins reach the saturation frontier and depth can climb).
    assert_eq!(limits.target(b(0), d(0)), DEFAULT_BOOTSTRAP_TARGET);
    assert_eq!(limits.target(b(7), d(0)), DEFAULT_BOOTSTRAP_TARGET);
    assert_eq!(limits.target(b(31), d(0)), DEFAULT_BOOTSTRAP_TARGET);
}

#[test]
fn test_various_total_targets() {
    // Light client
    let light = DepthAwareLimits::new(32, 2);
    assert!(light.target(b(7), d(8)) < 10);

    // Robust retrieval
    let robust = DepthAwareLimits::new(256, 4);
    assert!(robust.target(b(7), d(8)) > 50);
}

#[test]
fn test_estimate_depth_from_known() {
    let limits = DepthAwareLimits::new(160, 3);

    // No known peers -> depth 0
    let empty: Vec<usize> = vec![0; 32];
    assert_eq!(limits.estimate_depth_from_known(&empty).get(), 0);

    // Known peers in low bins only -> depth based on highest populated
    let mut known = vec![0; 32];
    known[0] = 100; // bin 0: 100 peers
    known[1] = 50; // bin 1: 50 peers
    known[2] = 20; // bin 2: 20 peers
    known[3] = 10; // bin 3: 10 peers
    known[4] = 5; // bin 4: 5 >= nominal
    known[5] = 2; // bin 5: 2 < nominal
    assert_eq!(limits.estimate_depth_from_known(&known).get(), 4);

    // Known peers in higher bins -> higher estimated depth
    known[6] = 3; // bin 6: exactly nominal
    assert_eq!(limits.estimate_depth_from_known(&known).get(), 6);

    known[7] = 3; // bin 7: exactly nominal
    assert_eq!(limits.estimate_depth_from_known(&known).get(), 7);
}

#[test]
fn test_effective_depth() {
    let limits = DepthAwareLimits::new(160, 3);

    // No known peers, connected depth 0 -> effective depth = 0
    let empty: Vec<usize> = vec![0; 32];
    assert_eq!(limits.effective_depth(d(0), &empty).get(), 0);

    // Known peers estimate depth 5, connected depth 0
    let mut known = vec![0; 32];
    known[0] = 100;
    known[5] = 3;
    let estimated = limits.estimate_depth_from_known(&known).get();
    assert_eq!(estimated, 5);
    assert_eq!(limits.effective_depth(d(0), &known).get(), 5);

    // Connected depth higher than estimated -> use connected
    assert_eq!(limits.effective_depth(d(7), &known).get(), 7);
}

#[test]
fn test_target_effective() {
    let limits = DepthAwareLimits::new(160, 3);

    // With no known peers and connected depth 0, target_effective falls
    // back to the depth-0 bootstrap target.
    let empty: Vec<usize> = vec![0; 32];
    assert_eq!(
        limits.target_effective(b(5), d(0), &empty),
        DEFAULT_BOOTSTRAP_TARGET
    );

    // With known peers estimating depth 5, get proper allocation
    let mut known = vec![0; 32];
    known[0] = 100;
    known[5] = 3;
    // At depth 5: bin 4 should have linear-tapered target
    let target = limits.target_effective(b(4), d(0), &known);
    assert!(target > 3); // Should be more than nominal due to tapering
}

#[test]
fn test_estimate_depth_projected() {
    let limits = DepthAwareLimits::new(160, 3);

    // 768 peers in bin 0 suggests depth ~8 (3 * 2^8 = 768)
    let mut known = vec![0; 32];
    known[0] = 768;
    // Projects: bin 1 = 384, bin 2 = 192, ..., bin 7 = 6, bin 8 = 3
    let projected = limits.estimate_depth_projected(&known).get();
    assert!((7..=9).contains(&projected), "projected = {}", projected);

    // Fewer peers in bin 0 suggests lower depth
    known[0] = 24; // 24 / 2 = 12, /2 = 6, /2 = 3 -> depth ~3
    let projected = limits.estimate_depth_projected(&known).get();
    assert!((2..=4).contains(&projected), "projected = {}", projected);
}

#[test]
fn test_surplus_below_target() {
    let limits = DepthAwareLimits::new(160, 3);

    // Bin 7 target at depth 8 = 35, connected < target
    assert_eq!(limits.surplus(b(7), d(8), 0), 0);
    assert_eq!(limits.surplus(b(7), d(8), 20), 0);
    assert_eq!(limits.surplus(b(7), d(8), 34), 0);
}

#[test]
fn test_surplus_at_target() {
    let limits = DepthAwareLimits::new(160, 3);

    // Bin 7 target at depth 8 = 35, connected == target
    assert_eq!(limits.surplus(b(7), d(8), 35), 0);
}

#[test]
fn test_surplus_above_target() {
    let limits = DepthAwareLimits::new(160, 3);

    // Bin 7 target at depth 8 = 35, connected > target
    assert_eq!(limits.surplus(b(7), d(8), 40), 5);
    assert_eq!(limits.surplus(b(7), d(8), 36), 1);
}

#[test]
fn test_surplus_neighborhood_always_zero() {
    let limits = DepthAwareLimits::new(160, 3);

    // Neighborhood bins (>= depth) have target MAX, surplus always 0
    assert_eq!(limits.surplus(b(8), d(8), 1000), 0);
    assert_eq!(limits.surplus(b(10), d(8), 500), 0);
}

#[test]
fn test_surplus_at_depth_zero() {
    let limits = DepthAwareLimits::new(160, 3);
    // depth = 0: all bins fill toward bootstrap_target (18); no surplus
    // below it. (Eviction never runs at depth 0 anyway - it scans 0..depth.)

    assert_eq!(limits.surplus(b(0), d(0), 2), 0);
    assert_eq!(limits.surplus(b(0), d(0), 18), 0);
    assert_eq!(limits.surplus(b(0), d(0), 20), 2);
    assert_eq!(limits.surplus(b(7), d(0), 25), 7);
}

#[test]
fn test_surplus_at_depth_transition() {
    let limits = DepthAwareLimits::new(160, 3);

    // At depth 5: bin 4 target = 160 × 5 / 15 = 53
    assert_eq!(limits.surplus(b(4), d(5), 40), 0);
    assert_eq!(limits.surplus(b(4), d(5), 53), 0);
    assert_eq!(limits.surplus(b(4), d(5), 60), 7);

    // At depth 8: bin 4 target = 160 × 5 / 36 = 22
    assert_eq!(limits.surplus(b(4), d(8), 40), 18);
    assert_eq!(limits.surplus(b(4), d(8), 22), 0);
}

#[test]
fn test_snapshot_surplus() {
    let limits = DepthAwareLimits::new(160, 3);

    let snapshot = LimitsSnapshot::capture(&limits, d(8));

    // Bin 7 target = 35
    assert_eq!(snapshot.surplus(b(7), 30), 0);
    assert_eq!(snapshot.surplus(b(7), 35), 0);
    assert_eq!(snapshot.surplus(b(7), 40), 5);

    // Neighborhood
    assert_eq!(snapshot.surplus(b(8), 1000), 0);
}
