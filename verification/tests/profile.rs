use vertex_topology::kademlia::config::KademliaConfig;
use vertex_topology::kademlia::limits::DEFAULT_BOOTSTRAP_TARGET;
use vertex_topology::profile::{ConnectionProfile, PacingProfile};
use vertex_topology::time::Duration;

#[test]
fn balanced_matches_preprofile_defaults() {
    // The numbers of the balanced profile equal the config defaults, so a
    // node without a profile behaves like a balanced one.
    let pacing = PacingProfile::from(ConnectionProfile::Balanced);
    let defaults = KademliaConfig::default();

    assert_eq!(pacing.evaluation_interval, Duration::from_secs(5));
    assert_eq!(
        pacing.max_neighbor_candidates,
        defaults.max_neighbor_candidates
    );
    assert_eq!(
        pacing.max_balanced_candidates,
        defaults.max_balanced_candidates
    );
    assert_eq!(pacing.bootstrap_target, DEFAULT_BOOTSTRAP_TARGET);
    assert_eq!(pacing.dial_concurrency, 256);
}

#[test]
fn profiles_order_by_aggressiveness() {
    let aggressive = PacingProfile::from(ConnectionProfile::Aggressive);
    let balanced = PacingProfile::from(ConnectionProfile::Balanced);
    let conservative = PacingProfile::from(ConnectionProfile::Conservative);

    assert!(aggressive.evaluation_interval.as_nanos() < balanced.evaluation_interval.as_nanos());
    assert!(balanced.evaluation_interval.as_nanos() < conservative.evaluation_interval.as_nanos());

    assert!(aggressive.bootstrap_target > balanced.bootstrap_target);
    assert!(balanced.bootstrap_target > conservative.bootstrap_target);

    assert!(aggressive.max_neighbor_candidates > balanced.max_neighbor_candidates);
    assert!(balanced.max_neighbor_candidates > conservative.max_neighbor_candidates);

    assert!(aggressive.dial_concurrency >= balanced.dial_concurrency);
    assert!(balanced.dial_concurrency > conservative.dial_concurrency);
}
