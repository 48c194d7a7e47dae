use vertex_topology::primitives::PeerId;
use vertex_topology::reachability::{
    PeerReachability, ReachabilityTracker, FAILURE_DECAY_SECS, FAILURE_THRESHOLD,
};
use vertex_topology::runtime::entropy::fill_bytes;
use vertex_topology::time::{Duration, Instant};


const NOW: Instant = Instant { nanos: 10_000_000_000_000 };

fn random_peer() -> PeerId {
    let mut bytes = [0u8; 34];
    fill_bytes(&mut bytes);
    PeerId::from_bytes(&bytes).expect("thirty-four bytes fit")
}

#[test]
fn unknown_by_default() {
    let mut tracker = ReachabilityTracker::new();
    let peer = random_peer();
    assert_eq!(tracker.status(&peer), PeerReachability::Unknown);
    assert!(!tracker.contains(&peer));
    assert!(tracker.is_empty());
}

#[test]
fn handshake_success_is_liveness_not_public() {
    // Liveness (alive on the current connection) must not be mistaken for
    // public reachability: a peer that merely completed a handshake stays
    // Unknown until a dial-back or outbound-dial signal verifies it.
    let mut tracker = ReachabilityTracker::new();
    let peer = random_peer();
    tracker.update_from_handshake(peer, true, NOW);
    assert_eq!(tracker.status(&peer), PeerReachability::Unknown);
    assert!(tracker.contains(&peer));
    assert_eq!(tracker.len(), 1);
}

#[test]
fn ping_success_is_liveness_not_public() {
    let mut tracker = ReachabilityTracker::new();
    let peer = random_peer();
    tracker.update_from_ping(peer, true, NOW);
    assert_eq!(tracker.status(&peer), PeerReachability::Unknown);
}

#[test]
fn single_handshake_failure_stays_unknown() {
    let mut tracker = ReachabilityTracker::new();
    let peer = random_peer();
    tracker.update_from_handshake(peer, false, NOW);
    assert_eq!(tracker.status(&peer), PeerReachability::Unknown);
}

#[test]
fn repeated_handshake_failures_flip_to_private() {
    let mut tracker = ReachabilityTracker::new();
    let peer = random_peer();
    for _ in 0..FAILURE_THRESHOLD {
        tracker.update_from_handshake(peer, false, NOW);
    }
    assert_eq!(tracker.status(&peer), PeerReachability::Unreachable);
}

#[test]
fn liveness_success_resets_failure_counter() {
    let mut tracker = ReachabilityTracker::new();
    let peer = random_peer();
    for _ in 0..(FAILURE_THRESHOLD - 1) {
        tracker.update_from_handshake(peer, false, NOW);
    }
    // A success below the threshold clears the run, so a later single
    // failure must not flip to Unreachable.
    tracker.update_from_handshake(peer, true, NOW);
    assert_eq!(tracker.status(&peer), PeerReachability::Unknown);
    tracker.update_from_handshake(peer, false, NOW);
    assert_eq!(tracker.status(&peer), PeerReachability::Unknown);
}

#[test]
fn liveness_success_recovers_private_to_unknown() {
    // A peer demoted to Unreachable that starts responding again recovers to
    // Unknown (alive but not re-verified as reachable).
    let mut tracker = ReachabilityTracker::new();
    let peer = random_peer();
    for _ in 0..FAILURE_THRESHOLD {
        tracker.update_from_ping(peer, false, NOW);
    }
    assert_eq!(tracker.status(&peer), PeerReachability::Unreachable);
    tracker.update_from_ping(peer, true, NOW);
    assert_eq!(tracker.status(&peer), PeerReachability::Unknown);
}

#[test]
fn liveness_success_does_not_demote_public() {
    // A verified-Reachable peer stays Reachable across ongoing liveness traffic.
    let mut tracker = ReachabilityTracker::new();
    let peer = random_peer();
    tracker.on_autonat_peer_confirmed(peer, NOW);
    tracker.update_from_ping(peer, true, NOW);
    tracker.update_from_handshake(peer, true, NOW);
    assert_eq!(tracker.status(&peer), PeerReachability::Reachable);
}

#[test]
fn repeated_ping_failures_flip_to_private() {
    let mut tracker = ReachabilityTracker::new();
    let peer = random_peer();
    for _ in 0..FAILURE_THRESHOLD {
        tracker.update_from_ping(peer, false, NOW);
    }
    assert_eq!(tracker.status(&peer), PeerReachability::Unreachable);
}

#[test]
fn ping_and_handshake_share_one_failure_streak() {
    // Both signals feed the same counter; mixed failures cross the
    // threshold together.
    let mut tracker = ReachabilityTracker::new();
    let peer = random_peer();
    tracker.update_from_handshake(peer, false, NOW);
    for _ in 0..(FAILURE_THRESHOLD - 1) {
        tracker.update_from_ping(peer, false, NOW);
    }
    assert_eq!(tracker.status(&peer), PeerReachability::Unreachable);
}

#[test]
fn forget_removes_record() {
    let mut tracker = ReachabilityTracker::new();
    let peer = random_peer();
    tracker.on_autonat_peer_confirmed(peer, NOW);
    let dropped = tracker.forget(&peer);
    assert_eq!(dropped, Some(PeerReachability::Reachable));
    assert!(!tracker.contains(&peer));
    assert_eq!(tracker.status(&peer), PeerReachability::Unknown);
}

#[test]
fn forget_returns_none_for_unknown_peer() {
    let mut tracker = ReachabilityTracker::new();
    let peer = random_peer();
    assert!(tracker.forget(&peer).is_none());
}

#[test]
fn ord_ranks_reachable_above_unknown_above_unreachable() {
    // The eviction tiebreak relies on this ordering: least-reachable
    // (the Ord minimum) is evicted first.
    let mut tracker = ReachabilityTracker::new();
    let reachable_peer = random_peer();
    let unreachable_peer = random_peer();
    let unknown_peer = random_peer();

    tracker.on_autonat_peer_confirmed(reachable_peer, NOW);
    for _ in 0..FAILURE_THRESHOLD {
        tracker.update_from_handshake(unreachable_peer, false, NOW);
    }

    assert!(tracker.status(&reachable_peer) > tracker.status(&unknown_peer));
    assert!(tracker.status(&unknown_peer) > tracker.status(&unreachable_peer));
}

#[test]
fn autonat_peer_confirmed_promotes_to_public() {
    // A successful AutoNAT v2 dial-back promotes the verified peer; the
    // node wiring forwards each such event through this entry point.
    let mut tracker = ReachabilityTracker::new();
    let peer = random_peer();
    tracker.on_autonat_peer_confirmed(peer, NOW);
    assert_eq!(tracker.status(&peer), PeerReachability::Reachable);
}

#[test]
fn outbound_reachable_promotes_to_public() {
    // Successfully dialing a peer at a public address proves reachability.
    let mut tracker = ReachabilityTracker::new();
    let peer = random_peer();
    tracker.on_outbound_reachable(peer, NOW);
    assert_eq!(tracker.status(&peer), PeerReachability::Reachable);
}

#[test]
fn autonat_peer_confirmed_clears_handshake_failures() {
    let mut tracker = ReachabilityTracker::new();
    let peer = random_peer();
    for _ in 0..(FAILURE_THRESHOLD - 1) {
        tracker.update_from_handshake(peer, false, NOW);
    }
    tracker.on_autonat_peer_confirmed(peer, NOW);
    assert_eq!(tracker.status(&peer), PeerReachability::Reachable);
    // Failure counter is reset — a single further failure must not flip.
    tracker.update_from_handshake(peer, false, NOW);
    assert_eq!(tracker.status(&peer), PeerReachability::Reachable);
}

#[test]
fn failure_counter_decays_after_window() {
    // Three failures spaced over a long window must not cumulatively
    // cross the threshold; only failures within FAILURE_DECAY
    // of each other count.
    let mut tracker = ReachabilityTracker::new();
    let peer = random_peer();
    tracker.update_from_handshake(peer, false, NOW);

    // The next call sees the first failure outside the decay window.
    let later = NOW.plus(Duration::from_secs(FAILURE_DECAY_SECS * 2));

    for _ in 0..(FAILURE_THRESHOLD - 1) {
        tracker.update_from_handshake(peer, false, later);
    }
    // The first failure decayed; only FAILURE_THRESHOLD - 1
    // recent failures remain, so the peer stays Unknown.
    assert_eq!(tracker.status(&peer), PeerReachability::Unknown);
}

#[test]
fn ord_total_order() {
    assert!(PeerReachability::Reachable > PeerReachability::Unknown);
    assert!(PeerReachability::Unknown > PeerReachability::Unreachable);
}

#[test]
fn last_updated_changes_on_status_change_only() {
    let mut tracker = ReachabilityTracker::new();
    let peer = random_peer();
    tracker.on_autonat_peer_confirmed(peer, NOW);
    let Some(t1) = tracker.last_updated(&peer) else {
        panic!("expected last_updated to be set after promotion to Reachable");
    };

    // Reaffirming Reachable does not change `last_updated`.
    let later = NOW.plus(Duration::from_millis(2));
    tracker.on_autonat_peer_confirmed(peer, later);
    let Some(t2) = tracker.last_updated(&peer) else {
        panic!("expected last_updated to remain set");
    };
    assert_eq!(t1, t2);

    // A failure counter bump without status change also leaves it alone.
    tracker.update_from_handshake(peer, false, later);
    let Some(t3) = tracker.last_updated(&peer) else {
        panic!("expected last_updated to remain set");
    };
    assert_eq!(t3, t1);
}
