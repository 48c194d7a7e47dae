use vertex_topology::kademlia::candidates::{CandidateSelector, CandidateSnapshot};
use vertex_topology::kademlia::limits::{DepthAwareLimits, LimitsSnapshot};
use vertex_topology::kademlia::peers::{PeerBook, PeerRecord};
use vertex_topology::kademlia::proximity_index::ProximityIndex;
use vertex_topology::primitives::{Bin, NeighborhoodDepth, OverlayAddress};

fn b(n: u8) -> Bin {
    Bin::new(n).expect("valid bin")
}

fn d(n: u8) -> NeighborhoodDepth {
    NeighborhoodDepth::new(b(n))
}

fn make_overlay(n: u8) -> OverlayAddress {
    OverlayAddress::with_first_byte(n)
}


fn test_proximity_index() -> ProximityIndex {
    ProximityIndex::new(OverlayAddress::from([0u8; 32]), 31, 0)
}

#[test]
fn test_snapshot_eligibility() {

    let mut peer_manager = PeerBook::new(OverlayAddress::with_first_byte(0x00), 31);

    let mut in_progress = Vec::new();
    in_progress.push(make_overlay(1));

    let mut queued = Vec::new();
    queued.push(make_overlay(5));

    let limits = DepthAwareLimits::new(160, 3);

    let snapshot = CandidateSnapshot {
        limits: LimitsSnapshot::capture(&limits, d(8)),
        in_progress,
        queued,
    };

    // Eligible peer
    assert!(snapshot.is_eligible(&make_overlay(6), &peer_manager));

    // In-progress
    assert!(!snapshot.is_eligible(&make_overlay(1), &peer_manager));

    // Queued
    assert!(!snapshot.is_eligible(&make_overlay(5), &peer_manager));

    // Banned peer
    let mut banned = PeerRecord::discovered(make_overlay(2));
    banned.banned = true;
    peer_manager.store(banned);
    assert!(!snapshot.is_eligible(&make_overlay(2), &peer_manager));
}

#[test]
fn test_connected_peer_rejected_by_selector() {
    let limits = DepthAwareLimits::new(160, 3);
    let snapshot = CandidateSnapshot {
        limits: LimitsSnapshot::capture(&limits, d(0)),
        in_progress: Vec::new(),
        queued: Vec::new(),
    };

    let mut connected = test_proximity_index();
    let peer = make_overlay(4);
    let _ = connected.add(peer);

    let mut selector = CandidateSelector::new(&snapshot, &connected, 10);

    // Connected peer should be rejected
    assert!(!selector.try_add(peer));
    assert_eq!(selector.len(), 0);

    // Non-connected peer should be accepted
    assert!(selector.try_add(make_overlay(6)));
    assert_eq!(selector.len(), 1);
}

#[test]
fn test_selector_prevents_duplicates() {
    let limits = DepthAwareLimits::new(160, 3);
    let snapshot = CandidateSnapshot {
        limits: LimitsSnapshot::capture(&limits, d(0)),
        in_progress: Vec::new(),
        queued: Vec::new(),
    };

    let connected = test_proximity_index();
    let mut selector = CandidateSelector::new(&snapshot, &connected, 10);

    let peer = make_overlay(1);
    assert!(selector.try_add(peer));
    assert!(!selector.try_add(peer)); // Duplicate

    assert_eq!(selector.len(), 1);
}

#[test]
fn test_selector_respects_max() {
    let limits = DepthAwareLimits::new(160, 3);
    let snapshot = CandidateSnapshot {
        limits: LimitsSnapshot::capture(&limits, d(0)),
        in_progress: Vec::new(),
        queued: Vec::new(),
    };

    let connected = test_proximity_index();
    let mut selector = CandidateSelector::new(&snapshot, &connected, 2);

    assert!(selector.try_add(make_overlay(1)));
    assert!(selector.try_add(make_overlay(2)));
    assert!(!selector.try_add(make_overlay(3))); // At capacity

    assert!(selector.is_full());
    assert_eq!(selector.remaining(), 0);
}

#[test]
fn test_bin_selection_tracking() {
    let limits = DepthAwareLimits::new(160, 3);
    let snapshot = CandidateSnapshot {
        limits: LimitsSnapshot::capture(&limits, d(0)),
        in_progress: Vec::new(),
        queued: Vec::new(),
    };

    let connected = test_proximity_index();
    let mut selector = CandidateSelector::new(&snapshot, &connected, 10);

    assert_eq!(selector.bin_selected(b(0)), 0);
    assert_eq!(selector.bin_selected(b(5)), 0);

    // After adding peers, bin counts should update
    // Note: try_add doesn't track bin (use try_add_with_bin_capacity for that)
    selector.try_add(make_overlay(1));
    assert_eq!(selector.bin_selected(b(0)), 0); // try_add doesn't track bins

}
