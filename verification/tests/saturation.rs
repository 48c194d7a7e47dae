use std::collections::HashMap;
use vertex_topology::kademlia::saturation::{
    BinPolicy, BootnodePolicy, EvictReason, PeerStats, ReachabilityProvider, RejectionReason,
    SaturationContext, SaturationDecision, StandardPolicy, UnknownReachability,
};
use vertex_topology::primitives::{OverlayAddress, PeerId};
use vertex_topology::reachability::PeerReachability;

fn make_overlay(byte: u8) -> OverlayAddress {
    OverlayAddress::with_first_byte(byte)
}

fn test_peer_id(byte: u8) -> PeerId {
    PeerId::from_bytes(&[byte]).expect("one byte fits")
}

fn peer_stats(byte: u8, score: i64, last_seen: u64) -> PeerStats {
    PeerStats {
        peer_id: test_peer_id(byte),
        overlay: make_overlay(byte),
        score,
        last_seen,
    }
}

/// Test provider seeded with explicit per-peer reachability.
struct StubReachability(HashMap<PeerId, PeerReachability>);

impl StubReachability {
    fn new() -> Self {
        Self(HashMap::new())
    }

    fn with(mut self, peer: PeerId, r: PeerReachability) -> Self {
        self.0.insert(peer, r);
        self
    }
}

impl ReachabilityProvider for StubReachability {
    fn status_of(&self, peer: PeerId) -> PeerReachability {
        self.reachability(&peer)
    }

    fn reachability(&self, peer: &PeerId) -> PeerReachability {
        self.0.get(peer).copied().unwrap_or_default()
    }
}

#[test]
fn standard_policy_accepts_when_under_ceiling() {
    let reach = UnknownReachability;
    let peers: Vec<PeerStats> = Vec::new();
    let ctx = SaturationContext::new(0, false, &peers, &reach);
    assert_eq!(StandardPolicy.decide(&ctx), SaturationDecision::Accept);
}

#[test]
fn standard_policy_rejects_when_over_ceiling() {
    let reach = UnknownReachability;
    let peers: Vec<PeerStats> = (0..9).map(|i| peer_stats(0x80 + i, 0, 0)).collect();
    let ctx = SaturationContext::new(0, true, &peers, &reach);
    assert_eq!(
        StandardPolicy.decide(&ctx),
        SaturationDecision::Reject(RejectionReason::BinFull),
    );
}

#[test]
fn bootnode_policy_accepts_when_under_ceiling() {
    let reach = UnknownReachability;
    let peers: Vec<PeerStats> = Vec::new();
    let ctx = SaturationContext::new(0, false, &peers, &reach);
    assert_eq!(BootnodePolicy.decide(&ctx), SaturationDecision::Accept);
}

#[test]
fn bootnode_policy_evicts_lowest_score_when_over() {
    let reach = UnknownReachability;

    let worst = peer_stats(0x81, -50, 100);
    let middle = peer_stats(0x82, 0, 100);
    let best = peer_stats(0x83, 50, 100);
    let peers = vec![best, middle, worst];

    let ctx = SaturationContext::new(0, true, &peers, &reach);
    match BootnodePolicy.decide(&ctx) {
        SaturationDecision::AcceptEvict(c) => {
            assert_eq!(c.overlay, worst.overlay);
            assert_eq!(c.peer_id, worst.peer_id);
            assert_eq!(c.reason, EvictReason::LowestReachability);
        }
        other => panic!("expected AcceptEvict, got {other:?}"),
    }
}

#[test]
fn bootnode_policy_falls_back_when_no_peers_supplied() {
    let reach = UnknownReachability;
    let peers: Vec<PeerStats> = Vec::new();
    let ctx = SaturationContext::new(0, true, &peers, &reach);
    assert_eq!(
        BootnodePolicy.decide(&ctx),
        SaturationDecision::Reject(RejectionReason::BinFull),
    );
}

#[test]
fn eviction_tiebreak_uses_last_seen_then_peer_id() {
    let reach = UnknownReachability;

    let p_old = peer_stats(0x81, 0, 100);
    let p_new = peer_stats(0x82, 0, 200);
    let peers = vec![p_new, p_old];

    let ctx = SaturationContext::new(0, true, &peers, &reach);
    match BootnodePolicy.decide(&ctx) {
        SaturationDecision::AcceptEvict(c) => assert_eq!(c.overlay, p_old.overlay),
        other => panic!("expected AcceptEvict, got {other:?}"),
    }
}

#[test]
fn reachability_dominates_score() {
    // The highest-score peer is reachable, the lowest is not. The policy
    // evicts the unreachable one whatever the score gap is.
    let good_score_public = peer_stats(0x81, 75, 200);
    let low_score_private = peer_stats(0x82, -10, 200);
    let peers = vec![good_score_public, low_score_private];
    let reach = StubReachability::new()
        .with(good_score_public.peer_id, PeerReachability::Reachable)
        .with(low_score_private.peer_id, PeerReachability::Unreachable);

    let ctx = SaturationContext::new(0, true, &peers, &reach);
    match BootnodePolicy.decide(&ctx) {
        SaturationDecision::AcceptEvict(c) => {
            assert_eq!(c.overlay, low_score_private.overlay);
        }
        other => panic!("expected AcceptEvict, got {other:?}"),
    }
}

#[test]
fn private_evicted_before_unknown() {
    // Unreachable ranks below unknown, and unknown below reachable: in a bin
    // with one of each, the unreachable one is the eviction target.
    let private = peer_stats(0x81, 50, 100);
    let unknown = peer_stats(0x82, 0, 100);
    let public = peer_stats(0x83, -50, 100);
    let peers = vec![public, unknown, private];

    let reach = StubReachability::new()
        .with(private.peer_id, PeerReachability::Unreachable)
        .with(public.peer_id, PeerReachability::Reachable);

    let ctx = SaturationContext::new(0, true, &peers, &reach);
    match BootnodePolicy.decide(&ctx) {
        SaturationDecision::AcceptEvict(c) => assert_eq!(c.overlay, private.overlay),
        other => panic!("expected AcceptEvict, got {other:?}"),
    }
}

#[test]
fn both_policies_accept_when_not_oversaturated() {
    let reach = UnknownReachability;
    let peers: Vec<PeerStats> = (0..3).map(|i| peer_stats(0x80 + i, 0, 100)).collect();
    let ctx = SaturationContext::new(0, false, &peers, &reach);
    assert_eq!(StandardPolicy.decide(&ctx), SaturationDecision::Accept);
    assert_eq!(BootnodePolicy.decide(&ctx), SaturationDecision::Accept);
}
