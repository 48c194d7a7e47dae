//! Saturation decisions end to end: a bin that is over its ceiling, the
//! standard policy that refuses, and the bootnode policy that nominates the
//! worst peer (lowest reachability, lowest score, oldest `last_seen`).

use std::collections::HashMap;
use vertex_topology::kademlia::config::KademliaConfig;
use vertex_topology::kademlia::limits::DepthAwareLimits;
use vertex_topology::kademlia::saturation::{
    BinPolicy, BootnodePolicy, EvictReason, PeerStats, ReachabilityProvider, RejectionReason,
    SaturationContext, SaturationDecision, StandardPolicy, UnknownReachability,
};
use vertex_topology::primitives::{Bin, NeighborhoodDepth, OverlayAddress, PeerId};
use vertex_topology::reachability::PeerReachability;

fn make_overlay(byte: u8) -> OverlayAddress {
    OverlayAddress::with_first_byte(byte)
}

fn test_peer_id(byte: u8) -> PeerId {
    PeerId::from_bytes(&[byte]).expect("one byte fits")
}

/// Peers in bin 0 at depth 8, one more than its ceiling.
///
/// `DepthAwareLimits::new(160, 3)` -> target(0, 8) = max(160/36, 3) = 4,
/// ceiling = target + inbound_headroom(4) = 8. We populate the bin with
/// 9 peers and effective_count = 9 so the policies see over-saturation.
const N_PEERS_OVER_CEILING: usize = 9;

fn peer(byte: u8, score: i64, last_seen: u64) -> PeerStats {
    PeerStats {
        peer_id: test_peer_id(byte),
        overlay: make_overlay(byte),
        score,
        last_seen,
    }
}

/// Bin 0 at depth 8 takes no further inbound peer.
fn over_ceiling(limits: &DepthAwareLimits, count: usize) -> bool {
    let bin = Bin::new(0).expect("valid bin");
    let depth = NeighborhoodDepth::new(Bin::new(8).expect("valid bin"));
    !limits.should_accept_inbound(bin, depth, count)
}

#[test]
fn standard_policy_rejects_oversaturated_bin() {
    let cfg = KademliaConfig::with_limits(DepthAwareLimits::new(160, 3));
    let limits = &cfg.limits;
    let reach = UnknownReachability;

    let peers: Vec<PeerStats> = (0..N_PEERS_OVER_CEILING as u8)
        .map(|i| peer(0x80 + i, 0, 100))
        .collect();

    let ctx = SaturationContext::new(0, over_ceiling(limits, peers.len()), &peers, &reach);
    assert!(ctx.oversaturated, "test setup should over-saturate");
    assert_eq!(
        StandardPolicy.decide(&ctx),
        SaturationDecision::Reject(RejectionReason::BinFull),
        "non-bootnode policy must reject when bin is over-saturated"
    );
}

#[test]
fn bootnode_policy_evicts_worst_peer_in_oversaturated_bin() {
    let cfg = KademliaConfig::with_limits(DepthAwareLimits::new(160, 3));
    let limits = &cfg.limits;
    let reach = UnknownReachability;

    // Build N+1 peers with distinct scores; the lowest-score one is the
    // expected eviction target under the `(reach, score, last_seen,
    // peer_id)` ordering.
    let worst = peer(0x80, -90, 100);
    let middle: Vec<PeerStats> = (1..N_PEERS_OVER_CEILING as u8)
        .map(|i| peer(0x80 + i, (i as i64) * 10, 100))
        .collect();
    let mut peers = vec![worst];
    peers.extend(middle);

    let ctx = SaturationContext::new(0, over_ceiling(limits, peers.len()), &peers, &reach);
    match BootnodePolicy.decide(&ctx) {
        SaturationDecision::AcceptEvict(c) => {
            assert_eq!(c.overlay, worst.overlay, "evictee must be lowest-scored");
            assert_eq!(c.peer_id, worst.peer_id);
            assert_eq!(c.reason, EvictReason::LowestReachability);
        }
        other => panic!("expected AcceptEvict, got {other:?}"),
    }
}

#[test]
fn bootnode_policy_reachability_dominates_score() {
    // Verify the dominant axis: even with the best score, an Unknown
    // peer is evicted before a reachable peer with a worse score. To
    // isolate the reachability axis, every peer in the bin is marked
    // reachable *except* `unknown_peer`. That peer has the highest score
    // among them; ordering by score alone would keep it. Only the
    // reachability axis can flip the choice — which is the contract
    // bootnode mode depends on.

    struct StubReach(HashMap<PeerId, PeerReachability>);
    impl ReachabilityProvider for StubReach {
        fn status_of(&self, peer: PeerId) -> PeerReachability {
            self.reachability(&peer)
        }

        fn reachability(&self, peer: &PeerId) -> PeerReachability {
            self.0.get(peer).copied().unwrap_or_default()
        }
    }

    let cfg = KademliaConfig::with_limits(DepthAwareLimits::new(160, 3));
    let limits = &cfg.limits;

    // The one Unknown peer has the best score; everyone else is reachable
    // but with worse scores. Lowest score among reachable peers is the
    // would-be victim if score dominated — but unknown < reachable must
    // override that.
    let unknown_peer = peer(0x80, 90, 100);
    let public_peers: Vec<PeerStats> = (1..N_PEERS_OVER_CEILING as u8)
        .map(|i| peer(0x80 + i, -((i as i64) * 10), 100))
        .collect();
    let mut peers = vec![unknown_peer];
    peers.extend(public_peers.iter().copied());

    let mut map = HashMap::new();
    for p in &public_peers {
        map.insert(p.peer_id, PeerReachability::Reachable);
    }
    let reach = StubReach(map);

    let ctx = SaturationContext::new(0, over_ceiling(limits, peers.len()), &peers, &reach);
    match BootnodePolicy.decide(&ctx) {
        SaturationDecision::AcceptEvict(c) => {
            assert_eq!(
                c.overlay, unknown_peer.overlay,
                "Unknown peer must be evicted before any reachable peer, \
                 regardless of score"
            );
        }
        other => panic!("expected AcceptEvict, got {other:?}"),
    }
}

#[test]
fn standard_and_bootnode_agree_when_under_ceiling() {
    let cfg = KademliaConfig::with_limits(DepthAwareLimits::new(160, 3));
    let limits = &cfg.limits;
    let reach = UnknownReachability;
    let peers: Vec<PeerStats> = (0..3).map(|i| peer(0x80 + i, 0, 100)).collect();
    let ctx = SaturationContext::new(0, over_ceiling(limits, 3), &peers, &reach);
    assert_eq!(StandardPolicy.decide(&ctx), SaturationDecision::Accept);
    assert_eq!(BootnodePolicy.decide(&ctx), SaturationDecision::Accept);
}
