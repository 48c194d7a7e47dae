//! Typed saturation decisions and bin-admission policies.
//!
//! A [`SaturationDecision`] tells apart an outright rejection, a clean accept,
//! and an accept for which an existing peer gives up its slot.
//!
//! * [`StandardPolicy`] rejects when a bin is over-saturated and accepts
//!   otherwise.
//! * [`BootnodePolicy`] nominates the lowest-ranked peer of an over-saturated
//!   bin, so that its slot goes to the newcomer. Eviction is how a public
//!   bootnode stays reachable to new joiners under sustained load.
//!
//! The eviction order is ascending by `(reachability rank, score, last_seen,
//! peer_id)`: a confirmed-reachable peer is never evicted in favour of an
//! unknown one, whatever its score.

use crate::primitives::{OverlayAddress, PeerId};
use crate::reachability::PeerReachability;
use vstd::prelude::*;

verus! {

/// Looks up the reachability status of a peer.
pub trait ReachabilityProvider {
    /// Reachability status of `peer`.
    spec fn status_of(&self, peer: PeerId) -> PeerReachability;

    /// Reachability status of `peer`.
    fn reachability(&self, peer: &PeerId) -> (status: PeerReachability)
        ensures
            status == self.status_of(*peer),
    ;
}

/// Default provider: every peer is [`PeerReachability::Unknown`].
#[derive(Clone, Copy, Debug)]
pub struct UnknownReachability;

impl Default for UnknownReachability {
    fn default() -> (provider: UnknownReachability) {
        UnknownReachability
    }
}

impl ReachabilityProvider for UnknownReachability {
    open spec fn status_of(&self, _peer: PeerId) -> PeerReachability {
        PeerReachability::Unknown
    }

    fn reachability(&self, _peer: &PeerId) -> (status: PeerReachability) {
        PeerReachability::Unknown
    }
}

impl<T: ReachabilityProvider> ReachabilityProvider for &T {
    open spec fn status_of(&self, peer: PeerId) -> PeerReachability {
        (**self).status_of(peer)
    }

    fn reachability(&self, peer: &PeerId) -> (status: PeerReachability) {
        (**self).reachability(peer)
    }
}

/// Why a peer was refused.
#[derive(Clone, Copy, Debug, PartialEq, Eq, Structural, Hash)]
#[non_exhaustive]
pub enum RejectionReason {
    /// The bin is at or above its ceiling and the policy does not evict.
    BinFull,
    /// The neighborhood bin is full. Neighborhood bins are unbounded, so no
    /// policy gives this reason.
    NeighborhoodFull,
    /// The total connected-peer count is at or above its ceiling.
    AboveCapacity,
}

impl RejectionReason {
    /// The metric label of the reason.
    pub fn label(self) -> (label: &'static str)
        ensures
            label@ == (match self {
                RejectionReason::BinFull => "bin_full"@,
                RejectionReason::NeighborhoodFull => "neighborhood_full"@,
                RejectionReason::AboveCapacity => "above_capacity"@,
            }),
    {
        match self {
            RejectionReason::BinFull => "bin_full",
            RejectionReason::NeighborhoodFull => "neighborhood_full",
            RejectionReason::AboveCapacity => "above_capacity",
        }
    }
}

/// Why a particular peer was nominated for eviction.
#[derive(Clone, Copy, Debug, PartialEq, Eq, Structural, Hash)]
#[non_exhaustive]
pub enum EvictReason {
    /// The peer ranked lowest by the eviction order.
    LowestReachability,
}

impl EvictReason {
    /// The metric label of the reason.
    pub fn label(self) -> (label: &'static str)
        ensures
            label@ == "lowest_reachability"@,
    {
        match self {
            EvictReason::LowestReachability => "lowest_reachability",
        }
    }
}

/// A peer nominated for eviction so an incoming connection can take its slot.
#[derive(Clone, Copy, Debug, PartialEq, Eq, Structural)]
pub struct EvictionCandidate {
    pub peer_id: PeerId,
    pub overlay: OverlayAddress,
    pub reason: EvictReason,
}

/// Outcome of a [`BinPolicy::decide`] call.
#[derive(Clone, Copy, Debug, PartialEq, Eq, Structural)]
#[non_exhaustive]
pub enum SaturationDecision {
    /// A slot is available; accept the peer without eviction.
    Accept,
    /// The bin is full; accept the peer after evicting the nominated one.
    AcceptEvict(EvictionCandidate),
    /// Refuse the peer.
    Reject(RejectionReason),
}

/// What the policy needs to rank a peer for eviction.
#[derive(Clone, Copy, Debug, PartialEq, Eq, Structural)]
pub struct PeerStats {
    pub peer_id: PeerId,
    pub overlay: OverlayAddress,
    /// Current peer score as an ordering key. Lower is worse.
    pub score: i64,
    /// Unix-seconds timestamp of the last successful observation. Older is
    /// worse.
    pub last_seen: u64,
}

/// Whether `a` is evicted before `b`.
pub open spec fn evicted_before<R: ReachabilityProvider>(
    provider: R,
    a: PeerStats,
    b: PeerStats,
) -> bool {
    let ra = provider.status_of(a.peer_id).spec_rank();
    let rb = provider.status_of(b.peer_id).spec_rank();
    ||| ra < rb
    ||| ra == rb && a.score < b.score
    ||| ra == rb && a.score == b.score && a.last_seen < b.last_seen
    ||| ra == rb && a.score == b.score && a.last_seen == b.last_seen && a.peer_id.spec_precedes(
        b.peer_id,
    )
}

/// Peer `i` is the first one that none is evicted before.
pub open spec fn is_worst_peer<R: ReachabilityProvider>(
    provider: R,
    peers: Seq<PeerStats>,
    i: int,
) -> bool {
    &&& 0 <= i < peers.len()
    &&& forall|j: int|
        #![trigger peers[j]]
        0 <= j < peers.len() ==> !evicted_before(provider, peers[j], peers[i])
    &&& forall|j: int| #![trigger peers[j]] 0 <= j < i ==> evicted_before(
        provider,
        peers[i],
        peers[j],
    )
}

/// The nomination of a peer.
pub open spec fn nomination(peer: PeerStats) -> EvictionCandidate {
    EvictionCandidate {
        peer_id: peer.peer_id,
        overlay: peer.overlay,
        reason: EvictReason::LowestReachability,
    }
}

/// What a policy needs to decide for a single bin.
pub struct SaturationContext<'a, R: ReachabilityProvider> {
    /// Target bin index for the incoming peer.
    pub bin: u8,
    /// The bin is at or above its inbound ceiling. The caller computes this
    /// against its own depth-aware limits.
    pub oversaturated: bool,
    /// Per-peer stats for the bin, in arbitrary order.
    pub bin_peers: &'a [PeerStats],
    /// Reachability lookup; the dominant eviction key.
    pub reachability: &'a R,
}

impl<'a, R: ReachabilityProvider> SaturationContext<'a, R> {
    /// Build a context from its parts.
    pub fn new(
        bin: u8,
        oversaturated: bool,
        bin_peers: &'a [PeerStats],
        reachability: &'a R,
    ) -> (context: SaturationContext<'a, R>)
        ensures
            context.bin == bin,
            context.oversaturated == oversaturated,
            context.bin_peers == bin_peers,
            context.reachability == reachability,
    {
        SaturationContext { bin, oversaturated, bin_peers, reachability }
    }

    fn comes_before(&self, a: &PeerStats, b: &PeerStats) -> (before: bool)
        ensures
            before == evicted_before(*self.reachability, *a, *b),
    {
        let ra: u8 = self.reachability.reachability(&a.peer_id).rank();
        let rb: u8 = self.reachability.reachability(&b.peer_id).rank();
        ra < rb || (ra == rb && (a.score < b.score || (a.score == b.score && (a.last_seen
            < b.last_seen || (a.last_seen == b.last_seen && a.peer_id.precedes(&b.peer_id))))))
    }

    /// The worst peer of the bin by the eviction order, or `None` when the bin
    /// lists no peers.
    pub fn worst_peer(&self) -> (worst: Option<EvictionCandidate>)
        ensures
            self.bin_peers.len() == 0 ==> worst is None,
            self.bin_peers.len() > 0 ==> worst is Some,
            forall|i: int|
                #![trigger self.bin_peers@[i]]
                is_worst_peer(*self.reachability, self.bin_peers@, i) ==> worst == Some(
                    nomination(self.bin_peers@[i]),
                ),
            worst is Some ==> exists|i: int|
                #![trigger self.bin_peers@[i]]
                is_worst_peer(*self.reachability, self.bin_peers@, i) && worst == Some(
                    nomination(self.bin_peers@[i]),
                ),
    {
        if self.bin_peers.len() == 0 {
            return None;
        }
        let mut worst: usize = 0;
        let mut k: usize = 1;
        while k < self.bin_peers.len()
            invariant
                1 <= k <= self.bin_peers.len(),
                worst < k,
                forall|j: int|
                    #![trigger self.bin_peers@[j]]
                    0 <= j < k ==> !evicted_before(
                        *self.reachability,
                        self.bin_peers@[j],
                        self.bin_peers@[worst as int],
                    ),
                forall|j: int|
                    #![trigger self.bin_peers@[j]]
                    0 <= j < worst ==> evicted_before(
                        *self.reachability,
                        self.bin_peers@[worst as int],
                        self.bin_peers@[j],
                    ),
            decreases self.bin_peers.len() - k,
        {
            if self.comes_before(&self.bin_peers[k], &self.bin_peers[worst]) {
                worst = k;
            }
            k = k + 1;
        }
        let peer: PeerStats = self.bin_peers[worst];
        proof {
            assert(is_worst_peer(*self.reachability, self.bin_peers@, worst as int));
            assert forall|i: int|
                #![trigger self.bin_peers@[i]]
                is_worst_peer(*self.reachability, self.bin_peers@, i) implies i == worst by {
                if i < worst {
                    assert(evicted_before(
                        *self.reachability,
                        self.bin_peers@[worst as int],
                        self.bin_peers@[i],
                    ));
                }
                if worst < i {
                    assert(evicted_before(
                        *self.reachability,
                        self.bin_peers@[i],
                        self.bin_peers@[worst as int],
                    ));
                }
            }
        }
        Some(
            EvictionCandidate {
                peer_id: peer.peer_id,
                overlay: peer.overlay,
                reason: EvictReason::LowestReachability,
            },
        )
    }
}

/// Maps a [`SaturationContext`] to a [`SaturationDecision`].
pub trait BinPolicy {
    /// Decide whether to accept a peer whose target bin `ctx` describes.
    fn decide<R: ReachabilityProvider>(&self, ctx: &SaturationContext<'_, R>) -> (decision:
        SaturationDecision)
        ensures
            !ctx.oversaturated ==> decision == SaturationDecision::Accept,
            ctx.oversaturated ==> decision != SaturationDecision::Accept,
    ;
}

/// Default policy: reject on over-saturation, accept otherwise.
#[derive(Clone, Copy, Debug)]
pub struct StandardPolicy;

impl Default for StandardPolicy {
    fn default() -> (policy: StandardPolicy) {
        StandardPolicy
    }
}

impl BinPolicy for StandardPolicy {
    fn decide<R: ReachabilityProvider>(&self, ctx: &SaturationContext<'_, R>) -> (decision:
        SaturationDecision)
        ensures
            decision == (if ctx.oversaturated {
                SaturationDecision::Reject(RejectionReason::BinFull)
            } else {
                SaturationDecision::Accept
            }),
    {
        if ctx.oversaturated {
            SaturationDecision::Reject(RejectionReason::BinFull)
        } else {
            SaturationDecision::Accept
        }
    }
}

/// Bootnode policy: when the target bin is over-saturated, evict the
/// lowest-ranked peer in the bin instead of rejecting.
#[derive(Clone, Copy, Debug)]
pub struct BootnodePolicy;

impl Default for BootnodePolicy {
    fn default() -> (policy: BootnodePolicy) {
        BootnodePolicy
    }
}

impl BinPolicy for BootnodePolicy {
    fn decide<R: ReachabilityProvider>(&self, ctx: &SaturationContext<'_, R>) -> (decision:
        SaturationDecision)
        ensures
            ctx.oversaturated && ctx.bin_peers.len() == 0 ==> decision
                == SaturationDecision::Reject(RejectionReason::BinFull),
            ctx.oversaturated && ctx.bin_peers.len() > 0 ==> exists|i: int|
                #![trigger ctx.bin_peers@[i]]
                is_worst_peer(*ctx.reachability, ctx.bin_peers@, i) && decision
                    == SaturationDecision::AcceptEvict(nomination(ctx.bin_peers@[i])),
            forall|i: int|
                #![trigger ctx.bin_peers@[i]]
                ctx.oversaturated && is_worst_peer(*ctx.reachability, ctx.bin_peers@, i)
                    ==> decision == SaturationDecision::AcceptEvict(nomination(ctx.bin_peers@[i])),
    {
        if !ctx.oversaturated {
            return SaturationDecision::Accept;
        }
        match ctx.worst_peer() {
            Some(candidate) => SaturationDecision::AcceptEvict(candidate),
            // The over-saturation comes from dialing or handshaking slots that
            // the caller did not list: there is no slot to hand over.
            None => SaturationDecision::Reject(RejectionReason::BinFull),
        }
    }
}

/// The peer that is evicted first has no worse reachability than any other:
/// a confirmed-reachable peer stays as long as an unknown one is there.
pub proof fn reachability_decides_first<R: ReachabilityProvider>(
    provider: R,
    peers: Seq<PeerStats>,
    i: int,
    j: int,
)
    requires
        is_worst_peer(provider, peers, i),
        0 <= j < peers.len(),
    ensures
        provider.status_of(peers[i].peer_id).spec_rank() <= provider.status_of(
            peers[j].peer_id,
        ).spec_rank(),
{
    assert(!evicted_before(provider, peers[j], peers[i]));
}

/// Two peers with different identifiers are always ordered, so the eviction
/// order leaves nothing to chance.
pub proof fn eviction_order_is_total<R: ReachabilityProvider>(
    provider: R,
    a: PeerStats,
    b: PeerStats,
)
    requires
        a.peer_id != b.peer_id,
    ensures
        evicted_before(provider, a, b) != evicted_before(provider, b, a),
{
}

/// The peer that a full bin gives up has the worst reachability of the bin,
/// among those the lowest score, among those the oldest sighting, and among
/// those the first identifier. It is nominated under its own identity.
pub proof fn the_worst_peer_is_given_up<R: ReachabilityProvider>(
    provider: R,
    peers: Seq<PeerStats>,
    i: int,
    j: int,
)
    requires
        is_worst_peer(provider, peers, i),
        0 <= j < peers.len(),
    ensures
        ({
            let a = peers[i];
            let b = peers[j];
            let ra = provider.status_of(a.peer_id).spec_rank();
            let rb = provider.status_of(b.peer_id).spec_rank();
            &&& ra <= rb
            &&& ra == rb ==> a.score <= b.score
            &&& ra == rb && a.score == b.score ==> a.last_seen <= b.last_seen
            &&& ra == rb && a.score == b.score && a.last_seen == b.last_seen
                ==> !b.peer_id.spec_precedes(a.peer_id)
        }),
        nomination(peers[i]).peer_id == peers[i].peer_id,
        nomination(peers[i]).overlay == peers[i].overlay,
        nomination(peers[i]).reason == EvictReason::LowestReachability,
{
    assert(!evicted_before(provider, peers[j], peers[i]));
}

} // verus!
