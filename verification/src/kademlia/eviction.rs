//! Peers nominated for eviction, and the ranks that order them.

use crate::primitives::{Bin, OverlayAddress};
use crate::reachability::PeerReachability;
use vstd::prelude::*;

verus! {

/// Phase of a connection nominated for eviction.
#[derive(Clone, Copy, Debug, PartialEq, Eq, Structural)]
pub enum EvictionPhase {
    /// The handshake has not completed.
    Handshaking,
    /// The connection is established.
    Active,
}

/// A peer nominated for eviction because its bin is overpopulated.
#[derive(Clone, Copy, Debug, PartialEq, Eq, Structural)]
pub struct EvictionCandidate {
    pub overlay: OverlayAddress,
    pub bin: Bin,
    pub phase: EvictionPhase,
}

/// The rank given to one peer.
#[derive(Clone, Copy, Debug, PartialEq, Eq, Structural)]
pub struct PeerRank {
    pub overlay: OverlayAddress,
    pub rank: u64,
}

/// The rank of `overlay`: the one given to it last, or the common rank.
pub open spec fn rank_in(common: u64, given: Seq<PeerRank>, overlay: OverlayAddress) -> u64
    decreases given.len(),
{
    if given.len() == 0 {
        common
    } else if given.last().overlay == overlay {
        given.last().rank
    } else {
        rank_in(common, given.drop_last(), overlay)
    }
}

/// Eviction ranks by peer: the lowest-ranked peer is evicted soonest.
#[derive(Debug)]
pub struct EvictionRanks {
    pub common: u64,
    pub given: Vec<PeerRank>,
}

impl EvictionRanks {
    /// The rank of `overlay`.
    pub open spec fn rank_of(self, overlay: OverlayAddress) -> u64 {
        rank_in(self.common, self.given@, overlay)
    }

    /// Ranks that give every peer the same rank.
    pub fn uniform(common: u64) -> (ranks: EvictionRanks)
        ensures
            forall|overlay: OverlayAddress| #[trigger] ranks.rank_of(overlay) == common,
    {
        EvictionRanks { common, given: Vec::new() }
    }

    /// Give `overlay` a rank of its own.
    pub fn set(&mut self, overlay: OverlayAddress, rank: u64)
        ensures
            forall|other: OverlayAddress| #[trigger]
                final(self).rank_of(other) == if other == overlay {
                    rank
                } else {
                    old(self).rank_of(other)
                },
    {
        self.given.push(PeerRank { overlay, rank });
        proof {
            assert(self.given@.drop_last() =~= old(self).given@);
        }
    }

    /// The rank of `overlay`.
    pub fn rank(&self, overlay: &OverlayAddress) -> (rank: u64)
        ensures
            rank == self.rank_of(*overlay),
    {
        let mut i: usize = self.given.len();
        proof {
            assert(self.given@.subrange(0, i as int) =~= self.given@);
        }
        while i > 0
            invariant
                i <= self.given.len(),
                rank_in(self.common, self.given@.subrange(0, i as int), *overlay) == self.rank_of(
                    *overlay,
                ),
            decreases i,
        {
            proof {
                assert(self.given@.subrange(0, i as int).drop_last() =~= self.given@.subrange(
                    0,
                    i - 1,
                ));
            }
            i = i - 1;
            if self.given[i].overlay == *overlay {
                return self.given[i].rank;
            }
        }
        self.common
    }
}

/// The rank of a peer by its reachability first and its locality second.
pub open spec fn reachability_rank(reachability: PeerReachability, is_local: bool) -> u64 {
    (2 * reachability.spec_rank() + if is_local {
        1int
    } else {
        0int
    }) as u64
}

/// The rank of a peer by its reachability, with locality as the tiebreak: a
/// local peer ranks above a remote one of equal reachability, and below one of
/// better reachability.
pub fn eviction_rank(reachability: PeerReachability, is_local: bool) -> (rank: u64)
    ensures
        rank == reachability_rank(reachability, is_local),
{
    let base: u64 = 2 * reachability.rank() as u64;
    if is_local {
        base + 1
    } else {
        base
    }
}

/// Reachability dominates locality: a peer of worse reachability ranks lower
/// whether it is local or not, and of two peers with equal reachability the
/// remote one ranks lower.
pub proof fn reachability_dominates_locality(
    a: PeerReachability,
    a_local: bool,
    b: PeerReachability,
    b_local: bool,
)
    ensures
        reachability_rank(a, a_local) < reachability_rank(b, b_local) <==> (a.spec_rank()
            < b.spec_rank() || (a.spec_rank() == b.spec_rank() && !a_local && b_local)),
{
}

} // verus!
