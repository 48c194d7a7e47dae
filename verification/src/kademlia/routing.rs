//! Kademlia-based peer routing table.
//!
//! The table holds the connected peers by bin, tracks every connection through
//! its phases, publishes the neighborhood depth through a lowering hysteresis,
//! and queues the peers to dial next.

use super::candidate_queues::CandidateQueues;
use super::candidates::{
    select_balanced_candidates, select_neighborhood_candidates, CandidateSelector,
    CandidateSnapshot,
};
use super::capacity::{CapacityTable, ConnectionPhase, PhaseCount};
use super::config::KademliaConfig;
use super::eviction::{EvictionCandidate, EvictionPhase, EvictionRanks};
use super::limits::{DepthAwareLimits, LimitsSnapshot};
use super::nearest::nearest;
use super::peers::PeerBook;
use super::phase::{PhaseTracker, PhaseTransition, TopologyPhase};
use super::proximity_index::{bin_for, AddError, ProximityIndex};
use super::slots::count_slots;
use super::trim::{select_trim_victims, TrimEntry};
use crate::arith::{larger_of, smaller_of};
use crate::primitives::{
    Bin, ChunkAddress, NeighborhoodDepth, OverlayAddress, SwarmNodeType, MAX_PO,
};
use crate::time::{Duration, Instant};
use nectar_primitives::recompute_neighborhood_depth;
use vstd::prelude::*;

verus! {

/// Saturation deficit, in peers over the bins below the published depth, up
/// to which a depth lowering is treated as churn and held for the window.
pub const DEPTH_LOWER_DEFICIT_TOLERANCE: usize = 1;

/// Number of bins that the depth recomputation takes.
pub const DEPTH_BINS: usize = 32;

/// The first bin from `i` on that holds less than `saturation` peers, or the
/// deepest one.
pub open spec fn frontier(counts: Seq<u8>, saturation: u8, i: nat) -> nat
    decreases MAX_PO - i,
{
    if i >= MAX_PO || counts[i as int] < saturation {
        i
    } else {
        frontier(counts, saturation, i + 1)
    }
}

/// A count as a byte, capped.
pub open spec fn byte_count(n: usize) -> u8 {
    if n > u8::MAX {
        u8::MAX
    } else {
        n as u8
    }
}

/// Bin sizes as bytes, zero for the bins beyond them.
pub open spec fn byte_counts(sizes: Seq<usize>) -> Seq<u8> {
    Seq::new(
        DEPTH_BINS as nat,
        |i: int|
            if i < sizes.len() {
                byte_count(sizes[i])
            } else {
                0
            },
    )
}

/// The sizes of the bins.
pub open spec fn sizes_of(bins: Seq<Seq<OverlayAddress>>) -> Seq<usize> {
    bins.map_values(|bin: Seq<OverlayAddress>| bin.len() as usize)
}

/// How many peers the bins below `depth` lack together to be saturated.
pub open spec fn deficit_below(sizes: Seq<usize>, saturation: usize, depth: nat) -> nat
    decreases depth,
{
    if depth == 0 {
        0
    } else {
        let held = if depth <= sizes.len() {
            sizes[depth - 1]
        } else {
            0
        };
        deficit_below(sizes, saturation, (depth - 1) as nat) + if held < saturation {
            (saturation - held) as nat
        } else {
            0nat
        }
    }
}

/// Calls `recompute_neighborhood_depth` of `nectar_primitives`. It is trusted
/// to return the shallowest bin that holds fewer than `saturation` peers, or
/// the deepest bin if none does. The walk it makes with `low_watermark` never
/// moves the result off that bin.
#[verifier::external_body]
fn neighborhood_depth(counts: &[u8; 32], saturation: u8, low_watermark: u8) -> (depth: u8)
    ensures
        depth as nat == frontier(counts@, saturation, 0),
{
    recompute_neighborhood_depth(counts, saturation, low_watermark).get()
}

proof fn lemma_frontier_bound(counts: Seq<u8>, saturation: u8, i: nat)
    requires
        i <= MAX_PO,
    ensures
        i <= frontier(counts, saturation, i) <= MAX_PO,
        forall|j: int| i <= j < frontier(counts, saturation, i) ==> counts[j] >= saturation,
        frontier(counts, saturation, i) < MAX_PO ==> counts[frontier(counts, saturation, i) as int]
            < saturation,
    decreases MAX_PO - i,
{
    if i < MAX_PO && counts[i as int] >= saturation {
        lemma_frontier_bound(counts, saturation, i + 1);
        assert forall|j: int|
            i <= j < frontier(counts, saturation, i) implies counts[j] >= saturation by {
            if j > i {
                assert(i + 1 <= j);
            }
        }
    }
}

/// The saturated neighborhood that the stability clock is anchored to.
#[derive(Clone, Copy, Debug, PartialEq, Eq, Structural)]
pub struct NeighborhoodStable {
    /// The depth at which the neighborhood became saturated.
    pub depth: NeighborhoodDepth,
    /// When it became saturated at that depth.
    pub since: Instant,
}

/// Population of one bin that holds or knows peers.
#[derive(Clone, Copy, Debug, PartialEq, Eq, Structural)]
pub struct BinStatus {
    pub bin: u8,
    pub connected: usize,
    pub known: usize,
    /// The bin is the neighborhood boundary.
    pub at_depth: bool,
}

/// A summary of the routing table.
#[derive(Debug)]
pub struct RoutingStatus {
    pub depth: NeighborhoodDepth,
    pub connected: usize,
    pub known: usize,
    /// The bins that hold or know peers, shallowest first.
    pub bins: Vec<BinStatus>,
}

/// The statuses of the first `n` bins, without the empty ones.
pub open spec fn populated_bins(
    connected: Seq<usize>,
    known: Seq<usize>,
    depth: u8,
    n: nat,
) -> Seq<BinStatus>
    decreases n,
{
    if n == 0 {
        Seq::empty()
    } else {
        let rest = populated_bins(connected, known, depth, (n - 1) as nat);
        let c = if n <= connected.len() {
            connected[n - 1]
        } else {
            0
        };
        let k = if n <= known.len() {
            known[n - 1]
        } else {
            0
        };
        if c > 0 || k > 0 {
            rest.push(
                BinStatus { bin: (n - 1) as u8, connected: c, known: k, at_depth: n - 1 == depth },
            )
        } else {
            rest
        }
    }
}

/// The trim pool of a bin: its peers with their ranks and scores.
pub open spec fn trim_pool(
    peers: Seq<OverlayAddress>,
    book: PeerBook,
    ranks: EvictionRanks,
) -> Seq<TrimEntry> {
    peers.map_values(
        |overlay: OverlayAddress|
            TrimEntry {
                overlay,
                rank: ranks.rank_of(overlay),
                score: match book.lookup(overlay) {
                    Some(record) => record.score,
                    None => 0,
                },
            },
    )
}

/// Overlays of `bin` as eviction candidates in one phase.
pub open spec fn nominated(
    overlays: Seq<OverlayAddress>,
    bin: Bin,
    phase: EvictionPhase,
) -> Seq<EvictionCandidate> {
    overlays.map_values(|overlay: OverlayAddress| EvictionCandidate { overlay, bin, phase })
}

/// The bins after the candidates were enqueued in turn, each in its own bin.
pub open spec fn all_enqueued(
    bins: Seq<Seq<OverlayAddress>>,
    cap: nat,
    base: OverlayAddress,
    max_po: u8,
    peers: Seq<OverlayAddress>,
) -> Seq<Seq<OverlayAddress>>
    decreases peers.len(),
{
    if peers.len() == 0 {
        bins
    } else {
        super::candidate_queues::enqueued(
            all_enqueued(bins, cap, base, max_po, peers.drop_last()),
            cap,
            super::proximity_index::bin_of(base, max_po, peers.last()) as int,
            peers.last(),
        )
    }
}

/// How many of `peers` are known to store chunks.
pub open spec fn storer_count(peers: Seq<OverlayAddress>, book: PeerBook) -> nat
    decreases peers.len(),
{
    if peers.len() == 0 {
        0
    } else {
        storer_count(peers.drop_last(), book) + if book.lookup(
            peers.last(),
        ) matches Some(record) && record.stores() {
            1nat
        } else {
            0nat
        }
    }
}

/// Kademlia-based peer routing table.
#[derive(Debug)]
pub struct KademliaRouting {
    pub local: OverlayAddress,
    pub max_po: u8,
    pub low_watermark: u8,
    pub connected_peers: ProximityIndex,
    /// Published neighborhood depth, after the lowering hysteresis.
    pub depth: NeighborhoodDepth,
    /// Since when a marginal depth lowering is held back.
    pub pending_depth_lower: Option<Instant>,
    pub config: KademliaConfig,
    pub candidate_queues: CandidateQueues,
    pub capacity: CapacityTable,
    /// Stability clock of the saturated neighborhood.
    pub neighborhood_stability: Option<NeighborhoodStable>,
    pub topology_phase: PhaseTracker,
}

impl KademliaRouting {
    /// The parts agree on the local address and the number of bins.
    pub open spec fn wf(self) -> bool {
        &&& self.max_po <= MAX_PO
        &&& self.connected_peers.wf()
        &&& self.connected_peers.base == self.local
        &&& self.connected_peers.max_po == self.max_po
        &&& self.connected_peers.max_per_bin == 0
        &&& self.capacity.wf()
        &&& self.capacity.base == self.local
        &&& self.capacity.max_po == self.max_po
        &&& self.candidate_queues.wf()
        &&& self.candidate_queues.contents().len() == self.max_po + 1
        &&& self.depth.raw <= self.max_po
    }

    /// The bin of `peer`.
    pub open spec fn bin_of(self, peer: OverlayAddress) -> int {
        super::proximity_index::bin_of(self.local, self.max_po, peer) as int
    }

    /// The sizes of the bins of connected peers.
    pub open spec fn sizes(self) -> Seq<usize> {
        sizes_of(self.connected_peers.contents())
    }

    /// The instantaneous depth: the shallowest unsaturated bin.
    pub open spec fn raw_depth(self, sizes: Seq<usize>) -> NeighborhoodDepth {
        let f = frontier(byte_counts(sizes), byte_count(self.config.limits.saturation), 0);
        NeighborhoodDepth {
            raw: if f <= self.max_po {
                f as u8
            } else {
                self.max_po
            },
        }
    }

    /// How many peers the bins of the table below `depth` lack together to be
    /// saturated, where they hold `sizes`.
    pub open spec fn deficit(self, sizes: Seq<usize>, depth: NeighborhoodDepth) -> nat {
        deficit_below(
            sizes,
            self.config.limits.saturation,
            if depth.raw <= self.max_po {
                depth.raw as nat
            } else {
                (self.max_po + 1) as nat
            },
        )
    }

    /// The depth to publish at `now`, and since when a lowering is held back.
    ///
    /// Raising applies at once. Lowering applies at once when the bins below
    /// the published depth lack more than the tolerance; a smaller deficit
    /// holds the depth until it has lasted for the window.
    pub open spec fn publication(self, now: Instant) -> (NeighborhoodDepth, Option<Instant>) {
        let raw = self.raw_depth(self.sizes());
        let deficit = self.deficit(self.sizes(), self.depth);
        if raw.raw >= self.depth.raw || deficit > DEPTH_LOWER_DEFICIT_TOLERANCE {
            (raw, None)
        } else {
            match self.pending_depth_lower {
                None => (self.depth, Some(now)),
                Some(since) => if now.spec_since(since).nanos
                    >= self.config.depth_lower_window.nanos {
                    (raw, None)
                } else {
                    (self.depth, Some(since))
                },
            }
        }
    }

    /// How many connected peers the bins at and above `depth` hold: none where
    /// the table has no such bin.
    pub open spec fn neighborhood_population(self, depth: NeighborhoodDepth) -> nat {
        let bins = self.connected_peers.contents();
        if depth.raw < bins.len() {
            super::proximity_index::population(
                bins.subrange(depth.raw as int, bins.len() as int),
            )
        } else {
            0
        }
    }

    /// Whether the neighborhood at `depth` is saturated: there is a boundary,
    /// and the bins inside it hold the saturation threshold together.
    pub open spec fn is_saturated(self, depth: NeighborhoodDepth) -> bool {
        depth.raw > 0 && self.neighborhood_population(depth) >= self.config.limits.saturation
    }

    /// The stability anchor after the table was seen at `now`.
    pub open spec fn anchor(self, now: Instant) -> Option<NeighborhoodStable> {
        if !self.is_saturated(self.depth) {
            None
        } else {
            match self.neighborhood_stability {
                Some(stable) => if stable.depth == self.depth {
                    Some(stable)
                } else {
                    Some(NeighborhoodStable { depth: self.depth, since: now })
                },
                None => Some(NeighborhoodStable { depth: self.depth, since: now }),
            }
        }
    }

    /// The table after its depth was published at `now`.
    pub open spec fn published(self, now: Instant) -> KademliaRouting {
        KademliaRouting {
            depth: self.publication(now).0,
            pending_depth_lower: self.publication(now).1,
            ..self
        }
    }

    /// The table after its stability clock was anchored at `now`.
    pub open spec fn anchored(self, now: Instant) -> KademliaRouting {
        KademliaRouting { neighborhood_stability: self.anchor(now), ..self }
    }

    /// The table after its topology phase was evaluated at `now`.
    pub open spec fn phase_evaluated(self, now: Instant) -> KademliaRouting {
        KademliaRouting {
            topology_phase: self.topology_phase.evaluated(
                self.depth,
                self.is_saturated(self.depth),
                now,
            ),
            ..self
        }
    }

    /// The phase transition that an evaluation at `now` commits, if any.
    pub open spec fn phase_transition(self, now: Instant) -> Option<PhaseTransition> {
        self.topology_phase.spec_transition(self.depth, self.is_saturated(self.depth), now)
    }

    /// Whether an inbound connection of `overlay` is accepted while the
    /// connections and counts are `state`.
    pub open spec fn accepts_inbound(
        self,
        state: super::capacity::CapacityState,
        overlay: OverlayAddress,
    ) -> bool {
        let bin = Bin { raw: self.bin_of(overlay) as u8 };
        &&& !super::capacity::tracks(state.0, overlay)
        &&& self.config.limits.spec_target(bin, self.depth) == usize::MAX
            || state.1[bin.raw as int].total() < self.config.limits.spec_ceiling(bin, self.depth)
    }

    /// The eviction candidates of one bin: its handshaking peers first, then
    /// its active peers least worth keeping, as many as its surplus.
    pub open spec fn bin_evictions(
        self,
        book: PeerBook,
        ranks: EvictionRanks,
        bin: Bin,
    ) -> Seq<EvictionCandidate> {
        let count = self.capacity.counts@[bin.raw as int];
        let surplus = self.config.limits.spec_surplus(
            bin,
            self.depth,
            (count.handshaking + count.active) as usize,
        );
        let handshaking = super::peers::leading(
            super::capacity::handshaking_in(
                self.capacity.connections@,
                self.local,
                self.max_po,
                bin.raw as int,
            ),
            surplus as nat,
        );
        let active = super::trim::trim_victims(
            trim_pool(self.connected_peers.contents()[bin.raw as int], book, ranks),
            (surplus - handshaking.len()) as nat,
        );
        if surplus == 0 {
            Seq::empty()
        } else {
            nominated(handshaking, bin, EvictionPhase::Handshaking) + nominated(
                active,
                bin,
                EvictionPhase::Active,
            )
        }
    }

    /// The eviction candidates of the bins below `depth`, shallowest first.
    pub open spec fn evictions(
        self,
        book: PeerBook,
        ranks: EvictionRanks,
        depth: nat,
    ) -> Seq<EvictionCandidate>
        decreases depth,
    {
        if depth == 0 {
            Seq::empty()
        } else {
            self.evictions(book, ranks, (depth - 1) as nat) + self.bin_evictions(
                book,
                ranks,
                Bin { raw: (depth - 1) as u8 },
            )
        }
    }

    /// How many connections each of the [`DEPTH_BINS`] bins holds.
    pub open spec fn occupancy(self) -> Seq<usize> {
        Seq::new(
            DEPTH_BINS as nat,
            |b: int|
                if b < self.capacity.counts.len() {
                    self.capacity.counts@[b].total() as usize
                } else {
                    0
                },
        )
    }

    /// The known bin sizes of a peer book.
    pub open spec fn known_sizes(book: PeerBook) -> Seq<usize> {
        Seq::new(
            (book.max_po + 1) as nat,
            |b: int|
                super::peers::known_in(book.records@, book.local, book.max_po, b as nat) as usize,
        )
    }

    /// `snapshot` is the state that a selection round at `depth` works on.
    pub open spec fn captures(self, snapshot: CandidateSnapshot, depth: NeighborhoodDepth) -> bool {
        &&& snapshot.limits.limits == self.config.limits
        &&& snapshot.limits.depth == depth
        &&& snapshot.in_progress@ == self.capacity.connections@.map_values(
            |c: super::capacity::TrackedConnection| c.overlay,
        )
        &&& snapshot.queued@ == super::candidate_queues::deepest_first(
            self.candidate_queues.contents(),
        )
    }

    /// The candidates that a selection round on `snapshot` yields: from the
    /// neighborhood bins first, then from the bins below, within the budget.
    pub open spec fn selected(self, snapshot: CandidateSnapshot, book: PeerBook) -> Seq<
        OverlayAddress,
    > {
        let budget = crate::arith::saturate(
            self.config.max_neighbor_candidates + self.config.max_balanced_candidates,
        );
        let start = (
            Seq::<OverlayAddress>::empty(),
            Seq::new((MAX_PO + 1) as nat, |b: int| 0usize),
        );
        let neighbors = super::candidates::bins_served(
            snapshot,
            self.connected_peers,
            book,
            budget,
            start,
            snapshot.limits.depth.raw as int,
            self.max_po as int,
            self.occupancy(),
        );
        super::candidates::bins_served(
            snapshot,
            self.connected_peers,
            book,
            budget,
            neighbors,
            0,
            snapshot.limits.depth.raw - 1,
            self.occupancy(),
        ).0
    }

    /// An empty table for the node at `local`.
    pub fn new(
        local: OverlayAddress,
        max_po: u8,
        low_watermark: u8,
        config: KademliaConfig,
        now: Instant,
    ) -> (routing: KademliaRouting)
        requires
            max_po <= MAX_PO,
        ensures
            routing.wf(),
            routing.capacity.exact(),
            routing.local == local,
            routing.max_po == max_po,
            routing.low_watermark == low_watermark,
            routing.config == config,
            routing.depth.raw == 0,
            routing.pending_depth_lower is None,
            routing.neighborhood_stability is None,
            routing.connected_peers.contents() == Seq::new(
                (max_po + 1) as nat,
                |b: int| Seq::<OverlayAddress>::empty(),
            ),
            routing.connected_peers.count == 0,
            routing.capacity.state() == (
                Seq::<super::capacity::TrackedConnection>::empty(),
                Seq::new(
                    (max_po + 1) as nat,
                    |b: int|
                        super::capacity::PhaseCount { dialing: 0, handshaking: 0, active: 0 },
                ),
            ),
            routing.candidate_queues.max_per_bin == crate::arith::larger(
                config.max_neighbor_candidates,
                config.max_balanced_candidates,
            ),
            forall|b: int|
                #![trigger routing.candidate_queues.contents()[b]]
                0 <= b <= max_po ==> routing.candidate_queues.contents()[b].len() == 0,
            routing.topology_phase == (PhaseTracker {
                phase: TopologyPhase::Bootstrap,
                entered_at: now,
                stability_window: config.phase_stability_window,
                last_depth: NeighborhoodDepth { raw: 0 },
                last_depth_change: now,
            }),
    {
        let num_bins: usize = max_po as usize + 1;
        // A single bin must be able to hold a full evaluation round's worth of
        // candidates for its category.
        let queue_cap: usize = larger_of(
            config.max_neighbor_candidates,
            config.max_balanced_candidates,
        );
        let connected_peers: ProximityIndex = ProximityIndex::new(local, max_po, 0);
        KademliaRouting {
            local,
            max_po,
            low_watermark,
            connected_peers,
            depth: NeighborhoodDepth::zero(),
            pending_depth_lower: None,
            config,
            candidate_queues: CandidateQueues::new(num_bins, queue_cap),
            capacity: CapacityTable::new(local, max_po),
            neighborhood_stability: None,
            topology_phase: PhaseTracker::new(config.phase_stability_window, now),
        }
    }

    /// Depth-aware per-bin capacity limits.
    pub fn limits(&self) -> (limits: &DepthAwareLimits)
        ensures
            *limits == self.config.limits,
    {
        &self.config.limits
    }

    /// The routing configuration.
    pub fn config(&self) -> (config: &KademliaConfig)
        ensures
            *config == self.config,
    {
        &self.config
    }

    /// The published neighborhood depth.
    pub fn depth(&self) -> (depth: NeighborhoodDepth)
        ensures
            depth == self.depth,
    {
        self.depth
    }

    /// The deepest bin of the table.
    pub fn max_bin(&self) -> (bin: Bin)
        requires
            self.wf(),
        ensures
            bin.wf(),
            bin.raw == self.max_po,
    {
        Bin::clamped(self.max_po)
    }

    /// The bin that `peer` occupies in the table.
    pub fn bin_for(&self, peer: &OverlayAddress) -> (bin: Bin)
        requires
            self.wf(),
        ensures
            bin.wf(),
            bin.raw as int == self.bin_of(*peer),
            bin.raw <= self.max_po,
    {
        bin_for(&self.local, self.max_po, peer)
    }

    /// Connections of `bin` in any phase.
    pub fn effective_count(&self, bin: Bin) -> (n: usize)
        requires
            self.wf(),
        ensures
            bin.raw <= self.max_po ==> n == self.capacity.counts@[bin.raw as int].total(),
            bin.raw > self.max_po ==> n == 0,
    {
        self.capacity.effective_count(bin)
    }

    /// Connections of `bin` that this node dialed, in any phase; zero beyond
    /// the deepest bin.
    pub fn bin_outbound_count(&self, bin: Bin) -> (n: usize)
        requires
            self.wf(),
        ensures
            n == super::capacity::outbound_tally(
                self.capacity.connections@,
                self.local,
                self.max_po,
                bin.raw as int,
            ),
            bin.raw > self.max_po ==> n == 0,
    {
        self.capacity.outbound_count(bin)
    }

    /// Whether a candidate waits to be dialed.
    pub fn has_queued_candidates(&self) -> (queued: bool)
        requires
            self.wf(),
        ensures
            queued == exists|peer: OverlayAddress| #[trigger]
                super::candidate_queues::queued(self.candidate_queues.contents(), peer),
    {
        !self.candidate_queues.is_empty()
    }

    /// Admission decision for a peer whose handshake is in progress.
    ///
    /// `extra` is the number of slots the peer occupies in the caller's
    /// accounting that the table does not count yet: zero for an outbound peer,
    /// whose dial reserved one, and one for an inbound peer. Admitted is a peer
    /// whose bin stays within its ceiling, and any peer of the neighborhood.
    pub fn admission_within_capacity(&self, overlay: &OverlayAddress, extra: usize) -> (admitted: bool)
        requires
            self.wf(),
        ensures
            admitted == {
                let bin = Bin { raw: self.bin_of(*overlay) as u8 };
                let ceiling = self.config.limits.spec_ceiling(bin, self.depth);
                ceiling == usize::MAX || self.capacity.counts@[bin.raw as int].total() + extra
                    <= ceiling
            },
    {
        let bin: Bin = self.bin_for(overlay);
        let ceiling: usize = self.config.limits.ceiling(bin, self.depth);
        if ceiling == usize::MAX {
            return true;
        }
        self.effective_count(bin).saturating_add(extra) <= ceiling
    }

    /// Recompute the depth from the given bin sizes. Sizes beyond the deepest
    /// possible bin do not count.
    pub fn recalc_depth(&self, sizes: &Vec<usize>) -> (depth: NeighborhoodDepth)
        requires
            self.wf(),
        ensures
            depth == self.raw_depth(sizes@),
            depth.raw <= self.max_po,
    {
        let mut counts: [u8; 32] = [0u8;32];
        let mut i: usize = 0;
        while i < sizes.len() && i < DEPTH_BINS
            invariant
                i <= sizes.len(),
                i <= DEPTH_BINS,
                forall|j: int|
                    0 <= j < 32 ==> counts@[j] == if j < i {
                        byte_count(sizes@[j])
                    } else {
                        0
                    },
            decreases sizes.len() - i,
        {
            counts[i] = to_byte(sizes[i]);
            i = i + 1;
        }
        proof {
            assert(counts@ =~= byte_counts(sizes@));
        }
        let saturation: u8 = to_byte(self.config.limits.saturation());
        proof {
            lemma_frontier_bound(counts@, saturation, 0);
        }
        let frontier: u8 = neighborhood_depth(&counts, saturation, self.low_watermark);
        if frontier <= self.max_po {
            NeighborhoodDepth { raw: frontier }
        } else {
            NeighborhoodDepth { raw: self.max_po }
        }
    }

    /// Total saturation deficit, in peers, over the bins of the table below
    /// `depth`.
    pub fn saturation_deficit_below(
        &self,
        depth: NeighborhoodDepth,
        sizes: &Vec<usize>,
    ) -> (deficit: usize)
        ensures
            deficit == crate::arith::saturate(self.deficit(sizes@, depth) as int),
    {
        let saturation: usize = self.config.limits.saturation();
        let mut deficit: usize = 0;
        let mut b: u8 = 0;
        while b < depth.raw && b <= self.max_po
            invariant
                b <= depth.raw,
                b <= self.max_po + 1,
                saturation == self.config.limits.saturation,
                deficit == crate::arith::saturate(
                    deficit_below(sizes@, saturation, b as nat) as int,
                ),
            decreases depth.raw - b,
        {
            let held: usize = if (b as usize) < sizes.len() {
                sizes[b as usize]
            } else {
                0
            };
            deficit = deficit.saturating_add(saturation.saturating_sub(held));
            b = b + 1;
        }
        deficit
    }

    /// Recompute the depth and publish it through the lowering hysteresis.
    /// Returns `true` when the published depth moved.
    pub fn publish_depth_at(&mut self, now: Instant) -> (moved: bool)
        requires
            old(self).wf(),
        ensures
            final(self).wf(),
            *final(self) == old(self).published(now),
            moved == (final(self).depth != old(self).depth),
            // The depth is the shallowest unsaturated bin, or a lowering is
            // held back.
            old(self).config.limits.saturation <= u8::MAX ==> is_frontier(
                final(self).connected_peers.contents(),
                final(self).config.limits.saturation,
                final(self).depth.raw as int,
            ) || (final(self).depth == old(self).depth && final(self).pending_depth_lower is Some),
    {
        proof {
            if self.config.limits.saturation <= u8::MAX {
                publishing_settles_the_depth(*self, now);
            }
        }
        // One snapshot feeds both the depth and the deficit, so the two never
        // disagree about the table.
        let sizes: Vec<usize> = self.connected_peers.bin_sizes();
        proof {
            assert(sizes@ =~= self.sizes());
        }
        let raw: NeighborhoodDepth = self.recalc_depth(&sizes);
        let published: NeighborhoodDepth = self.depth;
        if raw.raw >= published.raw {
            self.pending_depth_lower = None;
            self.depth = raw;
            return raw != published;
        }
        if self.saturation_deficit_below(published, &sizes) > DEPTH_LOWER_DEFICIT_TOLERANCE {
            self.pending_depth_lower = None;
            self.depth = raw;
            return true;
        }
        match self.pending_depth_lower {
            None => {
                self.pending_depth_lower = Some(now);
                false
            },
            Some(since) => {
                if now.duration_since(since).nanos >= self.config.depth_lower_window.nanos {
                    self.pending_depth_lower = None;
                    self.depth = raw;
                    true
                } else {
                    false
                }
            },
        }
    }

    /// Run the depth hysteresis again, without a change of the table, so that
    /// a held lowering is published once its window expires. A move of the
    /// depth anchors the stability clock anew.
    pub fn refresh_depth(&mut self, now: Instant)
        requires
            old(self).wf(),
        ensures
            final(self).wf(),
            *final(self) == if old(self).published(now).depth != old(self).depth {
                old(self).published(now).anchored(now)
            } else {
                old(self).published(now)
            },
            old(self).config.limits.saturation <= u8::MAX ==> is_frontier(
                final(self).connected_peers.contents(),
                final(self).config.limits.saturation,
                final(self).depth.raw as int,
            ) || (final(self).depth == old(self).depth && final(self).pending_depth_lower is Some),
    {
        if self.publish_depth_at(now) {
            self.update_neighborhood_stability(now);
        }
    }

    /// Connected peers in bins at and above `depth`.
    pub fn neighborhood_connected(&self, depth: NeighborhoodDepth) -> (n: usize)
        requires
            self.wf(),
        ensures
            n == self.neighborhood_population(depth),
    {
        if depth.raw > self.max_po {
            return 0;
        }
        let ghost bins = self.connected_peers.contents();
        let mut n: usize = 0;
        let mut b: u8 = depth.raw;
        proof {
            assert(bins.subrange(depth.raw as int, depth.raw as int) =~= Seq::empty());
        }
        while b <= self.max_po
            invariant
                self.wf(),
                bins == self.connected_peers.contents(),
                depth.raw <= b <= self.max_po + 1,
                n == super::proximity_index::population(
                    bins.subrange(depth.raw as int, b as int),
                ),
            decreases self.max_po + 1 - b,
        {
            proof {
                let next = bins.subrange(depth.raw as int, b + 1);
                assert(next.drop_last() =~= bins.subrange(depth.raw as int, b as int));
                lemma_population_of_part(bins, depth.raw as int, b + 1);
            }
            n = n + self.connected_peers.bin_size(Bin { raw: b });
            b = b + 1;
        }
        proof {
            assert(bins.subrange(depth.raw as int, b as int) =~= bins.subrange(
                depth.raw as int,
                bins.len() as int,
            ));
        }
        n
    }

    /// Whether the neighborhood at `depth` is saturated.
    pub fn neighborhood_saturated(&self, depth: NeighborhoodDepth) -> (saturated: bool)
        requires
            self.wf(),
        ensures
            saturated == self.is_saturated(depth),
    {
        depth.raw > 0 && self.neighborhood_connected(depth) >= self.config.limits.saturation()
    }

    /// Anchor the stability clock to the current table. The clock survives
    /// changes that keep both the depth and the saturation; a depth change
    /// restarts it and a dip below saturation clears it.
    pub fn update_neighborhood_stability(&mut self, now: Instant)
        requires
            old(self).wf(),
        ensures
            final(self).wf(),
            *final(self) == old(self).anchored(now),
    {
        let depth: NeighborhoodDepth = self.depth;
        if !self.neighborhood_saturated(depth) {
            self.neighborhood_stability = None;
        } else {
            let moved: bool = match self.neighborhood_stability {
                Some(stable) => stable.depth != depth,
                None => true,
            };
            if moved {
                self.neighborhood_stability = Some(NeighborhoodStable { depth, since: now });
            }
        }
    }

    /// How long the neighborhood has been saturated at an unchanged depth, or
    /// `None` while it is below saturation.
    pub fn neighborhood_stable_for(&self, now: Instant) -> (stable: Option<Duration>)
        ensures
            stable == (match self.neighborhood_stability {
                Some(anchor) => Some(now.spec_since(anchor.since)),
                None => None,
            }),
    {
        match self.neighborhood_stability {
            Some(anchor) => Some(now.duration_since(anchor.since)),
            None => None,
        }
    }

    /// The window that [`KademliaRouting::neighborhood_stable_for`] must reach
    /// before the neighborhood counts as ready.
    pub fn neighborhood_stability_window(&self) -> (window: Duration)
        ensures
            window == self.config.neighborhood_stability_window,
    {
        self.config.neighborhood_stability_window
    }

    /// Derive the topology phase from the published depth and the saturation
    /// of the neighborhood, committing a transition when it moved.
    pub fn evaluate_phase(&mut self, now: Instant) -> (transition: Option<PhaseTransition>)
        requires
            old(self).wf(),
        ensures
            final(self).wf(),
            *final(self) == old(self).phase_evaluated(now),
            transition == old(self).phase_transition(now),
    {
        let depth: NeighborhoodDepth = self.depth;
        let saturated: bool = self.neighborhood_saturated(depth);
        self.topology_phase.evaluate(depth, saturated, now)
    }

    /// Current topology phase and the time spent in it.
    pub fn phase_status(&self, now: Instant) -> (status: (TopologyPhase, Duration))
        ensures
            status.0 == self.topology_phase.phase,
            status.1 == now.spec_since(self.topology_phase.entered_at),
    {
        (self.topology_phase.phase(), self.topology_phase.time_in_phase(now))
    }

    /// Connected peers in the neighborhood of `depth`, shallowest bin first.
    pub fn neighbors(&self, depth: NeighborhoodDepth) -> (peers: Vec<OverlayAddress>)
        requires
            self.wf(),
        ensures
            depth.raw <= self.max_po ==> peers@ == super::proximity_index::concatenated(
                self.connected_peers.contents().subrange(
                    depth.raw as int,
                    self.connected_peers.contents().len() as int,
                ),
            ),
            depth.raw > self.max_po ==> peers.len() == 0,
    {
        if depth.raw > self.max_po {
            return Vec::new();
        }
        let ghost bins = self.connected_peers.contents();
        let mut peers: Vec<OverlayAddress> = Vec::new();
        let mut b: u8 = depth.raw;
        proof {
            assert(bins.subrange(depth.raw as int, depth.raw as int) =~= Seq::empty());
        }
        while b <= self.max_po
            invariant
                self.wf(),
                bins == self.connected_peers.contents(),
                depth.raw <= b <= self.max_po + 1,
                peers@ == super::proximity_index::concatenated(
                    bins.subrange(depth.raw as int, b as int),
                ),
            decreases self.max_po + 1 - b,
        {
            proof {
                let next = bins.subrange(depth.raw as int, b + 1);
                assert(next.drop_last() =~= bins.subrange(depth.raw as int, b as int));
            }
            let mut row: Vec<OverlayAddress> = self.connected_peers.peers_in_bin(Bin { raw: b });
            peers.append(&mut row);
            b = b + 1;
        }
        proof {
            assert(bins.subrange(depth.raw as int, b as int) =~= bins.subrange(
                depth.raw as int,
                bins.len() as int,
            ));
        }
        peers
    }

    /// The `count` connected peers closest to `address` by proximity, closest
    /// first. Where all connected peers come back, equally close ones keep the
    /// order of the table; else their order and choice are left open.
    pub fn closest_to(&self, address: &ChunkAddress, count: usize) -> (peers: Vec<OverlayAddress>)
        requires
            self.wf(),
        ensures
            peers.len() == crate::arith::smaller(count, self.connected_peers.count),
            peers@.no_duplicates(),
            forall|i: int|
                #![trigger peers@[i]]
                0 <= i < peers.len() ==> super::proximity_index::concatenated(
                    self.connected_peers.contents(),
                ).contains(peers@[i]),
            forall|i: int, j: int|
                #![trigger peers@[i], peers@[j]]
                0 <= i <= j < peers.len() ==> crate::primitives::proximity_order(
                    *address,
                    peers@[i],
                ) >= crate::primitives::proximity_order(*address, peers@[j]),
            forall|i: int, other: OverlayAddress|
                #![trigger peers@[i], peers@.contains(other)]
                0 <= i < peers.len() && !peers@.contains(other)
                    && super::proximity_index::concatenated(
                    self.connected_peers.contents(),
                ).contains(other) ==> crate::primitives::proximity_order(*address, peers@[i])
                    >= crate::primitives::proximity_order(*address, other),
            count >= self.connected_peers.count ==> forall|i: int, j: int|
                #![trigger peers@[i], peers@[j]]
                0 <= i < j < peers.len() ==> super::nearest::nearer(
                    super::proximity_index::concatenated(self.connected_peers.contents()),
                    *address,
                    peers@[i],
                    peers@[j],
                ),
    {
        let all: Vec<OverlayAddress> = self.connected_peers.all_peers();
        proof {
            super::proximity_index::all_peers_are_distinct(self.connected_peers);
            super::proximity_index::lemma_concatenated_contains(
                self.connected_peers.contents(),
                self.local,
            );
        }
        let peers: Vec<OverlayAddress> = nearest(address, all, count);
        proof {
            assert forall|i: int, j: int|
                #![trigger peers@[i], peers@[j]]
                0 <= i <= j < peers.len() implies crate::primitives::proximity_order(
                *address,
                peers@[i],
            ) >= crate::primitives::proximity_order(*address, peers@[j]) by {
                if i < j {
                    assert(super::nearest::nearer(all@, *address, peers@[i], peers@[j]));
                }
            }
            assert forall|i: int, other: OverlayAddress|
                #![trigger peers@[i], peers@.contains(other)]
                0 <= i < peers.len() && !peers@.contains(other) && all@.contains(
                    other,
                ) implies crate::primitives::proximity_order(*address, peers@[i])
                >= crate::primitives::proximity_order(*address, other) by {
                assert(super::nearest::nearer(all@, *address, peers@[i], other));
            }
        }
        peers
    }

    /// Connected and known peers of every bin, shallowest first, for the bins
    /// that both the table and the book have.
    pub fn bin_sizes(&self, book: &PeerBook) -> (sizes: Vec<(usize, usize)>)
        requires
            self.wf(),
            book.wf(),
        ensures
            sizes.len() == (if self.max_po <= book.max_po {
                self.max_po + 1
            } else {
                book.max_po + 1
            }),
            forall|b: int|
                0 <= b < sizes.len() ==> sizes@[b] == (
                    self.sizes()[b],
                    KademliaRouting::known_sizes(*book)[b],
                ),
    {
        let connected: Vec<usize> = self.connected_peers.bin_sizes();
        let known: Vec<usize> = book.bin_sizes();
        let n: usize = smaller_of(connected.len(), known.len());
        let mut sizes: Vec<(usize, usize)> = Vec::new();
        let mut b: usize = 0;
        while b < n
            invariant
                b <= n <= connected.len(),
                n <= known.len(),
                sizes.len() == b,
                forall|c: int| 0 <= c < b ==> sizes@[c] == (connected@[c], known@[c]),
            decreases n - b,
        {
            sizes.push((connected[b], known[b]));
            b = b + 1;
        }
        sizes
    }

    /// Connected and known peers of one bin.
    pub fn bin_peer_counts(&self, book: &PeerBook, bin: Bin) -> (counts: (usize, usize))
        requires
            self.wf(),
            book.wf(),
        ensures
            counts.0 == (if bin.raw <= self.max_po {
                self.connected_peers.contents()[bin.raw as int].len()
            } else {
                0
            }),
            counts.1 == super::peers::known_in(
                book.records@,
                book.local,
                book.max_po,
                bin.raw as nat,
            ),
    {
        (self.connected_peers.bin_size(bin), book.bin_size(bin))
    }

    /// Dialing, handshaking and active counts of `bin`.
    pub fn bin_phase_counts(&self, bin: Bin) -> (counts: (usize, usize, usize))
        requires
            self.wf(),
        ensures
            bin.raw <= self.max_po ==> counts == (
                self.capacity.counts@[bin.raw as int].dialing,
                self.capacity.counts@[bin.raw as int].handshaking,
                self.capacity.counts@[bin.raw as int].active,
            ),
            bin.raw > self.max_po ==> counts == (0usize, 0usize, 0usize),
    {
        let count: PhaseCount = self.capacity.count(bin);
        (count.dialing, count.handshaking, count.active)
    }

    /// Phase counts of all bins, shallowest first.
    pub fn all_bin_phases(&self) -> (phases: Vec<(Bin, usize, usize, usize)>)
        requires
            self.wf(),
        ensures
            phases.len() == self.max_po + 1,
            forall|b: int|
                0 <= b < phases.len() ==> phases@[b] == (
                    Bin { raw: b as u8 },
                    self.capacity.counts@[b].dialing,
                    self.capacity.counts@[b].handshaking,
                    self.capacity.counts@[b].active,
                ),
    {
        let mut phases: Vec<(Bin, usize, usize, usize)> = Vec::new();
        let mut b: u8 = 0;
        while b <= self.max_po
            invariant
                self.wf(),
                b <= self.max_po + 1,
                phases.len() == b,
                forall|c: int|
                    0 <= c < b ==> phases@[c] == (
                        Bin { raw: c as u8 },
                        self.capacity.counts@[c].dialing,
                        self.capacity.counts@[c].handshaking,
                        self.capacity.counts@[c].active,
                    ),
            decreases self.max_po + 1 - b,
        {
            let bin: Bin = Bin { raw: b };
            let count: PhaseCount = self.capacity.count(bin);
            phases.push((bin, count.dialing, count.handshaking, count.active));
            b = b + 1;
        }
        phases
    }

    /// Number of connected peers.
    pub fn connected_peers_total(&self) -> (n: usize)
        requires
            self.wf(),
        ensures
            n == super::proximity_index::population(self.connected_peers.contents()),
    {
        self.connected_peers.len()
    }

    /// Connected peers whose handshake-confirmed node type stores chunks.
    pub fn connected_storer_total(&self, book: &PeerBook) -> (n: usize)
        requires
            book.wf(),
        ensures
            n == storer_count(
                super::proximity_index::concatenated(self.connected_peers.contents()),
                *book,
            ),
    {
        let peers: Vec<OverlayAddress> = self.connected_peers.all_peers();
        let mut n: usize = 0;
        let mut i: usize = 0;
        while i < peers.len()
            invariant
                book.wf(),
                i <= peers.len(),
                n <= i,
                n == storer_count(peers@.subrange(0, i as int), *book),
            decreases peers.len() - i,
        {
            proof {
                assert(peers@.subrange(0, i + 1).drop_last() =~= peers@.subrange(0, i as int));
            }
            let stores: bool = match book.node_type(&peers[i]) {
                Some(node_type) => node_type.requires_storage(),
                None => false,
            };
            if stores {
                n = n + 1;
            }
            i = i + 1;
        }
        proof {
            assert(peers@.subrange(0, i as int) =~= peers@);
        }
        n
    }

    /// Connected peers of `bin`.
    pub fn connected_overlays_in_bin(&self, bin: Bin) -> (peers: Vec<OverlayAddress>)
        requires
            self.wf(),
        ensures
            bin.raw <= self.max_po ==> peers@ == self.connected_peers.contents()[bin.raw as int],
            bin.raw > self.max_po ==> peers.len() == 0,
    {
        self.connected_peers.peers_in_bin(bin)
    }

    /// How many sub-prefix slots of `bin` its connected peers fill.
    pub fn filled_slots(&self, bin: Bin) -> (n: usize)
        requires
            self.wf(),
            bin.wf(),
        ensures
            bin.raw <= self.max_po ==> n == super::slots::slots_filled(
                self.connected_peers.contents()[bin.raw as int],
                bin,
            ).len(),
            bin.raw > self.max_po ==> n == 0,
    {
        let peers: Vec<OverlayAddress> = self.connected_peers.peers_in_bin(bin);
        count_slots(&peers, bin)
    }

    /// A summary of the table: the bins that hold or know peers, with the
    /// neighborhood boundary marked, and the totals.
    pub fn status(&self, book: &PeerBook) -> (status: RoutingStatus)
        requires
            self.wf(),
            book.wf(),
        ensures
            status.depth == self.depth,
            status.connected == self.connected_peers.count,
            status.known == book.records.len(),
            status.bins@ == populated_bins(
                self.sizes(),
                KademliaRouting::known_sizes(*book),
                self.depth.raw,
                (self.max_po + 1) as nat,
            ),
    {
        let connected: Vec<usize> = self.connected_peers.bin_sizes();
        let known: Vec<usize> = book.bin_sizes();
        proof {
            assert(connected@ =~= self.sizes());
            assert(known@ =~= KademliaRouting::known_sizes(*book));
        }
        let mut bins: Vec<BinStatus> = Vec::new();
        let mut b: u8 = 0;
        while b <= self.max_po
            invariant
                self.wf(),
                b <= self.max_po + 1,
                bins@ == populated_bins(connected@, known@, self.depth.raw, b as nat),
            decreases self.max_po + 1 - b,
        {
            let at: usize = b as usize;
            let c: usize = if at < connected.len() {
                connected[at]
            } else {
                0
            };
            let k: usize = if at < known.len() {
                known[at]
            } else {
                0
            };
            if c > 0 || k > 0 {
                bins.push(
                    BinStatus { bin: b, connected: c, known: k, at_depth: b == self.depth.raw },
                );
            }
            b = b + 1;
        }
        RoutingStatus {
            depth: self.depth,
            connected: self.connected_peers.len(),
            known: book.len(),
            bins,
        }
    }

    /// Identify peers to evict from overpopulated bins.
    ///
    /// Handshaking peers go first, then active peers least worth keeping by
    /// rank, score and prefix diversity. Bins of the neighborhood are never
    /// trimmed.
    pub fn eviction_candidates(&self, book: &PeerBook, ranks: &EvictionRanks) -> (candidates: Vec<
        EvictionCandidate,
    >)
        requires
            self.wf(),
            book.wf(),
        ensures
            candidates@ == self.evictions(*book, *ranks, self.depth.raw as nat),
            // Of two connected peers of a bin the one that goes has the lower
            // rank, or the same rank and no higher score.
            forall|i: int, w: OverlayAddress|
                #![trigger self.connected_peers.contents()[candidates@[i].bin.raw as int].contains(w)]
                {
                    &&& 0 <= i < candidates@.len()
                    &&& candidates@[i].phase == EvictionPhase::Active
                    &&& self.connected_peers.contents()[candidates@[i].bin.raw as int].contains(w)
                    &&& forall|j: int|
                        #![trigger candidates@[j]]
                        0 <= j < candidates@.len() ==> candidates@[j].overlay != w
                } ==> {
                    let v = candidates@[i].overlay;
                    let held = match book.lookup(v) {
                        Some(record) => record.score,
                        None => 0,
                    };
                    let kept = match book.lookup(w) {
                        Some(record) => record.score,
                        None => 0,
                    };
                    ||| ranks.rank_of(v) < ranks.rank_of(w)
                    ||| ranks.rank_of(v) == ranks.rank_of(w) && held <= kept
                },
            // Every overfull bin below the depth gives somebody up.
            forall|b: int|
                #![trigger self.capacity.counts@[b]]
                {
                    let count = self.capacity.counts@[b];
                    let held = count.handshaking + count.active;
                    let target = self.config.limits.spec_target(Bin { raw: b as u8 }, self.depth);
                    &&& 0 <= b < self.depth.raw
                    &&& target < usize::MAX
                    &&& held > target
                    &&& held > self.config.limits.oversaturation
                    &&& self.connected_peers.contents()[b].len() > 0
                } ==> exists|i: int|
                    #![trigger candidates@[i]]
                    0 <= i < candidates@.len() && candidates@[i].bin.raw == b,
            // A named peer is one of its bin, below the depth.
            forall|i: int|
                #![trigger candidates@[i]]
                0 <= i < candidates@.len() ==> {
                    &&& candidates@[i].bin.raw < self.depth.raw
                    &&& candidates@[i].phase == EvictionPhase::Active
                        ==> self.connected_peers.contents()[candidates@[i].bin.raw as int].contains(
                        candidates@[i].overlay,
                    )
                    &&& candidates@[i].phase == EvictionPhase::Handshaking
                        ==> super::capacity::phase_of(
                        self.capacity.connections@,
                        candidates@[i].overlay,
                    ) == Some(ConnectionPhase::Handshaking) && self.bin_of(candidates@[i].overlay)
                        == candidates@[i].bin.raw
                },
    {
        let mut candidates: Vec<EvictionCandidate> = Vec::new();
        let mut b: u8 = 0;
        while b < self.depth.raw
            invariant
                self.wf(),
                book.wf(),
                b <= self.depth.raw,
                candidates@ == self.evictions(*book, *ranks, b as nat),
            decreases self.depth.raw - b,
        {
            let mut nominees: Vec<EvictionCandidate> = self.bin_eviction_candidates(
                book,
                ranks,
                Bin { raw: b },
            );
            candidates.append(&mut nominees);
            b = b + 1;
        }
        proof {
            let depth = self.depth.raw as nat;
            assert forall|i: int, w: OverlayAddress|
                #![trigger self.connected_peers.contents()[candidates@[i].bin.raw as int].contains(w)]
                {
                    &&& 0 <= i < candidates@.len()
                    &&& candidates@[i].phase == EvictionPhase::Active
                    &&& self.connected_peers.contents()[candidates@[i].bin.raw as int].contains(w)
                    &&& forall|j: int|
                        #![trigger candidates@[j]]
                        0 <= j < candidates@.len() ==> candidates@[j].overlay != w
                } implies {
                let v = candidates@[i].overlay;
                let held = match book.lookup(v) {
                    Some(record) => record.score,
                    None => 0,
                };
                let kept = match book.lookup(w) {
                    Some(record) => record.score,
                    None => 0,
                };
                ||| ranks.rank_of(v) < ranks.rank_of(w)
                ||| ranks.rank_of(v) == ranks.rank_of(w) && held <= kept
            } by {
                an_evicted_peer_is_worth_no_more(*self, *book, *ranks, depth, candidates@[i], w);
            }
            assert forall|b: int|
                #![trigger self.capacity.counts@[b]]
                {
                    let count = self.capacity.counts@[b];
                    let held = count.handshaking + count.active;
                    let target = self.config.limits.spec_target(Bin { raw: b as u8 }, self.depth);
                    &&& 0 <= b < self.depth.raw
                    &&& target < usize::MAX
                    &&& held > target
                    &&& held > self.config.limits.oversaturation
                    &&& self.connected_peers.contents()[b].len() > 0
                } implies exists|i: int|
                #![trigger candidates@[i]]
                0 <= i < candidates@.len() && candidates@[i].bin.raw == b by {
                overfull_bins_give_somebody_up(*self, *book, *ranks, depth, b);
            }
            assert forall|i: int| #![trigger candidates@[i]] 0 <= i < candidates@.len() implies {
                &&& candidates@[i].bin.raw < self.depth.raw
                &&& candidates@[i].phase == EvictionPhase::Active
                    ==> self.connected_peers.contents()[candidates@[i].bin.raw as int].contains(
                    candidates@[i].overlay,
                )
                &&& candidates@[i].phase == EvictionPhase::Handshaking
                    ==> super::capacity::phase_of(
                    self.capacity.connections@,
                    candidates@[i].overlay,
                ) == Some(ConnectionPhase::Handshaking) && self.bin_of(candidates@[i].overlay)
                    == candidates@[i].bin.raw
            } by {
                evicted_peers_belong_to_the_bin(*self, *book, *ranks, depth, candidates@[i]);
            }
        }
        candidates
    }

    fn bin_eviction_candidates(
        &self,
        book: &PeerBook,
        ranks: &EvictionRanks,
        bin: Bin,
    ) -> (nominees: Vec<EvictionCandidate>)
        requires
            self.wf(),
            book.wf(),
            bin.raw <= self.max_po,
        ensures
            nominees@ == self.bin_evictions(*book, *ranks, bin),
    {
        let mut nominees: Vec<EvictionCandidate> = Vec::new();
        let evictable: usize = self.capacity.evictable_count(bin);
        let surplus: usize = self.config.limits.surplus(bin, self.depth, evictable);
        if surplus == 0 {
            return nominees;
        }
        let mut handshaking: Vec<OverlayAddress> = self.capacity.handshaking_in_bin(bin);
        if handshaking.len() > surplus {
            handshaking.truncate(surplus);
        }
        let remaining: usize = surplus - handshaking.len();
        let mut i: usize = 0;
        while i < handshaking.len()
            invariant
                i <= handshaking.len(),
                nominees@ == nominated(
                    handshaking@.subrange(0, i as int),
                    bin,
                    EvictionPhase::Handshaking,
                ),
            decreases handshaking.len() - i,
        {
            nominees.push(
                EvictionCandidate {
                    overlay: handshaking[i],
                    bin,
                    phase: EvictionPhase::Handshaking,
                },
            );
            i = i + 1;
            proof {
                assert(nominees@ =~= nominated(
                    handshaking@.subrange(0, i as int),
                    bin,
                    EvictionPhase::Handshaking,
                ));
            }
        }
        proof {
            assert(handshaking@.subrange(0, i as int) =~= handshaking@);
        }
        let ghost first = nominees@;
        let pool: Vec<TrimEntry> = self.trim_entries(book, ranks, bin);
        let victims: Vec<OverlayAddress> = select_trim_victims(pool, remaining);
        let mut k: usize = 0;
        while k < victims.len()
            invariant
                k <= victims.len(),
                nominees@ == first + nominated(
                    victims@.subrange(0, k as int),
                    bin,
                    EvictionPhase::Active,
                ),
            decreases victims.len() - k,
        {
            nominees.push(
                EvictionCandidate { overlay: victims[k], bin, phase: EvictionPhase::Active },
            );
            k = k + 1;
            proof {
                assert(nominees@ =~= first + nominated(
                    victims@.subrange(0, k as int),
                    bin,
                    EvictionPhase::Active,
                ));
            }
        }
        proof {
            assert(victims@.subrange(0, k as int) =~= victims@);
        }
        nominees
    }

    fn trim_entries(&self, book: &PeerBook, ranks: &EvictionRanks, bin: Bin) -> (pool: Vec<
        TrimEntry,
    >)
        requires
            self.wf(),
            book.wf(),
            bin.raw <= self.max_po,
        ensures
            pool@ == trim_pool(
                self.connected_peers.contents()[bin.raw as int],
                *book,
                *ranks,
            ),
    {
        let peers: Vec<OverlayAddress> = self.connected_peers.peers_in_bin(bin);
        let mut pool: Vec<TrimEntry> = Vec::new();
        let mut i: usize = 0;
        while i < peers.len()
            invariant
                book.wf(),
                i <= peers.len(),
                pool@ == trim_pool(peers@.subrange(0, i as int), *book, *ranks),
            decreases peers.len() - i,
        {
            let overlay: OverlayAddress = peers[i];
            let rank: u64 = ranks.rank(&overlay);
            let score: i64 = book.get_peer_score(&overlay);
            pool.push(TrimEntry { overlay, rank, score });
            i = i + 1;
            proof {
                assert(pool@ =~= trim_pool(peers@.subrange(0, i as int), *book, *ranks));
            }
        }
        proof {
            assert(peers@.subrange(0, i as int) =~= peers@);
        }
        pool
    }

    /// Notify that a peer has connected: it joins its bin, the depth is
    /// published and the stability clock anchored.
    pub fn connected(&mut self, peer: OverlayAddress, now: Instant)
        requires
            old(self).wf(),
        ensures
            final(self).wf(),
            old(self).connected_peers.holds(peer) || old(self).connected_peers.count == usize::MAX
                ==> *final(self) == *old(self),
            !old(self).connected_peers.holds(peer) && old(self).connected_peers.count < usize::MAX
                ==> {
                let bin = old(self).bin_of(peer);
                &&& final(self).connected_peers.contents() == old(
                    self,
                ).connected_peers.contents().update(
                    bin,
                    old(self).connected_peers.contents()[bin].push(peer),
                )
                &&& final(self).connected_peers.holds(peer)
                &&& final(self).connected_peers.count == old(self).connected_peers.count + 1
                &&& *final(self) == (KademliaRouting {
                    connected_peers: final(self).connected_peers,
                    ..*old(self)
                }).published(now).anchored(now)
            },
            !old(self).connected_peers.holds(peer) && old(self).connected_peers.count < usize::MAX
                && old(self).config.limits.saturation <= u8::MAX ==> is_frontier(
                final(self).connected_peers.contents(),
                final(self).config.limits.saturation,
                final(self).depth.raw as int,
            ) || (final(self).depth == old(self).depth && final(self).pending_depth_lower is Some),
    {
        let result: Result<(), AddError> = self.connected_peers.add(peer);
        proof {
            match result {
                Ok(()) => {},
                Err(AddError::AlreadyPresent) => {},
                Err(AddError::BinFull) => {},
                Err(AddError::IndexFull) => {},
            }
        }
        if result.is_ok() {
            let _moved: bool = self.publish_depth_at(now);
            self.update_neighborhood_stability(now);
        }
    }

    /// Update the table for a disconnected peer.
    pub fn on_peer_disconnected(&mut self, peer: &OverlayAddress, now: Instant)
        requires
            old(self).wf(),
        ensures
            final(self).wf(),
            !final(self).connected_peers.holds(*peer),
            !old(self).connected_peers.holds(*peer) ==> *final(self) == *old(self),
            old(self).connected_peers.holds(*peer) ==> {
                let bin = old(self).bin_of(*peer);
                let row = old(self).connected_peers.contents()[bin];
                &&& final(self).connected_peers.contents() == old(
                    self,
                ).connected_peers.contents().update(bin, row.remove(row.index_of(*peer)))
                &&& *final(self) == (KademliaRouting {
                    connected_peers: final(self).connected_peers,
                    ..*old(self)
                }).published(now).anchored(now)
            },
            old(self).connected_peers.holds(*peer) && old(self).config.limits.saturation <= u8::MAX
                ==> is_frontier(
                final(self).connected_peers.contents(),
                final(self).config.limits.saturation,
                final(self).depth.raw as int,
            ) || (final(self).depth == old(self).depth && final(self).pending_depth_lower is Some),
    {
        let removed: bool = self.connected_peers.remove(peer);
        if removed {
            let _moved: bool = self.publish_depth_at(now);
            self.update_neighborhood_stability(now);
        }
    }

    /// Remove a banned peer from the connected peers. The depth stays as it
    /// was published; the stability clock sees the smaller neighborhood.
    pub fn remove_peer(&mut self, peer: &OverlayAddress, now: Instant)
        requires
            old(self).wf(),
        ensures
            final(self).wf(),
            !final(self).connected_peers.holds(*peer),
            !old(self).connected_peers.holds(*peer) ==> *final(self) == old(self).anchored(now),
            old(self).connected_peers.holds(*peer) ==> {
                let bin = old(self).bin_of(*peer);
                let row = old(self).connected_peers.contents()[bin];
                &&& final(self).connected_peers.contents() == old(
                    self,
                ).connected_peers.contents().update(bin, row.remove(row.index_of(*peer)))
                &&& *final(self) == (KademliaRouting {
                    connected_peers: final(self).connected_peers,
                    ..*old(self)
                }).anchored(now)
            },
    {
        let _removed: bool = self.connected_peers.remove(peer);
        self.update_neighborhood_stability(now);
    }

    /// Check capacity and reserve a dial slot. Returns `true` if reserved,
    /// `false` if the bin wants no more peers or the peer is tracked already.
    pub fn try_reserve_dial(
        &mut self,
        overlay: &OverlayAddress,
        _node_type: SwarmNodeType,
    ) -> (reserved: bool)
        requires
            old(self).wf(),
            old(self).capacity.has_room(*overlay),
        ensures
            final(self).wf(),
            *final(self) == (KademliaRouting {
                capacity: final(self).capacity,
                ..*old(self)
            }),
            reserved == (!super::capacity::tracks(old(self).capacity.connections@, *overlay) && old(
                self,
            ).config.limits.spec_needs_more(
                Bin { raw: old(self).bin_of(*overlay) as u8 },
                old(self).depth,
                old(self).capacity.counts@[old(self).bin_of(*overlay)].total() as usize,
            )),
            reserved <==> {
                let bin = Bin { raw: old(self).bin_of(*overlay) as u8 };
                let count = old(self).capacity.counts@[bin.raw as int];
                let target = old(self).config.limits.spec_target(bin, old(self).depth);
                &&& !super::capacity::tracks(old(self).capacity.connections@, *overlay)
                &&& target == usize::MAX || count.dialing + count.handshaking + count.active
                    < target
            },
            !reserved ==> *final(self) == *old(self),
            reserved ==> final(self).capacity.state() == super::capacity::with_tracked(
                old(self).capacity.state(),
                *overlay,
                old(self).bin_of(*overlay),
                ConnectionPhase::Dialing,
            ),
            old(self).capacity.exact() ==> final(self).capacity.exact(),
            forall|other: OverlayAddress| #[trigger]
                super::capacity::phase_of(final(self).capacity.connections@, other) == if other == *overlay && reserved {
                    Some(ConnectionPhase::Dialing)
                } else {
                    super::capacity::phase_of(old(self).capacity.connections@, other)
                },
    {
        let bin: Bin = self.bin_for(overlay);
        let effective: usize = self.effective_count(bin);
        if self.capacity.is_tracked(overlay) {
            return false;
        }
        if !self.config.limits.needs_more(bin, self.depth, effective) {
            return false;
        }
        self.capacity.track(overlay, ConnectionPhase::Dialing);
        true
    }

    /// Release a dial reservation. The peer is no longer tracked afterwards,
    /// whatever its phase was; only a dialing one gives its slot back.
    pub fn release_dial(&mut self, overlay: &OverlayAddress)
        requires
            old(self).wf(),
        ensures
            final(self).wf(),
            *final(self) == (KademliaRouting {
                capacity: final(self).capacity,
                ..*old(self)
            }),
            final(self).capacity.state() == super::capacity::after_release(
                old(self).capacity.state(),
                *overlay,
                old(self).bin_of(*overlay),
                Some(ConnectionPhase::Dialing),
            ),
            old(self).capacity.exact() && (super::capacity::phase_of(
                old(self).capacity.connections@,
                *overlay,
            ) matches Some(phase) ==> phase == ConnectionPhase::Dialing) ==> final(
                self).capacity.exact(),
            forall|other: OverlayAddress| #[trigger]
                super::capacity::phase_of(final(self).capacity.connections@, other) == if other == *overlay {
                    None
                } else {
                    super::capacity::phase_of(old(self).capacity.connections@, other)
                },
            forall|other: OverlayAddress| #[trigger]
                old(self).capacity.has_room(other) ==> final(self).capacity.has_room(other),
    {
        let _phase: Option<ConnectionPhase> = self.capacity.untrack(
            overlay,
            Some(ConnectionPhase::Dialing),
        );
    }

    /// Transition from dialing to handshaking.
    pub fn dial_connected(&mut self, overlay: &OverlayAddress)
        requires
            old(self).wf(),
        ensures
            final(self).wf(),
            *final(self) == (KademliaRouting {
                capacity: final(self).capacity,
                ..*old(self)
            }),
            final(self).capacity.state() == super::capacity::after_advance(
                old(self).capacity.state(),
                *overlay,
                old(self).bin_of(*overlay),
                ConnectionPhase::Dialing,
                ConnectionPhase::Handshaking,
            ),
            old(self).capacity.exact() ==> final(self).capacity.exact(),
            forall|other: OverlayAddress| #[trigger]
                super::capacity::phase_of(final(self).capacity.connections@, other) == if other == *overlay && super::capacity::phase_of(
                    old(self).capacity.connections@,
                    other,
                ) == Some(ConnectionPhase::Dialing) {
                    Some(ConnectionPhase::Handshaking)
                } else {
                    super::capacity::phase_of(old(self).capacity.connections@, other)
                },
            forall|other: OverlayAddress| #[trigger]
                old(self).capacity.has_room(other) ==> final(self).capacity.has_room(other),
    {
        let _advanced: bool = self.capacity.advance(
            overlay,
            ConnectionPhase::Dialing,
            ConnectionPhase::Handshaking,
        );
    }

    /// Transition from handshaking to active.
    pub fn handshake_completed(&mut self, overlay: &OverlayAddress)
        requires
            old(self).wf(),
        ensures
            final(self).wf(),
            *final(self) == (KademliaRouting {
                capacity: final(self).capacity,
                ..*old(self)
            }),
            final(self).capacity.state() == super::capacity::after_advance(
                old(self).capacity.state(),
                *overlay,
                old(self).bin_of(*overlay),
                ConnectionPhase::Handshaking,
                ConnectionPhase::Active,
            ),
            old(self).capacity.exact() ==> final(self).capacity.exact(),
            forall|other: OverlayAddress| #[trigger]
                super::capacity::phase_of(final(self).capacity.connections@, other) == if other == *overlay && super::capacity::phase_of(
                    old(self).capacity.connections@,
                    other,
                ) == Some(ConnectionPhase::Handshaking) {
                    Some(ConnectionPhase::Active)
                } else {
                    super::capacity::phase_of(old(self).capacity.connections@, other)
                },
            forall|other: OverlayAddress| #[trigger]
                old(self).capacity.has_room(other) ==> final(self).capacity.has_room(other),
    {
        let _advanced: bool = self.capacity.advance(
            overlay,
            ConnectionPhase::Handshaking,
            ConnectionPhase::Active,
        );
    }

    /// Release a handshaking reservation. The peer is no longer tracked
    /// afterwards, whatever its phase was; only a handshaking one gives its
    /// slot back.
    pub fn release_handshake(&mut self, overlay: &OverlayAddress)
        requires
            old(self).wf(),
        ensures
            final(self).wf(),
            *final(self) == (KademliaRouting {
                capacity: final(self).capacity,
                ..*old(self)
            }),
            final(self).capacity.state() == super::capacity::after_release(
                old(self).capacity.state(),
                *overlay,
                old(self).bin_of(*overlay),
                Some(ConnectionPhase::Handshaking),
            ),
            forall|other: OverlayAddress| #[trigger]
                old(self).capacity.has_room(other) ==> final(self).capacity.has_room(other),
            old(self).capacity.exact() && (super::capacity::phase_of(
                old(self).capacity.connections@,
                *overlay,
            ) matches Some(phase) ==> phase == ConnectionPhase::Handshaking) ==> final(
                self).capacity.exact(),
            forall|other: OverlayAddress| #[trigger]
                super::capacity::phase_of(final(self).capacity.connections@, other) == if other == *overlay {
                    None
                } else {
                    super::capacity::phase_of(old(self).capacity.connections@, other)
                },
    {
        let _phase: Option<ConnectionPhase> = self.capacity.untrack(
            overlay,
            Some(ConnectionPhase::Handshaking),
        );
    }

    /// The connection is gone: release its slot, whatever its phase was.
    pub fn disconnected(&mut self, overlay: &OverlayAddress)
        requires
            old(self).wf(),
        ensures
            final(self).wf(),
            *final(self) == (KademliaRouting {
                capacity: final(self).capacity,
                ..*old(self)
            }),
            final(self).capacity.state() == super::capacity::after_release(
                old(self).capacity.state(),
                *overlay,
                old(self).bin_of(*overlay),
                None,
            ),
            old(self).capacity.exact() ==> final(self).capacity.exact(),
            forall|other: OverlayAddress| #[trigger]
                super::capacity::phase_of(final(self).capacity.connections@, other) == if other == *overlay {
                    None
                } else {
                    super::capacity::phase_of(old(self).capacity.connections@, other)
                },
            forall|other: OverlayAddress| #[trigger]
                old(self).capacity.has_room(other) ==> final(self).capacity.has_room(other),
    {
        let _phase: Option<ConnectionPhase> = self.capacity.untrack(overlay, None);
    }

    /// Whether an inbound connection of the peer can be accepted.
    pub fn should_accept_inbound(
        &self,
        overlay: &OverlayAddress,
        _node_type: SwarmNodeType,
    ) -> (accept: bool)
        requires
            self.wf(),
        ensures
            accept == self.accepts_inbound(self.capacity.state(), *overlay),
            accept <==> {
                let bin = Bin { raw: self.bin_of(*overlay) as u8 };
                let count = self.capacity.counts@[bin.raw as int];
                &&& !super::capacity::tracks(self.capacity.connections@, *overlay)
                &&& self.config.limits.spec_target(bin, self.depth) == usize::MAX || count.dialing
                    + count.handshaking + count.active < self.config.limits.spec_ceiling(
                    bin,
                    self.depth,
                )
            },
    {
        let bin: Bin = self.bin_for(overlay);
        let effective: usize = self.effective_count(bin);
        !self.capacity.is_tracked(overlay) && self.config.limits.should_accept_inbound(
            bin,
            self.depth,
            effective,
        )
    }

    /// Reserve capacity for an accepted inbound connection, unless the peer is
    /// tracked already.
    pub fn reserve_inbound(&mut self, overlay: &OverlayAddress)
        requires
            old(self).wf(),
            old(self).capacity.has_room(*overlay),
        ensures
            final(self).wf(),
            *final(self) == (KademliaRouting {
                capacity: final(self).capacity,
                ..*old(self)
            }),
            final(self).capacity.state() == super::capacity::after_reserve(
                old(self).capacity.state(),
                *overlay,
                old(self).bin_of(*overlay),
            ),
            old(self).capacity.exact() ==> final(self).capacity.exact(),
            forall|other: OverlayAddress| #[trigger]
                super::capacity::phase_of(final(self).capacity.connections@, other) == if other == *overlay && !super::capacity::tracks(
                    old(self).capacity.connections@,
                    other,
                ) {
                    Some(ConnectionPhase::Handshaking)
                } else {
                    super::capacity::phase_of(old(self).capacity.connections@, other)
                },
    {
        if !self.capacity.is_tracked(overlay) {
            self.capacity.track(overlay, ConnectionPhase::Handshaking);
        }
    }

    /// Take the next dial candidate, deepest bin first.
    pub fn pop_candidate(&mut self) -> (peer: Option<OverlayAddress>)
        requires
            old(self).wf(),
        ensures
            final(self).wf(),
            *final(self) == (KademliaRouting {
                candidate_queues: final(self).candidate_queues,
                ..*old(self)
            }),
            final(self).candidate_queues.max_per_bin == old(self).candidate_queues.max_per_bin,
            peer is None ==> {
                &&& *final(self) == *old(self)
                &&& forall|b: int|
                    0 <= b < old(self).candidate_queues.contents().len() ==> #[trigger] old(
                        self,
                    ).candidate_queues.contents()[b].len() == 0
            },
            forall|b: int|
                #![trigger old(self).candidate_queues.contents()[b]]
                super::candidate_queues::deepest_occupied(
                    old(self).candidate_queues.contents(),
                    b,
                ) ==> {
                    let bins = old(self).candidate_queues.contents();
                    &&& peer == Some(bins[b].first())
                    &&& final(self).candidate_queues.contents() == bins.update(
                        b,
                        bins[b].drop_first(),
                    )
                },
    {
        self.candidate_queues.pop_next()
    }

    /// Return a candidate that was not dialed to its bin queue.
    pub fn requeue_candidate(&mut self, peer: OverlayAddress)
        requires
            old(self).wf(),
        ensures
            final(self).wf(),
            *final(self) == (KademliaRouting {
                candidate_queues: final(self).candidate_queues,
                ..*old(self)
            }),
            final(self).candidate_queues.max_per_bin == old(self).candidate_queues.max_per_bin,
            final(self).candidate_queues.contents() == super::candidate_queues::enqueued(
                old(self).candidate_queues.contents(),
                old(self).candidate_queues.max_per_bin as nat,
                old(self).bin_of(peer),
                peer,
            ),
    {
        let bin: Bin = self.bin_for(&peer);
        let _queued: bool = self.candidate_queues.push(bin, peer);
    }

    /// Capture the state that a selection round works on.
    pub fn capture_candidate_state(&self, effective_depth: NeighborhoodDepth) -> (snapshot:
        CandidateSnapshot)
        ensures
            self.captures(snapshot, effective_depth),
    {
        let in_progress: Vec<OverlayAddress> = self.capacity.tracked_overlays();
        proof {
            assert(in_progress@ =~= self.capacity.connections@.map_values(
                |c: super::capacity::TrackedConnection| c.overlay,
            ));
        }
        CandidateSnapshot {
            limits: LimitsSnapshot::capture(&self.config.limits, effective_depth),
            in_progress,
            queued: self.candidate_queues.snapshot_queued(),
        }
    }

    fn occupied(&self) -> (occupancy: Vec<usize>)
        requires
            self.wf(),
        ensures
            occupancy@ == self.occupancy(),
    {
        let mut occupancy: Vec<usize> = Vec::new();
        let mut b: u8 = 0;
        while (b as usize) < DEPTH_BINS
            invariant
                self.wf(),
                b <= DEPTH_BINS,
                occupancy.len() == b,
                forall|c: int| 0 <= c < b ==> occupancy@[c] == self.occupancy()[c],
            decreases DEPTH_BINS - b,
        {
            occupancy.push(self.effective_count(Bin { raw: b }));
            b = b + 1;
        }
        proof {
            assert(occupancy@ =~= self.occupancy());
        }
        occupancy
    }

    /// Evaluate connections and enqueue dial candidates into the bin queues.
    /// Allocation uses the larger of the published depth and the depth that
    /// the known peers suggest.
    pub fn evaluate_connections(&mut self, book: &PeerBook)
        requires
            old(self).wf(),
            book.wf(),
        ensures
            final(self).wf(),
            *final(self) == (KademliaRouting {
                candidate_queues: final(self).candidate_queues,
                ..*old(self)
            }),
            final(self).candidate_queues.max_per_bin == old(self).candidate_queues.max_per_bin,
            exists|snapshot: CandidateSnapshot|
                #![trigger old(self).selected(snapshot, *book)]
                old(self).captures(
                    snapshot,
                    super::limits::allocation_depth(
                        old(self).depth,
                        KademliaRouting::known_sizes(*book),
                        old(self).config.limits.nominal,
                    ),
                ) && final(self).candidate_queues.contents() == all_enqueued(
                    old(self).candidate_queues.contents(),
                    old(self).candidate_queues.max_per_bin as nat,
                    old(self).local,
                    old(self).max_po,
                    old(self).selected(snapshot, *book),
                ),
            // What was newly queued may be dialed.
            book.local == old(self).local && book.max_po == old(self).max_po ==> forall|
                peer: OverlayAddress,
            |
                #![trigger super::candidate_queues::queued(final(self).candidate_queues.contents(), peer)]
                super::candidate_queues::queued(final(self).candidate_queues.contents(), peer)
                    && !super::candidate_queues::queued(
                    old(self).candidate_queues.contents(),
                    peer,
                ) ==> {
                    &&& book.lookup(peer) matches Some(record) && !record.banned
                        && !record.in_backoff
                    &&& !old(self).connected_peers.holds(peer)
                    &&& !super::capacity::tracks(old(self).capacity.connections@, peer)
                },
            // No bin is given candidates past its target.
            book.local == old(self).local && book.max_po == old(self).max_po ==> forall|
                b: int,
                named: Seq<OverlayAddress>,
            |
                #![trigger newly_queued(old(self).candidate_queues.contents(), final(self).candidate_queues.contents(), b, named)]
                0 <= b <= old(self).max_po && named.len() > 0 && newly_queued(
                    old(self).candidate_queues.contents(),
                    final(self).candidate_queues.contents(),
                    b,
                    named,
                ) ==> {
                    let count = old(self).capacity.counts@[b];
                    let target = old(self).config.limits.spec_target(
                        Bin { raw: b as u8 },
                        super::limits::allocation_depth(
                            old(self).depth,
                            KademliaRouting::known_sizes(*book),
                            old(self).config.limits.nominal,
                        ),
                    );
                    target == usize::MAX || count.dialing + count.handshaking + count.active
                        + named.len() <= target
                },
    {
        let connected_depth: NeighborhoodDepth = self.depth;
        let known_bin_sizes: Vec<usize> = book.bin_sizes();
        proof {
            assert(known_bin_sizes@ =~= KademliaRouting::known_sizes(*book));
        }
        let effective_depth: NeighborhoodDepth = self.config.limits.effective_depth(
            connected_depth,
            known_bin_sizes.as_slice(),
        );
        let snapshot: CandidateSnapshot = self.capture_candidate_state(effective_depth);
        let budget: usize = self.config.max_neighbor_candidates.saturating_add(
            self.config.max_balanced_candidates,
        );
        let occupancy: Vec<usize> = self.occupied();
        let mut selector: CandidateSelector<'_> = CandidateSelector::new(
            &snapshot,
            &self.connected_peers,
            budget,
        );
        select_neighborhood_candidates(&mut selector, book, &occupancy, self.max_bin());
        select_balanced_candidates(&mut selector, book, &occupancy);
        let new_candidates: Vec<OverlayAddress> = selector.finish();
        proof {
            assert(new_candidates@ == old(self).selected(snapshot, *book));
        }
        let mut i: usize = 0;
        while i < new_candidates.len()
            invariant
                i <= new_candidates.len(),
                self.wf(),
                *self == (KademliaRouting {
                    candidate_queues: self.candidate_queues,
                    ..*old(self)
                }),
                self.candidate_queues.max_per_bin == old(self).candidate_queues.max_per_bin,
                self.candidate_queues.contents() == all_enqueued(
                    old(self).candidate_queues.contents(),
                    old(self).candidate_queues.max_per_bin as nat,
                    old(self).local,
                    old(self).max_po,
                    new_candidates@.subrange(0, i as int),
                ),
            decreases new_candidates.len() - i,
        {
            proof {
                assert(new_candidates@.subrange(0, i + 1).drop_last() =~= new_candidates@.subrange(
                    0,
                    i as int,
                ));
            }
            let peer: OverlayAddress = new_candidates[i];
            let bin: Bin = self.bin_for(&peer);
            let _queued: bool = self.candidate_queues.push(bin, peer);
            i = i + 1;
        }
        proof {
            assert(new_candidates@.subrange(0, i as int) =~= new_candidates@);
            if book.local == old(self).local && book.max_po == old(self).max_po {
                let before = old(self).candidate_queues.contents();
                let after = self.candidate_queues.contents();
                assert forall|peer: OverlayAddress|
                    #![trigger super::candidate_queues::queued(after, peer)]
                    super::candidate_queues::queued(after, peer) && !super::candidate_queues::queued(
                        before,
                        peer,
                    ) implies {
                    &&& book.lookup(peer) matches Some(record) && !record.banned
                        && !record.in_backoff
                    &&& !old(self).connected_peers.holds(peer)
                    &&& !super::capacity::tracks(old(self).capacity.connections@, peer)
                } by {
                    queued_candidates_may_be_dialed(*old(self), *book, snapshot, peer);
                }
                assert forall|b: int, named: Seq<OverlayAddress>|
                    #![trigger newly_queued(before, after, b, named)]
                    0 <= b <= old(self).max_po && named.len() > 0 && newly_queued(
                        before,
                        after,
                        b,
                        named,
                    ) implies {
                    let count = old(self).capacity.counts@[b];
                    let target = old(self).config.limits.spec_target(
                        Bin { raw: b as u8 },
                        super::limits::allocation_depth(
                            old(self).depth,
                            KademliaRouting::known_sizes(*book),
                            old(self).config.limits.nominal,
                        ),
                    );
                    target == usize::MAX || count.dialing + count.handshaking + count.active
                        + named.len() <= target
                } by {
                    queued_candidates_stay_within_targets(*old(self), *book, snapshot, b, named);
                }
            }
        }
    }
}

/// `named` are distinct peers that bin `b` of the queues `after` holds, and
/// that no bin of the queues `before` held.
pub open spec fn newly_queued(
    before: Seq<Seq<OverlayAddress>>,
    after: Seq<Seq<OverlayAddress>>,
    b: int,
    named: Seq<OverlayAddress>,
) -> bool {
    &&& named.no_duplicates()
    &&& forall|i: int|
        #![trigger named[i]]
        0 <= i < named.len() ==> after[b].contains(named[i])
            && !super::candidate_queues::queued(before, named[i])
}

/// A count as a byte, capped.
fn to_byte(n: usize) -> (byte: u8)
    ensures
        byte == byte_count(n),
{
    if n > u8::MAX as usize {
        u8::MAX
    } else {
        n as u8
    }
}

/// Some of the bins hold no more than all of them.
proof fn lemma_population_of_part(bins: Seq<Seq<OverlayAddress>>, low: int, high: int)
    requires
        0 <= low <= high <= bins.len(),
    ensures
        super::proximity_index::population(bins.subrange(low, high))
            <= super::proximity_index::population(bins),
    decreases bins.len(),
{
    if high < bins.len() {
        assert(bins.drop_last().subrange(low, high) =~= bins.subrange(low, high));
        lemma_population_of_part(bins.drop_last(), low, high);
    } else if low < high {
        assert(bins.subrange(low, high).drop_last() =~= bins.drop_last().subrange(low, high - 1));
        lemma_population_of_part(bins.drop_last(), low, high - 1);
    }
}

/// Raising the depth is published at once: the published depth is never below
/// the depth that the table supports.
pub proof fn published_depth_covers_raw(routing: KademliaRouting, now: Instant)
    ensures
        routing.published(now).depth.raw >= routing.raw_depth(routing.sizes()).raw,
        routing.raw_depth(routing.sizes()).raw >= routing.depth.raw ==> routing.published(now).depth
            == routing.raw_depth(routing.sizes()),
{
}

/// A deficit within the tolerance never lowers the published depth before it
/// has lasted for the window.
pub proof fn marginal_lowering_is_held(routing: KademliaRouting, now: Instant)
    requires
        routing.deficit(routing.sizes(), routing.depth) <= DEPTH_LOWER_DEFICIT_TOLERANCE,
        routing.pending_depth_lower matches Some(since) ==> now.spec_since(since).nanos
            < routing.config.depth_lower_window.nanos,
    ensures
        routing.published(now).depth.raw >= routing.depth.raw,
{
}

/// A deficit above the tolerance is published at once.
pub proof fn capacity_loss_is_published(routing: KademliaRouting, now: Instant)
    requires
        routing.deficit(routing.sizes(), routing.depth) > DEPTH_LOWER_DEFICIT_TOLERANCE,
    ensures
        routing.published(now).depth == routing.raw_depth(routing.sizes()),
        routing.published(now).pending_depth_lower is None,
{
}

/// `depth` is the shallowest bin that holds fewer than `saturation` peers, or
/// the deepest bin if none does.
pub open spec fn is_frontier(
    bins: Seq<Seq<OverlayAddress>>,
    saturation: usize,
    depth: int,
) -> bool {
    &&& 0 <= depth < bins.len()
    &&& forall|b: int| #![trigger bins[b]] 0 <= b < depth ==> bins[b].len() >= saturation
    &&& depth < bins.len() - 1 ==> bins[depth].len() < saturation
}

proof fn lemma_deficit_covers(
    bins: Seq<Seq<OverlayAddress>>,
    saturation: usize,
    depth: nat,
    b: int,
)
    requires
        depth <= bins.len(),
        0 <= b < depth,
        forall|i: int|
            #![trigger bins[i]]
            0 <= i < bins.len() ==> bins[i].len() <= usize::MAX,
    ensures
        deficit_below(sizes_of(bins), saturation, depth) + bins[b].len() >= saturation,
    decreases depth,
{
    if b < depth - 1 {
        lemma_deficit_covers(bins, saturation, (depth - 1) as nat, b);
    }
    assert(bins[b].len() <= usize::MAX);
}

proof fn lemma_deficit_covers_two(
    bins: Seq<Seq<OverlayAddress>>,
    saturation: usize,
    depth: nat,
    b: int,
    c: int,
)
    requires
        depth <= bins.len(),
        0 <= b < c < depth,
        bins[b].len() <= saturation,
        bins[c].len() <= saturation,
        forall|i: int|
            #![trigger bins[i]]
            0 <= i < bins.len() ==> bins[i].len() <= usize::MAX,
    ensures
        deficit_below(sizes_of(bins), saturation, depth) + bins[b].len() + bins[c].len()
            >= saturation + saturation,
    decreases depth,
{
    if c < depth - 1 {
        lemma_deficit_covers_two(bins, saturation, (depth - 1) as nat, b, c);
    } else {
        lemma_deficit_covers(bins, saturation, (depth - 1) as nat, b);
    }
    assert(bins[c].len() <= usize::MAX);
}

proof fn lemma_deficit_of_one(
    bins: Seq<Seq<OverlayAddress>>,
    saturation: usize,
    depth: nat,
    b: int,
)
    requires
        depth <= bins.len(),
        forall|i: int|
            #![trigger bins[i]]
            0 <= i < bins.len() ==> bins[i].len() <= usize::MAX,
        forall|i: int|
            #![trigger bins[i]]
            0 <= i < depth && i != b ==> bins[i].len() >= saturation,
    ensures
        !(0 <= b < depth) ==> deficit_below(sizes_of(bins), saturation, depth) == 0,
        0 <= b < depth && bins[b].len() <= saturation ==> deficit_below(
            sizes_of(bins),
            saturation,
            depth,
        ) == saturation - bins[b].len(),
    decreases depth,
{
    if depth > 0 {
        lemma_deficit_of_one(bins, saturation, (depth - 1) as nat, b);
        assert(bins[depth - 1].len() <= usize::MAX);
    }
}

proof fn lemma_bins_fit(routing: KademliaRouting)
    requires
        routing.wf(),
    ensures
        routing.connected_peers.contents().len() == routing.max_po + 1,
        forall|i: int|
            #![trigger routing.connected_peers.contents()[i]]
            0 <= i < routing.connected_peers.contents().len()
                ==> routing.connected_peers.contents()[i].len() <= usize::MAX,
{
    let bins = routing.connected_peers.contents();
    assert forall|i: int| #![trigger bins[i]] 0 <= i < bins.len() implies bins[i].len()
        <= usize::MAX by {
        super::proximity_index::lemma_population_at_least(bins, i);
    }
}

proof fn lemma_raw_depth_is_frontier(routing: KademliaRouting)
    requires
        routing.wf(),
        routing.config.limits.saturation <= u8::MAX,
    ensures
        is_frontier(
            routing.connected_peers.contents(),
            routing.config.limits.saturation,
            routing.raw_depth(routing.sizes()).raw as int,
        ),
{
    let bins = routing.connected_peers.contents();
    let depth = routing.raw_depth(routing.sizes()).raw;
    lemma_bins_fit(routing);
    raw_depth_is_the_frontier(routing);
    assert forall|b: int| #![trigger bins[b]] 0 <= b < depth implies bins[b].len()
        >= routing.config.limits.saturation by {
        assert(routing.sizes()[b] >= routing.config.limits.saturation);
        assert(bins[b].len() <= usize::MAX);
    }
    if depth < routing.max_po {
        assert(routing.sizes()[depth as int] < routing.config.limits.saturation);
        assert(bins[depth as int].len() <= usize::MAX);
    }
}

/// Lost capacity lowers the depth at once: where a bin below the published
/// depth is two or more peers short of saturation, or two bins below it are
/// each short, the published depth is the shallowest unsaturated bin, and no
/// lowering is held.
pub proof fn lost_capacity_lowers_at_once(routing: KademliaRouting, now: Instant, b: int, c: int)
    requires
        routing.wf(),
        routing.config.limits.saturation <= u8::MAX,
        0 <= b < routing.depth.raw,
        0 <= c < routing.depth.raw,
        ({
            let bins = routing.connected_peers.contents();
            let saturation = routing.config.limits.saturation;
            ||| bins[b].len() + 2 <= saturation
            ||| b != c && bins[b].len() < saturation && bins[c].len() < saturation
        }),
    ensures
        is_frontier(
            routing.connected_peers.contents(),
            routing.config.limits.saturation,
            routing.published(now).depth.raw as int,
        ),
        routing.published(now).depth.raw <= b,
        routing.published(now).pending_depth_lower is None,
{
    let bins = routing.connected_peers.contents();
    let saturation = routing.config.limits.saturation;
    let depth = routing.depth.raw as nat;
    lemma_bins_fit(routing);
    lemma_raw_depth_is_frontier(routing);
    lemma_deficit_covers(bins, saturation, depth, b);
    if b < c && bins[b].len() < saturation && bins[c].len() < saturation {
        lemma_deficit_covers_two(bins, saturation, depth, b, c);
    }
    if c < b && bins[b].len() < saturation && bins[c].len() < saturation {
        lemma_deficit_covers_two(bins, saturation, depth, c, b);
    }
    assert(bins[b].len() < saturation);
}

/// A single missing peer is no reason to lower the depth before its time:
/// where one bin below the published depth is one peer short and the others
/// are saturated, the depth stays and the lowering is held from its first
/// notice on, until it has lasted for the window; then the shallowest
/// unsaturated bin is published.
pub proof fn a_single_loss_is_held_for_the_window(routing: KademliaRouting, now: Instant, b: int)
    requires
        routing.wf(),
        routing.config.limits.saturation <= u8::MAX,
        0 <= b < routing.depth.raw,
        routing.connected_peers.contents()[b].len() + 1 == routing.config.limits.saturation,
        forall|i: int|
            #![trigger routing.connected_peers.contents()[i]]
            0 <= i < routing.depth.raw && i != b ==> routing.connected_peers.contents()[i].len()
                >= routing.config.limits.saturation,
    ensures
        ({
            let after = routing.published(now);
            let window = routing.config.depth_lower_window.nanos;
            match routing.pending_depth_lower {
                None => after.depth == routing.depth && after.pending_depth_lower == Some(now),
                Some(since) => {
                    let elapsed = if now.nanos >= since.nanos {
                        now.nanos - since.nanos
                    } else {
                        0
                    };
                    if elapsed < window {
                        after.depth == routing.depth && after.pending_depth_lower == Some(since)
                    } else {
                        after.depth.raw == b && after.pending_depth_lower is None
                    }
                },
            }
        }),
{
    let bins = routing.connected_peers.contents();
    let saturation = routing.config.limits.saturation;
    lemma_bins_fit(routing);
    lemma_raw_depth_is_frontier(routing);
    lemma_deficit_of_one(bins, saturation, routing.depth.raw as nat, b);
    let raw = routing.raw_depth(routing.sizes()).raw as int;
    assert(bins[b].len() < saturation);
    assert(raw <= b);
    if raw < b {
        assert(bins[raw].len() >= saturation);
    }
}

/// A table that supports its published depth never lowers it: where every bin
/// below the depth is saturated, the shallowest unsaturated bin is published at
/// once, it is no shallower, and no lowering is held.
pub proof fn a_supported_depth_rises_at_once(routing: KademliaRouting, now: Instant)
    requires
        routing.wf(),
        routing.config.limits.saturation <= u8::MAX,
        forall|i: int|
            #![trigger routing.connected_peers.contents()[i]]
            0 <= i < routing.depth.raw ==> routing.connected_peers.contents()[i].len()
                >= routing.config.limits.saturation,
    ensures
        is_frontier(
            routing.connected_peers.contents(),
            routing.config.limits.saturation,
            routing.published(now).depth.raw as int,
        ),
        routing.published(now).depth.raw >= routing.depth.raw,
        routing.published(now).pending_depth_lower is None,
{
    let bins = routing.connected_peers.contents();
    lemma_bins_fit(routing);
    lemma_raw_depth_is_frontier(routing);
    let raw = routing.raw_depth(routing.sizes()).raw as int;
    if raw < routing.depth.raw {
        assert(bins[raw].len() < routing.config.limits.saturation);
    }
}

/// Publishing a depth and anchoring the stability clock change nothing else of
/// a table.
pub proof fn publishing_keeps_the_rest(routing: KademliaRouting, now: Instant)
    ensures
        routing.published(now) == (KademliaRouting {
            depth: routing.published(now).depth,
            pending_depth_lower: routing.published(now).pending_depth_lower,
            ..routing
        }),
        routing.anchored(now) == (KademliaRouting {
            neighborhood_stability: routing.anchored(now).neighborhood_stability,
            ..routing
        }),
        routing.phase_evaluated(now) == (KademliaRouting {
            topology_phase: routing.phase_evaluated(now).topology_phase,
            ..routing
        }),
{
}

/// The neighborhood is saturated when there is a boundary and the bins at and
/// above it hold at least the saturation threshold together. The stability
/// clock then runs, from the time it was first seen so at the same depth; it
/// stops when the neighborhood is not saturated.
pub proof fn the_clock_runs_while_saturated(routing: KademliaRouting, now: Instant)
    requires
        routing.wf(),
    ensures
        ({
            let bins = routing.connected_peers.contents();
            let inside = super::proximity_index::concatenated(
                bins.subrange(routing.depth.raw as int, bins.len() as int),
            );
            let saturated = routing.depth.raw > 0 && inside.len()
                >= routing.config.limits.saturation;
            &&& routing.is_saturated(routing.depth) == saturated
            &&& routing.anchored(now).neighborhood_stability == if !saturated {
                None
            } else {
                match routing.neighborhood_stability {
                    Some(stable) => if stable.depth == routing.depth {
                        Some(stable)
                    } else {
                        Some(NeighborhoodStable { depth: routing.depth, since: now })
                    },
                    None => Some(NeighborhoodStable { depth: routing.depth, since: now }),
                }
            }
        }),
{
    let bins = routing.connected_peers.contents();
    lemma_population_is_length(bins.subrange(routing.depth.raw as int, bins.len() as int));
}

proof fn lemma_population_is_length(bins: Seq<Seq<OverlayAddress>>)
    ensures
        super::proximity_index::concatenated(bins).len() == super::proximity_index::population(
            bins,
        ),
    decreases bins.len(),
{
    if bins.len() > 0 {
        lemma_population_is_length(bins.drop_last());
    }
}

/// A table that recovers drops the held lowering.
pub proof fn recovery_clears_the_pending_lower(routing: KademliaRouting, now: Instant)
    requires
        routing.raw_depth(routing.sizes()).raw >= routing.depth.raw,
    ensures
        routing.published(now).pending_depth_lower is None,
{
}

/// A lowering whose window has passed is published.
pub proof fn expired_window_publishes(routing: KademliaRouting, now: Instant)
    requires
        routing.pending_depth_lower matches Some(since) && now.spec_since(since).nanos
            >= routing.config.depth_lower_window.nanos,
    ensures
        routing.published(now).depth == routing.raw_depth(routing.sizes()),
        routing.published(now).pending_depth_lower is None,
{
}

/// Every bin below the instantaneous depth is saturated, and the bin at it is
/// not unless it is the deepest one.
pub proof fn raw_depth_is_the_frontier(routing: KademliaRouting)
    requires
        routing.wf(),
        routing.config.limits.saturation <= u8::MAX,
    ensures
        ({
            let depth = routing.raw_depth(routing.sizes()).raw;
            let saturation = routing.config.limits.saturation;
            &&& forall|b: int| 0 <= b < depth ==> #[trigger] routing.sizes()[b] >= saturation
            &&& depth < routing.max_po ==> routing.sizes()[depth as int] < saturation
        }),
{
    let saturation = byte_count(routing.config.limits.saturation);
    let counts = byte_counts(routing.sizes());
    lemma_frontier_bound(counts, saturation, 0);
    let depth = routing.raw_depth(routing.sizes()).raw;
    assert forall|b: int| 0 <= b < depth implies #[trigger] routing.sizes()[b]
        >= routing.config.limits.saturation by {
        assert(counts[b] >= saturation);
    }
    if depth < routing.max_po {
        assert(counts[depth as int] < saturation);
    }
}

/// Reserving a dial takes one slot of the peer's bin and no other, and puts
/// the peer, which can then not be reserved again, into the dialing phase.
/// Releasing the dial gives the slot back and leaves every count and every
/// phase as it was.
pub proof fn reserving_a_dial_takes_one_slot(routing: KademliaRouting, overlay: OverlayAddress)
    requires
        routing.wf(),
        routing.capacity.has_room(overlay),
        !super::capacity::tracks(routing.capacity.connections@, overlay),
    ensures
        ({
            let home = routing.bin_of(overlay);
            let state = routing.capacity.state();
            let reserved = super::capacity::with_tracked(
                state,
                overlay,
                home,
                ConnectionPhase::Dialing,
            );
            &&& reserved.1[home].total() == state.1[home].total() + 1
            &&& forall|b: int|
                #![trigger reserved.1[b]]
                0 <= b <= routing.max_po && b != home ==> reserved.1[b] == state.1[b]
            &&& super::capacity::phase_of(reserved.0, overlay) == Some(ConnectionPhase::Dialing)
            &&& super::capacity::tracks(reserved.0, overlay)
            &&& super::capacity::after_release(
                reserved,
                overlay,
                home,
                Some(ConnectionPhase::Dialing),
            ) == state
        }),
{
    let home = routing.bin_of(overlay);
    let state = routing.capacity.state();
    super::capacity::tracking_sets_the_phase(
        state,
        overlay,
        home,
        ConnectionPhase::Dialing,
        overlay,
    );
    super::capacity::release_undoes_reserve(state, overlay, home, ConnectionPhase::Dialing);
}

/// No eviction candidate comes from a bin of the neighborhood.
pub proof fn neighborhood_is_never_evicted(
    routing: KademliaRouting,
    book: PeerBook,
    ranks: EvictionRanks,
    depth: nat,
    i: int,
)
    requires
        depth <= MAX_PO,
        0 <= i < routing.evictions(book, ranks, depth).len(),
    ensures
        routing.evictions(book, ranks, depth)[i].bin.raw < depth,
    decreases depth,
{
    if depth > 0 {
        let before = routing.evictions(book, ranks, (depth - 1) as nat);
        if i < before.len() {
            neighborhood_is_never_evicted(routing, book, ranks, (depth - 1) as nat, i);
        } else {
            let bin = Bin { raw: (depth - 1) as u8 };
            assert(routing.evictions(book, ranks, depth)[i] == routing.bin_evictions(
                book,
                ranks,
                bin,
            )[i - before.len()]);
        }
    }
}

/// A bin gives up no more peers than its surplus, so trimming never cuts it
/// below its target, the saturation threshold or the oversaturation level.
pub proof fn evictions_stay_within_surplus(
    routing: KademliaRouting,
    book: PeerBook,
    ranks: EvictionRanks,
    bin: Bin,
)
    ensures
        ({
            let count = routing.capacity.counts@[bin.raw as int];
            let surplus = routing.config.limits.spec_surplus(
                bin,
                routing.depth,
                (count.handshaking + count.active) as usize,
            );
            routing.bin_evictions(book, ranks, bin).len() <= surplus
        }),
{
    let count = routing.capacity.counts@[bin.raw as int];
    let surplus = routing.config.limits.spec_surplus(
        bin,
        routing.depth,
        (count.handshaking + count.active) as usize,
    );
    let handshaking = super::peers::leading(
        super::capacity::handshaking_in(
            routing.capacity.connections@,
            routing.local,
            routing.max_po,
            bin.raw as int,
        ),
        surplus as nat,
    );
    super::trim::trimming_takes_the_count(
        trim_pool(routing.connected_peers.contents()[bin.raw as int], book, ranks),
        (surplus - handshaking.len()) as nat,
    );
}

/// The stability clock runs only for a saturated neighborhood at the published
/// depth.
pub proof fn stability_clock_tracks_saturation(routing: KademliaRouting, now: Instant)
    ensures
        routing.anchored(now).neighborhood_stability is Some <==> routing.is_saturated(
            routing.depth,
        ),
        routing.anchored(now).neighborhood_stability matches Some(stable) ==> stable.depth
            == routing.depth,
{
}

/// What the queues hold after candidates were enqueued they held before, or it
/// is one of the candidates, in its own bin.
proof fn lemma_enqueued_members(
    bins: Seq<Seq<OverlayAddress>>,
    cap: nat,
    base: OverlayAddress,
    max_po: u8,
    peers: Seq<OverlayAddress>,
    b: int,
    peer: OverlayAddress,
)
    requires
        0 <= b < bins.len(),
    ensures
        all_enqueued(bins, cap, base, max_po, peers).len() == bins.len(),
        all_enqueued(bins, cap, base, max_po, peers)[b].contains(peer) ==> bins[b].contains(peer)
            || (peers.contains(peer) && super::proximity_index::bin_of(base, max_po, peer) == b),
    decreases peers.len(),
{
    if peers.len() > 0 {
        let less = peers.drop_last();
        lemma_enqueued_members(bins, cap, base, max_po, less, b, peer);
        let mid = all_enqueued(bins, cap, base, max_po, less);
        let after = all_enqueued(bins, cap, base, max_po, peers);
        let last = peers.last();
        assert(peers[peers.len() - 1] == last);
        if less.contains(peer) {
            let k = choose|k: int| 0 <= k < less.len() && less[k] == peer;
            assert(peers[k] == peer);
        }
        if after[b].contains(peer) && after != mid {
            let home = super::proximity_index::bin_of(base, max_po, last) as int;
            if b == home {
                let grown = mid[b].push(last);
                let k = choose|k: int| 0 <= k < after[b].len() && after[b][k] == peer;
                let k0 = k + grown.len() - after[b].len();
                assert(grown[k0] == peer);
                if k0 < mid[b].len() {
                    assert(mid[b][k0] == peer);
                    assert(mid[b].contains(peer));
                }
            } else {
                assert(after[b] == mid[b]);
            }
        }
    }
}

/// The last candidate that was enqueued waits, where its bin exists and the
/// queues may hold anything.
proof fn lemma_last_is_queued(
    bins: Seq<Seq<OverlayAddress>>,
    cap: nat,
    base: OverlayAddress,
    max_po: u8,
    peers: Seq<OverlayAddress>,
)
    requires
        peers.len() > 0,
        cap > 0,
        max_po < bins.len(),
    ensures
        super::candidate_queues::queued(
            all_enqueued(bins, cap, base, max_po, peers),
            peers.last(),
        ),
{
    let last = peers.last();
    let less = peers.drop_last();
    let home = super::proximity_index::bin_of(base, max_po, last) as int;
    lemma_enqueued_members(bins, cap, base, max_po, less, 0, last);
    let mid = all_enqueued(bins, cap, base, max_po, less);
    let after = all_enqueued(bins, cap, base, max_po, peers);
    if !super::candidate_queues::queued(mid, last) {
        let grown = mid[home].push(last);
        let kept = super::candidate_queues::newest(grown, cap);
        assert(after[home] == kept);
        assert(kept[kept.len() - 1] == last);
        assert(after[home].contains(last));
    }
}

/// The state of a round and what it means in terms of the table.
#[verifier::spinoff_prover]
proof fn lemma_round_of_the_table(
    routing: KademliaRouting,
    book: PeerBook,
    snapshot: CandidateSnapshot,
    depth: NeighborhoodDepth,
)
    requires
        routing.wf(),
        book.wf(),
        depth.raw <= routing.max_po,
        routing.captures(snapshot, depth),
    ensures
        ({
            let chosen = routing.selected(snapshot, book);
            let max = crate::arith::saturate(
                routing.config.max_neighbor_candidates + routing.config.max_balanced_candidates,
            );
            &&& chosen.len() <= max
            &&& chosen.no_duplicates()
            &&& forall|k: int|
                #![trigger chosen[k]]
                0 <= k < chosen.len() ==> {
                    &&& !routing.connected_peers.holds(chosen[k])
                    &&& !super::capacity::tracks(routing.capacity.connections@, chosen[k])
                    &&& !super::candidate_queues::queued(
                        routing.candidate_queues.contents(),
                        chosen[k],
                    )
                    &&& book.lookup(chosen[k]) matches Some(record) && !record.banned
                        && !record.in_backoff
                }
            &&& forall|b: int|
                #![trigger routing.capacity.counts@[b]]
                0 <= b <= routing.max_po && super::candidates::in_bin(
                    chosen,
                    book.local,
                    book.max_po,
                    b,
                ) > 0 ==> {
                    let count = routing.capacity.counts@[b];
                    let target = routing.config.limits.spec_target(
                        Bin { raw: b as u8 },
                        depth,
                    );
                    target == usize::MAX || count.dialing + count.handshaking + count.active
                        + super::candidates::in_bin(chosen, book.local, book.max_po, b) <= target
                }
            &&& forall|b: int|
                #![trigger routing.capacity.counts@[b]]
                0 <= b <= routing.max_po ==> super::candidates::given_its_due(
                    snapshot,
                    routing.connected_peers,
                    book,
                    max,
                    chosen,
                    Bin { raw: b as u8 },
                    (routing.capacity.counts@[b].dialing + routing.capacity.counts@[b].handshaking
                        + routing.capacity.counts@[b].active) as usize,
                )
        }),
{
    let max = crate::arith::saturate(
        routing.config.max_neighbor_candidates + routing.config.max_balanced_candidates,
    );
    let effective = routing.occupancy();
    super::candidates::lemma_round(
        snapshot,
        routing.connected_peers,
        book,
        max,
        depth.raw as int,
        routing.max_po as int,
        effective,
    );
    super::candidate_queues::draining_is_deepest_first(routing.candidate_queues);
    let start = (
        Seq::<OverlayAddress>::empty(),
        Seq::new((MAX_PO + 1) as nat, |b: int| 0usize),
    );
    let inner = super::candidates::bins_served(
        snapshot,
        routing.connected_peers,
        book,
        max,
        start,
        depth.raw as int,
        routing.max_po as int,
        effective,
    );
    let after = super::candidates::bins_served(
        snapshot,
        routing.connected_peers,
        book,
        max,
        inner,
        0,
        depth.raw - 1,
        effective,
    );
    let chosen = routing.selected(snapshot, book);
    assert(chosen == after.0);
    assert forall|k: int| #![trigger chosen[k]] 0 <= k < chosen.len() implies {
        &&& !routing.connected_peers.holds(chosen[k])
        &&& !super::capacity::tracks(routing.capacity.connections@, chosen[k])
        &&& !super::candidate_queues::queued(routing.candidate_queues.contents(), chosen[k])
        &&& book.lookup(chosen[k]) matches Some(record) && !record.banned && !record.in_backoff
    } by {
        let peer = chosen[k];
        let home = super::proximity_index::bin_of(book.local, book.max_po, peer);
        assert(snapshot.eligible(book, peer));
        super::peers::dialable_peers_have_a_record(
            book.records@,
            book.local,
            book.max_po,
            home,
            peer,
        );
        super::peers::lookup_finds_the_record(book, peer);
        lemma_in_progress(routing, snapshot, depth, peer);
        assert(!super::candidate_queues::deepest_first(
            routing.candidate_queues.contents(),
        ).contains(peer));
    }
    assert forall|b: int|
        #![trigger routing.capacity.counts@[b]]
        0 <= b <= routing.max_po implies effective[b] == routing.capacity.counts@[b].dialing
        + routing.capacity.counts@[b].handshaking + routing.capacity.counts@[b].active by {
        assert(routing.capacity.counts@[b].total() <= usize::MAX);
    }
    assert forall|b: int|
        #![trigger routing.capacity.counts@[b]]
        0 <= b <= routing.max_po && super::candidates::in_bin(
            chosen,
            book.local,
            book.max_po,
            b,
        ) > 0 implies {
        let count = routing.capacity.counts@[b];
        let target = routing.config.limits.spec_target(Bin { raw: b as u8 }, depth);
        target == usize::MAX || count.dialing + count.handshaking + count.active
            + super::candidates::in_bin(chosen, book.local, book.max_po, b) <= target
    } by {
        assert(after.1[b] == super::candidates::in_bin(chosen, book.local, book.max_po, b));
    }
    assert forall|b: int|
        #![trigger routing.capacity.counts@[b]]
        0 <= b <= routing.max_po implies super::candidates::given_its_due(
        snapshot,
        routing.connected_peers,
        book,
        max,
        chosen,
        Bin { raw: b as u8 },
        (routing.capacity.counts@[b].dialing + routing.capacity.counts@[b].handshaking
            + routing.capacity.counts@[b].active) as usize,
    ) by {
        assert(effective[b] == effective[b]);
    }
}

proof fn lemma_in_progress(
    routing: KademliaRouting,
    snapshot: CandidateSnapshot,
    depth: NeighborhoodDepth,
    peer: OverlayAddress,
)
    requires
        routing.captures(snapshot, depth),
    ensures
        snapshot.in_progress@.contains(peer) == super::capacity::tracks(
            routing.capacity.connections@,
            peer,
        ),
{
    let connections = routing.capacity.connections@;
    if super::capacity::tracks(connections, peer) {
        let i = super::capacity::index_of(connections, peer);
        assert(snapshot.in_progress@[i] == peer);
    }
    if snapshot.in_progress@.contains(peer) {
        let i = choose|i: int|
            0 <= i < snapshot.in_progress@.len() && snapshot.in_progress@[i] == peer;
        assert(super::capacity::connection_at(connections, peer, i));
    }
}

/// The depth of a round does not go past the table, where the book is of the
/// same node.
proof fn lemma_allocation_depth_fits(routing: KademliaRouting, book: PeerBook)
    requires
        routing.wf(),
        book.wf(),
        book.max_po == routing.max_po,
    ensures
        super::limits::allocation_depth(
            routing.depth,
            KademliaRouting::known_sizes(book),
            routing.config.limits.nominal,
        ).raw <= routing.max_po,
{
    super::limits::allocation_follows_the_known_peers(
        routing.depth,
        KademliaRouting::known_sizes(book),
        routing.config.limits.nominal,
    );
}

/// What a round newly queues may be dialed: the book knows the peer, it is
/// neither banned nor in backoff, and no connection to it is up or under way.
pub proof fn queued_candidates_may_be_dialed(
    routing: KademliaRouting,
    book: PeerBook,
    snapshot: CandidateSnapshot,
    peer: OverlayAddress,
)
    requires
        routing.wf(),
        book.wf(),
        book.local == routing.local,
        book.max_po == routing.max_po,
        routing.captures(
            snapshot,
            super::limits::allocation_depth(
                routing.depth,
                KademliaRouting::known_sizes(book),
                routing.config.limits.nominal,
            ),
        ),
        super::candidate_queues::queued(
            all_enqueued(
                routing.candidate_queues.contents(),
                routing.candidate_queues.max_per_bin as nat,
                routing.local,
                routing.max_po,
                routing.selected(snapshot, book),
            ),
            peer,
        ),
        !super::candidate_queues::queued(routing.candidate_queues.contents(), peer),
    ensures
        book.lookup(peer) matches Some(record) && !record.banned && !record.in_backoff,
        !routing.connected_peers.holds(peer),
        !super::capacity::tracks(routing.capacity.connections@, peer),
{
    let depth = super::limits::allocation_depth(
        routing.depth,
        KademliaRouting::known_sizes(book),
        routing.config.limits.nominal,
    );
    lemma_allocation_depth_fits(routing, book);
    lemma_round_of_the_table(routing, book, snapshot, depth);
    let before = routing.candidate_queues.contents();
    let cap = routing.candidate_queues.max_per_bin as nat;
    let chosen = routing.selected(snapshot, book);
    let after = all_enqueued(before, cap, routing.local, routing.max_po, chosen);
    lemma_enqueued_members(before, cap, routing.local, routing.max_po, chosen, 0, peer);
    let b = choose|b: int| 0 <= b < after.len() && #[trigger] after[b].contains(peer);
    lemma_enqueued_members(before, cap, routing.local, routing.max_po, chosen, b, peer);
    assert(!before[b].contains(peer));
    let k = choose|k: int| 0 <= k < chosen.len() && chosen[k] == peer;
    assert(chosen[k] == peer);
}

/// A round never plans past a bin's target: the connections of the bin that
/// are dialing, handshaking or active, together with the candidates newly
/// queued for it, are no more than its target at the depth that peers are
/// allocated by, where that is bounded.
#[verifier::spinoff_prover]
pub proof fn queued_candidates_stay_within_targets(
    routing: KademliaRouting,
    book: PeerBook,
    snapshot: CandidateSnapshot,
    b: int,
    named: Seq<OverlayAddress>,
)
    requires
        routing.wf(),
        book.wf(),
        book.local == routing.local,
        book.max_po == routing.max_po,
        routing.captures(
            snapshot,
            super::limits::allocation_depth(
                routing.depth,
                KademliaRouting::known_sizes(book),
                routing.config.limits.nominal,
            ),
        ),
        0 <= b <= routing.max_po,
        named.len() > 0,
        newly_queued(
            routing.candidate_queues.contents(),
            all_enqueued(
                routing.candidate_queues.contents(),
                routing.candidate_queues.max_per_bin as nat,
                routing.local,
                routing.max_po,
                routing.selected(snapshot, book),
            ),
            b,
            named,
        ),
    ensures
        ({
            let count = routing.capacity.counts@[b];
            let target = routing.config.limits.spec_target(
                Bin { raw: b as u8 },
                super::limits::allocation_depth(
                    routing.depth,
                    KademliaRouting::known_sizes(book),
                    routing.config.limits.nominal,
                ),
            );
            target == usize::MAX || count.dialing + count.handshaking + count.active + named.len()
                <= target
        }),
{
    let depth = super::limits::allocation_depth(
        routing.depth,
        KademliaRouting::known_sizes(book),
        routing.config.limits.nominal,
    );
    lemma_allocation_depth_fits(routing, book);
    lemma_round_of_the_table(routing, book, snapshot, depth);
    let before = routing.candidate_queues.contents();
    let cap = routing.candidate_queues.max_per_bin as nat;
    let chosen = routing.selected(snapshot, book);
    assert forall|i: int| #![trigger named[i]] 0 <= i < named.len() implies chosen.contains(
        named[i],
    ) && super::proximity_index::bin_of(book.local, book.max_po, named[i]) == b by {
        lemma_enqueued_members(before, cap, routing.local, routing.max_po, chosen, b, named[i]);
        assert(!super::candidate_queues::queued(before, named[i]));
        if before[b].contains(named[i]) {
            assert(super::candidate_queues::queued(before, named[i]));
        }
    }
    super::candidates::lemma_distinct_in_bin(named, chosen, book.local, book.max_po, b);
    assert(routing.capacity.counts@[b] == routing.capacity.counts@[b]);
}

/// A round passes nobody over without a reason: the first dialable peers of a
/// bin, as many as the budget left by deeper bins allows and, below the depth,
/// as the bin lacks, are selected, unless a connection to them is up or under
/// way, they wait already, the budget is used up, or the bin with what was
/// selected for it is at its target.
#[verifier::spinoff_prover]
pub proof fn dialable_peers_are_not_passed_over(
    routing: KademliaRouting,
    book: PeerBook,
    snapshot: CandidateSnapshot,
    depth: NeighborhoodDepth,
    b: int,
    k: int,
)
    requires
        routing.wf(),
        book.wf(),
        depth.raw <= routing.max_po,
        routing.captures(snapshot, depth),
        0 <= b <= routing.max_po,
        ({
            let row = super::peers::dialable_in(
                book.records@,
                book.local,
                book.max_po,
                b as nat,
            );
            let chosen = routing.selected(snapshot, book);
            let count = routing.capacity.counts@[b];
            let held = count.dialing + count.handshaking + count.active;
            let target = routing.config.limits.spec_target(Bin { raw: b as u8 }, depth);
            let budget = crate::arith::saturate(
                routing.config.max_neighbor_candidates + routing.config.max_balanced_candidates,
            );
            &&& 0 <= k < row.len()
            &&& k < budget - super::candidates::deeper_than(chosen, book.local, book.max_po, b)
            &&& b < depth.raw ==> target < usize::MAX && k < target - held
        }),
    ensures
        ({
            let row = super::peers::dialable_in(
                book.records@,
                book.local,
                book.max_po,
                b as nat,
            );
            let chosen = routing.selected(snapshot, book);
            let count = routing.capacity.counts@[b];
            let held = count.dialing + count.handshaking + count.active;
            let target = routing.config.limits.spec_target(Bin { raw: b as u8 }, depth);
            let budget = crate::arith::saturate(
                routing.config.max_neighbor_candidates + routing.config.max_balanced_candidates,
            );
            let own = super::candidates::in_bin(chosen, book.local, book.max_po, b);
            ||| chosen.contains(row[k])
            ||| routing.connected_peers.holds(row[k])
            ||| super::capacity::tracks(routing.capacity.connections@, row[k])
            ||| super::candidate_queues::queued(routing.candidate_queues.contents(), row[k])
            ||| super::candidates::deeper_than(chosen, book.local, book.max_po, b) + own == budget
            ||| target < usize::MAX && held + own >= target
        }),
{
    lemma_round_of_the_table(routing, book, snapshot, depth);
    super::candidate_queues::draining_is_deepest_first(routing.candidate_queues);
    let row = super::peers::dialable_in(book.records@, book.local, book.max_po, b as nat);
    let peer = row[k];
    assert(row.contains(peer));
    assert(routing.capacity.counts@[b].total() <= usize::MAX);
    super::peers::dialable_peers_have_a_record(
        book.records@,
        book.local,
        book.max_po,
        b as nat,
        peer,
    );
    super::peers::lookup_finds_the_record(book, peer);
    lemma_in_progress(routing, snapshot, depth, peer);
    assert(super::candidate_queues::deepest_first(
        routing.candidate_queues.contents(),
    ).contains(peer) == super::candidate_queues::queued(routing.candidate_queues.contents(), peer));
    let count = routing.capacity.counts@[b];
    let max = crate::arith::saturate(
        routing.config.max_neighbor_candidates + routing.config.max_balanced_candidates,
    );
    let bin = Bin { raw: b as u8 };
    assert(super::candidates::given_its_due(
        snapshot,
        routing.connected_peers,
        book,
        max,
        routing.selected(snapshot, book),
        bin,
        (count.dialing + count.handshaking + count.active) as usize,
    ));
    assert(bin.raw as nat == b as nat);
    assert(row == super::peers::dialable_in(
        book.records@,
        book.local,
        book.max_po,
        bin.raw as nat,
    ));
    assert(row[k] == peer);
}

/// A round that selects somebody queues somebody: its last candidate waits
/// afterwards, and did not before.
pub proof fn a_selected_candidate_is_queued(
    routing: KademliaRouting,
    book: PeerBook,
    snapshot: CandidateSnapshot,
    depth: NeighborhoodDepth,
)
    requires
        routing.wf(),
        book.wf(),
        depth.raw <= routing.max_po,
        routing.captures(snapshot, depth),
        routing.selected(snapshot, book).len() > 0,
        routing.candidate_queues.max_per_bin > 0,
    ensures
        ({
            let chosen = routing.selected(snapshot, book);
            &&& !super::candidate_queues::queued(
                routing.candidate_queues.contents(),
                chosen.last(),
            )
            &&& super::candidate_queues::queued(
                all_enqueued(
                    routing.candidate_queues.contents(),
                    routing.candidate_queues.max_per_bin as nat,
                    routing.local,
                    routing.max_po,
                    chosen,
                ),
                chosen.last(),
            )
            &&& chosen.len() <= routing.config.max_neighbor_candidates
                + routing.config.max_balanced_candidates
        }),
{
    lemma_round_of_the_table(routing, book, snapshot, depth);
    let chosen = routing.selected(snapshot, book);
    assert(chosen[chosen.len() - 1] == chosen.last());
    lemma_last_is_queued(
        routing.candidate_queues.contents(),
        routing.candidate_queues.max_per_bin as nat,
        routing.local,
        routing.max_po,
        chosen,
    );
}

/// The eviction candidates are those of the bins below the depth, each named
/// under its own bin.
#[verifier::spinoff_prover]
pub proof fn evictions_are_those_of_the_bins(
    routing: KademliaRouting,
    book: PeerBook,
    ranks: EvictionRanks,
    depth: nat,
    candidate: EvictionCandidate,
)
    requires
        depth <= MAX_PO + 1,
    ensures
        routing.evictions(book, ranks, depth).contains(candidate) <==> candidate.bin.raw < depth
            && routing.bin_evictions(book, ranks, candidate.bin).contains(candidate),
    decreases depth,
{
    if depth > 0 {
        let before = routing.evictions(book, ranks, (depth - 1) as nat);
        let bin = Bin { raw: (depth - 1) as u8 };
        let own = routing.bin_evictions(book, ranks, bin);
        let all = routing.evictions(book, ranks, depth);
        evictions_are_those_of_the_bins(routing, book, ranks, (depth - 1) as nat, candidate);
        assert(all == before + own);
        if all.contains(candidate) {
            let k = choose|k: int| 0 <= k < all.len() && all[k] == candidate;
            if k < before.len() {
                assert(before[k] == candidate);
                assert(before.contains(candidate));
            } else {
                assert(own[k - before.len()] == candidate);
                assert(own.contains(candidate));
            }
        }
        if before.contains(candidate) {
            let k = choose|k: int| 0 <= k < before.len() && before[k] == candidate;
            assert(all[k] == candidate);
        }
        if candidate.bin == bin && own.contains(candidate) {
            let k = choose|k: int| 0 <= k < own.len() && own[k] == candidate;
            assert(all[before.len() + k] == candidate);
        }
        assert(candidate.bin.raw == depth - 1 ==> candidate.bin == bin);
    }
}

/// Which candidates a bin names: the first of its handshaking peers, and the
/// victims of its trim pool.
#[verifier::spinoff_prover]
proof fn lemma_bin_evictions(
    routing: KademliaRouting,
    book: PeerBook,
    ranks: EvictionRanks,
    candidate: EvictionCandidate,
)
    ensures
        ({
            let bin = candidate.bin;
            let count = routing.capacity.counts@[bin.raw as int];
            let surplus = routing.config.limits.spec_surplus(
                bin,
                routing.depth,
                (count.handshaking + count.active) as usize,
            );
            let waiting = super::capacity::handshaking_in(
                routing.capacity.connections@,
                routing.local,
                routing.max_po,
                bin.raw as int,
            );
            let handshaking = super::peers::leading(waiting, surplus as nat);
            let active = super::trim::trim_victims(
                trim_pool(routing.connected_peers.contents()[bin.raw as int], book, ranks),
                (surplus - handshaking.len()) as nat,
            );
            &&& routing.bin_evictions(book, ranks, bin).contains(candidate) <==> surplus > 0
                && match candidate.phase {
                EvictionPhase::Handshaking => handshaking.contains(candidate.overlay),
                EvictionPhase::Active => active.contains(candidate.overlay),
            }
            &&& candidate.phase == EvictionPhase::Active && routing.bin_evictions(
                book,
                ranks,
                bin,
            ).contains(candidate) ==> handshaking == waiting
        }),
{
    let bin = candidate.bin;
    let count = routing.capacity.counts@[bin.raw as int];
    let surplus = routing.config.limits.spec_surplus(
        bin,
        routing.depth,
        (count.handshaking + count.active) as usize,
    );
    let waiting = super::capacity::handshaking_in(
        routing.capacity.connections@,
        routing.local,
        routing.max_po,
        bin.raw as int,
    );
    let handshaking = super::peers::leading(waiting, surplus as nat);
    let pool = trim_pool(routing.connected_peers.contents()[bin.raw as int], book, ranks);
    let active = super::trim::trim_victims(pool, (surplus - handshaking.len()) as nat);
    super::trim::trimming_takes_the_count(pool, (surplus - handshaking.len()) as nat);
    let all = routing.bin_evictions(book, ranks, bin);
    if all.contains(candidate) {
        let k = choose|k: int| 0 <= k < all.len() && all[k] == candidate;
        if k < handshaking.len() {
            assert(handshaking[k] == candidate.overlay);
        } else {
            assert(active[k - handshaking.len()] == candidate.overlay);
        }
    }
    if surplus > 0 && candidate.phase == EvictionPhase::Handshaking && handshaking.contains(
        candidate.overlay,
    ) {
        let k = choose|k: int| 0 <= k < handshaking.len() && handshaking[k] == candidate.overlay;
        assert(all[k] == candidate);
    }
    if surplus > 0 && candidate.phase == EvictionPhase::Active && active.contains(
        candidate.overlay,
    ) {
        let k = choose|k: int| 0 <= k < active.len() && active[k] == candidate.overlay;
        assert(all[handshaking.len() + k] == candidate);
    }
}

/// Of two connected peers of a bin, one named for eviction and one spared, the
/// named one has the lower rank, or the same rank and no higher score in the
/// book.
#[verifier::spinoff_prover]
pub proof fn an_evicted_peer_is_worth_no_more(
    routing: KademliaRouting,
    book: PeerBook,
    ranks: EvictionRanks,
    depth: nat,
    candidate: EvictionCandidate,
    spared: OverlayAddress,
)
    requires
        depth <= MAX_PO + 1,
        routing.evictions(book, ranks, depth).contains(candidate),
        candidate.phase == EvictionPhase::Active,
        routing.connected_peers.contents()[candidate.bin.raw as int].contains(spared),
        forall|j: int|
            #![trigger routing.evictions(book, ranks, depth)[j]]
            0 <= j < routing.evictions(book, ranks, depth).len() && routing.evictions(
                book,
                ranks,
                depth,
            )[j].phase == EvictionPhase::Active ==> routing.evictions(book, ranks, depth)[j].overlay
                != spared,
    ensures
        ({
            let v = candidate.overlay;
            let score = |peer: OverlayAddress|
                match book.lookup(peer) {
                    Some(record) => record.score,
                    None => 0,
                };
            ||| ranks.rank_of(v) < ranks.rank_of(spared)
            ||| ranks.rank_of(v) == ranks.rank_of(spared) && score(v) <= score(spared)
        }),
{
    let bin = candidate.bin;
    evictions_are_those_of_the_bins(routing, book, ranks, depth, candidate);
    lemma_bin_evictions(routing, book, ranks, candidate);
    let count = routing.capacity.counts@[bin.raw as int];
    let surplus = routing.config.limits.spec_surplus(
        bin,
        routing.depth,
        (count.handshaking + count.active) as usize,
    );
    let handshaking = super::peers::leading(
        super::capacity::handshaking_in(
            routing.capacity.connections@,
            routing.local,
            routing.max_po,
            bin.raw as int,
        ),
        surplus as nat,
    );
    let peers = routing.connected_peers.contents()[bin.raw as int];
    let pool = trim_pool(peers, book, ranks);
    let want = (surplus - handshaking.len()) as nat;
    let k = choose|k: int| 0 <= k < peers.len() && peers[k] == spared;
    assert(pool[k].overlay == spared);
    if super::trim::trim_victims(pool, want).contains(spared) {
        let named = EvictionCandidate { overlay: spared, bin, phase: EvictionPhase::Active };
        lemma_bin_evictions(routing, book, ranks, named);
        evictions_are_those_of_the_bins(routing, book, ranks, depth, named);
        let all = routing.evictions(book, ranks, depth);
        let j = choose|j: int| 0 <= j < all.len() && all[j] == named;
        assert(routing.evictions(book, ranks, depth)[j].overlay == spared);
        assert(false);
    }
    super::trim::the_spared_are_worth_no_less(pool, want, candidate.overlay, k);
    let i = choose|i: int|
        #![trigger pool[i]]
        {
            &&& 0 <= i < pool.len()
            &&& pool[i].overlay == candidate.overlay
            &&& pool[i].rank < pool[k].rank || (pool[i].rank == pool[k].rank && pool[i].score
                <= pool[k].score)
        };
    assert(peers[i] == candidate.overlay);
}

/// A peer named for eviction is one of its bin below the depth, in the phase
/// that it is named for; an active one is named only after all the bin's
/// handshaking peers.
#[verifier::spinoff_prover]
pub proof fn evicted_peers_belong_to_the_bin(
    routing: KademliaRouting,
    book: PeerBook,
    ranks: EvictionRanks,
    depth: nat,
    candidate: EvictionCandidate,
)
    requires
        routing.wf(),
        depth <= MAX_PO + 1,
        routing.evictions(book, ranks, depth).contains(candidate),
    ensures
        candidate.bin.raw < depth,
        candidate.phase == EvictionPhase::Handshaking ==> super::capacity::phase_of(
            routing.capacity.connections@,
            candidate.overlay,
        ) == Some(ConnectionPhase::Handshaking) && routing.bin_of(candidate.overlay)
            == candidate.bin.raw,
        candidate.phase == EvictionPhase::Active
            ==> routing.connected_peers.contents()[candidate.bin.raw as int].contains(
            candidate.overlay,
        ),
        candidate.phase == EvictionPhase::Active ==> forall|i: int|
            #![trigger routing.capacity.connections@[i]]
            0 <= i < routing.capacity.connections@.len()
                && routing.capacity.connections@[i].phase == ConnectionPhase::Handshaking
                && routing.bin_of(routing.capacity.connections@[i].overlay) == candidate.bin.raw
                ==> routing.evictions(book, ranks, depth).contains(
                (EvictionCandidate {
                    overlay: routing.capacity.connections@[i].overlay,
                    bin: candidate.bin,
                    phase: EvictionPhase::Handshaking,
                }),
            ),
{
    let bin = candidate.bin;
    let connections = routing.capacity.connections@;
    evictions_are_those_of_the_bins(routing, book, ranks, depth, candidate);
    lemma_bin_evictions(routing, book, ranks, candidate);
    let count = routing.capacity.counts@[bin.raw as int];
    let surplus = routing.config.limits.spec_surplus(
        bin,
        routing.depth,
        (count.handshaking + count.active) as usize,
    );
    let waiting = super::capacity::handshaking_in(
        connections,
        routing.local,
        routing.max_po,
        bin.raw as int,
    );
    let handshaking = super::peers::leading(waiting, surplus as nat);
    if candidate.phase == EvictionPhase::Handshaking {
        let k = choose|k: int| 0 <= k < handshaking.len() && handshaking[k] == candidate.overlay;
        assert(waiting[k] == candidate.overlay);
        super::capacity::handshaking_peers_are_tracked(
            connections,
            routing.local,
            routing.max_po,
            bin.raw as int,
            candidate.overlay,
        );
        let i = choose|i: int|
            #![trigger connections[i]]
            {
                &&& 0 <= i < connections.len()
                &&& connections[i].overlay == candidate.overlay
                &&& connections[i].phase == ConnectionPhase::Handshaking
                &&& super::proximity_index::bin_of(
                    routing.local,
                    routing.max_po,
                    candidate.overlay,
                ) == bin.raw as int
            };
        assert(super::capacity::connection_at(connections, candidate.overlay, i));
        let m = super::capacity::index_of(connections, candidate.overlay);
        assert(connections[m].overlay == connections[i].overlay);
    } else {
        let peers = routing.connected_peers.contents()[bin.raw as int];
        let pool = trim_pool(peers, book, ranks);
        let want = (surplus - handshaking.len()) as nat;
        super::trim::victims_come_from_the_pool(pool, want, candidate.overlay);
        let i = choose|i: int|
            #![trigger pool[i]]
            0 <= i < pool.len() && pool[i].overlay == candidate.overlay;
        assert(peers[i] == candidate.overlay);
        assert forall|i: int|
            #![trigger connections[i]]
            0 <= i < connections.len() && connections[i].phase == ConnectionPhase::Handshaking
                && routing.bin_of(connections[i].overlay) == bin.raw implies routing.evictions(
            book,
            ranks,
            depth,
        ).contains(
            (EvictionCandidate {
                overlay: connections[i].overlay,
                bin,
                phase: EvictionPhase::Handshaking,
            }),
        ) by {
            let named = EvictionCandidate {
                overlay: connections[i].overlay,
                bin,
                phase: EvictionPhase::Handshaking,
            };
            super::capacity::handshaking_peers_are_tracked(
                connections,
                routing.local,
                routing.max_po,
                bin.raw as int,
                connections[i].overlay,
            );
            lemma_bin_evictions(routing, book, ranks, named);
            evictions_are_those_of_the_bins(routing, book, ranks, depth, named);
        }
    }
}

/// A bin below the depth that holds more evictable connections than its target
/// and the oversaturation level gives up the excess, as far as it has peers to
/// name; any other gives up none.
pub proof fn evictions_take_the_excess(
    routing: KademliaRouting,
    book: PeerBook,
    ranks: EvictionRanks,
    bin: Bin,
)
    requires
        routing.wf(),
        bin.raw <= routing.max_po,
    ensures
        ({
            let count = routing.capacity.counts@[bin.raw as int];
            let held = count.handshaking + count.active;
            let target = routing.config.limits.spec_target(bin, routing.depth);
            let floor = if target >= routing.config.limits.oversaturation {
                target
            } else {
                routing.config.limits.oversaturation
            };
            let waiting = super::capacity::handshaking_in(
                routing.capacity.connections@,
                routing.local,
                routing.max_po,
                bin.raw as int,
            ).len();
            let active = routing.connected_peers.contents()[bin.raw as int].len();
            let named = routing.bin_evictions(book, ranks, bin).len();
            &&& target == usize::MAX || held <= floor ==> named == 0
            &&& target < usize::MAX && held > floor && held - floor <= waiting + active ==> named
                == held - floor
            &&& target < usize::MAX && held > floor && held - floor > waiting + active ==> named
                == waiting + active
        }),
{
    let count = routing.capacity.counts@[bin.raw as int];
    assert(count.total() <= usize::MAX);
    let surplus = routing.config.limits.spec_surplus(
        bin,
        routing.depth,
        (count.handshaking + count.active) as usize,
    );
    let waiting = super::capacity::handshaking_in(
        routing.capacity.connections@,
        routing.local,
        routing.max_po,
        bin.raw as int,
    );
    let handshaking = super::peers::leading(waiting, surplus as nat);
    super::trim::trimming_takes_the_count(
        trim_pool(routing.connected_peers.contents()[bin.raw as int], book, ranks),
        (surplus - handshaking.len()) as nat,
    );
}

/// A published depth is the shallowest unsaturated bin, with no lowering held
/// back, or it is the one published before and a lowering of it is held back
/// since it began.
pub proof fn publishing_settles_the_depth(routing: KademliaRouting, now: Instant)
    requires
        routing.wf(),
        routing.config.limits.saturation <= u8::MAX,
    ensures
        ({
            let after = routing.published(now);
            ||| is_frontier(
                routing.connected_peers.contents(),
                routing.config.limits.saturation,
                after.depth.raw as int,
            ) && after.pending_depth_lower is None
            ||| after.depth == routing.depth && after.pending_depth_lower == (match
                routing.pending_depth_lower {
                Some(since) => Some(since),
                None => Some(now),
            })
        }),
{
    lemma_bins_fit(routing);
    lemma_raw_depth_is_frontier(routing);
}

/// The bins that a status lists are those that a peer is connected or known in,
/// with both counts, and the one at the depth is marked.
pub proof fn a_status_lists_the_populated_bins(
    connected: Seq<usize>,
    known: Seq<usize>,
    depth: u8,
    n: nat,
    status: BinStatus,
)
    requires
        n <= connected.len(),
        n <= u8::MAX,
    ensures
        populated_bins(connected, known, depth, n).contains(status) <==> {
            let k = if status.bin < known.len() {
                known[status.bin as int]
            } else {
                0
            };
            &&& status.bin < n
            &&& status.connected == connected[status.bin as int]
            &&& status.known == k
            &&& status.at_depth == (status.bin == depth)
            &&& status.connected > 0 || status.known > 0
        },
        forall|i: int, j: int|
            #![trigger populated_bins(connected, known, depth, n)[i], populated_bins(
                connected,
                known,
                depth,
                n,
            )[j]]
            0 <= i < j < populated_bins(connected, known, depth, n).len() ==> populated_bins(
                connected,
                known,
                depth,
                n,
            )[i].bin < populated_bins(connected, known, depth, n)[j].bin,
        forall|i: int|
            #![trigger populated_bins(connected, known, depth, n)[i]]
            0 <= i < populated_bins(connected, known, depth, n).len() ==> populated_bins(
                connected,
                known,
                depth,
                n,
            )[i].bin < n,
    decreases n,
{
    if n > 0 {
        let less = (n - 1) as nat;
        a_status_lists_the_populated_bins(connected, known, depth, less, status);
        let before = populated_bins(connected, known, depth, less);
        let all = populated_bins(connected, known, depth, n);
        if all.contains(status) {
            let i = choose|i: int| 0 <= i < all.len() && all[i] == status;
            if i < before.len() {
                assert(before[i] == status);
                assert(before.contains(status));
            }
        }
        if before.contains(status) {
            let i = choose|i: int| 0 <= i < before.len() && before[i] == status;
            assert(all[i] == status);
        }
        if all.len() > before.len() {
            assert(all[before.len() as int].bin == n - 1);
            if status == all.last() {
                assert(all[all.len() - 1] == status);
            }
        }
        assert forall|i: int|
            #![trigger all[i]]
            0 <= i < all.len() implies all[i].bin < n by {
            if i < before.len() {
                assert(before[i] == all[i]);
            }
        }
        assert forall|i: int, j: int| #![trigger all[i], all[j]] 0 <= i < j < all.len() implies all[i].bin
            < all[j].bin by {
            assert(before[i] == all[i]);
            if j < before.len() {
                assert(before[j] == all[j]);
            }
        }
    }
}

/// Each connected peer that the book knows to store chunks counts once, and no
/// other.
pub proof fn storers_are_counted(
    peers: Seq<OverlayAddress>,
    peer: OverlayAddress,
    book: PeerBook,
)
    ensures
        storer_count(Seq::empty(), book) == 0,
        storer_count(peers.push(peer), book) == storer_count(peers, book) + (match book.lookup(
            peer,
        ) {
            Some(record) => if record.node_type == Some(SwarmNodeType::Storer) {
                1int
            } else {
                0
            },
            None => 0,
        }),
{
    assert(peers.push(peer).drop_last() =~= peers);
}

/// An inbound connection is accepted from a peer that is not followed yet, while
/// its bin, with all its connections, is below its ceiling or has no bound.
pub proof fn inbound_needs_a_free_place(
    routing: KademliaRouting,
    state: super::capacity::CapacityState,
    overlay: OverlayAddress,
)
    requires
        routing.wf(),
    ensures
        routing.accepts_inbound(state, overlay) <==> {
            let bin = Bin { raw: routing.bin_of(overlay) as u8 };
            let count = state.1[bin.raw as int];
            &&& forall|i: int|
                #![trigger state.0[i]]
                0 <= i < state.0.len() ==> state.0[i].overlay != overlay
            &&& routing.config.limits.spec_target(bin, routing.depth) == usize::MAX
                || count.dialing + count.handshaking + count.active
                < routing.config.limits.spec_ceiling(bin, routing.depth)
        },
{
    if super::capacity::tracks(state.0, overlay) {
        let i = super::capacity::index_of(state.0, overlay);
        assert(state.0[i].overlay == overlay);
    } else {
        assert forall|i: int| #![trigger state.0[i]] 0 <= i < state.0.len() implies state.0[i].overlay
            != overlay by {
            assert(!super::capacity::connection_at(state.0, overlay, i));
        }
    }
}

/// The bin sizes of a table are the numbers of connected peers of its bins; those
/// of a book the numbers of its records.
pub proof fn sizes_count_the_peers(routing: KademliaRouting, book: PeerBook, b: int)
    requires
        routing.wf(),
        book.wf(),
    ensures
        0 <= b <= routing.max_po ==> routing.sizes()[b]
            == routing.connected_peers.contents()[b].len(),
        routing.sizes().len() == routing.max_po + 1,
        0 <= b <= book.max_po ==> KademliaRouting::known_sizes(book)[b] == super::peers::known_in(
            book.records@,
            book.local,
            book.max_po,
            b as nat,
        ),
        KademliaRouting::known_sizes(book).len() == book.max_po + 1,
{
    lemma_bins_fit(routing);
    super::peers::known_peers_are_bounded(
        book.records@,
        book.local,
        book.max_po,
        b as nat,
    );
    assert(book.records@.len() == book.records.len());
}

/// The neighborhood of a depth is the connected peers of the bins from there on;
/// it is saturated with as many as the threshold, at any depth but zero.
pub proof fn the_neighborhood_is_counted_from_the_depth(
    routing: KademliaRouting,
    depth: NeighborhoodDepth,
)
    requires
        routing.wf(),
    ensures
        ({
            let bins = routing.connected_peers.contents();
            &&& depth.raw > routing.max_po ==> routing.neighborhood_population(depth) == 0
            &&& depth.raw <= routing.max_po ==> routing.neighborhood_population(depth)
                == super::proximity_index::concatenated(
                bins.subrange(depth.raw as int, bins.len() as int),
            ).len()
            &&& routing.is_saturated(depth) <==> depth.raw > 0 && routing.neighborhood_population(
                depth,
            ) >= routing.config.limits.saturation
        }),
{
    let bins = routing.connected_peers.contents();
    lemma_bins_fit(routing);
    if depth.raw <= routing.max_po {
        lemma_population_is_length(bins.subrange(depth.raw as int, bins.len() as int));
    }
}

/// What an evaluation makes of the topology phase, in terms of the table: the
/// node bootstraps at depth zero; above it the node converges while the bins
/// from the depth on hold fewer peers than the saturation count, and is stable
/// with as many once the depth has held for the window.
pub proof fn the_phase_follows_the_table(routing: KademliaRouting, now: Instant)
    requires
        routing.wf(),
    ensures
        ({
            let bins = routing.connected_peers.contents();
            let inside = super::proximity_index::concatenated(
                bins.subrange(routing.depth.raw as int, bins.len() as int),
            ).len();
            let before = routing.topology_phase;
            let after = routing.phase_evaluated(now).topology_phase.phase;
            &&& routing.depth.raw == 0 ==> after == super::phase::TopologyPhase::Bootstrap
            &&& routing.depth.raw > 0 && inside < routing.config.limits.saturation ==> after
                == super::phase::TopologyPhase::Converging
            &&& routing.depth.raw > 0 && inside >= routing.config.limits.saturation
                && routing.depth == before.last_depth && now.nanos >= before.last_depth_change.nanos
                + before.stability_window.nanos ==> after == super::phase::TopologyPhase::Stable
            &&& routing.depth.raw > 0 && routing.depth != before.last_depth
                && before.stability_window.nanos > 0 ==> after
                == super::phase::TopologyPhase::Converging
            &&& routing.phase_transition(now) is Some <==> after != before.phase
            &&& routing.phase_evaluated(now) == (KademliaRouting {
                topology_phase: routing.phase_evaluated(now).topology_phase,
                ..routing
            })
        }),
{
    the_clock_runs_while_saturated(routing, now);
    super::phase::phase_follows_the_observation(
        routing.topology_phase,
        routing.depth,
        routing.is_saturated(routing.depth),
        now,
    );
}

/// A bin below the depth that holds more than it may and has a connected peer
/// has somebody named for eviction.
pub proof fn overfull_bins_give_somebody_up(
    routing: KademliaRouting,
    book: PeerBook,
    ranks: EvictionRanks,
    depth: nat,
    b: int,
)
    requires
        routing.wf(),
        depth <= routing.max_po + 1,
        0 <= b < depth,
        ({
            let count = routing.capacity.counts@[b];
            let held = count.handshaking + count.active;
            let target = routing.config.limits.spec_target(Bin { raw: b as u8 }, routing.depth);
            &&& target < usize::MAX
            &&& held > target
            &&& held > routing.config.limits.oversaturation
            &&& routing.connected_peers.contents()[b].len() > 0
        }),
    ensures
        exists|i: int|
            #![trigger routing.evictions(book, ranks, depth)[i]]
            0 <= i < routing.evictions(book, ranks, depth).len() && routing.evictions(
                book,
                ranks,
                depth,
            )[i].bin.raw == b,
{
    let bin = Bin { raw: b as u8 };
    evictions_take_the_excess(routing, book, ranks, bin);
    let own = routing.bin_evictions(book, ranks, bin);
    assert(own.len() > 0);
    let first = own[0];
    assert(own.contains(first));
    assert(first.bin == bin);
    evictions_are_those_of_the_bins(routing, book, ranks, depth, first);
    let all = routing.evictions(book, ranks, depth);
    let i = choose|i: int| 0 <= i < all.len() && all[i] == first;
    assert(routing.evictions(book, ranks, depth)[i].bin.raw == b);
}

/// Candidates for eviction are named bin by bin, shallowest first, and in each
/// bin the handshaking ones before the active ones.
#[verifier::spinoff_prover]
pub proof fn evictions_run_bin_by_bin(
    routing: KademliaRouting,
    book: PeerBook,
    ranks: EvictionRanks,
    depth: nat,
)
    requires
        depth <= MAX_PO + 1,
    ensures
        ({
            let all = routing.evictions(book, ranks, depth);
            &&& forall|i: int| #![trigger all[i]] 0 <= i < all.len() ==> all[i].bin.raw < depth
            &&& forall|i: int, j: int|
                #![trigger all[i], all[j]]
                0 <= i < j < all.len() ==> all[i].bin.raw <= all[j].bin.raw
            &&& forall|i: int, j: int|
                #![trigger all[i], all[j]]
                0 <= i < j < all.len() && all[i].bin == all[j].bin && all[i].phase
                    == EvictionPhase::Active ==> all[j].phase == EvictionPhase::Active
        }),
    decreases depth,
{
    if depth > 0 {
        let before = routing.evictions(book, ranks, (depth - 1) as nat);
        let bin = Bin { raw: (depth - 1) as u8 };
        let own = routing.bin_evictions(book, ranks, bin);
        let all = routing.evictions(book, ranks, depth);
        evictions_run_bin_by_bin(routing, book, ranks, (depth - 1) as nat);
        assert(all == before + own);
        assert forall|k: int| #![trigger own[k]] 0 <= k < own.len() implies own[k].bin == bin by {}
        assert forall|i: int| #![trigger all[i]] 0 <= i < all.len() implies all[i].bin.raw
            < depth && (i < before.len() ==> all[i] == before[i]) && (i >= before.len()
            ==> all[i] == own[i - before.len()] && all[i].bin == bin) by {}
        assert forall|i: int, j: int|
            #![trigger all[i], all[j]]
            0 <= i < j < all.len() && all[i].bin == all[j].bin && all[i].phase
                == EvictionPhase::Active implies all[j].phase == EvictionPhase::Active by {
            if j < before.len() {
                assert(all[i] == before[i] && all[j] == before[j]);
            } else if i < before.len() {
                assert(before[i].bin.raw < depth - 1);
            } else {
                assert(own[i - before.len()].phase == EvictionPhase::Active);
                assert(own[j - before.len()] == all[j]);
            }
        }
        assert forall|i: int, j: int|
            #![trigger all[i], all[j]]
            0 <= i < j < all.len() implies all[i].bin.raw <= all[j].bin.raw by {
            if j < before.len() {
                assert(all[i] == before[i] && all[j] == before[j]);
            } else if i < before.len() {
                assert(before[i].bin.raw < depth - 1);
            }
        }
    }
}

/// Candidates are enqueued in turn, each at the end of its own bin's queue.
pub proof fn candidates_are_enqueued_in_turn(
    bins: Seq<Seq<OverlayAddress>>,
    cap: nat,
    base: OverlayAddress,
    max_po: u8,
    peers: Seq<OverlayAddress>,
    peer: OverlayAddress,
)
    ensures
        all_enqueued(bins, cap, base, max_po, Seq::empty()) == bins,
        all_enqueued(bins, cap, base, max_po, peers.push(peer))
            == super::candidate_queues::enqueued(
            all_enqueued(bins, cap, base, max_po, peers),
            cap,
            super::proximity_index::bin_of(base, max_po, peer) as int,
            peer,
        ),
{
    assert(peers.push(peer).drop_last() =~= peers);
}

} // verus!
