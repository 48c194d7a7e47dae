//! Depth-aware bin allocation with linear tapering.
//!
//! Allocates more peers to higher bins (closer neighbors) where peers are
//! scarcer and more valuable for retrieval parallelization.

use crate::arith::{larger_of, saturating_product};
use crate::primitives::{Bin, NeighborhoodDepth, MAX_PO};
use vstd::prelude::*;

verus! {

/// Default minimum peers per bin (floor for depth estimation).
pub const DEFAULT_NOMINAL: usize = 3;

/// Default total connected peer target.
pub const DEFAULT_TOTAL_TARGET: usize = 160;

/// Default ceiling for inbound connections above target.
pub const DEFAULT_INBOUND_HEADROOM: usize = 4;

/// Default per-bin fill target during bootstrap (depth zero).
///
/// Before a neighborhood is established every bin is filled toward this bound
/// so bins reach the saturation frontier quickly and depth can climb. It is
/// bounded so that a node without a neighborhood cannot be flooded by inbound
/// connections.
pub const DEFAULT_BOOTSTRAP_TARGET: usize = 18;

/// Default connected peers at which a bin counts as saturated.
pub const DEFAULT_SATURATION: usize = 8;

/// Default per-bin level below which peers are never trimmed.
pub const DEFAULT_OVERSATURATION: usize = 18;

/// Deficit reported for a neighborhood bin that holds no peers.
pub const NEIGHBORHOOD_DEFICIT: usize = 1000;

/// Largest exponent the population estimates use.
pub const MAX_ESTIMATE_SHIFT: u8 = 20;

/// Depth-aware peer allocation with linear tapering across Kademlia bins.
///
/// Stateless: callers provide the depth, so there is one source of truth for it.
#[derive(Clone, Copy, Debug, PartialEq, Eq, Structural)]
pub struct DepthAwareLimits {
    /// Connected peers aimed for across the bins below the depth.
    pub total_target: usize,
    /// Minimum peers per bin.
    pub nominal: usize,
    /// Inbound peers accepted above the target.
    pub inbound_headroom: usize,
    /// Per-bin fill target at depth zero.
    pub bootstrap_target: usize,
    /// Connected peers at which a bin is saturated; no target is below it.
    pub saturation: usize,
    /// Per-bin trim floor, and the least inbound ceiling.
    pub oversaturation: usize,
}

/// The sum of the taper weights `1..=depth`.
pub open spec fn weight_sum(depth: nat) -> nat {
    depth * (depth + 1) / 2
}

/// `2^n`.
pub open spec fn doublings(n: nat) -> nat
    decreases n,
{
    if n == 0 {
        1
    } else {
        2 * doublings((n - 1) as nat)
    }
}

/// The deepest bin that holds at least `nominal` peers, or zero.
pub open spec fn estimated_depth(sizes: Seq<usize>, nominal: usize) -> u8
    decreases sizes.len(),
{
    if sizes.len() == 0 {
        0
    } else if sizes.last() >= nominal {
        clamped_index(sizes.len() - 1)
    } else {
        estimated_depth(sizes.drop_last(), nominal)
    }
}

/// The larger of a depth and the depth estimated from known bin sizes.
pub open spec fn allocation_depth(
    connected: NeighborhoodDepth,
    sizes: Seq<usize>,
    nominal: usize,
) -> NeighborhoodDepth {
    if estimated_depth(sizes, nominal) > connected.raw {
        NeighborhoodDepth { raw: estimated_depth(sizes, nominal) }
    } else {
        connected
    }
}

/// `i` is the first bin of the largest population.
pub open spec fn first_largest(sizes: Seq<usize>, i: int) -> bool {
    &&& 0 <= i < sizes.len()
    &&& forall|j: int| 0 <= j < sizes.len() ==> sizes[j] <= sizes[i]
    &&& forall|j: int| 0 <= j < i ==> sizes[j] < sizes[i]
}

/// The deepest bin that keeps `nominal` peers when the population halves from
/// each bin to the next.
pub open spec fn projected_depth(bin: nat, population: nat, nominal: nat) -> nat
    decreases MAX_PO - bin,
{
    if population >= nominal && bin < MAX_PO {
        projected_depth(bin + 1, population / 2, nominal)
    } else if population < nominal && bin > 0 {
        (bin - 1) as nat
    } else {
        bin
    }
}

/// A raw index as a bin, the deepest one where it is out of range.
pub open spec fn clamped_index(i: int) -> u8 {
    if (i as u8) <= MAX_PO {
        i as u8
    } else {
        MAX_PO
    }
}

impl Default for DepthAwareLimits {
    fn default() -> (limits: DepthAwareLimits)
        ensures
            limits == DepthAwareLimits::spec_default(),
    {
        DepthAwareLimits::new(DEFAULT_TOTAL_TARGET, DEFAULT_NOMINAL).with_saturation(
            DEFAULT_SATURATION,
        ).with_oversaturation_peers(DEFAULT_OVERSATURATION)
    }
}

impl DepthAwareLimits {
    /// The limits of a node that configures none of them.
    pub open spec fn spec_default() -> DepthAwareLimits {
        DepthAwareLimits {
            total_target: DEFAULT_TOTAL_TARGET,
            nominal: DEFAULT_NOMINAL,
            inbound_headroom: DEFAULT_INBOUND_HEADROOM,
            bootstrap_target: DEFAULT_BOOTSTRAP_TARGET,
            saturation: DEFAULT_SATURATION,
            oversaturation: DEFAULT_OVERSATURATION,
        }
    }

    /// The share of the total target that the linear taper gives to `bin`.
    pub open spec fn taper(self, bin: Bin, depth: NeighborhoodDepth) -> usize {
        (crate::arith::saturate(self.total_target * (bin.raw + 1)) as nat / weight_sum(
            depth.raw as nat,
        )) as usize
    }

    /// The number of peers aimed for in `bin` at `depth`.
    ///
    /// At depth zero every bin aims for the bootstrap target. Above it a
    /// neighborhood bin takes all peers there are, and a bin below the depth
    /// takes its taper share, but no less than the nominal and the saturation
    /// counts.
    pub open spec fn spec_target(self, bin: Bin, depth: NeighborhoodDepth) -> usize {
        if depth.raw == 0 {
            crate::arith::larger(self.bootstrap_target, self.saturation)
        } else if depth.spec_contains(bin) {
            usize::MAX
        } else {
            crate::arith::larger(
                crate::arith::larger(self.taper(bin, depth), self.nominal),
                self.saturation,
            )
        }
    }

    /// The population up to which `bin` takes inbound peers.
    pub open spec fn spec_ceiling(self, bin: Bin, depth: NeighborhoodDepth) -> usize {
        let target = self.spec_target(bin, depth);
        if target == usize::MAX {
            usize::MAX
        } else {
            crate::arith::larger(
                crate::arith::saturate(target + self.inbound_headroom),
                self.oversaturation,
            )
        }
    }

    /// The peers that may be trimmed from `bin` when it holds `connected`.
    pub open spec fn spec_surplus(
        self,
        bin: Bin,
        depth: NeighborhoodDepth,
        connected: usize,
    ) -> usize {
        let target = self.spec_target(bin, depth);
        let floor = crate::arith::larger(target, self.oversaturation);
        if target == usize::MAX || connected <= floor {
            0
        } else {
            (connected - floor) as usize
        }
    }

    /// Whether `bin` wants more peers than `connected`.
    pub open spec fn spec_needs_more(
        self,
        bin: Bin,
        depth: NeighborhoodDepth,
        connected: usize,
    ) -> bool {
        self.spec_target(bin, depth) == usize::MAX || connected < self.spec_target(bin, depth)
    }

    /// How many peers `bin` lacks when it holds `connected`.
    pub open spec fn spec_deficit(
        self,
        bin: Bin,
        depth: NeighborhoodDepth,
        connected: usize,
    ) -> usize {
        let target = self.spec_target(bin, depth);
        let wanted = if target == usize::MAX {
            NEIGHBORHOOD_DEFICIT
        } else {
            target
        };
        if connected >= wanted {
            0
        } else {
            (wanted - connected) as usize
        }
    }

    /// Create with total target and nominal minimum per bin, and without a
    /// saturation or oversaturation floor.
    pub fn new(total_target: usize, nominal: usize) -> (limits: DepthAwareLimits)
        ensures
            limits == (DepthAwareLimits {
                total_target,
                nominal,
                inbound_headroom: DEFAULT_INBOUND_HEADROOM,
                bootstrap_target: DEFAULT_BOOTSTRAP_TARGET,
                saturation: 0,
                oversaturation: 0,
            }),
    {
        DepthAwareLimits {
            total_target,
            nominal,
            inbound_headroom: DEFAULT_INBOUND_HEADROOM,
            bootstrap_target: DEFAULT_BOOTSTRAP_TARGET,
            saturation: 0,
            oversaturation: 0,
        }
    }

    /// Replace the total target.
    pub fn with_total_target(self, total_target: usize) -> (limits: DepthAwareLimits)
        ensures
            limits == (DepthAwareLimits { total_target, ..self }),
    {
        DepthAwareLimits { total_target, ..self }
    }

    /// Replace the nominal minimum per bin.
    pub fn with_nominal(self, nominal: usize) -> (limits: DepthAwareLimits)
        ensures
            limits == (DepthAwareLimits { nominal, ..self }),
    {
        DepthAwareLimits { nominal, ..self }
    }

    /// Replace the inbound headroom.
    pub fn with_inbound_headroom(self, headroom: usize) -> (limits: DepthAwareLimits)
        ensures
            limits == (DepthAwareLimits { inbound_headroom: headroom, ..self }),
    {
        DepthAwareLimits { inbound_headroom: headroom, ..self }
    }

    /// Replace the per-bin fill target used at depth zero.
    pub fn with_bootstrap_target(self, target: usize) -> (limits: DepthAwareLimits)
        ensures
            limits == (DepthAwareLimits { bootstrap_target: target, ..self }),
    {
        DepthAwareLimits { bootstrap_target: target, ..self }
    }

    /// Replace the saturation threshold.
    pub fn with_saturation(self, saturation: usize) -> (limits: DepthAwareLimits)
        ensures
            limits == (DepthAwareLimits { saturation, ..self }),
    {
        DepthAwareLimits { saturation, ..self }
    }

    /// Replace the oversaturation level (trim floor and least inbound ceiling).
    pub fn with_oversaturation_peers(self, oversaturation: usize) -> (limits: DepthAwareLimits)
        ensures
            limits == (DepthAwareLimits { oversaturation, ..self }),
    {
        DepthAwareLimits { oversaturation, ..self }
    }

    /// Minimum peers per bin (floor).
    pub fn nominal(&self) -> (n: usize)
        ensures
            n == self.nominal,
    {
        self.nominal
    }

    /// Total target peers across all bins.
    pub fn total_target(&self) -> (n: usize)
        ensures
            n == self.total_target,
    {
        self.total_target
    }

    /// Connected peers at which a bin is saturated.
    pub fn saturation(&self) -> (n: usize)
        ensures
            n == self.saturation,
    {
        self.saturation
    }

    /// Target for `bin` at `depth`; `usize::MAX` for neighborhood bins.
    pub fn target(&self, bin: Bin, depth: NeighborhoodDepth) -> (target: usize)
        ensures
            target == self.spec_target(bin, depth),
    {
        if depth.get() == 0 {
            return larger_of(self.bootstrap_target, self.saturation);
        }
        if depth.contains(bin) {
            usize::MAX
        } else {
            let weight: usize = bin.as_index() + 1;
            let d: usize = depth.get() as usize;
            proof {
                assert(d * (d + 1) <= 255 * 256 && d * (d + 1) >= 2) by (nonlinear_arith)
                    requires
                        1 <= d <= 255,
                ;
            }
            let weight_sum: usize = d * (d + 1) / 2;
            let allocated: usize = saturating_product(self.total_target, weight) / weight_sum;
            larger_of(larger_of(allocated, self.nominal), self.saturation)
        }
    }

    /// Whether the bin needs more peers at the given depth.
    pub fn needs_more(&self, bin: Bin, depth: NeighborhoodDepth, connected: usize) -> (more: bool)
        ensures
            more == self.spec_needs_more(bin, depth, connected),
    {
        let target: usize = self.target(bin, depth);
        target == usize::MAX || connected < target
    }

    /// Deficit from target at the given depth. A neighborhood bin reports a
    /// large one, so that it is served first.
    pub fn deficit(&self, bin: Bin, depth: NeighborhoodDepth, connected: usize) -> (deficit: usize)
        ensures
            deficit == self.spec_deficit(bin, depth, connected),
    {
        let target: usize = self.target(bin, depth);
        if target == usize::MAX {
            NEIGHBORHOOD_DEFICIT.saturating_sub(connected)
        } else {
            target.saturating_sub(connected)
        }
    }

    /// Surplus above the trim floor at the given depth; zero for
    /// neighborhood bins.
    pub fn surplus(&self, bin: Bin, depth: NeighborhoodDepth, connected: usize) -> (surplus: usize)
        ensures
            surplus == self.spec_surplus(bin, depth, connected),
    {
        let target: usize = self.target(bin, depth);
        if target == usize::MAX {
            0
        } else {
            connected.saturating_sub(larger_of(target, self.oversaturation))
        }
    }

    /// Target plus inbound headroom, at least the oversaturation level: the
    /// population at which inbound peers are rejected. `usize::MAX` for the
    /// neighborhood.
    pub fn ceiling(&self, bin: Bin, depth: NeighborhoodDepth) -> (ceiling: usize)
        ensures
            ceiling == self.spec_ceiling(bin, depth),
    {
        let target: usize = self.target(bin, depth);
        if target == usize::MAX {
            usize::MAX
        } else {
            larger_of(target.saturating_add(self.inbound_headroom), self.oversaturation)
        }
    }

    /// Whether the bin accepts an inbound peer on top of `connected`.
    pub fn should_accept_inbound(
        &self,
        bin: Bin,
        depth: NeighborhoodDepth,
        connected: usize,
    ) -> (accept: bool)
        ensures
            accept == (self.spec_target(bin, depth) == usize::MAX || connected < self.spec_ceiling(
                bin,
                depth,
            )),
    {
        let target: usize = self.target(bin, depth);
        target == usize::MAX || connected < self.ceiling(bin, depth)
    }

    /// Estimate depth from the known peer distribution: the deepest bin with
    /// at least the nominal number of peers.
    pub fn estimate_depth_from_known(&self, known_bin_sizes: &[usize]) -> (depth: NeighborhoodDepth)
        ensures
            depth.wf(),
            depth.raw == estimated_depth(known_bin_sizes@, self.nominal),
    {
        let mut i: usize = known_bin_sizes.len();
        proof {
            assert(known_bin_sizes@.subrange(0, i as int) =~= known_bin_sizes@);
        }
        while i > 0
            invariant
                i <= known_bin_sizes.len(),
                estimated_depth(known_bin_sizes@.subrange(0, i as int), self.nominal)
                    == estimated_depth(known_bin_sizes@, self.nominal),
            decreases i,
        {
            proof {
                assert(known_bin_sizes@.subrange(0, i as int).drop_last()
                    =~= known_bin_sizes@.subrange(0, i - 1));
            }
            i = i - 1;
            if known_bin_sizes[i] >= self.nominal {
                let bin: Bin = Bin::clamped(
                    #[verifier::truncate]
                    (i as u8),
                );
                return NeighborhoodDepth::new(bin);
            }
        }
        NeighborhoodDepth::zero()
    }

    /// Effective depth: the larger of the connected and the estimated depth.
    pub fn effective_depth(
        &self,
        connected_depth: NeighborhoodDepth,
        known_bin_sizes: &[usize],
    ) -> (depth: NeighborhoodDepth)
        ensures
            connected_depth.wf() ==> depth.wf(),
            depth == allocation_depth(connected_depth, known_bin_sizes@, self.nominal),
    {
        let estimated: NeighborhoodDepth = self.estimate_depth_from_known(known_bin_sizes);
        if estimated.raw > connected_depth.raw {
            estimated
        } else {
            connected_depth
        }
    }

    /// Expected available peers in a bin (exponential estimate from a uniform
    /// address distribution).
    pub fn expected_available(&self, bin: Bin, depth: NeighborhoodDepth) -> (n: usize)
        ensures
            n == (if depth.raw == 0 || depth.spec_contains(bin) {
                self.nominal
            } else if depth.raw - bin.raw <= MAX_ESTIMATE_SHIFT {
                crate::arith::saturate(self.nominal * doublings((depth.raw - bin.raw) as nat))
            } else {
                crate::arith::saturate(self.nominal * doublings(MAX_ESTIMATE_SHIFT as nat))
            }),
    {
        if depth.get() == 0 || depth.contains(bin) {
            self.nominal
        } else {
            let gap: u8 = depth.get() - bin.get();
            saturating_product(self.nominal, power_of_two(gap))
        }
    }

    /// Total expected peers across all bins below the depth.
    pub fn total_expected_at_depth(&self, depth: NeighborhoodDepth) -> (n: usize)
        ensures
            depth.raw == 0 ==> n == 0,
            0 < depth.raw <= MAX_ESTIMATE_SHIFT ==> n == crate::arith::saturate(
                self.nominal * 2 * (doublings(depth.raw as nat) - 1),
            ),
            depth.raw > MAX_ESTIMATE_SHIFT ==> n == crate::arith::saturate(
                self.nominal * 2 * (doublings(MAX_ESTIMATE_SHIFT as nat) - 1),
            ),
    {
        if depth.get() == 0 {
            return 0;
        }
        let two_to_depth: usize = power_of_two(depth.get());
        let doubled: usize = saturating_product(self.nominal, 2);
        proof {
            let p = two_to_depth - 1;
            if self.nominal * 2 > usize::MAX {
                lemma_doublings_at_least_two(
                    if depth.raw <= MAX_ESTIMATE_SHIFT {
                        depth.raw as nat
                    } else {
                        MAX_ESTIMATE_SHIFT as nat
                    },
                );
                assert(usize::MAX * p >= usize::MAX && self.nominal * 2 * p >= self.nominal * 2)
                    by (nonlinear_arith)
                    requires
                        p >= 1,
                ;
            }
        }
        saturating_product(doubled, two_to_depth.saturating_sub(1))
    }

    /// Estimate depth by projecting the known peer distribution to deeper
    /// bins: each holds about half the peers of the one before it.
    pub fn estimate_depth_projected(&self, known_bin_sizes: &[usize]) -> (depth: NeighborhoodDepth)
        ensures
            depth.wf(),
            known_bin_sizes.len() == 0 ==> depth.raw == clamped_index(
                if self.nominal > 0 {
                    0
                } else {
                    projected_depth(0, 0, 0) as int
                },
            ),
            forall|i: int|
                #![trigger known_bin_sizes@[i]]
                first_largest(known_bin_sizes@, i) ==> depth.raw == (if known_bin_sizes@[i]
                    < self.nominal {
                    0
                } else {
                    clamped_index(
                        projected_depth(
                            (i as u8) as nat,
                            known_bin_sizes@[i] as nat,
                            self.nominal as nat,
                        ) as int,
                    )
                }),
    {
        let mut ref_bin: u8 = 0;
        let mut ref_count: usize = 0;
        let mut i: usize = 0;
        let ghost mut at: int = 0;
        while i < known_bin_sizes.len()
            invariant
                i <= known_bin_sizes.len(),
                forall|j: int| 0 <= j < i ==> known_bin_sizes@[j] <= ref_count,
                0 <= at < known_bin_sizes.len() || known_bin_sizes.len() == 0,
                i > 0 ==> at < i && known_bin_sizes@[at] == ref_count,
                i == 0 ==> ref_count == 0,
                known_bin_sizes.len() == 0 ==> ref_count == 0,
                ref_bin == at as u8,
                at == 0 || ref_count > 0,
                forall|j: int| 0 <= j < at ==> known_bin_sizes@[j] < ref_count,
            decreases known_bin_sizes.len() - i,
        {
            if known_bin_sizes[i] > ref_count {
                ref_bin =
                #[verifier::truncate]
                (i as u8);
                ref_count = known_bin_sizes[i];
                proof {
                    at = i as int;
                }
            }
            i = i + 1;
        }
        proof {
            assert forall|k: int| first_largest(known_bin_sizes@, k) implies k == at by {
                if k < at {
                    assert(known_bin_sizes@[k] < known_bin_sizes@[at]);
                }
                if at < k {
                    assert(known_bin_sizes@[at] < known_bin_sizes@[k]);
                }
            }
        }
        if ref_count < self.nominal {
            return NeighborhoodDepth::zero();
        }
        let mut estimated: u8 = ref_bin;
        let mut projected: usize = ref_count;
        let ghost goal = projected_depth(
            ref_bin as nat,
            ref_count as nat,
            self.nominal as nat,
        );
        while projected >= self.nominal && estimated < MAX_PO
            invariant
                projected_depth(estimated as nat, projected as nat, self.nominal as nat) == goal,
                estimated <= MAX_PO || estimated == ref_bin,
            decreases MAX_PO - estimated,
        {
            estimated = estimated + 1;
            projected = projected / 2;
        }
        if projected < self.nominal && estimated > 0 {
            estimated = estimated - 1;
        }
        NeighborhoodDepth::new(Bin::clamped(estimated))
    }

    /// Target at the effective depth (allocation with a known distribution).
    pub fn target_effective(
        &self,
        bin: Bin,
        connected_depth: NeighborhoodDepth,
        known_bin_sizes: &[usize],
    ) -> (target: usize)
        ensures
            target == self.spec_target(
                bin,
                allocation_depth(connected_depth, known_bin_sizes@, self.nominal),
            ),
    {
        self.target(bin, self.effective_depth(connected_depth, known_bin_sizes))
    }
}

proof fn lemma_doublings_at_least_two(n: nat)
    requires
        n >= 1,
    ensures
        doublings(n) >= 2,
    decreases n,
{
    reveal_with_fuel(doublings, 2);
    if n > 1 {
        lemma_doublings_at_least_two((n - 1) as nat);
    }
}

/// A bin is never trimmed below its target, below the saturation threshold or
/// below the oversaturation level, and a neighborhood bin is not trimmed at all.
pub proof fn trimming_keeps_the_floor(
    limits: DepthAwareLimits,
    bin: Bin,
    depth: NeighborhoodDepth,
    connected: usize,
)
    ensures
        limits.spec_surplus(bin, depth, connected) <= connected,
        limits.spec_surplus(bin, depth, connected) > 0 ==> {
            let kept = connected - limits.spec_surplus(bin, depth, connected);
            &&& kept >= limits.spec_target(bin, depth)
            &&& kept >= limits.saturation
            &&& kept >= limits.oversaturation
        },
        depth.raw > 0 && depth.spec_contains(bin) ==> limits.spec_surplus(bin, depth, connected)
            == 0,
{
}

/// No target is below the saturation threshold, and outside bootstrap none is
/// below the nominal count, so filling a bin to its target saturates it.
pub proof fn targets_reach_saturation(
    limits: DepthAwareLimits,
    bin: Bin,
    depth: NeighborhoodDepth,
)
    ensures
        limits.spec_target(bin, depth) >= limits.saturation,
        depth.raw > 0 ==> limits.spec_target(bin, depth) >= limits.nominal,
{
}

/// The estimated depth is a bin that holds the nominal count, and no deeper
/// bin does.
pub proof fn estimate_is_deepest_populated(sizes: Seq<usize>, nominal: usize, i: int)
    requires
        0 <= i < sizes.len() <= MAX_PO + 1,
        sizes[i] >= nominal,
    ensures
        i <= estimated_depth(sizes, nominal) < sizes.len(),
        sizes[estimated_depth(sizes, nominal) as int] >= nominal,
    decreases sizes.len(),
{
    if sizes.last() < nominal {
        estimate_is_deepest_populated(sizes.drop_last(), nominal, i);
    }
}

/// A bin that still wants peers takes inbound ones too.
pub proof fn wanting_bin_accepts_inbound(
    limits: DepthAwareLimits,
    bin: Bin,
    depth: NeighborhoodDepth,
    connected: usize,
)
    requires
        limits.spec_needs_more(bin, depth, connected),
    ensures
        limits.spec_target(bin, depth) == usize::MAX || connected < limits.spec_ceiling(bin, depth),
{
}

/// A bin with a surplus wants no more peers.
pub proof fn trimmed_bin_wants_nothing(
    limits: DepthAwareLimits,
    bin: Bin,
    depth: NeighborhoodDepth,
    connected: usize,
)
    requires
        limits.spec_surplus(bin, depth, connected) > 0,
    ensures
        !limits.spec_needs_more(bin, depth, connected),
        limits.spec_deficit(bin, depth, connected) == 0,
{
}

/// Below the depth the taper never gives a deeper bin a smaller target.
pub proof fn deeper_bins_get_no_less(
    limits: DepthAwareLimits,
    shallow: Bin,
    deep: Bin,
    depth: NeighborhoodDepth,
)
    requires
        shallow.raw <= deep.raw,
    ensures
        limits.spec_target(shallow, depth) <= limits.spec_target(deep, depth),
{
    if depth.raw > 0 && !depth.spec_contains(deep) {
        let d = depth.raw as int;
        let ws = weight_sum(depth.raw as nat) as int;
        assert(d * (d + 1) >= 2) by (nonlinear_arith)
            requires
                d >= 1,
        ;
        let t = limits.total_target as int;
        let low = shallow.raw + 1;
        let high = deep.raw + 1;
        assert(0 <= t * low <= t * high) by (nonlinear_arith)
            requires
                0 <= t,
                0 <= low <= high,
        ;
        let a = crate::arith::saturate(t * low) as int;
        let b = crate::arith::saturate(t * high) as int;
        assert(0 <= a / ws <= b / ws <= b) by (nonlinear_arith)
            requires
                0 <= a <= b,
                ws >= 1,
        ;
    }
}

/// The targets of the first `n` bins at `depth`, summed.
pub open spec fn target_sum(limits: DepthAwareLimits, depth: NeighborhoodDepth, n: nat) -> nat
    decreases n,
{
    if n == 0 {
        0
    } else {
        target_sum(limits, depth, (n - 1) as nat) + limits.spec_target(
            Bin { raw: (n - 1) as u8 },
            depth,
        ) as nat
    }
}

/// The taper shares of the first `n` bins at `depth`, summed.
spec fn taper_sum(limits: DepthAwareLimits, depth: NeighborhoodDepth, n: nat) -> nat
    decreases n,
{
    if n == 0 {
        0
    } else {
        taper_sum(limits, depth, (n - 1) as nat) + limits.taper(
            Bin { raw: (n - 1) as u8 },
            depth,
        ) as nat
    }
}

proof fn lemma_taper_sum(limits: DepthAwareLimits, depth: NeighborhoodDepth, n: nat)
    requires
        depth.raw > 0,
        n <= depth.raw,
    ensures
        weight_sum(depth.raw as nat) >= 1,
        weight_sum(depth.raw as nat) * taper_sum(limits, depth, n) <= limits.total_target
            * weight_sum(n),
    decreases n,
{
    let d = depth.raw as int;
    let t = limits.total_target as int;
    let ws = weight_sum(depth.raw as nat) as int;
    assert(d * (d + 1) >= 2) by (nonlinear_arith)
        requires
            d >= 1,
    ;
    if n == 0 {
        assert(ws * 0 <= t * weight_sum(0)) by (nonlinear_arith)
            requires
                t >= 0,
                weight_sum(0) >= 0,
        ;
    } else {
        lemma_taper_sum(limits, depth, (n - 1) as nat);
        let k = n as int;
        let before = taper_sum(limits, depth, (n - 1) as nat) as int;
        let lower = weight_sum((n - 1) as nat) as int;
        assert((k - 1) * k + 2 * k == k * (k + 1)) by (nonlinear_arith);
        assert(weight_sum(n) == lower + k);
        let bin = Bin { raw: (n - 1) as u8 };
        assert(t * k >= 0) by (nonlinear_arith)
            requires
                t >= 0,
                k >= 0,
        ;
        assert(limits.total_target * (bin.raw + 1) == t * k);
        let x = crate::arith::saturate(t * k) as int;
        assert(0 <= x / ws <= x && ws * (x / ws) <= x) by (nonlinear_arith)
            requires
                x >= 0,
                ws >= 1,
        ;
        let share = limits.taper(bin, depth) as int;
        assert(share == x / ws);
        assert(ws * (before + share) == ws * before + ws * share) by (nonlinear_arith);
        assert(t * (lower + k) == t * lower + t * k) by (nonlinear_arith);
    }
}

proof fn lemma_target_sum(limits: DepthAwareLimits, depth: NeighborhoodDepth, n: nat)
    requires
        depth.raw > 0,
        n <= depth.raw,
    ensures
        target_sum(limits, depth, n) <= taper_sum(limits, depth, n) + n * crate::arith::larger(
            limits.nominal,
            limits.saturation,
        ),
    decreases n,
{
    let floor = crate::arith::larger(limits.nominal, limits.saturation) as int;
    let k = n as int;
    if n > 0 {
        lemma_target_sum(limits, depth, (n - 1) as nat);
        assert(k * floor == (k - 1) * floor + floor) by (nonlinear_arith);
        assert(!depth.spec_contains(Bin { raw: (n - 1) as u8 }));
    } else {
        assert(k * floor == 0) by (nonlinear_arith)
            requires
                k == 0,
        ;
    }
}

/// The bins below the depth share the total target: no target is under the
/// nominal count, a deeper bin gets no less than a shallower one, and together
/// they aim for no more than the total target and, for each bin, the larger of
/// the nominal and the saturation counts. The bins of the neighborhood take
/// every peer.
pub proof fn targets_share_the_total(limits: DepthAwareLimits, depth: NeighborhoodDepth)
    requires
        depth.raw > 0,
    ensures
        forall|bin: Bin|
            #![trigger limits.spec_target(bin, depth)]
            bin.raw < depth.raw ==> limits.spec_target(bin, depth) >= limits.nominal,
        forall|shallow: Bin, deep: Bin|
            #![trigger limits.spec_target(shallow, depth), limits.spec_target(deep, depth)]
            shallow.raw <= deep.raw ==> limits.spec_target(shallow, depth) <= limits.spec_target(
                deep,
                depth,
            ),
        target_sum(limits, depth, depth.raw as nat) <= limits.total_target + depth.raw
            * crate::arith::larger(limits.nominal, limits.saturation),
        forall|bin: Bin|
            #![trigger limits.spec_target(bin, depth)]
            bin.raw >= depth.raw ==> limits.spec_target(bin, depth) == usize::MAX,
{
    assert forall|shallow: Bin, deep: Bin|
        #![trigger limits.spec_target(shallow, depth), limits.spec_target(deep, depth)]
        shallow.raw <= deep.raw implies limits.spec_target(shallow, depth) <= limits.spec_target(
        deep,
        depth,
    ) by {
        deeper_bins_get_no_less(limits, shallow, deep, depth);
    }
    let n = depth.raw as nat;
    lemma_taper_sum(limits, depth, n);
    lemma_target_sum(limits, depth, n);
    let ws = weight_sum(n) as int;
    let shares = taper_sum(limits, depth, n) as int;
    let t = limits.total_target as int;
    assert(shares <= t) by (nonlinear_arith)
        requires
            ws * shares <= t * ws,
            ws >= 1,
    ;
}

/// `2^n`, with `n` capped so that the power fits any machine word.
fn power_of_two(n: u8) -> (p: usize)
    ensures
        n <= MAX_ESTIMATE_SHIFT ==> p == doublings(n as nat),
        n > MAX_ESTIMATE_SHIFT ==> p == doublings(MAX_ESTIMATE_SHIFT as nat),
        1 <= p <= 0x10_0000,
{
    let last: u8 = if n <= MAX_ESTIMATE_SHIFT {
        n
    } else {
        MAX_ESTIMATE_SHIFT
    };
    let mut p: usize = 1;
    let mut i: u8 = 0;
    let ghost mut room: nat = 0x10_0000;
    proof {
        reveal_with_fuel(doublings, 21);
    }
    while i < last
        invariant
            i <= last <= MAX_ESTIMATE_SHIFT,
            p == doublings(i as nat),
            p * room == 0x10_0000,
            room == doublings((MAX_ESTIMATE_SHIFT - i) as nat),
            p >= 1,
        decreases last - i,
    {
        proof {
            lemma_doublings_at_least_two((MAX_ESTIMATE_SHIFT - i) as nat);
            assert(p <= 0x8_0000 && (2 * p) * (room / 2) == 0x10_0000) by (nonlinear_arith)
                requires
                    p * room == 0x10_0000,
                    room >= 2,
                    room % 2 == 0,
                    p >= 1,
            ;
            room = room / 2;
        }
        p = p * 2;
        i = i + 1;
    }
    proof {
        assert(p <= 0x10_0000) by (nonlinear_arith)
            requires
                p * room == 0x10_0000,
                p >= 1,
                room >= 0,
        ;
    }
    p
}

/// Limits pinned to one depth, so that one selection round sees one state.
#[derive(Clone, Copy, Debug)]
pub struct LimitsSnapshot {
    pub depth: NeighborhoodDepth,
    pub limits: DepthAwareLimits,
}

impl LimitsSnapshot {
    /// Capture the limits at `depth`.
    pub fn capture(limits: &DepthAwareLimits, depth: NeighborhoodDepth) -> (snapshot: Self)
        ensures
            snapshot.depth == depth,
            snapshot.limits == *limits,
    {
        LimitsSnapshot { depth, limits: *limits }
    }

    /// Whether the bin needs more peers at the captured depth.
    pub fn needs_more(&self, bin: Bin, connected: usize) -> (more: bool)
        ensures
            more == self.limits.spec_needs_more(bin, self.depth, connected),
    {
        self.limits.needs_more(bin, self.depth, connected)
    }

    /// Deficit from target at the captured depth.
    pub fn deficit(&self, bin: Bin, connected: usize) -> (deficit: usize)
        ensures
            deficit == self.limits.spec_deficit(bin, self.depth, connected),
    {
        self.limits.deficit(bin, self.depth, connected)
    }

    /// Target at the captured depth.
    pub fn target(&self, bin: Bin) -> (target: usize)
        ensures
            target == self.limits.spec_target(bin, self.depth),
    {
        self.limits.target(bin, self.depth)
    }

    /// Surplus at the captured depth.
    pub fn surplus(&self, bin: Bin, connected: usize) -> (surplus: usize)
        ensures
            surplus == self.limits.spec_surplus(bin, self.depth, connected),
    {
        self.limits.surplus(bin, self.depth, connected)
    }
}

/// The depth that peers are allocated by is the deepest bin that at least the
/// nominal count of peers is known of, or the published depth where that is
/// deeper or no bin is so populated.
pub proof fn allocation_follows_the_known_peers(
    connected: NeighborhoodDepth,
    sizes: Seq<usize>,
    nominal: usize,
)
    requires
        sizes.len() <= MAX_PO + 1,
    ensures
        ({
            let depth = allocation_depth(connected, sizes, nominal).raw;
            &&& depth >= connected.raw
            &&& forall|b: int|
                #![trigger sizes[b]]
                0 <= b < sizes.len() && sizes[b] >= nominal ==> depth >= b
            &&& depth > connected.raw ==> depth < sizes.len() && sizes[depth as int] >= nominal
        }),
    decreases sizes.len(),
{
    lemma_estimate_is_populated(sizes, nominal);
    assert forall|b: int| #![trigger sizes[b]] 0 <= b < sizes.len() && sizes[b]
        >= nominal implies allocation_depth(connected, sizes, nominal).raw >= b by {
        estimate_is_deepest_populated(sizes, nominal, b);
    }
}

proof fn lemma_estimate_is_populated(sizes: Seq<usize>, nominal: usize)
    requires
        sizes.len() <= MAX_PO + 1,
    ensures
        estimated_depth(sizes, nominal) > 0 ==> estimated_depth(sizes, nominal) < sizes.len()
            && sizes[estimated_depth(sizes, nominal) as int] >= nominal,
    decreases sizes.len(),
{
    if sizes.len() > 0 && sizes.last() < nominal {
        lemma_estimate_is_populated(sizes.drop_last(), nominal);
    }
}

/// Below the depth a bin aims for its share of the total target, which grows
/// with the bin: `share` is the number of whole times that the sum of the
/// weights `1..=depth` goes into the total target times the bin's weight. It
/// aims for no less than the nominal and the saturation counts, and for none of
/// the three alone where another is larger.
pub proof fn targets_follow_the_taper(
    limits: DepthAwareLimits,
    bin: Bin,
    depth: NeighborhoodDepth,
    share: int,
)
    requires
        bin.raw < depth.raw,
        limits.total_target * (bin.raw + 1) <= usize::MAX,
        share * (depth.raw * (depth.raw + 1)) <= 2 * (limits.total_target * (bin.raw + 1)),
        2 * (limits.total_target * (bin.raw + 1)) < (share + 1) * (depth.raw * (depth.raw + 1)),
    ensures
        limits.spec_target(bin, depth) >= share,
        limits.spec_target(bin, depth) >= limits.nominal,
        limits.spec_target(bin, depth) >= limits.saturation,
        limits.spec_target(bin, depth) == share || limits.spec_target(bin, depth) == limits.nominal
            || limits.spec_target(bin, depth) == limits.saturation,
{
    let d = depth.raw as int;
    let twice = d * (d + 1);
    let ws = weight_sum(depth.raw as nat) as int;
    let x = limits.total_target * (bin.raw + 1);
    lemma_twice_the_weights(depth.raw as nat);
    assert(share * ws <= x < (share + 1) * ws && ws > 0) by (nonlinear_arith)
        requires
            share * twice <= 2 * x,
            2 * x < (share + 1) * twice,
            twice == 2 * ws,
            twice >= 2,
    ;
    assert(x >= 0) by (nonlinear_arith)
        requires
            x == limits.total_target * (bin.raw + 1),
    ;
    assert(x == share * ws + (x - share * ws));
    assert(0 <= x - share * ws < ws) by (nonlinear_arith)
        requires
            share * ws <= x < (share + 1) * ws,
    ;
    vstd::arithmetic::div_mod::lemma_fundamental_div_mod_converse(x, ws, share, x - share * ws);
    assert(0 <= share <= x) by (nonlinear_arith)
        requires
            share * ws <= x < (share + 1) * ws,
            ws >= 1,
            x >= 0,
    ;
}

proof fn lemma_twice_the_weights(d: nat)
    requires
        d > 0,
    ensures
        d * (d + 1) == 2 * weight_sum(d),
        d * (d + 1) >= 2,
    decreases d,
{
    if d > 1 {
        lemma_twice_the_weights((d - 1) as nat);
        assert(d * (d + 1) == (d - 1) * d + 2 * d) by (nonlinear_arith)
            requires
                d >= 1,
        ;
        assert((d - 1) as nat * d == (d - 1) * d);
    } else {
        assert(d * (d + 1) == 2) by (nonlinear_arith)
            requires
                d == 1,
        ;
    }
}

/// At depth zero every bin aims for the bootstrap target, or for the saturation
/// count where that is larger; deeper in, a bin of the neighborhood takes all
/// the peers there are.
pub proof fn targets_at_the_ends(limits: DepthAwareLimits, bin: Bin, depth: NeighborhoodDepth)
    ensures
        depth.raw == 0 && limits.bootstrap_target >= limits.saturation ==> limits.spec_target(
            bin,
            depth,
        ) == limits.bootstrap_target,
        depth.raw == 0 && limits.bootstrap_target < limits.saturation ==> limits.spec_target(
            bin,
            depth,
        ) == limits.saturation,
        0 < depth.raw <= bin.raw ==> limits.spec_target(bin, depth) == usize::MAX,
{
}

/// What a bin's target means for its population: a bin wants peers while it
/// holds fewer than its target, and lacks just what is missing; it takes inbound
/// peers up to its target and the headroom, and up to the oversaturation level
/// in any event; it gives up what is above both its target and that level. A bin
/// without a bound wants and takes peers always, lacks what is missing to a
/// thousand, and gives none up.
pub proof fn populations_follow_the_target(
    limits: DepthAwareLimits,
    bin: Bin,
    depth: NeighborhoodDepth,
    connected: usize,
)
    ensures
        ({
            let target = limits.spec_target(bin, depth);
            let bounded = target < usize::MAX;
            let ceiling = limits.spec_ceiling(bin, depth);
            let surplus = limits.spec_surplus(bin, depth, connected);
            let deficit = limits.spec_deficit(bin, depth, connected);
            &&& limits.spec_needs_more(bin, depth, connected) <==> !bounded || connected < target
            &&& !bounded ==> ceiling == usize::MAX && surplus == 0
            &&& !bounded && connected <= 1000 ==> deficit + connected == 1000
            &&& !bounded && connected > 1000 ==> deficit == 0
            &&& bounded && connected <= target ==> deficit + connected == target
            &&& bounded && connected >= target ==> deficit == 0
            &&& bounded ==> ceiling >= target && ceiling >= limits.oversaturation
            &&& bounded && target + limits.inbound_headroom <= usize::MAX ==> ceiling >= target
                + limits.inbound_headroom
            &&& bounded && ceiling > limits.oversaturation && target + limits.inbound_headroom
                <= usize::MAX ==> ceiling == target + limits.inbound_headroom
            &&& bounded && (connected <= target || connected <= limits.oversaturation) ==> surplus
                == 0
            &&& bounded && connected > target && connected > limits.oversaturation ==> surplus > 0
                && (connected - surplus == target || connected - surplus == limits.oversaturation)
                && connected - surplus >= target && connected - surplus >= limits.oversaturation
        }),
{
}

/// Each doubling doubles, from one.
pub proof fn doublings_double(n: nat)
    ensures
        doublings(0) == 1,
        doublings(n + 1) == 2 * doublings(n),
{
}

/// The population that the projection starts from halves with each bin, and the
/// projected depth is the last bin that keeps the nominal count, or the deepest
/// bin of the table.
pub proof fn projection_halves_the_population(bin: nat, population: nat, nominal: nat)
    requires
        bin <= MAX_PO,
        population >= nominal,
        nominal > 0,
    ensures
        ({
            let depth = projected_depth(bin, population, nominal);
            &&& bin <= depth <= MAX_PO
            &&& halved(population, (depth - bin) as nat) >= nominal
            &&& depth < MAX_PO ==> halved(population, (depth - bin + 1) as nat) < nominal
        }),
    decreases MAX_PO - bin,
{
    if bin < MAX_PO {
        reveal_with_fuel(halved, 3);
        if population / 2 >= nominal {
            projection_halves_the_population(bin + 1, population / 2, nominal);
            let depth = projected_depth(bin, population, nominal);
            assert(depth == projected_depth(bin + 1, population / 2, nominal));
            assert(halved(population, (depth - bin) as nat) == halved(
                population / 2,
                (depth - bin - 1) as nat,
            ));
        } else {
            assert(projected_depth(bin + 1, population / 2, nominal) == bin);
        }
    }
}

/// `population` halved `times` times.
pub open spec fn halved(population: nat, times: nat) -> nat
    decreases times,
{
    if times == 0 {
        population
    } else {
        halved(population / 2, (times - 1) as nat)
    }
}

/// The bin that a projection starts from holds no fewer peers than any other, and
/// more than any shallower one.
pub proof fn projections_start_at_the_first_largest_bin(sizes: Seq<usize>, i: int, j: int)
    requires
        first_largest(sizes, i),
        0 <= j < sizes.len(),
    ensures
        sizes[j] <= sizes[i],
        j < i ==> sizes[j] < sizes[i],
{
}

} // verus!
