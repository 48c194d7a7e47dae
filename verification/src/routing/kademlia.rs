//! A routing table of known and connected peers with per-bin watermarks.

use super::config::KademliaConfig;
use super::pslice::PSlice;
use crate::arith::smaller_of;
use crate::kademlia::capacity::{CapacityTable, ConnectionPhase};
use crate::kademlia::nearest::nearest;
use crate::kademlia::routing::{BinStatus, RoutingStatus};
use crate::primitives::{Bin, ChunkAddress, NeighborhoodDepth, OverlayAddress, MAX_PO};
use vstd::prelude::*;

verus! {

/// How many connection candidates are kept at most.
pub const MAX_PENDING_CANDIDATES: usize = 64;

/// The bins after `peer` entered bin `b`, unless that holds it.
pub open spec fn with_peer(
    bins: Seq<Seq<OverlayAddress>>,
    b: int,
    peer: OverlayAddress,
) -> Seq<Seq<OverlayAddress>> {
    if bins[b].contains(peer) {
        bins
    } else {
        bins.update(b, bins[b].push(peer))
    }
}

/// The bins after `peer` left bin `b`, if that held it.
pub open spec fn without_peer(
    bins: Seq<Seq<OverlayAddress>>,
    b: int,
    peer: OverlayAddress,
) -> Seq<Seq<OverlayAddress>> {
    if bins[b].contains(peer) {
        bins.update(b, super::pslice::swapped_out(bins[b], bins[b].index_of(peer)))
    } else {
        bins
    }
}

/// Every peer sits in its own bin.
pub open spec fn placed(
    bins: Seq<Seq<OverlayAddress>>,
    local: OverlayAddress,
    max_po: u8,
) -> bool {
    forall|b: int, i: int|
        #![trigger bins[b][i]]
        0 <= b < bins.len() && 0 <= i < bins[b].len()
            ==> crate::kademlia::proximity_index::bin_of(local, max_po, bins[b][i]) == b
}

/// Whether some bin holds `peer`.
pub open spec fn held(bins: Seq<Seq<OverlayAddress>>, peer: OverlayAddress) -> bool {
    exists|b: int| 0 <= b < bins.len() && #[trigger] bins[b].contains(peer)
}

/// Those of `row` that no bin of `connected` holds, in order.
pub open spec fn unconnected(
    connected: Seq<Seq<OverlayAddress>>,
    row: Seq<OverlayAddress>,
) -> Seq<OverlayAddress>
    decreases row.len(),
{
    if row.len() == 0 {
        Seq::empty()
    } else if held(connected, row.last()) {
        unconnected(connected, row.drop_last())
    } else {
        unconnected(connected, row.drop_last()).push(row.last())
    }
}

/// How many entries a list of `len` takes before it holds `max`.
pub open spec fn room(max: usize, len: nat) -> nat {
    if len < max {
        (max - len) as nat
    } else {
        0
    }
}

/// The known peers of bin `b` and deeper that could be dialed, deepest bin
/// first: the unconnected ones of the bins short of `saturation` connections.
pub open spec fn neighbour_pool(
    known: Seq<Seq<OverlayAddress>>,
    connected: Seq<Seq<OverlayAddress>>,
    saturation: usize,
    b: int,
) -> Seq<OverlayAddress>
    decreases known.len() - b,
{
    if b >= known.len() {
        Seq::empty()
    } else {
        let deeper = neighbour_pool(known, connected, saturation, b + 1);
        if connected[b].len() < saturation {
            deeper + unconnected(connected, known[b])
        } else {
            deeper
        }
    }
}

/// How many of the `known` peers of a bin are dialed to bring its `connected`
/// ones up to `saturation`: the larger the pool, the more of the deficit.
pub open spec fn bin_share(known: nat, connected: nat, saturation: nat) -> nat {
    let deficit = saturation - connected;
    let wanted = if known >= 4 * saturation {
        deficit
    } else if known >= 2 * saturation {
        at_least_one(deficit * 3 / 4)
    } else if known >= saturation {
        at_least_one(deficit / 2)
    } else {
        at_least_one(deficit / 4)
    };
    let available = if known > connected {
        known - connected
    } else {
        0
    };
    (if wanted < available {
        wanted
    } else {
        available
    }) as nat
}

pub open spec fn at_least_one(n: int) -> int {
    if n < 1 {
        1
    } else {
        n
    }
}

/// The candidates after the bins `b - 1`, `b - 2`, down to bin 0 each added
/// their share, while fewer than `max` are held.
pub open spec fn balanced(
    known: Seq<Seq<OverlayAddress>>,
    connected: Seq<Seq<OverlayAddress>>,
    saturation: usize,
    candidates: Seq<OverlayAddress>,
    max: usize,
    b: int,
) -> Seq<OverlayAddress>
    decreases b,
{
    if b <= 0 {
        candidates
    } else {
        balanced(
            known,
            connected,
            saturation,
            bin_balanced(known, connected, saturation, candidates, max, b - 1),
            max,
            b - 1,
        )
    }
}

/// The candidates after bin `b` added its share.
pub open spec fn bin_balanced(
    known: Seq<Seq<OverlayAddress>>,
    connected: Seq<Seq<OverlayAddress>>,
    saturation: usize,
    candidates: Seq<OverlayAddress>,
    max: usize,
    b: int,
) -> Seq<OverlayAddress> {
    if connected[b].len() < saturation && known[b].len() > 0 {
        let share = bin_share(known[b].len(), connected[b].len(), saturation as nat);
        let free = room(max, candidates.len());
        candidates + crate::kademlia::peers::leading(
            unconnected(connected, known[b]),
            if share < free {
                share
            } else {
                free
            },
        )
    } else {
        candidates
    }
}

/// `pending` followed by those of `fresh` it does not hold yet.
pub open spec fn merged(
    pending: Seq<OverlayAddress>,
    fresh: Seq<OverlayAddress>,
) -> Seq<OverlayAddress>
    decreases fresh.len(),
{
    if fresh.len() == 0 {
        pending
    } else {
        let rest = merged(pending, fresh.drop_last());
        if rest.contains(fresh.last()) {
            rest
        } else {
            rest.push(fresh.last())
        }
    }
}

/// The last [`MAX_PENDING_CANDIDATES`] of a list, or all of it.
pub open spec fn newest(candidates: Seq<OverlayAddress>) -> Seq<OverlayAddress> {
    if candidates.len() > MAX_PENDING_CANDIDATES {
        candidates.subrange(
            candidates.len() - MAX_PENDING_CANDIDATES,
            candidates.len() as int,
        )
    } else {
        candidates
    }
}

/// The bins after every one of `peers` entered its bin.
pub open spec fn with_peers(
    bins: Seq<Seq<OverlayAddress>>,
    local: OverlayAddress,
    max_po: u8,
    peers: Seq<OverlayAddress>,
) -> Seq<Seq<OverlayAddress>>
    decreases peers.len(),
{
    if peers.len() == 0 {
        bins
    } else {
        with_peer(
            with_peers(bins, local, max_po, peers.drop_last()),
            crate::kademlia::proximity_index::bin_of(local, max_po, peers.last()) as int,
            peers.last(),
        )
    }
}

proof fn lemma_placed_held(
    bins: Seq<Seq<OverlayAddress>>,
    local: OverlayAddress,
    max_po: u8,
    peer: OverlayAddress,
)
    requires
        placed(bins, local, max_po),
        bins.len() == max_po + 1,
    ensures
        held(bins, peer) == bins[crate::kademlia::proximity_index::bin_of(
            local,
            max_po,
            peer,
        ) as int].contains(peer),
        forall|b: int|
            #![trigger bins[b]]
            0 <= b < bins.len() && bins[b].contains(peer)
                ==> b == crate::kademlia::proximity_index::bin_of(local, max_po, peer),
{
    assert forall|b: int|
        #![trigger bins[b]]
        0 <= b < bins.len() && bins[b].contains(peer) implies b
        == crate::kademlia::proximity_index::bin_of(local, max_po, peer) by {
        let i = choose|i: int| 0 <= i < bins[b].len() && bins[b][i] == peer;
        assert(bins[b][i] == peer);
    }
}

proof fn lemma_with_peer_placed(
    bins: Seq<Seq<OverlayAddress>>,
    local: OverlayAddress,
    max_po: u8,
    peer: OverlayAddress,
)
    requires
        placed(bins, local, max_po),
        bins.len() == max_po + 1,
    ensures
        placed(
            with_peer(
                bins,
                crate::kademlia::proximity_index::bin_of(local, max_po, peer) as int,
                peer,
            ),
            local,
            max_po,
        ),
{
    let at = crate::kademlia::proximity_index::bin_of(local, max_po, peer) as int;
    let after = with_peer(bins, at, peer);
    assert forall|b: int, i: int|
        #![trigger after[b][i]]
        0 <= b < after.len() && 0 <= i < after[b].len()
            implies crate::kademlia::proximity_index::bin_of(local, max_po, after[b][i]) == b by {
        if b != at || i < bins[b].len() {
            assert(after[b][i] == bins[b][i]);
        }
    }
}

proof fn lemma_without_peer_placed(
    bins: Seq<Seq<OverlayAddress>>,
    local: OverlayAddress,
    max_po: u8,
    at: int,
    peer: OverlayAddress,
)
    requires
        placed(bins, local, max_po),
        0 <= at < bins.len(),
    ensures
        placed(without_peer(bins, at, peer), local, max_po),
{
    let after = without_peer(bins, at, peer);
    assert forall|b: int, i: int|
        #![trigger after[b][i]]
        0 <= b < after.len() && 0 <= i < after[b].len()
            implies crate::kademlia::proximity_index::bin_of(local, max_po, after[b][i]) == b by {
        if bins[at].contains(peer) && b == at && i == bins[b].index_of(peer) {
            assert(after[b][i] == bins[b][bins[b].len() - 1]);
        } else {
            assert(after[b][i] == bins[b][i]);
        }
    }
}

proof fn lemma_leading_appended(
    first: Seq<OverlayAddress>,
    second: Seq<OverlayAddress>,
    n: nat,
)
    ensures
        ({
            let taken = crate::kademlia::peers::leading(first, n);
            crate::kademlia::peers::leading(first + second, n) == taken
                + crate::kademlia::peers::leading(second, (n - taken.len()) as nat)
        }),
{
    let taken = crate::kademlia::peers::leading(first, n);
    assert(crate::kademlia::peers::leading(first + second, n) =~= taken
        + crate::kademlia::peers::leading(second, (n - taken.len()) as nat));
}

proof fn lemma_merged_distinct(pending: Seq<OverlayAddress>, fresh: Seq<OverlayAddress>)
    requires
        pending.no_duplicates(),
    ensures
        merged(pending, fresh).no_duplicates(),
        merged(pending, fresh).len() >= pending.len(),
    decreases fresh.len(),
{
    if fresh.len() > 0 {
        lemma_merged_distinct(pending, fresh.drop_last());
    }
}

/// Known and connected peers by bin, connection candidates, and per-bin
/// capacity.
#[derive(Debug)]
pub struct KademliaRouting {
    pub local: OverlayAddress,
    pub max_po: u8,
    /// Discovered but not connected peers.
    pub known_peers: PSlice,
    pub connected_peers: PSlice,
    pub depth: u8,
    pub config: KademliaConfig,
    pub connection_candidates: Vec<OverlayAddress>,
    pub capacity: CapacityTable,
}

impl KademliaRouting {
    /// The table has a bin for `peer`. One that reaches down to the deepest
    /// proximity order has a bin for every peer.
    pub open spec fn fits(self, peer: OverlayAddress) -> bool {
        self.max_po == MAX_PO || crate::primitives::proximity_order(self.local, peer)
            <= self.max_po
    }

    /// The bin of `peer`.
    pub open spec fn bin_of(self, peer: OverlayAddress) -> int {
        crate::kademlia::proximity_index::bin_of(self.local, self.max_po, peer) as int
    }

    /// Every peer sits in its own bin, the parts share one address space, and
    /// the pending candidates are few and distinct.
    pub open spec fn wf(self) -> bool {
        &&& self.max_po <= MAX_PO
        &&& self.known_peers.wf()
        &&& self.connected_peers.wf()
        &&& self.known_peers.contents().len() == self.max_po + 1
        &&& self.connected_peers.contents().len() == self.max_po + 1
        &&& placed(self.known_peers.contents(), self.local, self.max_po)
        &&& placed(self.connected_peers.contents(), self.local, self.max_po)
        &&& self.depth <= self.max_po
        &&& self.connection_candidates@.no_duplicates()
        &&& self.connection_candidates.len() <= MAX_PENDING_CANDIDATES
        &&& self.capacity.wf()
        &&& self.capacity.base == self.local
        &&& self.capacity.max_po == self.max_po
    }

    /// Identity and configuration are those of `other`.
    pub open spec fn same_setup(self, other: KademliaRouting) -> bool {
        &&& self.local == other.local
        &&& self.max_po == other.max_po
        &&& self.config == other.config
    }

    /// The deepest bin with enough connections for the depth calculation, or
    /// zero.
    pub open spec fn watermark_depth(self, connected: Seq<Seq<OverlayAddress>>) -> u8 {
        crate::kademlia::limits::estimated_depth(
            crate::kademlia::routing::sizes_of(connected),
            self.config.low_watermark,
        )
    }

    /// The candidates that one evaluation finds.
    pub open spec fn fresh_candidates(self) -> Seq<OverlayAddress> {
        let known = self.known_peers.contents();
        let connected = self.connected_peers.contents();
        let saturation = self.config.saturation_peers;
        balanced(
            known,
            connected,
            saturation,
            crate::kademlia::peers::leading(
                neighbour_pool(known, connected, saturation, self.depth as int),
                self.config.max_neighbor_candidates as nat,
            ),
            self.config.max_balanced_candidates,
            self.depth as int,
        )
    }

    /// An empty table around `local`.
    pub fn new(local: OverlayAddress, max_po: u8, config: KademliaConfig) -> (routing:
        KademliaRouting)
        requires
            max_po <= MAX_PO,
        ensures
            routing.wf(),
            routing.local == local,
            routing.max_po == max_po,
            routing.config == config,
            routing.depth == 0,
            routing.capacity.exact(),
            routing.capacity.state() == (
                Seq::<crate::kademlia::capacity::TrackedConnection>::empty(),
                Seq::new(
                    (max_po + 1) as nat,
                    |b: int|
                        crate::kademlia::capacity::PhaseCount {
                            dialing: 0,
                            handshaking: 0,
                            active: 0,
                        },
                ),
            ),
            routing.connection_candidates.len() == 0,
            routing.known_peers.contents() == Seq::new(
                (max_po + 1) as nat,
                |b: int| Seq::<OverlayAddress>::empty(),
            ),
            routing.connected_peers.contents() == Seq::new(
                (max_po + 1) as nat,
                |b: int| Seq::<OverlayAddress>::empty(),
            ),
    {
        KademliaRouting {
            local,
            max_po,
            known_peers: PSlice::new(max_po),
            connected_peers: PSlice::new(max_po),
            depth: 0,
            config,
            connection_candidates: Vec::new(),
            capacity: CapacityTable::new(local, max_po),
        }
    }

    /// The maximum proximity order of the table.
    pub fn max_po(&self) -> (po: u8)
        ensures
            po == self.max_po,
    {
        self.max_po
    }

    /// The current depth.
    pub fn depth(&self) -> (depth: u8)
        ensures
            depth == self.depth,
    {
        self.depth
    }

    fn proximity(&self, peer: &OverlayAddress) -> (po: u8)
        requires
            self.fits(*peer),
        ensures
            po as int == self.bin_of(*peer),
            po <= self.max_po,
    {
        proof {
            crate::primitives::proximity_is_bounded(self.local, *peer);
        }
        self.local.proximity(peer)
    }

    /// Append the first `limit` peers of `row` that are not connected, while
    /// fewer than `max` candidates are held.
    fn take_unconnected(
        &self,
        candidates: &mut Vec<OverlayAddress>,
        row: &Vec<OverlayAddress>,
        limit: usize,
        max: usize,
    )
        requires
            self.wf(),
        ensures
            ({
                let free = room(max, old(candidates).len() as nat);
                final(candidates)@ == old(candidates)@ + crate::kademlia::peers::leading(
                    unconnected(self.connected_peers.contents(), row@),
                    if limit < free {
                        limit as nat
                    } else {
                        free
                    },
                )
            }),
    {
        let ghost connected = self.connected_peers.contents();
        let ghost start = candidates@;
        let ghost free = room(max, start.len());
        let ghost most = if limit < free {
            limit as nat
        } else {
            free
        };
        let mut added: usize = 0;
        let mut i: usize = 0;
        proof {
            assert(row@.subrange(0, 0) =~= Seq::empty());
            assert(start + crate::kademlia::peers::leading(Seq::empty(), most) =~= start);
        }
        while i < row.len()
            invariant
                i <= row.len(),
                connected == self.connected_peers.contents(),
                start.len() <= candidates.len(),
                added == candidates.len() - start.len(),
                added <= i,
                free == room(max, start.len()),
                most == (if limit < free {
                    limit as nat
                } else {
                    free
                }),
                added <= most,
                candidates@ == start + crate::kademlia::peers::leading(
                    unconnected(connected, row@.subrange(0, i as int)),
                    most,
                ),
            decreases row.len() - i,
        {
            let ghost before = row@.subrange(0, i as int);
            let ghost after = row@.subrange(0, i + 1);
            proof {
                assert(after.drop_last() =~= before);
                assert(after.last() == row@[i as int]);
            }
            if candidates.len() < max && added < limit && !self.connected_peers.contains(&row[i]) {
                proof {
                    assert(unconnected(connected, before).len() == added);
                    assert(candidates@.push(row@[i as int]) =~= start
                        + crate::kademlia::peers::leading(unconnected(connected, after), most));
                }
                candidates.push(row[i]);
                added = added + 1;
            } else {
                proof {
                    if added == most {
                        assert(crate::kademlia::peers::leading(unconnected(connected, after), most)
                            =~= crate::kademlia::peers::leading(
                            unconnected(connected, before),
                            most,
                        ));
                    }
                }
            }
            i = i + 1;
        }
        proof {
            assert(row@.subrange(0, i as int) =~= row@);
        }
    }

    /// Append known peers at or beyond the depth that are not connected and
    /// whose bins are short of connections, deepest first, while fewer than
    /// `max` candidates are held.
    pub fn connect_neighbours(&self, candidates: &mut Vec<OverlayAddress>, max: usize)
        requires
            self.wf(),
        ensures
            final(candidates)@ == old(candidates)@ + crate::kademlia::peers::leading(
                neighbour_pool(
                    self.known_peers.contents(),
                    self.connected_peers.contents(),
                    self.config.saturation_peers,
                    self.depth as int,
                ),
                room(max, old(candidates).len() as nat),
            ),
    {
        let ghost start = candidates@;
        let ghost free = room(max, start.len());
        let ghost known = self.known_peers.contents();
        let ghost connected = self.connected_peers.contents();
        let saturation: usize = self.config.saturation_peers;
        let mut b: u8 = self.max_po + 1;
        proof {
            assert(start + crate::kademlia::peers::leading(Seq::empty(), free) =~= start);
        }
        while b > self.depth
            invariant
                self.wf(),
                self.depth <= b <= self.max_po + 1,
                known == self.known_peers.contents(),
                connected == self.connected_peers.contents(),
                saturation == self.config.saturation_peers,
                free == room(max, start.len()),
                candidates@ == start + crate::kademlia::peers::leading(
                    neighbour_pool(known, connected, saturation, b as int),
                    free,
                ),
            decreases b - self.depth,
        {
            let ghost before = neighbour_pool(known, connected, saturation, b as int);
            b = b - 1;
            if self.connected_peers.bin_size(b) < saturation {
                let row: Vec<OverlayAddress> = self.known_peers.peers_in_bin(b);
                proof {
                    lemma_leading_appended(before, unconnected(connected, row@), free);
                    lemma_unconnected_len(connected, row@);
                }
                let ghost held_before = candidates@;
                self.take_unconnected(candidates, &row, row.len(), max);
                proof {
                    let taken = crate::kademlia::peers::leading(before, free);
                    let part = unconnected(connected, row@);
                    let left = room(max, held_before.len());
                    let most = if row.len() < left {
                        row.len() as nat
                    } else {
                        left
                    };
                    assert(left == free - taken.len());
                    assert(crate::kademlia::peers::leading(part, most)
                        =~= crate::kademlia::peers::leading(part, left));
                    assert(candidates@ =~= start + (taken + crate::kademlia::peers::leading(
                        part,
                        left,
                    )));
                }
            }
        }
    }

    /// Append a share of the known peers of every bin below the depth that is
    /// short of connections, deepest bin first, while fewer than `max`
    /// candidates are held.
    pub fn connect_balanced(&self, candidates: &mut Vec<OverlayAddress>, max: usize)
        requires
            self.wf(),
        ensures
            final(candidates)@ == balanced(
                self.known_peers.contents(),
                self.connected_peers.contents(),
                self.config.saturation_peers,
                old(candidates)@,
                max,
                self.depth as int,
            ),
    {
        let ghost known_bins = self.known_peers.contents();
        let ghost connected_bins = self.connected_peers.contents();
        let ghost result = balanced(
            known_bins,
            connected_bins,
            self.config.saturation_peers,
            candidates@,
            max,
            self.depth as int,
        );
        let saturation: usize = self.config.saturation_peers;
        let mut b: u8 = self.depth;
        while b > 0
            invariant
                self.wf(),
                b <= self.depth,
                known_bins == self.known_peers.contents(),
                connected_bins == self.connected_peers.contents(),
                saturation == self.config.saturation_peers,
                balanced(known_bins, connected_bins, saturation, candidates@, max, b as int)
                    == result,
            decreases b,
        {
            b = b - 1;
            let connected: usize = self.connected_peers.bin_size(b);
            let known: usize = self.known_peers.bin_size(b);
            if connected < saturation && known > 0 {
                let share: usize = share_of(known, connected, saturation);
                let row: Vec<OverlayAddress> = self.known_peers.peers_in_bin(b);
                self.take_unconnected(candidates, &row, share, max);
            }
        }
    }

    /// The deepest bin with enough connections for the depth calculation, or
    /// zero.
    pub fn recalc_depth(&self) -> (depth: u8)
        requires
            self.wf(),
        ensures
            depth == self.watermark_depth(self.connected_peers.contents()),
            depth <= self.max_po,
    {
        let ghost sizes = crate::kademlia::routing::sizes_of(self.connected_peers.contents());
        let ghost low = self.config.low_watermark;
        let mut b: u8 = self.max_po + 1;
        proof {
            assert(sizes.subrange(0, b as int) =~= sizes);
        }
        while b > 0
            invariant
                self.wf(),
                b <= self.max_po + 1,
                sizes == crate::kademlia::routing::sizes_of(self.connected_peers.contents()),
                low == self.config.low_watermark,
                crate::kademlia::limits::estimated_depth(sizes.subrange(0, b as int), low)
                    == crate::kademlia::limits::estimated_depth(sizes, low),
            decreases b,
        {
            let ghost part = sizes.subrange(0, b as int);
            b = b - 1;
            proof {
                assert(part.drop_last() =~= sizes.subrange(0, b as int));
            }
            if self.connected_peers.bin_size(b) >= self.config.low_watermark {
                return b;
            }
        }
        0
    }

    /// A summary of the table: the bins that hold or know peers, with the
    /// neighborhood boundary marked, and the totals.
    pub fn status(&self) -> (status: RoutingStatus)
        requires
            self.wf(),
        ensures
            status.depth.raw == self.depth,
            status.connected == crate::arith::saturate(
                crate::kademlia::proximity_index::population(
                    self.connected_peers.contents(),
                ) as int,
            ),
            status.known == crate::arith::saturate(
                crate::kademlia::proximity_index::population(self.known_peers.contents()) as int,
            ),
            status.bins@ == crate::kademlia::routing::populated_bins(
                crate::kademlia::routing::sizes_of(self.connected_peers.contents()),
                crate::kademlia::routing::sizes_of(self.known_peers.contents()),
                self.depth,
                (self.max_po + 1) as nat,
            ),
    {
        let connected: Vec<usize> = self.connected_peers.bin_sizes();
        let known: Vec<usize> = self.known_peers.bin_sizes();
        let mut bins: Vec<BinStatus> = Vec::new();
        let mut b: u8 = 0;
        while b <= self.max_po
            invariant
                self.wf(),
                connected.len() == self.max_po + 1,
                known.len() == self.max_po + 1,
                b <= self.max_po + 1,
                bins@ == crate::kademlia::routing::populated_bins(
                    connected@,
                    known@,
                    self.depth,
                    b as nat,
                ),
            decreases self.max_po + 1 - b,
        {
            let c: usize = connected[b as usize];
            let k: usize = known[b as usize];
            if c > 0 || k > 0 {
                bins.push(BinStatus { bin: b, connected: c, known: k, at_depth: b == self.depth });
            }
            b = b + 1;
        }
        RoutingStatus {
            depth: NeighborhoodDepth { raw: self.depth },
            connected: self.connected_peers.len(),
            known: self.known_peers.len(),
            bins,
        }
    }

    /// Connected peers of proximity order `depth` and above, shallowest first.
    pub fn neighbors(&self, depth: u8) -> (peers: Vec<OverlayAddress>)
        requires
            self.wf(),
        ensures
            depth <= self.max_po ==> peers@ == crate::kademlia::proximity_index::concatenated(
                self.connected_peers.contents().subrange(
                    depth as int,
                    self.connected_peers.contents().len() as int,
                ),
            ),
            depth > self.max_po ==> peers.len() == 0,
    {
        let ghost bins = self.connected_peers.contents();
        let mut peers: Vec<OverlayAddress> = Vec::new();
        if depth > self.max_po {
            return peers;
        }
        let mut b: u8 = depth;
        proof {
            assert(bins.subrange(depth as int, depth as int) =~= Seq::empty());
        }
        while b <= self.max_po
            invariant
                self.wf(),
                bins == self.connected_peers.contents(),
                depth <= b <= self.max_po + 1,
                peers@ == crate::kademlia::proximity_index::concatenated(
                    bins.subrange(depth as int, b as int),
                ),
            decreases self.max_po + 1 - b,
        {
            proof {
                let next = bins.subrange(depth as int, b + 1);
                assert(next.drop_last() =~= bins.subrange(depth as int, b as int));
            }
            let mut row: Vec<OverlayAddress> = self.connected_peers.peers_in_bin(b);
            peers.append(&mut row);
            b = b + 1;
        }
        peers
    }

    /// The `count` connected peers closest to `address` by proximity, closest
    /// first and equally close peers in the order of their bins.
    pub fn closest_to(&self, address: &ChunkAddress, count: usize) -> (peers: Vec<OverlayAddress>)
        requires
            self.wf(),
        ensures
            ({
                let all = crate::kademlia::proximity_index::concatenated(
                    self.connected_peers.contents(),
                );
                &&& peers.len() == if count < all.len() {
                    count as nat
                } else {
                    all.len()
                }
                &&& forall|i: int|
                    #![trigger peers@[i]]
                    0 <= i < peers.len() ==> all.contains(peers@[i])
                &&& forall|i: int, j: int|
                    #![trigger peers@[i], peers@[j]]
                    0 <= i < j < peers.len() ==> crate::kademlia::nearest::nearer(
                        all,
                        *address,
                        peers@[i],
                        peers@[j],
                    )
                &&& forall|i: int, other: OverlayAddress|
                    #![trigger peers@[i], peers@.contains(other)]
                    0 <= i < peers.len() && !peers@.contains(other) && all.contains(other)
                        ==> crate::kademlia::nearest::nearer(all, *address, peers@[i], other)
            }),
    {
        let all: Vec<OverlayAddress> = self.connected_peers.all_peers();
        proof {
            crate::kademlia::proximity_index::lemma_concatenated_distinct(
                self.connected_peers.contents(),
                self.local,
                self.max_po,
            );
        }
        nearest(address, all, count)
    }

    /// Connected and known peers of every bin, shallowest first.
    pub fn bin_sizes(&self) -> (sizes: Vec<(usize, usize)>)
        requires
            self.wf(),
        ensures
            sizes.len() == self.max_po + 1,
            forall|b: int|
                #![trigger sizes@[b]]
                0 <= b <= self.max_po ==> sizes@[b] == (
                    self.connected_peers.contents()[b].len() as usize,
                    self.known_peers.contents()[b].len() as usize,
                ),
    {
        let connected: Vec<usize> = self.connected_peers.bin_sizes();
        let known: Vec<usize> = self.known_peers.bin_sizes();
        let mut sizes: Vec<(usize, usize)> = Vec::new();
        let mut b: usize = 0;
        while b < connected.len()
            invariant
                b <= connected.len(),
                connected.len() == known.len(),
                sizes.len() == b,
                forall|i: int|
                    #![trigger sizes@[i]]
                    0 <= i < b ==> sizes@[i] == (connected@[i], known@[i]),
            decreases connected.len() - b,
        {
            sizes.push((connected[b], known[b]));
            b = b + 1;
        }
        sizes
    }

    /// The connected peers of bin `po`, in hexadecimal digits.
    pub fn connected_peers_in_bin(&self, po: u8) -> (texts: Vec<String>)
        requires
            self.wf(),
            po <= self.max_po,
        ensures
            texts.len() == self.connected_peers.contents()[po as int].len(),
            forall|k: int|
                #![trigger texts@[k]]
                0 <= k < texts.len() ==> texts@[k]@ == self.connected_peers.contents()[po as int][
                    k
                ].spec_hex(),
    {
        let row: Vec<OverlayAddress> = self.connected_peers.peers_in_bin(po);
        let mut texts: Vec<String> = Vec::new();
        let mut k: usize = 0;
        while k < row.len()
            invariant
                k <= row.len(),
                texts.len() == k,
                forall|j: int|
                    #![trigger texts@[j]]
                    0 <= j < k ==> texts@[j]@ == row@[j].spec_hex(),
            decreases row.len() - k,
        {
            texts.push(row[k].to_hex());
            k = k + 1;
        }
        texts
    }

    /// Note discovered peers.
    pub fn add_peers(&mut self, peers: &[OverlayAddress])
        requires
            old(self).wf(),
            forall|i: int| 0 <= i < peers.len() ==> old(self).fits(#[trigger] peers@[i]),
        ensures
            final(self).wf(),
            *final(self) == (KademliaRouting {
                known_peers: final(self).known_peers,
                ..*old(self)
            }),
            final(self).known_peers.contents() == with_peers(
                old(self).known_peers.contents(),
                old(self).local,
                old(self).max_po,
                peers@,
            ),
            forall|i: int|
                0 <= i < peers.len() ==> final(self).known_peers.holds(#[trigger] peers@[i]),
    {
        let mut i: usize = 0;
        proof {
            assert(peers@.subrange(0, 0) =~= Seq::empty());
        }
        while i < peers.len()
            invariant
                i <= peers.len(),
                self.wf(),
                forall|j: int| 0 <= j < peers.len() ==> old(self).fits(#[trigger] peers@[j]),
                *self == (KademliaRouting { known_peers: self.known_peers, ..*old(self) }),
                self.known_peers.contents() == with_peers(
                    old(self).known_peers.contents(),
                    old(self).local,
                    old(self).max_po,
                    peers@.subrange(0, i as int),
                ),
                forall|j: int| 0 <= j < i ==> self.known_peers.holds(#[trigger] peers@[j]),
            decreases peers.len() - i,
        {
            proof {
                assert(old(self).fits(peers@[i as int]));
                assert(peers@.subrange(0, i + 1).drop_last() =~= peers@.subrange(0, i as int));
                lemma_with_peer_placed(
                    self.known_peers.contents(),
                    self.local,
                    self.max_po,
                    peers@[i as int],
                );
            }
            let po: u8 = self.proximity(&peers[i]);
            let _added: bool = self.known_peers.add(peers[i], po);
            i = i + 1;
        }
        proof {
            assert(peers@.subrange(0, i as int) =~= peers@);
        }
    }

    /// A peer connected: it moves from the known to the connected peers, and
    /// the depth follows. Nothing happens where it was connected already.
    pub fn connected(&mut self, peer: OverlayAddress)
        requires
            old(self).wf(),
            old(self).fits(peer),
        ensures
            final(self).wf(),
            final(self).same_setup(*old(self)),
            final(self).capacity == old(self).capacity,
            final(self).connection_candidates == old(self).connection_candidates,
            ({
                let b = old(self).bin_of(peer);
                let connected = old(self).connected_peers.contents();
                let known = old(self).known_peers.contents();
                &&& connected[b].contains(peer) ==> *final(self) == *old(self)
                &&& !connected[b].contains(peer) ==> {
                    &&& final(self).connected_peers.contents() == with_peer(connected, b, peer)
                    &&& final(self).known_peers.contents() == without_peer(known, b, peer)
                    &&& final(self).depth == old(self).watermark_depth(
                        with_peer(connected, b, peer),
                    )
                }
            }),
    {
        let po: u8 = self.proximity(&peer);
        proof {
            lemma_with_peer_placed(
                self.connected_peers.contents(),
                self.local,
                self.max_po,
                peer,
            );
        }
        if self.connected_peers.add(peer, po) {
            self.forget_known(&peer);
            self.depth = self.recalc_depth();
        }
    }

    /// A peer disconnected: it moves back to the known peers, and the depth
    /// follows. Nothing happens where it was not connected.
    pub fn on_peer_disconnected(&mut self, peer: &OverlayAddress)
        requires
            old(self).wf(),
            old(self).fits(*peer),
        ensures
            final(self).wf(),
            final(self).same_setup(*old(self)),
            final(self).capacity == old(self).capacity,
            final(self).connection_candidates == old(self).connection_candidates,
            ({
                let b = old(self).bin_of(*peer);
                let connected = old(self).connected_peers.contents();
                let known = old(self).known_peers.contents();
                &&& !connected[b].contains(*peer) ==> *final(self) == *old(self)
                &&& connected[b].contains(*peer) ==> {
                    &&& final(self).connected_peers.contents() == without_peer(connected, b, *peer)
                    &&& final(self).known_peers.contents() == with_peer(known, b, *peer)
                    &&& final(self).depth == old(self).watermark_depth(
                        without_peer(connected, b, *peer),
                    )
                }
            }),
    {
        if self.drop_connected(peer) {
            let po: u8 = self.proximity(peer);
            proof {
                lemma_with_peer_placed(self.known_peers.contents(), self.local, self.max_po, *peer);
            }
            let _added: bool = self.known_peers.add(*peer, po);
            self.depth = self.recalc_depth();
        }
    }

    fn forget_known(&mut self, peer: &OverlayAddress)
        requires
            old(self).wf(),
            old(self).fits(*peer),
        ensures
            final(self).wf(),
            *final(self) == (KademliaRouting {
                known_peers: final(self).known_peers,
                ..*old(self)
            }),
            final(self).known_peers.contents() == without_peer(
                old(self).known_peers.contents(),
                old(self).bin_of(*peer),
                *peer,
            ),
            !old(self).known_peers.contents()[old(self).bin_of(*peer)].contains(*peer)
                ==> *final(self) == *old(self),
    {
        let ghost bins = self.known_peers.contents();
        let ghost at = self.bin_of(*peer);
        proof {
            lemma_placed_held(bins, self.local, self.max_po, *peer);
            lemma_without_peer_placed(bins, self.local, self.max_po, at, *peer);
        }
        let _removed: bool = self.known_peers.remove(peer);
        proof {
            if bins[at].contains(*peer) {
                assert(super::pslice::first_holding(bins, *peer, at));
            }
        }
    }

    fn drop_connected(&mut self, peer: &OverlayAddress) -> (dropped: bool)
        requires
            old(self).wf(),
            old(self).fits(*peer),
        ensures
            final(self).wf(),
            *final(self) == (KademliaRouting {
                connected_peers: final(self).connected_peers,
                ..*old(self)
            }),
            dropped == old(self).connected_peers.contents()[old(self).bin_of(*peer)].contains(
                *peer,
            ),
            final(self).connected_peers.contents() == without_peer(
                old(self).connected_peers.contents(),
                old(self).bin_of(*peer),
                *peer,
            ),
            !dropped ==> *final(self) == *old(self),
    {
        let ghost bins = self.connected_peers.contents();
        let ghost at = self.bin_of(*peer);
        proof {
            lemma_placed_held(bins, self.local, self.max_po, *peer);
            lemma_without_peer_placed(bins, self.local, self.max_po, at, *peer);
        }
        let dropped: bool = self.connected_peers.remove(peer);
        proof {
            if bins[at].contains(*peer) {
                assert(super::pslice::first_holding(bins, *peer, at));
            }
        }
        dropped
    }

    /// Forget a peer: it is neither known nor connected afterwards. The depth
    /// stays as it was.
    pub fn remove_peer(&mut self, peer: &OverlayAddress)
        requires
            old(self).wf(),
            old(self).fits(*peer),
        ensures
            final(self).wf(),
            *final(self) == (KademliaRouting {
                known_peers: final(self).known_peers,
                connected_peers: final(self).connected_peers,
                ..*old(self)
            }),
            final(self).known_peers.contents() == without_peer(
                old(self).known_peers.contents(),
                old(self).bin_of(*peer),
                *peer,
            ),
            final(self).connected_peers.contents() == without_peer(
                old(self).connected_peers.contents(),
                old(self).bin_of(*peer),
                *peer,
            ),
    {
        self.forget_known(peer);
        let _dropped: bool = self.drop_connected(peer);
    }

    /// How many connections a bin takes from a node of the given kind.
    pub fn capacity_threshold(&self, is_full_node: bool) -> (n: usize)
        ensures
            n == self.config.threshold(is_full_node),
    {
        if is_full_node {
            self.config.high_watermark
        } else {
            self.config.max_peers_per_bin()
        }
    }

    /// Connections of bin `po` in any phase.
    pub fn effective_count(&self, po: u8) -> (n: usize)
        requires
            self.wf(),
            po <= self.max_po,
        ensures
            n == self.capacity.counts@[po as int].total(),
    {
        self.capacity.effective_count(Bin { raw: po })
    }

    /// Whether the bin of `peer` takes another connection of its kind.
    pub fn should_accept_peer(&self, peer: &OverlayAddress, is_full_node: bool) -> (accept: bool)
        requires
            self.wf(),
            self.fits(*peer),
        ensures
            accept == (self.capacity.counts@[self.bin_of(*peer)].total() < self.config.threshold(
                is_full_node,
            )),
    {
        let po: u8 = self.proximity(peer);
        self.effective_count(po) < self.capacity_threshold(is_full_node)
    }

    /// Reserve a dial slot for an untracked peer, if its bin takes another
    /// connection of its kind.
    pub fn try_reserve_dial(&mut self, overlay: &OverlayAddress, is_full_node: bool) -> (reserved:
        bool)
        requires
            old(self).wf(),
            old(self).fits(*overlay),
        ensures
            final(self).wf(),
            *final(self) == (KademliaRouting { capacity: final(self).capacity, ..*old(self) }),
            reserved == (!crate::kademlia::capacity::tracks(
                old(self).capacity.connections@,
                *overlay,
            ) && old(self).capacity.counts@[old(self).bin_of(*overlay)].total() < old(
                self,
            ).config.threshold(is_full_node)),
            !reserved ==> *final(self) == *old(self),
            reserved ==> final(self).capacity.state() == crate::kademlia::capacity::with_tracked(
                old(self).capacity.state(),
                *overlay,
                old(self).capacity.bin_of(*overlay),
                ConnectionPhase::Dialing,
            ),
            old(self).capacity.exact() ==> final(self).capacity.exact(),
            forall|other: OverlayAddress| #[trigger]
                crate::kademlia::capacity::phase_of(final(self).capacity.connections@, other) == if other == *overlay && reserved {
                    Some(ConnectionPhase::Dialing)
                } else {
                    crate::kademlia::capacity::phase_of(old(self).capacity.connections@, other)
                },
    {
        let threshold: usize = self.capacity_threshold(is_full_node);
        let po: u8 = self.proximity(overlay);
        if self.capacity.is_tracked(overlay) {
            return false;
        }
        if self.effective_count(po) >= threshold {
            return false;
        }
        self.capacity.track(overlay, ConnectionPhase::Dialing);
        true
    }

    /// Whether an inbound connection of an untracked peer can be accepted.
    pub fn should_accept_inbound(&self, overlay: &OverlayAddress, is_full_node: bool) -> (accept:
        bool)
        requires
            self.wf(),
            self.fits(*overlay),
        ensures
            accept == (!crate::kademlia::capacity::tracks(self.capacity.connections@, *overlay)
                && self.capacity.counts@[self.bin_of(*overlay)].total() < self.config.threshold(
                is_full_node,
            )),
    {
        !self.capacity.is_tracked(overlay) && self.should_accept_peer(overlay, is_full_node)
    }

    /// Release a dial reservation. The peer is no longer tracked afterwards,
    /// whatever its phase was; only a dialing one gives its slot back.
    pub fn release_dial(&mut self, overlay: &OverlayAddress)
        requires
            old(self).wf(),
            old(self).fits(*overlay),
        ensures
            final(self).wf(),
            *final(self) == (KademliaRouting {
                capacity: final(self).capacity,
                ..*old(self)
            }),
            final(self).capacity.state() == crate::kademlia::capacity::after_release(
                old(self).capacity.state(),
                *overlay,
                old(self).capacity.bin_of(*overlay),
                Some(ConnectionPhase::Dialing),
            ),
            old(self).capacity.exact() && (crate::kademlia::capacity::phase_of(
                old(self).capacity.connections@,
                *overlay,
            ) matches Some(phase) ==> phase == ConnectionPhase::Dialing) ==> final(
                self).capacity.exact(),
            forall|other: OverlayAddress| #[trigger]
                crate::kademlia::capacity::phase_of(final(self).capacity.connections@, other) == if other == *overlay {
                    None
                } else {
                    crate::kademlia::capacity::phase_of(old(self).capacity.connections@, other)
                },
            forall|other: OverlayAddress| #[trigger]
                old(self).capacity.has_room(other) ==> final(self).capacity.has_room(other),
    {
        let _phase: Option<ConnectionPhase> = self.capacity.untrack(
            overlay,
            Some(ConnectionPhase::Dialing),
        );
    }

    /// Transition from dialing to handshaking.
    pub fn dial_connected(&mut self, overlay: &OverlayAddress)
        requires
            old(self).wf(),
            old(self).fits(*overlay),
        ensures
            final(self).wf(),
            *final(self) == (KademliaRouting {
                capacity: final(self).capacity,
                ..*old(self)
            }),
            final(self).capacity.state() == crate::kademlia::capacity::after_advance(
                old(self).capacity.state(),
                *overlay,
                old(self).capacity.bin_of(*overlay),
                ConnectionPhase::Dialing,
                ConnectionPhase::Handshaking,
            ),
            old(self).capacity.exact() ==> final(self).capacity.exact(),
            forall|other: OverlayAddress| #[trigger]
                crate::kademlia::capacity::phase_of(final(self).capacity.connections@, other) == if other == *overlay && crate::kademlia::capacity::phase_of(
                    old(self).capacity.connections@,
                    other,
                ) == Some(ConnectionPhase::Dialing) {
                    Some(ConnectionPhase::Handshaking)
                } else {
                    crate::kademlia::capacity::phase_of(old(self).capacity.connections@, other)
                },
            forall|other: OverlayAddress| #[trigger]
                old(self).capacity.has_room(other) ==> final(self).capacity.has_room(other),
    {
        let _advanced: bool = self.capacity.advance(
            overlay,
            ConnectionPhase::Dialing,
            ConnectionPhase::Handshaking,
        );
    }

    /// Transition from handshaking to active.
    pub fn handshake_completed(&mut self, overlay: &OverlayAddress)
        requires
            old(self).wf(),
            old(self).fits(*overlay),
        ensures
            final(self).wf(),
            *final(self) == (KademliaRouting {
                capacity: final(self).capacity,
                ..*old(self)
            }),
            final(self).capacity.state() == crate::kademlia::capacity::after_advance(
                old(self).capacity.state(),
                *overlay,
                old(self).capacity.bin_of(*overlay),
                ConnectionPhase::Handshaking,
                ConnectionPhase::Active,
            ),
            old(self).capacity.exact() ==> final(self).capacity.exact(),
            forall|other: OverlayAddress| #[trigger]
                crate::kademlia::capacity::phase_of(final(self).capacity.connections@, other) == if other == *overlay && crate::kademlia::capacity::phase_of(
                    old(self).capacity.connections@,
                    other,
                ) == Some(ConnectionPhase::Handshaking) {
                    Some(ConnectionPhase::Active)
                } else {
                    crate::kademlia::capacity::phase_of(old(self).capacity.connections@, other)
                },
            forall|other: OverlayAddress| #[trigger]
                old(self).capacity.has_room(other) ==> final(self).capacity.has_room(other),
    {
        let _advanced: bool = self.capacity.advance(
            overlay,
            ConnectionPhase::Handshaking,
            ConnectionPhase::Active,
        );
    }

    /// Release a handshaking reservation. The peer is no longer tracked
    /// afterwards, whatever its phase was; only a handshaking one gives its
    /// slot back.
    pub fn release_handshake(&mut self, overlay: &OverlayAddress)
        requires
            old(self).wf(),
            old(self).fits(*overlay),
        ensures
            final(self).wf(),
            *final(self) == (KademliaRouting {
                capacity: final(self).capacity,
                ..*old(self)
            }),
            final(self).capacity.state() == crate::kademlia::capacity::after_release(
                old(self).capacity.state(),
                *overlay,
                old(self).capacity.bin_of(*overlay),
                Some(ConnectionPhase::Handshaking),
            ),
            forall|other: OverlayAddress| #[trigger]
                old(self).capacity.has_room(other) ==> final(self).capacity.has_room(other),
            old(self).capacity.exact() && (crate::kademlia::capacity::phase_of(
                old(self).capacity.connections@,
                *overlay,
            ) matches Some(phase) ==> phase == ConnectionPhase::Handshaking) ==> final(
                self).capacity.exact(),
            forall|other: OverlayAddress| #[trigger]
                crate::kademlia::capacity::phase_of(final(self).capacity.connections@, other) == if other == *overlay {
                    None
                } else {
                    crate::kademlia::capacity::phase_of(old(self).capacity.connections@, other)
                },
    {
        let _phase: Option<ConnectionPhase> = self.capacity.untrack(
            overlay,
            Some(ConnectionPhase::Handshaking),
        );
    }

    /// The connection is gone: release its slot, whatever its phase was.
    pub fn disconnected(&mut self, overlay: &OverlayAddress)
        requires
            old(self).wf(),
            old(self).fits(*overlay),
        ensures
            final(self).wf(),
            *final(self) == (KademliaRouting {
                capacity: final(self).capacity,
                ..*old(self)
            }),
            final(self).capacity.state() == crate::kademlia::capacity::after_release(
                old(self).capacity.state(),
                *overlay,
                old(self).capacity.bin_of(*overlay),
                None,
            ),
            old(self).capacity.exact() ==> final(self).capacity.exact(),
            forall|other: OverlayAddress| #[trigger]
                crate::kademlia::capacity::phase_of(final(self).capacity.connections@, other) == if other == *overlay {
                    None
                } else {
                    crate::kademlia::capacity::phase_of(old(self).capacity.connections@, other)
                },
            forall|other: OverlayAddress| #[trigger]
                old(self).capacity.has_room(other) ==> final(self).capacity.has_room(other),
    {
        let _phase: Option<ConnectionPhase> = self.capacity.untrack(overlay, None);
    }

    /// Reserve capacity for an accepted inbound connection, unless the peer is
    /// tracked already.
    pub fn reserve_inbound(&mut self, overlay: &OverlayAddress)
        requires
            old(self).wf(),
            old(self).fits(*overlay),
            old(self).capacity.has_room(*overlay),
        ensures
            final(self).wf(),
            *final(self) == (KademliaRouting {
                capacity: final(self).capacity,
                ..*old(self)
            }),
            final(self).capacity.state() == crate::kademlia::capacity::after_reserve(
                old(self).capacity.state(),
                *overlay,
                old(self).capacity.bin_of(*overlay),
            ),
            old(self).capacity.exact() ==> final(self).capacity.exact(),
            forall|other: OverlayAddress| #[trigger]
                crate::kademlia::capacity::phase_of(final(self).capacity.connections@, other) == if other == *overlay && !crate::kademlia::capacity::tracks(
                    old(self).capacity.connections@,
                    other,
                ) {
                    Some(ConnectionPhase::Handshaking)
                } else {
                    crate::kademlia::capacity::phase_of(old(self).capacity.connections@, other)
                },
    {
        if !self.capacity.is_tracked(overlay) {
            self.capacity.track(overlay, ConnectionPhase::Handshaking);
        }
    }

    /// Take all pending connection candidates.
    pub fn peers_to_connect(&mut self) -> (candidates: Vec<OverlayAddress>)
        requires
            old(self).wf(),
        ensures
            final(self).wf(),
            candidates@ == old(self).connection_candidates@,
            final(self).connection_candidates.len() == 0,
            *final(self) == (KademliaRouting {
                connection_candidates: final(self).connection_candidates,
                ..*old(self)
            }),
    {
        let mut candidates: Vec<OverlayAddress> = Vec::new();
        candidates.append(&mut self.connection_candidates);
        candidates
    }

    /// Find new connection candidates and keep the newest.
    pub fn evaluate_connections(&mut self)
        requires
            old(self).wf(),
        ensures
            final(self).wf(),
            *final(self) == (KademliaRouting {
                connection_candidates: final(self).connection_candidates,
                ..*old(self)
            }),
            final(self).connection_candidates@ == newest(
                merged(old(self).connection_candidates@, old(self).fresh_candidates()),
            ),
    {
        let ghost pending = self.connection_candidates@;
        let mut fresh: Vec<OverlayAddress> = Vec::new();
        self.connect_neighbours(&mut fresh, self.config.max_neighbor_candidates);
        proof {
            let pool = neighbour_pool(
                self.known_peers.contents(),
                self.connected_peers.contents(),
                self.config.saturation_peers,
                self.depth as int,
            );
            assert(fresh@ =~= crate::kademlia::peers::leading(
                pool,
                self.config.max_neighbor_candidates as nat,
            ));
        }
        self.connect_balanced(&mut fresh, self.config.max_balanced_candidates);
        let mut i: usize = 0;
        proof {
            assert(fresh@.subrange(0, 0) =~= Seq::empty());
        }
        while i < fresh.len()
            invariant
                i <= fresh.len(),
                *self == (KademliaRouting {
                    connection_candidates: self.connection_candidates,
                    ..*old(self)
                }),
                self.connection_candidates@ == merged(pending, fresh@.subrange(0, i as int)),
            decreases fresh.len() - i,
        {
            proof {
                assert(fresh@.subrange(0, i + 1).drop_last() =~= fresh@.subrange(0, i as int));
            }
            if !is_among(&self.connection_candidates, &fresh[i]) {
                self.connection_candidates.push(fresh[i]);
            }
            i = i + 1;
        }
        proof {
            assert(fresh@.subrange(0, i as int) =~= fresh@);
            lemma_merged_distinct(pending, fresh@);
        }
        let ghost all = self.connection_candidates@;
        if self.connection_candidates.len() > MAX_PENDING_CANDIDATES {
            let excess: usize = self.connection_candidates.len() - MAX_PENDING_CANDIDATES;
            let kept: Vec<OverlayAddress> = self.connection_candidates.split_off(excess);
            self.connection_candidates = kept;
        }
        proof {
            assert(self.connection_candidates@ =~= newest(all));
        }
    }
}

fn is_among(peers: &Vec<OverlayAddress>, peer: &OverlayAddress) -> (found: bool)
    ensures
        found == peers@.contains(*peer),
{
    let mut i: usize = 0;
    while i < peers.len()
        invariant
            i <= peers.len(),
            forall|j: int| 0 <= j < i ==> peers@[j] != *peer,
        decreases peers.len() - i,
    {
        if peers[i] == *peer {
            return true;
        }
        i = i + 1;
    }
    false
}

/// How many of the known peers of a bin are dialed.
fn share_of(known: usize, connected: usize, saturation: usize) -> (share: usize)
    requires
        connected < saturation,
    ensures
        share == bin_share(known as nat, connected as nat, saturation as nat),
{
    let deficit: usize = saturation - connected;
    let wanted: usize = if known / 4 >= saturation {
        deficit
    } else if known / 2 >= saturation {
        let three_quarters: usize = deficit - deficit / 4 - (if deficit % 4 == 0 {
            0
        } else {
            1
        });
        if three_quarters < 1 {
            1
        } else {
            three_quarters
        }
    } else if known >= saturation {
        if deficit / 2 < 1 {
            1
        } else {
            deficit / 2
        }
    } else if deficit / 4 < 1 {
        1
    } else {
        deficit / 4
    };
    smaller_of(wanted, known.saturating_sub(connected))
}

proof fn lemma_unconnected_len(connected: Seq<Seq<OverlayAddress>>, row: Seq<OverlayAddress>)
    ensures
        unconnected(connected, row).len() <= row.len(),
    decreases row.len(),
{
    if row.len() > 0 {
        lemma_unconnected_len(connected, row.drop_last());
    }
}

proof fn lemma_unconnected_sound(
    connected: Seq<Seq<OverlayAddress>>,
    row: Seq<OverlayAddress>,
    i: int,
)
    requires
        0 <= i < unconnected(connected, row).len(),
    ensures
        row.contains(unconnected(connected, row)[i]),
        !held(connected, unconnected(connected, row)[i]),
    decreases row.len(),
{
    let rest = unconnected(connected, row.drop_last());
    let peer = unconnected(connected, row)[i];
    if i < rest.len() {
        lemma_unconnected_sound(connected, row.drop_last(), i);
        let k = choose|k: int| 0 <= k < row.drop_last().len() && row.drop_last()[k] == peer;
        assert(row[k] == peer);
    } else {
        assert(row[row.len() - 1] == peer);
    }
}

proof fn lemma_pool_sound(
    known: Seq<Seq<OverlayAddress>>,
    connected: Seq<Seq<OverlayAddress>>,
    saturation: usize,
    b: int,
    i: int,
)
    requires
        0 <= b,
        0 <= i < neighbour_pool(known, connected, saturation, b).len(),
    ensures
        held(known, neighbour_pool(known, connected, saturation, b)[i]),
        !held(connected, neighbour_pool(known, connected, saturation, b)[i]),
    decreases known.len() - b,
{
    if b < known.len() {
        let deeper = neighbour_pool(known, connected, saturation, b + 1);
        if i < deeper.len() {
            lemma_pool_sound(known, connected, saturation, b + 1, i);
        } else {
            lemma_unconnected_sound(connected, known[b], i - deeper.len());
            assert(known[b].contains(neighbour_pool(known, connected, saturation, b)[i]));
        }
    }
}

proof fn lemma_balanced_sound(
    known: Seq<Seq<OverlayAddress>>,
    connected: Seq<Seq<OverlayAddress>>,
    saturation: usize,
    candidates: Seq<OverlayAddress>,
    max: usize,
    b: int,
)
    requires
        b <= known.len(),
        forall|i: int|
            #![trigger candidates[i]]
            0 <= i < candidates.len() ==> held(known, candidates[i]) && !held(
                connected,
                candidates[i],
            ),
    ensures
        ({
            let all = balanced(known, connected, saturation, candidates, max, b);
            forall|i: int|
                #![trigger all[i]]
                0 <= i < all.len() ==> held(known, all[i]) && !held(connected, all[i])
        }),
    decreases b,
{
    if b > 0 {
        let next = bin_balanced(known, connected, saturation, candidates, max, b - 1);
        assert forall|i: int|
            #![trigger next[i]]
            0 <= i < next.len() implies held(known, next[i]) && !held(connected, next[i]) by {
            if i < candidates.len() {
                assert(next[i] == candidates[i]);
            } else {
                let row = unconnected(connected, known[b - 1]);
                assert(next[i] == row[i - candidates.len()]);
                lemma_unconnected_sound(connected, known[b - 1], i - candidates.len());
                assert(known[b - 1].contains(next[i]));
            }
        }
        lemma_balanced_sound(known, connected, saturation, next, max, b - 1);
        assert(balanced(known, connected, saturation, candidates, max, b) == balanced(
            known,
            connected,
            saturation,
            next,
            max,
            b - 1,
        ));
    } else {
        assert(balanced(known, connected, saturation, candidates, max, b) == candidates);
    }
}

/// Every candidate that an evaluation finds is known and not connected.
pub proof fn candidates_are_known_and_unconnected(routing: KademliaRouting, i: int)
    requires
        routing.wf(),
        0 <= i < routing.fresh_candidates().len(),
    ensures
        routing.known_peers.holds(routing.fresh_candidates()[i]),
        !routing.connected_peers.holds(routing.fresh_candidates()[i]),
{
    let known = routing.known_peers.contents();
    let connected = routing.connected_peers.contents();
    let saturation = routing.config.saturation_peers;
    let pool = neighbour_pool(known, connected, saturation, routing.depth as int);
    let first = crate::kademlia::peers::leading(
        pool,
        routing.config.max_neighbor_candidates as nat,
    );
    assert forall|k: int|
        #![trigger first[k]]
        0 <= k < first.len() implies held(known, first[k]) && !held(connected, first[k]) by {
        assert(first[k] == pool[k]);
        lemma_pool_sound(known, connected, saturation, routing.depth as int, k);
    }
    lemma_balanced_sound(
        known,
        connected,
        saturation,
        first,
        routing.config.max_balanced_candidates,
        routing.depth as int,
    );
}

/// A peer that connects and disconnects again ends up known and not
/// connected, and the other bins are as they were before.
pub proof fn disconnecting_undoes_connecting(
    routing: KademliaRouting,
    peer: OverlayAddress,
)
    requires
        routing.wf(),
        routing.fits(peer),
        !routing.connected_peers.holds(peer),
    ensures
        ({
            let b = routing.bin_of(peer);
            let connected = with_peer(routing.connected_peers.contents(), b, peer);
            let known = without_peer(routing.known_peers.contents(), b, peer);
            &&& held(connected, peer)
            &&& !held(known, peer)
            &&& without_peer(connected, b, peer) == routing.connected_peers.contents()
            &&& held(with_peer(known, b, peer), peer)
        }),
{
    let b = routing.bin_of(peer);
    let before = routing.connected_peers.contents();
    let known_before = routing.known_peers.contents();
    let connected = with_peer(before, b, peer);
    let known = without_peer(known_before, b, peer);
    assert(!before[b].contains(peer));
    assert(before[b].no_duplicates());
    let row = before[b].push(peer);
    assert(row[row.len() - 1] == peer);
    assert(connected[b].contains(peer));
    assert(row.index_of(peer) == row.len() - 1) by {
        let i = row.index_of(peer);
        assert(row[i] == peer);
        if i < row.len() - 1 {
            assert(before[b][i] == peer);
        }
    }
    assert(super::pslice::swapped_out(row, row.len() - 1) =~= before[b]);
    assert(without_peer(connected, b, peer) =~= before);
    lemma_placed_held(known_before, routing.local, routing.max_po, peer);
    lemma_without_peer_placed(known_before, routing.local, routing.max_po, b, peer);
    lemma_placed_held(known, routing.local, routing.max_po, peer);
    if known_before[b].contains(peer) {
        let old_row = known_before[b];
        let at = old_row.index_of(peer);
        assert(old_row.no_duplicates());
        assert(old_row[at] == peer);
        if known[b].contains(peer) {
            let k = choose|k: int| 0 <= k < known[b].len() && known[b][k] == peer;
            if k == at {
                assert(old_row[old_row.len() - 1] == peer);
            } else {
                assert(old_row[k] == peer);
            }
        }
    }
    let known_again = with_peer(known, b, peer);
    assert(!known[b].contains(peer));
    assert(known_again[b][known[b].len() as int] == peer);
    assert(known_again[b].contains(peer));
}

proof fn lemma_list_joined(
    first: Seq<OverlayAddress>,
    second: Seq<OverlayAddress>,
    peer: OverlayAddress,
)
    ensures
        (first + second).contains(peer) <==> first.contains(peer) || second.contains(peer),
{
    let all = first + second;
    if all.contains(peer) {
        let k = choose|k: int| 0 <= k < all.len() && all[k] == peer;
        if k < first.len() {
            assert(first[k] == peer);
        } else {
            assert(second[k - first.len()] == peer);
        }
    }
    if first.contains(peer) {
        let k = choose|k: int| 0 <= k < first.len() && first[k] == peer;
        assert(all[k] == peer);
    }
    if second.contains(peer) {
        let k = choose|k: int| 0 <= k < second.len() && second[k] == peer;
        assert(all[first.len() + k] == peer);
    }
}

proof fn lemma_list_pushed(list: Seq<OverlayAddress>, last: OverlayAddress, peer: OverlayAddress)
    ensures
        list.push(last).contains(peer) <==> list.contains(peer) || last == peer,
{
    assert(list.push(last) =~= list + seq![last]);
    lemma_list_joined(list, seq![last], peer);
    if seq![last].contains(peer) {
        let k = choose|k: int| 0 <= k < seq![last].len() && seq![last][k] == peer;
        assert(k == 0);
    }
    assert(seq![last][0] == last);
}

/// The unconnected ones of a row are those of its peers that no bin of
/// connected peers holds.
pub proof fn unconnected_peers_are_not_held(
    connected: Seq<Seq<OverlayAddress>>,
    row: Seq<OverlayAddress>,
    peer: OverlayAddress,
)
    ensures
        unconnected(connected, row).contains(peer) <==> row.contains(peer) && forall|b: int|
            0 <= b < connected.len() ==> !(#[trigger] connected[b].contains(peer)),
    decreases row.len(),
{
    if row.len() > 0 {
        let less = row.drop_last();
        unconnected_peers_are_not_held(connected, less, peer);
        assert(row =~= less.push(row.last()));
        lemma_list_pushed(less, row.last(), peer);
        lemma_list_pushed(unconnected(connected, less), row.last(), peer);
        assert(held(connected, peer) <==> !(forall|b: int|
            0 <= b < connected.len() ==> !(#[trigger] connected[b].contains(peer))));
    }
}

/// The pool for the neighborhood holds a known peer of a bin at the depth or
/// deeper exactly where its bin is short of connections and the peer is not
/// connected.
pub proof fn the_pool_holds_neighbours(
    known: Seq<Seq<OverlayAddress>>,
    connected: Seq<Seq<OverlayAddress>>,
    saturation: usize,
    b: int,
    peer: OverlayAddress,
)
    requires
        0 <= b,
    ensures
        neighbour_pool(known, connected, saturation, b).contains(peer) <==> !held(connected, peer)
            && exists|c: int|
            b <= c < known.len() && #[trigger] known[c].contains(peer) && connected[c].len()
                < saturation,
    decreases known.len() - b,
{
    if b < known.len() {
        let deeper = neighbour_pool(known, connected, saturation, b + 1);
        the_pool_holds_neighbours(known, connected, saturation, b + 1, peer);
        let own = unconnected(connected, known[b]);
        unconnected_peers_are_not_held(connected, known[b], peer);
        lemma_list_joined(deeper, own, peer);
        if exists|c: int|
            b <= c < known.len() && #[trigger] known[c].contains(peer) && connected[c].len()
                < saturation {
            let c = choose|c: int|
                b <= c < known.len() && #[trigger] known[c].contains(peer) && connected[c].len()
                    < saturation;
            if c > b {
                assert(b + 1 <= c);
            }
        }
    }
}

/// The pool for the neighborhood runs from the deepest bin up.
pub proof fn the_pool_runs_deepest_first(
    known: Seq<Seq<OverlayAddress>>,
    connected: Seq<Seq<OverlayAddress>>,
    saturation: usize,
    b: int,
    local: OverlayAddress,
    max_po: u8,
)
    requires
        0 <= b,
        placed(known, local, max_po),
    ensures
        ({
            let pool = neighbour_pool(known, connected, saturation, b);
            &&& forall|i: int|
                #![trigger pool[i]]
                0 <= i < pool.len() ==> crate::kademlia::proximity_index::bin_of(
                    local,
                    max_po,
                    pool[i],
                ) >= b
            &&& forall|i: int, j: int|
                #![trigger pool[i], pool[j]]
                0 <= i <= j < pool.len() ==> crate::kademlia::proximity_index::bin_of(
                    local,
                    max_po,
                    pool[i],
                ) >= crate::kademlia::proximity_index::bin_of(local, max_po, pool[j])
        }),
    decreases known.len() - b,
{
    if b < known.len() {
        let deeper = neighbour_pool(known, connected, saturation, b + 1);
        let pool = neighbour_pool(known, connected, saturation, b);
        let own = unconnected(connected, known[b]);
        the_pool_runs_deepest_first(known, connected, saturation, b + 1, local, max_po);
        assert forall|i: int| #![trigger pool[i]] 0 <= i < pool.len() implies (i < deeper.len()
            && pool[i] == deeper[i]) || (i >= deeper.len()
            && crate::kademlia::proximity_index::bin_of(local, max_po, pool[i]) == b) by {
            if i >= deeper.len() {
                lemma_unconnected_sound(connected, known[b], i - deeper.len());
                let k = choose|k: int| 0 <= k < known[b].len() && known[b][k] == pool[i];
                assert(known[b][k] == pool[i]);
            }
        }
    }
}

/// The share of a bin in figures: all that it lacks where it knows four times
/// its saturation of peers, three quarters of that where it knows twice as many,
/// half where it knows as many, and a quarter otherwise; rounded down, but at
/// least one, and never more than the known peers outnumber the connected ones.
pub proof fn shares_grow_with_the_known_peers(known: nat, connected: nat, saturation: nat)
    requires
        connected < saturation,
    ensures
        ({
            let lack = saturation - connected;
            let share = bin_share(known, connected, saturation) as int;
            &&& known <= connected ==> share == 0
            &&& known > connected ==> 1 <= share <= known - connected
            &&& share <= lack
            &&& known >= 4 * saturation ==> share == lack
            &&& 2 * saturation <= known < 4 * saturation && lack >= 2 ==> 4 * share <= 3 * lack
                && 3 * lack < 4 * (share + 1)
            &&& saturation <= known < 2 * saturation && lack >= 2 ==> 2 * share <= lack && lack < 2
                * (share + 1)
            &&& connected < known < saturation && lack >= 4 && lack / 4 <= known - connected ==> 4
                * share <= lack && lack < 4 * (share + 1)
            &&& connected < known && lack < 2 ==> share == 1
        }),
{
}

/// What one bin adds: where it lacks connections and knows peers, its first
/// unconnected ones, no more than its share and than there is room for, and all
/// of them where both allow; otherwise nobody.
pub proof fn a_bin_adds_its_share(
    known: Seq<Seq<OverlayAddress>>,
    connected: Seq<Seq<OverlayAddress>>,
    saturation: usize,
    candidates: Seq<OverlayAddress>,
    max: usize,
    b: int,
)
    ensures
        ({
            let all = bin_balanced(known, connected, saturation, candidates, max, b);
            let row = unconnected(connected, known[b]);
            let added = all.len() - candidates.len();
            let share = bin_share(known[b].len(), connected[b].len(), saturation as nat);
            &&& added >= 0
            &&& forall|i: int|
                #![trigger all[i]]
                0 <= i < candidates.len() ==> all[i] == candidates[i]
            &&& forall|i: int|
                #![trigger all[i]]
                candidates.len() <= i < all.len() ==> all[i] == row[i - candidates.len()]
            &&& connected[b].len() >= saturation ==> added == 0
            &&& added > 0 ==> added <= share && all.len() <= max
            &&& added <= row.len()
            &&& connected[b].len() < saturation && known[b].len() > 0 && added < share && all.len()
                < max ==> added == row.len()
        }),
{
}

/// After all the bins below the depth had their turn, none that lacks
/// connections was passed over while there was room: each of its first
/// unconnected peers, as many as its share, is a candidate.
pub proof fn balancing_passes_no_bin_over(
    known: Seq<Seq<OverlayAddress>>,
    connected: Seq<Seq<OverlayAddress>>,
    saturation: usize,
    candidates: Seq<OverlayAddress>,
    max: usize,
    b: int,
    c: int,
    k: int,
)
    requires
        0 <= c < b,
        connected[c].len() < saturation,
        known[c].len() > 0,
        0 <= k < unconnected(connected, known[c]).len(),
        k < bin_share(known[c].len(), connected[c].len(), saturation as nat),
    ensures
        ({
            let all = balanced(known, connected, saturation, candidates, max, b);
            all.len() >= max || all.contains(unconnected(connected, known[c])[k])
        }),
    decreases b,
{
    let next = bin_balanced(known, connected, saturation, candidates, max, b - 1);
    let all = balanced(known, connected, saturation, candidates, max, b);
    assert(all == balanced(known, connected, saturation, next, max, b - 1));
    if c < b - 1 {
        balancing_passes_no_bin_over(known, connected, saturation, next, max, b - 1, c, k);
    } else {
        lemma_balancing_appends(known, connected, saturation, next, max, b - 1);
        let row = unconnected(connected, known[c]);
        if next.len() < max {
            let i = candidates.len() + k;
            assert(next[i] == row[k]);
            assert(all.subrange(0, next.len() as int)[i] == all[i]);
            assert(all[i] == row[k]);
        }
    }
}

proof fn lemma_balancing_appends(
    known: Seq<Seq<OverlayAddress>>,
    connected: Seq<Seq<OverlayAddress>>,
    saturation: usize,
    candidates: Seq<OverlayAddress>,
    max: usize,
    b: int,
)
    ensures
        ({
            let all = balanced(known, connected, saturation, candidates, max, b);
            &&& all.len() >= candidates.len()
            &&& all.subrange(0, candidates.len() as int) == candidates
        }),
    decreases b,
{
    if b > 0 {
        let next = bin_balanced(known, connected, saturation, candidates, max, b - 1);
        lemma_balancing_appends(known, connected, saturation, next, max, b - 1);
        let all = balanced(known, connected, saturation, candidates, max, b);
        assert(all == balanced(known, connected, saturation, next, max, b - 1));
        assert(all.subrange(0, candidates.len() as int) =~= all.subrange(
            0,
            next.len() as int,
        ).subrange(0, candidates.len() as int));
        assert(next.subrange(0, candidates.len() as int) =~= candidates);
    } else {
        assert(candidates.subrange(0, candidates.len() as int) =~= candidates);
    }
}

/// Every candidate that balancing adds is an unconnected known peer of a bin
/// below the depth that lacks connections.
pub proof fn balancing_adds_from_short_bins(
    known: Seq<Seq<OverlayAddress>>,
    connected: Seq<Seq<OverlayAddress>>,
    saturation: usize,
    candidates: Seq<OverlayAddress>,
    max: usize,
    b: int,
    peer: OverlayAddress,
)
    requires
        balanced(known, connected, saturation, candidates, max, b).contains(peer),
        !candidates.contains(peer),
    ensures
        !held(connected, peer),
        exists|c: int|
            0 <= c < b && #[trigger] known[c].contains(peer) && connected[c].len() < saturation,
    decreases b,
{
    if b > 0 {
        let next = bin_balanced(known, connected, saturation, candidates, max, b - 1);
        assert(balanced(known, connected, saturation, candidates, max, b) == balanced(
            known,
            connected,
            saturation,
            next,
            max,
            b - 1,
        ));
        if next.contains(peer) {
            let i = choose|i: int| 0 <= i < next.len() && next[i] == peer;
            if i < candidates.len() {
                assert(candidates[i] == peer);
            }
            let row = unconnected(connected, known[b - 1]);
            assert(row[i - candidates.len()] == peer);
            lemma_unconnected_sound(connected, known[b - 1], i - candidates.len());
            assert(known[b - 1].contains(peer));
        } else {
            balancing_adds_from_short_bins(
                known,
                connected,
                saturation,
                next,
                max,
                b - 1,
                peer,
            );
        }
    }
}

/// Merging keeps the pending candidates in front and adds each fresh one that
/// was not there, once.
pub proof fn merging_adds_what_is_missing(
    pending: Seq<OverlayAddress>,
    fresh: Seq<OverlayAddress>,
    peer: OverlayAddress,
)
    ensures
        merged(pending, fresh).contains(peer) <==> pending.contains(peer) || fresh.contains(peer),
        merged(pending, fresh).len() >= pending.len(),
        merged(pending, fresh).subrange(0, pending.len() as int) == pending,
        pending.no_duplicates() ==> merged(pending, fresh).no_duplicates(),
    decreases fresh.len(),
{
    if fresh.len() > 0 {
        let less = fresh.drop_last();
        let rest = merged(pending, less);
        merging_adds_what_is_missing(pending, less, peer);
        merging_adds_what_is_missing(pending, less, fresh.last());
        assert(fresh =~= less.push(fresh.last()));
        lemma_list_pushed(less, fresh.last(), peer);
        lemma_list_pushed(rest, fresh.last(), peer);
        let all = merged(pending, fresh);
        assert(all.subrange(0, pending.len() as int) =~= rest.subrange(0, pending.len() as int));
        if pending.no_duplicates() {
            lemma_merged_distinct(pending, fresh);
        }
    } else {
        assert(pending.subrange(0, pending.len() as int) =~= pending);
    }
}

/// Of more candidates than are kept, the last sixty-four stay, in order.
pub proof fn the_newest_are_kept(candidates: Seq<OverlayAddress>)
    ensures
        newest(candidates).len() <= 64,
        candidates.len() <= 64 ==> newest(candidates) == candidates,
        candidates.len() > 64 ==> newest(candidates).len() == 64,
        forall|i: int|
            #![trigger newest(candidates)[i]]
            0 <= i < newest(candidates).len() ==> newest(candidates)[i] == candidates[i
                + candidates.len() - newest(candidates).len()],
{
}

/// The depth is the deepest bin with at least the low watermark of connections,
/// or zero.
pub proof fn the_depth_is_the_deepest_populated_bin(routing: KademliaRouting, b: int)
    requires
        routing.wf(),
    ensures
        ({
            let bins = routing.connected_peers.contents();
            let depth = routing.watermark_depth(bins) as int;
            &&& depth <= routing.max_po
            &&& 0 <= b <= routing.max_po && bins[b].len() >= routing.config.low_watermark ==> depth
                >= b
            &&& depth > 0 ==> bins[depth].len() >= routing.config.low_watermark
        }),
{
    let bins = routing.connected_peers.contents();
    let sizes = crate::kademlia::routing::sizes_of(bins);
    assert forall|i: int| #![trigger bins[i]] 0 <= i < bins.len() implies sizes[i]
        == bins[i].len() by {
        assert(bins[i] == routing.connected_peers.bins@[i]@);
        assert(routing.connected_peers.bins@[i]@.len() == routing.connected_peers.bins@[i].len());
    }
    crate::kademlia::limits::allocation_follows_the_known_peers(
        NeighborhoodDepth { raw: 0 },
        sizes,
        routing.config.low_watermark,
    );
    assert(0 <= b < sizes.len() ==> sizes[b] == bins[b].len());
    let depth = routing.watermark_depth(bins) as int;
    if depth > 0 {
        assert(sizes[depth] == bins[depth].len());
    }
}

/// Peers that are noted are known afterwards, and nobody else who was not; a
/// peer that was known stays known.
pub proof fn noting_peers_makes_them_known(
    bins: Seq<Seq<OverlayAddress>>,
    local: OverlayAddress,
    max_po: u8,
    peers: Seq<OverlayAddress>,
    peer: OverlayAddress,
)
    requires
        bins.len() == max_po + 1,
    ensures
        with_peers(bins, local, max_po, peers).len() == bins.len(),
        held(with_peers(bins, local, max_po, peers), peer) <==> held(bins, peer)
            || peers.contains(peer),
    decreases peers.len(),
{
    if peers.len() > 0 {
        let less = peers.drop_last();
        let last = peers.last();
        noting_peers_makes_them_known(bins, local, max_po, less, peer);
        let before = with_peers(bins, local, max_po, less);
        let at = crate::kademlia::proximity_index::bin_of(local, max_po, last) as int;
        let after = with_peer(before, at, last);
        assert(peers =~= less.push(last));
        lemma_list_pushed(less, last, peer);
        lemma_list_pushed(before[at], last, peer);
        if held(after, peer) {
            let b = choose|b: int| 0 <= b < after.len() && #[trigger] after[b].contains(peer);
            if before[b].contains(peer) {
                assert(held(before, peer));
            }
        }
        if held(before, peer) {
            let b = choose|b: int| 0 <= b < before.len() && #[trigger] before[b].contains(peer);
            if b == at {
                assert(after[at].contains(peer));
            } else {
                assert(after[b].contains(peer));
            }
        }
        assert(after[at].contains(last)) by {
            lemma_list_pushed(before[at], last, last);
        }
    }
}

/// What an evaluation finds: the first of the pool for the neighborhood, as many
/// as it may take, and then of every bin below the depth that lacks connections
/// its share of unconnected peers, while there are fewer candidates than the
/// balanced bins may have.
pub proof fn an_evaluation_finds_both_kinds(routing: KademliaRouting, i: int, c: int, k: int)
    requires
        routing.wf(),
    ensures
        ({
            let known = routing.known_peers.contents();
            let connected = routing.connected_peers.contents();
            let saturation = routing.config.saturation_peers;
            let pool = neighbour_pool(known, connected, saturation, routing.depth as int);
            let found = routing.fresh_candidates();
            &&& 0 <= i < pool.len() && i < routing.config.max_neighbor_candidates ==> i
                < found.len() && found[i] == pool[i]
            &&& found.len() <= routing.config.max_neighbor_candidates || found.len()
                <= routing.config.max_balanced_candidates
            &&& 0 <= c < routing.depth && connected[c].len() < saturation && 0 <= k < unconnected(
                connected,
                known[c],
            ).len() && k < bin_share(known[c].len(), connected[c].len(), saturation as nat)
                ==> found.len() >= routing.config.max_balanced_candidates || found.contains(
                unconnected(connected, known[c])[k],
            )
        }),
{
    let known = routing.known_peers.contents();
    let connected = routing.connected_peers.contents();
    let saturation = routing.config.saturation_peers;
    let pool = neighbour_pool(known, connected, saturation, routing.depth as int);
    let first = crate::kademlia::peers::leading(
        pool,
        routing.config.max_neighbor_candidates as nat,
    );
    let max = routing.config.max_balanced_candidates;
    let found = routing.fresh_candidates();
    lemma_balancing_appends(known, connected, saturation, first, max, routing.depth as int);
    lemma_balancing_bounded(known, connected, saturation, first, max, routing.depth as int);
    if 0 <= i < pool.len() && i < routing.config.max_neighbor_candidates {
        assert(first[i] == pool[i]);
        assert(found.subrange(0, first.len() as int)[i] == found[i]);
    }
    if 0 <= c < routing.depth && connected[c].len() < saturation && 0 <= k < unconnected(
        connected,
        known[c],
    ).len() && k < bin_share(known[c].len(), connected[c].len(), saturation as nat) {
        lemma_unconnected_len(connected, known[c]);
        balancing_passes_no_bin_over(
            known,
            connected,
            saturation,
            first,
            max,
            routing.depth as int,
            c,
            k,
        );
    }
}

proof fn lemma_balancing_bounded(
    known: Seq<Seq<OverlayAddress>>,
    connected: Seq<Seq<OverlayAddress>>,
    saturation: usize,
    candidates: Seq<OverlayAddress>,
    max: usize,
    b: int,
)
    ensures
        balanced(known, connected, saturation, candidates, max, b).len() <= max || balanced(
            known,
            connected,
            saturation,
            candidates,
            max,
            b,
        ).len() == candidates.len(),
    decreases b,
{
    if b > 0 {
        let next = bin_balanced(known, connected, saturation, candidates, max, b - 1);
        lemma_balancing_bounded(known, connected, saturation, next, max, b - 1);
        assert(balanced(known, connected, saturation, candidates, max, b) == balanced(
            known,
            connected,
            saturation,
            next,
            max,
            b - 1,
        ));
    }
}

/// The room in a list is what is missing to its limit, and none beyond it.
pub proof fn room_ends_at_the_limit(max: usize, len: nat)
    ensures
        len <= max ==> len + room(max, len) == max,
        len > max ==> room(max, len) == 0,
{
}

} // verus!
