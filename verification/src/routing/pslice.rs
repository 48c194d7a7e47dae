//! Proximity-ordered peer storage.

use crate::primitives::OverlayAddress;
use vstd::prelude::*;

verus! {

/// Generation stamp of a list that was never built.
pub const NEVER_BUILT: u64 = u64::MAX;

/// The peers of all bins with their proximity orders, shallowest bin first.
pub open spec fn ascending(bins: Seq<Seq<OverlayAddress>>) -> Seq<(u8, OverlayAddress)>
    decreases bins.len(),
{
    if bins.len() == 0 {
        Seq::empty()
    } else {
        ascending(bins.drop_last()) + labelled((bins.len() - 1) as u8, bins.last())
    }
}

/// The peers of all bins with their proximity orders, deepest bin first.
pub open spec fn descending(bins: Seq<Seq<OverlayAddress>>) -> Seq<(u8, OverlayAddress)>
    decreases bins.len(),
{
    if bins.len() == 0 {
        Seq::empty()
    } else {
        labelled((bins.len() - 1) as u8, bins.last()) + descending(bins.drop_last())
    }
}

/// Peers of one bin with their proximity order.
pub open spec fn labelled(po: u8, peers: Seq<OverlayAddress>) -> Seq<(u8, OverlayAddress)> {
    peers.map_values(|peer: OverlayAddress| (po, peer))
}

/// `i` is the first bin that holds `peer`.
pub open spec fn first_holding(
    bins: Seq<Seq<OverlayAddress>>,
    peer: OverlayAddress,
    i: int,
) -> bool {
    &&& 0 <= i < bins.len()
    &&& bins[i].contains(peer)
    &&& forall|j: int| 0 <= j < i ==> !(#[trigger] bins[j].contains(peer))
}

/// No peer stands in two bins.
pub open spec fn disjoint(bins: Seq<Seq<OverlayAddress>>) -> bool {
    forall|b: int, c: int, peer: OverlayAddress|
        #![trigger bins[b].contains(peer), bins[c].contains(peer)]
        0 <= b < bins.len() && 0 <= c < bins.len() && bins[b].contains(peer) && bins[c].contains(
            peer,
        ) ==> b == c
}

/// A bin without the peer at `at`, whose place the last one takes.
pub open spec fn swapped_out(bin: Seq<OverlayAddress>, at: int) -> Seq<OverlayAddress> {
    bin.update(at, bin.last()).drop_last()
}

/// The generation after one more change.
pub open spec fn next_generation(generation: u64) -> u64 {
    if generation < NEVER_BUILT - 1 {
        (generation + 1) as u64
    } else {
        0
    }
}

/// A sorted peer list with the generation it was built at.
#[derive(Debug)]
pub struct CachedList {
    pub generation: u64,
    pub peers: Vec<(u8, OverlayAddress)>,
}

impl CachedList {
    fn never_built() -> (list: CachedList)
        ensures
            list.generation == NEVER_BUILT,
            list.peers@.len() == 0,
    {
        CachedList { generation: NEVER_BUILT, peers: Vec::new() }
    }
}

fn copied(peers: &Vec<(u8, OverlayAddress)>) -> (copy: Vec<(u8, OverlayAddress)>)
    ensures
        copy@ == peers@,
{
    let mut copy: Vec<(u8, OverlayAddress)> = Vec::new();
    let mut i: usize = 0;
    while i < peers.len()
        invariant
            i <= peers.len(),
            copy@ == peers@.subrange(0, i as int),
        decreases peers.len() - i,
    {
        copy.push(peers[i]);
        i = i + 1;
        proof {
            assert(copy@ =~= peers@.subrange(0, i as int));
        }
    }
    proof {
        assert(peers@.subrange(0, i as int) =~= peers@);
    }
    copy
}

/// Peers stored per bin, with cached sorted lists that every change
/// invalidates.
#[derive(Debug)]
pub struct PSlice {
    pub bins: Vec<Vec<OverlayAddress>>,
    /// Moves on with every change.
    pub generation: u64,
    pub cache_asc: CachedList,
    pub cache_desc: CachedList,
}

impl PSlice {
    /// The peers of each bin.
    pub open spec fn contents(self) -> Seq<Seq<OverlayAddress>> {
        self.bins@.map_values(|bin: Vec<OverlayAddress>| bin@)
    }

    /// Whether some bin holds `peer`.
    pub open spec fn holds(self, peer: OverlayAddress) -> bool {
        exists|b: int| 0 <= b < self.contents().len() && #[trigger] self.contents()[b].contains(
            peer,
        )
    }

    /// A peer stands in at most one bin and there once, and no cached list of
    /// the current generation is stale.
    pub open spec fn wf(self) -> bool {
        &&& 0 < self.contents().len() <= 256
        &&& forall|b: int|
            #![trigger self.contents()[b]]
            0 <= b < self.contents().len() ==> self.contents()[b].no_duplicates()
        &&& disjoint(self.contents())
        &&& self.generation < NEVER_BUILT
        &&& self.cache_asc.generation == self.generation ==> self.cache_asc.peers@ == ascending(
            self.contents(),
        )
        &&& self.cache_desc.generation == self.generation ==> self.cache_desc.peers@
            == descending(self.contents())
        &&& self.cache_asc.generation == NEVER_BUILT || self.cache_asc.generation
            <= self.generation
        &&& self.cache_desc.generation == NEVER_BUILT || self.cache_desc.generation
            <= self.generation
    }

    /// Empty storage for the proximity orders `0..=max_po`.
    pub fn new(max_po: u8) -> (pslice: PSlice)
        ensures
            pslice.wf(),
            pslice.generation == 0,
            pslice.contents() == Seq::new(
                (max_po + 1) as nat,
                |b: int| Seq::<OverlayAddress>::empty(),
            ),
    {
        let num_bins: usize = max_po as usize + 1;
        let mut bins: Vec<Vec<OverlayAddress>> = Vec::new();
        let mut b: usize = 0;
        while b < num_bins
            invariant
                b <= num_bins,
                bins.len() == b,
                forall|i: int| 0 <= i < b ==> bins@[i]@ == Seq::<OverlayAddress>::empty(),
            decreases num_bins - b,
        {
            bins.push(Vec::new());
            b = b + 1;
        }
        let pslice = PSlice {
            bins,
            generation: 0,
            cache_asc: CachedList::never_built(),
            cache_desc: CachedList::never_built(),
        };
        proof {
            assert(pslice.contents() =~= Seq::new(
                (max_po + 1) as nat,
                |b: int| Seq::<OverlayAddress>::empty(),
            ));
        }
        pslice
    }

    /// Move the generation on; when it starts over, no cached list may carry a
    /// stamp from before.
    fn changed(&mut self)
        requires
            old(self).generation < NEVER_BUILT,
            old(self).cache_asc.generation == NEVER_BUILT || old(self).cache_asc.generation <= old(
                self,
            ).generation,
            old(self).cache_desc.generation == NEVER_BUILT || old(self).cache_desc.generation
                <= old(self).generation,
        ensures
            final(self).bins == old(self).bins,
            final(self).generation == next_generation(old(self).generation),
            final(self).generation < NEVER_BUILT,
            final(self).cache_asc.generation != final(self).generation,
            final(self).cache_desc.generation != final(self).generation,
            final(self).cache_asc.generation == NEVER_BUILT || final(self).cache_asc.generation
                <= final(self).generation,
            final(self).cache_desc.generation == NEVER_BUILT || final(self).cache_desc.generation
                <= final(self).generation,
    {
        if self.generation < NEVER_BUILT - 1 {
            self.generation = self.generation + 1;
        } else {
            self.generation = 0;
            self.cache_asc = CachedList::never_built();
            self.cache_desc = CachedList::never_built();
        }
    }

    fn position_in(&self, b: usize, peer: &OverlayAddress) -> (at: Option<usize>)
        requires
            b < self.bins.len(),
        ensures
            at matches Some(i) ==> i < self.contents()[b as int].len()
                && self.contents()[b as int][i as int] == *peer && self.contents()[b
                as int].contains(*peer),
            at is None ==> !self.contents()[b as int].contains(*peer),
    {
        let mut i: usize = 0;
        while i < self.bins[b].len()
            invariant
                b < self.bins.len(),
                i <= self.bins@[b as int].len(),
                forall|j: int| 0 <= j < i ==> self.contents()[b as int][j] != *peer,
            decreases self.bins@[b as int].len() - i,
        {
            if self.bins[b][i] == *peer {
                proof {
                    assert(self.contents()[b as int][i as int] == *peer);
                }
                return Some(i);
            }
            i = i + 1;
        }
        None
    }

    /// Add a peer to the bin of proximity order `po`. Returns `true` if the
    /// peer was added, that is, if no bin held it already.
    pub fn add(&mut self, peer: OverlayAddress, po: u8) -> (added: bool)
        requires
            old(self).wf(),
            po < old(self).contents().len(),
        ensures
            final(self).wf(),
            added == !old(self).holds(peer),
            !added ==> *final(self) == *old(self),
            added ==> final(self).contents() == old(self).contents().update(
                po as int,
                old(self).contents()[po as int].push(peer),
            ),
            added ==> final(self).generation == next_generation(old(self).generation),
            final(self).holds(peer),
            forall|other: OverlayAddress| #[trigger]
                old(self).holds(other) ==> final(self).holds(other),
    {
        let b: usize = po as usize;
        if self.contains(&peer) {
            return false;
        }
        self.bins[b].push(peer);
        proof {
            let before = old(self).contents();
            let after = self.contents();
            assert(after =~= before.update(b as int, before[b as int].push(peer)));
            assert(after[b as int][before[b as int].len() as int] == peer);
            assert(after[b as int].contains(peer));
            assert forall|other: OverlayAddress| #[trigger] old(self).holds(other) implies exists|
                c: int,
            | 0 <= c < after.len() && #[trigger] after[c].contains(other) by {
                let c = choose|c: int| 0 <= c < before.len() && before[c].contains(other);
                let i = choose|i: int| 0 <= i < before[c].len() && before[c][i] == other;
                assert(after[c][i] == other);
                assert(after[c].contains(other));
            }
            assert forall|c: int|
                #![trigger after[c]]
                0 <= c < after.len() implies after[c].no_duplicates() by {
                assert(before[c].no_duplicates());
                assert(!before[c].contains(peer));
            }
            assert forall|c: int, d: int, other: OverlayAddress|
                #![trigger after[c].contains(other), after[d].contains(other)]
                0 <= c < after.len() && 0 <= d < after.len() && after[c].contains(other)
                    && after[d].contains(other) implies c == d by {
                if other == peer {
                    assert(!before[c].contains(peer));
                    assert(!before[d].contains(peer));
                } else {
                    let i = choose|i: int| 0 <= i < after[c].len() && after[c][i] == other;
                    let j = choose|j: int| 0 <= j < after[d].len() && after[d][j] == other;
                    assert(before[c][i] == other);
                    assert(before[d][j] == other);
                    assert(before[c].contains(other) && before[d].contains(other));
                }
            }
        }
        self.changed();
        true
    }

    /// Remove a peer from the bin that holds it. Returns `true` if one did.
    pub fn remove(&mut self, peer: &OverlayAddress) -> (removed: bool)
        requires
            old(self).wf(),
        ensures
            final(self).wf(),
            removed == old(self).holds(*peer),
            !removed ==> *final(self) == *old(self),
            final(self).contents().len() == old(self).contents().len(),
            removed ==> final(self).generation == next_generation(old(self).generation),
            !final(self).holds(*peer),
            forall|b: int|
                #![trigger old(self).contents()[b]]
                first_holding(old(self).contents(), *peer, b) ==> final(self).contents() == old(
                    self,
                ).contents().update(
                    b,
                    swapped_out(
                        old(self).contents()[b],
                        old(self).contents()[b].index_of(*peer),
                    ),
                ),
    {
        let mut b: usize = 0;
        while b < self.bins.len()
            invariant
                b <= self.bins.len(),
                self.wf(),
                *self == *old(self),
                forall|c: int| 0 <= c < b ==> !(#[trigger] self.contents()[c].contains(*peer)),
            decreases self.bins.len() - b,
        {
            match self.position_in(b, peer) {
                Some(at) => {
                    let ghost before = self.contents();
                    let _gone: OverlayAddress = self.bins[b].swap_remove(at);
                    proof {
                        let after = self.contents();
                        let row = before[b as int];
                        assert(row.no_duplicates());
                        assert(row.index_of(*peer) == at as int);
                        assert(after =~= before.update(b as int, swapped_out(row, at as int)));
                        assert forall|c: int|
                            #![trigger after[c]]
                            0 <= c < after.len() implies after[c].no_duplicates() by {
                            assert(before[c].no_duplicates());
                        }
                        assert forall|c: int|
                            #![trigger before[c]]
                            first_holding(before, *peer, c) implies c == b by {
                            if c > b {
                                assert(before[b as int].contains(*peer));
                            }
                        }
                        assert forall|c: int, other: OverlayAddress|
                            0 <= c < after.len() && #[trigger] after[c].contains(
                                other,
                            ) implies before[c].contains(other) && other != *peer by {
                            let i = choose|i: int| 0 <= i < after[c].len() && after[c][i] == other;
                            if c == b {
                                let k = if i == at {
                                    row.len() - 1
                                } else {
                                    i
                                };
                                assert(row[k] == other);
                                assert(row[at as int] == *peer);
                                assert(k != at);
                            } else {
                                assert(before[c][i] == other);
                            }
                        }
                        assert(disjoint(after));
                    }
                    self.changed();
                    return true;
                },
                None => {},
            }
            b = b + 1;
        }
        false
    }

    /// Whether some bin holds `peer`.
    pub fn contains(&self, peer: &OverlayAddress) -> (found: bool)
        ensures
            found == self.holds(*peer),
    {
        let mut b: usize = 0;
        while b < self.bins.len()
            invariant
                b <= self.bins.len(),
                forall|c: int| 0 <= c < b ==> !(#[trigger] self.contents()[c].contains(*peer)),
            decreases self.bins.len() - b,
        {
            if self.position_in(b, peer).is_some() {
                return true;
            }
            b = b + 1;
        }
        false
    }

    /// How many peers the bin of proximity order `po` holds.
    pub fn bin_size(&self, po: u8) -> (n: usize)
        requires
            po < self.contents().len(),
        ensures
            n == self.contents()[po as int].len(),
    {
        self.bins[po as usize].len()
    }

    /// How many peers all bins hold, saturating.
    pub fn len(&self) -> (n: usize)
        ensures
            n == crate::arith::saturate(
                crate::kademlia::proximity_index::population(self.contents()) as int,
            ),
    {
        let mut n: usize = 0;
        let mut b: usize = 0;
        proof {
            assert(self.contents().subrange(0, 0) =~= Seq::empty());
        }
        while b < self.bins.len()
            invariant
                b <= self.bins.len(),
                n == crate::arith::saturate(
                    crate::kademlia::proximity_index::population(
                        self.contents().subrange(0, b as int),
                    ) as int,
                ),
            decreases self.bins.len() - b,
        {
            proof {
                assert(self.contents().subrange(0, b + 1).drop_last() =~= self.contents().subrange(
                    0,
                    b as int,
                ));
            }
            n = n.saturating_add(self.bins[b].len());
            b = b + 1;
        }
        proof {
            assert(self.contents().subrange(0, b as int) =~= self.contents());
        }
        n
    }

    /// The peers of the bin of proximity order `po`.
    pub fn peers_in_bin(&self, po: u8) -> (peers: Vec<OverlayAddress>)
        requires
            po < self.contents().len(),
        ensures
            peers@ == self.contents()[po as int],
    {
        let b: usize = po as usize;
        let mut peers: Vec<OverlayAddress> = Vec::new();
        let mut i: usize = 0;
        while i < self.bins[b].len()
            invariant
                b < self.bins.len(),
                i <= self.bins@[b as int].len(),
                peers@ == self.bins@[b as int]@.subrange(0, i as int),
            decreases self.bins@[b as int].len() - i,
        {
            peers.push(self.bins[b][i]);
            i = i + 1;
        }
        peers
    }

    /// All peers, shallowest bin first.
    pub fn all_peers(&self) -> (peers: Vec<OverlayAddress>)
        requires
            self.wf(),
        ensures
            peers@ == crate::kademlia::proximity_index::concatenated(self.contents()),
    {
        let mut peers: Vec<OverlayAddress> = Vec::new();
        let mut b: usize = 0;
        proof {
            assert(self.contents().subrange(0, 0) =~= Seq::empty());
        }
        while b < self.bins.len()
            invariant
                self.wf(),
                b <= self.bins.len(),
                peers@ == crate::kademlia::proximity_index::concatenated(
                    self.contents().subrange(0, b as int),
                ),
            decreases self.bins.len() - b,
        {
            proof {
                assert(self.contents().subrange(0, b + 1).drop_last() =~= self.contents().subrange(
                    0,
                    b as int,
                ));
            }
            let mut row: Vec<OverlayAddress> = self.peers_in_bin(b as u8);
            peers.append(&mut row);
            b = b + 1;
        }
        proof {
            assert(self.contents().subrange(0, b as int) =~= self.contents());
        }
        peers
    }

    /// The sizes of all bins, shallowest first.
    pub fn bin_sizes(&self) -> (sizes: Vec<usize>)
        ensures
            sizes@ == crate::kademlia::routing::sizes_of(self.contents()),
    {
        let mut sizes: Vec<usize> = Vec::new();
        let mut b: usize = 0;
        while b < self.bins.len()
            invariant
                b <= self.bins.len(),
                sizes.len() == b,
                forall|i: int| 0 <= i < b ==> sizes@[i] == self.contents()[i].len(),
            decreases self.bins.len() - b,
        {
            sizes.push(self.bins[b].len());
            b = b + 1;
        }
        proof {
            assert(sizes@ =~= crate::kademlia::routing::sizes_of(self.contents()));
        }
        sizes
    }

    /// The peers with their proximity orders, shallowest first. The list is
    /// built again only after a change.
    pub fn iter_by_proximity(&mut self) -> (peers: Vec<(u8, OverlayAddress)>)
        requires
            old(self).wf(),
        ensures
            final(self).wf(),
            peers@ == ascending(old(self).contents()),
            final(self).bins == old(self).bins,
            final(self).generation == old(self).generation,
            final(self).cache_asc.generation == old(self).generation,
            final(self).cache_desc == old(self).cache_desc,
            old(self).cache_asc.generation == old(self).generation ==> *final(self) == *old(self),
    {
        if self.cache_asc.generation == self.generation {
            return copied(&self.cache_asc.peers);
        }
        let mut peers: Vec<(u8, OverlayAddress)> = Vec::new();
        let mut b: usize = 0;
        let ghost bins = self.contents();
        proof {
            assert(bins.subrange(0, 0) =~= Seq::empty());
        }
        while b < self.bins.len()
            invariant
                *self == *old(self),
                self.wf(),
                bins == self.contents(),
                b <= self.bins.len(),
                peers@ == ascending(bins.subrange(0, b as int)),
            decreases self.bins.len() - b,
        {
            proof {
                assert(bins.subrange(0, b + 1).drop_last() =~= bins.subrange(0, b as int));
            }
            let mut row: Vec<(u8, OverlayAddress)> = self.labelled_bin(b as u8);
            peers.append(&mut row);
            b = b + 1;
        }
        proof {
            assert(bins.subrange(0, b as int) =~= bins);
        }
        self.cache_asc = CachedList { generation: self.generation, peers: copied(&peers) };
        peers
    }

    /// The peers with their proximity orders, deepest first. The list is built
    /// again only after a change.
    pub fn iter_by_proximity_desc(&mut self) -> (peers: Vec<(u8, OverlayAddress)>)
        requires
            old(self).wf(),
        ensures
            final(self).wf(),
            peers@ == descending(old(self).contents()),
            final(self).bins == old(self).bins,
            final(self).generation == old(self).generation,
            final(self).cache_desc.generation == old(self).generation,
            final(self).cache_asc == old(self).cache_asc,
            old(self).cache_desc.generation == old(self).generation ==> *final(self) == *old(self),
    {
        if self.cache_desc.generation == self.generation {
            return copied(&self.cache_desc.peers);
        }
        let mut peers: Vec<(u8, OverlayAddress)> = Vec::new();
        let mut b: usize = self.bins.len();
        let ghost bins = self.contents();
        let ghost all = descending(bins);
        proof {
            assert(bins.subrange(0, b as int) =~= bins);
        }
        while b > 0
            invariant
                *self == *old(self),
                self.wf(),
                bins == self.contents(),
                b <= self.bins.len(),
                peers@ + descending(bins.subrange(0, b as int)) == all,
            decreases b,
        {
            let ghost before = peers@;
            let ghost rest = bins.subrange(0, b as int);
            b = b - 1;
            let mut row: Vec<(u8, OverlayAddress)> = self.labelled_bin(b as u8);
            proof {
                assert(rest.drop_last() =~= bins.subrange(0, b as int));
                assert(before + (row@ + descending(rest.drop_last())) =~= (before + row@)
                    + descending(rest.drop_last()));
            }
            peers.append(&mut row);
        }
        proof {
            assert(bins.subrange(0, 0) =~= Seq::empty());
            assert(peers@ + descending(bins.subrange(0, 0)) =~= peers@);
        }
        self.cache_desc = CachedList { generation: self.generation, peers: copied(&peers) };
        peers
    }

    fn labelled_bin(&self, po: u8) -> (row: Vec<(u8, OverlayAddress)>)
        requires
            po < self.contents().len(),
        ensures
            row@ == labelled(po, self.contents()[po as int]),
    {
        let b: usize = po as usize;
        let mut row: Vec<(u8, OverlayAddress)> = Vec::new();
        let mut i: usize = 0;
        while i < self.bins[b].len()
            invariant
                b < self.bins.len(),
                b == po as usize,
                i <= self.bins@[b as int].len(),
                row@ == labelled(po, self.bins@[b as int]@.subrange(0, i as int)),
            decreases self.bins@[b as int].len() - i,
        {
            row.push((po, self.bins[b][i]));
            i = i + 1;
            proof {
                assert(row@ =~= labelled(po, self.bins@[b as int]@.subrange(0, i as int)));
            }
        }
        proof {
            assert(self.bins@[b as int]@.subrange(0, i as int) =~= self.bins@[b as int]@);
        }
        row
    }
}

/// The proximity orders of a list never fall.
pub open spec fn shallowest_first(peers: Seq<(u8, OverlayAddress)>) -> bool {
    forall|i: int, j: int|
        #![trigger peers[i], peers[j]]
        0 <= i <= j < peers.len() ==> peers[i].0 <= peers[j].0
}

/// The proximity orders of a list never rise.
pub open spec fn deepest_first(peers: Seq<(u8, OverlayAddress)>) -> bool {
    forall|i: int, j: int|
        #![trigger peers[i], peers[j]]
        0 <= i <= j < peers.len() ==> peers[i].0 >= peers[j].0
}

/// Every peer of a list stands in the bin of its proximity order.
pub open spec fn in_their_bins(
    peers: Seq<(u8, OverlayAddress)>,
    bins: Seq<Seq<OverlayAddress>>,
) -> bool {
    forall|i: int|
        #![trigger peers[i]]
        0 <= i < peers.len() ==> peers[i].0 < bins.len() && bins[peers[i].0 as int].contains(
            peers[i].1,
        )
}

/// The ascending list runs from the shallowest bin to the deepest, the
/// descending one from the deepest to the shallowest, and both name each peer
/// with the proximity order of its bin.
pub proof fn sorted_lists_are_sorted(bins: Seq<Seq<OverlayAddress>>)
    requires
        bins.len() <= 256,
    ensures
        shallowest_first(ascending(bins)),
        deepest_first(descending(bins)),
        in_their_bins(ascending(bins), bins),
        in_their_bins(descending(bins), bins),
    decreases bins.len(),
{
    if bins.len() > 0 {
        let rest = bins.drop_last();
        sorted_lists_are_sorted(rest);
        let row = labelled((bins.len() - 1) as u8, bins.last());
        assert forall|i: int| #![trigger row[i]] 0 <= i < row.len() implies row[i].0 == bins.len()
            - 1 && bins.last().contains(row[i].1) by {
            assert(bins.last()[i] == row[i].1);
        }
        let up = ascending(rest);
        assert forall|i: int| #![trigger up[i]] 0 <= i < up.len() implies up[i].0 < bins.len() - 1
            && bins[up[i].0 as int].contains(up[i].1) by {
            assert(rest[up[i].0 as int] == bins[up[i].0 as int]);
        }
        let down = descending(rest);
        assert forall|i: int| #![trigger down[i]] 0 <= i < down.len() implies down[i].0
            < bins.len() - 1 && bins[down[i].0 as int].contains(down[i].1) by {
            assert(rest[down[i].0 as int] == bins[down[i].0 as int]);
        }
        let all_up = ascending(bins);
        assert(all_up == up + row);
        let all_down = descending(bins);
        assert(all_down == row + down);
        assert forall|i: int|
            #![trigger all_up[i]]
            0 <= i < all_up.len() implies all_up[i].0 < bins.len() && bins[all_up[i].0
            as int].contains(all_up[i].1) by {
            if i < up.len() {
                assert(all_up[i] == up[i]);
            } else {
                assert(all_up[i] == row[i - up.len()]);
            }
        }
        assert forall|i: int|
            #![trigger all_down[i]]
            0 <= i < all_down.len() implies all_down[i].0 < bins.len() && bins[all_down[i].0
            as int].contains(all_down[i].1) by {
            if i < row.len() {
                assert(all_down[i] == row[i]);
            } else {
                assert(all_down[i] == down[i - row.len()]);
            }
        }
        assert forall|i: int, j: int|
            #![trigger all_up[i], all_up[j]]
            0 <= i <= j < all_up.len() implies all_up[i].0 <= all_up[j].0 by {
            if j < up.len() {
                assert(all_up[i] == up[i] && all_up[j] == up[j]);
            } else {
                assert(all_up[j] == row[j - up.len()]);
                if i < up.len() {
                    assert(all_up[i] == up[i]);
                } else {
                    assert(all_up[i] == row[i - up.len()]);
                }
            }
        }
        assert forall|i: int, j: int|
            #![trigger all_down[i], all_down[j]]
            0 <= i <= j < all_down.len() implies all_down[i].0 >= all_down[j].0 by {
            if i >= row.len() {
                assert(all_down[i] == down[i - row.len()] && all_down[j] == down[j - row.len()]);
            } else {
                assert(all_down[i] == row[i]);
                if j < row.len() {
                    assert(all_down[j] == row[j]);
                } else {
                    assert(all_down[j] == down[j - row.len()]);
                }
            }
        }
    }
}

/// Both sorted lists hold the same peers: as many as the bins hold together.
pub proof fn sorted_lists_hold_every_peer(bins: Seq<Seq<OverlayAddress>>)
    ensures
        ascending(bins).len() == crate::kademlia::proximity_index::population(bins),
        descending(bins).len() == crate::kademlia::proximity_index::population(bins),
    decreases bins.len(),
{
    if bins.len() > 0 {
        sorted_lists_hold_every_peer(bins.drop_last());
    }
}

/// Taking a peer out of a bin of distinct peers takes that one and no other.
pub proof fn taking_out_keeps_the_others(bin: Seq<OverlayAddress>, at: int, peer: OverlayAddress)
    requires
        bin.no_duplicates(),
        0 <= at < bin.len(),
    ensures
        swapped_out(bin, at).contains(peer) <==> bin.contains(peer) && peer != bin[at],
        swapped_out(bin, at).len() == bin.len() - 1,
{
    let rest = swapped_out(bin, at);
    let last = bin.len() - 1;
    if rest.contains(peer) {
        let k = choose|k: int| 0 <= k < rest.len() && rest[k] == peer;
        let k0 = if k == at {
            last
        } else {
            k
        };
        assert(bin[k0] == peer);
        assert(k0 != at);
    }
    if bin.contains(peer) && peer != bin[at] {
        let k = choose|k: int| 0 <= k < bin.len() && bin[k] == peer;
        let k1 = if k == last {
            at
        } else {
            k
        };
        assert(rest[k1] == peer);
    }
}

/// The ascending and the descending list name a peer with a bin exactly where
/// that bin holds it.
pub proof fn sorted_lists_name_the_bins(
    bins: Seq<Seq<OverlayAddress>>,
    bin: u8,
    peer: OverlayAddress,
)
    requires
        bins.len() <= 256,
    ensures
        ascending(bins).contains((bin, peer)) <==> bin < bins.len() && bins[bin as int].contains(
            peer,
        ),
        descending(bins).contains((bin, peer)) <==> bin < bins.len() && bins[bin as int].contains(
            peer,
        ),
    decreases bins.len(),
{
    if bins.len() > 0 {
        let rest = bins.drop_last();
        let last = (bins.len() - 1) as u8;
        sorted_lists_name_the_bins(rest, bin, peer);
        let row = labelled(last, bins.last());
        assert(row.contains((bin, peer)) <==> bin == last && bins.last().contains(peer)) by {
            if row.contains((bin, peer)) {
                let k = choose|k: int| 0 <= k < row.len() && row[k] == (bin, peer);
                assert(bins.last()[k] == peer);
            }
            if bin == last && bins.last().contains(peer) {
                let k = choose|k: int| 0 <= k < bins.last().len() && bins.last()[k] == peer;
                assert(row[k] == (bin, peer));
            }
        }
        lemma_joined_contains(ascending(rest), row, (bin, peer));
        lemma_joined_contains(row, descending(rest), (bin, peer));
        if bin < rest.len() {
            assert(rest[bin as int] == bins[bin as int]);
        }
    }
}

proof fn lemma_joined_contains(
    first: Seq<(u8, OverlayAddress)>,
    second: Seq<(u8, OverlayAddress)>,
    entry: (u8, OverlayAddress),
)
    ensures
        (first + second).contains(entry) <==> first.contains(entry) || second.contains(entry),
{
    let all = first + second;
    if all.contains(entry) {
        let k = choose|k: int| 0 <= k < all.len() && all[k] == entry;
        if k < first.len() {
            assert(first[k] == entry);
        } else {
            assert(second[k - first.len()] == entry);
        }
    }
    if first.contains(entry) {
        let k = choose|k: int| 0 <= k < first.len() && first[k] == entry;
        assert(all[k] == entry);
    }
    if second.contains(entry) {
        let k = choose|k: int| 0 <= k < second.len() && second[k] == entry;
        assert(all[first.len() + k] == entry);
    }
}

/// Every change makes another generation, and none is the one that stands for a
/// list that was never built.
pub proof fn changes_make_a_new_generation(generation: u64)
    requires
        generation < NEVER_BUILT,
    ensures
        next_generation(generation) != generation,
        next_generation(generation) < NEVER_BUILT,
{
}

} // verus!
