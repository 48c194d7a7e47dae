//! Peers grouped by the Kademlia bin they fall into.

use crate::primitives::{Bin, OverlayAddress, MAX_PO};
use vstd::prelude::*;

verus! {

/// The bin of `peer` in the table of `base`, whose deepest bin is `max_po`.
pub open spec fn bin_of(base: OverlayAddress, max_po: u8, peer: OverlayAddress) -> nat {
    if crate::primitives::proximity_order(base, peer) <= max_po {
        crate::primitives::proximity_order(base, peer)
    } else {
        max_po as nat
    }
}

/// The bin of `peer` in the table of `base`, whose deepest bin is `max_po`.
pub fn bin_for(base: &OverlayAddress, max_po: u8, peer: &OverlayAddress) -> (bin: Bin)
    requires
        max_po <= MAX_PO,
    ensures
        bin.wf(),
        bin.raw as nat == bin_of(*base, max_po, *peer),
        bin.raw <= max_po,
{
    let po: u8 = base.proximity(peer);
    let raw: u8 = if po <= max_po {
        po
    } else {
        max_po
    };
    Bin { raw }
}

/// The peers of all bins, shallowest bin first.
pub open spec fn concatenated(bins: Seq<Seq<OverlayAddress>>) -> Seq<OverlayAddress>
    decreases bins.len(),
{
    if bins.len() == 0 {
        Seq::empty()
    } else {
        concatenated(bins.drop_last()) + bins.last()
    }
}

/// How many peers the bins hold together.
pub open spec fn population(bins: Seq<Seq<OverlayAddress>>) -> nat
    decreases bins.len(),
{
    if bins.len() == 0 {
        0
    } else {
        population(bins.drop_last()) + bins.last().len()
    }
}

/// Why a peer was not added to a [`ProximityIndex`].
#[derive(Clone, Copy, Debug, PartialEq, Eq, Structural)]
pub enum AddError {
    /// The peer is in the index already.
    AlreadyPresent,
    /// The peer's bin holds its maximum.
    BinFull,
    /// The index holds as many peers as a counter can count.
    IndexFull,
}

/// Peers grouped by their bin relative to a base address.
#[derive(Debug)]
pub struct ProximityIndex {
    pub base: OverlayAddress,
    pub max_po: u8,
    /// Peers per bin that the index takes; zero for no bound.
    pub max_per_bin: usize,
    pub bins: Vec<Vec<OverlayAddress>>,
    pub count: usize,
}

impl ProximityIndex {
    /// The peers of each bin, in the order they were added.
    pub open spec fn contents(self) -> Seq<Seq<OverlayAddress>> {
        self.bins@.map_values(|bin: Vec<OverlayAddress>| bin@)
    }

    /// The bin that `peer` falls into.
    pub open spec fn bin_of(self, peer: OverlayAddress) -> nat {
        bin_of(self.base, self.max_po, peer)
    }

    /// Whether the index holds `peer`.
    pub open spec fn holds(self, peer: OverlayAddress) -> bool {
        self.contents()[self.bin_of(peer) as int].contains(peer)
    }

    /// Every peer sits in its own bin, once.
    pub open spec fn wf(self) -> bool {
        &&& self.max_po <= MAX_PO
        &&& self.bins.len() == self.max_po + 1
        &&& forall|b: int, i: int|
            #![trigger self.contents()[b][i]]
            0 <= b < self.bins.len() && 0 <= i < self.contents()[b].len() ==> self.bin_of(
                self.contents()[b][i],
            ) == b
        &&& forall|b: int|
            #![trigger self.contents()[b]]
            0 <= b < self.bins.len() ==> self.contents()[b].no_duplicates()
        &&& self.count == population(self.contents())
    }

    /// Whether `bin` takes another peer.
    pub open spec fn has_room(self, bin: nat) -> bool {
        self.max_per_bin == 0 || self.contents()[bin as int].len() < self.max_per_bin
    }

    /// An empty index around `base`.
    pub fn new(base: OverlayAddress, max_po: u8, max_per_bin: usize) -> (index: ProximityIndex)
        requires
            max_po <= MAX_PO,
        ensures
            index.wf(),
            index.base == base,
            index.max_po == max_po,
            index.max_per_bin == max_per_bin,
            index.contents() == Seq::new(
                (max_po + 1) as nat,
                |b: int| Seq::<OverlayAddress>::empty(),
            ),
            index.count == 0,
    {
        let mut bins: Vec<Vec<OverlayAddress>> = Vec::new();
        let mut b: usize = 0;
        let total: usize = max_po as usize + 1;
        while b < total
            invariant
                b <= total,
                bins.len() == b,
                forall|i: int| 0 <= i < b ==> bins@[i]@ == Seq::<OverlayAddress>::empty(),
                population(bins@.map_values(|bin: Vec<OverlayAddress>| bin@)) == 0,
            decreases total - b,
        {
            let ghost before = bins@.map_values(|bin: Vec<OverlayAddress>| bin@);
            bins.push(Vec::new());
            proof {
                let after = bins@.map_values(|bin: Vec<OverlayAddress>| bin@);
                assert(after.drop_last() =~= before);
            }
            b = b + 1;
        }
        let index = ProximityIndex { base, max_po, max_per_bin, bins, count: 0 };
        proof {
            assert(index.contents() =~= Seq::new(
                (max_po + 1) as nat,
                |b: int| Seq::<OverlayAddress>::empty(),
            ));
        }
        index
    }

    /// The deepest bin's index.
    pub fn max_po(&self) -> (max_po: u8)
        ensures
            max_po == self.max_po,
    {
        self.max_po
    }

    /// The bin that `peer` falls into.
    pub fn bin_for(&self, peer: &OverlayAddress) -> (bin: Bin)
        requires
            self.wf(),
        ensures
            bin.wf(),
            bin.raw as nat == self.bin_of(*peer),
            bin.raw <= self.max_po,
    {
        bin_for(&self.base, self.max_po, peer)
    }

    /// Where `peer` stands in its bin.
    fn position(&self, peer: &OverlayAddress) -> (at: Option<usize>)
        requires
            self.wf(),
        ensures
            at is None ==> !self.holds(*peer),
            at matches Some(i) ==> {
                let bin = self.contents()[self.bin_of(*peer) as int];
                i < bin.len() && bin[i as int] == *peer
            },
    {
        let bin: usize = self.bin_for(peer).as_index();
        let mut i: usize = 0;
        while i < self.bins[bin].len()
            invariant
                self.wf(),
                bin < self.bins.len(),
                bin as nat == self.bin_of(*peer),
                i <= self.bins@[bin as int].len(),
                forall|j: int| 0 <= j < i ==> self.contents()[bin as int][j] != *peer,
            decreases self.bins@[bin as int].len() - i,
        {
            if self.bins[bin][i] == *peer {
                return Some(i);
            }
            i = i + 1;
        }
        None
    }

    /// Whether the index holds `peer`.
    pub fn contains(&self, peer: &OverlayAddress) -> (held: bool)
        requires
            self.wf(),
        ensures
            held == self.holds(*peer),
    {
        self.position(peer).is_some()
    }

    /// Add a peer to the end of its bin.
    pub fn add(&mut self, peer: OverlayAddress) -> (result: Result<(), AddError>)
        requires
            old(self).wf(),
        ensures
            final(self).wf(),
            final(self).base == old(self).base,
            final(self).max_po == old(self).max_po,
            final(self).max_per_bin == old(self).max_per_bin,
            result == Err::<(), AddError>(AddError::AlreadyPresent) <==> old(self).holds(peer),
            result == Err::<(), AddError>(AddError::BinFull) <==> !old(self).holds(peer) && !old(
                self,
            ).has_room(old(self).bin_of(peer)),
            result == Err::<(), AddError>(AddError::IndexFull) <==> !old(self).holds(peer) && old(
                self,
            ).has_room(old(self).bin_of(peer)) && old(self).count == usize::MAX,
            result is Err ==> *final(self) == *old(self),
            result is Ok ==> {
                let bin = old(self).bin_of(peer) as int;
                &&& final(self).contents() == old(self).contents().update(
                    bin,
                    old(self).contents()[bin].push(peer),
                )
                &&& final(self).holds(peer)
                &&& final(self).count == old(self).count + 1
            },
    {
        if self.contains(&peer) {
            return Err(AddError::AlreadyPresent);
        }
        let bin: usize = self.bin_for(&peer).as_index();
        if self.max_per_bin != 0 && self.bins[bin].len() >= self.max_per_bin {
            return Err(AddError::BinFull);
        }
        if self.count == usize::MAX {
            return Err(AddError::IndexFull);
        }
        self.bins[bin].push(peer);
        self.count = self.count + 1;
        proof {
            let before = old(self).contents();
            let after = self.contents();
            assert(after =~= before.update(bin as int, before[bin as int].push(peer)));
            assert(after[bin as int][before[bin as int].len() as int] == peer);
            lemma_population_update(before, bin as int, before[bin as int].push(peer));
            assert forall|b: int, i: int|
                #![trigger after[b][i]]
                0 <= b < self.bins.len() && 0 <= i < after[b].len() implies self.bin_of(after[b][i])
                == b by {
                if b == bin && i == before[b].len() {
                } else {
                    assert(after[b][i] == before[b][i]);
                }
            }
            assert forall|b: int|
                #![trigger after[b]]
                0 <= b < self.bins.len() implies after[b].no_duplicates() by {
                assert(before[b].no_duplicates());
                if b == bin {
                    assert(!before[b].contains(peer));
                }
            }
        }
        Ok(())
    }

    /// Remove a peer; `false` if the index does not hold it.
    pub fn remove(&mut self, peer: &OverlayAddress) -> (removed: bool)
        requires
            old(self).wf(),
        ensures
            final(self).wf(),
            final(self).base == old(self).base,
            final(self).max_po == old(self).max_po,
            final(self).max_per_bin == old(self).max_per_bin,
            removed == old(self).holds(*peer),
            !removed ==> *final(self) == *old(self),
            removed ==> {
                let bin = old(self).bin_of(*peer) as int;
                &&& final(self).contents() == old(self).contents().update(
                    bin,
                    old(self).contents()[bin].remove(
                        old(self).contents()[bin].index_of(*peer),
                    ),
                )
                &&& !final(self).holds(*peer)
                &&& final(self).count + 1 == old(self).count
            },
    {
        let bin: usize = self.bin_for(peer).as_index();
        match self.position(peer) {
            None => false,
            Some(at) => {
                proof {
                    lemma_population_at_least(self.contents(), bin as int);
                }
                self.bins[bin].remove(at);
                self.count = self.count - 1;
                proof {
                    let before = old(self).contents();
                    let after = self.contents();
                    let row = before[bin as int];
                    assert(row.no_duplicates());
                    assert(row.index_of(*peer) == at as int) by {
                        assert(row.contains(*peer));
                    }
                    assert(after =~= before.update(bin as int, row.remove(at as int)));
                    lemma_population_update(before, bin as int, row.remove(at as int));
                    assert forall|b: int, i: int|
                        #![trigger after[b][i]]
                        0 <= b < self.bins.len() && 0 <= i < after[b].len() implies self.bin_of(
                        after[b][i],
                    ) == b by {
                        if b == bin && i >= at {
                            assert(after[b][i] == before[b][i + 1]);
                        } else {
                            assert(after[b][i] == before[b][i]);
                        }
                    }
                    assert forall|b: int|
                        #![trigger after[b]]
                        0 <= b < self.bins.len() implies after[b].no_duplicates() by {
                        assert(before[b].no_duplicates());
                    }
                    assert(!after[bin as int].contains(*peer)) by {
                        if after[bin as int].contains(*peer) {
                            let j = choose|j: int|
                                0 <= j < after[bin as int].len() && after[bin as int][j] == *peer;
                            let k = if j < at {
                                j
                            } else {
                                j + 1
                            };
                            assert(row[k] == *peer);
                            assert(row[at as int] == *peer);
                        }
                    }
                }
                true
            },
        }
    }

    /// How many peers the index holds.
    pub fn len(&self) -> (n: usize)
        requires
            self.wf(),
        ensures
            n == population(self.contents()),
    {
        self.count
    }

    /// How many peers `bin` holds; zero for a bin the index does not have.
    pub fn bin_size(&self, bin: Bin) -> (n: usize)
        ensures
            bin.raw < self.bins.len() ==> n == self.contents()[bin.raw as int].len(),
            bin.raw >= self.bins.len() ==> n == 0,
    {
        let b: usize = bin.as_index();
        if b < self.bins.len() {
            self.bins[b].len()
        } else {
            0
        }
    }

    /// The sizes of all bins, shallowest first.
    pub fn bin_sizes(&self) -> (sizes: Vec<usize>)
        ensures
            sizes.len() == self.bins.len(),
            forall|b: int| 0 <= b < sizes.len() ==> sizes@[b] == self.contents()[b].len(),
    {
        let mut sizes: Vec<usize> = Vec::new();
        let mut b: usize = 0;
        while b < self.bins.len()
            invariant
                b <= self.bins.len(),
                sizes.len() == b,
                forall|i: int| 0 <= i < b ==> sizes@[i] == self.contents()[i].len(),
            decreases self.bins.len() - b,
        {
            sizes.push(self.bins[b].len());
            b = b + 1;
        }
        sizes
    }

    /// The peers of `bin`, in the order they were added; none for a bin the
    /// index does not have.
    pub fn peers_in_bin(&self, bin: Bin) -> (peers: Vec<OverlayAddress>)
        ensures
            bin.raw < self.bins.len() ==> peers@ == self.contents()[bin.raw as int],
            bin.raw >= self.bins.len() ==> peers.len() == 0,
    {
        let b: usize = bin.as_index();
        let mut peers: Vec<OverlayAddress> = Vec::new();
        if b < self.bins.len() {
            let mut i: usize = 0;
            while i < self.bins[b].len()
                invariant
                    b < self.bins.len(),
                    i <= self.bins@[b as int].len(),
                    peers@ == self.bins@[b as int]@.subrange(0, i as int),
                decreases self.bins@[b as int].len() - i,
            {
                peers.push(self.bins[b][i]);
                i = i + 1;
            }
        }
        peers
    }

    /// All peers, shallowest bin first.
    pub fn all_peers(&self) -> (peers: Vec<OverlayAddress>)
        ensures
            peers@ == concatenated(self.contents()),
    {
        let mut peers: Vec<OverlayAddress> = Vec::new();
        let mut b: usize = 0;
        proof {
            assert(self.contents().subrange(0, 0) =~= Seq::empty());
        }
        while b < self.bins.len()
            invariant
                b <= self.bins.len(),
                peers@ == concatenated(self.contents().subrange(0, b as int)),
            decreases self.bins.len() - b,
        {
            let ghost before = peers@;
            let mut i: usize = 0;
            while i < self.bins[b].len()
                invariant
                    b < self.bins.len(),
                    i <= self.bins@[b as int].len(),
                    peers@ == before + self.bins@[b as int]@.subrange(0, i as int),
                decreases self.bins@[b as int].len() - i,
            {
                peers.push(self.bins[b][i]);
                i = i + 1;
            }
            proof {
                let next = self.contents().subrange(0, b + 1);
                assert(next.drop_last() =~= self.contents().subrange(0, b as int));
                assert(self.bins@[b as int]@.subrange(0, i as int) =~= next.last());
            }
            b = b + 1;
        }
        proof {
            assert(self.contents().subrange(0, b as int) =~= self.contents());
        }
        peers
    }
}

/// Replacing one bin changes the population by the difference in that bin.
pub proof fn lemma_population_update(
    bins: Seq<Seq<OverlayAddress>>,
    b: int,
    row: Seq<OverlayAddress>,
)
    requires
        0 <= b < bins.len(),
    ensures
        population(bins.update(b, row)) == population(bins) - bins[b].len() + row.len(),
    decreases bins.len(),
{
    let updated = bins.update(b, row);
    if b == bins.len() - 1 {
        assert(updated.drop_last() =~= bins.drop_last());
    } else {
        assert(updated.drop_last() =~= bins.drop_last().update(b, row));
        lemma_population_update(bins.drop_last(), b, row);
    }
}

/// No bin holds more than all bins together.
pub proof fn lemma_population_at_least(bins: Seq<Seq<OverlayAddress>>, b: int)
    requires
        0 <= b < bins.len(),
    ensures
        bins[b].len() <= population(bins),
    decreases bins.len(),
{
    if b < bins.len() - 1 {
        lemma_population_at_least(bins.drop_last(), b);
    }
}

/// A peer is among all peers exactly when some bin holds it.
pub proof fn lemma_concatenated_contains(bins: Seq<Seq<OverlayAddress>>, peer: OverlayAddress)
    ensures
        concatenated(bins).contains(peer) <==> exists|b: int|
            0 <= b < bins.len() && #[trigger] bins[b].contains(peer),
        concatenated(bins).len() == population(bins),
    decreases bins.len(),
{
    if bins.len() > 0 {
        let rest = bins.drop_last();
        lemma_concatenated_contains(rest, peer);
        let all = concatenated(bins);
        if all.contains(peer) {
            let i = choose|i: int| 0 <= i < all.len() && all[i] == peer;
            if i < concatenated(rest).len() {
                assert(concatenated(rest)[i] == peer);
                let b = choose|b: int| 0 <= b < rest.len() && #[trigger] rest[b].contains(peer);
                assert(bins[b].contains(peer));
            } else {
                assert(bins.last()[i - concatenated(rest).len()] == peer);
                assert(bins[bins.len() - 1].contains(peer));
            }
        }
        if exists|b: int| 0 <= b < bins.len() && #[trigger] bins[b].contains(peer) {
            let b = choose|b: int| 0 <= b < bins.len() && #[trigger] bins[b].contains(peer);
            if b < bins.len() - 1 {
                assert(rest[b].contains(peer));
                let i = choose|i: int|
                    0 <= i < concatenated(rest).len() && concatenated(rest)[i] == peer;
                assert(all[i] == peer);
            } else {
                let i = choose|i: int| 0 <= i < bins[b].len() && bins[b][i] == peer;
                assert(all[concatenated(rest).len() + i] == peer);
            }
        }
    }
}

/// Each peer sits in one bin only, so the list of all peers of an index names
/// each peer once.
pub proof fn all_peers_are_distinct(index: ProximityIndex)
    requires
        index.wf(),
    ensures
        concatenated(index.contents()).no_duplicates(),
{
    lemma_concatenated_distinct(index.contents(), index.base, index.max_po);
}

/// Bins whose peers sit in their own bins, once each, hold no peer twice.
pub proof fn lemma_concatenated_distinct(
    bins: Seq<Seq<OverlayAddress>>,
    base: OverlayAddress,
    max_po: u8,
)
    requires
        forall|b: int, i: int|
            #![trigger bins[b][i]]
            0 <= b < bins.len() && 0 <= i < bins[b].len() ==> bin_of(base, max_po, bins[b][i])
                == b,
        forall|b: int| #![trigger bins[b]] 0 <= b < bins.len() ==> bins[b].no_duplicates(),
    ensures
        concatenated(bins).no_duplicates(),
    decreases bins.len(),
{
    if bins.len() > 0 {
        let rest = bins.drop_last();
        assert forall|b: int, i: int|
            #![trigger rest[b][i]]
            0 <= b < rest.len() && 0 <= i < rest[b].len() implies bin_of(base, max_po, rest[b][i])
            == b by {
            assert(rest[b][i] == bins[b][i]);
        }
        assert forall|b: int| #![trigger rest[b]] 0 <= b < rest.len() implies rest[
            b
        ].no_duplicates() by {
            assert(rest[b] == bins[b]);
        }
        lemma_concatenated_distinct(rest, base, max_po);
        let all = concatenated(bins);
        let c = concatenated(rest);
        let n = bins.len() - 1;
        assert(bins[n].no_duplicates());
        assert forall|i: int, j: int| 0 <= i < j < all.len() implies all[i] != all[j] by {
            if j >= c.len() && i < c.len() {
                lemma_concatenated_contains(rest, c[i]);
                let b = choose|b: int| 0 <= b < rest.len() && #[trigger] rest[b].contains(c[i]);
                let k = choose|k: int| 0 <= k < rest[b].len() && rest[b][k] == c[i];
                assert(bins[b][k] == c[i]);
                assert(bins[n][j - c.len()] == all[j]);
            }
        }
    }
}

/// A peer's bin is the number of leading bits that it shares with the base, and
/// the deepest bin where the table has none for that many.
pub proof fn bins_follow_the_proximity(base: OverlayAddress, max_po: u8, peer: OverlayAddress)
    ensures
        bin_of(base, max_po, peer) <= max_po,
        crate::primitives::proximity_order(base, peer) <= max_po ==> bin_of(base, max_po, peer)
            == crate::primitives::proximity_order(base, peer),
        crate::primitives::proximity_order(base, peer) > max_po ==> bin_of(base, max_po, peer)
            == max_po,
{
}

/// One more bin adds its peers at the end of the list of all, and their number
/// to the population.
pub proof fn bins_add_up(bins: Seq<Seq<OverlayAddress>>, bin: Seq<OverlayAddress>)
    ensures
        concatenated(Seq::empty()) == Seq::<OverlayAddress>::empty(),
        population(Seq::empty()) == 0,
        concatenated(bins.push(bin)) == concatenated(bins) + bin,
        population(bins.push(bin)) == population(bins) + bin.len(),
        concatenated(bins).len() == population(bins),
    decreases bins.len(),
{
    assert(bins.push(bin).drop_last() =~= bins);
    if bins.len() > 0 {
        bins_add_up(bins.drop_last(), bins.last());
        assert(bins.drop_last().push(bins.last()) =~= bins);
    }
}

/// A bin takes another peer while it holds fewer than its cap, and always where
/// there is none.
pub proof fn uncapped_bins_have_room(index: ProximityIndex, bin: nat)
    ensures
        index.max_per_bin == 0 ==> index.has_room(bin),
        index.max_per_bin > 0 ==> (index.has_room(bin) <==> index.contents()[bin as int].len()
            < index.max_per_bin),
{
}

} // verus!
