//! Per-bin FIFO candidate queues with deduplication.

use crate::primitives::{Bin, OverlayAddress};
use std::collections::VecDeque;
use vstd::prelude::*;

verus! {

/// Whether some bin holds `peer`.
pub open spec fn queued(bins: Seq<Seq<OverlayAddress>>, peer: OverlayAddress) -> bool {
    exists|b: int| 0 <= b < bins.len() && #[trigger] bins[b].contains(peer)
}

/// The peers of all bins, deepest bin first and each bin in its own order.
pub open spec fn deepest_first(bins: Seq<Seq<OverlayAddress>>) -> Seq<OverlayAddress>
    decreases bins.len(),
{
    if bins.len() == 0 {
        Seq::empty()
    } else {
        bins.last() + deepest_first(bins.drop_last())
    }
}

/// The last `cap` peers of a queue.
pub open spec fn newest(queue: Seq<OverlayAddress>, cap: nat) -> Seq<OverlayAddress> {
    if queue.len() <= cap {
        queue
    } else {
        queue.subrange(queue.len() - cap, queue.len() as int)
    }
}

/// The bins after `peer` was enqueued in bin `b`: it joins the end of the
/// queue, whose oldest peers leave when it is over its cap. A peer that waits
/// somewhere already, and a bin that does not exist, change nothing.
pub open spec fn enqueued(
    bins: Seq<Seq<OverlayAddress>>,
    cap: nat,
    b: int,
    peer: OverlayAddress,
) -> Seq<Seq<OverlayAddress>> {
    if queued(bins, peer) || !(0 <= b < bins.len()) {
        bins
    } else {
        bins.update(b, newest(bins[b].push(peer), cap))
    }
}

/// `b` is the deepest bin that holds a peer.
pub open spec fn deepest_occupied(bins: Seq<Seq<OverlayAddress>>, b: int) -> bool {
    &&& 0 <= b < bins.len()
    &&& bins[b].len() > 0
    &&& forall|j: int| b < j < bins.len() ==> #[trigger] bins[j].len() == 0
}

/// Per-bin FIFO queues for connection candidates. A peer waits in at most one
/// place over all bins.
#[derive(Debug)]
pub struct CandidateQueues {
    pub bins: Vec<VecDeque<OverlayAddress>>,
    pub max_per_bin: usize,
}

impl CandidateQueues {
    /// The waiting peers of each bin, oldest first.
    pub open spec fn contents(self) -> Seq<Seq<OverlayAddress>> {
        self.bins@.map_values(|queue: VecDeque<OverlayAddress>| queue@)
    }

    /// No queue is over its cap and no peer waits twice.
    pub open spec fn wf(self) -> bool {
        &&& forall|b: int|
            #![trigger self.contents()[b]]
            0 <= b < self.contents().len() ==> self.contents()[b].len() <= self.max_per_bin
        &&& apart(self.contents())
    }

    /// Create empty queues for `num_bins` bins.
    pub fn new(num_bins: usize, max_per_bin: usize) -> (queues: CandidateQueues)
        ensures
            queues.wf(),
            queues.max_per_bin == max_per_bin,
            queues.contents() == Seq::new(
                num_bins as nat,
                |b: int| Seq::<OverlayAddress>::empty(),
            ),
    {
        let mut bins: Vec<VecDeque<OverlayAddress>> = Vec::new();
        let mut b: usize = 0;
        while b < num_bins
            invariant
                b <= num_bins,
                bins.len() == b,
                forall|i: int| 0 <= i < b ==> bins@[i]@ == Seq::<OverlayAddress>::empty(),
            decreases num_bins - b,
        {
            bins.push(VecDeque::new());
            b = b + 1;
        }
        let queues = CandidateQueues { bins, max_per_bin };
        proof {
            assert(queues.contents() =~= Seq::new(
                num_bins as nat,
                |b: int| Seq::<OverlayAddress>::empty(),
            ));
        }
        queues
    }

    /// Whether a peer is already queued.
    pub fn contains(&self, peer: &OverlayAddress) -> (found: bool)
        ensures
            found == queued(self.contents(), *peer),
    {
        let mut b: usize = 0;
        while b < self.bins.len()
            invariant
                b <= self.bins.len(),
                forall|c: int| 0 <= c < b ==> !(#[trigger] self.contents()[c].contains(*peer)),
            decreases self.bins.len() - b,
        {
            let mut i: usize = 0;
            while i < self.bins[b].len()
                invariant
                    b < self.bins.len(),
                    i <= self.bins@[b as int]@.len(),
                    forall|j: int| 0 <= j < i ==> self.contents()[b as int][j] != *peer,
                decreases self.bins@[b as int]@.len() - i,
            {
                if self.bins[b][i] == *peer {
                    proof {
                        assert(self.contents()[b as int][i as int] == *peer);
                        assert(self.contents()[b as int].contains(*peer));
                    }
                    return true;
                }
                i = i + 1;
            }
            b = b + 1;
        }
        false
    }

    /// Whether no peer is queued.
    pub fn is_empty(&self) -> (empty: bool)
        ensures
            empty == !(exists|peer: OverlayAddress| #[trigger] queued(self.contents(), peer)),
    {
        let mut b: usize = 0;
        while b < self.bins.len()
            invariant
                b <= self.bins.len(),
                forall|c: int| 0 <= c < b ==> #[trigger] self.contents()[c].len() == 0,
            decreases self.bins.len() - b,
        {
            if self.bins[b].len() > 0 {
                proof {
                    let row = self.contents()[b as int];
                    assert(row == self.bins@[b as int]@);
                    assert(row.contains(row[0]));
                    assert(queued(self.contents(), row[0]));
                }
                return false;
            }
            b = b + 1;
        }
        proof {
            assert forall|peer: OverlayAddress| #[trigger] queued(
                self.contents(),
                peer,
            ) implies false by {
                let c = choose|c: int|
                    0 <= c < self.contents().len() && #[trigger] self.contents()[c].contains(peer);
                assert(self.contents()[c].len() == 0);
            }
        }
        true
    }

    /// Enqueue a candidate in the given bin, dropping the bin's oldest
    /// candidate when it is over its cap. Returns `true` if the candidate was
    /// not queued before and the bin exists.
    pub fn push(&mut self, bin: Bin, peer: OverlayAddress) -> (inserted: bool)
        requires
            old(self).wf(),
        ensures
            final(self).wf(),
            final(self).max_per_bin == old(self).max_per_bin,
            inserted == (!queued(old(self).contents(), peer) && bin.raw < old(
                self,
            ).contents().len()),
            final(self).contents() == enqueued(
                old(self).contents(),
                old(self).max_per_bin as nat,
                bin.raw as int,
                peer,
            ),
            !inserted ==> *final(self) == *old(self),
            inserted && old(self).max_per_bin > 0 ==> queued(final(self).contents(), peer),
    {
        let b: usize = bin.as_index();
        if self.contains(&peer) || b >= self.bins.len() {
            return false;
        }
        self.bins[b].push_back(peer);
        if self.bins[b].len() > self.max_per_bin {
            let _oldest: Option<OverlayAddress> = self.bins[b].pop_front();
        }
        proof {
            let before = old(self).contents();
            let after = self.contents();
            let grown = before[b as int].push(peer);
            assert(before[b as int].len() <= self.max_per_bin);
            let kept = newest(grown, self.max_per_bin as nat);
            assert(after[b as int] =~= kept);
            assert(after =~= before.update(b as int, kept));
            let shift = grown.len() - kept.len();
            if self.max_per_bin > 0 {
                assert(after[b as int][kept.len() - 1] == peer);
                assert(after[b as int].contains(peer));
            }
            assert forall|c: int|
                #![trigger after[c]]
                0 <= c < after.len() implies after[c].len() <= self.max_per_bin by {
                assert(before[c].len() <= self.max_per_bin);
            }
            assert forall|c: int, i: int, d: int, j: int|
                #![trigger after[c][i], after[d][j]]
                0 <= c < after.len() && 0 <= i < after[c].len() && 0 <= d < after.len() && 0 <= j
                    < after[d].len() && after[c][i] == after[d][j] implies c == d && i == j by {
                let i0 = if c == b {
                    i + shift
                } else {
                    i
                };
                let j0 = if d == b {
                    j + shift
                } else {
                    j
                };
                if c == b && i0 == before[c].len() {
                    if d == b && j0 == before[d].len() {
                    } else {
                        assert(after[d][j] == before[d][j0]);
                        assert(before[d].contains(peer));
                    }
                } else if d == b && j0 == before[d].len() {
                    assert(after[c][i] == before[c][i0]);
                    assert(before[c].contains(peer));
                } else {
                    assert(after[c][i] == before[c][i0]);
                    assert(after[d][j] == before[d][j0]);
                }
            }
        }
        true
    }

    /// Take the oldest candidate of the deepest bin that has one.
    pub fn pop_next(&mut self) -> (peer: Option<OverlayAddress>)
        requires
            old(self).wf(),
        ensures
            final(self).wf(),
            final(self).max_per_bin == old(self).max_per_bin,
            final(self).contents().len() == old(self).contents().len(),
            peer is None ==> {
                &&& *final(self) == *old(self)
                &&& forall|b: int|
                    0 <= b < old(self).contents().len() ==> #[trigger] old(self).contents()[b].len()
                        == 0
            },
            forall|b: int|
                #![trigger old(self).contents()[b]]
                deepest_occupied(old(self).contents(), b) ==> {
                    &&& peer == Some(old(self).contents()[b].first())
                    &&& final(self).contents() == old(self).contents().update(
                        b,
                        old(self).contents()[b].drop_first(),
                    )
                },
    {
        let mut b: usize = self.bins.len();
        while b > 0
            invariant
                b <= self.bins.len(),
                self.wf(),
                *self == *old(self),
                forall|c: int|
                    b <= c < self.contents().len() ==> #[trigger] self.contents()[c].len() == 0,
            decreases b,
        {
            b = b - 1;
            assert(self.contents()[b as int] == self.bins@[b as int]@);
            if self.bins[b].len() > 0 {
                let ghost before = self.contents();
                let peer: Option<OverlayAddress> = self.bins[b].pop_front();
                proof {
                    let after = self.contents();
                    assert(after[b as int] =~= before[b as int].drop_first());
                    assert(after =~= before.update(b as int, before[b as int].drop_first()));
                    assert forall|c: int|
                        #![trigger after[c]]
                        0 <= c < after.len() implies after[c].len() <= self.max_per_bin by {
                        assert(before[c].len() <= self.max_per_bin);
                    }
                    assert forall|c: int, i: int, d: int, j: int|
                        #![trigger after[c][i], after[d][j]]
                        0 <= c < after.len() && 0 <= i < after[c].len() && 0 <= d < after.len() && 0
                            <= j < after[d].len() && after[c][i] == after[d][j] implies c == d && i
                        == j by {
                        let i0 = if c == b {
                            i + 1
                        } else {
                            i
                        };
                        let j0 = if d == b {
                            j + 1
                        } else {
                            j
                        };
                        assert(after[c][i] == before[c][i0]);
                        assert(after[d][j] == before[d][j0]);
                    }
                    assert forall|c: int|
                        #![trigger before[c]]
                        deepest_occupied(before, c) implies c == b by {
                        if c < b {
                            assert(before[b as int].len() == 0);
                        }
                        if c > b {
                            assert(before[c].len() == 0);
                        }
                    }
                }
                return peer;
            }
        }
        proof {
            assert forall|c: int|
                #![trigger self.contents()[c]]
                !deepest_occupied(self.contents(), c) by {
                if 0 <= c < self.contents().len() {
                    assert(self.contents()[c].len() == 0);
                }
            }
        }
        None
    }

    /// Drain all bins, deepest first, into one list.
    pub fn drain_all(&mut self) -> (peers: Vec<OverlayAddress>)
        requires
            old(self).wf(),
        ensures
            final(self).wf(),
            final(self).max_per_bin == old(self).max_per_bin,
            peers@ == deepest_first(old(self).contents()),
            final(self).contents() == Seq::new(
                old(self).contents().len(),
                |b: int| Seq::<OverlayAddress>::empty(),
            ),
    {
        let peers: Vec<OverlayAddress> = self.listed();
        let num_bins: usize = self.bins.len();
        let max_per_bin: usize = self.max_per_bin;
        *self = CandidateQueues::new(num_bins, max_per_bin);
        peers
    }

    /// The queued peers, deepest bin first.
    fn listed(&self) -> (peers: Vec<OverlayAddress>)
        ensures
            peers@ == deepest_first(self.contents()),
    {
        let mut peers: Vec<OverlayAddress> = Vec::new();
        let mut b: usize = self.bins.len();
        let ghost all = deepest_first(self.contents());
        proof {
            assert(self.contents().subrange(0, b as int) =~= self.contents());
        }
        while b > 0
            invariant
                b <= self.bins.len(),
                peers@ + deepest_first(self.contents().subrange(0, b as int)) == all,
            decreases b,
        {
            let ghost rest = self.contents().subrange(0, b as int);
            let ghost before = peers@;
            b = b - 1;
            let mut i: usize = 0;
            while i < self.bins[b].len()
                invariant
                    b < self.bins.len(),
                    i <= self.bins@[b as int]@.len(),
                    peers@ == before + self.bins@[b as int]@.subrange(0, i as int),
                decreases self.bins@[b as int]@.len() - i,
            {
                peers.push(self.bins[b][i]);
                i = i + 1;
            }
            proof {
                assert(rest.drop_last() =~= self.contents().subrange(0, b as int));
                assert(self.bins@[b as int]@.subrange(0, i as int) =~= rest.last());
                assert(before + (rest.last() + deepest_first(rest.drop_last())) =~= (before
                    + rest.last()) + deepest_first(rest.drop_last()));
            }
        }
        proof {
            assert(self.contents().subrange(0, 0) =~= Seq::empty());
            assert(peers@ + deepest_first(self.contents().subrange(0, 0)) =~= peers@);
        }
        peers
    }

    /// The queued peers, for a selection round to leave out.
    pub fn snapshot_queued(&self) -> (peers: Vec<OverlayAddress>)
        ensures
            peers@ == deepest_first(self.contents()),
            forall|peer: OverlayAddress|
                #![trigger peers@.contains(peer)]
                peers@.contains(peer) <==> queued(self.contents(), peer),
    {
        let peers: Vec<OverlayAddress> = self.listed();
        proof {
            assert forall|peer: OverlayAddress|
                #![trigger peers@.contains(peer)]
                peers@.contains(peer) <==> queued(self.contents(), peer) by {
                lemma_deepest_first_contains(self.contents(), peer);
            }
        }
        peers
    }
}

proof fn lemma_deepest_first_contains(bins: Seq<Seq<OverlayAddress>>, peer: OverlayAddress)
    ensures
        deepest_first(bins).contains(peer) <==> queued(bins, peer),
    decreases bins.len(),
{
    if bins.len() > 0 {
        let rest = bins.drop_last();
        lemma_deepest_first_contains(rest, peer);
        let all = deepest_first(bins);
        let last = bins.last();
        if all.contains(peer) {
            let i = choose|i: int| 0 <= i < all.len() && all[i] == peer;
            if i < last.len() {
                assert(last[i] == peer);
                assert(bins[bins.len() - 1].contains(peer));
            } else {
                assert(deepest_first(rest)[i - last.len()] == peer);
                let b = choose|b: int| 0 <= b < rest.len() && #[trigger] rest[b].contains(peer);
                assert(bins[b].contains(peer));
            }
        }
        if queued(bins, peer) {
            let b = choose|b: int| 0 <= b < bins.len() && #[trigger] bins[b].contains(peer);
            if b < bins.len() - 1 {
                assert(rest[b].contains(peer));
                let i = choose|i: int|
                    0 <= i < deepest_first(rest).len() && deepest_first(rest)[i] == peer;
                assert(all[last.len() + i] == peer);
            } else {
                let i = choose|i: int| 0 <= i < last.len() && last[i] == peer;
                assert(all[i] == peer);
            }
        }
    }
}

/// No peer stands in two places over all bins.
pub open spec fn apart(bins: Seq<Seq<OverlayAddress>>) -> bool {
    forall|b: int, i: int, c: int, j: int|
        #![trigger bins[b][i], bins[c][j]]
        0 <= b < bins.len() && 0 <= i < bins[b].len() && 0 <= c < bins.len() && 0 <= j
            < bins[c].len() && bins[b][i] == bins[c][j] ==> b == c && i == j
}

proof fn lemma_deepest_first_order(bins: Seq<Seq<OverlayAddress>>)
    requires
        apart(bins),
    ensures
        deepest_first(bins).no_duplicates(),
        forall|i: int, j: int, b: int, c: int|
            #![trigger bins[b].contains(deepest_first(bins)[i]), bins[c].contains(deepest_first(bins)[j])]
            0 <= i <= j < deepest_first(bins).len() && 0 <= b < bins.len() && 0 <= c < bins.len()
                && bins[b].contains(deepest_first(bins)[i]) && bins[c].contains(
                deepest_first(bins)[j],
            ) ==> b >= c,
    decreases bins.len(),
{
    if bins.len() > 0 {
        let rest = bins.drop_last();
        let last = bins.last();
        let tail = deepest_first(rest);
        let all = deepest_first(bins);
        let top = bins.len() - 1;
        assert forall|b: int, i: int, c: int, j: int|
            #![trigger rest[b][i], rest[c][j]]
            0 <= b < rest.len() && 0 <= i < rest[b].len() && 0 <= c < rest.len() && 0 <= j
                < rest[c].len() && rest[b][i] == rest[c][j] implies b == c && i == j by {
            assert(bins[b][i] == rest[b][i] && bins[c][j] == rest[c][j]);
        }
        lemma_deepest_first_order(rest);
        // A peer of the tail waits in a shallower bin, and there only.
        assert forall|i: int| #![trigger tail[i]] 0 <= i < tail.len() implies !last.contains(
            tail[i],
        ) by {
            let peer = tail[i];
            assert(tail.contains(peer));
            lemma_deepest_first_contains(rest, peer);
            let b = choose|b: int| 0 <= b < rest.len() && #[trigger] rest[b].contains(peer);
            let k = choose|k: int| 0 <= k < rest[b].len() && rest[b][k] == peer;
            assert(bins[b][k] == peer);
            if last.contains(peer) {
                let m = choose|m: int| 0 <= m < last.len() && last[m] == peer;
                assert(bins[top][m] == peer);
            }
        }
        assert forall|i: int, j: int| 0 <= i < all.len() && 0 <= j < all.len() && i
            != j implies all[i] != all[j] by {
            if i < last.len() && j < last.len() {
                assert(bins[top][i] == all[i] && bins[top][j] == all[j]);
            } else if i < last.len() {
                assert(last[i] == all[i] && tail[j - last.len()] == all[j]);
                assert(last.contains(last[i]));
            } else if j < last.len() {
                assert(last[j] == all[j] && tail[i - last.len()] == all[i]);
                assert(last.contains(last[j]));
            } else {
                assert(tail[i - last.len()] == all[i] && tail[j - last.len()] == all[j]);
            }
        }
        assert forall|i: int, j: int, b: int, c: int|
            #![trigger bins[b].contains(all[i]), bins[c].contains(all[j])]
            0 <= i <= j < all.len() && 0 <= b < bins.len() && 0 <= c < bins.len()
                && bins[b].contains(all[i]) && bins[c].contains(all[j]) implies b >= c by {
            if i < last.len() {
                let k = choose|k: int| 0 <= k < bins[b].len() && bins[b][k] == all[i];
                assert(bins[top][i] == all[i]);
                assert(bins[b][k] == bins[top][i]);
                assert(b == top);
            } else {
                assert(tail[i - last.len()] == all[i] && tail[j - last.len()] == all[j]);
                assert(b != top && c != top);
                assert(rest[b].contains(tail[i - last.len()]));
                assert(rest[c].contains(tail[j - last.len()]));
            }
        }
    }
}

/// A drain hands out every queued peer and no other, each once, and a peer of
/// a deeper bin never after one of a shallower bin.
pub proof fn draining_is_deepest_first(queues: CandidateQueues)
    requires
        queues.wf(),
    ensures
        deepest_first(queues.contents()).no_duplicates(),
        forall|peer: OverlayAddress| #[trigger]
            deepest_first(queues.contents()).contains(peer) == queued(queues.contents(), peer),
        forall|i: int, j: int, b: int, c: int|
            #![trigger queues.contents()[b].contains(deepest_first(queues.contents())[i]), queues.contents()[c].contains(deepest_first(queues.contents())[j])]
            0 <= i <= j < deepest_first(queues.contents()).len() && 0 <= b
                < queues.contents().len() && 0 <= c < queues.contents().len()
                && queues.contents()[b].contains(deepest_first(queues.contents())[i])
                && queues.contents()[c].contains(deepest_first(queues.contents())[j]) ==> b >= c,
{
    let bins = queues.contents();
    assert(apart(bins));
    lemma_deepest_first_order(bins);
    assert forall|peer: OverlayAddress| #[trigger] deepest_first(bins).contains(peer) == queued(
        bins,
        peer,
    ) by {
        lemma_deepest_first_contains(bins, peer);
    }
}

/// Where the bins hold anything, some bin is the deepest that does, so
/// [`CandidateQueues::pop_next`] gives back a peer.
pub proof fn occupied_bins_have_a_deepest(bins: Seq<Seq<OverlayAddress>>, b: int)
    requires
        0 <= b < bins.len(),
        bins[b].len() > 0,
    ensures
        exists|c: int| b <= c && deepest_occupied(bins, c),
    decreases bins.len() - b,
{
    if !deepest_occupied(bins, b) {
        let next = choose|j: int| b < j < bins.len() && #[trigger] bins[j].len() != 0;
        occupied_bins_have_a_deepest(bins, next);
    }
}

/// A peer that waits nowhere joins the end of its bin's queue; where the queue
/// is full, its oldest peer leaves. The other bins stay as they are, and so
/// does everything where the peer waits already or the bin does not exist.
pub proof fn enqueuing_appends(
    bins: Seq<Seq<OverlayAddress>>,
    cap: nat,
    b: int,
    peer: OverlayAddress,
)
    ensures
        ({
            let after = enqueued(bins, cap, b, peer);
            let waits = exists|c: int| 0 <= c < bins.len() && #[trigger] bins[c].contains(peer);
            &&& waits || b < 0 || b >= bins.len() ==> after == bins
            &&& !waits && 0 <= b < bins.len() ==> {
                &&& after.len() == bins.len()
                &&& forall|c: int|
                    #![trigger after[c]]
                    0 <= c < bins.len() && c != b ==> after[c] == bins[c]
                &&& bins[b].len() < cap ==> after[b] == bins[b].push(peer)
                &&& bins[b].len() == cap && cap > 0 ==> after[b] == bins[b].drop_first().push(peer)
            }
        }),
{
    let waits = exists|c: int| 0 <= c < bins.len() && #[trigger] bins[c].contains(peer);
    if !waits && 0 <= b < bins.len() && bins[b].len() == cap && cap > 0 {
        assert(newest(bins[b].push(peer), cap) =~= bins[b].drop_first().push(peer));
    }
}

/// The bin that is served next holds somebody, and no deeper one does.
pub proof fn the_deepest_bin_is_served_first(bins: Seq<Seq<OverlayAddress>>, b: int)
    requires
        deepest_occupied(bins, b),
    ensures
        0 <= b < bins.len(),
        bins[b].len() > 0,
        forall|c: int| #![trigger bins[c]] b < c < bins.len() ==> bins[c].len() == 0,
{
}

} // verus!
