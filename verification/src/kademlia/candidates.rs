//! Candidate selection for peer dialing.
//!
//! One selection round works on one captured state: the limits at one depth,
//! the peers already being connected and the peers already queued. Bans and
//! dial backoffs are read from the peer book when a peer is offered.

use super::limits::LimitsSnapshot;
use super::peers::PeerBook;
use super::proximity_index::ProximityIndex;
use crate::arith::smaller_of;
use crate::primitives::{Bin, OverlayAddress, MAX_PO};
use vstd::prelude::*;

verus! {

/// Whether `peers` holds `peer`.
fn listed(peers: &Vec<OverlayAddress>, peer: &OverlayAddress) -> (found: bool)
    ensures
        found == peers@.contains(*peer),
{
    let mut i: usize = 0;
    while i < peers.len()
        invariant
            i <= peers.len(),
            forall|j: int| 0 <= j < i ==> peers@[j] != *peer,
        decreases peers.len() - i,
    {
        if peers[i] == *peer {
            assert(peers@[i as int] == *peer);
            return true;
        }
        i = i + 1;
    }
    false
}

/// Captured state for one consistent selection round.
#[derive(Debug)]
pub struct CandidateSnapshot {
    /// Limits at the depth of the capture.
    pub limits: LimitsSnapshot,
    /// Peers currently in a connection phase.
    pub in_progress: Vec<OverlayAddress>,
    /// Peers already queued for dialing.
    pub queued: Vec<OverlayAddress>,
}

impl CandidateSnapshot {
    /// Whether `peer` may be dialed: it is not in progress, not queued, not
    /// banned and not in backoff.
    pub open spec fn eligible(self, book: PeerBook, peer: OverlayAddress) -> bool {
        &&& !self.in_progress@.contains(peer)
        &&& !self.queued@.contains(peer)
        &&& !(book.lookup(peer) matches Some(record) && record.banned)
        &&& !(book.lookup(peer) matches Some(record) && record.in_backoff)
    }

    /// Whether `peer` may be dialed.
    pub fn is_eligible(&self, peer: &OverlayAddress, book: &PeerBook) -> (eligible: bool)
        requires
            book.wf(),
        ensures
            eligible == self.eligible(*book, *peer),
    {
        !listed(&self.in_progress, peer) && !listed(&self.queued, peer) && !book.is_banned(peer)
            && !book.peer_is_in_backoff(peer)
    }
}

/// Peers selected so far, with how many of them fall to each bin.
pub type Selected = (Seq<OverlayAddress>, Seq<usize>);

/// Selects dial candidates from one snapshot with per-bin capacity tracking.
#[derive(Debug)]
pub struct CandidateSelector<'a> {
    pub snapshot: &'a CandidateSnapshot,
    pub connected_peers: &'a ProximityIndex,
    pub candidates: Vec<OverlayAddress>,
    pub max_candidates: usize,
    /// Per-bin selection counts.
    pub bin_selections: Vec<usize>,
}

/// Whether an offered peer is selected on top of `state`.
pub open spec fn takes(
    snapshot: CandidateSnapshot,
    connected: ProximityIndex,
    book: PeerBook,
    max: usize,
    state: Selected,
    peer: OverlayAddress,
    bin: Bin,
    effective: usize,
) -> bool {
    &&& state.0.len() < max
    &&& !connected.holds(peer)
    &&& snapshot.eligible(book, peer)
    &&& !state.0.contains(peer)
    &&& snapshot.limits.limits.spec_needs_more(
        bin,
        snapshot.limits.depth,
        crate::arith::saturate(effective + state.1[bin.raw as int]),
    )
}

/// The selection after one peer of `bin` was offered.
pub open spec fn offered(
    snapshot: CandidateSnapshot,
    connected: ProximityIndex,
    book: PeerBook,
    max: usize,
    state: Selected,
    peer: OverlayAddress,
    bin: Bin,
    effective: usize,
) -> Selected {
    if takes(snapshot, connected, book, max, state, peer, bin, effective) {
        (
            state.0.push(peer),
            state.1.update(bin.raw as int, (state.1[bin.raw as int] + 1) as usize),
        )
    } else {
        state
    }
}

/// The selection after all of `peers`, from `bin`, were offered in turn.
pub open spec fn offered_all(
    snapshot: CandidateSnapshot,
    connected: ProximityIndex,
    book: PeerBook,
    max: usize,
    state: Selected,
    peers: Seq<OverlayAddress>,
    bin: Bin,
    effective: usize,
) -> Selected
    decreases peers.len(),
{
    if peers.len() == 0 {
        state
    } else {
        offered(
            snapshot,
            connected,
            book,
            max,
            offered_all(
                snapshot,
                connected,
                book,
                max,
                state,
                peers.drop_last(),
                bin,
                effective,
            ),
            peers.last(),
            bin,
            effective,
        )
    }
}

/// How many peers of `bin` a round offers on top of `state`: as many as the
/// budget still allows, and below the depth no more than the bin lacks.
pub open spec fn quota(
    snapshot: CandidateSnapshot,
    max: usize,
    state: Selected,
    bin: Bin,
    effective: usize,
) -> nat {
    let room = (if state.0.len() <= max {
        max - state.0.len()
    } else {
        0
    }) as nat;
    if snapshot.limits.depth.spec_contains(bin) {
        room
    } else {
        let lacking = snapshot.limits.limits.spec_deficit(
            bin,
            snapshot.limits.depth,
            crate::arith::saturate(effective + state.1[bin.raw as int]),
        );
        if lacking <= room {
            lacking as nat
        } else {
            room
        }
    }
}

/// The selection after `bin` had its turn.
pub open spec fn bin_served(
    snapshot: CandidateSnapshot,
    connected: ProximityIndex,
    book: PeerBook,
    max: usize,
    state: Selected,
    bin: Bin,
    effective: usize,
) -> Selected {
    offered_all(
        snapshot,
        connected,
        book,
        max,
        state,
        super::peers::leading(
            super::peers::dialable_in(book.records@, book.local, book.max_po, bin.raw as nat),
            quota(snapshot, max, state, bin, effective),
        ),
        bin,
        effective,
    )
}

/// The selection after the bins from `high` down to `low` had their turn,
/// deepest first.
pub open spec fn bins_served(
    snapshot: CandidateSnapshot,
    connected: ProximityIndex,
    book: PeerBook,
    max: usize,
    state: Selected,
    low: int,
    high: int,
    effective: Seq<usize>,
) -> Selected
    decreases high - low + 1,
{
    if high < low || high < 0 {
        state
    } else {
        bins_served(
            snapshot,
            connected,
            book,
            max,
            bin_served(
                snapshot,
                connected,
                book,
                max,
                state,
                Bin { raw: high as u8 },
                effective[high],
            ),
            low,
            high - 1,
            effective,
        )
    }
}

impl<'a> CandidateSelector<'a> {
    /// What is selected so far.
    pub open spec fn state(self) -> Selected {
        (self.candidates@, self.bin_selections@)
    }

    /// The per-bin counts count selected peers.
    pub open spec fn wf(self) -> bool {
        &&& self.connected_peers.wf()
        &&& self.bin_selections.len() == MAX_PO + 1
        &&& forall|b: int|
            #![trigger self.bin_selections@[b]]
            0 <= b <= MAX_PO ==> self.bin_selections@[b] <= self.candidates.len()
        &&& self.candidates.len() <= self.max_candidates
    }

    /// The borrowed state and the budget stay what they are.
    pub open spec fn same_round(self, other: CandidateSelector<'a>) -> bool {
        &&& self.snapshot == other.snapshot
        &&& self.connected_peers == other.connected_peers
        &&& self.max_candidates == other.max_candidates
    }

    /// Create a selector over a snapshot and the connected peers.
    pub fn new(
        snapshot: &'a CandidateSnapshot,
        connected_peers: &'a ProximityIndex,
        max_candidates: usize,
    ) -> (selector: CandidateSelector<'a>)
        requires
            connected_peers.wf(),
        ensures
            selector.wf(),
            selector.snapshot == snapshot,
            selector.connected_peers == connected_peers,
            selector.max_candidates == max_candidates,
            selector.state() == (
                Seq::<OverlayAddress>::empty(),
                Seq::new((MAX_PO + 1) as nat, |b: int| 0usize),
            ),
    {
        let mut bin_selections: Vec<usize> = Vec::new();
        let mut b: u8 = 0;
        while b <= MAX_PO
            invariant
                b <= MAX_PO + 1,
                bin_selections.len() == b,
                forall|c: int| 0 <= c < b ==> bin_selections@[c] == 0,
            decreases MAX_PO + 1 - b,
        {
            bin_selections.push(0);
            b = b + 1;
        }
        proof {
            assert(bin_selections@ =~= Seq::new((MAX_PO + 1) as nat, |b: int| 0usize));
        }
        CandidateSelector {
            snapshot,
            connected_peers,
            candidates: Vec::new(),
            max_candidates,
            bin_selections,
        }
    }

    /// Current number of selected candidates.
    pub fn len(&self) -> (n: usize)
        ensures
            n == self.candidates.len(),
    {
        self.candidates.len()
    }

    /// Whether the budget is used up.
    pub fn is_full(&self) -> (full: bool)
        ensures
            full == (self.candidates.len() >= self.max_candidates),
    {
        self.candidates.len() >= self.max_candidates
    }

    /// Remaining budget.
    pub fn remaining(&self) -> (n: usize)
        ensures
            n == (if self.candidates.len() <= self.max_candidates {
                self.max_candidates - self.candidates.len()
            } else {
                0
            }),
    {
        self.max_candidates.saturating_sub(self.candidates.len())
    }

    /// How many candidates of `bin` were selected by capacity.
    pub fn bin_selected(&self, bin: Bin) -> (n: usize)
        requires
            self.wf(),
            bin.wf(),
        ensures
            n == self.bin_selections@[bin.raw as int],
    {
        self.bin_selections[bin.as_index()]
    }

    /// The snapshot the round works on.
    pub fn snapshot(&self) -> (snapshot: &'a CandidateSnapshot)
        ensures
            snapshot == self.snapshot,
    {
        self.snapshot
    }

    /// Select a peer without looking at its bin, its ban or its backoff.
    /// Returns `true` if it was added.
    pub fn try_add(&mut self, peer: OverlayAddress) -> (added: bool)
        requires
            old(self).wf(),
        ensures
            final(self).wf(),
            final(self).same_round(*old(self)),
            added == (old(self).candidates.len() < old(self).max_candidates && !old(
                self,
            ).connected_peers.holds(peer) && !old(self).snapshot.in_progress@.contains(peer)
                && !old(self).snapshot.queued@.contains(peer) && !old(self).candidates@.contains(
                peer,
            )),
            final(self).state() == (if added {
                (old(self).candidates@.push(peer), old(self).bin_selections@)
            } else {
                old(self).state()
            }),
    {
        if self.is_full() || self.connected_peers.contains(&peer) || listed(
            &self.snapshot.in_progress,
            &peer,
        ) || listed(&self.snapshot.queued, &peer) || listed(&self.candidates, &peer) {
            return false;
        }
        self.candidates.push(peer);
        true
    }

    /// Offer a peer of `bin`, which holds `effective_count` peers already.
    /// Returns `true` if it was selected.
    pub fn try_add_with_bin_capacity(
        &mut self,
        peer: OverlayAddress,
        bin: Bin,
        effective_count: usize,
        book: &PeerBook,
    ) -> (added: bool)
        requires
            old(self).wf(),
            bin.wf(),
            book.wf(),
        ensures
            final(self).wf(),
            final(self).same_round(*old(self)),
            added == takes(
                *old(self).snapshot,
                *old(self).connected_peers,
                *book,
                old(self).max_candidates,
                old(self).state(),
                peer,
                bin,
                effective_count,
            ),
            final(self).state() == offered(
                *old(self).snapshot,
                *old(self).connected_peers,
                *book,
                old(self).max_candidates,
                old(self).state(),
                peer,
                bin,
                effective_count,
            ),
    {
        if self.is_full() || self.connected_peers.contains(&peer) || !self.snapshot.is_eligible(
            &peer,
            book,
        ) || listed(&self.candidates, &peer) {
            return false;
        }
        let already_selected: usize = self.bin_selected(bin);
        let projected_count: usize = effective_count.saturating_add(already_selected);
        if !self.snapshot.limits.needs_more(bin, projected_count) {
            return false;
        }
        proof {
            assert(self.bin_selections@[bin.raw as int] <= self.candidates.len());
        }
        self.candidates.push(peer);
        self.bin_selections.set(bin.as_index(), already_selected + 1);
        true
    }

    /// The selected candidates, in the order they were selected.
    pub fn finish(self) -> (candidates: Vec<OverlayAddress>)
        ensures
            candidates@ == self.candidates@,
    {
        self.candidates
    }

    /// Give `bin`, which holds `effective` peers already, its turn.
    fn serve_bin(&mut self, bin: Bin, effective: usize, book: &PeerBook)
        requires
            old(self).wf(),
            bin.wf(),
            book.wf(),
        ensures
            final(self).wf(),
            final(self).same_round(*old(self)),
            final(self).state() == bin_served(
                *old(self).snapshot,
                *old(self).connected_peers,
                *book,
                old(self).max_candidates,
                old(self).state(),
                bin,
                effective,
            ),
    {
        let ghost start = self.state();
        let already_selected: usize = self.bin_selected(bin);
        let held: usize = effective.saturating_add(already_selected);
        if !self.snapshot.limits.needs_more(bin, held) {
            proof {
                lemma_sated_bin_takes_nothing(
                    *self.snapshot,
                    *self.connected_peers,
                    *book,
                    self.max_candidates,
                    start,
                    super::peers::leading(
                        super::peers::dialable_in(
                            book.records@,
                            book.local,
                            book.max_po,
                            bin.raw as nat,
                        ),
                        quota(*self.snapshot, self.max_candidates, start, bin, effective),
                    ),
                    bin,
                    effective,
                );
            }
            return ;
        }
        let limit: usize = if self.snapshot.limits.depth.contains(bin) {
            self.remaining()
        } else {
            smaller_of(self.snapshot.limits.deficit(bin, held), self.remaining())
        };
        let peers: Vec<OverlayAddress> = book.dialable_overlays_in_bin(bin, limit);
        let mut i: usize = 0;
        while i < peers.len()
            invariant
                i <= peers.len(),
                self.wf(),
                bin.wf(),
                book.wf(),
                self.same_round(*old(self)),
                self.state() == offered_all(
                    *self.snapshot,
                    *self.connected_peers,
                    *book,
                    self.max_candidates,
                    start,
                    peers@.subrange(0, i as int),
                    bin,
                    effective,
                ),
            decreases peers.len() - i,
        {
            proof {
                assert(peers@.subrange(0, i + 1).drop_last() =~= peers@.subrange(0, i as int));
            }
            let _added: bool = self.try_add_with_bin_capacity(peers[i], bin, effective, book);
            i = i + 1;
        }
        proof {
            assert(peers@.subrange(0, i as int) =~= peers@);
        }
    }

    /// Give the bins from `high` down to `low` their turn, deepest first.
    fn serve_bins(&mut self, low: u8, high: u8, effective: &Vec<usize>, book: &PeerBook)
        requires
            old(self).wf(),
            high <= MAX_PO,
            effective.len() > high,
            book.wf(),
        ensures
            final(self).wf(),
            final(self).same_round(*old(self)),
            final(self).state() == bins_served(
                *old(self).snapshot,
                *old(self).connected_peers,
                *book,
                old(self).max_candidates,
                old(self).state(),
                low as int,
                high as int,
                effective@,
            ),
    {
        let mut next: u8 = high + 1;
        while next > low
            invariant
                next <= high + 1,
                high <= MAX_PO,
                effective.len() > high,
                self.wf(),
                book.wf(),
                self.same_round(*old(self)),
                bins_served(
                    *self.snapshot,
                    *self.connected_peers,
                    *book,
                    self.max_candidates,
                    self.state(),
                    low as int,
                    next - 1,
                    effective@,
                ) == bins_served(
                    *old(self).snapshot,
                    *old(self).connected_peers,
                    *book,
                    old(self).max_candidates,
                    old(self).state(),
                    low as int,
                    high as int,
                    effective@,
                ),
            decreases next,
        {
            if self.is_full() {
                proof {
                    lemma_full_selection_stays(
                        *self.snapshot,
                        *self.connected_peers,
                        *book,
                        self.max_candidates,
                        self.state(),
                        low as int,
                        next - 1,
                        effective@,
                    );
                }
                return ;
            }
            next = next - 1;
            self.serve_bin(Bin { raw: next }, effective[next as usize], book);
        }
    }
}

/// A bin that wants no more peers takes none of those offered.
proof fn lemma_sated_bin_takes_nothing(
    snapshot: CandidateSnapshot,
    connected: ProximityIndex,
    book: PeerBook,
    max: usize,
    state: Selected,
    peers: Seq<OverlayAddress>,
    bin: Bin,
    effective: usize,
)
    requires
        !snapshot.limits.limits.spec_needs_more(
            bin,
            snapshot.limits.depth,
            crate::arith::saturate(effective + state.1[bin.raw as int]),
        ),
    ensures
        offered_all(snapshot, connected, book, max, state, peers, bin, effective) == state,
    decreases peers.len(),
{
    if peers.len() > 0 {
        lemma_sated_bin_takes_nothing(
            snapshot,
            connected,
            book,
            max,
            state,
            peers.drop_last(),
            bin,
            effective,
        );
    }
}

proof fn lemma_full_offers(
    snapshot: CandidateSnapshot,
    connected: ProximityIndex,
    book: PeerBook,
    max: usize,
    state: Selected,
    peers: Seq<OverlayAddress>,
    bin: Bin,
    effective: usize,
)
    requires
        state.0.len() >= max,
    ensures
        offered_all(snapshot, connected, book, max, state, peers, bin, effective) == state,
    decreases peers.len(),
{
    if peers.len() > 0 {
        lemma_full_offers(
            snapshot,
            connected,
            book,
            max,
            state,
            peers.drop_last(),
            bin,
            effective,
        );
    }
}

/// A selection that used up its budget takes no more.
proof fn lemma_full_selection_stays(
    snapshot: CandidateSnapshot,
    connected: ProximityIndex,
    book: PeerBook,
    max: usize,
    state: Selected,
    low: int,
    high: int,
    effective: Seq<usize>,
)
    requires
        state.0.len() >= max,
    ensures
        bins_served(snapshot, connected, book, max, state, low, high, effective) == state,
    decreases high - low + 1,
{
    if high >= low && high >= 0 {
        let bin = Bin { raw: high as u8 };
        lemma_full_offers(
            snapshot,
            connected,
            book,
            max,
            state,
            super::peers::leading(
                super::peers::dialable_in(book.records@, book.local, book.max_po, bin.raw as nat),
                quota(snapshot, max, state, bin, effective[high]),
            ),
            bin,
            effective[high],
        );
        lemma_full_selection_stays(
            snapshot,
            connected,
            book,
            max,
            state,
            low,
            high - 1,
            effective,
        );
    }
}

/// Select candidates for the neighborhood bins, deepest first. `effective` is
/// how many peers each bin holds already.
pub fn select_neighborhood_candidates(
    selector: &mut CandidateSelector<'_>,
    book: &PeerBook,
    effective: &Vec<usize>,
    max_bin: Bin,
)
    requires
        old(selector).wf(),
        book.wf(),
        max_bin.wf(),
        effective.len() > max_bin.raw,
    ensures
        final(selector).wf(),
        final(selector).same_round(*old(selector)),
        final(selector).state() == bins_served(
            *old(selector).snapshot,
            *old(selector).connected_peers,
            *book,
            old(selector).max_candidates,
            old(selector).state(),
            old(selector).snapshot.limits.depth.raw as int,
            max_bin.raw as int,
            effective@,
        ),
{
    let depth: u8 = selector.snapshot().limits.depth.get();
    selector.serve_bins(depth, max_bin.get(), effective, book);
}

/// Select candidates for the balanced bins below the depth, deepest first,
/// each up to its deficit.
pub fn select_balanced_candidates(
    selector: &mut CandidateSelector<'_>,
    book: &PeerBook,
    effective: &Vec<usize>,
)
    requires
        old(selector).wf(),
        book.wf(),
        old(selector).snapshot.limits.depth.wf(),
        effective.len() >= old(selector).snapshot.limits.depth.raw,
    ensures
        final(selector).wf(),
        final(selector).same_round(*old(selector)),
        final(selector).state() == bins_served(
            *old(selector).snapshot,
            *old(selector).connected_peers,
            *book,
            old(selector).max_candidates,
            old(selector).state(),
            0,
            old(selector).snapshot.limits.depth.raw - 1,
            effective@,
        ),
{
    let depth: u8 = selector.snapshot().limits.depth.get();
    if depth == 0 {
        return ;
    }
    selector.serve_bins(0, depth - 1, effective, book);
}

/// What a selection state keeps: no candidate twice, none connected, each one
/// eligible, and no more of them than the budget.
pub open spec fn sound_selection(
    snapshot: CandidateSnapshot,
    connected: ProximityIndex,
    book: PeerBook,
    max: usize,
    state: Selected,
) -> bool {
    &&& state.0.len() <= max
    &&& state.0.no_duplicates()
    &&& forall|i: int|
        #![trigger state.0[i]]
        0 <= i < state.0.len() ==> !connected.holds(state.0[i]) && snapshot.eligible(
            book,
            state.0[i],
        )
}

proof fn lemma_offers_stay_sound(
    snapshot: CandidateSnapshot,
    connected: ProximityIndex,
    book: PeerBook,
    max: usize,
    state: Selected,
    peers: Seq<OverlayAddress>,
    bin: Bin,
    effective: usize,
)
    requires
        sound_selection(snapshot, connected, book, max, state),
    ensures
        sound_selection(
            snapshot,
            connected,
            book,
            max,
            offered_all(snapshot, connected, book, max, state, peers, bin, effective),
        ),
    decreases peers.len(),
{
    if peers.len() > 0 {
        lemma_offers_stay_sound(
            snapshot,
            connected,
            book,
            max,
            state,
            peers.drop_last(),
            bin,
            effective,
        );
    }
}

/// Whatever bins are served, a selection stays within its budget, names no
/// peer twice, and holds no peer that is connected, in progress, queued,
/// banned or in backoff.
pub proof fn selection_stays_sound(
    snapshot: CandidateSnapshot,
    connected: ProximityIndex,
    book: PeerBook,
    max: usize,
    state: Selected,
    low: int,
    high: int,
    effective: Seq<usize>,
)
    requires
        sound_selection(snapshot, connected, book, max, state),
    ensures
        sound_selection(
            snapshot,
            connected,
            book,
            max,
            bins_served(snapshot, connected, book, max, state, low, high, effective),
        ),
    decreases high - low + 1,
{
    if high >= low && high >= 0 {
        let bin = Bin { raw: high as u8 };
        lemma_offers_stay_sound(
            snapshot,
            connected,
            book,
            max,
            state,
            super::peers::leading(
                super::peers::dialable_in(book.records@, book.local, book.max_po, bin.raw as nat),
                quota(snapshot, max, state, bin, effective[high]),
            ),
            bin,
            effective[high],
        );
        selection_stays_sound(
            snapshot,
            connected,
            book,
            max,
            bin_served(snapshot, connected, book, max, state, bin, effective[high]),
            low,
            high - 1,
            effective,
        );
    }
}

/// How many of `peers` fall into `bin`.
pub open spec fn in_bin(
    peers: Seq<OverlayAddress>,
    base: OverlayAddress,
    max_po: u8,
    bin: int,
) -> nat
    decreases peers.len(),
{
    if peers.len() == 0 {
        0
    } else {
        in_bin(peers.drop_last(), base, max_po, bin) + if super::proximity_index::bin_of(
            base,
            max_po,
            peers.last(),
        ) == bin {
            1nat
        } else {
            0nat
        }
    }
}

/// How many of `peers` fall into bins deeper than `bin`.
pub open spec fn deeper_than(
    peers: Seq<OverlayAddress>,
    base: OverlayAddress,
    max_po: u8,
    bin: int,
) -> nat
    decreases peers.len(),
{
    if peers.len() == 0 {
        0
    } else {
        deeper_than(peers.drop_last(), base, max_po, bin) + if super::proximity_index::bin_of(
            base,
            max_po,
            peers.last(),
        ) > bin {
            1nat
        } else {
            0nat
        }
    }
}

/// The per-bin counts count the selected peers, and no bin is given peers past
/// its target.
pub open spec fn within_targets(
    snapshot: CandidateSnapshot,
    book: PeerBook,
    state: Selected,
    effective: Seq<usize>,
) -> bool {
    &&& state.1.len() == MAX_PO + 1
    &&& forall|b: int|
        #![trigger state.1[b]]
        0 <= b <= MAX_PO ==> state.1[b] == in_bin(state.0, book.local, book.max_po, b)
    &&& forall|b: int|
        #![trigger state.1[b]]
        0 <= b < effective.len() && b <= MAX_PO && state.1[b] > 0 ==> {
            let target = snapshot.limits.limits.spec_target(
                Bin { raw: b as u8 },
                snapshot.limits.depth,
            );
            target == usize::MAX || effective[b] + state.1[b] <= target
        }
}

/// `longer` begins with `shorter`.
spec fn extends(longer: Seq<OverlayAddress>, shorter: Seq<OverlayAddress>) -> bool {
    shorter.len() <= longer.len() && longer.subrange(0, shorter.len() as int) == shorter
}

proof fn lemma_extends_contains(
    longer: Seq<OverlayAddress>,
    shorter: Seq<OverlayAddress>,
    peer: OverlayAddress,
)
    requires
        extends(longer, shorter),
        shorter.contains(peer),
    ensures
        longer.contains(peer),
{
    let i = choose|i: int| 0 <= i < shorter.len() && shorter[i] == peer;
    assert(longer.subrange(0, shorter.len() as int)[i] == longer[i]);
    assert(longer[i] == peer);
}

/// What the turn of one bin does to a selection.
proof fn lemma_offers(
    snapshot: CandidateSnapshot,
    connected: ProximityIndex,
    book: PeerBook,
    max: usize,
    state: Selected,
    peers: Seq<OverlayAddress>,
    bin: Bin,
    effective: Seq<usize>,
)
    requires
        bin.raw <= MAX_PO,
        bin.raw < effective.len(),
        within_targets(snapshot, book, state, effective),
        state.0.len() <= max,
        forall|i: int|
            #![trigger peers[i]]
            0 <= i < peers.len() ==> super::proximity_index::bin_of(
                book.local,
                book.max_po,
                peers[i],
            ) == bin.raw,
    ensures
        ({
            let after = offered_all(
                snapshot,
                connected,
                book,
                max,
                state,
                peers,
                bin,
                effective[bin.raw as int],
            );
            &&& within_targets(snapshot, book, after, effective)
            &&& after.0.len() <= max
            &&& extends(after.0, state.0)
            &&& after.0.len() == state.0.len() + after.1[bin.raw as int] - state.1[bin.raw as int]
            &&& state.1[bin.raw as int] <= after.1[bin.raw as int]
            &&& forall|b: int|
                #![trigger after.1[b]]
                0 <= b <= MAX_PO && b != bin.raw ==> after.1[b] == state.1[b]
            &&& forall|k: int|
                #![trigger after.0[k]]
                state.0.len() <= k < after.0.len() ==> peers.contains(after.0[k])
            &&& forall|i: int|
                #![trigger peers[i]]
                0 <= i < peers.len() ==> {
                    ||| after.0.contains(peers[i])
                    ||| connected.holds(peers[i])
                    ||| !snapshot.eligible(book, peers[i])
                    ||| after.0.len() == max
                    ||| !snapshot.limits.limits.spec_needs_more(
                        bin,
                        snapshot.limits.depth,
                        crate::arith::saturate(
                            effective[bin.raw as int] + after.1[bin.raw as int],
                        ),
                    )
                }
        }),
    decreases peers.len(),
{
    let held = effective[bin.raw as int];
    let home = bin.raw as int;
    if peers.len() == 0 {
        assert(state.0.subrange(0, state.0.len() as int) =~= state.0);
    } else {
        let rest = peers.drop_last();
        assert forall|i: int| #![trigger rest[i]] 0 <= i < rest.len() implies
            super::proximity_index::bin_of(book.local, book.max_po, rest[i]) == bin.raw by {
            assert(rest[i] == peers[i]);
        }
        lemma_offers(snapshot, connected, book, max, state, rest, bin, effective);
        let mid = offered_all(snapshot, connected, book, max, state, rest, bin, held);
        let after = offered_all(snapshot, connected, book, max, state, peers, bin, held);
        let peer = peers.last();
        assert(peers[peers.len() - 1] == peer);
        assert(after == offered(snapshot, connected, book, max, mid, peer, bin, held));
        if takes(snapshot, connected, book, max, mid, peer, bin, held) {
            assert(after.0.drop_last() =~= mid.0);
            assert(mid.1[home] == in_bin(mid.0, book.local, book.max_po, home));
            lemma_in_bin_bounded(mid.0, book.local, book.max_po, home);
            assert(after.0.subrange(0, state.0.len() as int) =~= mid.0.subrange(
                0,
                state.0.len() as int,
            ));
            assert forall|b: int| #![trigger after.1[b]] 0 <= b <= MAX_PO implies after.1[b]
                == in_bin(after.0, book.local, book.max_po, b) by {
                assert(mid.1[b] == in_bin(mid.0, book.local, book.max_po, b));
            }
            assert forall|b: int|
                #![trigger after.1[b]]
                0 <= b < effective.len() && b <= MAX_PO && after.1[b] > 0 implies {
                let target = snapshot.limits.limits.spec_target(
                    Bin { raw: b as u8 },
                    snapshot.limits.depth,
                );
                target == usize::MAX || effective[b] + after.1[b] <= target
            } by {
                assert(mid.1[b] <= usize::MAX);
                if b == home {
                    assert(Bin { raw: b as u8 } == bin);
                }
            }
            assert(after.0[mid.0.len() as int] == peer);
            assert(after.0.contains(peer));
        }
        assert forall|k: int| #![trigger after.0[k]] state.0.len() <= k
            < after.0.len() implies peers.contains(after.0[k]) by {
            if k < mid.0.len() {
                assert(after.0[k] == mid.0[k]);
                assert(rest.contains(mid.0[k]));
                let m = choose|m: int| 0 <= m < rest.len() && rest[m] == mid.0[k];
                assert(peers[m] == mid.0[k]);
            } else {
                assert(peers[peers.len() - 1] == after.0[k]);
            }
        }
        assert forall|i: int| #![trigger peers[i]] 0 <= i < peers.len() implies {
            ||| after.0.contains(peers[i])
            ||| connected.holds(peers[i])
            ||| !snapshot.eligible(book, peers[i])
            ||| after.0.len() == max
            ||| !snapshot.limits.limits.spec_needs_more(
                bin,
                snapshot.limits.depth,
                crate::arith::saturate(held + after.1[home]),
            )
        } by {
            if i < rest.len() {
                assert(rest[i] == peers[i]);
                if mid.0.contains(peers[i]) {
                    let m = choose|m: int| 0 <= m < mid.0.len() && mid.0[m] == peers[i];
                    assert(after.0[m] == peers[i]);
                }
            }
        }
    }
}

proof fn lemma_in_bin_bounded(
    peers: Seq<OverlayAddress>,
    base: OverlayAddress,
    max_po: u8,
    bin: int,
)
    ensures
        in_bin(peers, base, max_po, bin) + deeper_than(peers, base, max_po, bin) <= peers.len(),
    decreases peers.len(),
{
    if peers.len() > 0 {
        lemma_in_bin_bounded(peers.drop_last(), base, max_po, bin);
    }
}

/// Peers that are added in bins no deeper than `bin` do not count as deeper.
proof fn lemma_deeper_stays(
    longer: Seq<OverlayAddress>,
    shorter: Seq<OverlayAddress>,
    base: OverlayAddress,
    max_po: u8,
    bin: int,
)
    requires
        extends(longer, shorter),
        forall|k: int|
            #![trigger longer[k]]
            shorter.len() <= k < longer.len() ==> super::proximity_index::bin_of(
                base,
                max_po,
                longer[k],
            ) <= bin,
    ensures
        deeper_than(longer, base, max_po, bin) == deeper_than(shorter, base, max_po, bin),
    decreases longer.len(),
{
    if longer.len() == shorter.len() {
        assert(longer =~= longer.subrange(0, shorter.len() as int));
    } else {
        let less = longer.drop_last();
        assert(less.subrange(0, shorter.len() as int) =~= longer.subrange(
            0,
            shorter.len() as int,
        ));
        assert forall|k: int| #![trigger less[k]] shorter.len() <= k < less.len() implies
            super::proximity_index::bin_of(base, max_po, less[k]) <= bin by {
            assert(less[k] == longer[k]);
        }
        lemma_deeper_stays(less, shorter, base, max_po, bin);
        assert(longer[longer.len() - 1] == longer.last());
    }
}

/// Peers that are all deeper than `bin` all count as deeper.
proof fn lemma_all_deeper(
    peers: Seq<OverlayAddress>,
    base: OverlayAddress,
    max_po: u8,
    bin: int,
)
    requires
        forall|k: int|
            #![trigger peers[k]]
            0 <= k < peers.len() ==> super::proximity_index::bin_of(base, max_po, peers[k]) > bin,
    ensures
        deeper_than(peers, base, max_po, bin) == peers.len(),
    decreases peers.len(),
{
    if peers.len() > 0 {
        let less = peers.drop_last();
        assert forall|k: int| #![trigger less[k]] 0 <= k < less.len() implies
            super::proximity_index::bin_of(base, max_po, less[k]) > bin by {
            assert(less[k] == peers[k]);
        }
        lemma_all_deeper(less, base, max_po, bin);
        assert(peers[peers.len() - 1] == peers.last());
    }
}

/// Whether `bin`, of which `held` connections are under way or up, was given
/// its due in the selection `chosen` of a round with `max` candidates: the
/// first dialable peers of the bin, as many as the budget left by deeper bins
/// allows and, below the depth, as the bin lacks, are chosen, but for those
/// that may not be dialed and for those past the budget or the bin's target.
pub open spec fn given_its_due(
    snapshot: CandidateSnapshot,
    connected: ProximityIndex,
    book: PeerBook,
    max: usize,
    chosen: Seq<OverlayAddress>,
    bin: Bin,
    held: usize,
) -> bool {
    let target = snapshot.limits.limits.spec_target(bin, snapshot.limits.depth);
    let row = super::peers::dialable_in(book.records@, book.local, book.max_po, bin.raw as nat);
    let own = in_bin(chosen, book.local, book.max_po, bin.raw as int);
    let deeper = deeper_than(chosen, book.local, book.max_po, bin.raw as int);
    forall|k: int|
        #![trigger row[k]]
        {
            &&& 0 <= k < row.len()
            &&& k < max - deeper
            &&& bin.raw < snapshot.limits.depth.raw ==> k < (if target < usize::MAX {
                target
            } else {
                super::limits::NEIGHBORHOOD_DEFICIT
            }) - held
        } ==> {
            ||| chosen.contains(row[k])
            ||| connected.holds(row[k])
            ||| !snapshot.eligible(book, row[k])
            ||| deeper + own == max
            ||| target < usize::MAX && held + own >= target
        }
}

/// What the turns of the bins from `high` down to `low` do to a selection that
/// holds peers of deeper bins only.
proof fn lemma_serving(
    snapshot: CandidateSnapshot,
    connected: ProximityIndex,
    book: PeerBook,
    max: usize,
    state: Selected,
    low: int,
    high: int,
    effective: Seq<usize>,
)
    requires
        0 <= low,
        high <= MAX_PO,
        high < effective.len(),
        within_targets(snapshot, book, state, effective),
        state.0.len() <= max,
        forall|k: int|
            #![trigger state.0[k]]
            0 <= k < state.0.len() ==> super::proximity_index::bin_of(
                book.local,
                book.max_po,
                state.0[k],
            ) > high,
    ensures
        ({
            let after = bins_served(snapshot, connected, book, max, state, low, high, effective);
            &&& within_targets(snapshot, book, after, effective)
            &&& after.0.len() <= max
            &&& extends(after.0, state.0)
            &&& forall|k: int|
                #![trigger after.0[k]]
                state.0.len() <= k < after.0.len() ==> {
                    let home = super::proximity_index::bin_of(
                        book.local,
                        book.max_po,
                        after.0[k],
                    );
                    &&& low <= home <= high
                    &&& super::peers::dialable_in(
                        book.records@,
                        book.local,
                        book.max_po,
                        home,
                    ).contains(after.0[k])
                }
            &&& forall|b: int|
                #![trigger effective[b]]
                low <= b <= high ==> given_its_due(
                    snapshot,
                    connected,
                    book,
                    max,
                    after.0,
                    Bin { raw: b as u8 },
                    effective[b],
                )
        }),
    decreases high - low + 1,
{
    if high < low || high < 0 {
        assert(state.0.subrange(0, state.0.len() as int) =~= state.0);
    } else {
        let bin = Bin { raw: high as u8 };
        let held = effective[high];
        let row = super::peers::dialable_in(book.records@, book.local, book.max_po, high as nat);
        let peers = super::peers::leading(row, quota(snapshot, max, state, bin, held));
        assert forall|i: int| #![trigger peers[i]] 0 <= i < peers.len() implies
            super::proximity_index::bin_of(book.local, book.max_po, peers[i]) == bin.raw
            && row.contains(peers[i]) by {
            assert(row[i] == peers[i]);
            assert(row.contains(row[i]));
            super::peers::dialable_peers_have_a_record(
                book.records@,
                book.local,
                book.max_po,
                high as nat,
                row[i],
            );
        }
        lemma_offers(snapshot, connected, book, max, state, peers, bin, effective);
        let mid = bin_served(snapshot, connected, book, max, state, bin, held);
        assert forall|k: int| #![trigger mid.0[k]] 0 <= k < mid.0.len() implies
            super::proximity_index::bin_of(book.local, book.max_po, mid.0[k]) > high - 1 && (k
            >= state.0.len() ==> super::proximity_index::bin_of(
            book.local,
            book.max_po,
            mid.0[k],
        ) == high && row.contains(mid.0[k])) by {
            if k < state.0.len() {
                assert(mid.0.subrange(0, state.0.len() as int)[k] == mid.0[k]);
                assert(state.0[k] == mid.0[k]);
            } else {
                assert(peers.contains(mid.0[k]));
                let m = choose|m: int| 0 <= m < peers.len() && peers[m] == mid.0[k];
                assert(peers[m] == mid.0[k]);
            }
        }
        lemma_serving(snapshot, connected, book, max, mid, low, high - 1, effective);
        let after = bins_served(snapshot, connected, book, max, state, low, high, effective);
        assert(after == bins_served(
            snapshot,
            connected,
            book,
            max,
            mid,
            low,
            high - 1,
            effective,
        ));
        assert(after.0.subrange(0, state.0.len() as int) =~= after.0.subrange(
            0,
            mid.0.len() as int,
        ).subrange(0, state.0.len() as int));
        assert forall|k: int|
            #![trigger after.0[k]]
            state.0.len() <= k < after.0.len() implies {
            let home = super::proximity_index::bin_of(book.local, book.max_po, after.0[k]);
            &&& low <= home <= high
            &&& super::peers::dialable_in(
                book.records@,
                book.local,
                book.max_po,
                home,
            ).contains(after.0[k])
        } by {
            if k < mid.0.len() {
                assert(after.0.subrange(0, mid.0.len() as int)[k] == after.0[k]);
                assert(mid.0[k] == after.0[k]);
            }
        }
        assert forall|b: int| #![trigger effective[b]] low <= b <= high implies given_its_due(
            snapshot,
            connected,
            book,
            max,
            after.0,
            Bin { raw: b as u8 },
            effective[b],
        ) by {
            if b == high {
                lemma_due_of_the_turn(
                    snapshot,
                    connected,
                    book,
                    max,
                    state,
                    mid,
                    after.0,
                    bin,
                    effective,
                );
            }
        }
    }
}

/// After the turn of `bin` took a selection from `state` to `mid`, and the
/// turns of shallower bins to `chosen`, the bin was given its due.
proof fn lemma_due_of_the_turn(
    snapshot: CandidateSnapshot,
    connected: ProximityIndex,
    book: PeerBook,
    max: usize,
    state: Selected,
    mid: Selected,
    chosen: Seq<OverlayAddress>,
    bin: Bin,
    effective: Seq<usize>,
)
    requires
        bin.raw <= MAX_PO,
        bin.raw < effective.len(),
        within_targets(snapshot, book, state, effective),
        state.0.len() <= max,
        forall|k: int|
            #![trigger state.0[k]]
            0 <= k < state.0.len() ==> super::proximity_index::bin_of(
                book.local,
                book.max_po,
                state.0[k],
            ) > bin.raw,
        mid == bin_served(
            snapshot,
            connected,
            book,
            max,
            state,
            bin,
            effective[bin.raw as int],
        ),
        extends(chosen, mid.0),
        chosen.len() <= max,
        forall|k: int|
            #![trigger chosen[k]]
            mid.0.len() <= k < chosen.len() ==> super::proximity_index::bin_of(
                book.local,
                book.max_po,
                chosen[k],
            ) < bin.raw,
    ensures
        given_its_due(
            snapshot,
            connected,
            book,
            max,
            chosen,
            bin,
            effective[bin.raw as int],
        ),
{
    let home = bin.raw as int;
    let held = effective[home];
    let row = super::peers::dialable_in(book.records@, book.local, book.max_po, home as nat);
    let peers = super::peers::leading(row, quota(snapshot, max, state, bin, held));
    let target = snapshot.limits.limits.spec_target(bin, snapshot.limits.depth);
    assert forall|i: int| #![trigger peers[i]] 0 <= i < peers.len() implies
        super::proximity_index::bin_of(book.local, book.max_po, peers[i]) == home by {
        assert(row[i] == peers[i]);
        assert(row.contains(row[i]));
        super::peers::dialable_peers_have_a_record(
            book.records@,
            book.local,
            book.max_po,
            home as nat,
            row[i],
        );
    }
    lemma_offers(snapshot, connected, book, max, state, peers, bin, effective);
    assert forall|k: int| #![trigger mid.0[k]] state.0.len() <= k < mid.0.len() implies
        super::proximity_index::bin_of(book.local, book.max_po, mid.0[k]) <= home by {
        assert(peers.contains(mid.0[k]));
        let m = choose|m: int| 0 <= m < peers.len() && peers[m] == mid.0[k];
        assert(peers[m] == mid.0[k]);
    }
    // The bin's own count, and that of the deeper bins, are settled with its turn.
    lemma_all_deeper(state.0, book.local, book.max_po, home);
    lemma_deeper_stays(mid.0, state.0, book.local, book.max_po, home);
    lemma_deeper_stays(chosen, mid.0, book.local, book.max_po, home);
    lemma_own_stays(chosen, mid.0, book.local, book.max_po, home);
    lemma_none_own(state.0, book.local, book.max_po, home);
    assert(mid.1[home] == in_bin(mid.0, book.local, book.max_po, home));
    assert(state.1[home] == in_bin(state.0, book.local, book.max_po, home));
    let own = in_bin(chosen, book.local, book.max_po, home);
    let deeper = deeper_than(chosen, book.local, book.max_po, home);
    assert(deeper == state.0.len());
    assert(own == mid.1[home]);
    assert forall|k: int|
        #![trigger row[k]]
        {
            &&& 0 <= k < row.len()
            &&& k < max - deeper
            &&& bin.raw < snapshot.limits.depth.raw ==> k < (if target < usize::MAX {
                target
            } else {
                super::limits::NEIGHBORHOOD_DEFICIT
            }) - held
        } implies {
        ||| chosen.contains(row[k])
        ||| connected.holds(row[k])
        ||| !snapshot.eligible(book, row[k])
        ||| deeper + own == max
        ||| target < usize::MAX && held + own >= target
    } by {
        if k < peers.len() {
            assert(peers[k] == row[k]);
            if mid.0.contains(peers[k]) {
                lemma_extends_contains(chosen, mid.0, peers[k]);
            }
        }
    }
}

proof fn lemma_own_stays(
    longer: Seq<OverlayAddress>,
    shorter: Seq<OverlayAddress>,
    base: OverlayAddress,
    max_po: u8,
    bin: int,
)
    requires
        extends(longer, shorter),
        forall|k: int|
            #![trigger longer[k]]
            shorter.len() <= k < longer.len() ==> super::proximity_index::bin_of(
                base,
                max_po,
                longer[k],
            ) != bin,
    ensures
        in_bin(longer, base, max_po, bin) == in_bin(shorter, base, max_po, bin),
    decreases longer.len(),
{
    if longer.len() == shorter.len() {
        assert(longer =~= longer.subrange(0, shorter.len() as int));
    } else {
        let less = longer.drop_last();
        assert(less.subrange(0, shorter.len() as int) =~= longer.subrange(
            0,
            shorter.len() as int,
        ));
        assert forall|k: int| #![trigger less[k]] shorter.len() <= k < less.len() implies
            super::proximity_index::bin_of(base, max_po, less[k]) != bin by {
            assert(less[k] == longer[k]);
        }
        lemma_own_stays(less, shorter, base, max_po, bin);
        assert(longer[longer.len() - 1] == longer.last());
    }
}

proof fn lemma_none_own(
    peers: Seq<OverlayAddress>,
    base: OverlayAddress,
    max_po: u8,
    bin: int,
)
    requires
        forall|k: int|
            #![trigger peers[k]]
            0 <= k < peers.len() ==> super::proximity_index::bin_of(base, max_po, peers[k]) != bin,
    ensures
        in_bin(peers, base, max_po, bin) == 0,
    decreases peers.len(),
{
    if peers.len() > 0 {
        let less = peers.drop_last();
        assert forall|k: int| #![trigger less[k]] 0 <= k < less.len() implies
            super::proximity_index::bin_of(base, max_po, less[k]) != bin by {
            assert(less[k] == peers[k]);
        }
        lemma_none_own(less, base, max_po, bin);
        assert(peers[peers.len() - 1] == peers.last());
    }
}

/// A selection that grew by peers of shallower bins gives a bin no less.
pub(crate) proof fn lemma_due_persists(
    snapshot: CandidateSnapshot,
    connected: ProximityIndex,
    book: PeerBook,
    max: usize,
    chosen: Seq<OverlayAddress>,
    grown: Seq<OverlayAddress>,
    bin: Bin,
    held: usize,
)
    requires
        given_its_due(snapshot, connected, book, max, chosen, bin, held),
        chosen.len() <= grown.len(),
        grown.subrange(0, chosen.len() as int) == chosen,
        forall|k: int|
            #![trigger grown[k]]
            chosen.len() <= k < grown.len() ==> super::proximity_index::bin_of(
                book.local,
                book.max_po,
                grown[k],
            ) < bin.raw,
    ensures
        given_its_due(snapshot, connected, book, max, grown, bin, held),
{
    let home = bin.raw as int;
    lemma_deeper_stays(grown, chosen, book.local, book.max_po, home);
    lemma_own_stays(grown, chosen, book.local, book.max_po, home);
    let row = super::peers::dialable_in(book.records@, book.local, book.max_po, bin.raw as nat);
    assert forall|k: int| #![trigger row[k]] 0 <= k < row.len() && chosen.contains(
        row[k],
    ) implies grown.contains(row[k]) by {
        lemma_extends_contains(grown, chosen, row[k]);
    }
}

/// A whole round: the bins from `depth` on, and then the bins below it.
pub(crate) proof fn lemma_round(
    snapshot: CandidateSnapshot,
    connected: ProximityIndex,
    book: PeerBook,
    max: usize,
    depth: int,
    high: int,
    effective: Seq<usize>,
)
    requires
        0 <= depth <= high + 1,
        high <= MAX_PO,
        effective.len() == MAX_PO + 1,
    ensures
        ({
            let start = (
                Seq::<OverlayAddress>::empty(),
                Seq::new((MAX_PO + 1) as nat, |b: int| 0usize),
            );
            let inner = bins_served(
                snapshot,
                connected,
                book,
                max,
                start,
                depth,
                high,
                effective,
            );
            let after = bins_served(
                snapshot,
                connected,
                book,
                max,
                inner,
                0,
                depth - 1,
                effective,
            );
            &&& within_targets(snapshot, book, after, effective)
            &&& sound_selection(snapshot, connected, book, max, after)
            &&& forall|k: int|
                #![trigger after.0[k]]
                0 <= k < after.0.len() ==> super::peers::dialable_in(
                    book.records@,
                    book.local,
                    book.max_po,
                    super::proximity_index::bin_of(book.local, book.max_po, after.0[k]),
                ).contains(after.0[k])
            &&& forall|b: int|
                #![trigger effective[b]]
                0 <= b <= high ==> given_its_due(
                    snapshot,
                    connected,
                    book,
                    max,
                    after.0,
                    Bin { raw: b as u8 },
                    effective[b],
                )
        }),
{
    let start = (
        Seq::<OverlayAddress>::empty(),
        Seq::new((MAX_PO + 1) as nat, |b: int| 0usize),
    );
    lemma_serving(snapshot, connected, book, max, start, depth, high, effective);
    let inner = bins_served(snapshot, connected, book, max, start, depth, high, effective);
    assert forall|k: int| #![trigger inner.0[k]] 0 <= k < inner.0.len() implies
        super::proximity_index::bin_of(book.local, book.max_po, inner.0[k]) > depth - 1 by {}
    lemma_serving(snapshot, connected, book, max, inner, 0, depth - 1, effective);
    let after = bins_served(snapshot, connected, book, max, inner, 0, depth - 1, effective);
    selection_stays_sound(snapshot, connected, book, max, start, depth, high, effective);
    selection_stays_sound(snapshot, connected, book, max, inner, 0, depth - 1, effective);
    assert forall|k: int| #![trigger after.0[k]] 0 <= k < after.0.len() implies
        super::peers::dialable_in(
        book.records@,
        book.local,
        book.max_po,
        super::proximity_index::bin_of(book.local, book.max_po, after.0[k]),
    ).contains(after.0[k]) by {
        if k < inner.0.len() {
            assert(after.0.subrange(0, inner.0.len() as int)[k] == after.0[k]);
            assert(inner.0[k] == after.0[k]);
        }
    }
    assert forall|b: int| #![trigger effective[b]] 0 <= b <= high implies given_its_due(
        snapshot,
        connected,
        book,
        max,
        after.0,
        Bin { raw: b as u8 },
        effective[b],
    ) by {
        if b >= depth {
            lemma_due_persists(
                snapshot,
                connected,
                book,
                max,
                inner.0,
                after.0,
                Bin { raw: b as u8 },
                effective[b],
            );
        }
    }
}

/// Distinct peers of one bin that are all among `peers` are no more than
/// `peers` has of that bin.
pub(crate) proof fn lemma_distinct_in_bin(
    named: Seq<OverlayAddress>,
    peers: Seq<OverlayAddress>,
    base: OverlayAddress,
    max_po: u8,
    bin: int,
)
    requires
        named.no_duplicates(),
        forall|i: int|
            #![trigger named[i]]
            0 <= i < named.len() ==> peers.contains(named[i]) && super::proximity_index::bin_of(
                base,
                max_po,
                named[i],
            ) == bin,
    ensures
        named.len() <= in_bin(peers, base, max_po, bin),
    decreases peers.len(),
{
    if named.len() > 0 {
        assert(peers.contains(named[0]));
        let less = peers.drop_last();
        let last = peers.last();
        if named.contains(last) {
            let at = choose|at: int| 0 <= at < named.len() && named[at] == last;
            let fewer = named.remove(at);
            assert forall|i: int| #![trigger fewer[i]] 0 <= i < fewer.len() implies less.contains(
                fewer[i],
            ) && super::proximity_index::bin_of(base, max_po, fewer[i]) == bin by {
                let i0 = if i < at {
                    i
                } else {
                    i + 1
                };
                assert(fewer[i] == named[i0]);
                let k = choose|k: int| 0 <= k < peers.len() && peers[k] == named[i0];
                assert(k < peers.len() - 1);
                assert(less[k] == named[i0]);
            }
            assert(fewer.no_duplicates()) by {
                assert forall|i: int, j: int| 0 <= i < fewer.len() && 0 <= j < fewer.len() && i
                    != j implies fewer[i] != fewer[j] by {
                    let i0 = if i < at {
                        i
                    } else {
                        i + 1
                    };
                    let j0 = if j < at {
                        j
                    } else {
                        j + 1
                    };
                    assert(fewer[i] == named[i0] && fewer[j] == named[j0]);
                }
            }
            lemma_distinct_in_bin(fewer, less, base, max_po, bin);
        } else {
            assert forall|i: int| #![trigger named[i]] 0 <= i < named.len() implies less.contains(
                named[i],
            ) by {
                let k = choose|k: int| 0 <= k < peers.len() && peers[k] == named[i];
                assert(named.contains(named[i]));
                assert(k < peers.len() - 1);
                assert(less[k] == named[i]);
            }
            lemma_distinct_in_bin(named, less, base, max_po, bin);
        }
    }
}

/// A peer is taken exactly where nothing speaks against it: there is budget
/// left, it is neither connected nor being connected nor waiting nor taken
/// already, the book says neither that it is banned nor that it is in backoff,
/// and its bin, with what was taken for it, is below its target or unbounded.
pub proof fn a_peer_is_taken_unless_something_speaks_against_it(
    snapshot: CandidateSnapshot,
    connected: ProximityIndex,
    book: PeerBook,
    max: usize,
    state: Selected,
    peer: OverlayAddress,
    bin: Bin,
    effective: usize,
)
    requires
        effective + state.1[bin.raw as int] <= usize::MAX,
    ensures
        takes(snapshot, connected, book, max, state, peer, bin, effective) <==> {
            let target = snapshot.limits.limits.spec_target(bin, snapshot.limits.depth);
            let barred = match book.lookup(peer) {
                Some(record) => record.banned || record.in_backoff,
                None => false,
            };
            &&& state.0.len() < max
            &&& !connected.contents()[connected.bin_of(peer) as int].contains(peer)
            &&& !snapshot.in_progress@.contains(peer)
            &&& !snapshot.queued@.contains(peer)
            &&& !state.0.contains(peer)
            &&& !barred
            &&& target == usize::MAX || effective + state.1[bin.raw as int] < target
        },
        takes(snapshot, connected, book, max, state, peer, bin, effective) ==> offered(
            snapshot,
            connected,
            book,
            max,
            state,
            peer,
            bin,
            effective,
        ).0 == state.0.push(peer),
        !takes(snapshot, connected, book, max, state, peer, bin, effective) ==> offered(
            snapshot,
            connected,
            book,
            max,
            state,
            peer,
            bin,
            effective,
        ) == state,
{
}

} // verus!
