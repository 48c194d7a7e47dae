//! What the node knows about its peers.

use super::proximity_index::bin_for;
use crate::primitives::{Bin, OverlayAddress, SwarmNodeType, MAX_PO};
use vstd::prelude::*;

verus! {

/// One known peer.
#[derive(Clone, Copy, Debug, PartialEq, Eq, Structural)]
pub struct PeerRecord {
    pub overlay: OverlayAddress,
    /// The node type the handshake confirmed, if there was one.
    pub node_type: Option<SwarmNodeType>,
    /// The peer's score as an ordering key: lower is worse, zero is neutral.
    pub score: i64,
    /// The peer is banned.
    pub banned: bool,
    /// The peer waits out a dial backoff.
    pub in_backoff: bool,
    /// The peer's signed addresses are on file, so it can be gossiped about.
    pub addressed: bool,
}

impl PeerRecord {
    /// A peer that was discovered and not connected to yet.
    pub fn discovered(overlay: OverlayAddress) -> (record: PeerRecord)
        ensures
            record == (PeerRecord {
                overlay,
                node_type: None,
                score: 0,
                banned: false,
                in_backoff: false,
                addressed: true,
            }),
    {
        PeerRecord {
            overlay,
            node_type: None,
            score: 0,
            banned: false,
            in_backoff: false,
            addressed: true,
        }
    }

    /// Whether the peer may be dialed.
    pub open spec fn dialable(self) -> bool {
        !self.banned && !self.in_backoff
    }

    /// Whether the peer is known to store chunks.
    pub open spec fn stores(self) -> bool {
        self.node_type == Some(SwarmNodeType::Storer)
    }
}

/// `i` is where `overlay` stands in `records`.
pub open spec fn record_at(records: Seq<PeerRecord>, overlay: OverlayAddress, i: int) -> bool {
    0 <= i < records.len() && records[i].overlay == overlay
}

/// The record of `overlay`, if there is one.
pub open spec fn record_of(records: Seq<PeerRecord>, overlay: OverlayAddress) -> Option<
    PeerRecord,
> {
    if exists|i: int| record_at(records, overlay, i) {
        Some(records[choose|i: int| record_at(records, overlay, i)])
    } else {
        None
    }
}

/// No peer has two records.
pub open spec fn distinct_records(records: Seq<PeerRecord>) -> bool {
    forall|i: int, j: int|
        #![trigger records[i], records[j]]
        0 <= i < records.len() && 0 <= j < records.len() && records[i].overlay
            == records[j].overlay ==> i == j
}

proof fn lemma_record_here(records: Seq<PeerRecord>, i: int)
    requires
        distinct_records(records),
        0 <= i < records.len(),
    ensures
        record_of(records, records[i].overlay) == Some(records[i]),
{
    let overlay = records[i].overlay;
    assert(record_at(records, overlay, i));
    let k = choose|k: int| record_at(records, overlay, k);
    assert(records[k].overlay == records[i].overlay);
}

proof fn lemma_record_after_update(
    records: Seq<PeerRecord>,
    at: int,
    record: PeerRecord,
    other: OverlayAddress,
)
    requires
        distinct_records(records),
        0 <= at < records.len(),
        records[at].overlay == record.overlay,
    ensures
        record_of(records.update(at, record), other) == if other == record.overlay {
            Some(record)
        } else {
            record_of(records, other)
        },
{
    let after = records.update(at, record);
    assert(distinct_records(after)) by {
        assert forall|i: int, j: int|
            #![trigger after[i], after[j]]
            0 <= i < after.len() && 0 <= j < after.len() && after[i].overlay
                == after[j].overlay implies i == j by {
            assert(after[i].overlay == records[i].overlay);
            assert(after[j].overlay == records[j].overlay);
        }
    }
    if other == record.overlay {
        lemma_record_here(after, at);
    } else if exists|i: int| record_at(records, other, i) {
        let i = choose|i: int| record_at(records, other, i);
        assert(after[i] == records[i]);
        lemma_record_here(records, i);
        lemma_record_here(after, i);
    } else if exists|i: int| record_at(after, other, i) {
        let i = choose|i: int| record_at(after, other, i);
        assert(record_at(records, other, i));
    }
}

proof fn lemma_record_after_push(
    records: Seq<PeerRecord>,
    record: PeerRecord,
    other: OverlayAddress,
)
    requires
        distinct_records(records),
        record_of(records, record.overlay) is None,
    ensures
        record_of(records.push(record), other) == if other == record.overlay {
            Some(record)
        } else {
            record_of(records, other)
        },
{
    let after = records.push(record);
    let last = records.len() as int;
    assert(distinct_records(after)) by {
        assert forall|i: int, j: int|
            #![trigger after[i], after[j]]
            0 <= i < after.len() && 0 <= j < after.len() && after[i].overlay
                == after[j].overlay implies i == j by {
            if i < last {
                assert(!record_at(records, record.overlay, i));
                assert(records[i] == after[i]);
            }
            if j < last {
                assert(!record_at(records, record.overlay, j));
                assert(records[j] == after[j]);
            }
        }
    }
    if other == record.overlay {
        lemma_record_here(after, last);
    } else if exists|i: int| record_at(records, other, i) {
        let i = choose|i: int| record_at(records, other, i);
        assert(after[i] == records[i]);
        lemma_record_here(records, i);
        lemma_record_here(after, i);
    } else if exists|i: int| record_at(after, other, i) {
        let i = choose|i: int| record_at(after, other, i);
        assert(record_at(records, other, i));
    }
}

/// The overlays of the records in `bin` that may be dialed, in book order.
pub open spec fn dialable_in(
    records: Seq<PeerRecord>,
    base: OverlayAddress,
    max_po: u8,
    bin: nat,
) -> Seq<OverlayAddress>
    decreases records.len(),
{
    if records.len() == 0 {
        Seq::empty()
    } else {
        let rest = dialable_in(records.drop_last(), base, max_po, bin);
        let last = records.last();
        if last.dialable() && super::proximity_index::bin_of(base, max_po, last.overlay) == bin {
            rest.push(last.overlay)
        } else {
            rest
        }
    }
}

/// The overlays of the records in `bin` that store chunks, in book order.
pub open spec fn storers_in(
    records: Seq<PeerRecord>,
    base: OverlayAddress,
    max_po: u8,
    bin: nat,
) -> Seq<OverlayAddress>
    decreases records.len(),
{
    if records.len() == 0 {
        Seq::empty()
    } else {
        let rest = storers_in(records.drop_last(), base, max_po, bin);
        let last = records.last();
        if last.stores() && super::proximity_index::bin_of(base, max_po, last.overlay) == bin {
            rest.push(last.overlay)
        } else {
            rest
        }
    }
}

/// How many records fall into `bin`.
pub open spec fn known_in(
    records: Seq<PeerRecord>,
    base: OverlayAddress,
    max_po: u8,
    bin: nat,
) -> nat
    decreases records.len(),
{
    if records.len() == 0 {
        0
    } else {
        known_in(records.drop_last(), base, max_po, bin) + if super::proximity_index::bin_of(
            base,
            max_po,
            records.last().overlay,
        ) == bin {
            1nat
        } else {
            0nat
        }
    }
}

/// The first `n` of `peers`, or all of them.
pub open spec fn leading(peers: Seq<OverlayAddress>, n: nat) -> Seq<OverlayAddress> {
    if peers.len() <= n {
        peers
    } else {
        peers.subrange(0, n as int)
    }
}

/// The peers a node knows, with what it knows about each.
#[derive(Debug)]
pub struct PeerBook {
    pub local: OverlayAddress,
    pub max_po: u8,
    pub records: Vec<PeerRecord>,
}

impl PeerBook {
    /// No peer has two records.
    pub open spec fn wf(self) -> bool {
        &&& self.max_po <= MAX_PO
        &&& distinct_records(self.records@)
    }

    /// What is known about `overlay`.
    pub open spec fn lookup(self, overlay: OverlayAddress) -> Option<PeerRecord> {
        record_of(self.records@, overlay)
    }

    /// A book without peers, for the node at `local`.
    pub fn new(local: OverlayAddress, max_po: u8) -> (book: PeerBook)
        requires
            max_po <= MAX_PO,
        ensures
            book.wf(),
            book.local == local,
            book.max_po == max_po,
            book.records@.len() == 0,
    {
        PeerBook { local, max_po, records: Vec::new() }
    }

    fn position(&self, overlay: &OverlayAddress) -> (at: Option<usize>)
        ensures
            at matches Some(i) ==> record_at(self.records@, *overlay, i as int),
            at is None ==> forall|i: int| !record_at(self.records@, *overlay, i),
    {
        let mut i: usize = 0;
        while i < self.records.len()
            invariant
                i <= self.records.len(),
                forall|j: int| 0 <= j < i ==> self.records@[j].overlay != *overlay,
            decreases self.records.len() - i,
        {
            if self.records[i].overlay == *overlay {
                return Some(i);
            }
            i = i + 1;
        }
        None
    }

    /// What is known about `overlay`.
    pub fn get(&self, overlay: &OverlayAddress) -> (record: Option<PeerRecord>)
        requires
            self.wf(),
        ensures
            record == self.lookup(*overlay),
    {
        match self.position(overlay) {
            Some(i) => {
                proof {
                    let c = choose|c: int| record_at(self.records@, *overlay, c);
                    assert(record_at(self.records@, *overlay, i as int));
                    assert(self.records@[c].overlay == self.records@[i as int].overlay);
                }
                Some(self.records[i])
            },
            None => None,
        }
    }

    /// Record what is known about a peer, in place of what was known before.
    pub fn store(&mut self, record: PeerRecord)
        requires
            old(self).wf(),
        ensures
            final(self).wf(),
            final(self).local == old(self).local,
            final(self).max_po == old(self).max_po,
            forall|i: int|
                #![trigger old(self).records@[i]]
                record_at(old(self).records@, record.overlay, i) ==> final(self).records@ == old(
                    self,
                ).records@.update(i, record),
            old(self).lookup(record.overlay) is None ==> final(self).records@ == old(
                self,
            ).records@.push(record),
            forall|other: OverlayAddress| #[trigger]
                final(self).lookup(other) == if other == record.overlay {
                    Some(record)
                } else {
                    old(self).lookup(other)
                },
    {
        match self.position(&record.overlay) {
            Some(i) => {
                proof {
                    assert(record_at(self.records@, record.overlay, i as int));
                }
                self.records.set(i, record);
                proof {
                    let before = old(self).records@;
                    let after = self.records@;
                    assert forall|other: OverlayAddress| #[trigger]
                        self.lookup(other) == if other == record.overlay {
                            Some(record)
                        } else {
                            old(self).lookup(other)
                        } by {
                        lemma_record_after_update(before, i as int, record, other);
                    }
                    assert forall|a: int, b: int|
                        #![trigger after[a], after[b]]
                        0 <= a < after.len() && 0 <= b < after.len() && after[a].overlay
                            == after[b].overlay implies a == b by {
                        assert(before[a].overlay == after[a].overlay);
                        assert(before[b].overlay == after[b].overlay);
                    }
                }
            },
            None => {
                self.records.push(record);
                proof {
                    let before = old(self).records@;
                    let after = self.records@;
                    assert forall|other: OverlayAddress| #[trigger]
                        self.lookup(other) == if other == record.overlay {
                            Some(record)
                        } else {
                            old(self).lookup(other)
                        } by {
                        lemma_record_after_push(before, record, other);
                    }
                    assert forall|a: int, b: int|
                        #![trigger after[a], after[b]]
                        0 <= a < after.len() && 0 <= b < after.len() && after[a].overlay
                            == after[b].overlay implies a == b by {
                        if a < before.len() {
                            assert(!record_at(before, record.overlay, a));
                            assert(before[a] == after[a]);
                        }
                        if b < before.len() {
                            assert(!record_at(before, record.overlay, b));
                            assert(before[b] == after[b]);
                        }
                    }
                }
            },
        }
    }

    /// The peer's score, neutral for a peer that is not known.
    pub fn get_peer_score(&self, overlay: &OverlayAddress) -> (score: i64)
        requires
            self.wf(),
        ensures
            score == (match self.lookup(*overlay) {
                Some(record) => record.score,
                None => 0,
            }),
    {
        match self.get(overlay) {
            Some(record) => record.score,
            None => 0,
        }
    }

    /// Whether the peer is banned.
    pub fn is_banned(&self, overlay: &OverlayAddress) -> (banned: bool)
        requires
            self.wf(),
        ensures
            banned == (self.lookup(*overlay) matches Some(record) && record.banned),
    {
        match self.get(overlay) {
            Some(record) => record.banned,
            None => false,
        }
    }

    /// Whether the peer waits out a dial backoff.
    pub fn peer_is_in_backoff(&self, overlay: &OverlayAddress) -> (waiting: bool)
        requires
            self.wf(),
        ensures
            waiting == (self.lookup(*overlay) matches Some(record) && record.in_backoff),
    {
        match self.get(overlay) {
            Some(record) => record.in_backoff,
            None => false,
        }
    }

    /// The peer's handshake-confirmed node type.
    pub fn node_type(&self, overlay: &OverlayAddress) -> (node_type: Option<SwarmNodeType>)
        requires
            self.wf(),
        ensures
            node_type == (match self.lookup(*overlay) {
                Some(record) => record.node_type,
                None => None,
            }),
    {
        match self.get(overlay) {
            Some(record) => record.node_type,
            None => None,
        }
    }

    /// How many peers are known.
    pub fn len(&self) -> (n: usize)
        ensures
            n == self.records.len(),
    {
        self.records.len()
    }

    /// How many known peers fall into `bin`.
    pub fn bin_size(&self, bin: Bin) -> (n: usize)
        requires
            self.wf(),
        ensures
            n == known_in(self.records@, self.local, self.max_po, bin.raw as nat),
    {
        let mut n: usize = 0;
        let mut i: usize = 0;
        while i < self.records.len()
            invariant
                self.wf(),
                i <= self.records.len(),
                n <= i,
                n == known_in(
                    self.records@.subrange(0, i as int),
                    self.local,
                    self.max_po,
                    bin.raw as nat,
                ),
            decreases self.records.len() - i,
        {
            proof {
                assert(self.records@.subrange(0, i + 1).drop_last() =~= self.records@.subrange(
                    0,
                    i as int,
                ));
            }
            if bin_for(&self.local, self.max_po, &self.records[i].overlay).raw == bin.raw {
                n = n + 1;
            }
            i = i + 1;
        }
        proof {
            assert(self.records@.subrange(0, i as int) =~= self.records@);
        }
        n
    }

    /// How many known peers fall into each bin, shallowest first.
    pub fn bin_sizes(&self) -> (sizes: Vec<usize>)
        requires
            self.wf(),
        ensures
            sizes.len() == self.max_po + 1,
            forall|b: int|
                0 <= b < sizes.len() ==> sizes@[b] == known_in(
                    self.records@,
                    self.local,
                    self.max_po,
                    b as nat,
                ),
    {
        let mut sizes: Vec<usize> = Vec::new();
        let mut b: u8 = 0;
        while b <= self.max_po
            invariant
                self.wf(),
                b <= self.max_po + 1,
                sizes.len() == b,
                forall|c: int|
                    0 <= c < b ==> sizes@[c] == known_in(
                        self.records@,
                        self.local,
                        self.max_po,
                        c as nat,
                    ),
            decreases self.max_po + 1 - b,
        {
            sizes.push(self.bin_size(Bin { raw: b }));
            b = b + 1;
        }
        sizes
    }

    /// The first `limit` peers of `bin` that may be dialed.
    pub fn dialable_overlays_in_bin(&self, bin: Bin, limit: usize) -> (peers: Vec<OverlayAddress>)
        requires
            self.wf(),
        ensures
            peers@ == leading(
                dialable_in(self.records@, self.local, self.max_po, bin.raw as nat),
                limit as nat,
            ),
    {
        let mut peers: Vec<OverlayAddress> = Vec::new();
        let mut i: usize = 0;
        while i < self.records.len()
            invariant
                self.wf(),
                i <= self.records.len(),
                peers@ == dialable_in(
                    self.records@.subrange(0, i as int),
                    self.local,
                    self.max_po,
                    bin.raw as nat,
                ),
            decreases self.records.len() - i,
        {
            proof {
                assert(self.records@.subrange(0, i + 1).drop_last() =~= self.records@.subrange(
                    0,
                    i as int,
                ));
            }
            let record: PeerRecord = self.records[i];
            if !record.banned && !record.in_backoff && bin_for(
                &self.local,
                self.max_po,
                &record.overlay,
            ).raw == bin.raw {
                peers.push(record.overlay);
            }
            i = i + 1;
        }
        proof {
            assert(self.records@.subrange(0, i as int) =~= self.records@);
        }
        if peers.len() > limit {
            peers.truncate(limit);
        }
        peers
    }

    /// The known storers of `bin`.
    pub fn storer_overlays_in_bin(&self, bin: Bin) -> (peers: Vec<OverlayAddress>)
        requires
            self.wf(),
        ensures
            peers@ == storers_in(self.records@, self.local, self.max_po, bin.raw as nat),
    {
        let mut peers: Vec<OverlayAddress> = Vec::new();
        let mut i: usize = 0;
        while i < self.records.len()
            invariant
                self.wf(),
                i <= self.records.len(),
                peers@ == storers_in(
                    self.records@.subrange(0, i as int),
                    self.local,
                    self.max_po,
                    bin.raw as nat,
                ),
            decreases self.records.len() - i,
        {
            proof {
                assert(self.records@.subrange(0, i + 1).drop_last() =~= self.records@.subrange(
                    0,
                    i as int,
                ));
            }
            let record: PeerRecord = self.records[i];
            if record.node_type == Some(SwarmNodeType::Storer) && bin_for(
                &self.local,
                self.max_po,
                &record.overlay,
            ).raw == bin.raw {
                peers.push(record.overlay);
            }
            i = i + 1;
        }
        proof {
            assert(self.records@.subrange(0, i as int) =~= self.records@);
        }
        peers
    }
}

/// Every overlay that may be dialed in `bin` is known, may be dialed and
/// falls into `bin`.
pub proof fn lemma_dialable_in(
    records: Seq<PeerRecord>,
    base: OverlayAddress,
    max_po: u8,
    bin: nat,
    overlay: OverlayAddress,
)
    ensures
        dialable_in(records, base, max_po, bin).contains(overlay) <==> exists|i: int|
            #![trigger records[i]]
            0 <= i < records.len() && records[i].overlay == overlay && records[i].dialable()
                && super::proximity_index::bin_of(base, max_po, overlay) == bin,
    decreases records.len(),
{
    if records.len() > 0 {
        let rest = records.drop_last();
        lemma_dialable_in(rest, base, max_po, bin, overlay);
        let shorter = dialable_in(rest, base, max_po, bin);
        let all = dialable_in(records, base, max_po, bin);
        let last = records.last();
        let taken = last.dialable() && super::proximity_index::bin_of(base, max_po, last.overlay)
            == bin;
        if all.contains(overlay) {
            let i = choose|i: int| 0 <= i < all.len() && all[i] == overlay;
            if taken && i == shorter.len() {
                assert(records[records.len() - 1].overlay == overlay);
            } else {
                assert(shorter[i] == overlay);
                let k = choose|k: int|
                    #![trigger rest[k]]
                    0 <= k < rest.len() && rest[k].overlay == overlay && rest[k].dialable()
                        && super::proximity_index::bin_of(base, max_po, overlay) == bin;
                assert(records[k] == rest[k]);
            }
        }
        if exists|i: int|
            #![trigger records[i]]
            0 <= i < records.len() && records[i].overlay == overlay && records[i].dialable()
                && super::proximity_index::bin_of(base, max_po, overlay) == bin {
            let i = choose|i: int|
                #![trigger records[i]]
                0 <= i < records.len() && records[i].overlay == overlay && records[i].dialable()
                    && super::proximity_index::bin_of(base, max_po, overlay) == bin;
            if i < rest.len() {
                assert(rest[i] == records[i]);
                let k = choose|k: int| 0 <= k < shorter.len() && shorter[k] == overlay;
                assert(all[k] == overlay);
            } else {
                assert(all[shorter.len() as int] == overlay);
            }
        }
    }
}

/// A peer is among the dialable ones of a bin exactly when it has a record
/// there that is neither banned nor in backoff.
pub proof fn dialable_peers_have_a_record(
    records: Seq<PeerRecord>,
    base: OverlayAddress,
    max_po: u8,
    bin: nat,
    peer: OverlayAddress,
)
    ensures
        dialable_in(records, base, max_po, bin).contains(peer) <==> exists|i: int|
            #![trigger records[i]]
            {
                &&& 0 <= i < records.len()
                &&& records[i].overlay == peer
                &&& !records[i].banned
                &&& !records[i].in_backoff
                &&& super::proximity_index::bin_of(base, max_po, peer) == bin
            },
    decreases records.len(),
{
    if records.len() > 0 {
        let rest = records.drop_last();
        dialable_peers_have_a_record(rest, base, max_po, bin, peer);
        let before = dialable_in(rest, base, max_po, bin);
        let all = dialable_in(records, base, max_po, bin);
        let last = records.last();
        let fits = |r: PeerRecord|
            r.overlay == peer && !r.banned && !r.in_backoff && super::proximity_index::bin_of(
                base,
                max_po,
                peer,
            ) == bin;
        if all.contains(peer) {
            let k = choose|k: int| 0 <= k < all.len() && all[k] == peer;
            if k < before.len() {
                assert(before[k] == peer);
                let i = choose|i: int|
                    #![trigger rest[i]]
                    0 <= i < rest.len() && fits(rest[i]);
                assert(records[i] == rest[i]);
            } else {
                assert(records[records.len() - 1] == last);
            }
        }
        if exists|i: int| #![trigger records[i]] 0 <= i < records.len() && fits(records[i]) {
            let i = choose|i: int|
                #![trigger records[i]]
                0 <= i < records.len() && fits(records[i]);
            if i < rest.len() {
                assert(rest[i] == records[i]);
                assert(before.contains(peer));
                let k = choose|k: int| 0 <= k < before.len() && before[k] == peer;
                assert(all[k] == peer);
            } else {
                assert(all[all.len() - 1] == peer);
            }
        }
    }
}

/// One more record joins the end of the dialable peers of its bin where it is
/// neither banned nor in backoff, the end of the storers of its bin where it
/// stores chunks, and the count of its bin in any event; it joins no other bin.
pub proof fn a_record_joins_its_bin(
    records: Seq<PeerRecord>,
    record: PeerRecord,
    base: OverlayAddress,
    max_po: u8,
    bin: nat,
)
    ensures
        ({
            let home = super::proximity_index::bin_of(base, max_po, record.overlay) == bin;
            let all = records.push(record);
            &&& dialable_in(all, base, max_po, bin) == if home && !record.banned
                && !record.in_backoff {
                dialable_in(records, base, max_po, bin).push(record.overlay)
            } else {
                dialable_in(records, base, max_po, bin)
            }
            &&& storers_in(all, base, max_po, bin) == if home && record.node_type == Some(
                SwarmNodeType::Storer,
            ) {
                storers_in(records, base, max_po, bin).push(record.overlay)
            } else {
                storers_in(records, base, max_po, bin)
            }
            &&& known_in(all, base, max_po, bin) == known_in(records, base, max_po, bin) + (
            if home {
                1int
            } else {
                0int
            })
        }),
        dialable_in(Seq::empty(), base, max_po, bin) == Seq::<OverlayAddress>::empty(),
        storers_in(Seq::empty(), base, max_po, bin) == Seq::<OverlayAddress>::empty(),
        known_in(Seq::empty(), base, max_po, bin) == 0,
{
    assert(records.push(record).drop_last() =~= records);
}

/// What is looked up of a peer is its record in the book, and nothing where it
/// has none.
pub proof fn lookup_finds_the_record(book: PeerBook, overlay: OverlayAddress)
    requires
        book.wf(),
    ensures
        forall|i: int|
            #![trigger book.records@[i]]
            0 <= i < book.records.len() && book.records@[i].overlay == overlay ==> book.lookup(
                overlay,
            ) == Some(book.records@[i]),
        (forall|i: int|
            #![trigger book.records@[i]]
            0 <= i < book.records.len() ==> book.records@[i].overlay != overlay) ==> book.lookup(
            overlay,
        ) is None,
{
    assert forall|i: int|
        #![trigger book.records@[i]]
        0 <= i < book.records.len() && book.records@[i].overlay == overlay implies book.lookup(
        overlay,
    ) == Some(book.records@[i]) by {
        lemma_record_here(book.records@, i);
    }
    if exists|i: int| record_at(book.records@, overlay, i) {
        let i = choose|i: int| record_at(book.records@, overlay, i);
        assert(book.records@[i].overlay == overlay);
    }
}

/// A peer is among the storers of a bin exactly when it has a record there that
/// says so.
pub proof fn known_storers_have_a_record(
    records: Seq<PeerRecord>,
    base: OverlayAddress,
    max_po: u8,
    bin: nat,
    peer: OverlayAddress,
)
    ensures
        storers_in(records, base, max_po, bin).contains(peer) <==> exists|i: int|
            #![trigger records[i]]
            {
                &&& 0 <= i < records.len()
                &&& records[i].overlay == peer
                &&& records[i].node_type == Some(SwarmNodeType::Storer)
                &&& super::proximity_index::bin_of(base, max_po, peer) == bin
            },
    decreases records.len(),
{
    if records.len() > 0 {
        let rest = records.drop_last();
        known_storers_have_a_record(rest, base, max_po, bin, peer);
        let before = storers_in(rest, base, max_po, bin);
        let all = storers_in(records, base, max_po, bin);
        let last = records.last();
        let fits = |r: PeerRecord|
            r.overlay == peer && r.node_type == Some(SwarmNodeType::Storer)
                && super::proximity_index::bin_of(base, max_po, peer) == bin;
        if all.contains(peer) {
            let k = choose|k: int| 0 <= k < all.len() && all[k] == peer;
            if k < before.len() {
                assert(before[k] == peer);
                let i = choose|i: int|
                    #![trigger rest[i]]
                    0 <= i < rest.len() && fits(rest[i]);
                assert(records[i] == rest[i]);
            } else {
                assert(records[records.len() - 1] == last);
            }
        }
        if exists|i: int| #![trigger records[i]] 0 <= i < records.len() && fits(records[i]) {
            let i = choose|i: int|
                #![trigger records[i]]
                0 <= i < records.len() && fits(records[i]);
            if i < rest.len() {
                assert(rest[i] == records[i]);
                assert(before.contains(peer));
                let k = choose|k: int| 0 <= k < before.len() && before[k] == peer;
                assert(all[k] == peer);
            } else {
                assert(all[all.len() - 1] == peer);
            }
        }
    }
}

/// The leading peers of a list are as many of its first ones as were asked for,
/// or all of them.
pub proof fn leading_peers_come_first(peers: Seq<OverlayAddress>, n: nat)
    ensures
        leading(peers, n).len() <= n,
        leading(peers, n).len() < n ==> leading(peers, n) == peers,
        forall|i: int|
            #![trigger leading(peers, n)[i]]
            0 <= i < leading(peers, n).len() ==> leading(peers, n)[i] == peers[i],
        leading(peers, n).len() <= peers.len(),
        leading(peers, n).len() == n || leading(peers, n).len() == peers.len(),
{
}

/// No bin knows more peers than the book.
pub proof fn known_peers_are_bounded(
    records: Seq<PeerRecord>,
    base: OverlayAddress,
    max_po: u8,
    bin: nat,
)
    ensures
        known_in(records, base, max_po, bin) <= records.len(),
    decreases records.len(),
{
    if records.len() > 0 {
        known_peers_are_bounded(records.drop_last(), base, max_po, bin);
    }
}

} // verus!
