//! Kademlia-aware peer selection for gossip exchange.

use super::peers::{PeerBook, PeerRecord};
use crate::primitives::{Bin, NeighborhoodDepth, OverlayAddress, SwarmNodeType, MAX_PO};
use vstd::prelude::*;

verus! {

/// Maximum peers to send to distant (non-neighbor) peers.
pub const MAX_PEERS_FOR_DISTANT: usize = 16;

/// Number of peers close to the recipient's overlay to send.
pub const CLOSE_PEERS_COUNT: usize = 4;

/// Whether the handshake confirmed that `overlay` is a storer.
pub open spec fn is_storer(book: PeerBook, overlay: OverlayAddress) -> bool {
    book.lookup(overlay) matches Some(record) && record.node_type == Some(SwarmNodeType::Storer)
}

/// Whether the handshake confirmed that `overlay` is a client.
pub open spec fn is_client(book: PeerBook, overlay: OverlayAddress) -> bool {
    book.lookup(overlay) matches Some(record) && record.node_type == Some(SwarmNodeType::Client)
}

/// The storers among `active` whose proximity to `local` reaches `depth`.
pub open spec fn neighbors_among(
    active: Seq<OverlayAddress>,
    local: OverlayAddress,
    book: PeerBook,
    depth: NeighborhoodDepth,
) -> Seq<OverlayAddress>
    decreases active.len(),
{
    if active.len() == 0 {
        Seq::empty()
    } else {
        let rest = neighbors_among(active.drop_last(), local, book, depth);
        let last = active.last();
        if crate::primitives::proximity_order(local, last) >= depth.raw && is_storer(book, last) {
            rest.push(last)
        } else {
            rest
        }
    }
}

/// The clients among `active`.
pub open spec fn clients_among(active: Seq<OverlayAddress>, book: PeerBook) -> Seq<OverlayAddress>
    decreases active.len(),
{
    if active.len() == 0 {
        Seq::empty()
    } else {
        let rest = clients_among(active.drop_last(), book);
        if is_client(book, active.last()) {
            rest.push(active.last())
        } else {
            rest
        }
    }
}

/// Active storer peers with proximity of at least `depth`. `active` lists the
/// overlays that connections are active to.
pub fn connected_neighbors(
    local_overlay: &OverlayAddress,
    book: &PeerBook,
    active: &Vec<OverlayAddress>,
    depth: NeighborhoodDepth,
) -> (peers: Vec<OverlayAddress>)
    requires
        book.wf(),
    ensures
        peers@ == neighbors_among(active@, *local_overlay, *book, depth),
        forall|peer: OverlayAddress| #[trigger]
            peers@.contains(peer) <==> {
                &&& active@.contains(peer)
                &&& crate::primitives::proximity_order(*local_overlay, peer) >= depth.raw
                &&& book.lookup(peer) matches Some(record) && record.node_type == Some(
                    SwarmNodeType::Storer,
                )
            },
{
    let mut peers: Vec<OverlayAddress> = Vec::new();
    let mut i: usize = 0;
    while i < active.len()
        invariant
            book.wf(),
            i <= active.len(),
            peers@ == neighbors_among(
                active@.subrange(0, i as int),
                *local_overlay,
                *book,
                depth,
            ),
        decreases active.len() - i,
    {
        proof {
            assert(active@.subrange(0, i + 1).drop_last() =~= active@.subrange(0, i as int));
        }
        let overlay: OverlayAddress = active[i];
        if depth.contains(Bin { raw: local_overlay.proximity(&overlay) }) && book.node_type(
            &overlay,
        ) == Some(SwarmNodeType::Storer) {
            peers.push(overlay);
        }
        i = i + 1;
    }
    proof {
        assert(active@.subrange(0, i as int) =~= active@);
        assert forall|peer: OverlayAddress| #[trigger] peers@.contains(peer) <==> {
            &&& active@.contains(peer)
            &&& crate::primitives::proximity_order(*local_overlay, peer) >= depth.raw
            &&& book.lookup(peer) matches Some(record) && record.node_type == Some(
                SwarmNodeType::Storer,
            )
        } by {
            neighbors_are_close_storers(active@, *local_overlay, *book, depth, peer);
        }
    }
    peers
}

/// Connected clients: gossip recipients only, never gossiped about.
pub fn connected_clients(book: &PeerBook, active: &Vec<OverlayAddress>) -> (peers: Vec<
    OverlayAddress,
>)
    requires
        book.wf(),
    ensures
        peers@ == clients_among(active@, *book),
        forall|peer: OverlayAddress| #[trigger]
            peers@.contains(peer) <==> {
                &&& active@.contains(peer)
                &&& book.lookup(peer) matches Some(record) && record.node_type == Some(
                    SwarmNodeType::Client,
                )
            },
{
    let mut peers: Vec<OverlayAddress> = Vec::new();
    let mut i: usize = 0;
    while i < active.len()
        invariant
            book.wf(),
            i <= active.len(),
            peers@ == clients_among(active@.subrange(0, i as int), *book),
        decreases active.len() - i,
    {
        proof {
            assert(active@.subrange(0, i + 1).drop_last() =~= active@.subrange(0, i as int));
        }
        let overlay: OverlayAddress = active[i];
        if book.node_type(&overlay) == Some(SwarmNodeType::Client) {
            peers.push(overlay);
        }
        i = i + 1;
    }
    proof {
        assert(active@.subrange(0, i as int) =~= active@);
        assert forall|peer: OverlayAddress| #[trigger] peers@.contains(peer) <==> {
            &&& active@.contains(peer)
            &&& book.lookup(peer) matches Some(record) && record.node_type == Some(
                SwarmNodeType::Client,
            )
        } by {
            clients_are_active_clients(active@, *book, peer);
        }
    }
    peers
}

/// `sorted`, which is ascending by distance to `subject`, with `peer` put in
/// its place.
pub open spec fn placed(
    sorted: Seq<OverlayAddress>,
    peer: OverlayAddress,
    subject: OverlayAddress,
) -> Seq<OverlayAddress>
    decreases sorted.len(),
{
    if sorted.len() == 0 || crate::primitives::distance(subject, sorted.last())
        <= crate::primitives::distance(subject, peer) {
        sorted.push(peer)
    } else {
        placed(sorted.drop_last(), peer, subject).push(sorted.last())
    }
}

/// The storers of `active` that fall into `bin` and are not `exclude`,
/// ascending by distance to `subject`.
pub open spec fn storers_by_distance(
    active: Seq<OverlayAddress>,
    local: OverlayAddress,
    book: PeerBook,
    exclude: OverlayAddress,
    subject: OverlayAddress,
    bin: nat,
) -> Seq<OverlayAddress>
    decreases active.len(),
{
    if active.len() == 0 {
        Seq::empty()
    } else {
        let rest = storers_by_distance(active.drop_last(), local, book, exclude, subject, bin);
        let last = active.last();
        if last != exclude && is_storer(book, last) && crate::primitives::proximity_order(
            local,
            last,
        ) == bin {
            placed(rest, last, subject)
        } else {
            rest
        }
    }
}

/// The closest `per_bin` storers of each of the first `n` bins, shallowest bin
/// first.
pub open spec fn sampled(
    active: Seq<OverlayAddress>,
    local: OverlayAddress,
    book: PeerBook,
    per_bin: nat,
    exclude: OverlayAddress,
    subject: OverlayAddress,
    n: nat,
) -> Seq<OverlayAddress>
    decreases n,
{
    if n == 0 {
        Seq::empty()
    } else {
        sampled(active, local, book, per_bin, exclude, subject, (n - 1) as nat)
            + super::peers::leading(
            storers_by_distance(active, local, book, exclude, subject, (n - 1) as nat),
            per_bin,
        )
    }
}

proof fn lemma_placed_at(
    sorted: Seq<OverlayAddress>,
    peer: OverlayAddress,
    subject: OverlayAddress,
    at: int,
)
    requires
        0 <= at <= sorted.len(),
        at > 0 ==> crate::primitives::distance(subject, sorted[at - 1])
            <= crate::primitives::distance(subject, peer),
        forall|k: int|
            #![trigger sorted[k]]
            at <= k < sorted.len() ==> crate::primitives::distance(subject, sorted[k])
                > crate::primitives::distance(subject, peer),
    ensures
        placed(sorted, peer, subject) == sorted.insert(at, peer),
    decreases sorted.len(),
{
    if at == sorted.len() {
        assert(sorted.insert(at, peer) =~= sorted.push(peer));
    } else {
        assert(sorted[sorted.len() - 1] == sorted.last());
        assert forall|k: int|
            #![trigger sorted.drop_last()[k]]
            at <= k < sorted.drop_last().len() implies crate::primitives::distance(
            subject,
            sorted.drop_last()[k],
        ) > crate::primitives::distance(subject, peer) by {
            assert(sorted[k] == sorted.drop_last()[k]);
        }
        lemma_placed_at(sorted.drop_last(), peer, subject, at);
        assert(sorted.drop_last().insert(at, peer).push(sorted.last()) =~= sorted.insert(at, peer));
    }
}

/// A bounded per-bin sample of connected storers, for announcing `subject`
/// to the wider table without a broadcast storm.
///
/// Takes up to `per_bin` active storers from each bin, without `exclude`, the
/// closest to `subject` by XOR distance first. The recipients rotate with who
/// is announced.
pub fn connected_storer_sample(
    local_overlay: &OverlayAddress,
    book: &PeerBook,
    active: &Vec<OverlayAddress>,
    per_bin: usize,
    exclude: &OverlayAddress,
    subject: &OverlayAddress,
) -> (sample: Vec<OverlayAddress>)
    requires
        book.wf(),
    ensures
        sample@ == sampled(
            active@,
            *local_overlay,
            *book,
            per_bin as nat,
            *exclude,
            *subject,
            (MAX_PO + 1) as nat,
        ),
        forall|peer: OverlayAddress| #[trigger]
            sample@.contains(peer) ==> {
                &&& active@.contains(peer)
                &&& peer != *exclude
                &&& book.lookup(peer) matches Some(record) && record.node_type == Some(
                    SwarmNodeType::Storer,
                )
            },
        forall|peer: OverlayAddress|
            #![trigger active@.contains(peer)]
            active@.contains(peer) && peer != *exclude && (book.lookup(peer) matches Some(record)
                && record.node_type == Some(SwarmNodeType::Storer)) && !sample@.contains(peer)
                ==> exists|row: Seq<OverlayAddress>|
                #![trigger ascends(row, *subject)]
                {
                    &&& ascends(row, *subject)
                    &&& row.len() == per_bin
                    &&& active@.no_duplicates() ==> row.no_duplicates()
                    &&& forall|j: int|
                        #![trigger row[j]]
                        0 <= j < row.len() ==> sample@.contains(row[j])
                            && crate::primitives::proximity_order(*local_overlay, row[j])
                            == crate::primitives::proximity_order(*local_overlay, peer)
                            && crate::primitives::distance(*subject, row[j])
                            <= crate::primitives::distance(*subject, peer)
                },
{
    let mut sample: Vec<OverlayAddress> = Vec::new();
    let mut bin: u8 = 0;
    while bin <= MAX_PO
        invariant
            book.wf(),
            bin <= MAX_PO + 1,
            sample@ == sampled(
                active@,
                *local_overlay,
                *book,
                per_bin as nat,
                *exclude,
                *subject,
                bin as nat,
            ),
        decreases MAX_PO + 1 - bin,
    {
        let mut row: Vec<OverlayAddress> = bin_storers_by_distance(
            local_overlay,
            book,
            active,
            exclude,
            subject,
            bin,
        );
        if row.len() > per_bin {
            row.truncate(per_bin);
        }
        sample.append(&mut row);
        bin = bin + 1;
    }
    proof {
        let n = (MAX_PO + 1) as nat;
        assert forall|peer: OverlayAddress| #[trigger] sample@.contains(peer) implies {
            &&& active@.contains(peer)
            &&& peer != *exclude
            &&& book.lookup(peer) matches Some(record) && record.node_type == Some(
                SwarmNodeType::Storer,
            )
        } by {
            sampled_peers_are_storers(
                active@,
                *local_overlay,
                *book,
                per_bin as nat,
                *exclude,
                *subject,
                n,
                peer,
            );
        }
        assert forall|peer: OverlayAddress|
            #![trigger active@.contains(peer)]
            active@.contains(peer) && peer != *exclude && (book.lookup(peer) matches Some(record)
                && record.node_type == Some(SwarmNodeType::Storer)) && !sample@.contains(
                peer,
            ) implies exists|row: Seq<OverlayAddress>|
            #![trigger ascends(row, *subject)]
            {
                &&& ascends(row, *subject)
                &&& row.len() == per_bin
                &&& active@.no_duplicates() ==> row.no_duplicates()
                &&& forall|j: int|
                    #![trigger row[j]]
                    0 <= j < row.len() ==> sample@.contains(row[j])
                        && crate::primitives::proximity_order(*local_overlay, row[j])
                        == crate::primitives::proximity_order(*local_overlay, peer)
                        && crate::primitives::distance(*subject, row[j])
                        <= crate::primitives::distance(*subject, peer)
            } by {
            crate::primitives::proximity_is_bounded(*local_overlay, peer);
            unsampled_storers_are_farther(
                active@,
                *local_overlay,
                *book,
                per_bin as nat,
                *exclude,
                *subject,
                n,
                peer,
            );
        }
    }
    sample
}

fn bin_storers_by_distance(
    local_overlay: &OverlayAddress,
    book: &PeerBook,
    active: &Vec<OverlayAddress>,
    exclude: &OverlayAddress,
    subject: &OverlayAddress,
    bin: u8,
) -> (row: Vec<OverlayAddress>)
    requires
        book.wf(),
    ensures
        row@ == storers_by_distance(
            active@,
            *local_overlay,
            *book,
            *exclude,
            *subject,
            bin as nat,
        ),
{
    let mut row: Vec<OverlayAddress> = Vec::new();
    let mut i: usize = 0;
    while i < active.len()
        invariant
            book.wf(),
            i <= active.len(),
            row@ == storers_by_distance(
                active@.subrange(0, i as int),
                *local_overlay,
                *book,
                *exclude,
                *subject,
                bin as nat,
            ),
        decreases active.len() - i,
    {
        proof {
            assert(active@.subrange(0, i + 1).drop_last() =~= active@.subrange(0, i as int));
        }
        let overlay: OverlayAddress = active[i];
        if overlay != *exclude && book.node_type(&overlay) == Some(SwarmNodeType::Storer)
            && local_overlay.proximity(&overlay) == bin {
            let mut at: usize = row.len();
            while at > 0 && subject.is_closer(&overlay, &row[at - 1])
                invariant
                    at <= row.len(),
                    forall|k: int|
                        #![trigger row@[k]]
                        at <= k < row.len() ==> crate::primitives::distance(*subject, row@[k])
                            > crate::primitives::distance(*subject, overlay),
                decreases at,
            {
                at = at - 1;
            }
            proof {
                lemma_placed_at(row@, overlay, *subject, at as int);
            }
            row.insert(at, overlay);
        }
        i = i + 1;
    }
    proof {
        assert(active@.subrange(0, i as int) =~= active@);
    }
    row
}

/// Whether the addresses of `overlay` are on file.
pub open spec fn is_addressed(book: PeerBook, overlay: OverlayAddress) -> bool {
    book.lookup(overlay) matches Some(record) && record.addressed
}

/// Those of `overlays` whose addresses are on file, without `exclude`.
pub open spec fn addressed_except(
    overlays: Seq<OverlayAddress>,
    book: PeerBook,
    exclude: Option<OverlayAddress>,
) -> Seq<OverlayAddress>
    decreases overlays.len(),
{
    if overlays.len() == 0 {
        Seq::empty()
    } else {
        let rest = addressed_except(overlays.drop_last(), book, exclude);
        if exclude != Some(overlays.last()) && is_addressed(book, overlays.last()) {
            rest.push(overlays.last())
        } else {
            rest
        }
    }
}

/// The known storers of the bins from `low` up to but not at `high` whose
/// addresses are on file, without `exclude`, shallowest bin first.
pub open spec fn neighborhood_storers(
    book: PeerBook,
    exclude: Option<OverlayAddress>,
    low: int,
    high: int,
) -> Seq<OverlayAddress>
    decreases high - low,
{
    if high <= low {
        Seq::empty()
    } else {
        neighborhood_storers(book, exclude, low, high - 1) + addressed_except(
            super::peers::storers_in(book.records@, book.local, book.max_po, (high - 1) as nat),
            book,
            exclude,
        )
    }
}

/// Known storers in the neighborhood whose addresses are on file, optionally
/// without one overlay.
pub fn known_neighborhood_peers(
    book: &PeerBook,
    depth: NeighborhoodDepth,
    exclude: Option<OverlayAddress>,
) -> (peers: Vec<OverlayAddress>)
    requires
        book.wf(),
    ensures
        peers@ == neighborhood_storers(*book, exclude, depth.raw as int, book.max_po + 1),
        forall|peer: OverlayAddress| #[trigger]
            peers@.contains(peer) <==> {
                &&& super::proximity_index::bin_of(book.local, book.max_po, peer) >= depth.raw
                &&& exclude != Some(peer)
                &&& book.lookup(peer) matches Some(record) && record.node_type == Some(
                    SwarmNodeType::Storer,
                ) && record.addressed
            },
{
    let mut peers: Vec<OverlayAddress> = Vec::new();
    let mut bin: u8 = depth.raw;
    while bin <= book.max_po
        invariant
            book.wf(),
            depth.raw <= bin,
            depth.raw <= book.max_po ==> bin <= book.max_po + 1,
            depth.raw > book.max_po ==> bin == depth.raw,
            peers@ == neighborhood_storers(*book, exclude, depth.raw as int, bin as int),
        decreases book.max_po + 1 - bin,
    {
        let row: Vec<OverlayAddress> = book.storer_overlays_in_bin(Bin { raw: bin });
        let ghost before = peers@;
        let mut i: usize = 0;
        while i < row.len()
            invariant
                i <= row.len(),
                book.wf(),
                peers@ == before + addressed_except(
                    row@.subrange(0, i as int),
                    *book,
                    exclude,
                ),
            decreases row.len() - i,
        {
            proof {
                assert(row@.subrange(0, i + 1).drop_last() =~= row@.subrange(0, i as int));
            }
            let overlay: OverlayAddress = row[i];
            let skipped: bool = match exclude {
                Some(e) => overlay == e,
                None => false,
            };
            let addressed: bool = match book.get(&overlay) {
                Some(record) => record.addressed,
                None => false,
            };
            if !skipped && addressed {
                peers.push(overlay);
            }
            i = i + 1;
            proof {
                assert(peers@ =~= before + addressed_except(
                    row@.subrange(0, i as int),
                    *book,
                    exclude,
                ));
            }
        }
        proof {
            assert(row@.subrange(0, i as int) =~= row@);
        }
        bin = bin + 1;
    }
    proof {
        if depth.raw > book.max_po {
            assert(neighborhood_storers(*book, exclude, depth.raw as int, book.max_po + 1)
                =~= Seq::empty());
        }
        assert forall|peer: OverlayAddress| #[trigger] peers@.contains(peer) <==> {
            &&& super::proximity_index::bin_of(book.local, book.max_po, peer) >= depth.raw
            &&& exclude != Some(peer)
            &&& book.lookup(peer) matches Some(record) && record.node_type == Some(
                SwarmNodeType::Storer,
            ) && record.addressed
        } by {
            neighborhood_peers_are_storers_on_file(
                *book,
                exclude,
                depth.raw as int,
                book.max_po + 1,
                peer,
            );
        }
    }
    peers
}

/// A storer that may be gossiped, with its proximity to the recipient and its
/// bin in the local table.
#[derive(Clone, Copy, Debug, PartialEq, Eq, Structural)]
pub struct GossipStorer {
    pub overlay: OverlayAddress,
    pub recipient_proximity: u8,
    pub bin: u8,
}

/// The storers on file with their addresses, in book order.
pub open spec fn gossip_storers(
    records: Seq<PeerRecord>,
    local: OverlayAddress,
    recipient: OverlayAddress,
) -> Seq<GossipStorer>
    decreases records.len(),
{
    if records.len() == 0 {
        Seq::empty()
    } else {
        let rest = gossip_storers(records.drop_last(), local, recipient);
        let last = records.last();
        if last.stores() && last.addressed {
            rest.push(
                GossipStorer {
                    overlay: last.overlay,
                    recipient_proximity: crate::primitives::proximity_order(
                        recipient,
                        last.overlay,
                    ) as u8,
                    bin: crate::primitives::proximity_order(local, last.overlay) as u8,
                },
            )
        } else {
            rest
        }
    }
}

/// `top` names, closest to the recipient first, the storers of which none is
/// farther from the recipient than one left out. Where there are no more
/// storers than are wanted, equally close ones keep their order.
pub open spec fn is_closest(storers: Seq<GossipStorer>, top: Seq<int>) -> bool {
    &&& top.len() == if storers.len() < CLOSE_PEERS_COUNT {
        storers.len()
    } else {
        CLOSE_PEERS_COUNT as nat
    }
    &&& top.no_duplicates()
    &&& forall|i: int| #![trigger top[i]] 0 <= i < top.len() ==> 0 <= top[i] < storers.len()
    &&& forall|i: int, j: int|
        #![trigger top[i], top[j]]
        0 <= i <= j < top.len() ==> storers[top[i]].recipient_proximity
            >= storers[top[j]].recipient_proximity
    &&& forall|i: int, k: int|
        #![trigger top[i], storers[k]]
        0 <= i < top.len() && 0 <= k < storers.len() && !top.contains(k)
            ==> storers[top[i]].recipient_proximity >= storers[k].recipient_proximity
    &&& storers.len() <= CLOSE_PEERS_COUNT ==> ties_in_order(storers, top)
}

/// Equally close storers are named in their order.
pub open spec fn ties_in_order(storers: Seq<GossipStorer>, top: Seq<int>) -> bool {
    forall|i: int, j: int|
        #![trigger top[i], top[j]]
        0 <= i < j < top.len() && storers[top[i]].recipient_proximity
            == storers[top[j]].recipient_proximity ==> top[i] < top[j]
}

/// `chosen` with, from storer `i` on, the first storer of each bin in `bins`'
/// complement, as long as there is room.
pub open spec fn with_one_per_bin(
    storers: Seq<GossipStorer>,
    chosen: Seq<int>,
    bins: Set<u8>,
    i: int,
) -> Seq<int>
    decreases storers.len() - i,
{
    if i >= storers.len() || chosen.len() >= MAX_PEERS_FOR_DISTANT {
        chosen
    } else if !chosen.contains(i) && !bins.contains(storers[i].bin) {
        with_one_per_bin(storers, chosen.push(i), bins.insert(storers[i].bin), i + 1)
    } else {
        with_one_per_bin(storers, chosen, bins, i + 1)
    }
}

/// `chosen` with the storers from `i` on, as long as there is room.
pub open spec fn filled(storers: Seq<GossipStorer>, chosen: Seq<int>, i: int) -> Seq<int>
    decreases storers.len() - i,
{
    if i >= storers.len() || chosen.len() >= MAX_PEERS_FOR_DISTANT {
        chosen
    } else if !chosen.contains(i) {
        filled(storers, chosen.push(i), i + 1)
    } else {
        filled(storers, chosen, i + 1)
    }
}

/// The storers chosen for a distant recipient once the closest are `top`: the
/// closest, then one of each bin, then any, as long as there is room.
pub open spec fn distant_choice(storers: Seq<GossipStorer>, top: Seq<int>) -> Seq<int> {
    filled(storers, with_one_per_bin(storers, top, Set::empty(), 0), 0)
}

/// The chosen storers' overlays and bins.
pub open spec fn chosen_peers(storers: Seq<GossipStorer>, chosen: Seq<int>) -> Seq<
    (OverlayAddress, u8),
> {
    chosen.map_values(|k: int| (storers[k].overlay, storers[k].bin))
}

/// Indices as integers.
pub open spec fn as_ints(indices: Seq<usize>) -> Seq<int> {
    indices.map_values(|k: usize| k as int)
}

fn index_listed(indices: &Vec<usize>, index: usize) -> (found: bool)
    ensures
        found == as_ints(indices@).contains(index as int),
{
    let mut i: usize = 0;
    while i < indices.len()
        invariant
            i <= indices.len(),
            forall|j: int| 0 <= j < i ==> indices@[j] != index,
        decreases indices.len() - i,
    {
        if indices[i] == index {
            proof {
                assert(as_ints(indices@)[i as int] == index as int);
            }
            return true;
        }
        i = i + 1;
    }
    proof {
        if as_ints(indices@).contains(index as int) {
            let k = choose|k: int|
                0 <= k < as_ints(indices@).len() && as_ints(indices@)[k] == index as int;
            assert(indices@[k] == index);
        }
    }
    false
}

fn collect_gossip_storers(
    local_overlay: &OverlayAddress,
    book: &PeerBook,
    recipient: &OverlayAddress,
) -> (storers: Vec<GossipStorer>)
    ensures
        storers@ == gossip_storers(book.records@, *local_overlay, *recipient),
{
    let mut storers: Vec<GossipStorer> = Vec::new();
    let mut i: usize = 0;
    while i < book.records.len()
        invariant
            i <= book.records.len(),
            storers@ == gossip_storers(
                book.records@.subrange(0, i as int),
                *local_overlay,
                *recipient,
            ),
        decreases book.records.len() - i,
    {
        proof {
            assert(book.records@.subrange(0, i + 1).drop_last() =~= book.records@.subrange(
                0,
                i as int,
            ));
        }
        let record: PeerRecord = book.records[i];
        if record.node_type == Some(SwarmNodeType::Storer) && record.addressed {
            let recipient_proximity: u8 = recipient.proximity(&record.overlay);
            let bin: u8 = local_overlay.proximity(&record.overlay);
            storers.push(GossipStorer { overlay: record.overlay, recipient_proximity, bin });
        }
        i = i + 1;
    }
    proof {
        assert(book.records@.subrange(0, i as int) =~= book.records@);
    }
    storers
}

/// The storers closest to the recipient.
fn closest_storers(storers: &Vec<GossipStorer>) -> (top: Vec<usize>)
    ensures
        is_closest(storers@, as_ints(top@)),
        top.len() <= CLOSE_PEERS_COUNT,
{
    let mut top: Vec<usize> = Vec::new();
    let wanted: usize = if storers.len() < CLOSE_PEERS_COUNT {
        storers.len()
    } else {
        CLOSE_PEERS_COUNT
    };
    while top.len() < wanted
        invariant
            top.len() <= wanted,
            wanted == (if storers.len() < CLOSE_PEERS_COUNT {
                storers.len()
            } else {
                CLOSE_PEERS_COUNT
            }),
            top@.no_duplicates(),
            forall|i: int| #![trigger top@[i]] 0 <= i < top.len() ==> top@[i] < storers.len(),
            forall|i: int, j: int|
                #![trigger top@[i], top@[j]]
                0 <= i <= j < top.len() ==> storers@[top@[i] as int].recipient_proximity
                    >= storers@[top@[j] as int].recipient_proximity,
            forall|i: int, k: int|
                #![trigger top@[i], storers@[k]]
                0 <= i < top.len() && 0 <= k < storers.len() && !top@.contains(k as usize)
                    ==> storers@[top@[i] as int].recipient_proximity
                    > storers@[k].recipient_proximity || (
                storers@[top@[i] as int].recipient_proximity == storers@[k].recipient_proximity
                    && top@[i] < k),
            ties_in_order(storers@, as_ints(top@)),
        decreases wanted - top.len(),
    {
        let mut best: Option<usize> = None;
        let mut k: usize = 0;
        while k < storers.len()
            invariant
                k <= storers.len(),
                best matches Some(b) ==> b < k && !top@.contains(b),
                best is None ==> forall|j: usize| j < k ==> top@.contains(j),
                best matches Some(b) ==> forall|j: int|
                    #![trigger storers@[j]]
                    0 <= j < k && !top@.contains(j as usize)
                        ==> storers@[j].recipient_proximity
                        < storers@[b as int].recipient_proximity || (
                    storers@[j].recipient_proximity == storers@[b as int].recipient_proximity && b
                        <= j),
            decreases storers.len() - k,
        {
            let taken: bool = index_listed(&top, k);
            proof {
                assert(taken == top@.contains(k)) by {
                    if taken {
                        let m = choose|m: int|
                            0 <= m < as_ints(top@).len() && as_ints(top@)[m] == k as int;
                        assert(top@[m] == k);
                    }
                    if top@.contains(k) {
                        let m = choose|m: int| 0 <= m < top@.len() && top@[m] == k;
                        assert(as_ints(top@)[m] == k as int);
                    }
                }
            }
            if !taken {
                match best {
                    None => {
                        best = Some(k);
                    },
                    Some(b) => {
                        if storers[k].recipient_proximity > storers[b].recipient_proximity {
                            best = Some(k);
                        }
                    },
                }
            }
            k = k + 1;
        }
        match best {
            Some(b) => {
                let ghost before = top@;
                top.push(b);
                proof {
                    assert forall|i: int, j: int|
                        #![trigger top@[i], storers@[j]]
                        0 <= i < top.len() && 0 <= j < storers.len() && !top@.contains(
                            j as usize,
                        ) implies storers@[top@[i] as int].recipient_proximity
                        > storers@[j].recipient_proximity || (
                    storers@[top@[i] as int].recipient_proximity == storers@[j].recipient_proximity
                        && top@[i] < j) by {
                        assert(!before.contains(j as usize)) by {
                            if before.contains(j as usize) {
                                let m = choose|m: int|
                                    0 <= m < before.len() && before[m] == j as usize;
                                assert(top@[m] == j as usize);
                            }
                        }
                        if i < before.len() {
                            assert(before[i] == top@[i]);
                        } else {
                            assert(top@[i] == b);
                            assert(j != b);
                        }
                    }
                    let ints = as_ints(top@);
                    assert forall|i: int, j: int|
                        #![trigger ints[i], ints[j]]
                        0 <= i < j < ints.len() && storers@[ints[i]].recipient_proximity
                            == storers@[ints[j]].recipient_proximity implies ints[i] < ints[j] by {
                        assert(before[i] == top@[i]);
                        if j < before.len() {
                            assert(as_ints(before)[i] == ints[i]);
                            assert(as_ints(before)[j] == ints[j]);
                        } else {
                            assert(ints[j] == b as int);
                            assert(!before.contains(b));
                            assert(storers@[b as int].recipient_proximity
                                == storers@[ints[j]].recipient_proximity);
                        }
                    }
                    assert forall|i: int, j: int|
                        #![trigger top@[i], top@[j]]
                        0 <= i <= j < top.len() implies storers@[top@[i] as int].recipient_proximity
                        >= storers@[top@[j] as int].recipient_proximity by {
                        if j == before.len() && i < j {
                            assert(before[i] == top@[i]);
                            assert(storers@[b as int].recipient_proximity
                                == storers@[top@[j] as int].recipient_proximity);
                        }
                    }
                }
            },
            None => {
                proof {
                    lemma_all_listed_is_long(top@, storers.len() as nat);
                }
                return top;
            },
        }
    }
    proof {
        let ints = as_ints(top@);
        assert(ints.no_duplicates());
        assert forall|i: int, k: int|
            #![trigger ints[i], storers@[k]]
            0 <= i < ints.len() && 0 <= k < storers.len() && !ints.contains(
                k,
            ) implies storers@[ints[i]].recipient_proximity >= storers@[k].recipient_proximity by {
            assert(top@[i] as int == ints[i]);
            assert(!top@.contains(k as usize)) by {
                if top@.contains(k as usize) {
                    let m = choose|m: int| 0 <= m < top@.len() && top@[m] == k as usize;
                    assert(ints[m] == k);
                }
            }
        }
        assert forall|i: int, j: int|
            #![trigger ints[i], ints[j]]
            0 <= i <= j < ints.len() implies storers@[ints[i]].recipient_proximity
            >= storers@[ints[j]].recipient_proximity by {
            assert(top@[i] as int == ints[i]);
            assert(top@[j] as int == ints[j]);
        }
    }
    top
}

/// A list that holds every number below `n` is at least `n` long.
proof fn lemma_all_listed_is_long(list: Seq<usize>, n: nat)
    requires
        n <= usize::MAX + 1,
        forall|j: usize| j < n ==> list.contains(j),
    ensures
        list.len() >= n,
    decreases n,
{
    if n > 0 {
        let last = (n - 1) as usize;
        assert(list.contains(last));
        let at = choose|at: int| 0 <= at < list.len() && list[at] == last;
        let rest = list.remove(at);
        assert forall|j: usize| j < n - 1 implies rest.contains(j) by {
            assert(list.contains(j));
            let k = choose|k: int| 0 <= k < list.len() && list[k] == j;
            if k < at {
                assert(rest[k] == j);
            } else {
                assert(rest[k - 1] == j);
            }
        }
        lemma_all_listed_is_long(rest, (n - 1) as nat);
    }
}

/// Three-phase selection for a distant recipient: the storers closest to it,
/// then one of each bin, then any that fit.
///
/// Returns each peer with its bin; the caller applies address filtering. Where
/// more storers are known than the first phase takes, which of equally close
/// ones come first is left open.
pub fn select_for_distant(
    local_overlay: &OverlayAddress,
    book: &PeerBook,
    recipient: OverlayAddress,
) -> (selected: Vec<(OverlayAddress, u8)>)
    ensures
        exists|top: Seq<int>|
            #![trigger distant_choice(
                gossip_storers(book.records@, *local_overlay, recipient),
                top,
            )]
            is_closest(gossip_storers(book.records@, *local_overlay, recipient), top)
                && selected@ == chosen_peers(
                gossip_storers(book.records@, *local_overlay, recipient),
                distant_choice(gossip_storers(book.records@, *local_overlay, recipient), top),
            ),
        // Every peer named is a storer on file with its addresses.
        forall|i: int|
            #![trigger selected@[i]]
            0 <= i < selected@.len() ==> {
                &&& selected@[i].1 == crate::primitives::proximity_order(
                    *local_overlay,
                    selected@[i].0,
                )
                &&& exists|r: int|
                    #![trigger book.records@[r]]
                    {
                        &&& 0 <= r < book.records.len()
                        &&& book.records@[r].overlay == selected@[i].0
                        &&& book.records@[r].node_type == Some(SwarmNodeType::Storer)
                        &&& book.records@[r].addressed
                    }
            },
        // None is left out before the maximum is reached.
        selected@.len() <= MAX_PEERS_FOR_DISTANT,
        selected@.len() < MAX_PEERS_FOR_DISTANT ==> forall|peer: OverlayAddress, r: int|
            #![trigger super::peers::record_at(book.records@, peer, r)]
            super::peers::record_at(book.records@, peer, r) && book.records@[r].node_type
                == Some(SwarmNodeType::Storer) && book.records@[r].addressed ==> exists|i: int|
                #![trigger selected@[i]]
                0 <= i < selected@.len() && selected@[i].0 == peer,
        // The first ones are the closest to the recipient.
        forall|i: int, peer: OverlayAddress, r: int|
            #![trigger selected@[i], super::peers::record_at(book.records@, peer, r)]
            {
                &&& 0 <= i < selected@.len()
                &&& i < CLOSE_PEERS_COUNT
                &&& super::peers::record_at(book.records@, peer, r)
                &&& book.records@[r].node_type == Some(SwarmNodeType::Storer)
                &&& book.records@[r].addressed
                &&& forall|j: int|
                    #![trigger selected@[j]]
                    0 <= j < selected@.len() && j < CLOSE_PEERS_COUNT ==> selected@[j].0
                        != peer
            } ==> crate::primitives::proximity_order(recipient, selected@[i].0)
                >= crate::primitives::proximity_order(recipient, peer),
        // No peer is named twice.
        book.wf() ==> forall|i: int, j: int|
            #![trigger selected@[i], selected@[j]]
            0 <= i < j < selected@.len() ==> selected@[i].0 != selected@[j].0,
{
    let storers: Vec<GossipStorer> = collect_gossip_storers(local_overlay, book, &recipient);
    let top: Vec<usize> = closest_storers(&storers);
    let ghost closest = as_ints(top@);
    let ghost goal = distant_choice(storers@, closest);
    let mut chosen: Vec<usize> = top;
    proof {
        assert forall|k: int| #![trigger chosen@[k]] 0 <= k < chosen.len() implies chosen@[k]
            < storers.len() by {
            assert(closest[k] == chosen@[k] as int);
        }
    }
    let mut taken_bins: Vec<u8> = Vec::new();
    let mut i: usize = 0;
    let ghost mut bins: Set<u8> = Set::empty();
    while i < storers.len() && chosen.len() < MAX_PEERS_FOR_DISTANT
        invariant
            i <= storers.len(),
            forall|b: u8| #[trigger] bins.contains(b) <==> taken_bins@.contains(b),
            forall|k: int| #![trigger chosen@[k]] 0 <= k < chosen.len() ==> chosen@[k]
                < storers.len(),
            with_one_per_bin(storers@, as_ints(chosen@), bins, i as int) == with_one_per_bin(
                storers@,
                closest,
                Set::empty(),
                0,
            ),
        decreases storers.len() - i,
    {
        let bin: u8 = storers[i].bin;
        if !index_listed(&chosen, i) && !bin_listed(&taken_bins, bin) {
            let ghost before_bins = taken_bins@;
            let ghost before = chosen@;
            chosen.push(i);
            taken_bins.push(bin);
            proof {
                assert(as_ints(chosen@) =~= as_ints(before).push(i as int));
                bins = bins.insert(bin);
                assert forall|b: u8| #[trigger] bins.contains(b) <==> taken_bins@.contains(b) by {
                    if taken_bins@.contains(b) {
                        let m = choose|m: int| 0 <= m < taken_bins@.len() && taken_bins@[m] == b;
                        if m < before_bins.len() {
                            assert(before_bins[m] == b);
                            assert(before_bins.contains(b));
                        }
                    }
                    if before_bins.contains(b) {
                        let m = choose|m: int| 0 <= m < before_bins.len() && before_bins[m] == b;
                        assert(taken_bins@[m] == b);
                    }
                    assert(taken_bins@[before_bins.len() as int] == bin);
                }
            }
        }
        i = i + 1;
    }
    let ghost diverse = as_ints(chosen@);
    let mut k: usize = 0;
    while k < storers.len() && chosen.len() < MAX_PEERS_FOR_DISTANT
        invariant
            k <= storers.len(),
            forall|m: int| #![trigger chosen@[m]] 0 <= m < chosen.len() ==> chosen@[m]
                < storers.len(),
            filled(storers@, as_ints(chosen@), k as int) == filled(storers@, diverse, 0),
        decreases storers.len() - k,
    {
        if !index_listed(&chosen, k) {
            let ghost before = chosen@;
            chosen.push(k);
            proof {
                assert(as_ints(chosen@) =~= as_ints(before).push(k as int));
            }
        }
        k = k + 1;
    }
    assert(as_ints(chosen@) == goal);
    let mut selected: Vec<(OverlayAddress, u8)> = Vec::new();
    let mut n: usize = 0;
    while n < chosen.len()
        invariant
            n <= chosen.len(),
            forall|m: int| #![trigger chosen@[m]] 0 <= m < chosen.len() ==> chosen@[m]
                < storers.len(),
            selected@ == chosen_peers(storers@, as_ints(chosen@.subrange(0, n as int))),
        decreases chosen.len() - n,
    {
        let storer: GossipStorer = storers[chosen[n]];
        selected.push((storer.overlay, storer.bin));
        n = n + 1;
        proof {
            assert(selected@ =~= chosen_peers(
                storers@,
                as_ints(chosen@.subrange(0, n as int)),
            ));
        }
    }
    proof {
        assert(chosen@.subrange(0, n as int) =~= chosen@);
        assert(is_closest(storers@, closest));
        assert(selected@ == chosen_peers(storers@, distant_choice(storers@, closest)));
        distant_peers_are_storers_on_file(
            book.records@,
            *local_overlay,
            recipient,
            closest,
            selected@,
        );
    }
    selected
}

fn bin_listed(bins: &Vec<u8>, bin: u8) -> (found: bool)
    ensures
        found == bins@.contains(bin),
{
    let mut i: usize = 0;
    while i < bins.len()
        invariant
            i <= bins.len(),
            forall|j: int| 0 <= j < i ==> bins@[j] != bin,
        decreases bins.len() - i,
    {
        if bins[i] == bin {
            assert(bins@[i as int] == bin);
            return true;
        }
        i = i + 1;
    }
    false
}

/// What a choice keeps: indices of storers, none twice.
pub open spec fn sound_choice(storers: Seq<GossipStorer>, chosen: Seq<int>) -> bool {
    &&& chosen.no_duplicates()
    &&& forall|i: int|
        #![trigger chosen[i]]
        0 <= i < chosen.len() ==> 0 <= chosen[i] < storers.len()
}

proof fn lemma_one_per_bin_sound(
    storers: Seq<GossipStorer>,
    chosen: Seq<int>,
    bins: Set<u8>,
    i: int,
)
    requires
        sound_choice(storers, chosen),
        0 <= i,
        chosen.len() <= MAX_PEERS_FOR_DISTANT,
    ensures
        sound_choice(storers, with_one_per_bin(storers, chosen, bins, i)),
        chosen.len() <= with_one_per_bin(storers, chosen, bins, i).len() <= MAX_PEERS_FOR_DISTANT,
        with_one_per_bin(storers, chosen, bins, i).subrange(0, chosen.len() as int) == chosen,
    decreases storers.len() - i,
{
    if i < storers.len() && chosen.len() < MAX_PEERS_FOR_DISTANT {
        if !chosen.contains(i) && !bins.contains(storers[i].bin) {
            lemma_one_per_bin_sound(
                storers,
                chosen.push(i),
                bins.insert(storers[i].bin),
                i + 1,
            );
            let all = with_one_per_bin(storers, chosen, bins, i);
            assert(all.subrange(0, chosen.len() as int) =~= all.subrange(
                0,
                (chosen.len() + 1) as int,
            ).drop_last());
            assert(chosen.push(i).drop_last() =~= chosen);
        } else {
            lemma_one_per_bin_sound(storers, chosen, bins, i + 1);
        }
    }
}

proof fn lemma_filled_sound(storers: Seq<GossipStorer>, chosen: Seq<int>, i: int)
    requires
        sound_choice(storers, chosen),
        0 <= i,
        chosen.len() <= MAX_PEERS_FOR_DISTANT,
        forall|k: int| 0 <= k < i && k < storers.len() ==> chosen.contains(k),
    ensures
        sound_choice(storers, filled(storers, chosen, i)),
        filled(storers, chosen, i).len() <= MAX_PEERS_FOR_DISTANT,
        filled(storers, chosen, i).len() < MAX_PEERS_FOR_DISTANT ==> forall|k: int|
            0 <= k < storers.len() ==> filled(storers, chosen, i).contains(k),
        filled(storers, chosen, i).len() >= chosen.len(),
        filled(storers, chosen, i).subrange(0, chosen.len() as int) == chosen,
    decreases storers.len() - i,
{
    if i < storers.len() && chosen.len() < MAX_PEERS_FOR_DISTANT {
        if !chosen.contains(i) {
            let next = chosen.push(i);
            assert forall|k: int| 0 <= k < i + 1 && k < storers.len() implies next.contains(k) by {
                if k < i {
                    assert(chosen.contains(k));
                    let m = choose|m: int| 0 <= m < chosen.len() && chosen[m] == k;
                    assert(next[m] == k);
                } else {
                    assert(next[chosen.len() as int] == k);
                }
            }
            lemma_filled_sound(storers, next, i + 1);
            let all = filled(storers, chosen, i);
            assert(all.subrange(0, chosen.len() as int) =~= all.subrange(
                0,
                (chosen.len() + 1) as int,
            ).drop_last());
            assert(next.drop_last() =~= chosen);
        } else {
            lemma_filled_sound(storers, chosen, i + 1);
        }
    }
}

/// A selection for a distant recipient leads with the storers closest to it,
/// names no storer twice and no more than the maximum, and leaves a storer out
/// only when the maximum is reached.
pub proof fn distant_selection_is_sound(storers: Seq<GossipStorer>, top: Seq<int>)
    requires
        is_closest(storers, top),
    ensures
        distant_choice(storers, top).no_duplicates(),
        top.len() <= distant_choice(storers, top).len() <= MAX_PEERS_FOR_DISTANT,
        distant_choice(storers, top).subrange(0, top.len() as int) == top,
        forall|k: int|
            #![trigger storers[k]]
            0 <= k < storers.len() && !distant_choice(storers, top).contains(k)
                ==> distant_choice(storers, top).len() == MAX_PEERS_FOR_DISTANT,
{
    lemma_one_per_bin_sound(storers, top, Set::empty(), 0);
    let spread = with_one_per_bin(storers, top, Set::empty(), 0);
    lemma_filled_sound(storers, spread, 0);
    assert(distant_choice(storers, top).subrange(0, top.len() as int) =~= distant_choice(
        storers,
        top,
    ).subrange(0, spread.len() as int).subrange(0, top.len() as int));
}

/// Whether `peers` ascend by distance to `subject`.
pub open spec fn ascends(peers: Seq<OverlayAddress>, subject: OverlayAddress) -> bool {
    forall|i: int, j: int|
        #![trigger peers[i], peers[j]]
        0 <= i <= j < peers.len() ==> crate::primitives::distance(subject, peers[i])
            <= crate::primitives::distance(subject, peers[j])
}

proof fn lemma_placed_ascends(
    sorted: Seq<OverlayAddress>,
    peer: OverlayAddress,
    subject: OverlayAddress,
)
    requires
        ascends(sorted, subject),
    ensures
        ascends(placed(sorted, peer, subject), subject),
        placed(sorted, peer, subject).len() == sorted.len() + 1,
        sorted.len() > 0 ==> crate::primitives::distance(
            subject,
            placed(sorted, peer, subject).last(),
        ) <= (if crate::primitives::distance(subject, sorted.last())
            <= crate::primitives::distance(subject, peer) {
            crate::primitives::distance(subject, peer)
        } else {
            crate::primitives::distance(subject, sorted.last())
        }),
        sorted.len() == 0 ==> placed(sorted, peer, subject).last() == peer,
    decreases sorted.len(),
{
    if sorted.len() > 0 && crate::primitives::distance(subject, sorted.last())
        > crate::primitives::distance(subject, peer) {
        let shorter = sorted.drop_last();
        assert forall|i: int, j: int|
            #![trigger shorter[i], shorter[j]]
            0 <= i <= j < shorter.len() implies crate::primitives::distance(subject, shorter[i])
            <= crate::primitives::distance(subject, shorter[j]) by {
            assert(sorted[i] == shorter[i]);
            assert(sorted[j] == shorter[j]);
        }
        lemma_placed_ascends(shorter, peer, subject);
        let inner = placed(shorter, peer, subject);
        let all = inner.push(sorted.last());
        assert(crate::primitives::distance(subject, inner.last()) <= crate::primitives::distance(
            subject,
            sorted.last(),
        )) by {
            if shorter.len() > 0 {
                assert(shorter.last() == sorted[sorted.len() - 2]);
                assert(sorted.last() == sorted[sorted.len() - 1]);
            }
        }
        assert forall|i: int, j: int|
            #![trigger all[i], all[j]]
            0 <= i <= j < all.len() implies crate::primitives::distance(subject, all[i])
            <= crate::primitives::distance(subject, all[j]) by {
            if j == inner.len() && i < j {
                assert(all[i] == inner[i]);
                assert(inner[inner.len() - 1] == inner.last());
            } else if j < inner.len() {
                assert(all[i] == inner[i]);
                assert(all[j] == inner[j]);
            }
        }
    } else {
        let all = sorted.push(peer);
        assert forall|i: int, j: int|
            #![trigger all[i], all[j]]
            0 <= i <= j < all.len() implies crate::primitives::distance(subject, all[i])
            <= crate::primitives::distance(subject, all[j]) by {
            if j == sorted.len() && i < j {
                assert(all[i] == sorted[i]);
                assert(sorted[sorted.len() - 1] == sorted.last());
            } else if j < sorted.len() {
                assert(all[i] == sorted[i]);
                assert(all[j] == sorted[j]);
            }
        }
    }
}

/// The sample of a bin leads with the storers closest to the announced peer.
pub proof fn sample_is_closest_first(
    active: Seq<OverlayAddress>,
    local: OverlayAddress,
    book: PeerBook,
    exclude: OverlayAddress,
    subject: OverlayAddress,
    bin: nat,
)
    ensures
        ascends(storers_by_distance(active, local, book, exclude, subject, bin), subject),
    decreases active.len(),
{
    if active.len() > 0 {
        sample_is_closest_first(active.drop_last(), local, book, exclude, subject, bin);
        lemma_placed_ascends(
            storers_by_distance(active.drop_last(), local, book, exclude, subject, bin),
            active.last(),
            subject,
        );
    }
}

/// The sample holds at most `per_bin` storers of each bin.
pub proof fn sample_is_bounded(
    active: Seq<OverlayAddress>,
    local: OverlayAddress,
    book: PeerBook,
    per_bin: nat,
    exclude: OverlayAddress,
    subject: OverlayAddress,
    n: nat,
)
    ensures
        sampled(active, local, book, per_bin, exclude, subject, n).len() <= n * per_bin,
    decreases n,
{
    if n > 0 {
        sample_is_bounded(active, local, book, per_bin, exclude, subject, (n - 1) as nat);
        assert(n * per_bin == (n - 1) * per_bin + per_bin) by (nonlinear_arith)
            requires
                n >= 1,
        ;
    }
}

/// Each storer that may be gossiped stands for a record, and each record of a
/// storer with its addresses on file for one that may be gossiped.
pub proof fn gossip_storers_are_on_file(
    records: Seq<PeerRecord>,
    local: OverlayAddress,
    recipient: OverlayAddress,
)
    ensures
        ({
            let storers = gossip_storers(records, local, recipient);
            &&& forall|k: int|
                #![trigger storers[k]]
                0 <= k < storers.len() ==> exists|r: int|
                    #![trigger records[r]]
                    {
                        &&& 0 <= r < records.len()
                        &&& records[r].overlay == storers[k].overlay
                        &&& records[r].node_type == Some(SwarmNodeType::Storer)
                        &&& records[r].addressed
                    }
            &&& forall|k: int|
                #![trigger storers[k]]
                0 <= k < storers.len() ==> storers[k].bin == crate::primitives::proximity_order(
                    local,
                    storers[k].overlay,
                ) && storers[k].recipient_proximity == crate::primitives::proximity_order(
                    recipient,
                    storers[k].overlay,
                )
            &&& forall|peer: OverlayAddress, r: int|
                #![trigger super::peers::record_at(records, peer, r)]
                super::peers::record_at(records, peer, r) && records[r].node_type == Some(
                    SwarmNodeType::Storer,
                ) && records[r].addressed ==> exists|k: int|
                    #![trigger storers[k]]
                    0 <= k < storers.len() && storers[k].overlay == peer
            &&& super::peers::distinct_records(records) ==> forall|k: int, m: int|
                #![trigger storers[k], storers[m]]
                0 <= k < m < storers.len() ==> storers[k].overlay != storers[m].overlay
        }),
    decreases records.len(),
{
    if records.len() > 0 {
        let less = records.drop_last();
        let last = records.len() - 1;
        gossip_storers_are_on_file(less, local, recipient);
        let before = gossip_storers(less, local, recipient);
        let storers = gossip_storers(records, local, recipient);
        assert(records[last] == records.last());
        crate::primitives::proximity_is_bounded(local, records[last].overlay);
        crate::primitives::proximity_is_bounded(recipient, records[last].overlay);
        assert forall|k: int| #![trigger storers[k]] 0 <= k < storers.len() implies exists|r: int|
            #![trigger records[r]]
            {
                &&& 0 <= r < records.len()
                &&& records[r].overlay == storers[k].overlay
                &&& records[r].node_type == Some(SwarmNodeType::Storer)
                &&& records[r].addressed
            } by {
            if k < before.len() {
                assert(before[k] == storers[k]);
                let r = choose|r: int|
                    #![trigger less[r]]
                    {
                        &&& 0 <= r < less.len()
                        &&& less[r].overlay == before[k].overlay
                        &&& less[r].node_type == Some(SwarmNodeType::Storer)
                        &&& less[r].addressed
                    };
                assert(records[r] == less[r]);
            } else {
                assert(records[last].overlay == storers[k].overlay);
            }
        }
        assert forall|k: int| #![trigger storers[k]] 0 <= k < storers.len() implies storers[k].bin
            == crate::primitives::proximity_order(local, storers[k].overlay)
            && storers[k].recipient_proximity == crate::primitives::proximity_order(
            recipient,
            storers[k].overlay,
        ) by {
            if k < before.len() {
                assert(before[k] == storers[k]);
            }
        }
        assert forall|peer: OverlayAddress, r: int|
            #![trigger super::peers::record_at(records, peer, r)]
            super::peers::record_at(records, peer, r) && records[r].node_type == Some(
                SwarmNodeType::Storer,
            ) && records[r].addressed implies exists|k: int|
            #![trigger storers[k]]
            0 <= k < storers.len() && storers[k].overlay == peer by {
            if r < last {
                assert(super::peers::record_at(less, peer, r));
                let k = choose|k: int|
                    #![trigger before[k]]
                    0 <= k < before.len() && before[k].overlay == peer;
                assert(storers[k] == before[k]);
            } else {
                assert(storers[storers.len() - 1].overlay == peer);
            }
        }
        if super::peers::distinct_records(records) {
            assert forall|i: int, j: int|
                #![trigger less[i], less[j]]
                0 <= i < less.len() && 0 <= j < less.len() && less[i].overlay
                    == less[j].overlay implies i == j by {
                assert(records[i] == less[i]);
                assert(records[j] == less[j]);
            }
            assert forall|k: int, m: int|
                #![trigger storers[k], storers[m]]
                0 <= k < m < storers.len() implies storers[k].overlay != storers[m].overlay by {
                assert(before[k] == storers[k]);
                if m < before.len() {
                    assert(before[m] == storers[m]);
                } else {
                    let r = choose|r: int|
                        #![trigger less[r]]
                        {
                            &&& 0 <= r < less.len()
                            &&& less[r].overlay == before[k].overlay
                            &&& less[r].node_type == Some(SwarmNodeType::Storer)
                            &&& less[r].addressed
                        };
                    assert(records[r] == less[r]);
                    assert(records[r].overlay != records[last].overlay);
                }
            }
        }
    }
}

/// What is selected for a distant recipient, in terms of the records: storers
/// with their addresses on file and no others, each with its bin, none twice,
/// the closest to the recipient first, and all of them where they fit.
pub proof fn distant_peers_are_storers_on_file(
    records: Seq<PeerRecord>,
    local: OverlayAddress,
    recipient: OverlayAddress,
    top: Seq<int>,
    selected: Seq<(OverlayAddress, u8)>,
)
    requires
        is_closest(gossip_storers(records, local, recipient), top),
        selected == chosen_peers(
            gossip_storers(records, local, recipient),
            distant_choice(gossip_storers(records, local, recipient), top),
        ),
    ensures
        forall|i: int|
            #![trigger selected[i]]
            0 <= i < selected.len() ==> {
                &&& selected[i].1 == crate::primitives::proximity_order(
                    local,
                    selected[i].0,
                )
                &&& exists|r: int|
                    #![trigger records[r]]
                    {
                        &&& 0 <= r < records.len()
                        &&& records[r].overlay == selected[i].0
                        &&& records[r].node_type == Some(SwarmNodeType::Storer)
                        &&& records[r].addressed
                    }
            },
        selected.len() <= MAX_PEERS_FOR_DISTANT,
        selected.len() < MAX_PEERS_FOR_DISTANT ==> forall|peer: OverlayAddress, r: int|
            #![trigger super::peers::record_at(records, peer, r)]
            super::peers::record_at(records, peer, r) && records[r].node_type
                == Some(SwarmNodeType::Storer) && records[r].addressed ==> exists|i: int|
                #![trigger selected[i]]
                0 <= i < selected.len() && selected[i].0 == peer,
        forall|i: int, peer: OverlayAddress, r: int|
            #![trigger selected[i], super::peers::record_at(records, peer, r)]
            {
                &&& 0 <= i < selected.len()
                &&& i < CLOSE_PEERS_COUNT
                &&& super::peers::record_at(records, peer, r)
                &&& records[r].node_type == Some(SwarmNodeType::Storer)
                &&& records[r].addressed
                &&& forall|j: int|
                    #![trigger selected[j]]
                    0 <= j < selected.len() && j < CLOSE_PEERS_COUNT ==> selected[j].0
                        != peer
            } ==> crate::primitives::proximity_order(recipient, selected[i].0)
                >= crate::primitives::proximity_order(recipient, peer),
        super::peers::distinct_records(records) ==> forall|i: int, j: int|
            #![trigger selected[i], selected[j]]
            0 <= i < j < selected.len() ==> selected[i].0 != selected[j].0,
{
    let storers = gossip_storers(records, local, recipient);
    let chosen = distant_choice(storers, top);
    gossip_storers_are_on_file(records, local, recipient);
    distant_selection_is_sound(storers, top);
    lemma_one_per_bin_sound(storers, top, Set::empty(), 0);
    lemma_filled_sound(storers, with_one_per_bin(storers, top, Set::empty(), 0), 0);
    assert forall|i: int| #![trigger selected[i]] 0 <= i < selected.len() implies {
        &&& selected[i].1 == crate::primitives::proximity_order(local, selected[i].0)
        &&& exists|r: int|
            #![trigger records[r]]
            {
                &&& 0 <= r < records.len()
                &&& records[r].overlay == selected[i].0
                &&& records[r].node_type == Some(SwarmNodeType::Storer)
                &&& records[r].addressed
            }
    } by {
        let k = chosen[i];
        assert(selected[i] == (storers[k].overlay, storers[k].bin));
    }
    if selected.len() < MAX_PEERS_FOR_DISTANT {
        assert forall|peer: OverlayAddress, r: int|
            #![trigger super::peers::record_at(records, peer, r)]
            super::peers::record_at(records, peer, r) && records[r].node_type == Some(
                SwarmNodeType::Storer,
            ) && records[r].addressed implies exists|i: int|
            #![trigger selected[i]]
            0 <= i < selected.len() && selected[i].0 == peer by {
            let k = choose|k: int|
                #![trigger storers[k]]
                0 <= k < storers.len() && storers[k].overlay == peer;
            assert(chosen.contains(k));
            let i = choose|i: int| 0 <= i < chosen.len() && chosen[i] == k;
            assert(selected[i].0 == peer);
        }
    }
    assert forall|i: int, peer: OverlayAddress, r: int|
        #![trigger selected[i], super::peers::record_at(records, peer, r)]
        {
            &&& 0 <= i < selected.len()
            &&& i < CLOSE_PEERS_COUNT
            &&& super::peers::record_at(records, peer, r)
            &&& records[r].node_type == Some(SwarmNodeType::Storer)
            &&& records[r].addressed
            &&& forall|j: int|
                #![trigger selected[j]]
                0 <= j < selected.len() && j < CLOSE_PEERS_COUNT ==> selected[j].0 != peer
        } implies crate::primitives::proximity_order(recipient, selected[i].0)
        >= crate::primitives::proximity_order(recipient, peer) by {
        let k = choose|k: int|
            #![trigger storers[k]]
            0 <= k < storers.len() && storers[k].overlay == peer;
        assert forall|j: int| 0 <= j < top.len() implies top[j] == chosen[j] by {
            assert(chosen.subrange(0, top.len() as int)[j] == chosen[j]);
        }
        if top.contains(k) {
            let j = choose|j: int| 0 <= j < top.len() && top[j] == k;
            assert(selected[j].0 == storers[chosen[j]].overlay);
            assert(false);
        }
        if i >= top.len() {
            assert(storers.len() == top.len());
            lemma_distinct_below(chosen, storers.len());
            assert(false);
        }
        assert(selected[i].0 == storers[top[i]].overlay);
        assert(storers[top[i]].recipient_proximity >= storers[k].recipient_proximity);
    }
    if super::peers::distinct_records(records) {
        assert forall|i: int, j: int|
            #![trigger selected[i], selected[j]]
            0 <= i < j < selected.len() implies selected[i].0 != selected[j].0 by {
            let a = chosen[i];
            let b = chosen[j];
            assert(a != b);
            assert(selected[i].0 == storers[a].overlay);
            assert(selected[j].0 == storers[b].overlay);
            if a < b {
                assert(storers[a].overlay != storers[b].overlay);
            } else {
                assert(storers[b].overlay != storers[a].overlay);
            }
        }
    }
}

/// Distinct numbers below `n` are at most `n`.
proof fn lemma_distinct_below(list: Seq<int>, n: nat)
    requires
        list.no_duplicates(),
        forall|i: int| #![trigger list[i]] 0 <= i < list.len() ==> 0 <= list[i] < n,
    ensures
        list.len() <= n,
    decreases n,
{
    if n == 0 {
        if list.len() > 0 {
            assert(0 <= list[0] < n);
        }
    } else if list.contains(n - 1) {
        let at = choose|at: int| 0 <= at < list.len() && list[at] == n - 1;
        let rest = list.remove(at);
        assert forall|i: int| #![trigger rest[i]] 0 <= i < rest.len() implies 0 <= rest[i] < n
            - 1 by {
            if i < at {
                assert(rest[i] == list[i]);
            } else {
                assert(rest[i] == list[i + 1]);
            }
        }
        assert(rest.no_duplicates());
        lemma_distinct_below(rest, (n - 1) as nat);
    } else {
        assert forall|i: int| #![trigger list[i]] 0 <= i < list.len() implies 0 <= list[i] < n
            - 1 by {
            if list[i] == n - 1 {
                assert(list.contains(n - 1));
            }
        }
        lemma_distinct_below(list, (n - 1) as nat);
    }
}

/// Whether `chosen` holds a storer of `bin`.
pub open spec fn shows_bin(storers: Seq<GossipStorer>, chosen: Seq<int>, bin: u8) -> bool {
    exists|m: int| #![trigger chosen[m]] 0 <= m < chosen.len() && storers[chosen[m]].bin == bin
}

proof fn lemma_one_per_bin_spreads(
    storers: Seq<GossipStorer>,
    chosen: Seq<int>,
    bins: Set<u8>,
    i: int,
    led: int,
)
    requires
        0 <= i,
        0 <= led <= chosen.len() <= MAX_PEERS_FOR_DISTANT,
        forall|m: int|
            #![trigger chosen[m]]
            led <= m < chosen.len() ==> bins.contains(storers[chosen[m]].bin),
        forall|b: u8| #[trigger] bins.contains(b) ==> shows_bin(storers, chosen, b),
        forall|m: int, n: int|
            #![trigger chosen[m], chosen[n]]
            led <= m < n < chosen.len() ==> storers[chosen[m]].bin != storers[chosen[n]].bin,
        forall|k: int|
            #![trigger storers[k]]
            0 <= k < i && k < storers.len() ==> shows_bin(storers, chosen, storers[k].bin),
    ensures
        ({
            let all = with_one_per_bin(storers, chosen, bins, i);
            &&& chosen.len() <= all.len() <= MAX_PEERS_FOR_DISTANT
            &&& forall|m: int, n: int|
                #![trigger all[m], all[n]]
                led <= m < n < all.len() ==> storers[all[m]].bin != storers[all[n]].bin
            &&& all.len() < MAX_PEERS_FOR_DISTANT ==> forall|k: int|
                #![trigger storers[k]]
                0 <= k < storers.len() ==> shows_bin(storers, all, storers[k].bin)
        }),
    decreases storers.len() - i,
{
    if i < storers.len() && chosen.len() < MAX_PEERS_FOR_DISTANT {
        if !chosen.contains(i) && !bins.contains(storers[i].bin) {
            let next = chosen.push(i);
            let more = bins.insert(storers[i].bin);
            let last = chosen.len() as int;
            assert(next[last] == i);
            assert forall|b: u8| shows_bin(storers, chosen, b) implies shows_bin(
                storers,
                next,
                b,
            ) by {
                let m = choose|m: int|
                    #![trigger chosen[m]]
                    0 <= m < chosen.len() && storers[chosen[m]].bin == b;
                assert(next[m] == chosen[m]);
            }
            assert(shows_bin(storers, next, storers[i].bin));
            assert forall|m: int| #![trigger next[m]] led <= m < next.len() implies more.contains(
                storers[next[m]].bin,
            ) by {
                if m < last {
                    assert(next[m] == chosen[m]);
                }
            }
            assert forall|m: int, n: int|
                #![trigger next[m], next[n]]
                led <= m < n < next.len() implies storers[next[m]].bin != storers[next[n]].bin by {
                assert(next[m] == chosen[m]);
                if n < last {
                    assert(next[n] == chosen[n]);
                }
            }
            assert forall|k: int|
                #![trigger storers[k]]
                0 <= k < i + 1 && k < storers.len() implies shows_bin(
                storers,
                next,
                storers[k].bin,
            ) by {
                if k < i {
                    assert(shows_bin(storers, chosen, storers[k].bin));
                }
            }
            lemma_one_per_bin_spreads(storers, next, more, i + 1, led);
        } else {
            if chosen.contains(i) {
                let m = choose|m: int| 0 <= m < chosen.len() && chosen[m] == i;
                assert(storers[chosen[m]].bin == storers[i].bin);
            }
            assert(shows_bin(storers, chosen, storers[i].bin));
            lemma_one_per_bin_spreads(storers, chosen, bins, i + 1, led);
        }
    }
}

/// Behind the closest ones a selection spreads over the bins: two peers of one
/// bin are named there only where every bin that a storer is known of is
/// named.
pub proof fn distant_selection_spreads_over_the_bins(
    storers: Seq<GossipStorer>,
    top: Seq<int>,
    m: int,
    n: int,
    k: int,
)
    requires
        is_closest(storers, top),
        top.len() <= m < n < distant_choice(storers, top).len(),
        storers[distant_choice(storers, top)[m]].bin == storers[distant_choice(
            storers,
            top,
        )[n]].bin,
        0 <= k < storers.len(),
    ensures
        exists|i: int|
            #![trigger distant_choice(storers, top)[i]]
            0 <= i < distant_choice(storers, top).len() && storers[distant_choice(
                storers,
                top,
            )[i]].bin == storers[k].bin,
{
    let spread = with_one_per_bin(storers, top, Set::empty(), 0);
    let all = distant_choice(storers, top);
    lemma_one_per_bin_sound(storers, top, Set::empty(), 0);
    lemma_one_per_bin_spreads(storers, top, Set::empty(), 0, top.len() as int);
    lemma_filled_sound(storers, spread, 0);
    assert forall|j: int| 0 <= j < spread.len() implies spread[j] == all[j] by {
        assert(all.subrange(0, spread.len() as int)[j] == all[j]);
    }
    if spread.len() == MAX_PEERS_FOR_DISTANT {
        assert(all.len() == spread.len());
        assert(storers[spread[m]].bin != storers[spread[n]].bin);
        assert(false);
    }
    assert(shows_bin(storers, spread, storers[k].bin));
    let i = choose|i: int|
        #![trigger spread[i]]
        0 <= i < spread.len() && storers[spread[i]].bin == storers[k].bin;
    assert(all[i] == spread[i]);
}

/// The connected neighbors are the active peers within the depth that are known
/// to store chunks.
pub proof fn neighbors_are_close_storers(
    active: Seq<OverlayAddress>,
    local: OverlayAddress,
    book: PeerBook,
    depth: NeighborhoodDepth,
    peer: OverlayAddress,
)
    ensures
        neighbors_among(active, local, book, depth).contains(peer) <==> {
            &&& active.contains(peer)
            &&& crate::primitives::proximity_order(local, peer) >= depth.raw
            &&& book.lookup(peer) matches Some(record) && record.node_type == Some(
                SwarmNodeType::Storer,
            )
        },
    decreases active.len(),
{
    if active.len() > 0 {
        let less = active.drop_last();
        neighbors_are_close_storers(less, local, book, depth, peer);
        lemma_last_member(active, peer);
        lemma_pushed_member(
            neighbors_among(less, local, book, depth),
            active.last(),
            peer,
        );
    }
}

/// A member of a list is its last one or a member of the rest.
proof fn lemma_last_member(list: Seq<OverlayAddress>, peer: OverlayAddress)
    requires
        list.len() > 0,
    ensures
        list.contains(peer) <==> list.drop_last().contains(peer) || list.last() == peer,
{
    assert(list =~= list.drop_last().push(list.last()));
    lemma_pushed_member(list.drop_last(), list.last(), peer);
}

proof fn lemma_pushed_member(list: Seq<OverlayAddress>, last: OverlayAddress, peer: OverlayAddress)
    ensures
        list.push(last).contains(peer) <==> list.contains(peer) || last == peer,
{
    let all = list.push(last);
    if all.contains(peer) {
        let k = choose|k: int| 0 <= k < all.len() && all[k] == peer;
        if k < list.len() {
            assert(list[k] == peer);
        }
    }
    if list.contains(peer) {
        let k = choose|k: int| 0 <= k < list.len() && list[k] == peer;
        assert(all[k] == peer);
    }
    assert(all[list.len() as int] == last);
}

proof fn lemma_joined_member(
    first: Seq<OverlayAddress>,
    second: Seq<OverlayAddress>,
    peer: OverlayAddress,
)
    ensures
        (first + second).contains(peer) <==> first.contains(peer) || second.contains(peer),
{
    let all = first + second;
    if all.contains(peer) {
        let k = choose|k: int| 0 <= k < all.len() && all[k] == peer;
        if k < first.len() {
            assert(first[k] == peer);
        } else {
            assert(second[k - first.len()] == peer);
        }
    }
    if first.contains(peer) {
        let k = choose|k: int| 0 <= k < first.len() && first[k] == peer;
        assert(all[k] == peer);
    }
    if second.contains(peer) {
        let k = choose|k: int| 0 <= k < second.len() && second[k] == peer;
        assert(all[first.len() + k] == peer);
    }
}

/// The connected clients are the active peers that are known to be clients.
pub proof fn clients_are_active_clients(
    active: Seq<OverlayAddress>,
    book: PeerBook,
    peer: OverlayAddress,
)
    ensures
        clients_among(active, book).contains(peer) <==> {
            &&& active.contains(peer)
            &&& book.lookup(peer) matches Some(record) && record.node_type == Some(
                SwarmNodeType::Client,
            )
        },
    decreases active.len(),
{
    if active.len() > 0 {
        let less = active.drop_last();
        clients_are_active_clients(less, book, peer);
        lemma_last_member(active, peer);
        lemma_pushed_member(clients_among(less, book), active.last(), peer);
    }
}

proof fn lemma_placed_members(
    sorted: Seq<OverlayAddress>,
    peer: OverlayAddress,
    subject: OverlayAddress,
    other: OverlayAddress,
)
    ensures
        placed(sorted, peer, subject).contains(other) <==> sorted.contains(other) || other == peer,
    decreases sorted.len(),
{
    if sorted.len() == 0 || crate::primitives::distance(subject, sorted.last())
        <= crate::primitives::distance(subject, peer) {
        lemma_pushed_member(sorted, peer, other);
    } else {
        lemma_placed_members(sorted.drop_last(), peer, subject, other);
        lemma_last_member(sorted, other);
        lemma_pushed_member(placed(sorted.drop_last(), peer, subject), sorted.last(), other);
    }
}

proof fn lemma_placed_distinct(
    sorted: Seq<OverlayAddress>,
    peer: OverlayAddress,
    subject: OverlayAddress,
)
    requires
        sorted.no_duplicates(),
        !sorted.contains(peer),
    ensures
        placed(sorted, peer, subject).no_duplicates(),
    decreases sorted.len(),
{
    if sorted.len() == 0 || crate::primitives::distance(subject, sorted.last())
        <= crate::primitives::distance(subject, peer) {
        assert(sorted.push(peer).no_duplicates());
    } else {
        let less = sorted.drop_last();
        let last = sorted.last();
        lemma_last_member(sorted, peer);
        lemma_placed_distinct(less, peer, subject);
        let inner = placed(less, peer, subject);
        lemma_placed_members(less, peer, subject, last);
        if less.contains(last) {
            let k = choose|k: int| 0 <= k < less.len() && less[k] == last;
            assert(sorted[k] == sorted[sorted.len() - 1]);
            assert(false);
        }
        assert(!inner.contains(last));
        assert(inner.push(last).no_duplicates());
    }
}

/// The storers of a bin are the active peers of the bin that are known to store
/// chunks and are not the excluded one, none twice where no peer is active
/// twice.
pub proof fn bin_storers_are_active_storers(
    active: Seq<OverlayAddress>,
    local: OverlayAddress,
    book: PeerBook,
    exclude: OverlayAddress,
    subject: OverlayAddress,
    bin: nat,
    peer: OverlayAddress,
)
    ensures
        storers_by_distance(active, local, book, exclude, subject, bin).contains(peer) <==> {
            &&& active.contains(peer)
            &&& peer != exclude
            &&& crate::primitives::proximity_order(local, peer) == bin
            &&& book.lookup(peer) matches Some(record) && record.node_type == Some(
                SwarmNodeType::Storer,
            )
        },
        active.no_duplicates() ==> storers_by_distance(
            active,
            local,
            book,
            exclude,
            subject,
            bin,
        ).no_duplicates(),
    decreases active.len(),
{
    if active.len() > 0 {
        let less = active.drop_last();
        let last = active.last();
        bin_storers_are_active_storers(less, local, book, exclude, subject, bin, peer);
        bin_storers_are_active_storers(less, local, book, exclude, subject, bin, last);
        lemma_last_member(active, peer);
        let rest = storers_by_distance(less, local, book, exclude, subject, bin);
        lemma_placed_members(rest, last, subject, peer);
        if active.no_duplicates() {
            if less.contains(last) {
                let k = choose|k: int| 0 <= k < less.len() && less[k] == last;
                assert(active[k] == active[active.len() - 1]);
                assert(false);
            }
            assert(less.no_duplicates());
            lemma_placed_distinct(rest, last, subject);
        }
    }
}

/// Every peer sampled is an active one that is known to store chunks, and not
/// the excluded one.
pub proof fn sampled_peers_are_storers(
    active: Seq<OverlayAddress>,
    local: OverlayAddress,
    book: PeerBook,
    per_bin: nat,
    exclude: OverlayAddress,
    subject: OverlayAddress,
    n: nat,
    peer: OverlayAddress,
)
    requires
        sampled(active, local, book, per_bin, exclude, subject, n).contains(peer),
    ensures
        active.contains(peer),
        peer != exclude,
        crate::primitives::proximity_order(local, peer) < n,
        book.lookup(peer) matches Some(record) && record.node_type == Some(SwarmNodeType::Storer),
    decreases n,
{
    if n > 0 {
        let before = sampled(active, local, book, per_bin, exclude, subject, (n - 1) as nat);
        let row = storers_by_distance(active, local, book, exclude, subject, (n - 1) as nat);
        let own = super::peers::leading(row, per_bin);
        lemma_joined_member(before, own, peer);
        if before.contains(peer) {
            sampled_peers_are_storers(
                active,
                local,
                book,
                per_bin,
                exclude,
                subject,
                (n - 1) as nat,
                peer,
            );
        } else {
            let k = choose|k: int| 0 <= k < own.len() && own[k] == peer;
            assert(row[k] == peer);
            bin_storers_are_active_storers(
                active,
                local,
                book,
                exclude,
                subject,
                (n - 1) as nat,
                peer,
            );
        }
    }
}

/// An active storer that was not sampled had to give way: as many as are taken
/// of a bin were taken of its own, none of them farther from the announced
/// peer.
pub proof fn unsampled_storers_are_farther(
    active: Seq<OverlayAddress>,
    local: OverlayAddress,
    book: PeerBook,
    per_bin: nat,
    exclude: OverlayAddress,
    subject: OverlayAddress,
    n: nat,
    peer: OverlayAddress,
)
    requires
        active.contains(peer),
        peer != exclude,
        crate::primitives::proximity_order(local, peer) < n,
        book.lookup(peer) matches Some(record) && record.node_type == Some(SwarmNodeType::Storer),
        !sampled(active, local, book, per_bin, exclude, subject, n).contains(peer),
    ensures
        exists|row: Seq<OverlayAddress>|
            #![trigger ascends(row, subject)]
            {
                &&& ascends(row, subject)
                &&& row.len() == per_bin
                &&& active.no_duplicates() ==> row.no_duplicates()
                &&& forall|j: int|
                    #![trigger row[j]]
                    0 <= j < row.len() ==> sampled(
                        active,
                        local,
                        book,
                        per_bin,
                        exclude,
                        subject,
                        n,
                    ).contains(row[j]) && crate::primitives::proximity_order(local, row[j])
                        == crate::primitives::proximity_order(local, peer)
                        && crate::primitives::distance(subject, row[j])
                        <= crate::primitives::distance(subject, peer)
            },
    decreases n,
{
    let less = (n - 1) as nat;
    let before = sampled(active, local, book, per_bin, exclude, subject, less);
    let all = sampled(active, local, book, per_bin, exclude, subject, n);
    let bin_row = storers_by_distance(active, local, book, exclude, subject, less);
    let own = super::peers::leading(bin_row, per_bin);
    lemma_joined_member(before, own, peer);
    if crate::primitives::proximity_order(local, peer) < less {
        unsampled_storers_are_farther(
            active,
            local,
            book,
            per_bin,
            exclude,
            subject,
            less,
            peer,
        );
        let row = choose|row: Seq<OverlayAddress>|
            #![trigger ascends(row, subject)]
            {
                &&& ascends(row, subject)
                &&& row.len() == per_bin
                &&& active.no_duplicates() ==> row.no_duplicates()
                &&& forall|j: int|
                    #![trigger row[j]]
                    0 <= j < row.len() ==> before.contains(row[j])
                        && crate::primitives::proximity_order(local, row[j])
                        == crate::primitives::proximity_order(local, peer)
                        && crate::primitives::distance(subject, row[j])
                        <= crate::primitives::distance(subject, peer)
            };
        assert forall|j: int| #![trigger row[j]] 0 <= j < row.len() implies all.contains(
            row[j],
        ) by {
            lemma_joined_member(before, own, row[j]);
        }
        assert(ascends(row, subject));
    } else {
        bin_storers_are_active_storers(active, local, book, exclude, subject, less, peer);
        sample_is_closest_first(active, local, book, exclude, subject, less);
        let at = choose|k: int| 0 <= k < bin_row.len() && bin_row[k] == peer;
        assert(own.len() == per_bin) by {
            if own.len() != per_bin {
                assert(own[at] == peer);
                assert(own.contains(peer));
            }
        }
        assert(at >= per_bin) by {
            if at < per_bin {
                assert(own[at] == peer);
                assert(own.contains(peer));
            }
        }
        assert forall|j: int| #![trigger own[j]] 0 <= j < own.len() implies all.contains(own[j])
            && crate::primitives::proximity_order(local, own[j])
            == crate::primitives::proximity_order(local, peer) && crate::primitives::distance(
            subject,
            own[j],
        ) <= crate::primitives::distance(subject, peer) by {
            assert(own[j] == bin_row[j]);
            assert(bin_row.contains(bin_row[j]));
            assert(own.contains(own[j]));
            lemma_joined_member(before, own, own[j]);
            bin_storers_are_active_storers(
                active,
                local,
                book,
                exclude,
                subject,
                less,
                own[j],
            );
            assert(crate::primitives::distance(subject, bin_row[j])
                <= crate::primitives::distance(subject, bin_row[at]));
        }
        assert(ascends(own, subject)) by {
            assert forall|i: int, j: int|
                #![trigger own[i], own[j]]
                0 <= i <= j < own.len() implies crate::primitives::distance(subject, own[i])
                <= crate::primitives::distance(subject, own[j]) by {
                assert(own[i] == bin_row[i]);
                assert(own[j] == bin_row[j]);
            }
        }
        if active.no_duplicates() {
            assert(own.no_duplicates());
        }
    }
}

proof fn lemma_addressed_members(
    overlays: Seq<OverlayAddress>,
    book: PeerBook,
    exclude: Option<OverlayAddress>,
    peer: OverlayAddress,
)
    ensures
        addressed_except(overlays, book, exclude).contains(peer) <==> overlays.contains(peer)
            && exclude != Some(peer) && (book.lookup(peer) matches Some(record)
            && record.addressed),
    decreases overlays.len(),
{
    if overlays.len() > 0 {
        let less = overlays.drop_last();
        lemma_addressed_members(less, book, exclude, peer);
        lemma_last_member(overlays, peer);
        lemma_pushed_member(addressed_except(less, book, exclude), overlays.last(), peer);
    }
}

/// The known peers of the neighborhood are the storers on file with their
/// addresses whose bin is within it, without the excluded one.
pub proof fn neighborhood_peers_are_storers_on_file(
    book: PeerBook,
    exclude: Option<OverlayAddress>,
    low: int,
    high: int,
    peer: OverlayAddress,
)
    requires
        book.wf(),
        0 <= low,
    ensures
        neighborhood_storers(book, exclude, low, high).contains(peer) <==> {
            &&& low <= super::proximity_index::bin_of(book.local, book.max_po, peer) < high
            &&& exclude != Some(peer)
            &&& book.lookup(peer) matches Some(record) && record.node_type == Some(
                SwarmNodeType::Storer,
            ) && record.addressed
        },
    decreases high - low,
{
    if high > low {
        let before = neighborhood_storers(book, exclude, low, high - 1);
        let row = super::peers::storers_in(
            book.records@,
            book.local,
            book.max_po,
            (high - 1) as nat,
        );
        let own = addressed_except(row, book, exclude);
        neighborhood_peers_are_storers_on_file(book, exclude, low, high - 1, peer);
        lemma_joined_member(before, own, peer);
        lemma_addressed_members(row, book, exclude, peer);
        super::peers::known_storers_have_a_record(
            book.records@,
            book.local,
            book.max_po,
            (high - 1) as nat,
            peer,
        );
        super::peers::lookup_finds_the_record(book, peer);
        if book.lookup(peer) is Some {
            let i = choose|i: int| super::peers::record_at(book.records@, peer, i);
            assert(book.records@[i].overlay == peer);
        }
    }
}

proof fn lemma_one_per_bin_is_first(
    storers: Seq<GossipStorer>,
    chosen: Seq<int>,
    bins: Set<u8>,
    i: int,
    led: int,
)
    requires
        0 <= i,
        0 <= led <= chosen.len(),
        forall|m: int| #![trigger chosen[m]] led <= m < chosen.len() ==> 0 <= chosen[m] < i,
        forall|m: int, n: int|
            #![trigger chosen[m], chosen[n]]
            led <= m < n < chosen.len() ==> chosen[m] < chosen[n],
        forall|m: int|
            #![trigger chosen[m]]
            led <= m < chosen.len() ==> bins.contains(storers[chosen[m]].bin),
        forall|k: int|
            #![trigger storers[k]]
            0 <= k < i && k < storers.len() ==> bins.contains(storers[k].bin) || chosen.subrange(
                0,
                led,
            ).contains(k),
        forall|m: int, k: int|
            #![trigger chosen[m], storers[k]]
            led <= m < chosen.len() && 0 <= k < chosen[m] && storers[k].bin
                == storers[chosen[m]].bin ==> chosen.subrange(0, led).contains(k),
    ensures
        ({
            let all = with_one_per_bin(storers, chosen, bins, i);
            &&& all.len() >= chosen.len()
            &&& all.subrange(0, led) == chosen.subrange(0, led)
            &&& forall|m: int, n: int|
                #![trigger all[m], all[n]]
                led <= m < n < all.len() ==> all[m] < all[n]
            &&& forall|m: int, k: int|
                #![trigger all[m], storers[k]]
                led <= m < all.len() && 0 <= k < all[m] && storers[k].bin == storers[all[m]].bin
                    ==> all.subrange(0, led).contains(k)
        }),
    decreases storers.len() - i,
{
    if i < storers.len() && chosen.len() < MAX_PEERS_FOR_DISTANT {
        let top = chosen.subrange(0, led);
        if !chosen.contains(i) && !bins.contains(storers[i].bin) {
            let next = chosen.push(i);
            let more = bins.insert(storers[i].bin);
            let last = chosen.len() as int;
            assert(next.subrange(0, led) =~= top);
            assert(next[last] == i);
            assert forall|m: int| #![trigger next[m]] led <= m < next.len() implies 0 <= next[m] < i
                + 1 && more.contains(storers[next[m]].bin) by {
                if m < last {
                    assert(next[m] == chosen[m]);
                }
            }
            assert forall|m: int, n: int|
                #![trigger next[m], next[n]]
                led <= m < n < next.len() implies next[m] < next[n] by {
                assert(next[m] == chosen[m]);
                if n < last {
                    assert(next[n] == chosen[n]);
                }
            }
            assert forall|m: int, k: int|
                #![trigger next[m], storers[k]]
                led <= m < next.len() && 0 <= k < next[m] && storers[k].bin
                    == storers[next[m]].bin implies next.subrange(0, led).contains(k) by {
                if m < last {
                    assert(next[m] == chosen[m]);
                }
            }
            lemma_one_per_bin_is_first(storers, next, more, i + 1, led);
        } else {
            if chosen.contains(i) {
                let m = choose|m: int| 0 <= m < chosen.len() && chosen[m] == i;
                if m < led {
                    assert(top[m] == i);
                    assert(top.contains(i));
                } else {
                    assert(bins.contains(storers[chosen[m]].bin));
                }
            }
            lemma_one_per_bin_is_first(storers, chosen, bins, i + 1, led);
        }
    }
}

proof fn lemma_filled_in_order(storers: Seq<GossipStorer>, chosen: Seq<int>, i: int, led: int)
    requires
        0 <= i,
        0 <= led <= chosen.len() <= MAX_PEERS_FOR_DISTANT,
        forall|m: int| #![trigger chosen[m]] led <= m < chosen.len() ==> 0 <= chosen[m] < i,
        forall|m: int, n: int|
            #![trigger chosen[m], chosen[n]]
            led <= m < n < chosen.len() ==> chosen[m] < chosen[n],
        forall|k: int| 0 <= k < i && k < storers.len() ==> #[trigger] chosen.contains(k),
    ensures
        ({
            let all = filled(storers, chosen, i);
            &&& all.len() >= chosen.len()
            &&& all.subrange(0, chosen.len() as int) == chosen
            &&& forall|m: int, n: int|
                #![trigger all[m], all[n]]
                led <= m < n < all.len() ==> all[m] < all[n]
            &&& forall|k: int, m: int|
                #![trigger all[m], all.contains(k)]
                0 <= k < storers.len() && !all.contains(k) && led <= m < all.len() ==> all[m] < k
        }),
    decreases storers.len() - i,
{
    if i < storers.len() && chosen.len() < MAX_PEERS_FOR_DISTANT {
        if !chosen.contains(i) {
            let next = chosen.push(i);
            let last = chosen.len() as int;
            assert(next[last] == i);
            assert forall|k: int| 0 <= k < i + 1 && k < storers.len() implies #[trigger] next.contains(
                k,
            ) by {
                if k < i {
                    assert(chosen.contains(k));
                    let m = choose|m: int| 0 <= m < chosen.len() && chosen[m] == k;
                    assert(next[m] == k);
                } else {
                    assert(next[last] == k);
                }
            }
            assert forall|m: int| #![trigger next[m]] led <= m < next.len() implies 0 <= next[m] < i
                + 1 by {
                if m < last {
                    assert(next[m] == chosen[m]);
                }
            }
            assert forall|m: int, n: int|
                #![trigger next[m], next[n]]
                led <= m < n < next.len() implies next[m] < next[n] by {
                assert(next[m] == chosen[m]);
                if n < last {
                    assert(next[n] == chosen[n]);
                }
            }
            lemma_filled_in_order(storers, next, i + 1, led);
            let all = filled(storers, chosen, i);
            assert(all == filled(storers, next, i + 1));
            assert(all.subrange(0, last) =~= all.subrange(0, last + 1).drop_last());
            assert(next.drop_last() =~= chosen);
        } else {
            assert forall|k: int| 0 <= k < i + 1 && k < storers.len() implies #[trigger]
                chosen.contains(k) by {}
            lemma_filled_in_order(storers, chosen, i + 1, led);
            assert(filled(storers, chosen, i) == filled(storers, chosen, i + 1));
        }
    } else {
        assert(filled(storers, chosen, i) == chosen);
        assert(chosen.subrange(0, chosen.len() as int) =~= chosen);
        assert forall|k: int, m: int|
            #![trigger chosen[m], chosen.contains(k)]
            0 <= k < storers.len() && !chosen.contains(k) && led <= m
                < chosen.len() implies chosen[m] < k by {
            if k < i {
                assert(chosen.contains(k));
            }
        }
    }
}

/// Behind the closest ones come first the earliest storers of their bins that
/// are not among the closest, in book order, and then the earliest of the rest,
/// in book order too: whoever is left out comes after all of the latter.
pub proof fn distant_selection_follows_the_book(storers: Seq<GossipStorer>, top: Seq<int>)
    requires
        is_closest(storers, top),
    ensures
        exists|split: int|
            #![trigger distant_choice(storers, top).subrange(0, split)]
            {
                let all = distant_choice(storers, top);
                &&& top.len() <= split <= all.len()
                &&& forall|m: int, n: int|
                    #![trigger all[m], all[n]]
                    top.len() <= m < n < split ==> all[m] < all[n]
                &&& forall|m: int, k: int|
                    #![trigger all[m], storers[k]]
                    top.len() <= m < split && 0 <= k < all[m] && storers[k].bin
                        == storers[all[m]].bin ==> top.contains(k)
                &&& forall|m: int, n: int|
                    #![trigger all[m], all[n]]
                    split <= m < n < all.len() ==> all[m] < all[n]
                &&& forall|k: int, m: int|
                    #![trigger all[m], all.contains(k)]
                    0 <= k < storers.len() && !all.contains(k) && split <= m < all.len() ==> all[m]
                        < k
            },
{
    let led = top.len() as int;
    let spread = with_one_per_bin(storers, top, Set::empty(), 0);
    let all = distant_choice(storers, top);
    assert(top.subrange(0, led) =~= top);
    lemma_one_per_bin_sound(storers, top, Set::empty(), 0);
    lemma_one_per_bin_is_first(storers, top, Set::empty(), 0, led);
    lemma_filled_in_order(storers, spread, 0, spread.len() as int);
    let split = spread.len() as int;
    assert forall|j: int| 0 <= j < split implies spread[j] == all[j] by {
        assert(all.subrange(0, split)[j] == all[j]);
    }
    assert forall|m: int, n: int|
        #![trigger all[m], all[n]]
        led <= m < n < split implies all[m] < all[n] by {
        assert(spread[m] == all[m] && spread[n] == all[n]);
    }
    assert forall|m: int, k: int|
        #![trigger all[m], storers[k]]
        led <= m < split && 0 <= k < all[m] && storers[k].bin
            == storers[all[m]].bin implies top.contains(k) by {
        assert(spread[m] == all[m]);
    }
    assert(all.subrange(0, split) == spread);
}

/// A peer that becomes active comes last among the neighbors and the clients
/// that it belongs to.
pub proof fn active_peers_come_in_order(
    active: Seq<OverlayAddress>,
    peer: OverlayAddress,
    local: OverlayAddress,
    book: PeerBook,
    depth: NeighborhoodDepth,
)
    ensures
        ({
            let kind = match book.lookup(peer) {
                Some(record) => record.node_type,
                None => None,
            };
            let near = crate::primitives::proximity_order(local, peer) >= depth.raw;
            &&& neighbors_among(Seq::empty(), local, book, depth) == Seq::<OverlayAddress>::empty()
            &&& clients_among(Seq::empty(), book) == Seq::<OverlayAddress>::empty()
            &&& kind == Some(SwarmNodeType::Storer) && near ==> neighbors_among(
                active.push(peer),
                local,
                book,
                depth,
            ) == neighbors_among(active, local, book, depth).push(peer)
            &&& kind != Some(SwarmNodeType::Storer) || !near ==> neighbors_among(
                active.push(peer),
                local,
                book,
                depth,
            ) == neighbors_among(active, local, book, depth)
            &&& kind == Some(SwarmNodeType::Client) ==> clients_among(active.push(peer), book)
                == clients_among(active, book).push(peer)
            &&& kind != Some(SwarmNodeType::Client) ==> clients_among(active.push(peer), book)
                == clients_among(active, book)
        }),
{
    assert(active.push(peer).drop_last() =~= active);
}

/// A sample runs from the shallowest bin down, and takes no more of a bin than
/// it may.
pub proof fn samples_run_bin_by_bin(
    active: Seq<OverlayAddress>,
    local: OverlayAddress,
    book: PeerBook,
    per_bin: nat,
    exclude: OverlayAddress,
    subject: OverlayAddress,
    n: nat,
)
    ensures
        ({
            let all = sampled(active, local, book, per_bin, exclude, subject, n);
            &&& forall|i: int|
                #![trigger all[i]]
                0 <= i < all.len() ==> crate::primitives::proximity_order(local, all[i]) < n
            &&& forall|i: int, j: int|
                #![trigger all[i], all[j]]
                0 <= i < j < all.len() ==> crate::primitives::proximity_order(local, all[i])
                    <= crate::primitives::proximity_order(local, all[j])
            &&& forall|i: int, j: int|
                #![trigger all[i], all[j]]
                0 <= i < j < all.len() && j - i >= per_bin ==> crate::primitives::proximity_order(
                    local,
                    all[i],
                ) < crate::primitives::proximity_order(local, all[j])
        }),
    decreases n,
{
    if n > 0 {
        let less = (n - 1) as nat;
        let before = sampled(active, local, book, per_bin, exclude, subject, less);
        let row = storers_by_distance(active, local, book, exclude, subject, less);
        let own = super::peers::leading(row, per_bin);
        let all = sampled(active, local, book, per_bin, exclude, subject, n);
        samples_run_bin_by_bin(active, local, book, per_bin, exclude, subject, less);
        assert(all == before + own);
        assert forall|i: int| #![trigger all[i]] 0 <= i < all.len() implies (i < before.len()
            ==> all[i] == before[i]) && (i >= before.len() ==> crate::primitives::proximity_order(
            local,
            all[i],
        ) == less) by {
            if i >= before.len() {
                assert(all[i] == row[i - before.len()]);
                assert(row.contains(row[i - before.len()]));
                bin_storers_are_active_storers(
                    active,
                    local,
                    book,
                    exclude,
                    subject,
                    less,
                    all[i],
                );
            } else {
                assert(all[i] == before[i]);
            }
        }
        assert forall|i: int, j: int|
            #![trigger all[i], all[j]]
            0 <= i < j < all.len() implies crate::primitives::proximity_order(local, all[i])
            <= crate::primitives::proximity_order(local, all[j]) && (j - i >= per_bin
            ==> crate::primitives::proximity_order(local, all[i])
            < crate::primitives::proximity_order(local, all[j])) by {
            if j < before.len() {
                assert(all[i] == before[i] && all[j] == before[j]);
            } else if i < before.len() {
                assert(all[i] == before[i]);
                assert(crate::primitives::proximity_order(local, before[i]) < less);
            }
        }
    }
}

/// The known peers of the neighborhood come bin by bin, shallowest first.
pub proof fn neighborhood_peers_come_bin_by_bin(
    book: PeerBook,
    exclude: Option<OverlayAddress>,
    low: int,
    high: int,
)
    requires
        book.wf(),
        0 <= low,
    ensures
        ({
            let all = neighborhood_storers(book, exclude, low, high);
            forall|i: int, j: int|
                #![trigger all[i], all[j]]
                0 <= i < j < all.len() ==> super::proximity_index::bin_of(
                    book.local,
                    book.max_po,
                    all[i],
                ) <= super::proximity_index::bin_of(book.local, book.max_po, all[j])
        }),
    decreases high - low,
{
    if high > low {
        let before = neighborhood_storers(book, exclude, low, high - 1);
        let all = neighborhood_storers(book, exclude, low, high);
        neighborhood_peers_come_bin_by_bin(book, exclude, low, high - 1);
        let row = super::peers::storers_in(
            book.records@,
            book.local,
            book.max_po,
            (high - 1) as nat,
        );
        let own = addressed_except(row, book, exclude);
        assert(all == before + own);
        assert forall|i: int| #![trigger all[i]] 0 <= i < all.len() implies (i < before.len()
            ==> all[i] == before[i] && super::proximity_index::bin_of(
            book.local,
            book.max_po,
            all[i],
        ) < high - 1) && (i >= before.len() ==> super::proximity_index::bin_of(
            book.local,
            book.max_po,
            all[i],
        ) == high - 1) by {
            if i < before.len() {
                assert(before.contains(before[i]));
                neighborhood_peers_are_storers_on_file(book, exclude, low, high - 1, before[i]);
            } else {
                let peer = own[i - before.len()];
                assert(own.contains(peer));
                lemma_addressed_members(row, book, exclude, peer);
                super::peers::known_storers_have_a_record(
                    book.records@,
                    book.local,
                    book.max_po,
                    (high - 1) as nat,
                    peer,
                );
            }
        }
    }
}

} // verus!
