//! The peers of a list that are closest to an address.

use crate::arith::smaller_of;
use crate::primitives::{ChunkAddress, OverlayAddress};
use vstd::prelude::*;

verus! {

/// Whether `a` comes before `b` when `pool` is ordered by proximity to
/// `address`, closest first and equally close peers in the order of the pool.
pub open spec fn nearer(
    pool: Seq<OverlayAddress>,
    address: ChunkAddress,
    a: OverlayAddress,
    b: OverlayAddress,
) -> bool {
    let pa = crate::primitives::proximity_order(address, a);
    let pb = crate::primitives::proximity_order(address, b);
    pa > pb || (pa == pb && pool.index_of(a) < pool.index_of(b))
}

/// The `count` of `pool` closest to `address` by proximity, closest first and
/// equally close peers in the order of the pool.
pub fn nearest(address: &ChunkAddress, pool: Vec<OverlayAddress>, count: usize) -> (peers: Vec<
    OverlayAddress,
>)
    requires
        pool@.no_duplicates(),
    ensures
        peers.len() == crate::arith::smaller(count, pool.len()),
        peers@.no_duplicates(),
        forall|i: int| #![trigger peers@[i]] 0 <= i < peers.len() ==> pool@.contains(peers@[i]),
        forall|i: int, j: int|
            #![trigger peers@[i], peers@[j]]
            0 <= i < j < peers.len() ==> nearer(pool@, *address, peers@[i], peers@[j]),
        forall|i: int, other: OverlayAddress|
            #![trigger peers@[i], peers@.contains(other)]
            0 <= i < peers.len() && !peers@.contains(other) && pool@.contains(other) ==> nearer(
                pool@,
                *address,
                peers@[i],
                other,
            ),
{
    let ghost all = pool@;
    let mut rest: Vec<OverlayAddress> = pool;
    let mut peers: Vec<OverlayAddress> = Vec::new();
    let wanted: usize = smaller_of(count, rest.len());
    proof {
        assert forall|i: int, j: int|
            #![trigger rest@[i], rest@[j]]
            0 <= i < j < rest.len() implies all.index_of(rest@[i]) < all.index_of(rest@[j]) by {
            lemma_index_in_distinct(all, i);
            lemma_index_in_distinct(all, j);
        }
    }
    while peers.len() < wanted
        invariant
            peers.len() <= wanted <= all.len(),
            peers.len() + rest.len() == all.len(),
            rest@.no_duplicates(),
            peers@.no_duplicates(),
            forall|i: int, j: int|
                #![trigger rest@[i], rest@[j]]
                0 <= i < j < rest.len() ==> all.index_of(rest@[i]) < all.index_of(rest@[j]),
            forall|i: int| #![trigger peers@[i]] 0 <= i < peers.len() ==> all.contains(peers@[i]),
            forall|i: int| #![trigger rest@[i]] 0 <= i < rest.len() ==> all.contains(rest@[i]),
            forall|i: int, j: int|
                #![trigger peers@[i], rest@[j]]
                0 <= i < peers.len() && 0 <= j < rest.len() ==> peers@[i] != rest@[j] && nearer(
                    all,
                    *address,
                    peers@[i],
                    rest@[j],
                ),
            forall|i: int, j: int|
                #![trigger peers@[i], peers@[j]]
                0 <= i < j < peers.len() ==> nearer(all, *address, peers@[i], peers@[j]),
            forall|other: OverlayAddress|
                #![trigger all.contains(other)]
                all.contains(other) ==> rest@.contains(other) || peers@.contains(other),
        decreases wanted - peers.len(),
    {
        let mut best: usize = 0;
        let mut best_po: u8 = address.proximity(&rest[0]);
        let mut k: usize = 1;
        while k < rest.len()
            invariant
                1 <= k <= rest.len(),
                best < k,
                best_po as nat == crate::primitives::proximity_order(*address, rest@[best as int]),
                forall|j: int|
                    #![trigger rest@[j]]
                    0 <= j < best ==> crate::primitives::proximity_order(*address, rest@[j])
                        < best_po,
                forall|j: int|
                    #![trigger rest@[j]]
                    best <= j < k ==> crate::primitives::proximity_order(*address, rest@[j])
                        <= best_po,
            decreases rest.len() - k,
        {
            let po: u8 = address.proximity(&rest[k]);
            if po > best_po {
                best = k;
                best_po = po;
            }
            k = k + 1;
        }
        let ghost before_rest = rest@;
        let ghost before_peers = peers@;
        let peer: OverlayAddress = rest.remove(best);
        peers.push(peer);
        proof {
            assert(peer == before_rest[best as int]);
            assert forall|j: int| 0 <= j < rest.len() implies rest@[j] == before_rest[if j < best {
                j
            } else {
                j + 1
            }] by {}
            assert forall|j: int|
                #![trigger rest@[j]]
                0 <= j < rest.len() implies nearer(all, *address, peer, rest@[j]) && peer
                != rest@[j] by {
                let j0 = if j < best {
                    j
                } else {
                    j + 1
                };
                assert(rest@[j] == before_rest[j0]);
                if j0 > best {
                    assert(all.index_of(before_rest[best as int]) < all.index_of(before_rest[j0]));
                }
            }
            assert forall|other: OverlayAddress|
                #![trigger all.contains(other)]
                all.contains(other) implies rest@.contains(other) || peers@.contains(other) by {
                if before_peers.contains(other) {
                    let m = choose|m: int| 0 <= m < before_peers.len() && before_peers[m] == other;
                    assert(peers@[m] == other);
                } else {
                    assert(before_rest.contains(other));
                    let m = choose|m: int| 0 <= m < before_rest.len() && before_rest[m] == other;
                    if m == best {
                        assert(peers@[before_peers.len() as int] == other);
                    } else {
                        let n = if m < best {
                            m
                        } else {
                            m - 1
                        };
                        assert(rest@[n] == other);
                    }
                }
            }
            assert forall|i: int, j: int|
                #![trigger rest@[i], rest@[j]]
                0 <= i < j < rest.len() implies all.index_of(rest@[i]) < all.index_of(rest@[j]) by {
                let i0 = if i < best {
                    i
                } else {
                    i + 1
                };
                let j0 = if j < best {
                    j
                } else {
                    j + 1
                };
                assert(rest@[i] == before_rest[i0]);
                assert(rest@[j] == before_rest[j0]);
            }
        }
    }
    proof {
        assert forall|i: int, other: OverlayAddress|
            #![trigger peers@[i], peers@.contains(other)]
            0 <= i < peers.len() && !peers@.contains(other) && all.contains(other) implies nearer(
            all,
            *address,
            peers@[i],
            other,
        ) by {
            assert(rest@.contains(other));
            let m = choose|m: int| 0 <= m < rest@.len() && rest@[m] == other;
            assert(rest@[m] == other);
        }
    }
    peers
}

proof fn lemma_index_in_distinct(all: Seq<OverlayAddress>, i: int)
    requires
        all.no_duplicates(),
        0 <= i < all.len(),
    ensures
        all.index_of(all[i]) == i,
{
    assert(all.contains(all[i]));
}

/// The closer of two peers comes first; of two equally close ones, the one that
/// comes first in the pool.
pub proof fn the_closer_comes_first(
    pool: Seq<OverlayAddress>,
    address: ChunkAddress,
    a: OverlayAddress,
    b: OverlayAddress,
)
    ensures
        crate::primitives::proximity_order(address, a) > crate::primitives::proximity_order(
            address,
            b,
        ) ==> nearer(pool, address, a, b) && !nearer(pool, address, b, a),
        crate::primitives::proximity_order(address, a) == crate::primitives::proximity_order(
            address,
            b,
        ) ==> (nearer(pool, address, a, b) <==> pool.index_of(a) < pool.index_of(b)),
{
}

} // verus!
