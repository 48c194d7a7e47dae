//! Choosing the peers to trim from an overpopulated bin.

use crate::primitives::OverlayAddress;
use vstd::prelude::*;

verus! {

/// A peer that may be trimmed.
#[derive(Clone, Copy, Debug, PartialEq, Eq, Structural)]
pub struct TrimEntry {
    pub overlay: OverlayAddress,
    /// The caller's rank: the lowest is trimmed first.
    pub rank: u64,
    /// The peer score as an ordering key: the lowest is trimmed first.
    pub score: i64,
}

/// The longest prefix, in bits, that `overlay` shares with another peer of
/// the pool; `-1` if there is none.
pub open spec fn redundancy(pool: Seq<TrimEntry>, overlay: OverlayAddress) -> int
    decreases pool.len(),
{
    if pool.len() == 0 {
        -1
    } else {
        let rest = redundancy(pool.drop_last(), overlay);
        let other = pool.last().overlay;
        let shared = crate::primitives::proximity_order(overlay, other) as int;
        if other != overlay && shared > rest {
            shared
        } else {
            rest
        }
    }
}

/// Whether `a` is trimmed before `b`: by rank, then by score, then the one
/// whose trimming costs the least prefix diversity, then by address.
pub open spec fn goes_before(pool: Seq<TrimEntry>, a: TrimEntry, b: TrimEntry) -> bool {
    let ra = redundancy(pool, a.overlay);
    let rb = redundancy(pool, b.overlay);
    ||| a.rank < b.rank
    ||| a.rank == b.rank && a.score < b.score
    ||| a.rank == b.rank && a.score == b.score && ra > rb
    ||| a.rank == b.rank && a.score == b.score && ra == rb && a.overlay.value() < b.overlay.value()
}

/// Entry `i` is the first one that no entry goes before.
pub open spec fn is_worst(pool: Seq<TrimEntry>, i: int) -> bool {
    &&& 0 <= i < pool.len()
    &&& forall|j: int|
        #![trigger pool[j]]
        0 <= j < pool.len() ==> !goes_before(pool, pool[j], pool[i])
    &&& forall|j: int| #![trigger pool[j]] 0 <= j < i ==> goes_before(pool, pool[i], pool[j])
}

/// The pool without entry `i`, whose place the last entry takes.
pub open spec fn without(pool: Seq<TrimEntry>, i: int) -> Seq<TrimEntry> {
    pool.update(i, pool.last()).drop_last()
}

/// The overlays of a pool.
pub open spec fn overlays(pool: Seq<TrimEntry>) -> Seq<OverlayAddress> {
    pool.map_values(|entry: TrimEntry| entry.overlay)
}

/// The worst `count` of the pool, worst first. Each one is chosen against the
/// survivors of the choice before it.
pub open spec fn worst_first(pool: Seq<TrimEntry>, count: nat) -> Seq<OverlayAddress>
    decreases count,
{
    if count == 0 || pool.len() == 0 {
        Seq::empty()
    } else {
        let i = choose|i: int| is_worst(pool, i);
        seq![pool[i].overlay] + worst_first(without(pool, i), (count - 1) as nat)
    }
}

/// The `count` peers to trim: the whole pool if it is no larger, and else the
/// worst, worst first.
pub open spec fn trim_victims(pool: Seq<TrimEntry>, count: nat) -> Seq<OverlayAddress> {
    if count >= pool.len() {
        overlays(pool)
    } else {
        worst_first(pool, count)
    }
}

/// The longest prefix that `overlay` shares with another peer of the pool.
fn shared_prefix(pool: &Vec<TrimEntry>, overlay: &OverlayAddress) -> (bits: i16)
    ensures
        bits as int == redundancy(pool@, *overlay),
{
    let mut best: i16 = -1;
    let mut i: usize = 0;
    while i < pool.len()
        invariant
            i <= pool.len(),
            best as int == redundancy(pool@.subrange(0, i as int), *overlay),
        decreases pool.len() - i,
    {
        proof {
            assert(pool@.subrange(0, i + 1).drop_last() =~= pool@.subrange(0, i as int));
        }
        let other: OverlayAddress = pool[i].overlay;
        if other != *overlay {
            let bits: u8 = overlay.proximity(&other);
            if bits as i16 > best {
                best = bits as i16;
            }
        }
        i = i + 1;
    }
    proof {
        assert(pool@.subrange(0, i as int) =~= pool@);
    }
    best
}

/// Where the entry to trim next stands.
fn worst_index(pool: &Vec<TrimEntry>) -> (worst: usize)
    requires
        pool.len() > 0,
    ensures
        is_worst(pool@, worst as int),
{
    let mut prefixes: Vec<i16> = Vec::new();
    let mut i: usize = 0;
    while i < pool.len()
        invariant
            i <= pool.len(),
            prefixes.len() == i,
            forall|j: int|
                #![trigger prefixes@[j]]
                0 <= j < i ==> prefixes@[j] as int == redundancy(pool@, pool@[j].overlay),
        decreases pool.len() - i,
    {
        prefixes.push(shared_prefix(pool, &pool[i].overlay));
        i = i + 1;
    }
    let mut worst: usize = 0;
    let mut k: usize = 1;
    while k < pool.len()
        invariant
            1 <= k <= pool.len(),
            worst < k,
            prefixes.len() == pool.len(),
            forall|j: int|
                #![trigger prefixes@[j]]
                0 <= j < pool.len() ==> prefixes@[j] as int == redundancy(
                    pool@,
                    pool@[j].overlay,
                ),
            forall|j: int|
                #![trigger pool@[j]]
                0 <= j < k ==> !goes_before(pool@, pool@[j], pool@[worst as int]),
            forall|j: int|
                #![trigger pool@[j]]
                0 <= j < worst ==> goes_before(pool@, pool@[worst as int], pool@[j]),
        decreases pool.len() - k,
    {
        let a: TrimEntry = pool[k];
        let b: TrimEntry = pool[worst];
        let pa: i16 = prefixes[k];
        let pb: i16 = prefixes[worst];
        let before: bool = a.rank < b.rank || (a.rank == b.rank && (a.score < b.score || (a.score
            == b.score && (pa > pb || (pa == pb && a.overlay.precedes(&b.overlay))))));
        assert(before == goes_before(pool@, a, b));
        if before {
            worst = k;
        }
        k = k + 1;
    }
    worst
}

/// Select `count` trim victims from one bin's active peers, worst first.
///
/// The lowest `(rank, score)` pair is trimmed soonest. Among peers tied on
/// both, the victim is the one whose address shares the longest prefix with
/// any other remaining peer, so the retained set stays spread across the bin's
/// sub-tries. A residual tie falls back to address order. One victim is chosen
/// per round, against the survivors of the rounds before.
pub fn select_trim_victims(pool: Vec<TrimEntry>, count: usize) -> (victims: Vec<OverlayAddress>)
    ensures
        victims@ == trim_victims(pool@, count as nat),
{
    let ghost all = pool@;
    let mut pool = pool;
    let mut victims: Vec<OverlayAddress> = Vec::new();
    if count >= pool.len() {
        let mut i: usize = 0;
        while i < pool.len()
            invariant
                i <= pool.len(),
                victims@ == overlays(pool@.subrange(0, i as int)),
            decreases pool.len() - i,
        {
            victims.push(pool[i].overlay);
            i = i + 1;
            proof {
                assert(victims@ =~= overlays(pool@.subrange(0, i as int)));
            }
        }
        proof {
            assert(pool@.subrange(0, i as int) =~= pool@);
        }
        return victims;
    }
    proof {
        assert(victims@ + worst_first(pool@, count as nat) =~= worst_first(all, count as nat));
    }
    while victims.len() < count
        invariant
            victims.len() <= count,
            pool.len() + victims.len() == all.len(),
            count < all.len(),
            victims@ + worst_first(pool@, (count - victims.len()) as nat) == worst_first(
                all,
                count as nat,
            ),
        decreases count - victims.len(),
    {
        let ghost before = pool@;
        let ghost done = victims@;
        let worst: usize = worst_index(&pool);
        proof {
            let i = choose|i: int| is_worst(before, i);
            lemma_worst_is_unique(before, i, worst as int);
        }
        let victim: TrimEntry = pool.swap_remove(worst);
        victims.push(victim.overlay);
        proof {
            assert(pool@ =~= without(before, worst as int));
            assert(done + (seq![victim.overlay] + worst_first(pool@, (count - victims.len()) as nat))
                =~= victims@ + worst_first(pool@, (count - victims.len()) as nat));
        }
    }
    proof {
        assert(victims@ + worst_first(pool@, 0) =~= victims@);
    }
    victims
}

proof fn lemma_worst_is_unique(pool: Seq<TrimEntry>, i: int, j: int)
    requires
        is_worst(pool, i),
        is_worst(pool, j),
    ensures
        i == j,
{
    if i < j {
        assert(goes_before(pool, pool[j], pool[i]));
    }
    if j < i {
        assert(goes_before(pool, pool[i], pool[j]));
    }
}

/// A non-empty pool has an entry to trim next.
proof fn lemma_worst_exists(pool: Seq<TrimEntry>, n: int) -> (w: int)
    requires
        1 <= n <= pool.len(),
    ensures
        0 <= w < n,
        forall|j: int| #![trigger pool[j]] 0 <= j < n ==> !goes_before(pool, pool[j], pool[w]),
        forall|j: int| #![trigger pool[j]] 0 <= j < w ==> goes_before(pool, pool[w], pool[j]),
    decreases n,
{
    if n == 1 {
        0
    } else {
        let w = lemma_worst_exists(pool, n - 1);
        if goes_before(pool, pool[n - 1], pool[w]) {
            n - 1
        } else {
            w
        }
    }
}

/// Trimming returns as many victims as were asked for, or the whole pool.
pub proof fn trimming_takes_the_count(pool: Seq<TrimEntry>, count: nat)
    ensures
        trim_victims(pool, count).len() == if count >= pool.len() {
            pool.len()
        } else {
            count
        },
{
    if count < pool.len() {
        lemma_worst_first_len(pool, count);
    }
}

proof fn lemma_worst_first_len(pool: Seq<TrimEntry>, count: nat)
    requires
        count <= pool.len(),
    ensures
        worst_first(pool, count).len() == count,
    decreases count,
{
    if count > 0 {
        let w = lemma_worst_exists(pool, pool.len() as int);
        assert(is_worst(pool, w));
        let i = choose|i: int| is_worst(pool, i);
        lemma_worst_first_len(without(pool, i), (count - 1) as nat);
    }
}

/// Every victim comes from the pool.
pub proof fn victims_come_from_the_pool(pool: Seq<TrimEntry>, count: nat, overlay: OverlayAddress)
    requires
        trim_victims(pool, count).contains(overlay),
    ensures
        exists|i: int| #![trigger pool[i]] 0 <= i < pool.len() && pool[i].overlay == overlay,
{
    if count < pool.len() {
        lemma_worst_first_members(pool, count, overlay);
    } else {
        let k = choose|k: int|
            0 <= k < trim_victims(pool, count).len() && trim_victims(pool, count)[k] == overlay;
        assert(pool[k].overlay == overlay);
    }
}

proof fn lemma_worst_first_members(pool: Seq<TrimEntry>, count: nat, overlay: OverlayAddress)
    requires
        count <= pool.len(),
        worst_first(pool, count).contains(overlay),
    ensures
        exists|i: int| #![trigger pool[i]] 0 <= i < pool.len() && pool[i].overlay == overlay,
    decreases count,
{
    if count > 0 {
        let w = lemma_worst_exists(pool, pool.len() as int);
        assert(is_worst(pool, w));
        let i = choose|i: int| is_worst(pool, i);
        let rest = without(pool, i);
        let tail = worst_first(rest, (count - 1) as nat);
        let k = choose|k: int|
            0 <= k < worst_first(pool, count).len() && worst_first(pool, count)[k] == overlay;
        if k == 0 {
            assert(pool[i].overlay == overlay);
        } else {
            assert(tail[k - 1] == overlay);
            lemma_worst_first_members(rest, (count - 1) as nat, overlay);
            let m = choose|m: int|
                #![trigger rest[m]]
                0 <= m < rest.len() && rest[m].overlay == overlay;
            if m == i {
                assert(rest[m] == pool[pool.len() - 1]);
            } else {
                assert(rest[m] == pool[m]);
            }
        }
    }
}

/// What is left of the pool after `rounds` rounds of trimming.
pub open spec fn remaining(pool: Seq<TrimEntry>, rounds: nat) -> Seq<TrimEntry>
    decreases rounds,
{
    if rounds == 0 || pool.len() == 0 {
        pool
    } else {
        let i = choose|i: int| is_worst(pool, i);
        remaining(without(pool, i), (rounds - 1) as nat)
    }
}

/// Whether `a` is worth no more than `b` by rank and score.
pub open spec fn worth_no_more(a: TrimEntry, b: TrimEntry) -> bool {
    a.rank < b.rank || (a.rank == b.rank && a.score <= b.score)
}

/// What is left later was left before.
proof fn lemma_remaining_within(pool: Seq<TrimEntry>, rounds: nat, entry: TrimEntry)
    requires
        rounds <= pool.len(),
        remaining(pool, rounds).contains(entry),
    ensures
        pool.contains(entry),
    decreases rounds,
{
    if rounds > 0 {
        let w = lemma_worst_exists(pool, pool.len() as int);
        assert(is_worst(pool, w));
        let i = choose|i: int| is_worst(pool, i);
        let rest = without(pool, i);
        lemma_remaining_within(rest, (rounds - 1) as nat, entry);
        let k = choose|k: int| 0 <= k < rest.len() && rest[k] == entry;
        if k == i {
            assert(pool[pool.len() - 1] == entry);
        } else {
            assert(pool[k] == entry);
        }
    }
}

/// A victim is worth no more, by rank and score, than any peer that was left
/// when its turn came, and so than any that survives: prefix diversity never
/// overrides rank and score.
pub proof fn rank_and_score_dominate(pool: Seq<TrimEntry>, count: nat, turn: nat)
    requires
        turn < count < pool.len(),
    ensures
        exists|victim: TrimEntry|
            #![trigger remaining(pool, turn).contains(victim)]
            {
                &&& remaining(pool, turn).contains(victim)
                &&& trim_victims(pool, count)[turn as int] == victim.overlay
                &&& forall|other: TrimEntry| #[trigger]
                    remaining(pool, turn).contains(other) ==> worth_no_more(victim, other)
                &&& forall|other: TrimEntry| #[trigger]
                    remaining(pool, count).contains(other) ==> worth_no_more(victim, other)
            },
    decreases turn,
{
    let w = lemma_worst_exists(pool, pool.len() as int);
    assert(is_worst(pool, w));
    let i = choose|i: int| is_worst(pool, i);
    let rest = without(pool, i);
    if turn == 0 {
        let victim = pool[i];
        assert(pool.contains(victim));
        assert(trim_victims(pool, count)[0] == victim.overlay);
        assert forall|other: TrimEntry| #[trigger] pool.contains(other) implies worth_no_more(
            victim,
            other,
        ) by {
            let j = choose|j: int| 0 <= j < pool.len() && pool[j] == other;
            assert(!goes_before(pool, pool[j], pool[i]));
        }
        assert forall|other: TrimEntry| #[trigger]
            remaining(pool, count).contains(other) implies worth_no_more(victim, other) by {
            lemma_remaining_within(pool, count, other);
        }
        assert(remaining(pool, turn).contains(victim));
    } else {
        let less = (turn - 1) as nat;
        rank_and_score_dominate(rest, (count - 1) as nat, less);
        let victim = choose|victim: TrimEntry|
            #![trigger remaining(rest, less).contains(victim)]
            {
                &&& remaining(rest, less).contains(victim)
                &&& trim_victims(rest, (count - 1) as nat)[less as int] == victim.overlay
                &&& forall|other: TrimEntry| #[trigger]
                    remaining(rest, less).contains(other) ==> worth_no_more(victim, other)
                &&& forall|other: TrimEntry| #[trigger]
                    remaining(rest, (count - 1) as nat).contains(other) ==> worth_no_more(
                        victim,
                        other,
                    )
            };
        lemma_worst_first_len(rest, (count - 1) as nat);
        assert(remaining(pool, turn) == remaining(rest, less));
        assert(remaining(pool, count) == remaining(rest, (count - 1) as nat));
        assert(worst_first(pool, count)[turn as int] == worst_first(
            rest,
            (count - 1) as nat,
        )[less as int]);
        assert(remaining(pool, turn).contains(victim));
    }
}

/// An entry whose overlay is no victim is left after the rounds.
proof fn lemma_spared_is_left(pool: Seq<TrimEntry>, count: nat, j: int)
    requires
        count <= pool.len(),
        0 <= j < pool.len(),
        !worst_first(pool, count).contains(pool[j].overlay),
    ensures
        remaining(pool, count).contains(pool[j]),
    decreases count,
{
    if count > 0 {
        let w = lemma_worst_exists(pool, pool.len() as int);
        assert(is_worst(pool, w));
        let i = choose|i: int| is_worst(pool, i);
        let rest = without(pool, i);
        let tail = worst_first(rest, (count - 1) as nat);
        let all = worst_first(pool, count);
        assert(all == seq![pool[i].overlay] + tail);
        assert(all[0] == pool[i].overlay);
        assert(j != i);
        let k = if j == pool.len() - 1 {
            i
        } else {
            j
        };
        assert(rest[k] == pool[j]);
        if tail.contains(pool[j].overlay) {
            let m = choose|m: int| 0 <= m < tail.len() && tail[m] == pool[j].overlay;
            assert(all[m + 1] == pool[j].overlay);
        }
        lemma_spared_is_left(rest, (count - 1) as nat, k);
    } else {
        assert(pool.contains(pool[j]));
    }
}

/// Whoever is spared is worth no less than whoever is trimmed: by rank first,
/// and among equal ranks by score.
pub proof fn the_spared_are_worth_no_less(
    pool: Seq<TrimEntry>,
    count: nat,
    victim: OverlayAddress,
    spared: int,
)
    requires
        trim_victims(pool, count).contains(victim),
        0 <= spared < pool.len(),
        !trim_victims(pool, count).contains(pool[spared].overlay),
    ensures
        exists|i: int|
            #![trigger pool[i]]
            {
                &&& 0 <= i < pool.len()
                &&& pool[i].overlay == victim
                &&& pool[i].rank < pool[spared].rank || (pool[i].rank == pool[spared].rank
                    && pool[i].score <= pool[spared].score)
            },
{
    if count >= pool.len() {
        assert(overlays(pool)[spared] == pool[spared].overlay);
        assert(false);
    }
    lemma_spared_is_left(pool, count, spared);
    lemma_worst_first_len(pool, count);
    let turn = choose|k: int|
        0 <= k < trim_victims(pool, count).len() && trim_victims(pool, count)[k] == victim;
    rank_and_score_dominate(pool, count, turn as nat);
    let entry = choose|entry: TrimEntry|
        #![trigger remaining(pool, turn as nat).contains(entry)]
        {
            &&& remaining(pool, turn as nat).contains(entry)
            &&& trim_victims(pool, count)[turn] == entry.overlay
            &&& forall|other: TrimEntry| #[trigger]
                remaining(pool, turn as nat).contains(other) ==> worth_no_more(entry, other)
            &&& forall|other: TrimEntry| #[trigger]
                remaining(pool, count).contains(other) ==> worth_no_more(entry, other)
        };
    lemma_remaining_within(pool, turn as nat, entry);
    let i = choose|i: int| 0 <= i < pool.len() && pool[i] == entry;
    assert(pool[i].overlay == victim);
}

/// The first victim has the lowest rank of the pool, among those the lowest
/// score, among those the longest prefix shared with another peer of the pool,
/// and among those the lowest address.
pub proof fn the_first_victim_is_the_worst(pool: Seq<TrimEntry>, count: nat, j: int)
    requires
        0 < count < pool.len(),
        0 <= j < pool.len(),
    ensures
        exists|i: int|
            #![trigger pool[i]]
            {
                let a = pool[i];
                let b = pool[j];
                &&& 0 <= i < pool.len()
                &&& trim_victims(pool, count)[0] == a.overlay
                &&& a.rank <= b.rank
                &&& a.rank == b.rank ==> a.score <= b.score
                &&& a.rank == b.rank && a.score == b.score ==> redundancy(pool, a.overlay)
                    >= redundancy(pool, b.overlay)
                &&& a.rank == b.rank && a.score == b.score && redundancy(pool, a.overlay)
                    == redundancy(pool, b.overlay) ==> a.overlay.value() <= b.overlay.value()
            },
{
    let w = lemma_worst_exists(pool, pool.len() as int);
    assert(is_worst(pool, w));
    let i = choose|i: int| is_worst(pool, i);
    assert(!goes_before(pool, pool[j], pool[i]));
    assert(trim_victims(pool, count)[0] == pool[i].overlay);
}

/// Each later victim is the first one of what the earlier ones left: the pool
/// without one entry of the first victim.
pub proof fn later_victims_come_from_the_rest(pool: Seq<TrimEntry>, count: nat)
    requires
        0 < count < pool.len(),
    ensures
        exists|i: int|
            #![trigger pool[i]]
            {
                &&& 0 <= i < pool.len()
                &&& pool[i].overlay == trim_victims(pool, count)[0]
                &&& trim_victims(pool, count).subrange(1, count as int) == trim_victims(
                    pool.update(i, pool.last()).drop_last(),
                    (count - 1) as nat,
                )
            },
{
    let w = lemma_worst_exists(pool, pool.len() as int);
    assert(is_worst(pool, w));
    let i = choose|i: int| is_worst(pool, i);
    let rest = without(pool, i);
    lemma_worst_first_len(pool, count);
    assert(trim_victims(pool, count)[0] == pool[i].overlay);
    assert(trim_victims(pool, count).subrange(1, count as int) =~= worst_first(
        rest,
        (count - 1) as nat,
    ));
    assert(pool[i].overlay == trim_victims(pool, count)[0]);
}

/// The redundancy of an overlay is the most leading bits that it shares with
/// any other overlay of the pool, and negative where there is no other.
pub proof fn redundancy_is_the_longest_shared_prefix(
    pool: Seq<TrimEntry>,
    overlay: OverlayAddress,
)
    ensures
        forall|j: int|
            #![trigger pool[j]]
            0 <= j < pool.len() && pool[j].overlay != overlay ==> redundancy(pool, overlay)
                >= crate::primitives::proximity_order(overlay, pool[j].overlay),
        redundancy(pool, overlay) >= 0 ==> exists|j: int|
            #![trigger pool[j]]
            0 <= j < pool.len() && pool[j].overlay != overlay && redundancy(pool, overlay)
                == crate::primitives::proximity_order(overlay, pool[j].overlay),
        redundancy(pool, overlay) >= -1,
    decreases pool.len(),
{
    if pool.len() > 0 {
        let less = pool.drop_last();
        redundancy_is_the_longest_shared_prefix(less, overlay);
        let last = pool.len() - 1;
        assert(pool[last] == pool.last());
        assert forall|j: int|
            #![trigger pool[j]]
            0 <= j < pool.len() && pool[j].overlay != overlay implies redundancy(pool, overlay)
            >= crate::primitives::proximity_order(overlay, pool[j].overlay) by {
            if j < last {
                assert(less[j] == pool[j]);
            }
        }
        if redundancy(pool, overlay) >= 0 && redundancy(pool, overlay) == redundancy(
            less,
            overlay,
        ) {
            let j = choose|j: int|
                #![trigger less[j]]
                0 <= j < less.len() && less[j].overlay != overlay && redundancy(less, overlay)
                    == crate::primitives::proximity_order(overlay, less[j].overlay);
            assert(pool[j] == less[j]);
        }
    }
}

/// No peer of a pool of distinct peers is trimmed twice.
pub proof fn victims_are_distinct(pool: Seq<TrimEntry>, count: nat)
    requires
        overlays(pool).no_duplicates(),
    ensures
        trim_victims(pool, count).no_duplicates(),
{
    if count < pool.len() {
        lemma_worst_first_distinct(pool, count);
    }
}

proof fn lemma_worst_first_distinct(pool: Seq<TrimEntry>, count: nat)
    requires
        count <= pool.len(),
        overlays(pool).no_duplicates(),
    ensures
        worst_first(pool, count).no_duplicates(),
    decreases count,
{
    if count > 0 {
        let w = lemma_worst_exists(pool, pool.len() as int);
        assert(is_worst(pool, w));
        let i = choose|i: int| is_worst(pool, i);
        let rest = without(pool, i);
        let names = overlays(pool);
        let last = pool.len() - 1;
        assert forall|a: int, b: int|
            0 <= a < rest.len() && 0 <= b < rest.len() && a != b implies overlays(rest)[a]
            != overlays(rest)[b] by {
            let a0 = if a == i {
                last
            } else {
                a
            };
            let b0 = if b == i {
                last
            } else {
                b
            };
            assert(overlays(rest)[a] == names[a0]);
            assert(overlays(rest)[b] == names[b0]);
        }
        lemma_worst_first_distinct(rest, (count - 1) as nat);
        let tail = worst_first(rest, (count - 1) as nat);
        if tail.contains(pool[i].overlay) {
            lemma_worst_first_members(rest, (count - 1) as nat, pool[i].overlay);
            let m = choose|m: int|
                #![trigger rest[m]]
                0 <= m < rest.len() && rest[m].overlay == pool[i].overlay;
            let m0 = if m == i {
                last
            } else {
                m
            };
            assert(names[m0] == names[i]);
            assert(m0 != i);
            assert(false);
        }
        let all = worst_first(pool, count);
        assert(all == seq![pool[i].overlay] + tail);
        assert forall|a: int, b: int|
            0 <= a < all.len() && 0 <= b < all.len() && a != b implies all[a] != all[b] by {
            if a == 0 {
                assert(all[b] == tail[b - 1]);
            } else if b == 0 {
                assert(all[a] == tail[a - 1]);
            } else {
                assert(all[a] == tail[a - 1]);
                assert(all[b] == tail[b - 1]);
            }
        }
    }
}

} // verus!
