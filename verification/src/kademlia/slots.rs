//! Sub-prefix slot math for balanced-bin dial diversity.
//!
//! A local dial policy: it never changes bytes on the wire, only which known
//! peers a node chooses to dial. A bin's address space is partitioned into
//! `2^BIT_SUFFIX_LENGTH` slots keyed by the bits right after the bin's
//! differing bit, so a bin's connected set can be spread across its sub-tries
//! instead of clustering in one.

use crate::primitives::{Bin, OverlayAddress};
use vstd::prelude::*;

verus! {

/// Suffix-bit width of a slot key: `2^4 = 16` slots per bin.
pub const BIT_SUFFIX_LENGTH: u8 = 4;

/// A bit as a number.
pub open spec fn bit_value(set: bool) -> int {
    if set {
        1
    } else {
        0
    }
}

/// The number whose binary digits are the first `n` bits after bit `bin`.
pub open spec fn suffix_value(overlay: OverlayAddress, bin: int, n: nat) -> int
    decreases n,
{
    if n == 0 {
        0
    } else {
        2 * suffix_value(overlay, bin, (n - 1) as nat) + bit_value(overlay.bit(bin + n))
    }
}

/// The slot an overlay occupies within `bin`.
///
/// The slot key is the [`BIT_SUFFIX_LENGTH`] bits at positions `bin + 1` to
/// `bin + BIT_SUFFIX_LENGTH`, most significant first.
pub fn slot_of(overlay: &OverlayAddress, bin: Bin) -> (slot: u8)
    requires
        bin.wf(),
    ensures
        slot as int == suffix_value(*overlay, bin.raw as int, BIT_SUFFIX_LENGTH as nat),
        slot < 16,
{
    let mut slot: u8 = 0;
    let mut i: u8 = 0;
    let mut ceiling: u8 = 1;
    while i < BIT_SUFFIX_LENGTH
        invariant
            i <= BIT_SUFFIX_LENGTH,
            bin.wf(),
            slot as int == suffix_value(*overlay, bin.raw as int, i as nat),
            slot < ceiling,
            ceiling == (if i == 0 { 1u8 } else if i == 1 { 2u8 } else if i == 2 { 4u8 } else if i == 3 { 8u8 } else { 16u8 }),
        decreases BIT_SUFFIX_LENGTH - i,
    {
        let pos: u8 = bin.get() + 1 + i;
        let hi: u128 = overlay.hi;
        let shift: u128 = (127 - pos) as u128;
        let bit: u128 = (hi >> shift) & 1;
        assert(bit == 0 || bit == 1) by (bit_vector)
            requires
                bit == (hi >> shift) & 1,
        ;
        slot = slot * 2 + bit as u8;
        i = i + 1;
        ceiling = ceiling * 2;
    }
    slot
}

/// The slots that `peers` fill in `bin`.
pub open spec fn slots_filled(peers: Seq<OverlayAddress>, bin: Bin) -> Set<u8>
    decreases peers.len(),
{
    if peers.len() == 0 {
        Set::empty()
    } else {
        slots_filled(peers.drop_last(), bin).insert(
            suffix_value(peers.last(), bin.raw as int, BIT_SUFFIX_LENGTH as nat) as u8,
        )
    }
}

/// How many slots of `bin` the `peers` fill. One, for more than one peer,
/// means that they all share a sub-trie.
pub fn count_slots(peers: &Vec<OverlayAddress>, bin: Bin) -> (n: usize)
    requires
        bin.wf(),
    ensures
        n == slots_filled(peers@, bin).len(),
        slots_filled(peers@, bin).finite(),
{
    let mut seen: Vec<u8> = Vec::new();
    let mut i: usize = 0;
    proof {
        assert(peers@.subrange(0, 0) =~= Seq::empty());
        assert(seen@.to_set() =~= Set::empty());
    }
    while i < peers.len()
        invariant
            bin.wf(),
            i <= peers.len(),
            seen@.no_duplicates(),
            seen@.to_set() == slots_filled(peers@.subrange(0, i as int), bin),
        decreases peers.len() - i,
    {
        let slot: u8 = slot_of(&peers[i], bin);
        proof {
            assert(peers@.subrange(0, i + 1).drop_last() =~= peers@.subrange(0, i as int));
        }
        let ghost before = seen@;
        if !slot_listed(&seen, slot) {
            seen.push(slot);
            proof {
                assert(seen@.to_set() =~= before.to_set().insert(slot)) by {
                    assert forall|k: u8| seen@.to_set().contains(k) == before.to_set().insert(
                        slot,
                    ).contains(k) by {
                        if before.contains(k) {
                            let m = choose|m: int| 0 <= m < before.len() && before[m] == k;
                            assert(seen@[m] == k);
                        }
                        assert(seen@[before.len() as int] == slot);
                    }
                }
            }
        } else {
            proof {
                assert(before.to_set() =~= before.to_set().insert(slot));
            }
        }
        i = i + 1;
    }
    proof {
        assert(peers@.subrange(0, i as int) =~= peers@);
        seen@.unique_seq_to_set();
    }
    seen.len()
}

fn slot_listed(slots: &Vec<u8>, slot: u8) -> (found: bool)
    ensures
        found == slots@.contains(slot),
{
    let mut i: usize = 0;
    while i < slots.len()
        invariant
            i <= slots.len(),
            forall|j: int| 0 <= j < i ==> slots@[j] != slot,
        decreases slots.len() - i,
    {
        if slots[i] == slot {
            return true;
        }
        i = i + 1;
    }
    false
}

/// Two overlays share a slot exactly when their slot bits agree.
pub proof fn same_slot_is_same_bits(a: OverlayAddress, b: OverlayAddress, bin: Bin)
    ensures
        suffix_value(a, bin.raw as int, BIT_SUFFIX_LENGTH as nat) == suffix_value(
            b,
            bin.raw as int,
            BIT_SUFFIX_LENGTH as nat,
        ) <==> (forall|j: int|
            bin.raw < j <= bin.raw + BIT_SUFFIX_LENGTH ==> a.bit(j) == b.bit(j)),
{
    reveal_with_fuel(suffix_value, 5);
    let p = bin.raw as int;
    assert(suffix_value(a, p, 4) == 8 * bit_value(a.bit(p + 1)) + 4 * bit_value(a.bit(p + 2)) + 2
        * bit_value(a.bit(p + 3)) + bit_value(a.bit(p + 4)));
    assert(suffix_value(b, p, 4) == 8 * bit_value(b.bit(p + 1)) + 4 * bit_value(b.bit(p + 2)) + 2
        * bit_value(b.bit(p + 3)) + bit_value(b.bit(p + 4)));
    if suffix_value(a, p, 4) == suffix_value(b, p, 4) {
        assert(a.bit(p + 1) == b.bit(p + 1) && a.bit(p + 2) == b.bit(p + 2) && a.bit(p + 3)
            == b.bit(p + 3) && a.bit(p + 4) == b.bit(p + 4));
        assert forall|j: int| p < j <= p + BIT_SUFFIX_LENGTH implies a.bit(j) == b.bit(j) by {
            assert(j == p + 1 || j == p + 2 || j == p + 3 || j == p + 4);
        }
    }
}

/// A slot is the number that the four bits behind the bin's bit spell.
pub proof fn a_slot_is_four_bits(overlay: OverlayAddress, bin: Bin)
    ensures
        ({
            let p = bin.raw as int;
            let one = |set: bool|
                if set {
                    1int
                } else {
                    0
                };
            suffix_value(overlay, p, BIT_SUFFIX_LENGTH as nat) == 8 * one(overlay.bit(p + 1)) + 4
                * one(overlay.bit(p + 2)) + 2 * one(overlay.bit(p + 3)) + one(overlay.bit(p + 4))
        }),
{
    reveal_with_fuel(suffix_value, 5);
}

/// A slot is filled exactly where one of the peers occupies it.
pub proof fn filled_slots_are_occupied(peers: Seq<OverlayAddress>, bin: Bin, slot: u8)
    ensures
        slots_filled(peers, bin).contains(slot) <==> exists|i: int|
            #![trigger peers[i]]
            0 <= i < peers.len() && suffix_value(
                peers[i],
                bin.raw as int,
                BIT_SUFFIX_LENGTH as nat,
            ) as u8 == slot,
    decreases peers.len(),
{
    if peers.len() > 0 {
        let less = peers.drop_last();
        let last = peers.len() - 1;
        filled_slots_are_occupied(less, bin, slot);
        assert(peers[last] == peers.last());
        if slots_filled(less, bin).contains(slot) {
            let i = choose|i: int|
                #![trigger less[i]]
                0 <= i < less.len() && suffix_value(
                    less[i],
                    bin.raw as int,
                    BIT_SUFFIX_LENGTH as nat,
                ) as u8 == slot;
            assert(peers[i] == less[i]);
        }
        if exists|i: int|
            #![trigger peers[i]]
            0 <= i < peers.len() && suffix_value(
                peers[i],
                bin.raw as int,
                BIT_SUFFIX_LENGTH as nat,
            ) as u8 == slot {
            let i = choose|i: int|
                #![trigger peers[i]]
                0 <= i < peers.len() && suffix_value(
                    peers[i],
                    bin.raw as int,
                    BIT_SUFFIX_LENGTH as nat,
                ) as u8 == slot;
            if i < last {
                assert(less[i] == peers[i]);
            }
        }
    }
}

} // verus!
