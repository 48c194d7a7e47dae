//! Overlay addresses, Kademlia bins and the proximity metric between them.

use nectar_primitives::SwarmAddress;
use vstd::prelude::*;

verus! {

/// The deepest proximity order, and so the index of the deepest bin.
pub const MAX_PO: u8 = 31;

/// A 256-bit overlay address, held as its two big-endian halves.
///
/// Comparing `(hi, lo)` lexicographically is comparing the 32 address bytes.
#[derive(Clone, Copy, Debug, PartialEq, Eq, Structural, Hash, PartialOrd, Ord)]
pub struct OverlayAddress {
    pub hi: u128,
    pub lo: u128,
}

/// A content address lives in the same space as an overlay address.
pub type ChunkAddress = OverlayAddress;

/// The number that a big-endian byte string denotes.
pub open spec fn big_endian(bytes: Seq<u8>) -> nat
    decreases bytes.len(),
{
    if bytes.len() == 0 {
        0
    } else {
        256 * big_endian(bytes.drop_last()) + bytes.last() as nat
    }
}

/// `256^n`, the number of byte strings of length `n`.
pub open spec fn byte_range(n: nat) -> nat
    decreases n,
{
    if n == 0 {
        1
    } else {
        256 * byte_range((n - 1) as nat)
    }
}

proof fn lemma_big_endian_bound(bytes: Seq<u8>)
    ensures
        big_endian(bytes) < byte_range(bytes.len()),
    decreases bytes.len(),
{
    if bytes.len() > 0 {
        lemma_big_endian_bound(bytes.drop_last());
    }
}

proof fn lemma_byte_range_16()
    ensures
        byte_range(16) == 0x1_0000_0000_0000_0000_0000_0000_0000_0000nat,
{
    reveal_with_fuel(byte_range, 17);
}

proof fn lemma_byte_range_monotone(m: nat, n: nat)
    requires
        m <= n,
    ensures
        byte_range(m) <= byte_range(n),
    decreases n,
{
    if m < n {
        lemma_byte_range_monotone(m, (n - 1) as nat);
    }
}

/// Reads sixteen bytes from `start` on as a big-endian number.
fn read_half(bytes: &[u8; 32], start: usize) -> (value: u128)
    requires
        start <= 16,
    ensures
        value as nat == big_endian(bytes@.subrange(start as int, start + 16)),
{
    let mut value: u128 = 0;
    let mut i: usize = 0;
    proof {
        assert(bytes@.subrange(start as int, start as int) =~= Seq::<u8>::empty());
    }
    while i < 16
        invariant
            i <= 16,
            start <= 16,
            value as nat == big_endian(bytes@.subrange(start as int, start + i)),
        decreases 16 - i,
    {
        let ghost before = bytes@.subrange(start as int, start + i);
        let ghost after = bytes@.subrange(start as int, start + i + 1);
        proof {
            assert(after.drop_last() =~= before);
            lemma_big_endian_bound(after);
            lemma_byte_range_monotone((i + 1) as nat, 16);
            lemma_byte_range_16();
        }
        value = value * 256 + bytes[start + i] as u128;
        i = i + 1;
    }
    value
}

impl OverlayAddress {
    /// Bit `i` of the address, counted from the most significant one.
    pub open spec fn bit(self, i: int) -> bool {
        if i < 128 {
            (self.hi >> ((127 - i) as u128)) & 1 == 1
        } else {
            (self.lo >> ((255 - i) as u128)) & 1 == 1
        }
    }

    /// The address as a number.
    pub open spec fn value(self) -> int {
        self.hi * 0x1_0000_0000_0000_0000_0000_0000_0000_0000int + self.lo
    }

    /// The address of 32 raw bytes, most significant first.
    pub open spec fn of_bytes(bytes: Seq<u8>) -> OverlayAddress {
        OverlayAddress {
            hi: big_endian(bytes.subrange(0, 16)) as u128,
            lo: big_endian(bytes.subrange(16, 32)) as u128,
        }
    }

    /// Byte `i` of the address, counted from the most significant one.
    pub open spec fn byte(self, i: int) -> u8 {
        if i < 16 {
            ((self.hi >> ((120 - 8 * i) as u128)) & 0xff) as u8
        } else {
            ((self.lo >> ((248 - 8 * i) as u128)) & 0xff) as u8
        }
    }

    /// The raw bytes of the address.
    pub fn to_bytes(&self) -> (bytes: [u8; 32])
        ensures
            forall|i: int| #![trigger bytes@[i]] 0 <= i < 32 ==> bytes@[i] == self.byte(i),
    {
        let mut bytes: [u8; 32] = [0u8; 32];
        let mut i: usize = 0;
        while i < 32
            invariant
                i <= 32,
                forall|j: int| #![trigger bytes@[j]] 0 <= j < i ==> bytes@[j] == self.byte(j),
            decreases 32 - i,
        {
            let byte: u8 = if i < 16 {
                let shift: u128 = (120 - 8 * i) as u128;
                ((self.hi >> shift) & 0xff) as u8
            } else {
                let shift: u128 = (248 - 8 * i) as u128;
                ((self.lo >> shift) & 0xff) as u8
            };
            bytes[i] = byte;
            i = i + 1;
        }
        bytes
    }

    /// The address in hexadecimal digits.
    pub open spec fn spec_hex(self) -> Seq<char> {
        hex_digits(Seq::new(32, |i: int| self.byte(i)))
    }

    /// The address in hexadecimal digits.
    pub fn to_hex(&self) -> (text: String)
        ensures
            text@ == self.spec_hex(),
    {
        let bytes: [u8; 32] = self.to_bytes();
        proof {
            assert(bytes@ =~= Seq::new(32, |i: int| self.byte(i)));
        }
        hex_text(&bytes)
    }

    /// Builds an address from its raw bytes.
    pub fn new(bytes: [u8; 32]) -> (address: OverlayAddress)
        ensures
            address == OverlayAddress::of_bytes(bytes@),
    {
        let hi: u128 = read_half(&bytes, 0);
        let lo: u128 = read_half(&bytes, 16);
        OverlayAddress { hi, lo }
    }

    /// An address with only the first byte set.
    pub fn with_first_byte(byte: u8) -> (address: OverlayAddress)
        ensures
            address.hi == byte * 0x100_0000_0000_0000_0000_0000_0000_0000int,
            address.lo == 0,
    {
        let hi: u128 = byte as u128 * 0x100_0000_0000_0000_0000_0000_0000_0000u128;
        OverlayAddress { hi, lo: 0 }
    }

    /// The all-zero address.
    pub fn zero() -> (address: OverlayAddress)
        ensures
            address.value() == 0,
    {
        OverlayAddress { hi: 0, lo: 0 }
    }

    /// Whether this address comes before `other` in address order.
    pub fn precedes(&self, other: &OverlayAddress) -> (before: bool)
        ensures
            before == (self.value() < other.value()),
    {
        self.hi < other.hi || (self.hi == other.hi && self.lo < other.lo)
    }

    /// The proximity order between two addresses: how many leading bits they
    /// share, at most [`MAX_PO`].
    pub fn proximity(&self, other: &OverlayAddress) -> (po: u8)
        ensures
            po as nat == proximity_order(*self, *other),
            po <= MAX_PO,
    {
        proof {
            lemma_proximity_bound(*self, *other, 0);
        }
        swarm_proximity(self, other)
    }

    /// Whether `x` is closer to this address than `y` is, by XOR distance.
    pub fn is_closer(&self, x: &OverlayAddress, y: &OverlayAddress) -> (closer: bool)
        ensures
            closer == (distance(*self, *x) < distance(*self, *y)),
    {
        let dx_hi: u128 = self.hi ^ x.hi;
        let dy_hi: u128 = self.hi ^ y.hi;
        let dx_lo: u128 = self.lo ^ x.lo;
        let dy_lo: u128 = self.lo ^ y.lo;
        dx_hi < dy_hi || (dx_hi == dy_hi && dx_lo < dy_lo)
    }
}

impl Default for OverlayAddress {
    fn default() -> (address: OverlayAddress)
        ensures
            address.value() == 0,
    {
        OverlayAddress::zero()
    }
}

impl From<[u8; 32]> for OverlayAddress {
    fn from(bytes: [u8; 32]) -> (address: OverlayAddress) {
        OverlayAddress::new(bytes)
    }
}

impl vstd::std_specs::convert::FromSpecImpl<[u8; 32]> for OverlayAddress {
    open spec fn obeys_from_spec() -> bool {
        true
    }

    open spec fn from_spec(bytes: [u8; 32]) -> OverlayAddress {
        OverlayAddress::of_bytes(bytes@)
    }
}

/// The index of the first bit from `i` on at which two addresses differ,
/// capped at [`MAX_PO`].
pub open spec fn first_difference(a: OverlayAddress, b: OverlayAddress, i: nat) -> nat
    decreases MAX_PO - i,
{
    if i >= MAX_PO || a.bit(i as int) != b.bit(i as int) {
        i
    } else {
        first_difference(a, b, i + 1)
    }
}

/// The number of leading bits two addresses share, capped at [`MAX_PO`].
pub open spec fn proximity_order(a: OverlayAddress, b: OverlayAddress) -> nat {
    first_difference(a, b, 0)
}

/// The XOR distance between two addresses as a 256-bit number.
pub open spec fn distance(a: OverlayAddress, b: OverlayAddress) -> int {
    (OverlayAddress { hi: a.hi ^ b.hi, lo: a.lo ^ b.lo }).value()
}

proof fn lemma_proximity_bound(a: OverlayAddress, b: OverlayAddress, i: nat)
    requires
        i <= MAX_PO,
    ensures
        i <= first_difference(a, b, i) <= MAX_PO,
    decreases MAX_PO - i,
{
    if i < MAX_PO && a.bit(i as int) == b.bit(i as int) {
        lemma_proximity_bound(a, b, i + 1);
    }
}

proof fn lemma_first_difference_symmetric(a: OverlayAddress, b: OverlayAddress, i: nat)
    requires
        i <= MAX_PO,
    ensures
        first_difference(a, b, i) == first_difference(b, a, i),
    decreases MAX_PO - i,
{
    if i < MAX_PO {
        lemma_first_difference_symmetric(a, b, i + 1);
    }
}

/// Proximity does not depend on which of two addresses it is measured from.
pub proof fn proximity_is_symmetric(a: OverlayAddress, b: OverlayAddress)
    ensures
        proximity_order(a, b) == proximity_order(b, a),
{
    lemma_first_difference_symmetric(a, b, 0);
}

/// Proximity never exceeds [`MAX_PO`].
pub proof fn proximity_is_bounded(a: OverlayAddress, b: OverlayAddress)
    ensures
        proximity_order(a, b) <= MAX_PO,
{
    lemma_proximity_bound(a, b, 0);
}

proof fn lemma_first_difference_meaning(a: OverlayAddress, b: OverlayAddress, i: nat)
    requires
        i <= MAX_PO,
    ensures
        forall|j: int| i <= j < first_difference(a, b, i) ==> a.bit(j) == b.bit(j),
        first_difference(a, b, i) < MAX_PO ==> a.bit(first_difference(a, b, i) as int) != b.bit(
            first_difference(a, b, i) as int,
        ),
    decreases MAX_PO - i,
{
    if i < MAX_PO && a.bit(i as int) == b.bit(i as int) {
        lemma_first_difference_meaning(a, b, i + 1);
        assert forall|j: int| i <= j < first_difference(a, b, i) implies a.bit(j) == b.bit(j) by {
            if j > i {
                assert(i + 1 <= j);
            }
        }
    }
}

/// All bits before the proximity order agree, and the bit at it differs
/// unless the order reached its cap.
pub proof fn proximity_counts_shared_bits(a: OverlayAddress, b: OverlayAddress)
    ensures
        forall|j: int| 0 <= j < proximity_order(a, b) ==> a.bit(j) == b.bit(j),
        proximity_order(a, b) < MAX_PO ==> a.bit(proximity_order(a, b) as int) != b.bit(
            proximity_order(a, b) as int,
        ),
{
    lemma_first_difference_meaning(a, b, 0);
}

/// Calls `SwarmAddress::proximity` of `nectar_primitives` on the two
/// addresses' bytes. It is trusted to return the number of leading bits that
/// the addresses share, capped at 31.
#[verifier::external_body]
fn swarm_proximity(a: &OverlayAddress, b: &OverlayAddress) -> (po: u8)
    ensures
        po as nat == proximity_order(*a, *b),
{
    let mut left = [0u8; 32];
    left[..16].copy_from_slice(&a.hi.to_be_bytes());
    left[16..].copy_from_slice(&a.lo.to_be_bytes());
    let mut right = [0u8; 32];
    right[..16].copy_from_slice(&b.hi.to_be_bytes());
    right[16..].copy_from_slice(&b.lo.to_be_bytes());
    SwarmAddress::new(left).proximity(&SwarmAddress::new(right)).get()
}

/// The character of a hexadecimal digit, in lower case.
pub open spec fn hex_digit(d: u8) -> char {
    if d < 10 {
        (48 + d) as char
    } else {
        (87 + d) as char
    }
}

/// Every byte as two hexadecimal digits, the high one first.
pub open spec fn hex_digits(bytes: Seq<u8>) -> Seq<char> {
    Seq::new(
        2 * bytes.len(),
        |i: int|
            hex_digit(
                if i % 2 == 0 {
                    bytes[i / 2] / 16
                } else {
                    bytes[i / 2] % 16
                },
            ),
    )
}

/// Calls `hex::encode` on an address's bytes. It is trusted to write every byte
/// as two lower-case hexadecimal digits, the high one first.
#[verifier::external_body]
fn hex_text(bytes: &[u8; 32]) -> (text: String)
    ensures
        text@ == hex_digits(bytes@),
{
    hex::encode(bytes)
}

/// A Kademlia bin index, at most [`MAX_PO`].
#[derive(Clone, Copy, Debug, PartialEq, Eq, Structural, Hash, PartialOrd, Ord)]
pub struct Bin {
    pub raw: u8,
}

impl Bin {
    /// The index is one that a routing table can have.
    pub open spec fn wf(self) -> bool {
        self.raw <= MAX_PO
    }

    /// A bin from its index, or `None` above [`MAX_PO`].
    pub fn new(raw: u8) -> (bin: Option<Bin>)
        ensures
            raw <= MAX_PO ==> bin == Some(Bin { raw }),
            raw > MAX_PO ==> bin is None,
    {
        if raw <= MAX_PO {
            Some(Bin { raw })
        } else {
            None
        }
    }

    /// A bin from its index, the deepest one above [`MAX_PO`].
    pub fn clamped(raw: u8) -> (bin: Bin)
        ensures
            bin.wf(),
            bin.raw == if raw <= MAX_PO {
                raw
            } else {
                MAX_PO
            },
    {
        if raw <= MAX_PO {
            Bin { raw }
        } else {
            Bin { raw: MAX_PO }
        }
    }

    /// The index.
    pub fn get(self) -> (raw: u8)
        ensures
            raw == self.raw,
    {
        self.raw
    }

    /// The index, for a table with one slot per bin.
    pub fn as_index(self) -> (index: usize)
        ensures
            index == self.raw as usize,
    {
        self.raw as usize
    }
}

/// The neighborhood boundary: bins at and above it are the neighborhood.
#[derive(Clone, Copy, Debug, PartialEq, Eq, Structural, Hash, PartialOrd, Ord)]
pub struct NeighborhoodDepth {
    pub raw: u8,
}

impl NeighborhoodDepth {
    /// The depth is a bin index.
    pub open spec fn wf(self) -> bool {
        self.raw <= MAX_PO
    }

    /// Whether `bin` lies inside the neighborhood.
    pub open spec fn spec_contains(self, bin: Bin) -> bool {
        bin.raw >= self.raw
    }

    /// The depth at `bin`.
    pub fn new(bin: Bin) -> (depth: NeighborhoodDepth)
        ensures
            depth.raw == bin.raw,
    {
        NeighborhoodDepth { raw: bin.raw }
    }

    /// Depth zero: no neighborhood boundary yet.
    pub fn zero() -> (depth: NeighborhoodDepth)
        ensures
            depth.raw == 0,
    {
        NeighborhoodDepth { raw: 0 }
    }

    /// The raw depth.
    pub fn get(self) -> (raw: u8)
        ensures
            raw == self.raw,
    {
        self.raw
    }

    /// Whether `bin` lies inside the neighborhood.
    pub fn contains(self, bin: Bin) -> (inside: bool)
        ensures
            inside == self.spec_contains(bin),
    {
        bin.raw >= self.raw
    }
}

/// Longest peer identifier, in bytes.
pub const MAX_PEER_ID_BYTES: usize = 48;

/// A transport-level peer identifier of at most [`MAX_PEER_ID_BYTES`] bytes.
///
/// The bytes are held, padded with zeros, as three big-endian numbers. Comparing
/// `(first, second, third, len)` lexicographically is comparing the bytes.
#[derive(Clone, Copy, Debug, PartialEq, Eq, Structural, Hash, PartialOrd, Ord)]
pub struct PeerId {
    pub first: u128,
    pub second: u128,
    pub third: u128,
    pub len: u8,
}

/// A byte string padded with zeros to [`MAX_PEER_ID_BYTES`] bytes.
pub open spec fn zero_padded(bytes: Seq<u8>) -> Seq<u8> {
    Seq::new(
        MAX_PEER_ID_BYTES as nat,
        |i: int|
            if i < bytes.len() {
                bytes[i]
            } else {
                0
            },
    )
}

impl PeerId {
    /// The identifier that `bytes` spell.
    pub open spec fn of_bytes(bytes: Seq<u8>) -> PeerId {
        PeerId {
            first: big_endian(zero_padded(bytes).subrange(0, 16)) as u128,
            second: big_endian(zero_padded(bytes).subrange(16, 32)) as u128,
            third: big_endian(zero_padded(bytes).subrange(32, 48)) as u128,
            len: bytes.len() as u8,
        }
    }

    /// Whether this identifier comes before `other` in byte order.
    pub open spec fn spec_precedes(self, other: PeerId) -> bool {
        ||| self.first < other.first
        ||| self.first == other.first && self.second < other.second
        ||| self.first == other.first && self.second == other.second && self.third < other.third
        ||| self.first == other.first && self.second == other.second && self.third == other.third
            && self.len < other.len
    }

    /// An identifier from its bytes, or `None` if they are too many.
    pub fn from_bytes(bytes: &[u8]) -> (id: Option<PeerId>)
        ensures
            bytes.len() <= MAX_PEER_ID_BYTES ==> id == Some(PeerId::of_bytes(bytes@)),
            bytes.len() > MAX_PEER_ID_BYTES ==> id is None,
    {
        if bytes.len() > MAX_PEER_ID_BYTES {
            return None;
        }
        let first: u128 = read_padded(bytes, 0);
        let second: u128 = read_padded(bytes, 16);
        let third: u128 = read_padded(bytes, 32);
        Some(PeerId { first, second, third, len: bytes.len() as u8 })
    }

    /// Whether this identifier comes before `other` in byte order.
    pub fn precedes(&self, other: &PeerId) -> (before: bool)
        ensures
            before == self.spec_precedes(*other),
    {
        self.first < other.first || (self.first == other.first && (self.second < other.second || (
        self.second == other.second && (self.third < other.third || (self.third == other.third
            && self.len < other.len)))))
    }
}

/// Reads sixteen bytes of the zero-padded byte string from `start` on as a
/// big-endian number.
fn read_padded(bytes: &[u8], start: usize) -> (value: u128)
    requires
        start <= 32,
        bytes.len() <= MAX_PEER_ID_BYTES,
    ensures
        value as nat == big_endian(zero_padded(bytes@).subrange(start as int, start + 16)),
{
    let mut value: u128 = 0;
    let mut i: usize = 0;
    let ghost padded = zero_padded(bytes@);
    proof {
        assert(padded.subrange(start as int, start as int) =~= Seq::<u8>::empty());
    }
    while i < 16
        invariant
            i <= 16,
            start <= 32,
            padded == zero_padded(bytes@),
            value as nat == big_endian(padded.subrange(start as int, start + i)),
        decreases 16 - i,
    {
        let ghost before = padded.subrange(start as int, start + i);
        let ghost after = padded.subrange(start as int, start + i + 1);
        proof {
            assert(after.drop_last() =~= before);
            lemma_big_endian_bound(after);
            lemma_byte_range_monotone((i + 1) as nat, 16);
            lemma_byte_range_16();
        }
        let byte: u8 = if start + i < bytes.len() {
            bytes[start + i]
        } else {
            0
        };
        value = value * 256 + byte as u128;
        i = i + 1;
    }
    value
}

/// What a node does for the network.
#[derive(Clone, Copy, Debug, PartialEq, Eq, Structural, Hash)]
pub enum SwarmNodeType {
    /// Serves peer discovery only.
    Bootnode,
    /// Uses the network without storing for it.
    Client,
    /// Stores chunks for its neighborhood.
    Storer,
}

impl SwarmNodeType {
    /// Whether a node of this type stores chunks.
    pub fn requires_storage(self) -> (stores: bool)
        ensures
            stores == (self == SwarmNodeType::Storer),
    {
        matches!(self, SwarmNodeType::Storer)
    }
}

/// The distance of two addresses is the same from either of them, and zero
/// exactly where they are one.
pub proof fn distance_tells_addresses_apart(a: OverlayAddress, b: OverlayAddress)
    ensures
        distance(a, b) == distance(b, a),
        distance(a, b) >= 0,
        distance(a, b) == 0 <==> a == b,
{
    let ahi = a.hi;
    let bhi = b.hi;
    let alo = a.lo;
    let blo = b.lo;
    assert(ahi ^ bhi == bhi ^ ahi && (ahi ^ bhi == 0 <==> ahi == bhi)) by (bit_vector);
    assert(alo ^ blo == blo ^ alo && (alo ^ blo == 0 <==> alo == blo)) by (bit_vector);
}

/// The bits of a byte of an address are the address's own: the first byte holds
/// the first eight, and so on.
pub proof fn bytes_hold_the_bits_in_order(address: OverlayAddress, i: int, j: int)
    requires
        0 <= i < 32,
        0 <= j < 8,
    ensures
        ((address.byte(i) >> ((7 - j) as u8)) & 1 == 1) <==> address.bit(8 * i + j),
{
    let x = if i < 16 {
        address.hi
    } else {
        address.lo
    };
    let k = if i < 16 {
        i
    } else {
        i - 16
    };
    let s = (120 - 8 * k) as u128;
    let t = (7 - j) as u128;
    let t8 = (7 - j) as u8;
    let byte = ((x >> s) & 0xff) as u8;
    let at = (127 - (8 * k + j)) as u128;
    assert(at == s + t);
    assert(((byte >> t8) & 1 == 1) <==> ((x >> at) & 1 == 1)) by (bit_vector)
        requires
            byte == ((x >> s) & 0xff) as u8,
            at == s + t,
            t8 as u128 == t,
            t <= 7,
            s <= 120,
    ;
}

/// Of two different identifiers one comes first, and only one.
pub proof fn identifiers_are_ordered(a: PeerId, b: PeerId, c: PeerId)
    ensures
        !a.spec_precedes(a),
        a != b ==> (a.spec_precedes(b) <==> !b.spec_precedes(a)),
        a.spec_precedes(b) && b.spec_precedes(c) ==> a.spec_precedes(c),
        a.first < b.first ==> a.spec_precedes(b),
{
}

/// The neighborhood is made of the bins from the depth on.
pub proof fn the_neighborhood_begins_at_the_depth(depth: NeighborhoodDepth, bin: Bin)
    ensures
        bin.raw < depth.raw ==> !depth.spec_contains(bin),
        bin.raw >= depth.raw ==> depth.spec_contains(bin),
{
}

proof fn lemma_byte_range_adds(m: nat, n: nat)
    ensures
        byte_range(m + n) == byte_range(m) * byte_range(n),
    decreases n,
{
    if n > 0 {
        lemma_byte_range_adds(m, (n - 1) as nat);
        let a = byte_range(m);
        let b = byte_range((n - 1) as nat);
        assert(256 * (a * b) == a * (256 * b)) by (nonlinear_arith);
        assert(byte_range(m + n) == 256 * byte_range((m + n - 1) as nat));
    } else {
        assert(byte_range(m) * 1 == byte_range(m)) by (nonlinear_arith);
    }
}

/// A big-endian number is made of its parts: the leading bytes weigh as much as
/// the others can count.
pub proof fn leading_bytes_weigh_more(first: Seq<u8>, second: Seq<u8>)
    ensures
        big_endian(first + second) == big_endian(first) * byte_range(second.len()) + big_endian(
            second,
        ),
        big_endian(second) < byte_range(second.len()),
        big_endian(Seq::empty()) == 0,
    decreases second.len(),
{
    lemma_big_endian_bound(second);
    if second.len() == 0 {
        assert(first + second =~= first);
        assert(big_endian(first) * 1 == big_endian(first)) by (nonlinear_arith);
    } else {
        let less = second.drop_last();
        leading_bytes_weigh_more(first, less);
        assert((first + second).drop_last() =~= first + less);
        assert((first + second).last() == second.last());
        let a = big_endian(first);
        let r = byte_range(less.len());
        assert(256 * (a * r) == a * (256 * r)) by (nonlinear_arith);
    }
}

/// An address is the number that its thirty-two bytes spell, most significant
/// first.
pub proof fn addresses_are_big_endian(bytes: Seq<u8>)
    requires
        bytes.len() == 32,
    ensures
        OverlayAddress::of_bytes(bytes).value() == big_endian(bytes),
{
    let first = bytes.subrange(0, 16);
    let second = bytes.subrange(16, 32);
    assert(first + second =~= bytes);
    leading_bytes_weigh_more(first, second);
    lemma_big_endian_bound(first);
    lemma_byte_range_16();
}

/// An identifier is the number that its bytes spell, padded with zeros at the
/// end, and keeps their number.
pub proof fn identifiers_are_big_endian(bytes: Seq<u8>)
    requires
        bytes.len() <= MAX_PEER_ID_BYTES,
    ensures
        ({
            let id = PeerId::of_bytes(bytes);
            let half = 0x1_0000_0000_0000_0000_0000_0000_0000_0000int;
            &&& id.len == bytes.len()
            &&& (id.first * half + id.second) * half + id.third == big_endian(
                bytes + Seq::new((48 - bytes.len()) as nat, |i: int| 0u8),
            )
        }),
{
    let padded = zero_padded(bytes);
    assert(padded =~= bytes + Seq::new((48 - bytes.len()) as nat, |i: int| 0u8));
    let a = padded.subrange(0, 16);
    let b = padded.subrange(16, 32);
    let c = padded.subrange(32, 48);
    assert((a + b) + c =~= padded);
    leading_bytes_weigh_more(a, b);
    leading_bytes_weigh_more(a + b, c);
    lemma_big_endian_bound(a);
    lemma_byte_range_16();
}

} // verus!
