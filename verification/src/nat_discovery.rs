//! Local addresses and what is known about their reachability.

use crate::primitives::PeerId;
use crate::reachability::ReachabilityTracker;
use crate::time::Instant;
use vstd::prelude::*;

verus! {

/// How far an address reaches.
#[derive(Clone, Copy, Debug, PartialEq, Eq, Structural)]
pub enum AddressScope {
    /// This host only.
    Loopback,
    /// The local network.
    Private,
    /// Everywhere.
    Public,
}

/// A transport address, with at most one trailing `/p2p/` part.
#[derive(Clone, Copy, Debug, PartialEq, Eq, Structural)]
pub struct Multiaddr {
    /// Identifies the address without its `/p2p/` part.
    pub bare: u128,
    /// The peer named by the `/p2p/` part.
    pub p2p: Option<PeerId>,
    /// The scope of the address, if it has one.
    pub scope: Option<AddressScope>,
    /// Place of the address family in the dial order: IPv6 comes before IPv4.
    pub family: u8,
}

impl Multiaddr {
    /// The address without its `/p2p/` part.
    pub open spec fn spec_stripped(self) -> Multiaddr {
        Multiaddr { p2p: None, ..self }
    }

    /// Whether the address is public.
    pub open spec fn spec_is_public(self) -> bool {
        self.scope == Some(AddressScope::Public)
    }

    /// The address without its `/p2p/` part.
    pub fn strip_peer_id(&self) -> (addr: Multiaddr)
        ensures
            addr == self.spec_stripped(),
    {
        Multiaddr { p2p: None, ..*self }
    }

    /// Whether the address is public.
    pub fn is_public(&self) -> (public: bool)
        ensures
            public == self.spec_is_public(),
    {
        match self.scope {
            Some(AddressScope::Public) => true,
            _ => false,
        }
    }
}

/// An address as it is advertised: followed by `/p2p/` and the local peer, if
/// that is known.
#[derive(Clone, Copy, Debug, PartialEq, Eq, Structural)]
pub struct AdvertisedAddr {
    pub addr: Multiaddr,
    pub peer_id: Option<PeerId>,
}

/// Where an address of `family` goes in a list ordered by family: behind the
/// last one of its own or an earlier family.
pub open spec fn family_slot(sorted: Seq<Multiaddr>, family: u8) -> int
    decreases sorted.len(),
{
    if sorted.len() == 0 || sorted.last().family <= family {
        sorted.len() as int
    } else {
        family_slot(sorted.drop_last(), family)
    }
}

/// The addresses ordered by family; those of one family stay in order.
pub open spec fn by_family(addrs: Seq<Multiaddr>) -> Seq<Multiaddr>
    decreases addrs.len(),
{
    if addrs.len() == 0 {
        Seq::empty()
    } else {
        let sorted = by_family(addrs.drop_last());
        sorted.insert(family_slot(sorted, addrs.last().family), addrs.last())
    }
}

/// The addresses without repetitions, each where it came first.
pub open spec fn distinct(addrs: Seq<Multiaddr>) -> Seq<Multiaddr>
    decreases addrs.len(),
{
    if addrs.len() == 0 {
        Seq::empty()
    } else {
        let rest = distinct(addrs.drop_last());
        if rest.contains(addrs.last()) {
            rest
        } else {
            rest.push(addrs.last())
        }
    }
}

/// The addresses as they are advertised.
pub open spec fn advertised(addrs: Seq<Multiaddr>, peer_id: Option<PeerId>) -> Seq<AdvertisedAddr> {
    addrs.map_values(|addr: Multiaddr| AdvertisedAddr { addr, peer_id })
}

/// Three tiers of addresses in one list: each ordered by family, without
/// repetitions.
pub open spec fn tiered(
    verified: Seq<Multiaddr>,
    listen: Seq<Multiaddr>,
    mapped: Seq<Multiaddr>,
) -> Seq<Multiaddr> {
    distinct(by_family(verified) + by_family(listen) + by_family(mapped))
}

/// Whether an address may be told to a peer of scope `peer`: a public one is
/// none of the business of a peer on the same host or the local network.
pub open spec fn in_scope(addr: Multiaddr, peer: Option<AddressScope>) -> bool {
    !(addr.spec_is_public() && (peer == Some(AddressScope::Loopback) || peer == Some(
        AddressScope::Private,
    )))
}

/// The addresses that are admitted and in scope for a peer of scope `peer`, in
/// order.
pub open spec fn admitted(
    addrs: Seq<Multiaddr>,
    admits: Seq<bool>,
    peer: Option<AddressScope>,
) -> Seq<Multiaddr>
    decreases addrs.len(),
{
    if addrs.len() == 0 {
        Seq::empty()
    } else {
        let rest = admitted(addrs.drop_last(), admits, peer);
        if admits[addrs.len() - 1] && in_scope(addrs.last(), peer) {
            rest.push(addrs.last())
        } else {
            rest
        }
    }
}

/// Whether one of the addresses is public.
pub open spec fn some_public(addrs: Seq<Multiaddr>) -> bool {
    exists|i: int| 0 <= i < addrs.len() && (#[trigger] addrs[i]).spec_is_public()
}

fn any_public(addrs: &[Multiaddr]) -> (found: bool)
    ensures
        found == some_public(addrs@),
{
    let mut i: usize = 0;
    while i < addrs.len()
        invariant
            i <= addrs.len(),
            forall|j: int| 0 <= j < i ==> !(#[trigger] addrs@[j]).spec_is_public(),
        decreases addrs.len() - i,
    {
        if addrs[i].is_public() {
            return true;
        }
        i = i + 1;
    }
    false
}

fn sorted_by_family(addrs: &[Multiaddr]) -> (sorted: Vec<Multiaddr>)
    ensures
        sorted@ == by_family(addrs@),
{
    let mut sorted: Vec<Multiaddr> = Vec::new();
    let mut i: usize = 0;
    proof {
        assert(addrs@.subrange(0, 0) =~= Seq::empty());
    }
    while i < addrs.len()
        invariant
            i <= addrs.len(),
            sorted.len() == i,
            sorted@ == by_family(addrs@.subrange(0, i as int)),
        decreases addrs.len() - i,
    {
        proof {
            assert(addrs@.subrange(0, i + 1).drop_last() =~= addrs@.subrange(0, i as int));
        }
        let addr: Multiaddr = addrs[i];
        let mut at: usize = sorted.len();
        proof {
            assert(sorted@.subrange(0, at as int) =~= sorted@);
        }
        while at > 0 && sorted[at - 1].family > addr.family
            invariant
                at <= sorted.len(),
                family_slot(sorted@.subrange(0, at as int), addr.family) == family_slot(
                    sorted@,
                    addr.family,
                ),
            decreases at,
        {
            proof {
                assert(sorted@.subrange(0, at as int).drop_last() =~= sorted@.subrange(0, at - 1));
            }
            at = at - 1;
        }
        sorted.insert(at, addr);
        i = i + 1;
    }
    proof {
        assert(addrs@.subrange(0, i as int) =~= addrs@);
    }
    sorted
}

fn is_among(addrs: &Vec<Multiaddr>, addr: &Multiaddr) -> (found: bool)
    ensures
        found == addrs@.contains(*addr),
{
    position_of(addrs, addr).is_some()
}

fn position_of(addrs: &Vec<Multiaddr>, addr: &Multiaddr) -> (at: Option<usize>)
    ensures
        at matches Some(i) ==> i < addrs.len() && addrs@[i as int] == *addr && addrs@.contains(
            *addr,
        ),
        at is None ==> !addrs@.contains(*addr),
{
    let mut i: usize = 0;
    while i < addrs.len()
        invariant
            i <= addrs.len(),
            forall|j: int| 0 <= j < i ==> addrs@[j] != *addr,
        decreases addrs.len() - i,
    {
        if addrs[i] == *addr {
            return Some(i);
        }
        i = i + 1;
    }
    None
}

/// Append to `addrs` what it does not hold yet of `more`.
fn append_new(addrs: &mut Vec<Multiaddr>, more: &Vec<Multiaddr>, before: Ghost<Seq<Multiaddr>>)
    requires
        old(addrs)@ == distinct(before@),
    ensures
        final(addrs)@ == distinct(before@ + more@),
{
    let mut i: usize = 0;
    proof {
        assert(before@ + more@.subrange(0, 0) =~= before@);
    }
    while i < more.len()
        invariant
            i <= more.len(),
            addrs@ == distinct(before@ + more@.subrange(0, i as int)),
        decreases more.len() - i,
    {
        proof {
            let next = before@ + more@.subrange(0, i + 1);
            assert(next.drop_last() =~= before@ + more@.subrange(0, i as int));
            assert(next.last() == more@[i as int]);
        }
        if !is_among(addrs, &more[i]) {
            addrs.push(more[i]);
        }
        i = i + 1;
    }
    proof {
        assert(more@.subrange(0, i as int) =~= more@);
    }
}

fn tiers(verified: &[Multiaddr], listen: &[Multiaddr], mapped: &[Multiaddr]) -> (addrs: Vec<Multiaddr>)
    ensures
        addrs@ == tiered(verified@, listen@, mapped@),
{
    let first: Vec<Multiaddr> = sorted_by_family(verified);
    let second: Vec<Multiaddr> = sorted_by_family(listen);
    let third: Vec<Multiaddr> = sorted_by_family(mapped);
    let mut addrs: Vec<Multiaddr> = Vec::new();
    append_new(&mut addrs, &first, Ghost(Seq::empty()));
    proof {
        assert(Seq::empty() + first@ =~= first@);
    }
    append_new(&mut addrs, &second, Ghost(first@));
    append_new(&mut addrs, &third, Ghost(first@ + second@));
    addrs
}

/// Manages local addresses for advertisement during handshakes: static NAT
/// addresses, verified external addresses, and per-peer reachability.
#[derive(Debug)]
pub struct LocalAddressManager {
    pub nat_addrs: Vec<Multiaddr>,
    /// Local peer identity for the `/p2p/` part of advertised addresses.
    pub local_peer_id: Option<PeerId>,
    /// A peer reported observing this node at a public address. Unverified,
    /// so it never clears.
    pub observed_reachable: bool,
    /// Verified public external addresses. Reversible: an address leaves when
    /// it expires.
    pub confirmed_external_addrs: Vec<Multiaddr>,
    /// Per-peer reachability.
    pub reachability: ReachabilityTracker,
}

impl LocalAddressManager {
    /// The verified addresses are public, bare and distinct, and no peer has
    /// two reachability records.
    pub open spec fn wf(self) -> bool {
        &&& self.confirmed_external_addrs@.no_duplicates()
        &&& forall|i: int|
            #![trigger self.confirmed_external_addrs@[i]]
            0 <= i < self.confirmed_external_addrs.len() ==> {
                &&& self.confirmed_external_addrs@[i].spec_is_public()
                &&& self.confirmed_external_addrs@[i].p2p is None
            }
        &&& self.reachability.wf()
    }

    /// A manager with the given NAT addresses.
    pub fn new(nat_addrs: Vec<Multiaddr>) -> (manager: LocalAddressManager)
        ensures
            manager.wf(),
            manager.nat_addrs == nat_addrs,
            manager.local_peer_id is None,
            !manager.observed_reachable,
            manager.confirmed_external_addrs.len() == 0,
            manager.reachability.peers.len() == 0,
    {
        LocalAddressManager::with_reachability(nat_addrs, ReachabilityTracker::new())
    }

    /// A manager with the given NAT addresses and reachability tracker.
    pub fn with_reachability(nat_addrs: Vec<Multiaddr>, reachability: ReachabilityTracker) -> (manager:
        LocalAddressManager)
        requires
            reachability.wf(),
        ensures
            manager.wf(),
            manager.nat_addrs == nat_addrs,
            manager.local_peer_id is None,
            !manager.observed_reachable,
            manager.confirmed_external_addrs.len() == 0,
            manager.reachability == reachability,
    {
        LocalAddressManager {
            nat_addrs,
            local_peer_id: None,
            observed_reachable: false,
            confirmed_external_addrs: Vec::new(),
            reachability,
        }
    }

    /// A manager without NAT addresses.
    pub fn disabled() -> (manager: LocalAddressManager)
        ensures
            manager.wf(),
            manager.nat_addrs.len() == 0,
            manager.local_peer_id is None,
            !manager.observed_reachable,
            manager.confirmed_external_addrs.len() == 0,
            manager.reachability.peers.len() == 0,
    {
        LocalAddressManager::new(Vec::new())
    }

    /// The per-peer reachability tracker.
    pub fn reachability(&self) -> (tracker: &ReachabilityTracker)
        ensures
            *tracker == self.reachability,
    {
        &self.reachability
    }

    /// Record that an AutoNAT v2 dial-back confirmed a peer reachable.
    pub fn on_autonat_peer_confirmed(&mut self, peer: PeerId, now: Instant)
        requires
            old(self).wf(),
        ensures
            final(self).wf(),
            *final(self) == (LocalAddressManager {
                reachability: final(self).reachability,
                ..*old(self)
            }),
            final(self).reachability.is_update_of(
                old(self).reachability,
                peer,
                old(self).reachability.lookup_or_fresh(peer, now).after_proof(now),
            ),
    {
        self.reachability.on_autonat_peer_confirmed(peer, now);
    }

    /// Register the local peer identity. It can be registered once; returns
    /// whether this call did.
    pub fn register_local_peer_id(&mut self, peer_id: PeerId) -> (registered: bool)
        ensures
            registered == (old(self).local_peer_id is None),
            *final(self) == if registered {
                LocalAddressManager { local_peer_id: Some(peer_id), ..*old(self) }
            } else {
                *old(self)
            },
    {
        if self.local_peer_id.is_some() {
            return false;
        }
        self.local_peer_id = Some(peer_id);
        true
    }

    /// The local peer identity, if registered.
    pub fn local_peer_id(&self) -> (peer_id: Option<PeerId>)
        ensures
            peer_id == self.local_peer_id,
    {
        self.local_peer_id
    }

    /// The static NAT addresses.
    pub fn nat_addrs(&self) -> (addrs: &Vec<Multiaddr>)
        ensures
            *addrs == self.nat_addrs,
    {
        &self.nat_addrs
    }

    /// Whether there is a public address to advertise: a static NAT address, a
    /// listen address, a verified external address, or the address that a
    /// peer observed.
    pub fn is_reachable(&self, listen_addrs: &[Multiaddr]) -> (reachable: bool)
        ensures
            reachable == (some_public(self.nat_addrs@) || some_public(listen_addrs@)
                || self.confirmed_external_addrs.len() > 0 || self.observed_reachable),
    {
        if any_public(self.nat_addrs.as_slice()) {
            return true;
        }
        if any_public(listen_addrs) {
            return true;
        }
        if self.confirmed_external_addrs.len() > 0 {
            return true;
        }
        self.observed_reachable
    }

    /// Record an address at which a peer observed this node.
    pub fn on_observed_addr(&mut self, addr: &Multiaddr)
        requires
            old(self).wf(),
        ensures
            final(self).wf(),
            *final(self) == (LocalAddressManager {
                observed_reachable: old(self).observed_reachable || addr.spec_is_public(),
                ..*old(self)
            }),
    {
        let bare: Multiaddr = addr.strip_peer_id();
        if bare.is_public() {
            self.observed_reachable = true;
        }
    }

    /// Record a verified external address. Only a public one counts.
    pub fn on_external_addr_confirmed(&mut self, addr: &Multiaddr)
        requires
            old(self).wf(),
        ensures
            final(self).wf(),
            *final(self) == (LocalAddressManager {
                confirmed_external_addrs: final(self).confirmed_external_addrs,
                ..*old(self)
            }),
            final(self).confirmed_external_addrs@ == if addr.spec_is_public() && !old(
                self,
            ).confirmed_external_addrs@.contains(addr.spec_stripped()) {
                old(self).confirmed_external_addrs@.push(addr.spec_stripped())
            } else {
                old(self).confirmed_external_addrs@
            },
            addr.spec_is_public() ==> final(self).confirmed_external_addrs@.contains(
                addr.spec_stripped(),
            ),
    {
        let bare: Multiaddr = addr.strip_peer_id();
        if bare.is_public() && !is_among(&self.confirmed_external_addrs, &bare) {
            self.confirmed_external_addrs.push(bare);
            proof {
                let last = self.confirmed_external_addrs.len() - 1;
                assert(self.confirmed_external_addrs@[last] == bare);
            }
        }
    }

    /// Drop a verified external address that expired.
    pub fn on_external_addr_expired(&mut self, addr: &Multiaddr)
        requires
            old(self).wf(),
        ensures
            final(self).wf(),
            *final(self) == (LocalAddressManager {
                confirmed_external_addrs: final(self).confirmed_external_addrs,
                ..*old(self)
            }),
            ({
                let addrs = old(self).confirmed_external_addrs@;
                let bare = addr.spec_stripped();
                final(self).confirmed_external_addrs@ == if addrs.contains(bare) {
                    addrs.remove(addrs.index_of(bare))
                } else {
                    addrs
                }
            }),
            !final(self).confirmed_external_addrs@.contains(addr.spec_stripped()),
            final(self).confirmed_external_addrs.len() == old(self).confirmed_external_addrs.len()
                - (if old(self).confirmed_external_addrs@.contains(addr.spec_stripped()) {
                1int
            } else {
                0int
            }),
    {
        let bare: Multiaddr = addr.strip_peer_id();
        if let Some(at) = position_of(&self.confirmed_external_addrs, &bare) {
            let ghost addrs = self.confirmed_external_addrs@;
            let _gone: Multiaddr = self.confirmed_external_addrs.remove(at);
            proof {
                assert(addrs.index_of(bare) == at as int);
                let after = self.confirmed_external_addrs@;
                assert forall|i: int, j: int| 0 <= i < j < after.len() implies after[i]
                    != after[j] by {
                    let i0 = if i < at {
                        i
                    } else {
                        i + 1
                    };
                    let j0 = if j < at {
                        j
                    } else {
                        j + 1
                    };
                    assert(after[i] == addrs[i0] && after[j] == addrs[j0]);
                }
            }
        }
    }

    /// Whether reachability was confirmed, by a verified external address
    /// (reversible) or by observation (for good).
    pub fn has_confirmed_reachability(&self) -> (confirmed: bool)
        ensures
            confirmed == (self.confirmed_external_addrs.len() > 0 || self.observed_reachable),
    {
        self.confirmed_external_addrs.len() > 0 || self.observed_reachable
    }

    /// The addresses to advertise to a peer: verified external addresses, then
    /// listen addresses, then static NAT addresses unless the peer is on the
    /// same host, IPv6 before IPv4 in each of the three. An address appears
    /// once, where it comes first.
    ///
    /// A verified external address is left out for a peer on the same host or
    /// the local network, and where `admits` rules it out. `admits` says of each
    /// verified external address whether the subnet rules admit it for this
    /// peer, and `listen` holds the listen addresses that they admit.
    pub fn addresses_for_peer(
        &self,
        peer_addr: &Multiaddr,
        admits: &[bool],
        listen: &[Multiaddr],
    ) -> (addrs: Vec<AdvertisedAddr>)
        requires
            admits.len() == self.confirmed_external_addrs.len(),
        ensures
            addrs@ == advertised(
                tiered(
                    admitted(self.confirmed_external_addrs@, admits@, peer_addr.scope),
                    listen@,
                    if peer_addr.scope == Some(AddressScope::Loopback) {
                        Seq::empty()
                    } else {
                        self.nat_addrs@
                    },
                ),
                self.local_peer_id,
            ),
    {
        let none: Vec<Multiaddr> = Vec::new();
        let loopback: bool = match peer_addr.scope {
            Some(AddressScope::Loopback) => true,
            _ => false,
        };
        let mapped: &[Multiaddr] = if loopback {
            none.as_slice()
        } else {
            self.nat_addrs.as_slice()
        };
        let verified: Vec<Multiaddr> = self.verified_for(admits, peer_addr.scope);
        let addrs: Vec<Multiaddr> = tiers(verified.as_slice(), listen, mapped);
        self.with_peer_id(addrs)
    }

    /// The verified external addresses for a peer of scope `peer`.
    fn verified_for(&self, admits: &[bool], peer: Option<AddressScope>) -> (verified: Vec<Multiaddr>)
        requires
            admits.len() == self.confirmed_external_addrs.len(),
        ensures
            verified@ == admitted(self.confirmed_external_addrs@, admits@, peer),
    {
        let near: bool = match peer {
            Some(AddressScope::Loopback) => true,
            Some(AddressScope::Private) => true,
            _ => false,
        };
        let mut verified: Vec<Multiaddr> = Vec::new();
        let mut i: usize = 0;
        let ghost addrs = self.confirmed_external_addrs@;
        proof {
            assert(addrs.subrange(0, 0) =~= Seq::empty());
        }
        while i < self.confirmed_external_addrs.len()
            invariant
                i <= addrs.len(),
                addrs == self.confirmed_external_addrs@,
                admits.len() == addrs.len(),
                near == (peer == Some(AddressScope::Loopback) || peer == Some(
                    AddressScope::Private,
                )),
                verified@ == admitted(addrs.subrange(0, i as int), admits@, peer),
            decreases addrs.len() - i,
        {
            proof {
                assert(addrs.subrange(0, i + 1).drop_last() =~= addrs.subrange(0, i as int));
            }
            let addr: Multiaddr = self.confirmed_external_addrs[i];
            if admits[i] && !(addr.is_public() && near) {
                verified.push(addr);
            }
            i = i + 1;
        }
        proof {
            assert(addrs.subrange(0, i as int) =~= addrs);
        }
        verified
    }

    /// The addresses with the local peer identity, if registered.
    pub fn with_peer_id(&self, addrs: Vec<Multiaddr>) -> (out: Vec<AdvertisedAddr>)
        ensures
            out@ == advertised(addrs@, self.local_peer_id),
    {
        let mut out: Vec<AdvertisedAddr> = Vec::new();
        let mut i: usize = 0;
        while i < addrs.len()
            invariant
                i <= addrs.len(),
                out@ == advertised(addrs@.subrange(0, i as int), self.local_peer_id),
            decreases addrs.len() - i,
        {
            out.push(AdvertisedAddr { addr: addrs[i], peer_id: self.local_peer_id });
            i = i + 1;
            proof {
                assert(out@ =~= advertised(addrs@.subrange(0, i as int), self.local_peer_id));
            }
        }
        proof {
            assert(addrs@.subrange(0, i as int) =~= addrs@);
        }
        out
    }

    /// All known addresses, in the order of [`Self::addresses_for_peer`].
    pub fn all_addresses(&self, listen_addrs: &[Multiaddr]) -> (addrs: Vec<Multiaddr>)
        ensures
            addrs@ == tiered(self.confirmed_external_addrs@, listen_addrs@, self.nat_addrs@),
    {
        tiers(
            self.confirmed_external_addrs.as_slice(),
            listen_addrs,
            self.nat_addrs.as_slice(),
        )
    }
}

proof fn lemma_family_slot(sorted: Seq<Multiaddr>, family: u8)
    ensures
        0 <= family_slot(sorted, family) <= sorted.len(),
        family_slot(sorted, family) > 0 ==> sorted[family_slot(sorted, family) - 1].family
            <= family,
        forall|j: int|
            #![trigger sorted[j]]
            family_slot(sorted, family) <= j < sorted.len() ==> sorted[j].family > family,
    decreases sorted.len(),
{
    if sorted.len() > 0 && sorted.last().family > family {
        lemma_family_slot(sorted.drop_last(), family);
        let slot = family_slot(sorted, family);
        assert forall|j: int|
            #![trigger sorted[j]]
            slot <= j < sorted.len() implies sorted[j].family > family by {
            if j < sorted.len() - 1 {
                assert(sorted.drop_last()[j] == sorted[j]);
            }
        }
        if slot > 0 {
            assert(sorted.drop_last()[slot - 1] == sorted[slot - 1]);
        }
    }
}

/// Ordering by family puts no address before one of an earlier family, and
/// keeps every address.
pub proof fn families_are_ordered(addrs: Seq<Multiaddr>)
    ensures
        forall|i: int, j: int|
            #![trigger by_family(addrs)[i], by_family(addrs)[j]]
            0 <= i <= j < by_family(addrs).len() ==> by_family(addrs)[i].family <= by_family(
                addrs,
            )[j].family,
        by_family(addrs).to_multiset() == addrs.to_multiset(),
    decreases addrs.len(),
{
    broadcast use vstd::seq_lib::group_to_multiset_ensures;

    if addrs.len() > 0 {
        let rest = addrs.drop_last();
        families_are_ordered(rest);
        let sorted = by_family(rest);
        let slot = family_slot(sorted, addrs.last().family);
        lemma_family_slot(sorted, addrs.last().family);
        let all = by_family(addrs);
        assert forall|i: int, j: int|
            #![trigger all[i], all[j]]
            0 <= i <= j < all.len() implies all[i].family <= all[j].family by {
            let i0 = if i < slot {
                i
            } else {
                i - 1
            };
            let j0 = if j < slot {
                j
            } else {
                j - 1
            };
            if i != slot {
                assert(all[i] == sorted[i0]);
            }
            if j != slot {
                assert(all[j] == sorted[j0]);
            }
            if j == slot && i < slot {
                assert(sorted[i0].family <= sorted[slot - 1].family);
            }
        }
        assert(rest.push(addrs.last()) =~= addrs);
        assert(all =~= sorted.insert(slot, addrs.last()));
    } else {
        assert(by_family(addrs) =~= addrs);
    }
}

/// Dropping repetitions keeps each address once, and drops none.
pub proof fn distinct_keeps_each_once(addrs: Seq<Multiaddr>)
    ensures
        distinct(addrs).no_duplicates(),
        forall|addr: Multiaddr| #[trigger]
            distinct(addrs).contains(addr) == addrs.contains(addr),
    decreases addrs.len(),
{
    if addrs.len() > 0 {
        let rest = addrs.drop_last();
        distinct_keeps_each_once(rest);
        let kept = distinct(rest);
        let all = distinct(addrs);
        assert forall|addr: Multiaddr| #[trigger] all.contains(addr) == addrs.contains(addr) by {
            assert(kept.contains(addr) == rest.contains(addr));
            if addrs.contains(addr) {
                let i = choose|i: int| 0 <= i < addrs.len() && addrs[i] == addr;
                if i < rest.len() {
                    assert(rest[i] == addr);
                    let k = choose|k: int| 0 <= k < kept.len() && kept[k] == addr;
                    assert(all[k] == addr);
                } else if kept.contains(addr) {
                    let k = choose|k: int| 0 <= k < kept.len() && kept[k] == addr;
                    assert(all[k] == addr);
                } else {
                    assert(all[kept.len() as int] == addr);
                }
            }
            if all.contains(addr) {
                let k = choose|k: int| 0 <= k < all.len() && all[k] == addr;
                if k < kept.len() {
                    assert(kept[k] == addr);
                    let i = choose|i: int| 0 <= i < rest.len() && rest[i] == addr;
                    assert(addrs[i] == addr);
                } else {
                    assert(addrs[addrs.len() - 1] == addr);
                }
            }
        }
    }
}

/// What comes first in a list stays first when repetitions are dropped.
pub proof fn earlier_tiers_lead(first: Seq<Multiaddr>, more: Seq<Multiaddr>)
    ensures
        distinct(first).len() <= distinct(first + more).len(),
        distinct(first + more).subrange(0, distinct(first).len() as int) == distinct(first),
    decreases more.len(),
{
    if more.len() == 0 {
        assert(first + more =~= first);
        assert(distinct(first).subrange(0, distinct(first).len() as int) =~= distinct(first));
    } else {
        earlier_tiers_lead(first, more.drop_last());
        assert((first + more).drop_last() =~= first + more.drop_last());
        let n = distinct(first).len() as int;
        assert(distinct(first + more).subrange(0, n) =~= distinct(
            first + more.drop_last(),
        ).subrange(0, n));
    }
}

/// A verified address that expires leaves the verified addresses as they were
/// before it was confirmed.
pub proof fn expiry_undoes_confirmation(addrs: Seq<Multiaddr>, bare: Multiaddr)
    requires
        !addrs.contains(bare),
    ensures
        addrs.push(bare).contains(bare),
        addrs.push(bare).remove(addrs.push(bare).index_of(bare)) == addrs,
{
    let grown = addrs.push(bare);
    assert(grown[addrs.len() as int] == bare);
    let i = grown.index_of(bare);
    assert(grown[i] == bare);
    if i < addrs.len() {
        assert(addrs[i] == bare);
    }
    assert(grown.remove(i) =~= addrs);
}

proof fn lemma_tiered_contains(
    verified: Seq<Multiaddr>,
    listen: Seq<Multiaddr>,
    mapped: Seq<Multiaddr>,
    addr: Multiaddr,
)
    requires
        tiered(verified, listen, mapped).contains(addr),
    ensures
        verified.contains(addr) || listen.contains(addr) || mapped.contains(addr),
{
    broadcast use vstd::seq_lib::group_to_multiset_ensures;

    let first = by_family(verified);
    let second = by_family(listen);
    let third = by_family(mapped);
    let all = first + second + third;
    distinct_keeps_each_once(all);
    assert(all.contains(addr));
    let i = choose|i: int| 0 <= i < all.len() && all[i] == addr;
    families_are_ordered(verified);
    families_are_ordered(listen);
    families_are_ordered(mapped);
    if i < first.len() {
        assert(first[i] == addr);
        assert(first.to_multiset().count(addr) > 0);
    } else if i < first.len() + second.len() {
        assert(second[i - first.len()] == addr);
        assert(second.to_multiset().count(addr) > 0);
    } else {
        assert(third[i - first.len() - second.len()] == addr);
        assert(third.to_multiset().count(addr) > 0);
    }
}

/// A peer on the same host learns no static NAT address from the list built
/// for it: every advertised address is a verified or a listen address.
pub proof fn loopback_peers_see_no_nat(
    verified: Seq<Multiaddr>,
    listen: Seq<Multiaddr>,
    addr: Multiaddr,
)
    requires
        tiered(verified, listen, Seq::empty()).contains(addr),
    ensures
        verified.contains(addr) || listen.contains(addr),
{
    lemma_tiered_contains(verified, listen, Seq::empty(), addr);
}

/// A confirmed external address does not leak to a peer on the same host or
/// the local network, whatever the subnet rules admit: every address that such
/// a peer is told is a listen address or a static NAT address.
pub proof fn confirmed_addresses_do_not_leak(
    manager: LocalAddressManager,
    admits: Seq<bool>,
    peer: Option<AddressScope>,
    listen: Seq<Multiaddr>,
    mapped: Seq<Multiaddr>,
)
    requires
        manager.wf(),
        peer == Some(AddressScope::Loopback) || peer == Some(AddressScope::Private),
    ensures
        admitted(manager.confirmed_external_addrs@, admits, peer) == Seq::<Multiaddr>::empty(),
        forall|addr: Multiaddr| #[trigger]
            tiered(
                admitted(manager.confirmed_external_addrs@, admits, peer),
                listen,
                mapped,
            ).contains(addr) ==> listen.contains(addr) || mapped.contains(addr),
{
    lemma_none_admitted(manager.confirmed_external_addrs@, admits, peer);
    let kept = admitted(manager.confirmed_external_addrs@, admits, peer);
    assert forall|addr: Multiaddr| #[trigger]
        tiered(kept, listen, mapped).contains(addr) implies listen.contains(addr)
        || mapped.contains(addr) by {
        lemma_tiered_contains(kept, listen, mapped, addr);
    }
}

proof fn lemma_none_admitted(
    addrs: Seq<Multiaddr>,
    admits: Seq<bool>,
    peer: Option<AddressScope>,
)
    requires
        forall|i: int| 0 <= i < addrs.len() ==> (#[trigger] addrs[i]).spec_is_public(),
        peer == Some(AddressScope::Loopback) || peer == Some(AddressScope::Private),
    ensures
        admitted(addrs, admits, peer) == Seq::<Multiaddr>::empty(),
    decreases addrs.len(),
{
    if addrs.len() > 0 {
        assert(addrs[addrs.len() - 1].spec_is_public());
        assert forall|i: int| 0 <= i < addrs.drop_last().len() implies (
        #[trigger] addrs.drop_last()[i]).spec_is_public() by {
            assert(addrs.drop_last()[i] == addrs[i]);
        }
        lemma_none_admitted(addrs.drop_last(), admits, peer);
    }
}

/// An address is public by its scope alone, and keeps it and all else without
/// its peer.
pub proof fn stripping_drops_the_peer_alone(addr: Multiaddr)
    ensures
        addr.spec_is_public() <==> addr.scope == Some(AddressScope::Public),
        addr.spec_stripped().p2p is None,
        addr.spec_stripped().bare == addr.bare,
        addr.spec_stripped().scope == addr.scope,
        addr.spec_stripped().family == addr.family,
{
}

/// There is a public address where one of them has the public scope.
pub proof fn a_public_address_is_enough(addrs: Seq<Multiaddr>, i: int)
    ensures
        0 <= i < addrs.len() && addrs[i].scope == Some(AddressScope::Public) ==> some_public(addrs),
        some_public(addrs) ==> exists|j: int|
            #![trigger addrs[j]]
            0 <= j < addrs.len() && addrs[j].scope == Some(AddressScope::Public),
{
}

/// The verified addresses for a peer are those that the subnet rules admit,
/// without the public ones for a peer on the same host or the local network.
pub proof fn admitted_addresses_pass_both_rules(
    addrs: Seq<Multiaddr>,
    admits: Seq<bool>,
    peer: Option<AddressScope>,
    addr: Multiaddr,
)
    ensures
        admitted(addrs, admits, peer).contains(addr) <==> exists|i: int|
            #![trigger addrs[i]]
            {
                &&& 0 <= i < addrs.len()
                &&& addrs[i] == addr
                &&& admits[i]
                &&& addr.scope != Some(AddressScope::Public) || (peer != Some(
                    AddressScope::Loopback,
                ) && peer != Some(AddressScope::Private))
            },
    decreases addrs.len(),
{
    if addrs.len() > 0 {
        let less = addrs.drop_last();
        let last = addrs.len() - 1;
        let rest = admitted(less, admits, peer);
        let all = admitted(addrs, admits, peer);
        admitted_addresses_pass_both_rules(less, admits, peer, addr);
        let fits = |i: int|
            addrs[i] == addr && admits[i] && (addr.scope != Some(AddressScope::Public) || (peer
                != Some(AddressScope::Loopback) && peer != Some(AddressScope::Private)));
        if all.contains(addr) {
            let k = choose|k: int| 0 <= k < all.len() && all[k] == addr;
            if k < rest.len() {
                assert(rest[k] == addr);
                let i = choose|i: int|
                    #![trigger less[i]]
                    {
                        &&& 0 <= i < less.len()
                        &&& less[i] == addr
                        &&& admits[i]
                        &&& addr.scope != Some(AddressScope::Public) || (peer != Some(
                            AddressScope::Loopback,
                        ) && peer != Some(AddressScope::Private))
                    };
                assert(addrs[i] == addr);
            } else {
                assert(addrs[last] == addr);
            }
        }
        if exists|i: int| #![trigger addrs[i]] 0 <= i < addrs.len() && fits(i) {
            let i = choose|i: int| #![trigger addrs[i]] 0 <= i < addrs.len() && fits(i);
            if i < last {
                assert(less[i] == addr);
                assert(rest.contains(addr));
                let k = choose|k: int| 0 <= k < rest.len() && rest[k] == addr;
                assert(all[k] == addr);
            } else {
                assert(all[all.len() - 1] == addr);
            }
        }
    }
}

proof fn lemma_by_family_members(addrs: Seq<Multiaddr>, addr: Multiaddr)
    ensures
        by_family(addrs).contains(addr) <==> addrs.contains(addr),
{
    broadcast use vstd::seq_lib::group_to_multiset_ensures;

    families_are_ordered(addrs);
    assert(by_family(addrs).contains(addr) <==> by_family(addrs).to_multiset().count(addr) > 0);
    assert(addrs.contains(addr) <==> addrs.to_multiset().count(addr) > 0);
}

proof fn lemma_addrs_joined(first: Seq<Multiaddr>, second: Seq<Multiaddr>, addr: Multiaddr)
    ensures
        (first + second).contains(addr) <==> first.contains(addr) || second.contains(addr),
{
    let all = first + second;
    if all.contains(addr) {
        let k = choose|k: int| 0 <= k < all.len() && all[k] == addr;
        if k < first.len() {
            assert(first[k] == addr);
        } else {
            assert(second[k - first.len()] == addr);
        }
    }
    if first.contains(addr) {
        let k = choose|k: int| 0 <= k < first.len() && first[k] == addr;
        assert(all[k] == addr);
    }
    if second.contains(addr) {
        let k = choose|k: int| 0 <= k < second.len() && second[k] == addr;
        assert(all[first.len() + k] == addr);
    }
}

/// The list of all three tiers holds every address of each of them and no
/// other, once. The verified ones come first, and the listen addresses come
/// before those that are static NAT addresses only.
pub proof fn tiers_hold_every_address_in_order(
    verified: Seq<Multiaddr>,
    listen: Seq<Multiaddr>,
    mapped: Seq<Multiaddr>,
    addr: Multiaddr,
    i: int,
    j: int,
)
    ensures
        tiered(verified, listen, mapped).no_duplicates(),
        tiered(verified, listen, mapped).contains(addr) <==> verified.contains(addr)
            || listen.contains(addr) || mapped.contains(addr),
        0 <= i < j < tiered(verified, listen, mapped).len() && verified.contains(
            tiered(verified, listen, mapped)[j],
        ) ==> verified.contains(tiered(verified, listen, mapped)[i]),
        0 <= i < j < tiered(verified, listen, mapped).len() && listen.contains(
            tiered(verified, listen, mapped)[j],
        ) ==> verified.contains(tiered(verified, listen, mapped)[i]) || listen.contains(
            tiered(verified, listen, mapped)[i],
        ),
{
    let first = by_family(verified);
    let second = by_family(listen);
    let third = by_family(mapped);
    let all = tiered(verified, listen, mapped);
    distinct_keeps_each_once(first + second + third);
    lemma_addrs_joined(first + second, third, addr);
    lemma_addrs_joined(first, second, addr);
    lemma_by_family_members(verified, addr);
    lemma_by_family_members(listen, addr);
    lemma_by_family_members(mapped, addr);
    if 0 <= i < j < all.len() {
        if verified.contains(all[j]) {
            lemma_by_family_members(verified, all[j]);
            lemma_by_family_members(verified, all[i]);
            assert(first + second + third =~= first + (second + third));
            lemma_leads(first, second + third, i, j);
        }
        if listen.contains(all[j]) {
            lemma_by_family_members(listen, all[j]);
            lemma_addrs_joined(first, second, all[j]);
            lemma_addrs_joined(first, second, all[i]);
            lemma_by_family_members(verified, all[i]);
            lemma_by_family_members(listen, all[i]);
            lemma_leads(first + second, third, i, j);
        }
    }
}

proof fn lemma_leads(first: Seq<Multiaddr>, more: Seq<Multiaddr>, i: int, j: int)
    requires
        0 <= i < j < distinct(first + more).len(),
        first.contains(distinct(first + more)[j]),
    ensures
        first.contains(distinct(first + more)[i]),
{
    let all = distinct(first + more);
    let lead = distinct(first);
    earlier_tiers_lead(first, more);
    distinct_keeps_each_once(first);
    distinct_keeps_each_once(first + more);
    assert(lead.contains(all[j]));
    let k = choose|k: int| 0 <= k < lead.len() && lead[k] == all[j];
    assert(all.subrange(0, lead.len() as int)[k] == all[k]);
    assert(k == j);
    assert(all.subrange(0, lead.len() as int)[i] == all[i]);
    assert(lead[i] == all[i]);
    assert(lead.contains(all[i]));
}

/// Addresses of one family stay in their order.
pub proof fn one_family_keeps_its_order(addrs: Seq<Multiaddr>, family: u8)
    requires
        forall|i: int| #![trigger addrs[i]] 0 <= i < addrs.len() ==> addrs[i].family == family,
    ensures
        by_family(addrs) == addrs,
    decreases addrs.len(),
{
    if addrs.len() > 0 {
        let less = addrs.drop_last();
        assert forall|i: int| #![trigger less[i]] 0 <= i < less.len() implies less[i].family
            == family by {
            assert(less[i] == addrs[i]);
        }
        one_family_keeps_its_order(less, family);
        let last = addrs.len() - 1;
        assert(addrs[last].family == family);
        if less.len() > 0 {
            assert(less.last() == addrs[last - 1]);
        }
        assert(family_slot(less, family) == less.len());
        assert(less.insert(less.len() as int, addrs.last()) =~= addrs);
    } else {
        assert(by_family(addrs) =~= addrs);
    }
}

/// Each address is advertised as it is, in order, under the same peer.
pub proof fn advertising_names_the_peer(addrs: Seq<Multiaddr>, peer_id: Option<PeerId>, i: int)
    ensures
        advertised(addrs, peer_id).len() == addrs.len(),
        0 <= i < addrs.len() ==> advertised(addrs, peer_id)[i].addr == addrs[i],
        0 <= i < addrs.len() ==> advertised(addrs, peer_id)[i].peer_id == peer_id,
{
}

/// The addresses that a peer is told are the verified ones that the subnet rules
/// admit, unless they are public and the peer is on the same host or the local
/// network; the listen addresses; and the static NAT addresses, unless the peer
/// is on the same host.
pub proof fn a_peer_is_told_what_concerns_it(
    manager: LocalAddressManager,
    peer: Option<AddressScope>,
    admits: Seq<bool>,
    listen: Seq<Multiaddr>,
    addr: Multiaddr,
)
    ensures
        tiered(
            admitted(manager.confirmed_external_addrs@, admits, peer),
            listen,
            if peer == Some(AddressScope::Loopback) {
                Seq::empty()
            } else {
                manager.nat_addrs@
            },
        ).contains(addr) <==> {
            ||| listen.contains(addr)
            ||| peer != Some(AddressScope::Loopback) && manager.nat_addrs@.contains(addr)
            ||| exists|i: int|
                #![trigger manager.confirmed_external_addrs@[i]]
                {
                    &&& 0 <= i < manager.confirmed_external_addrs@.len()
                    &&& manager.confirmed_external_addrs@[i] == addr
                    &&& admits[i]
                    &&& addr.scope != Some(AddressScope::Public) || (peer != Some(
                        AddressScope::Loopback,
                    ) && peer != Some(AddressScope::Private))
                }
        },
{
    let verified = admitted(manager.confirmed_external_addrs@, admits, peer);
    let mapped = if peer == Some(AddressScope::Loopback) {
        Seq::empty()
    } else {
        manager.nat_addrs@
    };
    tiers_hold_every_address_in_order(verified, listen, mapped, addr, 0, 0);
    admitted_addresses_pass_both_rules(
        manager.confirmed_external_addrs@,
        admits,
        peer,
        addr,
    );
}

/// Where every verified address is admitted and none is kept from the peer, all
/// of them stay, in order.
pub proof fn admission_keeps_the_order(
    addrs: Seq<Multiaddr>,
    admits: Seq<bool>,
    peer: Option<AddressScope>,
)
    requires
        forall|i: int| #![trigger admits[i]] 0 <= i < addrs.len() ==> admits[i],
        peer != Some(AddressScope::Loopback),
        peer != Some(AddressScope::Private),
    ensures
        admitted(addrs, admits, peer) == addrs,
    decreases addrs.len(),
{
    if addrs.len() > 0 {
        admission_keeps_the_order(addrs.drop_last(), admits, peer);
        assert(admits[addrs.len() - 1]);
        assert(addrs.drop_last().push(addrs.last()) =~= addrs);
    } else {
        assert(admitted(addrs, admits, peer) =~= addrs);
    }
}

} // verus!
