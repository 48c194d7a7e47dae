//! Per-peer reachability tracker.
//!
//! `Reachable` means a peer accepts *new* inbound connections at its advertised
//! address, not merely that it is alive on the connection already held. Only
//! two signals prove it:
//!
//! * an AutoNAT v2 dial-back to the peer's advertised address
//!   ([`ReachabilityTracker::on_autonat_peer_confirmed`]);
//! * an outbound dial to a public address that succeeded
//!   ([`ReachabilityTracker::on_outbound_reachable`]).
//!
//! Ping and handshake outcomes are liveness signals. A success clears the
//! failure streak and recovers a peer from `Unreachable` to `Unknown`, but never
//! promotes it to `Reachable`. Failures accumulate; once
//! [`FAILURE_THRESHOLD`] of them land within [`FAILURE_DECAY_SECS`] the peer
//! flips to `Unreachable`. A single negative signal never blacklists a peer.

use crate::primitives::PeerId;
use crate::time::{Duration, Instant};
use vstd::prelude::*;

verus! {

/// Number of consecutive negative liveness signals within the decay window
/// that flip a peer to [`PeerReachability::Unreachable`].
pub const FAILURE_THRESHOLD: u32 = 3;

/// How long, in seconds, after its first failure a run of failures is allowed
/// to grow before it resets.
pub const FAILURE_DECAY_SECS: u64 = 300;

/// Reachability verdict for an individual peer, from least to most worth
/// keeping.
#[derive(Clone, Copy, Debug, PartialEq, Eq, Structural, PartialOrd, Ord, Hash)]
#[non_exhaustive]
pub enum PeerReachability {
    /// Peer is behind NAT or otherwise does not accept new inbound connections.
    Unreachable,
    /// No reachability signal yet; treated as neutral.
    Unknown,
    /// Peer is confirmed to accept new inbound connections.
    Reachable,
}

impl Default for PeerReachability {
    fn default() -> (status: PeerReachability)
        ensures
            status == PeerReachability::Unknown,
    {
        PeerReachability::Unknown
    }
}

impl PeerReachability {
    /// How much the peer is worth keeping: the lowest is dropped first.
    pub open spec fn spec_rank(self) -> int {
        match self {
            PeerReachability::Unreachable => 0,
            PeerReachability::Unknown => 1,
            PeerReachability::Reachable => 2,
        }
    }

    /// How much the peer is worth keeping: the lowest is dropped first.
    pub fn rank(&self) -> (rank: u8)
        ensures
            rank as int == self.spec_rank(),
    {
        match self {
            PeerReachability::Unreachable => 0,
            PeerReachability::Unknown => 1,
            PeerReachability::Reachable => 2,
        }
    }

    /// `true` if status is [`PeerReachability::Reachable`].
    pub fn is_reachable(&self) -> (yes: bool)
        ensures
            yes == (*self == PeerReachability::Reachable),
    {
        matches!(self, PeerReachability::Reachable)
    }

    /// `true` if status is [`PeerReachability::Unreachable`].
    pub fn is_unreachable(&self) -> (yes: bool)
        ensures
            yes == (*self == PeerReachability::Unreachable),
    {
        matches!(self, PeerReachability::Unreachable)
    }
}

/// What is known about one peer's reachability.
#[derive(Clone, Copy, Debug, PartialEq, Eq, Structural)]
pub struct PeerReachabilityRecord {
    pub status: PeerReachability,
    /// When `status` last changed. Affirming the status does not move it.
    pub last_updated: Instant,
    /// Consecutive negative liveness signals.
    pub failures: u32,
    /// Time of the first failure in the current run.
    pub first_failure_at: Option<Instant>,
}

impl PeerReachabilityRecord {
    /// The record with `status`, as of `now` if that is a change.
    pub open spec fn with_status(
        self,
        status: PeerReachability,
        now: Instant,
    ) -> PeerReachabilityRecord {
        if self.status == status {
            self
        } else {
            PeerReachabilityRecord { status, last_updated: now, ..self }
        }
    }

    /// The record without its failure run.
    pub open spec fn without_failures(self) -> PeerReachabilityRecord {
        PeerReachabilityRecord { failures: 0, first_failure_at: None, ..self }
    }

    /// The record of a peer that no signal was seen of before `now`.
    pub open spec fn fresh(now: Instant) -> PeerReachabilityRecord {
        PeerReachabilityRecord {
            status: PeerReachability::Unknown,
            last_updated: now,
            failures: 0,
            first_failure_at: None,
        }
    }

    /// Whether the failure run began too long before `now` to count.
    pub open spec fn decayed(self, now: Instant) -> bool {
        self.first_failure_at matches Some(start) && now.spec_since(start).nanos
            > FAILURE_DECAY_SECS * crate::time::NANOS_PER_SEC
    }

    /// The record after a liveness success at `now`.
    pub open spec fn after_success(self, now: Instant) -> PeerReachabilityRecord {
        let cleared = self.without_failures();
        if self.status == PeerReachability::Unreachable {
            cleared.with_status(PeerReachability::Unknown, now)
        } else {
            cleared
        }
    }

    /// The record after a liveness failure at `now`.
    pub open spec fn after_failure(self, now: Instant) -> PeerReachabilityRecord {
        let run = if self.decayed(now) {
            self.without_failures()
        } else {
            self
        };
        let counted = PeerReachabilityRecord {
            failures: if run.failures < u32::MAX {
                (run.failures + 1) as u32
            } else {
                u32::MAX
            },
            first_failure_at: Some(
                match run.first_failure_at {
                    Some(start) => start,
                    None => now,
                },
            ),
            ..run
        };
        if counted.failures >= FAILURE_THRESHOLD {
            counted.with_status(PeerReachability::Unreachable, now)
        } else {
            counted
        }
    }

    /// The record after proof, at `now`, that the peer is reachable.
    pub open spec fn after_proof(self, now: Instant) -> PeerReachabilityRecord {
        PeerReachabilityRecord { failures: 0, ..self }.with_status(
            PeerReachability::Reachable,
            now,
        )
    }

    /// A record with `status` and no failures.
    pub fn new(status: PeerReachability, now: Instant) -> (record: PeerReachabilityRecord)
        ensures
            record == (PeerReachabilityRecord {
                status,
                last_updated: now,
                failures: 0,
                first_failure_at: None,
            }),
    {
        PeerReachabilityRecord { status, last_updated: now, failures: 0, first_failure_at: None }
    }

    /// Set the status. Returns `true` if it changed.
    pub fn set_status(&mut self, status: PeerReachability, now: Instant) -> (changed: bool)
        ensures
            *final(self) == old(self).with_status(status, now),
            changed == (old(self).status != status),
    {
        if self.status == status {
            return false;
        }
        self.status = status;
        self.last_updated = now;
        true
    }

    /// Reset the failure run.
    pub fn clear_failures(&mut self)
        ensures
            *final(self) == old(self).without_failures(),
    {
        self.failures = 0;
        self.first_failure_at = None;
    }

    fn note_success(&mut self, now: Instant)
        ensures
            *final(self) == old(self).after_success(now),
    {
        self.clear_failures();
        if self.status == PeerReachability::Unreachable {
            let _changed: bool = self.set_status(PeerReachability::Unknown, now);
        }
    }

    fn note_failure(&mut self, now: Instant)
        ensures
            *final(self) == old(self).after_failure(now),
    {
        if let Some(start) = self.first_failure_at {
            let window: Duration = Duration::from_secs(FAILURE_DECAY_SECS);
            if now.duration_since(start).nanos > window.nanos {
                self.clear_failures();
            }
        }
        if self.first_failure_at.is_none() {
            self.first_failure_at = Some(now);
        }
        self.failures = self.failures.saturating_add(1);
        if self.failures >= FAILURE_THRESHOLD {
            let _changed: bool = self.set_status(PeerReachability::Unreachable, now);
        }
    }

    fn note_proof(&mut self, now: Instant)
        ensures
            *final(self) == old(self).after_proof(now),
    {
        self.failures = 0;
        let _changed: bool = self.set_status(PeerReachability::Reachable, now);
    }
}

/// A peer with its record.
#[derive(Clone, Copy, Debug, PartialEq, Eq, Structural)]
pub struct TrackedPeer {
    pub peer: PeerId,
    pub record: PeerReachabilityRecord,
}

/// `i` is where `peer` stands among the tracked peers.
pub open spec fn peer_at(peers: Seq<TrackedPeer>, peer: PeerId, i: int) -> bool {
    0 <= i < peers.len() && peers[i].peer == peer
}

/// The record of `peer`, if there is one.
pub open spec fn record_of(peers: Seq<TrackedPeer>, peer: PeerId) -> Option<
    PeerReachabilityRecord,
> {
    if exists|i: int| peer_at(peers, peer, i) {
        Some(peers[choose|i: int| peer_at(peers, peer, i)].record)
    } else {
        None
    }
}

/// Per-peer reachability tracker.
#[derive(Debug)]
pub struct ReachabilityTracker {
    pub peers: Vec<TrackedPeer>,
}

impl ReachabilityTracker {
    /// No peer has two records.
    pub open spec fn wf(self) -> bool {
        forall|i: int, j: int|
            #![trigger self.peers@[i], self.peers@[j]]
            0 <= i < self.peers.len() && 0 <= j < self.peers.len() && self.peers@[i].peer
                == self.peers@[j].peer ==> i == j
    }

    /// The record of `peer`, if there is one.
    pub open spec fn lookup(self, peer: PeerId) -> Option<PeerReachabilityRecord> {
        record_of(self.peers@, peer)
    }

    /// The record of `peer`, or a fresh one.
    pub open spec fn lookup_or_fresh(self, peer: PeerId, now: Instant) -> PeerReachabilityRecord {
        match self.lookup(peer) {
            Some(record) => record,
            None => PeerReachabilityRecord::fresh(now),
        }
    }

    /// The status of `peer`.
    pub open spec fn spec_status(self, peer: PeerId) -> PeerReachability {
        match self.lookup(peer) {
            Some(record) => record.status,
            None => PeerReachability::Unknown,
        }
    }

    /// `self` differs from `before` in the record of `peer` alone, which is
    /// `record` now.
    pub open spec fn is_update_of(
        self,
        before: ReachabilityTracker,
        peer: PeerId,
        record: PeerReachabilityRecord,
    ) -> bool {
        &&& forall|other: PeerId| #[trigger]
            self.lookup(other) == if other == peer {
                Some(record)
            } else {
                before.lookup(other)
            }
        &&& self.peers.len() == before.peers.len() + if before.lookup(peer) is None {
            1int
        } else {
            0int
        }
    }

    /// Create an empty tracker.
    pub fn new() -> (tracker: ReachabilityTracker)
        ensures
            tracker.wf(),
            tracker.peers@.len() == 0,
            forall|peer: PeerId| #[trigger] tracker.lookup(peer) is None,
    {
        ReachabilityTracker { peers: Vec::new() }
    }

    fn position(&self, peer: &PeerId) -> (at: Option<usize>)
        requires
            self.wf(),
        ensures
            at matches Some(i) ==> peer_at(self.peers@, *peer, i as int) && self.lookup(*peer)
                == Some(self.peers@[i as int].record),
            at is None ==> self.lookup(*peer) is None && forall|i: int|
                !peer_at(self.peers@, *peer, i),
    {
        let mut i: usize = 0;
        while i < self.peers.len()
            invariant
                self.wf(),
                i <= self.peers.len(),
                forall|j: int| 0 <= j < i ==> self.peers@[j].peer != *peer,
            decreases self.peers.len() - i,
        {
            if self.peers[i].peer == *peer {
                proof {
                    assert(peer_at(self.peers@, *peer, i as int));
                    let c = choose|c: int| peer_at(self.peers@, *peer, c);
                    assert(self.peers@[c].peer == self.peers@[i as int].peer);
                }
                return Some(i);
            }
            i = i + 1;
        }
        None
    }

    /// Current reachability for `peer`, unknown if no signal was seen yet.
    pub fn status(&self, peer: &PeerId) -> (status: PeerReachability)
        requires
            self.wf(),
        ensures
            status == self.spec_status(*peer),
    {
        match self.position(peer) {
            Some(i) => self.peers[i].record.status,
            None => PeerReachability::Unknown,
        }
    }

    /// `true` if a record exists for `peer`.
    pub fn contains(&self, peer: &PeerId) -> (found: bool)
        requires
            self.wf(),
        ensures
            found == (self.lookup(*peer) is Some),
    {
        self.position(peer).is_some()
    }

    /// Number of tracked peers.
    pub fn len(&self) -> (n: usize)
        ensures
            n == self.peers.len(),
    {
        self.peers.len()
    }

    /// `true` if no peers are tracked.
    pub fn is_empty(&self) -> (empty: bool)
        ensures
            empty == (self.peers.len() == 0),
    {
        self.peers.len() == 0
    }

    /// When the status of `peer` last changed, if it is tracked.
    pub fn last_updated(&self, peer: &PeerId) -> (at: Option<Instant>)
        requires
            self.wf(),
        ensures
            at == (match self.lookup(*peer) {
                Some(record) => Some(record.last_updated),
                None => None,
            }),
    {
        match self.position(peer) {
            Some(i) => Some(self.peers[i].record.last_updated),
            None => None,
        }
    }

    /// Drop the record for `peer`. Returns the status it had.
    pub fn forget(&mut self, peer: &PeerId) -> (status: Option<PeerReachability>)
        requires
            old(self).wf(),
        ensures
            final(self).wf(),
            status == (match old(self).lookup(*peer) {
                Some(record) => Some(record.status),
                None => None,
            }),
            forall|other: PeerId| #[trigger]
                final(self).lookup(other) == if other == *peer {
                    None
                } else {
                    old(self).lookup(other)
                },
            final(self).peers.len() == old(self).peers.len() - if status is Some {
                1int
            } else {
                0int
            },
    {
        match self.position(peer) {
            None => None,
            Some(i) => {
                let gone: TrackedPeer = self.peers.remove(i);
                proof {
                    let before = old(self).peers@;
                    let after = self.peers@;
                    assert forall|x: int, y: int|
                        #![trigger after[x], after[y]]
                        0 <= x < after.len() && 0 <= y < after.len() && after[x].peer
                            == after[y].peer implies x == y by {
                        let x0 = if x < i {
                            x
                        } else {
                            x + 1
                        };
                        let y0 = if y < i {
                            y
                        } else {
                            y + 1
                        };
                        assert(after[x] == before[x0]);
                        assert(after[y] == before[y0]);
                    }
                    assert forall|other: PeerId| #[trigger]
                        self.lookup(other) == if other == *peer {
                            None
                        } else {
                            old(self).lookup(other)
                        } by {
                        lemma_lookup_after_remove(before, i as int, other);
                    }
                }
                Some(gone.record.status)
            },
        }
    }

    /// Replace the record of `peer`, or add it.
    fn put(&mut self, peer: PeerId, record: PeerReachabilityRecord)
        requires
            old(self).wf(),
        ensures
            final(self).wf(),
            final(self).is_update_of(*old(self), peer, record),
    {
        match self.position(&peer) {
            Some(i) => {
                self.peers.set(i, TrackedPeer { peer, record });
                proof {
                    let before = old(self).peers@;
                    let after = self.peers@;
                    assert forall|x: int, y: int|
                        #![trigger after[x], after[y]]
                        0 <= x < after.len() && 0 <= y < after.len() && after[x].peer
                            == after[y].peer implies x == y by {
                        assert(after[x].peer == before[x].peer);
                        assert(after[y].peer == before[y].peer);
                    }
                    assert forall|other: PeerId| #[trigger]
                        self.lookup(other) == if other == peer {
                            Some(record)
                        } else {
                            old(self).lookup(other)
                        } by {
                        lemma_lookup_after_update(before, i as int, TrackedPeer { peer, record }, other);
                    }
                }
            },
            None => {
                self.peers.push(TrackedPeer { peer, record });
                proof {
                    let before = old(self).peers@;
                    let after = self.peers@;
                    assert forall|x: int, y: int|
                        #![trigger after[x], after[y]]
                        0 <= x < after.len() && 0 <= y < after.len() && after[x].peer
                            == after[y].peer implies x == y by {
                        if x < before.len() {
                            assert(!peer_at(before, peer, x));
                            assert(before[x] == after[x]);
                        }
                        if y < before.len() {
                            assert(!peer_at(before, peer, y));
                            assert(before[y] == after[y]);
                        }
                    }
                    assert forall|other: PeerId| #[trigger]
                        self.lookup(other) == if other == peer {
                            Some(record)
                        } else {
                            old(self).lookup(other)
                        } by {
                        lemma_lookup_after_push(before, TrackedPeer { peer, record }, other);
                    }
                }
            },
        }
    }

    fn record_or_fresh(&self, peer: &PeerId, now: Instant) -> (record: PeerReachabilityRecord)
        requires
            self.wf(),
        ensures
            record == self.lookup_or_fresh(*peer, now),
    {
        match self.position(peer) {
            Some(i) => self.peers[i].record,
            None => PeerReachabilityRecord::new(PeerReachability::Unknown, now),
        }
    }

    /// Record that an AutoNAT v2 dial-back confirmed the peer reachable.
    pub fn on_autonat_peer_confirmed(&mut self, peer: PeerId, now: Instant)
        requires
            old(self).wf(),
        ensures
            final(self).wf(),
            final(self).is_update_of(
                *old(self),
                peer,
                old(self).lookup_or_fresh(peer, now).after_proof(now),
            ),
            final(self).spec_status(peer) == PeerReachability::Reachable,
            final(self).lookup(peer) matches Some(record) && record.status
                == PeerReachability::Reachable && record.failures == 0,
            forall|other: PeerId| #[trigger]
                final(self).lookup(other) == old(self).lookup(other) || other == peer,
    {
        self.set_reachable(peer, now);
    }

    /// Record that the peer was dialed outbound at a public address with
    /// success. Success at a private address must not be routed here.
    pub fn on_outbound_reachable(&mut self, peer: PeerId, now: Instant)
        requires
            old(self).wf(),
        ensures
            final(self).wf(),
            final(self).is_update_of(
                *old(self),
                peer,
                old(self).lookup_or_fresh(peer, now).after_proof(now),
            ),
            final(self).spec_status(peer) == PeerReachability::Reachable,
            final(self).lookup(peer) matches Some(record) && record.status
                == PeerReachability::Reachable && record.failures == 0,
            forall|other: PeerId| #[trigger]
                final(self).lookup(other) == old(self).lookup(other) || other == peer,
    {
        self.set_reachable(peer, now);
    }

    /// Update from a ping outcome: a liveness signal.
    pub fn update_from_ping(&mut self, peer: PeerId, success: bool, now: Instant)
        requires
            old(self).wf(),
        ensures
            final(self).wf(),
            final(self).is_update_of(
                *old(self),
                peer,
                if success {
                    old(self).lookup_or_fresh(peer, now).after_success(now)
                } else {
                    old(self).lookup_or_fresh(peer, now).after_failure(now)
                },
            ),
            success ==> final(self).spec_status(peer) == (if old(self).spec_status(peer)
                == PeerReachability::Unreachable {
                PeerReachability::Unknown
            } else {
                old(self).spec_status(peer)
            }),
            success ==> (final(self).lookup(peer) matches Some(record) && record.failures == 0),
            !success ==> final(self).spec_status(peer) == PeerReachability::Unreachable || final(self).spec_status(peer) == old(self).spec_status(peer),
            !success ==> (final(self).lookup(peer) matches Some(record) && record.failures >= 1),
            forall|other: PeerId| #[trigger]
                final(self).lookup(other) == old(self).lookup(other) || other == peer,
    {
        self.record_liveness(peer, success, now);
    }

    /// Update from a handshake outcome: a liveness signal.
    pub fn update_from_handshake(&mut self, peer: PeerId, success: bool, now: Instant)
        requires
            old(self).wf(),
        ensures
            final(self).wf(),
            final(self).is_update_of(
                *old(self),
                peer,
                if success {
                    old(self).lookup_or_fresh(peer, now).after_success(now)
                } else {
                    old(self).lookup_or_fresh(peer, now).after_failure(now)
                },
            ),
            success ==> final(self).spec_status(peer) == (if old(self).spec_status(peer)
                == PeerReachability::Unreachable {
                PeerReachability::Unknown
            } else {
                old(self).spec_status(peer)
            }),
            success ==> (final(self).lookup(peer) matches Some(record) && record.failures == 0),
            !success ==> final(self).spec_status(peer) == PeerReachability::Unreachable || final(self).spec_status(peer) == old(self).spec_status(peer),
            !success ==> (final(self).lookup(peer) matches Some(record) && record.failures >= 1),
            forall|other: PeerId| #[trigger]
                final(self).lookup(other) == old(self).lookup(other) || other == peer,
    {
        self.record_liveness(peer, success, now);
    }

    fn set_reachable(&mut self, peer: PeerId, now: Instant)
        requires
            old(self).wf(),
        ensures
            final(self).wf(),
            final(self).is_update_of(
                *old(self),
                peer,
                old(self).lookup_or_fresh(peer, now).after_proof(now),
            ),
            final(self).spec_status(peer) == PeerReachability::Reachable,
            final(self).lookup(peer) matches Some(record) && record.status
                == PeerReachability::Reachable && record.failures == 0,
            forall|other: PeerId| #[trigger]
                final(self).lookup(other) == old(self).lookup(other) || other == peer,
    {
        let mut record: PeerReachabilityRecord = self.record_or_fresh(&peer, now);
        record.note_proof(now);
        self.put(peer, record);
    }

    /// Shared streak logic of the two liveness signals.
    pub fn record_liveness(&mut self, peer: PeerId, success: bool, now: Instant)
        requires
            old(self).wf(),
        ensures
            final(self).wf(),
            final(self).is_update_of(
                *old(self),
                peer,
                if success {
                    old(self).lookup_or_fresh(peer, now).after_success(now)
                } else {
                    old(self).lookup_or_fresh(peer, now).after_failure(now)
                },
            ),
            success ==> final(self).spec_status(peer) == (if old(self).spec_status(peer)
                == PeerReachability::Unreachable {
                PeerReachability::Unknown
            } else {
                old(self).spec_status(peer)
            }),
            success ==> (final(self).lookup(peer) matches Some(record) && record.failures == 0),
            !success ==> final(self).spec_status(peer) == PeerReachability::Unreachable || final(self).spec_status(peer) == old(self).spec_status(peer),
            !success ==> (final(self).lookup(peer) matches Some(record) && record.failures >= 1),
            forall|other: PeerId| #[trigger]
                final(self).lookup(other) == old(self).lookup(other) || other == peer,
    {
        let mut record: PeerReachabilityRecord = self.record_or_fresh(&peer, now);
        if success {
            record.note_success(now);
        } else {
            record.note_failure(now);
        }
        self.put(peer, record);
    }
}

impl Default for ReachabilityTracker {
    fn default() -> (tracker: ReachabilityTracker)
        ensures
            tracker.wf(),
            tracker.peers@.len() == 0,
    {
        ReachabilityTracker::new()
    }
}

/// The tracked peers are distinct.
pub open spec fn distinct(peers: Seq<TrackedPeer>) -> bool {
    forall|i: int, j: int|
        #![trigger peers[i], peers[j]]
        0 <= i < peers.len() && 0 <= j < peers.len() && peers[i].peer == peers[j].peer ==> i == j
}

proof fn lemma_lookup_is_record(peers: Seq<TrackedPeer>, i: int)
    requires
        distinct(peers),
        0 <= i < peers.len(),
    ensures
        record_of(peers, peers[i].peer) == Some(peers[i].record),
{
    assert(peer_at(peers, peers[i].peer, i));
    let c = choose|c: int| peer_at(peers, peers[i].peer, c);
    assert(peers[c].peer == peers[i].peer);
}

proof fn lemma_lookup_after_update(
    peers: Seq<TrackedPeer>,
    i: int,
    entry: TrackedPeer,
    other: PeerId,
)
    requires
        distinct(peers),
        0 <= i < peers.len(),
        entry.peer == peers[i].peer,
    ensures
        record_of(peers.update(i, entry), other) == if other == entry.peer {
            Some(entry.record)
        } else {
            record_of(peers, other)
        },
{
    let after = peers.update(i, entry);
    assert forall|x: int, y: int|
        #![trigger after[x], after[y]]
        0 <= x < after.len() && 0 <= y < after.len() && after[x].peer
            == after[y].peer implies x == y by {
        assert(after[x].peer == peers[x].peer);
        assert(after[y].peer == peers[y].peer);
    }
    if other == entry.peer {
        lemma_lookup_is_record(after, i);
    } else {
        if exists|k: int| peer_at(peers, other, k) {
            let k = choose|k: int| peer_at(peers, other, k);
            lemma_lookup_is_record(peers, k);
            lemma_lookup_is_record(after, k);
            assert(after[k] == peers[k]);
        } else {
            assert forall|k: int| !peer_at(after, other, k) by {
                assert(!peer_at(peers, other, k));
            }
        }
    }
}

proof fn lemma_lookup_after_push(peers: Seq<TrackedPeer>, entry: TrackedPeer, other: PeerId)
    requires
        distinct(peers),
        forall|k: int| !peer_at(peers, entry.peer, k),
    ensures
        record_of(peers.push(entry), other) == if other == entry.peer {
            Some(entry.record)
        } else {
            record_of(peers, other)
        },
{
    let after = peers.push(entry);
    assert forall|x: int, y: int|
        #![trigger after[x], after[y]]
        0 <= x < after.len() && 0 <= y < after.len() && after[x].peer
            == after[y].peer implies x == y by {
        if x < peers.len() {
            assert(!peer_at(peers, entry.peer, x));
            assert(after[x] == peers[x]);
        }
        if y < peers.len() {
            assert(!peer_at(peers, entry.peer, y));
            assert(after[y] == peers[y]);
        }
    }
    if other == entry.peer {
        lemma_lookup_is_record(after, peers.len() as int);
    } else {
        if exists|k: int| peer_at(peers, other, k) {
            let k = choose|k: int| peer_at(peers, other, k);
            lemma_lookup_is_record(peers, k);
            lemma_lookup_is_record(after, k);
            assert(after[k] == peers[k]);
        } else {
            assert forall|k: int| !peer_at(after, other, k) by {
                assert(!peer_at(peers, other, k));
            }
        }
    }
}

proof fn lemma_lookup_after_remove(peers: Seq<TrackedPeer>, i: int, other: PeerId)
    requires
        distinct(peers),
        0 <= i < peers.len(),
    ensures
        record_of(peers.remove(i), other) == if other == peers[i].peer {
            None
        } else {
            record_of(peers, other)
        },
{
    let after = peers.remove(i);
    assert forall|x: int, y: int|
        #![trigger after[x], after[y]]
        0 <= x < after.len() && 0 <= y < after.len() && after[x].peer
            == after[y].peer implies x == y by {
        let x0 = if x < i {
            x
        } else {
            x + 1
        };
        let y0 = if y < i {
            y
        } else {
            y + 1
        };
        assert(after[x] == peers[x0]);
        assert(after[y] == peers[y0]);
    }
    if other == peers[i].peer {
        assert forall|k: int| !peer_at(after, other, k) by {
            if peer_at(after, other, k) {
                let k0 = if k < i {
                    k
                } else {
                    k + 1
                };
                assert(after[k] == peers[k0]);
                assert(peers[k0].peer == peers[i].peer);
            }
        }
    } else if exists|k: int| peer_at(peers, other, k) {
        let k = choose|k: int| peer_at(peers, other, k);
        let k1 = if k < i {
            k
        } else {
            k - 1
        };
        assert(after[k1] == peers[k]);
        lemma_lookup_is_record(peers, k);
        lemma_lookup_is_record(after, k1);
    } else {
        assert forall|k: int| !peer_at(after, other, k) by {
            if peer_at(after, other, k) {
                let k0 = if k < i {
                    k
                } else {
                    k + 1
                };
                assert(after[k] == peers[k0]);
                assert(peer_at(peers, other, k0));
            }
        }
    }
}

/// A liveness signal never promotes a peer to `Reachable`.
pub proof fn liveness_never_promotes(record: PeerReachabilityRecord, now: Instant)
    requires
        record.status != PeerReachability::Reachable,
    ensures
        record.after_success(now).status != PeerReachability::Reachable,
        record.after_failure(now).status != PeerReachability::Reachable,
{
}

/// A liveness success leaves no peer `Unreachable` and no failure counted, and
/// keeps a proven `Reachable`.
pub proof fn success_recovers(record: PeerReachabilityRecord, now: Instant)
    ensures
        record.after_success(now).status != PeerReachability::Unreachable,
        record.after_success(now).failures == 0,
        record.status == PeerReachability::Reachable ==> record.after_success(now).status
            == PeerReachability::Reachable,
{
}

/// A single negative signal never makes a peer without a failure run
/// `Unreachable`.
pub proof fn one_failure_never_blacklists(record: PeerReachabilityRecord, now: Instant)
    requires
        record.failures == 0,
    ensures
        record.after_failure(now).status == record.status,
        record.after_failure(now).failures == 1,
{
}

/// Three failures within the decay window of the first one flip the peer to
/// `Unreachable`; the first two do not change its status.
pub proof fn threshold_failures_demote(
    record: PeerReachabilityRecord,
    first: Instant,
    second: Instant,
    third: Instant,
)
    requires
        record.failures == 0,
        record.first_failure_at is None,
        second.spec_since(first).nanos <= FAILURE_DECAY_SECS * crate::time::NANOS_PER_SEC,
        third.spec_since(first).nanos <= FAILURE_DECAY_SECS * crate::time::NANOS_PER_SEC,
    ensures
        record.after_failure(first).after_failure(second).status == record.status,
        record.after_failure(first).after_failure(second).after_failure(third).status
            == PeerReachability::Unreachable,
{
}

/// A failure run that began longer ago than the decay window starts over.
pub proof fn stale_failures_do_not_count(record: PeerReachabilityRecord, now: Instant)
    requires
        record.decayed(now),
    ensures
        record.after_failure(now).failures == 1,
        record.after_failure(now).status == record.status,
        record.after_failure(now).first_failure_at == Some(now),
{
}

/// How many failures count against a peer at `now`, with one more at `now`.
pub open spec fn failures_with(record: PeerReachabilityRecord, now: Instant) -> int {
    if record.decayed(now) {
        1
    } else {
        record.failures + 1
    }
}

/// What a liveness signal does to the tracker: a success turns `Unreachable`
/// into `Unknown` and changes no other status; a failure keeps the status
/// unless it is the one that reaches the threshold since the last success or
/// decay, which makes it `Unreachable`. The peer is tracked afterwards, and no
/// other peer's status moves.
pub proof fn liveness_decides_the_status(
    before: ReachabilityTracker,
    after: ReachabilityTracker,
    peer: PeerId,
    success: bool,
    now: Instant,
)
    requires
        after.is_update_of(
            before,
            peer,
            if success {
                before.lookup_or_fresh(peer, now).after_success(now)
            } else {
                before.lookup_or_fresh(peer, now).after_failure(now)
            },
        ),
    ensures
        success ==> after.spec_status(peer) == (if before.spec_status(peer)
            == PeerReachability::Unreachable {
            PeerReachability::Unknown
        } else {
            before.spec_status(peer)
        }),
        !success ==> after.spec_status(peer) == (if failures_with(
            before.lookup_or_fresh(peer, now),
            now,
        ) >= FAILURE_THRESHOLD {
            PeerReachability::Unreachable
        } else {
            before.spec_status(peer)
        }),
        after.lookup(peer) is Some,
        forall|other: PeerId|
            #![trigger after.spec_status(other)]
            other != peer ==> after.spec_status(other) == before.spec_status(other),
{
    assert forall|other: PeerId|
        #![trigger after.spec_status(other)]
        other != peer implies after.spec_status(other) == before.spec_status(other) by {
        assert(after.lookup(other) == before.lookup(other));
    }
}

/// Proof makes a peer `Reachable`, whatever was known of it, and leaves no
/// failure counted against it. The time of the last change moves only with the
/// status.
pub proof fn proof_makes_reachable(record: PeerReachabilityRecord, now: Instant)
    ensures
        record.after_proof(now).status == PeerReachability::Reachable,
        record.after_proof(now).failures == 0,
        record.after_proof(now).last_updated == (if record.status == PeerReachability::Reachable {
            record.last_updated
        } else {
            now
        }),
{
}

/// What a failure does to a record: one more failure counts, unless the run
/// began more than the decay window ago, when it starts over with this one.
/// The peer is `Unreachable` from the third failure of a run on, and its status
/// stays before that.
pub proof fn failures_run(record: PeerReachabilityRecord, now: Instant)
    ensures
        ({
            let after = record.after_failure(now);
            let stale = record.first_failure_at matches Some(start) && now.nanos > start.nanos
                + 300 * 1_000_000_000;
            &&& stale ==> after.failures == 1 && after.first_failure_at == Some(now)
                && after.status == record.status
            &&& !stale && record.failures < u32::MAX ==> after.failures == record.failures + 1
            &&& !stale ==> after.first_failure_at == (match record.first_failure_at {
                Some(start) => Some(start),
                None => Some(now),
            })
            &&& !stale && record.failures >= 2 ==> after.status == PeerReachability::Unreachable
            &&& !stale && record.failures < 2 ==> after.status == record.status
            &&& after.last_updated == (if after.status == record.status {
                record.last_updated
            } else {
                now
            })
        }),
{
}

/// The record of a peer is the one that the tracker holds for it, its status
/// the status of that record, and a peer without one is `Unknown`.
pub proof fn lookup_finds_the_record(tracker: ReachabilityTracker, peer: PeerId)
    requires
        tracker.wf(),
    ensures
        forall|i: int|
            #![trigger tracker.peers@[i]]
            0 <= i < tracker.peers.len() && tracker.peers@[i].peer == peer ==> tracker.lookup(peer)
                == Some(tracker.peers@[i].record) && tracker.spec_status(peer)
                == tracker.peers@[i].record.status,
        (forall|i: int|
            #![trigger tracker.peers@[i]]
            0 <= i < tracker.peers.len() ==> tracker.peers@[i].peer != peer) ==> tracker.lookup(
            peer,
        ) is None && tracker.spec_status(peer) == PeerReachability::Unknown,
{
    assert forall|i: int|
        #![trigger tracker.peers@[i]]
        0 <= i < tracker.peers.len() && tracker.peers@[i].peer == peer implies tracker.lookup(peer)
        == Some(tracker.peers@[i].record) by {
        lemma_lookup_is_record(tracker.peers@, i);
    }
    if exists|i: int| peer_at(tracker.peers@, peer, i) {
        let i = choose|i: int| peer_at(tracker.peers@, peer, i);
        assert(tracker.peers@[i].peer == peer);
    }
}

/// Affirming a status keeps the time of its last change.
pub proof fn affirming_keeps_the_time(record: PeerReachabilityRecord, now: Instant)
    requires
        record.status == PeerReachability::Reachable,
    ensures
        record.after_proof(now).last_updated == record.last_updated,
        record.after_success(now).last_updated == record.last_updated,
{
}

/// A reachable peer ranks above one that nothing is known of, and that above an
/// unreachable one.
pub proof fn ranks_follow_reachability()
    ensures
        PeerReachability::Reachable.spec_rank() > PeerReachability::Unknown.spec_rank(),
        PeerReachability::Unknown.spec_rank() > PeerReachability::Unreachable.spec_rank(),
{
}

/// What a success and a proof leave of a record: a success ends the failure run
/// and stamps the record where the status moved; a proof keeps the time of the
/// run's first failure. A peer that no signal was seen of is unknown, as of now.
pub proof fn signals_stamp_the_record(record: PeerReachabilityRecord, now: Instant)
    ensures
        record.after_success(now).first_failure_at is None,
        record.after_success(now).last_updated == (if record.status
            == PeerReachability::Unreachable {
            now
        } else {
            record.last_updated
        }),
        record.status != PeerReachability::Unreachable ==> record.after_success(now).status
            == record.status,
        record.status == PeerReachability::Unreachable ==> record.after_success(now).status
            == PeerReachability::Unknown,
        record.after_proof(now).first_failure_at == record.first_failure_at,
        PeerReachabilityRecord::fresh(now).status == PeerReachability::Unknown,
        PeerReachabilityRecord::fresh(now).failures == 0,
        PeerReachabilityRecord::fresh(now).first_failure_at is None,
        PeerReachabilityRecord::fresh(now).last_updated == now,
{
}

} // verus!
