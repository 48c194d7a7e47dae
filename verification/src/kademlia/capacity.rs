//! Connection capacity: which peers are being connected, in which phase, and
//! how many connections of each phase every bin holds.

use super::proximity_index::bin_for;
use crate::primitives::{Bin, OverlayAddress, MAX_PO};
use vstd::prelude::*;

verus! {

/// Phase of a tracked connection.
#[derive(Clone, Copy, Debug, PartialEq, Eq, Structural)]
pub enum ConnectionPhase {
    /// A dial was started.
    Dialing,
    /// The transport is up and the handshake runs.
    Handshaking,
    /// The handshake completed.
    Active,
}

/// A connection, its phase and its direction.
#[derive(Clone, Copy, Debug, PartialEq, Eq, Structural)]
pub struct TrackedConnection {
    pub overlay: OverlayAddress,
    pub phase: ConnectionPhase,
    /// The connection began as a dial of this node.
    pub outbound: bool,
}

/// How many connections of each phase a bin holds.
#[derive(Clone, Copy, Debug, PartialEq, Eq, Structural)]
pub struct PhaseCount {
    pub dialing: usize,
    pub handshaking: usize,
    pub active: usize,
}

impl PhaseCount {
    /// The count of one phase.
    pub open spec fn of(self, phase: ConnectionPhase) -> usize {
        match phase {
            ConnectionPhase::Dialing => self.dialing,
            ConnectionPhase::Handshaking => self.handshaking,
            ConnectionPhase::Active => self.active,
        }
    }

    /// The count of all phases.
    pub open spec fn total(self) -> int {
        self.dialing + self.handshaking + self.active
    }

    /// One more connection of `phase`.
    pub open spec fn plus(self, phase: ConnectionPhase) -> PhaseCount {
        match phase {
            ConnectionPhase::Dialing => PhaseCount { dialing: (self.dialing + 1) as usize, ..self },
            ConnectionPhase::Handshaking => PhaseCount {
                handshaking: (self.handshaking + 1) as usize,
                ..self
            },
            ConnectionPhase::Active => PhaseCount { active: (self.active + 1) as usize, ..self },
        }
    }

    /// One connection of `phase` less.
    pub open spec fn minus(self, phase: ConnectionPhase) -> PhaseCount {
        match phase {
            ConnectionPhase::Dialing => PhaseCount { dialing: (self.dialing - 1) as usize, ..self },
            ConnectionPhase::Handshaking => PhaseCount {
                handshaking: (self.handshaking - 1) as usize,
                ..self
            },
            ConnectionPhase::Active => PhaseCount { active: (self.active - 1) as usize, ..self },
        }
    }

    fn increment(&mut self, phase: ConnectionPhase)
        requires
            old(self).of(phase) < usize::MAX,
        ensures
            *final(self) == old(self).plus(phase),
    {
        match phase {
            ConnectionPhase::Dialing => {
                self.dialing = self.dialing + 1;
            },
            ConnectionPhase::Handshaking => {
                self.handshaking = self.handshaking + 1;
            },
            ConnectionPhase::Active => {
                self.active = self.active + 1;
            },
        }
    }

    fn decrement(&mut self, phase: ConnectionPhase)
        requires
            old(self).of(phase) > 0,
        ensures
            *final(self) == old(self).minus(phase),
    {
        match phase {
            ConnectionPhase::Dialing => {
                self.dialing = self.dialing - 1;
            },
            ConnectionPhase::Handshaking => {
                self.handshaking = self.handshaking - 1;
            },
            ConnectionPhase::Active => {
                self.active = self.active - 1;
            },
        }
    }
}

/// `i` is where `overlay` stands among the connections.
pub open spec fn connection_at(
    connections: Seq<TrackedConnection>,
    overlay: OverlayAddress,
    i: int,
) -> bool {
    0 <= i < connections.len() && connections[i].overlay == overlay
}

/// Whether `overlay` is tracked.
pub open spec fn tracks(connections: Seq<TrackedConnection>, overlay: OverlayAddress) -> bool {
    exists|i: int| connection_at(connections, overlay, i)
}

/// Where `overlay` stands among the connections.
pub open spec fn index_of(connections: Seq<TrackedConnection>, overlay: OverlayAddress) -> int {
    choose|i: int| connection_at(connections, overlay, i)
}

/// The phase that `overlay` is tracked in.
pub open spec fn phase_of(
    connections: Seq<TrackedConnection>,
    overlay: OverlayAddress,
) -> Option<ConnectionPhase> {
    if tracks(connections, overlay) {
        Some(connections[index_of(connections, overlay)].phase)
    } else {
        None
    }
}

/// No overlay is tracked twice.
pub open spec fn distinct(connections: Seq<TrackedConnection>) -> bool {
    forall|i: int, j: int|
        #![trigger connections[i], connections[j]]
        0 <= i < connections.len() && 0 <= j < connections.len() && connections[i].overlay
            == connections[j].overlay ==> i == j
}

/// How many connections of `phase` fall into `bin`.
pub open spec fn tally(
    connections: Seq<TrackedConnection>,
    base: OverlayAddress,
    max_po: u8,
    bin: int,
    phase: ConnectionPhase,
) -> nat
    decreases connections.len(),
{
    if connections.len() == 0 {
        0
    } else {
        tally(connections.drop_last(), base, max_po, bin, phase) + one_if(
            connections.last(),
            base,
            max_po,
            bin,
            phase,
        )
    }
}

/// One for a connection of `phase` in `bin`, zero for another.
pub open spec fn one_if(
    connection: TrackedConnection,
    base: OverlayAddress,
    max_po: u8,
    bin: int,
    phase: ConnectionPhase,
) -> nat {
    if connection.phase == phase && super::proximity_index::bin_of(
        base,
        max_po,
        connection.overlay,
    ) == bin {
        1
    } else {
        0
    }
}

/// How many connections of `bin` began as a dial.
pub open spec fn outbound_tally(
    connections: Seq<TrackedConnection>,
    base: OverlayAddress,
    max_po: u8,
    bin: int,
) -> nat
    decreases connections.len(),
{
    if connections.len() == 0 {
        0
    } else {
        outbound_tally(connections.drop_last(), base, max_po, bin) + one_if_outbound(
            connections.last(),
            base,
            max_po,
            bin,
        )
    }
}

/// One for a connection of `bin` that began as a dial, zero for another.
pub open spec fn one_if_outbound(
    connection: TrackedConnection,
    base: OverlayAddress,
    max_po: u8,
    bin: int,
) -> nat {
    if connection.outbound && super::proximity_index::bin_of(base, max_po, connection.overlay)
        == bin {
        1
    } else {
        0
    }
}

/// The overlays that are in their handshake and fall into `bin`, in the order
/// they were first tracked.
pub open spec fn handshaking_in(
    connections: Seq<TrackedConnection>,
    base: OverlayAddress,
    max_po: u8,
    bin: int,
) -> Seq<OverlayAddress>
    decreases connections.len(),
{
    if connections.len() == 0 {
        Seq::empty()
    } else {
        let rest = handshaking_in(connections.drop_last(), base, max_po, bin);
        let last = connections.last();
        if last.phase == ConnectionPhase::Handshaking && super::proximity_index::bin_of(
            base,
            max_po,
            last.overlay,
        ) == bin {
            rest.push(last.overlay)
        } else {
            rest
        }
    }
}

proof fn lemma_tally_remove(
    connections: Seq<TrackedConnection>,
    i: int,
    base: OverlayAddress,
    max_po: u8,
    bin: int,
    phase: ConnectionPhase,
)
    requires
        0 <= i < connections.len(),
    ensures
        tally(connections, base, max_po, bin, phase) == tally(
            connections.remove(i),
            base,
            max_po,
            bin,
            phase,
        ) + one_if(connections[i], base, max_po, bin, phase),
    decreases connections.len(),
{
    let shorter = connections.remove(i);
    if i == connections.len() - 1 {
        assert(shorter =~= connections.drop_last());
    } else {
        lemma_tally_remove(connections.drop_last(), i, base, max_po, bin, phase);
        assert(shorter.drop_last() =~= connections.drop_last().remove(i));
        assert(shorter.last() == connections.last());
    }
}

proof fn lemma_tally_update(
    connections: Seq<TrackedConnection>,
    i: int,
    connection: TrackedConnection,
    base: OverlayAddress,
    max_po: u8,
    bin: int,
    phase: ConnectionPhase,
)
    requires
        0 <= i < connections.len(),
    ensures
        tally(connections.update(i, connection), base, max_po, bin, phase) + one_if(
            connections[i],
            base,
            max_po,
            bin,
            phase,
        ) == tally(connections, base, max_po, bin, phase) + one_if(
            connection,
            base,
            max_po,
            bin,
            phase,
        ),
    decreases connections.len(),
{
    let updated = connections.update(i, connection);
    if i == connections.len() - 1 {
        assert(updated.drop_last() =~= connections.drop_last());
    } else {
        lemma_tally_update(connections.drop_last(), i, connection, base, max_po, bin, phase);
        assert(updated.drop_last() =~= connections.drop_last().update(i, connection));
        assert(updated.last() == connections.last());
    }
}

proof fn lemma_outbound_remove(
    connections: Seq<TrackedConnection>,
    i: int,
    base: OverlayAddress,
    max_po: u8,
    bin: int,
)
    requires
        0 <= i < connections.len(),
    ensures
        outbound_tally(connections, base, max_po, bin) == outbound_tally(
            connections.remove(i),
            base,
            max_po,
            bin,
        ) + one_if_outbound(connections[i], base, max_po, bin),
    decreases connections.len(),
{
    let shorter = connections.remove(i);
    if i == connections.len() - 1 {
        assert(shorter =~= connections.drop_last());
    } else {
        lemma_outbound_remove(connections.drop_last(), i, base, max_po, bin);
        assert(shorter.drop_last() =~= connections.drop_last().remove(i));
        assert(shorter.last() == connections.last());
    }
}

proof fn lemma_outbound_update(
    connections: Seq<TrackedConnection>,
    i: int,
    connection: TrackedConnection,
    base: OverlayAddress,
    max_po: u8,
    bin: int,
)
    requires
        0 <= i < connections.len(),
        connection.overlay == connections[i].overlay,
        connection.outbound == connections[i].outbound,
    ensures
        outbound_tally(connections.update(i, connection), base, max_po, bin) == outbound_tally(
            connections,
            base,
            max_po,
            bin,
        ),
    decreases connections.len(),
{
    let updated = connections.update(i, connection);
    if i == connections.len() - 1 {
        assert(updated.drop_last() =~= connections.drop_last());
    } else {
        lemma_outbound_update(connections.drop_last(), i, connection, base, max_po, bin);
        assert(updated.drop_last() =~= connections.drop_last().update(i, connection));
        assert(updated.last() == connections.last());
    }
}

proof fn lemma_outbound_bounded(
    connections: Seq<TrackedConnection>,
    base: OverlayAddress,
    max_po: u8,
    bin: int,
)
    ensures
        outbound_tally(connections, base, max_po, bin) <= connections.len(),
        bin > max_po ==> outbound_tally(connections, base, max_po, bin) == 0,
    decreases connections.len(),
{
    if connections.len() > 0 {
        lemma_outbound_bounded(connections.drop_last(), base, max_po, bin);
    }
}

/// Connections with their per-bin counts.
pub type CapacityState = (Seq<TrackedConnection>, Seq<PhaseCount>);

/// The state after `overlay`, of `bin`, is tracked in `phase`. A connection
/// that begins in the dialing phase is outbound, another inbound.
pub open spec fn with_tracked(
    state: CapacityState,
    overlay: OverlayAddress,
    bin: int,
    phase: ConnectionPhase,
) -> CapacityState {
    (
        state.0.push(
            TrackedConnection { overlay, phase, outbound: phase == ConnectionPhase::Dialing },
        ),
        state.1.update(bin, state.1[bin].plus(phase)),
    )
}

/// The state after the tracking of `overlay`, of `bin`, ended. Its count goes
/// down only where `counted` says so.
pub open spec fn with_untracked(
    state: CapacityState,
    overlay: OverlayAddress,
    bin: int,
    counted: bool,
) -> CapacityState {
    let i = index_of(state.0, overlay);
    (
        state.0.remove(i),
        if counted {
            state.1.update(bin, state.1[bin].minus(state.0[i].phase))
        } else {
            state.1
        },
    )
}

/// The state after `overlay`, of `bin`, moved to phase `to`. Its direction
/// stays.
pub open spec fn moved(
    state: CapacityState,
    overlay: OverlayAddress,
    bin: int,
    to: ConnectionPhase,
) -> CapacityState {
    let i = index_of(state.0, overlay);
    (
        state.0.update(i, TrackedConnection { overlay, phase: to, ..state.0[i] }),
        state.1.update(bin, state.1[bin].minus(state.0[i].phase).plus(to)),
    )
}

/// The state after the tracking of `overlay`, of `bin`, ended, if it was
/// tracked. Its count goes down where its phase is `counted`, or always if that
/// is `None`.
pub open spec fn after_release(
    state: CapacityState,
    overlay: OverlayAddress,
    bin: int,
    counted: Option<ConnectionPhase>,
) -> CapacityState {
    match phase_of(state.0, overlay) {
        None => state,
        Some(phase) => with_untracked(
            state,
            overlay,
            bin,
            counted is None || counted == Some(phase),
        ),
    }
}

/// The state after a handshaking connection of `overlay`, of `bin`, was
/// reserved, unless it is tracked already.
pub open spec fn after_reserve(
    state: CapacityState,
    overlay: OverlayAddress,
    bin: int,
) -> CapacityState {
    if tracks(state.0, overlay) {
        state
    } else {
        with_tracked(state, overlay, bin, ConnectionPhase::Handshaking)
    }
}

/// The state after `overlay`, of `bin`, moved from one phase to another, if it
/// is in the former.
pub open spec fn after_advance(
    state: CapacityState,
    overlay: OverlayAddress,
    bin: int,
    from: ConnectionPhase,
    to: ConnectionPhase,
) -> CapacityState {
    if phase_of(state.0, overlay) == Some(from) {
        moved(state, overlay, bin, to)
    } else {
        state
    }
}

/// Tracks connections through their phases, with per-bin counts.
#[derive(Debug)]
pub struct CapacityTable {
    pub base: OverlayAddress,
    pub max_po: u8,
    pub connections: Vec<TrackedConnection>,
    pub counts: Vec<PhaseCount>,
    /// How many connections of each bin began as a dial.
    pub outbound: Vec<usize>,
}

impl CapacityTable {
    /// The connections with their per-bin counts. The outbound counts follow
    /// from the connections.
    pub open spec fn state(self) -> CapacityState {
        (self.connections@, self.counts@)
    }

    /// The bin of `overlay`.
    pub open spec fn bin_of(self, overlay: OverlayAddress) -> int {
        super::proximity_index::bin_of(self.base, self.max_po, overlay) as int
    }

    /// How many connections of `phase` are tracked in `bin`.
    pub open spec fn tally(self, bin: int, phase: ConnectionPhase) -> nat {
        tally(self.connections@, self.base, self.max_po, bin, phase)
    }

    /// How many tracked connections of `bin` began as a dial.
    pub open spec fn outbound_tally(self, bin: int) -> nat {
        outbound_tally(self.connections@, self.base, self.max_po, bin)
    }

    /// The outbound counts count the connections that began as a dial.
    pub open spec fn counts_outbound(self) -> bool {
        &&& self.outbound.len() == self.max_po + 1
        &&& forall|b: int|
            #![trigger self.outbound@[b]]
            0 <= b < self.outbound.len() ==> self.outbound@[b] == self.outbound_tally(b)
    }

    /// No overlay is tracked twice, every tracked connection is counted, every
    /// outbound one in the outbound counts and nothing else there, and the
    /// count of a bin fits a machine word.
    pub open spec fn wf(self) -> bool {
        &&& self.max_po <= MAX_PO
        &&& self.counts.len() == self.max_po + 1
        &&& distinct(self.connections@)
        &&& forall|b: int, phase: ConnectionPhase|
            #![trigger self.tally(b, phase)]
            0 <= b < self.counts.len() ==> self.counts@[b].of(phase) >= self.tally(b, phase)
        &&& forall|b: int|
            #![trigger self.counts@[b]]
            0 <= b < self.counts.len() ==> self.counts@[b].total() <= usize::MAX
        &&& self.counts_outbound()
    }

    /// The counts count the tracked connections and nothing else, by phase and
    /// by direction.
    pub open spec fn exact(self) -> bool {
        &&& forall|b: int, phase: ConnectionPhase|
            #![trigger self.tally(b, phase)]
            0 <= b < self.counts.len() ==> self.counts@[b].of(phase) == self.tally(b, phase)
        &&& self.counts_outbound()
    }

    /// The bin of `overlay` can count one more connection.
    pub open spec fn has_room(self, overlay: OverlayAddress) -> bool {
        self.counts@[self.bin_of(overlay)].total() < usize::MAX
    }

    /// An empty table around `base`.
    pub fn new(base: OverlayAddress, max_po: u8) -> (table: CapacityTable)
        requires
            max_po <= MAX_PO,
        ensures
            table.wf(),
            table.exact(),
            table.base == base,
            table.max_po == max_po,
            table.state() == (
                Seq::<TrackedConnection>::empty(),
                Seq::new(
                    (max_po + 1) as nat,
                    |b: int| PhaseCount { dialing: 0, handshaking: 0, active: 0 },
                ),
            ),
    {
        let mut counts: Vec<PhaseCount> = Vec::new();
        let mut outbound: Vec<usize> = Vec::new();
        let mut b: u8 = 0;
        while b <= max_po
            invariant
                b <= max_po + 1,
                max_po <= MAX_PO,
                counts.len() == b,
                outbound.len() == b,
                forall|c: int| 0 <= c < b ==> outbound@[c] == 0,
                forall|c: int|
                    0 <= c < b ==> counts@[c] == (PhaseCount {
                        dialing: 0,
                        handshaking: 0,
                        active: 0,
                    }),
            decreases max_po + 1 - b,
        {
            counts.push(PhaseCount { dialing: 0, handshaking: 0, active: 0 });
            outbound.push(0);
            b = b + 1;
        }
        proof {
            assert(counts@ =~= Seq::new(
                (max_po + 1) as nat,
                |b: int| PhaseCount { dialing: 0, handshaking: 0, active: 0 },
            ));
        }
        CapacityTable { base, max_po, connections: Vec::new(), counts, outbound }
    }

    /// The bin of `overlay`.
    pub fn bin_for(&self, overlay: &OverlayAddress) -> (bin: Bin)
        requires
            self.wf(),
        ensures
            bin.wf(),
            bin.raw as int == self.bin_of(*overlay),
            bin.raw <= self.max_po,
    {
        bin_for(&self.base, self.max_po, overlay)
    }

    fn position(&self, overlay: &OverlayAddress) -> (at: Option<usize>)
        requires
            self.wf(),
        ensures
            at matches Some(i) ==> {
                &&& connection_at(self.connections@, *overlay, i as int)
                &&& i as int == index_of(self.connections@, *overlay)
                &&& tracks(self.connections@, *overlay)
            },
            at is None ==> !tracks(self.connections@, *overlay),
    {
        let mut i: usize = 0;
        while i < self.connections.len()
            invariant
                i <= self.connections.len(),
                distinct(self.connections@),
                forall|j: int| 0 <= j < i ==> self.connections@[j].overlay != *overlay,
            decreases self.connections.len() - i,
        {
            if self.connections[i].overlay == *overlay {
                proof {
                    assert(connection_at(self.connections@, *overlay, i as int));
                    let c = index_of(self.connections@, *overlay);
                    assert(self.connections@[c].overlay == self.connections@[i as int].overlay);
                }
                return Some(i);
            }
            i = i + 1;
        }
        None
    }

    /// The phase `overlay` is tracked in, if it is tracked.
    pub fn phase(&self, overlay: &OverlayAddress) -> (phase: Option<ConnectionPhase>)
        requires
            self.wf(),
        ensures
            phase == phase_of(self.connections@, *overlay),
    {
        match self.position(overlay) {
            Some(i) => Some(self.connections[i].phase),
            None => None,
        }
    }

    /// Whether `overlay` is tracked.
    pub fn is_tracked(&self, overlay: &OverlayAddress) -> (found: bool)
        requires
            self.wf(),
        ensures
            found == tracks(self.connections@, *overlay),
    {
        self.position(overlay).is_some()
    }

    /// The counts of `bin`, all zero for a bin the table does not have.
    pub fn count(&self, bin: Bin) -> (count: PhaseCount)
        ensures
            bin.raw < self.counts.len() ==> count == self.counts@[bin.raw as int],
            bin.raw >= self.counts.len() ==> count == (PhaseCount {
                dialing: 0,
                handshaking: 0,
                active: 0,
            }),
    {
        let b: usize = bin.as_index();
        if b < self.counts.len() {
            self.counts[b]
        } else {
            PhaseCount { dialing: 0, handshaking: 0, active: 0 }
        }
    }

    /// Connections of `bin` in any phase.
    pub fn effective_count(&self, bin: Bin) -> (n: usize)
        requires
            self.wf(),
        ensures
            bin.raw < self.counts.len() ==> n == self.counts@[bin.raw as int].total(),
            bin.raw >= self.counts.len() ==> n == 0,
    {
        let count: PhaseCount = self.count(bin);
        proof {
            if bin.raw < self.counts.len() {
                assert(self.counts@[bin.raw as int].total() <= usize::MAX);
            }
        }
        count.dialing + count.handshaking + count.active
    }

    /// Connections of `bin` that began as a dial.
    pub fn outbound_count(&self, bin: Bin) -> (n: usize)
        requires
            self.wf(),
        ensures
            n == self.outbound_tally(bin.raw as int),
            bin.raw > self.max_po ==> n == 0,
    {
        let b: usize = bin.as_index();
        proof {
            lemma_outbound_bounded(self.connections@, self.base, self.max_po, bin.raw as int);
        }
        if b < self.outbound.len() {
            self.outbound[b]
        } else {
            0
        }
    }

    /// Connections of `bin` that eviction can act on: the handshaking and the
    /// active ones. In-flight dials hold capacity but cannot be evicted.
    pub fn evictable_count(&self, bin: Bin) -> (n: usize)
        requires
            self.wf(),
        ensures
            bin.raw < self.counts.len() ==> n == self.counts@[bin.raw as int].handshaking
                + self.counts@[bin.raw as int].active,
            bin.raw >= self.counts.len() ==> n == 0,
    {
        let count: PhaseCount = self.count(bin);
        proof {
            if bin.raw < self.counts.len() {
                assert(self.counts@[bin.raw as int].total() <= usize::MAX);
            }
        }
        count.handshaking + count.active
    }

    /// Start tracking `overlay` in `phase`.
    pub fn track(&mut self, overlay: &OverlayAddress, phase: ConnectionPhase)
        requires
            old(self).wf(),
            old(self).has_room(*overlay),
            !tracks(old(self).connections@, *overlay),
        ensures
            final(self).wf(),
            final(self).base == old(self).base,
            final(self).max_po == old(self).max_po,
            final(self).state() == with_tracked(
                old(self).state(),
                *overlay,
                old(self).bin_of(*overlay),
                phase,
            ),
            forall|other: OverlayAddress| #[trigger]
                phase_of(final(self).connections@, other) == if other == *overlay {
                    Some(phase)
                } else {
                    phase_of(old(self).connections@, other)
                },
            old(self).exact() ==> final(self).exact(),
    {
        let b: usize = self.bin_for(overlay).as_index();
        let outbound: bool = phase == ConnectionPhase::Dialing;
        self.connections.push(TrackedConnection { overlay: *overlay, phase, outbound });
        let mut count: PhaseCount = self.counts[b];
        count.increment(phase);
        self.counts.set(b, count);
        proof {
            assert(self.connections@.drop_last() =~= old(self).connections@);
            lemma_outbound_bounded(
                old(self).connections@,
                self.base,
                self.max_po,
                b as int,
            );
            assert(self.connections.len() == old(self).connections@.len() + 1);
        }
        if outbound {
            let dialed: usize = self.outbound[b];
            self.outbound.set(b, dialed + 1);
        }
        proof {
            assert forall|c: int|
                #![trigger self.outbound@[c]]
                0 <= c < self.outbound.len() implies self.outbound@[c] == self.outbound_tally(
                c,
            ) by {
                assert(old(self).outbound@[c] == old(self).outbound_tally(c));
            }
            assert forall|other: OverlayAddress| #[trigger]
                phase_of(self.connections@, other) == if other == *overlay {
                    Some(phase)
                } else {
                    phase_of(old(self).connections@, other)
                } by {
                tracking_sets_the_phase(old(self).state(), *overlay, b as int, phase, other);
            }
            let before = old(self).connections@;
            let after = self.connections@;
            assert(after.drop_last() =~= before);
            assert forall|i: int, j: int|
                #![trigger after[i], after[j]]
                0 <= i < after.len() && 0 <= j < after.len() && after[i].overlay
                    == after[j].overlay implies i == j by {
                if i < before.len() {
                    assert(!connection_at(before, *overlay, i));
                    assert(before[i] == after[i]);
                }
                if j < before.len() {
                    assert(!connection_at(before, *overlay, j));
                    assert(before[j] == after[j]);
                }
            }
            assert forall|c: int, p: ConnectionPhase|
                #![trigger self.tally(c, p)]
                0 <= c < self.counts.len() implies self.counts@[c].of(p) >= self.tally(c, p) && (
            old(self).exact() ==> self.counts@[c].of(p) == self.tally(c, p)) by {
                assert(old(self).counts@[c].of(p) >= old(self).tally(c, p));
            }
            assert forall|c: int|
                #![trigger self.counts@[c]]
                0 <= c < self.counts.len() implies self.counts@[c].total() <= usize::MAX by {
                assert(old(self).counts@[c].total() <= usize::MAX);
            }
        }
    }

    /// Stop tracking `overlay`, if it is tracked, and return the phase it was
    /// in. The bin's count goes down where the phase is `counted`, or always
    /// if that is `None`.
    pub fn untrack(&mut self, overlay: &OverlayAddress, counted: Option<ConnectionPhase>) -> (phase:
        Option<ConnectionPhase>)
        requires
            old(self).wf(),
        ensures
            final(self).wf(),
            final(self).base == old(self).base,
            final(self).max_po == old(self).max_po,
            phase == phase_of(old(self).connections@, *overlay),
            phase is None ==> *final(self) == *old(self),
            final(self).state() == after_release(
                old(self).state(),
                *overlay,
                old(self).bin_of(*overlay),
                counted,
            ),
            forall|other: OverlayAddress| #[trigger]
                old(self).has_room(other) ==> final(self).has_room(other),
            !tracks(final(self).connections@, *overlay),
            forall|other: OverlayAddress| #[trigger]
                phase_of(final(self).connections@, other) == if other == *overlay {
                    None
                } else {
                    phase_of(old(self).connections@, other)
                },
            old(self).exact() && (counted is None || phase is None || counted == phase) ==> final(self).exact(),
    {
        proof {
            assert forall|other: OverlayAddress| #[trigger]
                phase_of(
                    after_release(self.state(), *overlay, self.bin_of(*overlay), counted).0,
                    other,
                ) == if other == *overlay {
                    None
                } else {
                    phase_of(self.connections@, other)
                } by {
                releasing_clears_the_phase(
                    self.state(),
                    *overlay,
                    self.bin_of(*overlay),
                    counted,
                    other,
                );
            }
        }
        let b: usize = self.bin_for(overlay).as_index();
        match self.position(overlay) {
            None => None,
            Some(i) => {
                let phase: ConnectionPhase = self.connections[i].phase;
                let counts_down: bool = match counted {
                    None => true,
                    Some(p) => p == phase,
                };
                proof {
                    lemma_tally_remove(
                        self.connections@,
                        i as int,
                        self.base,
                        self.max_po,
                        b as int,
                        phase,
                    );
                    assert(self.counts@[b as int].of(phase) >= self.tally(b as int, phase));
                    lemma_outbound_remove(
                        self.connections@,
                        i as int,
                        self.base,
                        self.max_po,
                        b as int,
                    );
                    assert(self.outbound@[b as int] == self.outbound_tally(b as int));
                }
                let gone: TrackedConnection = self.connections.remove(i);
                if gone.outbound {
                    let dialed: usize = self.outbound[b];
                    self.outbound.set(b, dialed - 1);
                }
                if counts_down {
                    let mut count: PhaseCount = self.counts[b];
                    count.decrement(phase);
                    self.counts.set(b, count);
                }
                proof {
                    let before = old(self).connections@;
                    let after = self.connections@;
                    assert forall|c: int|
                        #![trigger self.outbound@[c]]
                        0 <= c < self.outbound.len() implies self.outbound@[c]
                        == self.outbound_tally(c) by {
                        assert(old(self).outbound@[c] == old(self).outbound_tally(c));
                        lemma_outbound_remove(before, i as int, self.base, self.max_po, c);
                    }
                    assert forall|x: int, y: int|
                        #![trigger after[x], after[y]]
                        0 <= x < after.len() && 0 <= y < after.len() && after[x].overlay
                            == after[y].overlay implies x == y by {
                        let x0 = if x < i {
                            x
                        } else {
                            x + 1
                        };
                        let y0 = if y < i {
                            y
                        } else {
                            y + 1
                        };
                        assert(after[x] == before[x0]);
                        assert(after[y] == before[y0]);
                    }
                    assert(!tracks(after, *overlay)) by {
                        if tracks(after, *overlay) {
                            let x = index_of(after, *overlay);
                            let x0 = if x < i {
                                x
                            } else {
                                x + 1
                            };
                            assert(before[x0].overlay == before[i as int].overlay);
                        }
                    }
                    assert forall|c: int, p: ConnectionPhase|
                        #![trigger self.tally(c, p)]
                        0 <= c < self.counts.len() implies self.counts@[c].of(p) >= self.tally(c, p)
                        && (old(self).exact() && counts_down ==> self.counts@[c].of(p)
                        == self.tally(c, p)) by {
                        assert(old(self).counts@[c].of(p) >= old(self).tally(c, p));
                        lemma_tally_remove(before, i as int, self.base, self.max_po, c, p);
                    }
                    assert forall|c: int|
                        #![trigger self.counts@[c]]
                        0 <= c < self.counts.len() implies self.counts@[c].total()
                        <= usize::MAX by {
                        assert(old(self).counts@[c].total() <= usize::MAX);
                    }
                }
                Some(phase)
            },
        }
    }

    /// Move `overlay` from phase `from` to phase `to`, if it is in `from`.
    pub fn advance(
        &mut self,
        overlay: &OverlayAddress,
        from: ConnectionPhase,
        to: ConnectionPhase,
    ) -> (advanced: bool)
        requires
            old(self).wf(),
            from != to,
        ensures
            final(self).wf(),
            final(self).base == old(self).base,
            final(self).max_po == old(self).max_po,
            advanced == (phase_of(old(self).connections@, *overlay) == Some(from)),
            !advanced ==> *final(self) == *old(self),
            final(self).state() == after_advance(
                old(self).state(),
                *overlay,
                old(self).bin_of(*overlay),
                from,
                to,
            ),
            forall|other: OverlayAddress| #[trigger]
                phase_of(final(self).connections@, other) == if other == *overlay && advanced {
                    Some(to)
                } else {
                    phase_of(old(self).connections@, other)
                },
            forall|other: OverlayAddress| #[trigger]
                old(self).has_room(other) ==> final(self).has_room(other),
            old(self).exact() ==> final(self).exact(),
    {
        proof {
            assert forall|other: OverlayAddress| #[trigger]
                phase_of(
                    after_advance(self.state(), *overlay, self.bin_of(*overlay), from, to).0,
                    other,
                ) == if other == *overlay && phase_of(self.connections@, *overlay) == Some(from) {
                    Some(to)
                } else {
                    phase_of(self.connections@, other)
                } by {
                advancing_sets_the_phase(
                    self.state(),
                    *overlay,
                    self.bin_of(*overlay),
                    from,
                    to,
                    other,
                );
            }
        }
        let b: usize = self.bin_for(overlay).as_index();
        match self.position(overlay) {
            None => false,
            Some(i) => {
                if self.connections[i].phase != from {
                    return false;
                }
                let next: TrackedConnection = TrackedConnection {
                    overlay: *overlay,
                    phase: to,
                    outbound: self.connections[i].outbound,
                };
                proof {
                    lemma_tally_remove(
                        self.connections@,
                        i as int,
                        self.base,
                        self.max_po,
                        b as int,
                        from,
                    );
                    assert(self.counts@[b as int].of(from) >= self.tally(b as int, from));
                    assert(self.counts@[b as int].total() <= usize::MAX);
                }
                self.connections.set(i, next);
                let mut count: PhaseCount = self.counts[b];
                count.decrement(from);
                count.increment(to);
                self.counts.set(b, count);
                proof {
                    let before = old(self).connections@;
                    let after = self.connections@;
                    assert forall|c: int|
                        #![trigger self.outbound@[c]]
                        0 <= c < self.outbound.len() implies self.outbound@[c]
                        == self.outbound_tally(c) by {
                        assert(old(self).outbound@[c] == old(self).outbound_tally(c));
                        lemma_outbound_update(before, i as int, next, self.base, self.max_po, c);
                    }
                    assert forall|x: int, y: int|
                        #![trigger after[x], after[y]]
                        0 <= x < after.len() && 0 <= y < after.len() && after[x].overlay
                            == after[y].overlay implies x == y by {
                        assert(after[x].overlay == before[x].overlay);
                        assert(after[y].overlay == before[y].overlay);
                    }
                    assert forall|c: int, p: ConnectionPhase|
                        #![trigger self.tally(c, p)]
                        0 <= c < self.counts.len() implies self.counts@[c].of(p) >= self.tally(c, p)
                        && (old(self).exact() ==> self.counts@[c].of(p) == self.tally(c, p)) by {
                        assert(old(self).counts@[c].of(p) >= old(self).tally(c, p));
                        lemma_tally_update(
                            before,
                            i as int,
                            next,
                            self.base,
                            self.max_po,
                            c,
                            p,
                        );
                    }
                    assert forall|c: int|
                        #![trigger self.counts@[c]]
                        0 <= c < self.counts.len() implies self.counts@[c].total()
                        <= usize::MAX by {
                        assert(old(self).counts@[c].total() <= usize::MAX);
                    }
                }
                true
            },
        }
    }

    /// The tracked overlays, in the order they were first tracked.
    pub fn tracked_overlays(&self) -> (overlays: Vec<OverlayAddress>)
        ensures
            overlays.len() == self.connections.len(),
            forall|i: int|
                0 <= i < overlays.len() ==> overlays@[i] == self.connections@[i].overlay,
    {
        let mut overlays: Vec<OverlayAddress> = Vec::new();
        let mut i: usize = 0;
        while i < self.connections.len()
            invariant
                i <= self.connections.len(),
                overlays.len() == i,
                forall|j: int| 0 <= j < i ==> overlays@[j] == self.connections@[j].overlay,
            decreases self.connections.len() - i,
        {
            overlays.push(self.connections[i].overlay);
            i = i + 1;
        }
        overlays
    }

    /// The overlays of `bin` that are in their handshake.
    pub fn handshaking_in_bin(&self, bin: Bin) -> (overlays: Vec<OverlayAddress>)
        requires
            self.wf(),
        ensures
            overlays@ == handshaking_in(
                self.connections@,
                self.base,
                self.max_po,
                bin.raw as int,
            ),
    {
        let mut overlays: Vec<OverlayAddress> = Vec::new();
        let mut i: usize = 0;
        while i < self.connections.len()
            invariant
                self.wf(),
                i <= self.connections.len(),
                overlays@ == handshaking_in(
                    self.connections@.subrange(0, i as int),
                    self.base,
                    self.max_po,
                    bin.raw as int,
                ),
            decreases self.connections.len() - i,
        {
            proof {
                assert(self.connections@.subrange(0, i + 1).drop_last()
                    =~= self.connections@.subrange(0, i as int));
            }
            let connection: TrackedConnection = self.connections[i];
            if connection.phase == ConnectionPhase::Handshaking && self.bin_for(
                &connection.overlay,
            ).raw == bin.raw {
                overlays.push(connection.overlay);
            }
            i = i + 1;
        }
        proof {
            assert(self.connections@.subrange(0, i as int) =~= self.connections@);
        }
        overlays
    }
}

proof fn lemma_phase_at(connections: Seq<TrackedConnection>, i: int)
    requires
        distinct(connections),
        0 <= i < connections.len(),
    ensures
        tracks(connections, connections[i].overlay),
        phase_of(connections, connections[i].overlay) == Some(connections[i].phase),
{
    let overlay = connections[i].overlay;
    assert(connection_at(connections, overlay, i));
    assert(connections[index_of(connections, overlay)].overlay == overlay);
}

/// A peer that starts to be followed is in its phase, and every other peer
/// stays in its own.
pub proof fn tracking_sets_the_phase(
    state: CapacityState,
    overlay: OverlayAddress,
    bin: int,
    phase: ConnectionPhase,
    other: OverlayAddress,
)
    requires
        distinct(state.0),
        !tracks(state.0, overlay),
    ensures
        phase_of(with_tracked(state, overlay, bin, phase).0, other) == if other == overlay {
            Some(phase)
        } else {
            phase_of(state.0, other)
        },
{
    let before = state.0;
    let after = with_tracked(state, overlay, bin, phase).0;
    let last = before.len() as int;
    assert(distinct(after)) by {
        assert forall|i: int, j: int|
            #![trigger after[i], after[j]]
            0 <= i < after.len() && 0 <= j < after.len() && after[i].overlay
                == after[j].overlay implies i == j by {
            if i < last {
                assert(!connection_at(before, overlay, i));
                assert(before[i] == after[i]);
            }
            if j < last {
                assert(!connection_at(before, overlay, j));
                assert(before[j] == after[j]);
            }
        }
    }
    if other == overlay {
        lemma_phase_at(after, last);
    } else if tracks(before, other) {
        let i = index_of(before, other);
        assert(after[i] == before[i]);
        lemma_phase_at(before, i);
        lemma_phase_at(after, i);
    } else if tracks(after, other) {
        let i = index_of(after, other);
        assert(connection_at(before, other, i));
    }
}

/// A peer that moves on is in its new phase, and every other peer stays in its
/// own.
pub proof fn advancing_sets_the_phase(
    state: CapacityState,
    overlay: OverlayAddress,
    bin: int,
    from: ConnectionPhase,
    to: ConnectionPhase,
    other: OverlayAddress,
)
    requires
        distinct(state.0),
    ensures
        phase_of(after_advance(state, overlay, bin, from, to).0, other) == if other == overlay
            && phase_of(state.0, overlay) == Some(from) {
            Some(to)
        } else {
            phase_of(state.0, other)
        },
{
    if phase_of(state.0, overlay) == Some(from) {
        let before = state.0;
        let at = index_of(before, overlay);
        let after = after_advance(state, overlay, bin, from, to).0;
        assert(distinct(after)) by {
            assert forall|i: int, j: int|
                #![trigger after[i], after[j]]
                0 <= i < after.len() && 0 <= j < after.len() && after[i].overlay
                    == after[j].overlay implies i == j by {
                assert(after[i].overlay == before[i].overlay);
                assert(after[j].overlay == before[j].overlay);
            }
        }
        if other == overlay {
            lemma_phase_at(after, at);
        } else if tracks(before, other) {
            let i = index_of(before, other);
            assert(after[i] == before[i]);
            lemma_phase_at(before, i);
            lemma_phase_at(after, i);
        } else if tracks(after, other) {
            let i = index_of(after, other);
            assert(after[i].overlay == before[i].overlay);
            assert(connection_at(before, other, i));
        }
    }
}

/// A released peer is followed no more, and every other peer stays in its
/// phase.
pub proof fn releasing_clears_the_phase(
    state: CapacityState,
    overlay: OverlayAddress,
    bin: int,
    counted: Option<ConnectionPhase>,
    other: OverlayAddress,
)
    requires
        distinct(state.0),
    ensures
        phase_of(after_release(state, overlay, bin, counted).0, other) == if other == overlay {
            None
        } else {
            phase_of(state.0, other)
        },
{
    if tracks(state.0, overlay) {
        let before = state.0;
        let at = index_of(before, overlay);
        let after = before.remove(at);
        assert(after_release(state, overlay, bin, counted).0 == after);
        assert(distinct(after)) by {
            assert forall|i: int, j: int|
                #![trigger after[i], after[j]]
                0 <= i < after.len() && 0 <= j < after.len() && after[i].overlay
                    == after[j].overlay implies i == j by {
                let i0 = if i < at {
                    i
                } else {
                    i + 1
                };
                let j0 = if j < at {
                    j
                } else {
                    j + 1
                };
                assert(after[i] == before[i0]);
                assert(after[j] == before[j0]);
            }
        }
        if tracks(after, other) {
            let i = index_of(after, other);
            let i0 = if i < at {
                i
            } else {
                i + 1
            };
            assert(after[i] == before[i0]);
            lemma_phase_at(before, i0);
            lemma_phase_at(after, i);
            assert(before[at].overlay == overlay);
        } else if other != overlay && tracks(before, other) {
            let i = index_of(before, other);
            let i1 = if i < at {
                i
            } else {
                i - 1
            };
            assert(before[i].overlay != before[at].overlay);
            assert(after[i1] == before[i]);
            assert(connection_at(after, other, i1));
        }
    }
}

/// Tracking a peer and ending its tracking again leaves the connections and
/// all counts as they were.
pub proof fn release_undoes_reserve(
    state: CapacityState,
    overlay: OverlayAddress,
    bin: int,
    phase: ConnectionPhase,
)
    requires
        !tracks(state.0, overlay),
        0 <= bin < state.1.len(),
        state.1[bin].of(phase) < usize::MAX,
    ensures
        with_untracked(with_tracked(state, overlay, bin, phase), overlay, bin, true) == state,
{
    let grown = with_tracked(state, overlay, bin, phase);
    let last = state.0.len() as int;
    assert(connection_at(grown.0, overlay, last));
    let i = index_of(grown.0, overlay);
    if i < last {
        assert(connection_at(state.0, overlay, i));
    }
    assert(grown.0.remove(last) =~= state.0);
    assert(with_untracked(grown, overlay, bin, true).1 =~= state.1);
}

/// The outbound count of a bin follows the dials: a dial adds one, an inbound
/// connection none.
pub proof fn dials_count_as_outbound(
    state: CapacityState,
    base: OverlayAddress,
    max_po: u8,
    overlay: OverlayAddress,
    phase: ConnectionPhase,
    bin: int,
)
    ensures
        ({
            let home = super::proximity_index::bin_of(base, max_po, overlay) as int;
            outbound_tally(with_tracked(state, overlay, home, phase).0, base, max_po, bin)
                == outbound_tally(state.0, base, max_po, bin) + (if phase
                == ConnectionPhase::Dialing && bin == home {
                1int
            } else {
                0int
            })
        }),
{
    let home = super::proximity_index::bin_of(base, max_po, overlay) as int;
    let grown = with_tracked(state, overlay, home, phase).0;
    assert(grown.drop_last() =~= state.0);
}

/// A connection keeps its direction through its phases: moving on changes no
/// outbound count.
pub proof fn moving_keeps_the_direction(
    state: CapacityState,
    base: OverlayAddress,
    max_po: u8,
    overlay: OverlayAddress,
    from: ConnectionPhase,
    to: ConnectionPhase,
    bin: int,
)
    ensures
        ({
            let home = super::proximity_index::bin_of(base, max_po, overlay) as int;
            outbound_tally(after_advance(state, overlay, home, from, to).0, base, max_po, bin)
                == outbound_tally(state.0, base, max_po, bin)
        }),
{
    if phase_of(state.0, overlay) == Some(from) {
        let i = index_of(state.0, overlay);
        let next = TrackedConnection { overlay, phase: to, ..state.0[i] };
        lemma_outbound_update(state.0, i, next, base, max_po, bin);
    }
}

/// A connection that moves from one phase to another keeps its bin's total.
pub proof fn moving_keeps_the_total(
    state: CapacityState,
    overlay: OverlayAddress,
    bin: int,
    to: ConnectionPhase,
)
    requires
        tracks(state.0, overlay),
        0 <= bin < state.1.len(),
        state.1[bin].of(state.0[index_of(state.0, overlay)].phase) > 0,
        state.1[bin].total() <= usize::MAX,
        to != state.0[index_of(state.0, overlay)].phase,
    ensures
        moved(state, overlay, bin, to).1[bin].total() == state.1[bin].total(),
{
}

/// The handshaking overlays of a bin are those that a tracked connection in its
/// handshake has in that bin, each once where no overlay is tracked twice.
pub proof fn handshaking_peers_are_tracked(
    connections: Seq<TrackedConnection>,
    base: OverlayAddress,
    max_po: u8,
    bin: int,
    overlay: OverlayAddress,
)
    ensures
        handshaking_in(connections, base, max_po, bin).contains(overlay) <==> exists|i: int|
            #![trigger connections[i]]
            {
                &&& 0 <= i < connections.len()
                &&& connections[i].overlay == overlay
                &&& connections[i].phase == ConnectionPhase::Handshaking
                &&& super::proximity_index::bin_of(base, max_po, overlay) == bin
            },
    decreases connections.len(),
{
    if connections.len() > 0 {
        let less = connections.drop_last();
        let last = connections.len() - 1;
        let rest = handshaking_in(less, base, max_po, bin);
        let all = handshaking_in(connections, base, max_po, bin);
        handshaking_peers_are_tracked(less, base, max_po, bin, overlay);
        assert(connections[last] == connections.last());
        if all.contains(overlay) {
            let k = choose|k: int| 0 <= k < all.len() && all[k] == overlay;
            if k < rest.len() {
                assert(rest[k] == overlay);
                assert(rest.contains(overlay));
                let i = choose|i: int|
                    #![trigger less[i]]
                    {
                        &&& 0 <= i < less.len()
                        &&& less[i].overlay == overlay
                        &&& less[i].phase == ConnectionPhase::Handshaking
                        &&& super::proximity_index::bin_of(base, max_po, overlay) == bin
                    };
                assert(connections[i] == less[i]);
            }
        }
        if exists|i: int|
            #![trigger connections[i]]
            {
                &&& 0 <= i < connections.len()
                &&& connections[i].overlay == overlay
                &&& connections[i].phase == ConnectionPhase::Handshaking
                &&& super::proximity_index::bin_of(base, max_po, overlay) == bin
            } {
            let i = choose|i: int|
                #![trigger connections[i]]
                {
                    &&& 0 <= i < connections.len()
                    &&& connections[i].overlay == overlay
                    &&& connections[i].phase == ConnectionPhase::Handshaking
                    &&& super::proximity_index::bin_of(base, max_po, overlay) == bin
                };
            if i < last {
                assert(less[i] == connections[i]);
                let k = choose|k: int| 0 <= k < rest.len() && rest[k] == overlay;
                assert(all[k] == overlay);
            } else {
                assert(all[all.len() - 1] == overlay);
            }
        }
    }
}

/// Following a connection counts one more of its phase in its bin, and nothing
/// else.
pub proof fn tracking_counts_one_more(
    state: CapacityState,
    overlay: OverlayAddress,
    bin: int,
    phase: ConnectionPhase,
)
    requires
        0 <= bin < state.1.len(),
        state.1[bin].dialing + state.1[bin].handshaking + state.1[bin].active < usize::MAX,
    ensures
        ({
            let before = state.1;
            let after = with_tracked(state, overlay, bin, phase).1;
            &&& after.len() == before.len()
            &&& forall|b: int|
                #![trigger after[b]]
                0 <= b < after.len() && b != bin ==> after[b] == before[b]
            &&& after[bin].dialing == before[bin].dialing + (if phase == ConnectionPhase::Dialing {
                1int
            } else {
                0
            })
            &&& after[bin].handshaking == before[bin].handshaking + (if phase
                == ConnectionPhase::Handshaking {
                1int
            } else {
                0
            })
            &&& after[bin].active == before[bin].active + (if phase == ConnectionPhase::Active {
                1int
            } else {
                0
            })
        }),
{
}

/// Letting go of a connection counts one less of its phase in its bin where
/// that phase is the one counted or every phase is, and nothing less where the
/// connection was not followed or stood in another phase.
pub proof fn releasing_counts_one_less(
    state: CapacityState,
    overlay: OverlayAddress,
    bin: int,
    counted: Option<ConnectionPhase>,
    phase: ConnectionPhase,
)
    requires
        0 <= bin < state.1.len(),
        phase_of(state.0, overlay) matches Some(at) ==> match at {
            ConnectionPhase::Dialing => state.1[bin].dialing > 0,
            ConnectionPhase::Handshaking => state.1[bin].handshaking > 0,
            ConnectionPhase::Active => state.1[bin].active > 0,
        },
    ensures
        ({
            let before = state.1;
            let after = after_release(state, overlay, bin, counted).1;
            let gone = phase_of(state.0, overlay) == Some(phase) && (counted is None || counted
                == Some(phase));
            let held = |count: PhaseCount|
                match phase {
                    ConnectionPhase::Dialing => count.dialing,
                    ConnectionPhase::Handshaking => count.handshaking,
                    ConnectionPhase::Active => count.active,
                };
            &&& after.len() == before.len()
            &&& forall|b: int|
                #![trigger after[b]]
                0 <= b < after.len() && b != bin ==> after[b] == before[b]
            &&& gone ==> held(after[bin]) + 1 == held(before[bin])
            &&& !gone ==> held(after[bin]) == held(before[bin])
        }),
{
}

/// Moving a connection on takes one from the count of the phase that it leaves
/// and adds one to the one that it enters, in its bin alone; a connection that
/// is not in the former phase stays where it is.
pub proof fn advancing_moves_the_count(
    state: CapacityState,
    overlay: OverlayAddress,
    bin: int,
    from: ConnectionPhase,
    to: ConnectionPhase,
    phase: ConnectionPhase,
)
    requires
        0 <= bin < state.1.len(),
        from != to,
        state.1[bin].dialing + state.1[bin].handshaking + state.1[bin].active <= usize::MAX,
        phase_of(state.0, overlay) matches Some(at) ==> match at {
            ConnectionPhase::Dialing => state.1[bin].dialing > 0,
            ConnectionPhase::Handshaking => state.1[bin].handshaking > 0,
            ConnectionPhase::Active => state.1[bin].active > 0,
        },
    ensures
        ({
            let before = state.1;
            let after = after_advance(state, overlay, bin, from, to).1;
            let moves = phase_of(state.0, overlay) == Some(from);
            let held = |count: PhaseCount|
                match phase {
                    ConnectionPhase::Dialing => count.dialing,
                    ConnectionPhase::Handshaking => count.handshaking,
                    ConnectionPhase::Active => count.active,
                };
            &&& !moves ==> after == before
            &&& forall|b: int|
                #![trigger after[b]]
                0 <= b < after.len() && b != bin ==> after[b] == before[b]
            &&& moves && phase == from ==> held(after[bin]) + 1 == held(before[bin])
            &&& moves && phase == to ==> held(after[bin]) == held(before[bin]) + 1
            &&& phase != from && phase != to ==> held(after[bin]) == held(before[bin])
        }),
{
}

/// A reserved connection of a peer that was not followed is in its handshake;
/// one that was followed stays as it was.
pub proof fn reserving_starts_a_handshake(
    state: CapacityState,
    overlay: OverlayAddress,
    bin: int,
    other: OverlayAddress,
)
    requires
        distinct(state.0),
    ensures
        tracks(state.0, overlay) ==> after_reserve(state, overlay, bin) == state,
        !tracks(state.0, overlay) ==> phase_of(after_reserve(state, overlay, bin).0, overlay)
            == Some(ConnectionPhase::Handshaking),
        other != overlay ==> phase_of(after_reserve(state, overlay, bin).0, other) == phase_of(
            state.0,
            other,
        ),
{
    if !tracks(state.0, overlay) {
        tracking_sets_the_phase(state, overlay, bin, ConnectionPhase::Handshaking, overlay);
        tracking_sets_the_phase(state, overlay, bin, ConnectionPhase::Handshaking, other);
    }
}

/// One more connection adds one to the tally of its phase in its bin and of no
/// other phase or bin; no connections, none.
pub proof fn tallies_count_connections(
    connections: Seq<TrackedConnection>,
    connection: TrackedConnection,
    base: OverlayAddress,
    max_po: u8,
    bin: int,
    phase: ConnectionPhase,
)
    ensures
        tally(Seq::empty(), base, max_po, bin, phase) == 0,
        tally(connections.push(connection), base, max_po, bin, phase) == tally(
            connections,
            base,
            max_po,
            bin,
            phase,
        ) + (if connection.phase == phase && super::proximity_index::bin_of(
            base,
            max_po,
            connection.overlay,
        ) == bin {
            1int
        } else {
            0
        }),
        outbound_tally(Seq::empty(), base, max_po, bin) == 0,
        outbound_tally(connections.push(connection), base, max_po, bin) == outbound_tally(
            connections,
            base,
            max_po,
            bin,
        ) + (if connection.outbound && super::proximity_index::bin_of(
            base,
            max_po,
            connection.overlay,
        ) == bin {
            1int
        } else {
            0
        }),
{
    assert(connections.push(connection).drop_last() =~= connections);
}

/// The phase that a followed peer is found in is that of its connection.
pub proof fn the_phase_is_the_connections(
    connections: Seq<TrackedConnection>,
    overlay: OverlayAddress,
    i: int,
)
    requires
        distinct(connections),
        0 <= i < connections.len(),
    ensures
        connections[i].overlay == overlay ==> phase_of(connections, overlay) == Some(
            connections[i].phase,
        ),
        phase_of(connections, overlay) is None ==> connections[i].overlay != overlay,
        phase_of(connections, overlay) is Some ==> tracks(connections, overlay),
{
    if connections[i].overlay == overlay {
        lemma_phase_at(connections, i);
    }
}

/// Letting go of a connection leaves no overlay followed twice.
pub proof fn releasing_keeps_distinct(
    state: CapacityState,
    overlay: OverlayAddress,
    bin: int,
    counted: Option<ConnectionPhase>,
)
    requires
        distinct(state.0),
    ensures
        distinct(after_release(state, overlay, bin, counted).0),
{
    if tracks(state.0, overlay) {
        let before = state.0;
        let at = index_of(before, overlay);
        let after = before.remove(at);
        assert(after_release(state, overlay, bin, counted).0 == after);
        assert forall|i: int, j: int|
            #![trigger after[i], after[j]]
            0 <= i < after.len() && 0 <= j < after.len() && after[i].overlay
                == after[j].overlay implies i == j by {
            let i0 = if i < at {
                i
            } else {
                i + 1
            };
            let j0 = if j < at {
                j
            } else {
                j + 1
            };
            assert(after[i] == before[i0]);
            assert(after[j] == before[j0]);
        }
    }
}

/// Exact counts are the numbers of followed connections: by phase, and by who
/// began them.
pub proof fn exact_counts_count_the_connections(table: CapacityTable, b: int)
    requires
        table.wf(),
        table.exact(),
        0 <= b <= table.max_po,
    ensures
        table.counts@[b].dialing == tally(
            table.connections@,
            table.base,
            table.max_po,
            b,
            ConnectionPhase::Dialing,
        ),
        table.counts@[b].handshaking == tally(
            table.connections@,
            table.base,
            table.max_po,
            b,
            ConnectionPhase::Handshaking,
        ),
        table.counts@[b].active == tally(
            table.connections@,
            table.base,
            table.max_po,
            b,
            ConnectionPhase::Active,
        ),
        table.outbound@[b] == outbound_tally(table.connections@, table.base, table.max_po, b),
{
    assert(table.counts@[b].of(ConnectionPhase::Dialing) == table.tally(
        b,
        ConnectionPhase::Dialing,
    ));
    assert(table.counts@[b].of(ConnectionPhase::Handshaking) == table.tally(
        b,
        ConnectionPhase::Handshaking,
    ));
    assert(table.counts@[b].of(ConnectionPhase::Active) == table.tally(
        b,
        ConnectionPhase::Active,
    ));
}

/// A connection that joins the others comes last among the handshaking ones of
/// its bin where it is in its handshake, and changes no other bin's.
pub proof fn handshaking_peers_come_in_order(
    connections: Seq<TrackedConnection>,
    connection: TrackedConnection,
    base: OverlayAddress,
    max_po: u8,
    bin: int,
)
    ensures
        handshaking_in(Seq::empty(), base, max_po, bin) == Seq::<OverlayAddress>::empty(),
        connection.phase == ConnectionPhase::Handshaking && super::proximity_index::bin_of(
            base,
            max_po,
            connection.overlay,
        ) == bin ==> handshaking_in(connections.push(connection), base, max_po, bin)
            == handshaking_in(connections, base, max_po, bin).push(connection.overlay),
        connection.phase != ConnectionPhase::Handshaking || super::proximity_index::bin_of(
            base,
            max_po,
            connection.overlay,
        ) != bin ==> handshaking_in(connections.push(connection), base, max_po, bin)
            == handshaking_in(connections, base, max_po, bin),
{
    assert(connections.push(connection).drop_last() =~= connections);
}

} // verus!
