//! The connection evaluator: when the table is evaluated, and what an
//! evaluation does.

use super::candidates::CandidateSnapshot;
use super::peers::PeerBook;
use super::phase::PhaseTransition;
use super::routing::KademliaRouting;
use crate::events::TopologyEvent;
use crate::time::{Duration, Instant};
use vstd::prelude::*;

verus! {

/// Milliseconds for which further triggers are gathered into one evaluation.
pub const DEBOUNCE_MILLIS: u64 = 100;

/// Seconds after which the table is evaluated without a trigger.
pub const PERIODIC_SECS: u64 = 5;

/// Why the evaluator woke up.
#[derive(Clone, Copy, Debug, PartialEq, Eq, Structural)]
pub enum EvaluatorWake {
    /// The node shuts down.
    Shutdown,
    /// An evaluation was asked for.
    Triggered,
    /// The period passed.
    Tick,
}

/// What the evaluator does next.
#[derive(Clone, Copy, Debug, PartialEq, Eq, Structural)]
pub enum EvaluatorStep {
    /// End.
    Stop,
    /// Evaluate after a pause.
    EvaluateAfter(Duration),
}

/// How long the evaluator sleeps at most.
pub fn evaluation_period() -> (period: Duration)
    ensures
        period.nanos == PERIODIC_SECS * crate::time::NANOS_PER_SEC,
{
    Duration::from_secs(PERIODIC_SECS)
}

/// The step after waking up: a trigger is debounced, a tick evaluated at once.
pub fn evaluator_step(wake: EvaluatorWake) -> (step: EvaluatorStep)
    ensures
        match wake {
            EvaluatorWake::Shutdown => step is Stop,
            EvaluatorWake::Triggered => step == EvaluatorStep::EvaluateAfter(
                Duration { nanos: (DEBOUNCE_MILLIS * crate::time::NANOS_PER_MILLI) as u128 },
            ),
            EvaluatorWake::Tick => step == EvaluatorStep::EvaluateAfter(Duration { nanos: 0 }),
        },
{
    match wake {
        EvaluatorWake::Shutdown => EvaluatorStep::Stop,
        EvaluatorWake::Triggered => EvaluatorStep::EvaluateAfter(
            Duration::from_millis(DEBOUNCE_MILLIS),
        ),
        EvaluatorWake::Tick => EvaluatorStep::EvaluateAfter(Duration::zero()),
    }
}

/// The event of a phase transition.
pub open spec fn phase_event(transition: Option<PhaseTransition>) -> Option<TopologyEvent> {
    match transition {
        Some(t) => Some(
            TopologyEvent::PhaseChanged { from: t.from, to: t.to, depth: t.depth.raw },
        ),
        None => None,
    }
}

/// One evaluation: look for dial candidates, then re-derive the topology
/// phase. A quiet table changes phase by time alone, which only this notices.
pub fn evaluation_round(routing: &mut KademliaRouting, book: &PeerBook, now: Instant) -> (event:
    Option<TopologyEvent>)
    requires
        old(routing).wf(),
        book.wf(),
    ensures
        final(routing).wf(),
        *final(routing) == (KademliaRouting {
            candidate_queues: final(routing).candidate_queues,
            ..old(routing).phase_evaluated(now)
        }),
        final(routing).candidate_queues.max_per_bin == old(routing).candidate_queues.max_per_bin,
        exists|snapshot: CandidateSnapshot|
            #![trigger old(routing).selected(snapshot, *book)]
            old(routing).captures(
                snapshot,
                super::limits::allocation_depth(
                    old(routing).depth,
                    KademliaRouting::known_sizes(*book),
                    old(routing).config.limits.nominal,
                ),
            ) && final(routing).candidate_queues.contents() == super::routing::all_enqueued(
                old(routing).candidate_queues.contents(),
                old(routing).candidate_queues.max_per_bin as nat,
                old(routing).local,
                old(routing).max_po,
                old(routing).selected(snapshot, *book),
            ),
        event == phase_event(old(routing).phase_transition(now)),
{
    routing.evaluate_connections(book);
    match routing.evaluate_phase(now) {
        Some(transition) => Some(
            TopologyEvent::PhaseChanged {
                from: transition.from,
                to: transition.to,
                depth: transition.depth.get(),
            },
        ),
        None => None,
    }
}

/// An evaluation tells of the topology phase exactly where it moved, with the
/// phases before and after and the published depth.
pub proof fn evaluations_tell_of_a_moved_phase(routing: KademliaRouting, now: Instant)
    ensures
        ({
            let before = routing.topology_phase.phase;
            let after = routing.phase_evaluated(now).topology_phase.phase;
            match phase_event(routing.phase_transition(now)) {
                None => after == before,
                Some(event) => {
                    &&& after != before
                    &&& event == (TopologyEvent::PhaseChanged {
                        from: before,
                        to: after,
                        depth: routing.depth.raw,
                    })
                },
            }
        }),
{
}

} // verus!
