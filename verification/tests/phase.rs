use vertex_topology::kademlia::phase::{PhaseTracker, TopologyPhase};
use vertex_topology::primitives::{Bin, NeighborhoodDepth};
use vertex_topology::time::{Duration, Instant};


const WINDOW: Duration = Duration { nanos: 60_000_000_000 };

fn d(n: u8) -> NeighborhoodDepth {
    NeighborhoodDepth::new(Bin::new(n).expect("valid bin"))
}

fn after(base: Instant, span: Duration, times: u128) -> Instant {
    base.plus(Duration { nanos: span.nanos * times })
}

fn tracker(now: Instant) -> PhaseTracker {
    PhaseTracker::new(WINDOW, now)
}

#[test]
fn starts_in_bootstrap() {
    let now = Instant { nanos: 1_000 };
    let t = tracker(now);
    assert_eq!(t.phase(), TopologyPhase::Bootstrap);
    assert_eq!(t.time_in_phase(now), Duration::zero());
}

#[test]
fn stays_bootstrap_while_depth_zero() {
    let base = Instant { nanos: 1_000 };
    let mut t = tracker(base);
    assert_eq!(t.evaluate(d(0), false, base.plus(WINDOW)), None);
    assert_eq!(t.evaluate(d(0), false, after(base, WINDOW, 2)), None);
    assert_eq!(t.phase(), TopologyPhase::Bootstrap);
}

#[test]
fn bootstrap_to_converging_on_first_depth_climb() {
    let base = Instant { nanos: 1_000 };
    let mut t = tracker(base);

    let transition = t
        .evaluate(d(2), false, base.plus(Duration::from_secs(5)))
        .expect("depth climb must transition");
    assert_eq!(transition.from, TopologyPhase::Bootstrap);
    assert_eq!(transition.to, TopologyPhase::Converging);
    assert_eq!(transition.depth, d(2));
    assert_eq!(transition.time_in_phase, Duration::from_secs(5));
    assert_eq!(t.phase(), TopologyPhase::Converging);
}

#[test]
fn converging_to_stable_after_window_with_saturation() {
    let base = Instant { nanos: 1_000 };
    let mut t = tracker(base);
    t.evaluate(d(2), true, base).expect("to converging");

    // Saturated but depth moved more recently than the window: hold.
    assert_eq!(t.evaluate(d(2), true, base.plus(Duration::from_secs(30))), None);
    assert_eq!(t.phase(), TopologyPhase::Converging);

    let transition = t
        .evaluate(d(2), true, base.plus(WINDOW))
        .expect("window elapsed with saturation");
    assert_eq!(transition.from, TopologyPhase::Converging);
    assert_eq!(transition.to, TopologyPhase::Stable);
    assert_eq!(transition.time_in_phase, WINDOW);
}

#[test]
fn converging_holds_without_saturation_even_after_window() {
    let base = Instant { nanos: 1_000 };
    let mut t = tracker(base);
    t.evaluate(d(2), false, base).expect("to converging");

    assert_eq!(t.evaluate(d(2), false, after(base, WINDOW, 2)), None);
    assert_eq!(t.phase(), TopologyPhase::Converging);

    // Saturation arriving later (depth long steady) completes the climb.
    let transition = t
        .evaluate(d(2), true, after(base, WINDOW, 3))
        .expect("saturation reached");
    assert_eq!(transition.to, TopologyPhase::Stable);
}

#[test]
fn stable_falls_back_to_converging_on_depth_change() {
    let base = Instant { nanos: 1_000 };
    let mut t = tracker(base);
    t.evaluate(d(2), true, base).expect("to converging");
    t.evaluate(d(2), true, base.plus(WINDOW)).expect("to stable");

    let transition = t
        .evaluate(d(3), true, after(base, WINDOW, 2))
        .expect("depth moved");
    assert_eq!(transition.from, TopologyPhase::Stable);
    assert_eq!(transition.to, TopologyPhase::Converging);
}

#[test]
fn stable_falls_back_to_converging_on_saturation_loss() {
    let base = Instant { nanos: 1_000 };
    let mut t = tracker(base);
    t.evaluate(d(2), true, base).expect("to converging");
    t.evaluate(d(2), true, base.plus(WINDOW)).expect("to stable");

    let transition = t
        .evaluate(d(2), false, base.plus(WINDOW).plus(Duration::from_secs(1)))
        .expect("saturation lost");
    assert_eq!(transition.from, TopologyPhase::Stable);
    assert_eq!(transition.to, TopologyPhase::Converging);
}

#[test]
fn collapse_to_depth_zero_returns_to_bootstrap() {
    let base = Instant { nanos: 1_000 };
    let mut t = tracker(base);
    t.evaluate(d(2), true, base).expect("to converging");
    t.evaluate(d(2), true, base.plus(WINDOW)).expect("to stable");

    let transition = t
        .evaluate(d(0), false, after(base, WINDOW, 2))
        .expect("depth collapsed");
    assert_eq!(transition.from, TopologyPhase::Stable);
    assert_eq!(transition.to, TopologyPhase::Bootstrap);
}

#[test]
fn churn_within_window_produces_no_transition_spam() {
    let base = Instant { nanos: 1_000 };
    let mut t = tracker(base);
    t.evaluate(d(2), true, base).expect("to converging");

    // Depth flaps every few seconds; the derived phase never leaves
    // Converging, so no transitions are committed.
    for i in 1..20u64 {
        let depth = if i % 2 == 0 { d(2) } else { d(3) };
        assert_eq!(
            t.evaluate(depth, true, base.plus(Duration::from_secs(i * 5))),
            None
        );
    }
    assert_eq!(t.phase(), TopologyPhase::Converging);

    // Only once depth holds still for the full window does it settle.
    let settled = base.plus(Duration::from_secs(19 * 5)).plus(WINDOW);
    let transition = t.evaluate(d(3), true, settled).expect("settled");
    assert_eq!(transition.to, TopologyPhase::Stable);
}

#[test]
fn time_in_phase_resets_on_transition() {
    let base = Instant { nanos: 1_000 };
    let mut t = tracker(base);
    t.evaluate(d(2), true, base.plus(Duration::from_secs(10)))
        .expect("to converging");
    assert_eq!(
        t.time_in_phase(base.plus(Duration::from_secs(25))),
        Duration::from_secs(15)
    );
}

#[test]
fn phase_labels_are_snake_case() {
    let labels: Vec<&'static str> = TopologyPhase::ALL.iter().map(|p| p.label()).collect();
    assert_eq!(labels, ["bootstrap", "converging", "stable"]);
}
