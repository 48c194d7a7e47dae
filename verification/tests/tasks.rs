use vertex_topology::tasks::executor::{
    PanicPayload, PanickedTaskError, TaskEvent, TaskExecutorMetrics, TaskKind, TaskMonitor,
};
use vertex_topology::tasks::interval::{interval, interval_after};
use vertex_topology::tasks::shutdown::{GracefulShutdown, GracefulShutdownCounter, WaitStep};
use vertex_topology::tasks::timer::{timer_millis, Elapsed};
use vertex_topology::tasks::wall::WallClock;
use vertex_topology::time::{Duration, Instant};

fn at(secs: u64) -> Instant {
    Instant { nanos: 1_000 }.plus(Duration::from_secs(secs))
}

#[test]
fn interval_first_tick_is_immediate() {
    let mut ticker = interval(Duration::from_secs(5));
    assert!(ticker.poll_tick(at(0)));
}

#[test]
fn interval_subsequent_ticks_are_period_apart() {
    let mut ticker = interval(Duration::from_secs(5));
    assert!(ticker.poll_tick(at(0)));
    assert!(!ticker.poll_tick(at(0)));
    assert!(!ticker.poll_tick(at(4)));
    assert!(ticker.poll_tick(at(5)));
    assert!(!ticker.poll_tick(at(9)));
    assert!(ticker.poll_tick(at(10)));
}

#[test]
fn interval_after_first_tick_is_delayed() {
    let mut ticker = interval_after(Duration::from_secs(2), Duration::from_secs(5));
    assert!(!ticker.poll_tick(at(0)));
    assert!(!ticker.poll_tick(at(1)));
    assert!(ticker.poll_tick(at(2)));
    assert!(!ticker.poll_tick(at(6)));
    assert!(ticker.poll_tick(at(7)));
}

#[test]
fn period_returns_configured_period() {
    let ticker = interval(Duration::from_secs(3));
    assert_eq!(ticker.period(), Duration::from_secs(3));
    let ticker = interval_after(Duration::from_secs(1), Duration::from_secs(4));
    assert_eq!(ticker.period(), Duration::from_secs(4));
}

#[test]
fn elapsed_metric_label() {
    let label: &'static str = (&Elapsed).into();
    assert_eq!(label, "elapsed");
}

#[test]
fn elapsed_reads_as_a_passed_deadline() {
    assert_eq!(Elapsed.message(), "deadline elapsed");
}

#[test]
fn timer_spans_clamp_to_their_widest() {
    assert_eq!(timer_millis(Duration::from_secs(2)), 2_000);
    assert_eq!(timer_millis(Duration::from_secs(10_000_000)), u32::MAX);
}

#[test]
fn unix_clock_rides_the_paused_timer_clock() {
    let clock = WallClock::anchored(at(0));
    let secs = clock.now_unix_secs(at(0));
    let millis = clock.now_unix_millis(at(0));
    let nanos = clock.now_unix_nanos(at(0));
    // 2023-01-01T00:00:00Z: the anchor samples the real platform clock.
    assert!(secs > 1_672_531_200);
    assert!(millis / 1000 >= secs);
    assert!(nanos > 0);

    // The timer clock moves by hand, so the delta is exactly the advance.
    assert_eq!(clock.now_unix_secs(at(120)) - secs, 120);
    assert_eq!(clock.now_unix_millis(at(120)) - millis, 120_000);
}

#[test]
fn test_counter_wait_immediate() {
    let counter = GracefulShutdownCounter::new();
    assert_eq!(counter.wait(), WaitStep::Done(true));
}

#[test]
fn test_counter_wait_timeout_immediate() {
    let counter = GracefulShutdownCounter::new();
    assert_eq!(counter.wait_until(at(1), at(0), false), WaitStep::Done(true));
}

#[test]
fn test_counter_decrement_wakes() {
    let mut counter = GracefulShutdownCounter::new();
    counter.increment();
    assert!(matches!(counter.wait_until(at(5), at(0), false), WaitStep::BlockFor(_)));

    assert!(counter.decrement(), "the last task wakes the waiter");
    assert_eq!(counter.wait_until(at(5), at(1), false), WaitStep::Done(true));
}

#[test]
fn test_counter_timeout_expires() {
    let mut counter = GracefulShutdownCounter::new();
    counter.increment();
    assert_eq!(counter.wait_until(at(1), at(1), false), WaitStep::Done(false));
    assert_eq!(counter.wait_until(at(5), at(1), true), WaitStep::Done(false));
    // Clean up
    counter.decrement();
    assert_eq!(counter.load(), 0);
}

#[test]
fn test_graceful_shutdown_is_fused() {
    let mut counter = GracefulShutdownCounter::new();
    let mut gs = GracefulShutdown::new(&mut counter);
    assert_eq!(counter.load(), 1);

    assert!(!gs.is_terminated(), "should not be terminated before completion");
    assert!(!gs.poll(false));

    assert!(gs.poll(true));
    assert!(gs.is_terminated(), "should be terminated after completion");

    assert!(!gs.poll(true), "re-polling a completed shutdown stays pending");
}

#[test]
fn a_duplicate_counts_only_while_it_guards() {
    let mut counter = GracefulShutdownCounter::new();
    let mut gs = GracefulShutdown::new(&mut counter);
    let copy = gs.duplicate(&mut counter);
    assert_eq!(counter.load(), 2);
    assert!(!copy.is_terminated());
    gs.poll(true);
    gs.duplicate(&mut counter);
    assert_eq!(counter.load(), 2);
}

#[test]
fn a_panic_reads_with_its_task_and_text() {
    let error = PanickedTaskError::new(
        String::from("sync"),
        PanicPayload::Text(String::from("boom")),
    );
    assert_eq!(error.message(), "Critical task `sync` panicked: `boom`");
    let error = PanickedTaskError::new(String::from("sync"), PanicPayload::Opaque);
    assert_eq!(error.message(), "Critical task `sync` panicked");
}

#[test]
fn the_monitor_reports_a_panic_and_fires_on_a_graceful_stop() {
    let mut monitor = TaskMonitor::new();
    let error = PanickedTaskError::new(String::from("sync"), PanicPayload::Opaque);
    let outcome = monitor.on_event(Some(TaskEvent::Panic(error)));
    assert!(outcome.result.is_err());
    assert!(!outcome.fire);

    let outcome = monitor.on_event(Some(TaskEvent::GracefulShutdown));
    assert!(outcome.result.is_ok());
    assert!(outcome.fire);
    let again = monitor.on_event(Some(TaskEvent::GracefulShutdown));
    assert!(!again.fire);
}

#[test]
fn task_counters_are_named_by_kind() {
    let metrics = TaskExecutorMetrics::default();
    assert_eq!(
        metrics.regular_task(TaskKind::Default, false).spawned,
        "executor_spawn_regular_tasks_total"
    );
    assert_eq!(
        metrics.regular_task(TaskKind::Blocking, false).spawned,
        "executor_spawn_regular_blocking_tasks_total"
    );
    assert_eq!(metrics.critical_task(false).running_type, "critical");
}

#[test]
fn a_late_poll_does_not_burst() {
    let mut ticker = interval(Duration::from_secs(5));
    assert!(ticker.poll_tick(at(0)));
    assert!(ticker.poll_tick(at(23)));
    assert!(!ticker.poll_tick(at(27)));
    assert!(ticker.poll_tick(at(28)));
}

#[test]
fn a_period_beyond_the_clock_never_ends() {
    let mut ticker = interval(Duration { nanos: u128::MAX });
    assert!(ticker.poll_tick(at(1)));
    assert!(!ticker.poll_tick(Instant { nanos: u128::MAX }));
}

#[test]
fn an_armed_timer_knows_its_wait() {
    let mut ticker = interval_after(Duration::from_secs(3), Duration::from_secs(5));
    assert!(!ticker.poll_tick(at(10)));
    let armed = ticker.timer.expect("the first poll arms the timer");
    assert_eq!(armed.time_left(at(10)), Duration::from_secs(3));
    assert_eq!(armed.time_left(at(12)), Duration::from_secs(1));
    assert_eq!(armed.time_left(at(14)), Duration::from_secs(0));
    assert_eq!(armed.time_left(at(9)), Duration::from_secs(4));
}
