//! Spawned tasks: how they are counted, and what a panic of one leads to.

use vstd::prelude::*;

verus! {

/// Spawns tasks on the current runtime.
#[derive(Clone, Copy, Debug, PartialEq, Eq, Structural)]
pub struct TokioTaskExecutor;

impl Default for TokioTaskExecutor {
    fn default() -> (executor: TokioTaskExecutor)
        ensures
            executor == TokioTaskExecutor,
    {
        TokioTaskExecutor
    }
}

/// No task executor has been set up.
#[derive(Clone, Copy, Debug, PartialEq, Eq, Structural)]
pub struct NoCurrentTaskExecutorError;

impl NoCurrentTaskExecutorError {
    /// The error as text.
    pub fn message(&self) -> (text: &'static str)
        ensures
            text@ == "No current task executor available."@,
    {
        "No current task executor available."
    }
}

/// How a task is run.
#[derive(Clone, Copy, Debug, PartialEq, Eq, Structural)]
pub enum TaskKind {
    /// On the runtime.
    Default,
    /// On a thread of its own that may block.
    Blocking,
}

/// What a panicking task left behind.
#[derive(Debug)]
pub enum PanicPayload {
    /// A message, owned or static.
    Text(String),
    /// Something that is not text.
    Opaque,
}

/// The name of the task that panicked, and its message if it had one.
#[derive(Debug)]
pub struct PanickedTaskError {
    pub task_name: String,
    pub error: Option<String>,
}

impl PanickedTaskError {
    /// The error of a task that panicked.
    pub fn new(task_name: String, payload: PanicPayload) -> (error: PanickedTaskError)
        ensures
            error.task_name == task_name,
            error.error == (match payload {
                PanicPayload::Text(text) => Some(text),
                PanicPayload::Opaque => None,
            }),
    {
        let error: Option<String> = match payload {
            PanicPayload::Text(text) => Some(text),
            PanicPayload::Opaque => None,
        };
        PanickedTaskError { task_name, error }
    }

    /// The error as text.
    pub fn message(&self) -> (text: String)
        ensures
            text@ == (match self.error {
                Some(error) => "Critical task `"@ + self.task_name@ + "` panicked: `"@ + error@
                    + "`"@,
                None => "Critical task `"@ + self.task_name@ + "` panicked"@,
            }),
    {
        let mut text: String = String::from_str("Critical task `");
        text.append(self.task_name.as_str());
        match &self.error {
            Some(error) => {
                text.append("` panicked: `");
                text.append(error.as_str());
                text.append("`");
            },
            None => {
                text.append("` panicked");
            },
        }
        text
    }
}

/// What the task manager hears of.
#[derive(Debug)]
pub enum TaskEvent {
    /// A critical task panicked.
    Panic(PanickedTaskError),
    /// A graceful shutdown was asked for.
    GracefulShutdown,
}

/// The task manager's part that decides: whether the shutdown signal is still
/// to be fired.
#[derive(Clone, Copy, Debug, PartialEq, Eq, Structural)]
pub struct TaskMonitor {
    pub signal_armed: bool,
}

/// How the task manager ends.
#[derive(Debug)]
pub struct MonitorOutcome {
    /// Fire the shutdown signal.
    pub fire: bool,
    pub result: Result<(), PanickedTaskError>,
}

impl TaskMonitor {
    /// The signal has not been fired.
    pub fn new() -> (monitor: TaskMonitor)
        ensures
            monitor.signal_armed,
    {
        TaskMonitor { signal_armed: true }
    }

    /// An event arrived, or `None` once no task can send one any more. A panic
    /// is the manager's error; anything else fires the signal, once, and ends
    /// the manager.
    pub fn on_event(&mut self, event: Option<TaskEvent>) -> (outcome: MonitorOutcome)
        ensures
            match event {
                Some(TaskEvent::Panic(error)) => {
                    &&& *final(self) == *old(self)
                    &&& !outcome.fire
                    &&& outcome.result == Err::<(), PanickedTaskError>(error)
                },
                _ => {
                    &&& !final(self).signal_armed
                    &&& outcome.fire == old(self).signal_armed
                    &&& outcome.result == Ok::<(), PanickedTaskError>(())
                },
            },
    {
        match event {
            Some(TaskEvent::Panic(error)) => MonitorOutcome { fire: false, result: Err(error) },
            Some(TaskEvent::GracefulShutdown) | None => {
                let fire: bool = self.signal_armed;
                self.signal_armed = false;
                MonitorOutcome { fire, result: Ok(()) }
            },
        }
    }
}

/// The metrics of a spawned task.
#[derive(Clone, Copy, Debug)]
pub struct TaskMetrics {
    /// Counter of spawned tasks.
    pub spawned: &'static str,
    /// Counter of finished tasks.
    pub finished: &'static str,
    /// Type label of the running gauge.
    pub running_type: &'static str,
    /// Graceful label of the running gauge.
    pub graceful: &'static str,
}

/// Names the metrics of spawned tasks.
#[derive(Clone, Copy, Debug, PartialEq, Eq, Structural)]
pub struct TaskExecutorMetrics;

impl Default for TaskExecutorMetrics {
    fn default() -> (metrics: TaskExecutorMetrics)
        ensures
            metrics == TaskExecutorMetrics,
    {
        TaskExecutorMetrics
    }
}

impl TaskExecutorMetrics {
    /// The metrics of a task that is not critical.
    pub fn regular_task(&self, kind: TaskKind, graceful: bool) -> (metrics: TaskMetrics)
        ensures
            metrics.spawned@ == (match kind {
                TaskKind::Default => "executor_spawn_regular_tasks_total"@,
                TaskKind::Blocking => "executor_spawn_regular_blocking_tasks_total"@,
            }),
            metrics.finished@ == (match kind {
                TaskKind::Default => "executor_spawn_finished_regular_tasks_total"@,
                TaskKind::Blocking => "executor_spawn_finished_regular_blocking_tasks_total"@,
            }),
            metrics.running_type@ == (match kind {
                TaskKind::Default => "regular"@,
                TaskKind::Blocking => "blocking"@,
            }),
            metrics.graceful@ == spec_graceful_label(graceful),
    {
        match kind {
            TaskKind::Default => TaskMetrics {
                spawned: "executor_spawn_regular_tasks_total",
                finished: "executor_spawn_finished_regular_tasks_total",
                running_type: "regular",
                graceful: graceful_label(graceful),
            },
            TaskKind::Blocking => TaskMetrics {
                spawned: "executor_spawn_regular_blocking_tasks_total",
                finished: "executor_spawn_finished_regular_blocking_tasks_total",
                running_type: "blocking",
                graceful: graceful_label(graceful),
            },
        }
    }

    /// The metrics of a critical task.
    pub fn critical_task(&self, graceful: bool) -> (metrics: TaskMetrics)
        ensures
            metrics.spawned@ == "executor_spawn_critical_tasks_total"@,
            metrics.finished@ == "executor_spawn_finished_critical_tasks_total"@,
            metrics.running_type@ == "critical"@,
            metrics.graceful@ == spec_graceful_label(graceful),
    {
        TaskMetrics {
            spawned: "executor_spawn_critical_tasks_total",
            finished: "executor_spawn_finished_critical_tasks_total",
            running_type: "critical",
            graceful: graceful_label(graceful),
        }
    }
}

/// The label of whether a task takes part in graceful shutdown.
pub open spec fn spec_graceful_label(graceful: bool) -> Seq<char> {
    if graceful {
        "true"@
    } else {
        "false"@
    }
}

fn graceful_label(graceful: bool) -> (label: &'static str)
    ensures
        label@ == spec_graceful_label(graceful),
{
    if graceful {
        "true"
    } else {
        "false"
    }
}

} // verus!
