//! The periodic cleanup task, as decisions from events to actions.
//!
//! The task runs one cleanup pass, sleeps for the interval, and starts over,
//! forever: the outcome of a pass never changes what comes next. The caller
//! performs each action (runs the pass, sleeps) and reports what happened
//! as the next event.
use vstd::prelude::*;

verus! {

/// What a retention task works on: the directory, the file prefix, the
/// time between passes in seconds, and how many recent files to keep.
#[derive(Debug)]
pub struct CleanupTask {
    pub directory_path: String,
    pub prefix: String,
    pub interval_secs: u64,
    pub keep_last: usize,
}

/// What the caller of the scheduler reports.
#[derive(Clone, Copy, Debug, PartialEq, Eq, Structural)]
pub enum SchedulerEvent {
    /// The task has just been launched.
    Started,
    /// A cleanup pass returned, successfully or not.
    PassFinished { succeeded: bool },
    /// The sleep between two passes is over.
    Woke,
    /// The owner of a stoppable task asked it to end.
    StopRequested,
}

/// What the scheduler asks its caller to do next.
#[derive(Clone, Copy, Debug, PartialEq, Eq, Structural)]
pub enum SchedulerAction {
    /// Run one cleanup pass and report its outcome.
    RunPass,
    /// Sleep this many seconds, then report `Woke`.
    Sleep { seconds: u64 },
    /// End the task.
    Stop,
}

/// The fixed-interval scheduler of cleanup passes.
#[derive(Clone, Copy, Debug)]
pub struct RetentionScheduler {
    pub interval_secs: u64,
}

pub open spec fn next_action_spec(interval_secs: u64, event: SchedulerEvent) -> SchedulerAction {
    match event {
        SchedulerEvent::Started => SchedulerAction::RunPass,
        SchedulerEvent::PassFinished { .. } => SchedulerAction::Sleep { seconds: interval_secs },
        SchedulerEvent::Woke => SchedulerAction::RunPass,
        SchedulerEvent::StopRequested => SchedulerAction::Stop,
    }
}

/// The actions chosen by a task that has run one pass per outcome in
/// `outcomes` (true: the pass succeeded), from its start up to the sleep
/// that follows the last of them.
pub open spec fn loop_actions(interval_secs: u64, outcomes: Seq<bool>) -> Seq<SchedulerAction>
    decreases outcomes.len(),
{
    if outcomes.len() == 0 {
        Seq::empty()
    } else {
        let wake = if outcomes.len() == 1 {
            SchedulerEvent::Started
        } else {
            SchedulerEvent::Woke
        };
        loop_actions(interval_secs, outcomes.drop_last()).push(
            next_action_spec(interval_secs, wake),
        ).push(
            next_action_spec(
                interval_secs,
                SchedulerEvent::PassFinished { succeeded: outcomes.last() },
            ),
        )
    }
}

impl RetentionScheduler {
    pub fn new(interval_secs: u64) -> (r: Self)
        ensures
            r.interval_secs == interval_secs,
    {
        RetentionScheduler { interval_secs }
    }

    /// A pass right after the start and after every sleep; a sleep of the
    /// interval after every pass, whether it failed or not; an end only when
    /// asked for.
    pub fn next_action(&self, event: SchedulerEvent) -> (r: SchedulerAction)
        ensures
            r == next_action_spec(self.interval_secs, event),
    {
        match event {
            SchedulerEvent::Started => SchedulerAction::RunPass,
            SchedulerEvent::PassFinished { .. } => SchedulerAction::Sleep {
                seconds: self.interval_secs,
            },
            SchedulerEvent::Woke => SchedulerAction::RunPass,
            SchedulerEvent::StopRequested => SchedulerAction::Stop,
        }
    }
}

/// Whatever the outcomes of its passes, a task that is not stopped runs a
/// pass, then sleeps for the interval, then runs the next pass: after `n`
/// passes it has chosen exactly `n` passes and `n` sleeps, alternating, and
/// never to stop.
pub proof fn lemma_passes_continue_after_failures(interval_secs: u64, outcomes: Seq<bool>)
    ensures
        loop_actions(interval_secs, outcomes).len() == 2 * outcomes.len(),
        forall|i: int|
            0 <= i < outcomes.len() ==> #[trigger] loop_actions(interval_secs, outcomes)[2 * i]
                == SchedulerAction::RunPass && loop_actions(interval_secs, outcomes)[2 * i + 1]
                == (SchedulerAction::Sleep { seconds: interval_secs }),
    decreases outcomes.len(),
{
    if outcomes.len() > 0 {
        let init = outcomes.drop_last();
        lemma_passes_continue_after_failures(interval_secs, init);
        let acts = loop_actions(interval_secs, outcomes);
        let before = loop_actions(interval_secs, init);
        assert forall|i: int| 0 <= i < outcomes.len() implies #[trigger] acts[2 * i]
            == SchedulerAction::RunPass && acts[2 * i + 1] == (SchedulerAction::Sleep {
            seconds: interval_secs,
        }) by {
            if i < init.len() {
                assert(acts[2 * i] == before[2 * i]);
                assert(acts[2 * i + 1] == before[2 * i + 1]);
            }
        }
    }
}

} // verus!
