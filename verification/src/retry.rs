//! The retry discipline of a day-task: what to do after each fetch attempt.

use vstd::prelude::*;
use crate::calendar::DayUnit;
use crate::message::ChatMessage;

verus! {

/// Why a fetch attempt gave no transcript batch.
#[derive(Debug, Clone, Copy, PartialEq, Eq, Structural)]
pub enum FetchError {
    /// The network call itself failed.
    Transport,
    /// The call went through, but the body was not a transcript.
    Parse,
}

/// How often a day-task tries, and how long it waits after a failure.
#[derive(Debug, Clone, Copy, PartialEq, Eq, Structural)]
pub struct RetryPolicy {
    /// The attempt budget of one day-task.
    pub max_attempts: u32,
    /// The seconds to wait after each failed attempt.
    pub retry_delay_secs: u64,
}

impl RetryPolicy {
    /// A policy with the given attempt budget and delay.
    pub fn new(max_attempts: u32, retry_delay_secs: u64) -> (p: RetryPolicy)
        ensures
            p == (RetryPolicy { max_attempts, retry_delay_secs }),
    {
        RetryPolicy { max_attempts, retry_delay_secs }
    }

    /// The policy of the channel-wide retrieval: five attempts, 25 seconds
    /// apart.
    pub fn channel_history() -> (p: RetryPolicy)
        ensures
            p == (RetryPolicy { max_attempts: 5, retry_delay_secs: 25 }),
    {
        RetryPolicy { max_attempts: 5, retry_delay_secs: 25 }
    }
}

/// Where a day-task stands.
#[derive(Debug, Clone, Copy, PartialEq, Eq, Structural)]
pub enum TaskState {
    /// The task wants (another) fetch attempt.
    Pending,
    /// An attempt succeeded and its batch was handed out.
    Delivered,
    /// The attempt budget is spent without a success.
    Abandoned,
}

/// What the caller of a day-task does next.
#[derive(Debug)]
pub enum TaskStep {
    /// Merge this batch into the transcript; the task is over.
    Deliver(Vec<ChatMessage>),
    /// Wait for so many seconds, then look at the task's state again.
    Backoff(u64),
}

/// The retrieval of one day-unit: a fetch that is repeated after each
/// failure until it succeeds or the attempt budget is spent.
#[derive(Debug)]
pub struct DayTask {
    day: DayUnit,
    policy: RetryPolicy,
    failures: u32,
    state: TaskState,
}

/// The state of a task with the attempt budget `budget` after `failures`
/// failed attempts and no success.
pub open spec fn state_after_failures(failures: nat, budget: nat) -> TaskState {
    if failures < budget {
        TaskState::Pending
    } else {
        TaskState::Abandoned
    }
}

/// Attempt `i` of `outcomes` is the first success, and within the budget.
pub open spec fn delivers_at(
    outcomes: Seq<Result<Vec<ChatMessage>, FetchError>>,
    budget: nat,
    i: int,
) -> bool {
    &&& 0 <= i < outcomes.len()
    &&& i < budget
    &&& outcomes[i] is Ok
    &&& forall|j: int| 0 <= j < i ==> (#[trigger] outcomes[j]) is Err
}

/// What a day-task with the attempt budget `budget` yields when its attempts
/// end as `outcomes` say, one after the other: the batch of the first
/// success, if one of the first `budget` attempts succeeds.
pub open spec fn day_yield(
    outcomes: Seq<Result<Vec<ChatMessage>, FetchError>>,
    budget: nat,
) -> Option<Seq<ChatMessage>> {
    if exists|i: int| delivers_at(outcomes, budget, i) {
        let i = choose|i: int| delivers_at(outcomes, budget, i);
        Some(outcomes[i]->Ok_0@)
    } else {
        None
    }
}

/// Every one of the first `budget` attempts of `outcomes` fails.
pub open spec fn fails_throughout(
    outcomes: Seq<Result<Vec<ChatMessage>, FetchError>>,
    budget: nat,
) -> bool {
    forall|j: int| 0 <= j < outcomes.len() && j < budget ==> (#[trigger] outcomes[j]) is Err
}

/// At most one attempt is the first success.
pub proof fn lemma_delivers_at_unique(
    outcomes: Seq<Result<Vec<ChatMessage>, FetchError>>,
    budget: nat,
    i: int,
    j: int,
)
    requires
        delivers_at(outcomes, budget, i),
        delivers_at(outcomes, budget, j),
    ensures
        i == j,
{
    if i < j {
        assert(outcomes[i] is Err);
    }
    if j < i {
        assert(outcomes[j] is Err);
    }
}

/// A day-task whose attempts all fail yields nothing.
pub proof fn lemma_failing_day_yields_nothing(
    outcomes: Seq<Result<Vec<ChatMessage>, FetchError>>,
    budget: nat,
)
    requires
        fails_throughout(outcomes, budget),
    ensures
        day_yield(outcomes, budget) is None,
{
    assert forall|i: int| !delivers_at(outcomes, budget, i) by {
        if delivers_at(outcomes, budget, i) {
            assert(outcomes[i] is Err);
        }
    }
}

impl DayTask {
    /// The day-unit that the task retrieves.
    pub closed spec fn day_spec(&self) -> DayUnit {
        self.day
    }

    /// The policy that the task follows.
    pub closed spec fn policy_spec(&self) -> RetryPolicy {
        self.policy
    }

    /// The number of failed attempts so far.
    pub closed spec fn failures_spec(&self) -> nat {
        self.failures as nat
    }

    /// Where the task stands.
    pub closed spec fn state_spec(&self) -> TaskState {
        self.state
    }

    /// The invariant of a task: it has failed no more often than its budget
    /// allows; it is pending only while budget is left, and abandoned only
    /// once the budget is spent.
    pub closed spec fn wf(&self) -> bool {
        &&& self.failures <= self.policy.max_attempts
        &&& self.state == TaskState::Pending ==> self.failures < self.policy.max_attempts
        &&& self.state == TaskState::Abandoned ==> self.failures == self.policy.max_attempts
    }

    /// A task that has not tried yet. With an attempt budget of zero it is
    /// abandoned from the start.
    pub fn new(day: DayUnit, policy: RetryPolicy) -> (t: DayTask)
        ensures
            t.wf(),
            t.day_spec() == day,
            t.policy_spec() == policy,
            t.failures_spec() == 0,
            t.state_spec() == state_after_failures(0, policy.max_attempts as nat),
    {
        let state = if policy.max_attempts == 0 {
            TaskState::Abandoned
        } else {
            TaskState::Pending
        };
        DayTask { day, policy, failures: 0, state }
    }

    /// The day-unit that the task retrieves.
    pub fn day(&self) -> (d: DayUnit)
        ensures
            d == self.day_spec(),
    {
        self.day
    }

    /// Where the task stands.
    pub fn state(&self) -> (s: TaskState)
        ensures
            s == self.state_spec(),
    {
        self.state
    }

    /// The number of failed attempts so far.
    pub fn failures(&self) -> (n: u32)
        ensures
            n as nat == self.failures_spec(),
    {
        self.failures
    }

    /// Whether the task wants a fetch attempt.
    pub fn is_pending(&self) -> (r: bool)
        ensures
            r == (self.state_spec() == TaskState::Pending),
    {
        self.state == TaskState::Pending
    }

    /// Takes in how a fetch attempt ended and says what to do next.
    ///
    /// A success hands the batch out for merging and ends the task. A
    /// failure, of either kind, costs one attempt and asks for the policy's
    /// delay; after that the task is pending again if budget is left, and
    /// abandoned if not.
    pub fn settle(&mut self, outcome: Result<Vec<ChatMessage>, FetchError>) -> (step: TaskStep)
        requires
            old(self).wf(),
            old(self).state_spec() == TaskState::Pending,
        ensures
            final(self).wf(),
            final(self).day_spec() == old(self).day_spec(),
            final(self).policy_spec() == old(self).policy_spec(),
            match outcome {
                Ok(batch) => {
                    &&& step == TaskStep::Deliver(batch)
                    &&& final(self).state_spec() == TaskState::Delivered
                    &&& final(self).failures_spec() == old(self).failures_spec()
                },
                Err(_) => {
                    &&& step == TaskStep::Backoff(old(self).policy_spec().retry_delay_secs)
                    &&& final(self).failures_spec() == old(self).failures_spec() + 1
                    &&& final(self).state_spec() == state_after_failures(
                        old(self).failures_spec() + 1,
                        old(self).policy_spec().max_attempts as nat,
                    )
                },
            },
    {
        match outcome {
            Ok(batch) => {
                self.state = TaskState::Delivered;
                TaskStep::Deliver(batch)
            },
            Err(_) => {
                self.failures = self.failures + 1;
                if self.failures >= self.policy.max_attempts {
                    self.state = TaskState::Abandoned;
                }
                TaskStep::Backoff(self.policy.retry_delay_secs)
            },
        }
    }
}

/// Runs a day-task over attempts that end as `outcomes` say, one after the
/// other, for as long as the task wants attempts and outcomes are left.
/// Gives the batch that the task hands out, if it hands one out.
pub fn replay_day(
    day: DayUnit,
    policy: RetryPolicy,
    outcomes: Vec<Result<Vec<ChatMessage>, FetchError>>,
) -> (r: Option<Vec<ChatMessage>>)
    ensures
        match r {
            Some(batch) => day_yield(outcomes@, policy.max_attempts as nat) == Some(batch@),
            None => day_yield(outcomes@, policy.max_attempts as nat) is None,
        },
{
    let mut task = DayTask::new(day, policy);
    let ghost budget = policy.max_attempts as nat;
    let ghost all = outcomes@;
    for outcome in it: outcomes
        invariant
            all == it.seq(),
            budget == policy.max_attempts as nat,
            task.wf(),
            task.policy_spec() == policy,
            task.failures_spec() == it.index(),
            task.state_spec() == state_after_failures(it.index() as nat, budget),
            forall|j: int| 0 <= j < it.index() ==> (#[trigger] all[j]) is Err,
    {
        if task.is_pending() {
            let ghost at = it.index() as int;
            match task.settle(outcome) {
                TaskStep::Deliver(batch) => {
                    proof {
                        assert(delivers_at(all, budget, at));
                        let i = choose|i: int| delivers_at(all, budget, i);
                        lemma_delivers_at_unique(all, budget, i, at);
                    }
                    return Some(batch);
                },
                TaskStep::Backoff(_) => {},
            }
        } else {
            proof {
                assert forall|i: int| !delivers_at(all, budget, i) by {
                    if delivers_at(all, budget, i) {
                        if i < it.index() {
                            assert(all[i] is Err);
                        }
                    }
                }
            }
            return None;
        }
    }
    proof {
        assert forall|i: int| !delivers_at(all, budget, i) by {
            if delivers_at(all, budget, i) {
                assert(all[i] is Err);
            }
        }
    }
    None
}

} // verus!
