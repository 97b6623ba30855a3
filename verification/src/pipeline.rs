//! The submission pipeline, as a state machine.
//!
//! The caller owns the connection to the ledger. It performs the action
//! that the pipeline asks for, reports what came of it as a [`Signal`], and
//! gets the next action, until the action is [`Action::Finish`].
//!
//! An operation is submitted once. Its status is then polled, with a wait
//! before each poll that doubles up to a cap, until the ledger gives a final
//! status or the waits would exceed the deadline. After a transient failure
//! of the submission itself, any operation but a bid is submitted again; a
//! bid is never submitted twice, its status is asked for instead.

use crate::model::CommandKind;
use vstd::prelude::*;

verus! {

/// The limits of the confirmation wait. Times are in milliseconds.
#[derive(Clone, Copy, Debug, PartialEq, Eq, Structural)]
pub struct RetryPolicy {
    /// The wait before the first poll or resubmission.
    pub initial_delay: u64,
    /// The longest single wait.
    pub max_delay: u64,
    /// The longest that all waits together may take.
    pub deadline: u64,
}

/// The status of a submitted operation, as the ledger reports it.
#[derive(Clone, Copy, Debug, PartialEq, Eq, Structural)]
pub enum LedgerStatus {
    Pending,
    /// Final: recorded by the ledger under `sequence`.
    Success { sequence: u64 },
    /// Final: refused by the ledger, with its status code.
    Rejected { code: u64 },
}

/// What came of the action that the pipeline asked for.
#[derive(Clone, Copy, Debug, PartialEq, Eq, Structural)]
pub enum Signal {
    /// The ledger took the submission and gave a pending handle.
    Accepted,
    /// The ledger answered a status query.
    Status(LedgerStatus),
    /// The call did not get through. A transient failure may pass; another
    /// one will not.
    TransportFailure { transient: bool },
    /// The caller gave up waiting.
    Cancelled,
}

/// The record of a confirmed operation.
#[derive(Clone, Copy, Debug, PartialEq, Eq, Structural)]
pub struct Receipt {
    /// The sequence number under which the ledger recorded the operation.
    pub sequence: u64,
}

/// Why a submission was not confirmed.
#[derive(Clone, Copy, Debug, PartialEq, Eq, Structural)]
pub enum SubmissionError {
    /// The ledger refused the operation.
    Rejected { status: u64 },
    /// No final status in time: the outcome is unknown, not a failure.
    Timeout,
    /// The ledger cannot be reached.
    Transport,
}

/// How a submission ended.
#[derive(Clone, Copy, Debug, PartialEq, Eq, Structural)]
pub enum Outcome {
    Confirmed(Receipt),
    Failed(SubmissionError),
}

/// What the caller is to do next.
#[derive(Clone, Copy, Debug, PartialEq, Eq, Structural)]
pub enum Action {
    /// Wait for `after` milliseconds, then submit the operation.
    Submit { after: u64 },
    /// Wait for `after` milliseconds, then ask for the status of the
    /// submission by its identifier.
    Poll { after: u64 },
    /// Stop: this is the outcome.
    Finish(Outcome),
}

#[derive(Clone, Copy, Debug, PartialEq, Eq, Structural)]
pub enum Stage {
    /// A submission is under way and has not been answered.
    Submitting,
    /// The status is being polled.
    Confirming,
    /// The outcome is known.
    Done(Outcome),
}

/// The state of one submission.
#[derive(Clone, Copy, Debug, PartialEq, Eq, Structural)]
pub struct Pipeline {
    pub kind: CommandKind,
    pub policy: RetryPolicy,
    pub stage: Stage,
    /// The sum of the waits asked for so far.
    pub waited: u64,
    /// The next wait.
    pub delay: u64,
}

impl RetryPolicy {
    /// The longest single wait; at least one millisecond.
    pub open spec fn cap(self) -> u64 {
        if self.max_delay >= 1 {
            self.max_delay
        } else {
            1
        }
    }

    /// The first wait: the initial delay, at least one millisecond and at
    /// most the cap.
    pub open spec fn first_delay(self) -> u64 {
        if self.initial_delay < 1 {
            1
        } else if self.initial_delay > self.cap() {
            self.cap()
        } else {
            self.initial_delay
        }
    }

    /// The wait after a wait of `delay`: twice as long, up to the cap.
    pub open spec fn next_delay(self, delay: u64) -> u64 {
        if 2 * delay > self.cap() {
            self.cap()
        } else {
            (2 * delay) as u64
        }
    }

    fn longest(&self) -> (r: u64)
        ensures
            r == self.cap(),
    {
        if self.max_delay >= 1 {
            self.max_delay
        } else {
            1
        }
    }

    fn first(&self) -> (r: u64)
        ensures
            r == self.first_delay(),
    {
        let cap = self.longest();
        if self.initial_delay < 1 {
            1
        } else if self.initial_delay > cap {
            cap
        } else {
            self.initial_delay
        }
    }

    fn next(&self, delay: u64) -> (r: u64)
        ensures
            r == self.next_delay(delay),
    {
        let cap = self.longest();
        if delay > cap / 2 {
            cap
        } else {
            2 * delay
        }
    }
}

/// Whether an operation of this kind may be submitted again after a
/// submission whose fate is unknown: every kind but a bid.
pub open spec fn resubmittable(kind: CommandKind) -> bool {
    kind != CommandKind::Bid
}

impl Pipeline {
    /// The state at the start, when the first submission is under way.
    pub open spec fn initial(kind: CommandKind, policy: RetryPolicy) -> Pipeline {
        Pipeline { kind, policy, stage: Stage::Submitting, waited: 0, delay: policy.first_delay() }
    }

    /// The state and the action after one more wait, or the timeout where
    /// the wait would pass the deadline.
    pub open spec fn after_wait(self, stage: Stage, resubmit: bool) -> (Pipeline, Action) {
        if self.waited + self.delay > self.policy.deadline {
            self.finished(Outcome::Failed(SubmissionError::Timeout))
        } else {
            (
                Pipeline {
                    stage,
                    waited: (self.waited + self.delay) as u64,
                    delay: self.policy.next_delay(self.delay),
                    ..self
                },
                if resubmit {
                    Action::Submit { after: self.delay }
                } else {
                    Action::Poll { after: self.delay }
                },
            )
        }
    }

    pub open spec fn finished(self, outcome: Outcome) -> (Pipeline, Action) {
        (Pipeline { stage: Stage::Done(outcome), ..self }, Action::Finish(outcome))
    }

    /// The transition function: the next state and the next action.
    pub open spec fn stepped(self, signal: Signal) -> (Pipeline, Action) {
        match self.stage {
            Stage::Done(outcome) => (self, Action::Finish(outcome)),
            _ => match signal {
                Signal::Cancelled => self.finished(Outcome::Failed(SubmissionError::Timeout)),
                Signal::TransportFailure { transient: false } => self.finished(
                    Outcome::Failed(SubmissionError::Transport),
                ),
                Signal::Status(LedgerStatus::Success { sequence }) => self.finished(
                    Outcome::Confirmed(Receipt { sequence }),
                ),
                Signal::Status(LedgerStatus::Rejected { code }) => self.finished(
                    Outcome::Failed(SubmissionError::Rejected { status: code }),
                ),
                Signal::Status(LedgerStatus::Pending) => self.after_wait(Stage::Confirming, false),
                Signal::Accepted => self.after_wait(Stage::Confirming, false),
                Signal::TransportFailure { transient: true } => if self.stage == Stage::Submitting
                    && resubmittable(self.kind) {
                    self.after_wait(Stage::Submitting, true)
                } else {
                    self.after_wait(Stage::Confirming, false)
                },
            },
        }
    }

    /// The state and the action after a submission has started and the
    /// signals have come in, in their order.
    pub open spec fn driven(kind: CommandKind, policy: RetryPolicy, signals: Seq<Signal>) -> (
        Pipeline,
        Action,
    )
        decreases signals.len(),
    {
        if signals.len() == 0 {
            (Pipeline::initial(kind, policy), Action::Submit { after: 0 })
        } else {
            Pipeline::driven(kind, policy, signals.drop_last()).0.stepped(signals.last())
        }
    }

    /// Starts a submission: the state, and the order to submit at once.
    pub fn start(kind: CommandKind, policy: RetryPolicy) -> (r: (Pipeline, Action))
        ensures
            r.0 == Pipeline::initial(kind, policy),
            r.1 == (Action::Submit { after: 0 }),
    {
        (
            Pipeline { kind, policy, stage: Stage::Submitting, waited: 0, delay: policy.first() },
            Action::Submit { after: 0 },
        )
    }

    fn finish(&self, outcome: Outcome) -> (r: (Pipeline, Action))
        ensures
            r == self.finished(outcome),
    {
        (
            Pipeline {
                kind: self.kind,
                policy: self.policy,
                stage: Stage::Done(outcome),
                waited: self.waited,
                delay: self.delay,
            },
            Action::Finish(outcome),
        )
    }

    fn wait(&self, stage: Stage, resubmit: bool) -> (r: (Pipeline, Action))
        ensures
            r == self.after_wait(stage, resubmit),
    {
        if self.waited > self.policy.deadline || self.delay > self.policy.deadline - self.waited {
            return self.finish(Outcome::Failed(SubmissionError::Timeout));
        }
        let action = if resubmit {
            Action::Submit { after: self.delay }
        } else {
            Action::Poll { after: self.delay }
        };
        (
            Pipeline {
                kind: self.kind,
                policy: self.policy,
                stage,
                waited: self.waited + self.delay,
                delay: self.policy.next(self.delay),
            },
            action,
        )
    }

    /// Takes the signal that answers the last action; gives the next state
    /// and the next action.
    pub fn step(&self, signal: Signal) -> (r: (Pipeline, Action))
        ensures
            r == self.stepped(signal),
            r.1 is Submit ==> self.kind != CommandKind::Bid,
    {
        if let Stage::Done(outcome) = self.stage {
            return (*self, Action::Finish(outcome));
        }
        match signal {
            Signal::Cancelled => self.finish(Outcome::Failed(SubmissionError::Timeout)),
            Signal::TransportFailure { transient: false } => self.finish(
                Outcome::Failed(SubmissionError::Transport),
            ),
            Signal::Status(LedgerStatus::Success { sequence }) => self.finish(
                Outcome::Confirmed(Receipt { sequence }),
            ),
            Signal::Status(LedgerStatus::Rejected { code }) => self.finish(
                Outcome::Failed(SubmissionError::Rejected { status: code }),
            ),
            Signal::Status(LedgerStatus::Pending) => self.wait(Stage::Confirming, false),
            Signal::Accepted => self.wait(Stage::Confirming, false),
            Signal::TransportFailure { transient: true } => {
                let submitting = match self.stage {
                    Stage::Submitting => true,
                    _ => false,
                };
                let bid = match self.kind {
                    CommandKind::Bid => true,
                    _ => false,
                };
                if submitting && !bid {
                    self.wait(Stage::Submitting, true)
                } else {
                    self.wait(Stage::Confirming, false)
                }
            },
        }
    }

    /// Goes through a recorded exchange: starts a submission and takes the
    /// signals one after the other; gives the state and the action after
    /// the last of them.
    pub fn run(kind: CommandKind, policy: RetryPolicy, signals: &Vec<Signal>) -> (r: (
        Pipeline,
        Action,
    ))
        ensures
            r == Pipeline::driven(kind, policy, signals@),
    {
        let mut current = Pipeline::start(kind, policy);
        let mut i: usize = 0;
        proof {
            assert(signals@.take(0).len() == 0);
        }
        while i < signals.len()
            invariant
                i <= signals.len(),
                current == Pipeline::driven(kind, policy, signals@.take(i as int)),
            decreases signals.len() - i,
        {
            proof {
                let next = signals@.take(i + 1);
                assert(next.drop_last() == signals@.take(i as int));
                assert(next.last() == signals@[i as int]);
            }
            current = current.0.step(signals[i]);
            i += 1;
        }
        proof {
            assert(signals@.take(i as int) == signals@);
        }
        current
    }
}

/// A state whose waits have not passed the deadline and whose next wait is
/// between one millisecond and the cap.
pub open spec fn within_limits(p: Pipeline) -> bool {
    &&& p.waited <= p.policy.deadline
    &&& 1 <= p.delay <= p.policy.cap()
}

/// What holds of every step from a state within its limits.
///
/// The state stays within its limits, so the waits never pass the deadline.
/// A step that does not finish asks for a wait of at least a millisecond and
/// adds it to the time waited, so a submission takes at most as many steps
/// as the deadline has milliseconds, and one more. A bid is never submitted
/// again, and no operation is submitted again once a submission has been
/// answered. A finished pipeline stays finished, with its outcome.
pub proof fn lemma_step(p: Pipeline, signal: Signal)
    requires
        within_limits(p),
    ensures
        within_limits(p.stepped(signal).0),
        p.stepped(signal).0.kind == p.kind,
        p.stepped(signal).0.policy == p.policy,
        p.stepped(signal).0.waited >= p.waited,
        match p.stepped(signal).1 {
            Action::Submit { after } => {
                &&& p.kind != CommandKind::Bid
                &&& p.stage == Stage::Submitting
                &&& signal == (Signal::TransportFailure { transient: true })
                &&& after == p.delay
                &&& p.stepped(signal).0.waited == p.waited + after
                &&& p.stepped(signal).0.stage == Stage::Submitting
            },
            Action::Poll { after } => {
                &&& after == p.delay
                &&& p.stepped(signal).0.waited == p.waited + after
                &&& p.stepped(signal).0.stage == Stage::Confirming
                &&& p.stepped(signal).0.delay >= p.delay
            },
            Action::Finish(outcome) => {
                &&& p.stepped(signal).0.stage == Stage::Done(outcome)
                &&& p.stepped(signal).0.waited == p.waited
                &&& p.stage matches Stage::Done(earlier) ==> outcome == earlier
                    && p.stepped(signal).0 == p
            },
        },
{
}

/// When a submission ends in which way, from a state that is not finished:
/// confirmed or rejected exactly on the ledger's final status, a transport
/// error exactly on a failure that is not transient, and a timeout exactly
/// where the caller cancels or the next wait would pass the deadline.
pub proof fn lemma_outcomes(p: Pipeline, signal: Signal, sequence: u64, status: u64)
    requires
        !(p.stage is Done),
    ensures
        p.stepped(signal).1 == Action::Finish(Outcome::Confirmed(Receipt { sequence })) <==> signal
            == Signal::Status(LedgerStatus::Success { sequence }),
        p.stepped(signal).1 == Action::Finish(
            Outcome::Failed(SubmissionError::Rejected { status }),
        ) <==> signal == Signal::Status(LedgerStatus::Rejected { code: status }),
        p.stepped(signal).1 == Action::Finish(Outcome::Failed(SubmissionError::Transport))
            <==> signal == (Signal::TransportFailure { transient: false }),
        p.stepped(signal).1 == Action::Finish(Outcome::Failed(SubmissionError::Timeout)) <==> (
        signal == Signal::Cancelled || ((signal == Signal::Accepted || signal == Signal::Status(
            LedgerStatus::Pending,
        ) || signal == (Signal::TransportFailure { transient: true })) && p.waited + p.delay
            > p.policy.deadline)),
{
}

/// The start is within the limits, and so is every state of an exchange;
/// a bid is submitted once in the whole of it.
pub proof fn lemma_driven(kind: CommandKind, policy: RetryPolicy, signals: Seq<Signal>)
    ensures
        within_limits(Pipeline::driven(kind, policy, signals).0),
        Pipeline::driven(kind, policy, signals).0.kind == kind,
        Pipeline::driven(kind, policy, signals).0.policy == policy,
        kind == CommandKind::Bid && signals.len() > 0 ==> !(Pipeline::driven(
            kind,
            policy,
            signals,
        ).1 is Submit),
    decreases signals.len(),
{
    if signals.len() > 0 {
        lemma_driven(kind, policy, signals.drop_last());
        lemma_step(Pipeline::driven(kind, policy, signals.drop_last()).0, signals.last());
    }
}

} // verus!
