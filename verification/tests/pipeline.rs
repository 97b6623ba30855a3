use aptos_auction::model::CommandKind;
use aptos_auction::pipeline::{
    Action, LedgerStatus, Outcome, Pipeline, Receipt, RetryPolicy, Signal, Stage, SubmissionError,
};

fn policy() -> RetryPolicy {
    RetryPolicy { initial_delay: 100, max_delay: 1000, deadline: 5000 }
}

const TRANSIENT: Signal = Signal::TransportFailure { transient: true };
const PENDING: Signal = Signal::Status(LedgerStatus::Pending);

#[test]
fn a_submission_starts_with_a_submit_at_once() {
    let (state, action) = Pipeline::start(CommandKind::Bid, policy());
    assert_eq!(action, Action::Submit { after: 0 });
    assert_eq!(
        state,
        Pipeline { kind: CommandKind::Bid, policy: policy(), stage: Stage::Submitting, waited: 0, delay: 100 }
    );
}

#[test]
fn success_gives_the_receipt() {
    let (state, _) = Pipeline::start(CommandKind::Create, policy());
    let (state, action) = state.step(Signal::Accepted);
    assert_eq!(action, Action::Poll { after: 100 });
    assert_eq!(state.stage, Stage::Confirming);
    let (state, action) = state.step(Signal::Status(LedgerStatus::Success { sequence: 42 }));
    assert_eq!(action, Action::Finish(Outcome::Confirmed(Receipt { sequence: 42 })));
    assert_eq!(state.stage, Stage::Done(Outcome::Confirmed(Receipt { sequence: 42 })));
}

#[test]
fn rejection_is_final_and_carries_the_status() {
    let signals = vec![Signal::Accepted, PENDING, Signal::Status(LedgerStatus::Rejected { code: 17 })];
    let (_, action) = Pipeline::run(CommandKind::Bid, policy(), &signals);
    assert_eq!(action, Action::Finish(Outcome::Failed(SubmissionError::Rejected { status: 17 })));
}

#[test]
fn the_wait_doubles_up_to_the_cap() {
    let (mut state, _) = Pipeline::start(CommandKind::Close, policy());
    let mut waits = Vec::new();
    let mut signal = Signal::Accepted;
    loop {
        let (next, action) = state.step(signal);
        state = next;
        signal = PENDING;
        match action {
            Action::Poll { after } => waits.push(after),
            other => {
                assert_eq!(other, Action::Finish(Outcome::Failed(SubmissionError::Timeout)));
                break;
            }
        }
    }
    assert_eq!(waits, vec![100, 200, 400, 800, 1000, 1000, 1000]);
    assert_eq!(state.waited, 4500);
}

#[test]
fn the_deadline_may_be_met_exactly() {
    let policy = RetryPolicy { initial_delay: 10, max_delay: 10, deadline: 30 };
    let signals = vec![Signal::Accepted, PENDING, PENDING];
    let (state, action) = Pipeline::run(CommandKind::Cancel, policy, &signals);
    assert_eq!(action, Action::Poll { after: 10 });
    assert_eq!(state.waited, 30);
    let (state, action) = state.step(PENDING);
    assert_eq!(action, Action::Finish(Outcome::Failed(SubmissionError::Timeout)));
    assert_eq!(state.waited, 30);
}

#[test]
fn a_bid_is_never_submitted_again() {
    let (state, _) = Pipeline::start(CommandKind::Bid, policy());
    let (state, action) = state.step(TRANSIENT);
    assert_eq!(action, Action::Poll { after: 100 });
    assert_eq!(state.stage, Stage::Confirming);
    let (_, action) = state.step(TRANSIENT);
    assert_eq!(action, Action::Poll { after: 200 });
}

#[test]
fn other_operations_are_submitted_again_after_a_transient_failure() {
    for kind in [CommandKind::Create, CommandKind::Close, CommandKind::Cancel, CommandKind::Extend] {
        let (state, _) = Pipeline::start(kind, policy());
        let (state, action) = state.step(TRANSIENT);
        assert_eq!(action, Action::Submit { after: 100 });
        assert_eq!(state.stage, Stage::Submitting);
        let (state, action) = state.step(TRANSIENT);
        assert_eq!(action, Action::Submit { after: 200 });
        let (state, action) = state.step(Signal::Accepted);
        assert_eq!(action, Action::Poll { after: 400 });
        // Once the submission was answered, a failed poll is polled again.
        let (_, action) = state.step(TRANSIENT);
        assert_eq!(action, Action::Poll { after: 800 });
    }
}

#[test]
fn resubmission_ends_at_the_deadline() {
    let policy = RetryPolicy { initial_delay: 100, max_delay: 100, deadline: 250 };
    let signals = vec![TRANSIENT, TRANSIENT, TRANSIENT];
    let (state, action) = Pipeline::run(CommandKind::Create, policy, &signals);
    assert_eq!(action, Action::Finish(Outcome::Failed(SubmissionError::Timeout)));
    assert_eq!(state.waited, 200);
}

#[test]
fn a_failure_that_is_not_transient_is_a_transport_error() {
    let (state, _) = Pipeline::start(CommandKind::Extend, policy());
    let (_, action) = state.step(Signal::TransportFailure { transient: false });
    assert_eq!(action, Action::Finish(Outcome::Failed(SubmissionError::Transport)));
}

#[test]
fn cancellation_is_a_timeout() {
    let (_, action) = Pipeline::run(CommandKind::Bid, policy(), &vec![Signal::Accepted, Signal::Cancelled]);
    assert_eq!(action, Action::Finish(Outcome::Failed(SubmissionError::Timeout)));
}

#[test]
fn a_finished_pipeline_stays_finished() {
    let done = vec![Signal::Accepted, Signal::Status(LedgerStatus::Success { sequence: 9 })];
    let (state, _) = Pipeline::run(CommandKind::Close, policy(), &done);
    for signal in [Signal::Accepted, PENDING, TRANSIENT, Signal::Cancelled, Signal::Status(LedgerStatus::Rejected { code: 1 })] {
        let (next, action) = state.step(signal);
        assert_eq!(next, state);
        assert_eq!(action, Action::Finish(Outcome::Confirmed(Receipt { sequence: 9 })));
    }
}

#[test]
fn an_exchange_without_signals_is_at_its_start() {
    assert_eq!(Pipeline::run(CommandKind::Bid, policy(), &Vec::new()), Pipeline::start(CommandKind::Bid, policy()));
}

#[test]
fn a_policy_of_zeros_still_waits_a_millisecond() {
    let policy = RetryPolicy { initial_delay: 0, max_delay: 0, deadline: 2 };
    let (state, _) = Pipeline::start(CommandKind::Close, policy);
    assert_eq!(state.delay, 1);
    let (state, action) = state.step(Signal::Accepted);
    assert_eq!(action, Action::Poll { after: 1 });
    let (state, action) = state.step(PENDING);
    assert_eq!(action, Action::Poll { after: 1 });
    let (_, action) = state.step(PENDING);
    assert_eq!(action, Action::Finish(Outcome::Failed(SubmissionError::Timeout)));
}

#[test]
fn an_initial_delay_above_the_cap_is_cut_to_the_cap() {
    let policy = RetryPolicy { initial_delay: 5000, max_delay: 300, deadline: u64::MAX };
    let (state, _) = Pipeline::start(CommandKind::Create, policy);
    let (state, action) = state.step(Signal::Accepted);
    assert_eq!(action, Action::Poll { after: 300 });
    let (_, action) = state.step(PENDING);
    assert_eq!(action, Action::Poll { after: 300 });
}
