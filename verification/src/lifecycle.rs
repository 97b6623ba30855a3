//! The lifecycle state machine: which command is legal on which snapshot at
//! which time, and what an accepted command does to the snapshot.

use crate::model::{
    Auction, AuctionState, AuctionView, Bid, BidView, Command, CommandView, Item, ItemView,
};
use crate::resolver::{challenge, contest};
use vstd::prelude::*;

verus! {

/// Why a command is not legal.
#[derive(Clone, Copy, Debug, PartialEq, Eq, Structural)]
pub enum Rejection {
    /// A create command against an auction that already exists.
    AlreadyCreated,
    /// The command names another auction than the snapshot's.
    WrongAuction,
    /// The auction is closed, cancelled or settled.
    Finished,
    /// A bid, a close or an extension before the start time.
    NotStarted,
    /// A bid, a cancellation or an extension at or after the end time.
    WindowClosed,
    /// A close before the end time.
    StillOpen,
    /// A bid that does not exceed the current highest bid.
    BidTooLow,
    /// An extension to a time that is not after the current end time.
    EndTimeNotLater,
}

/// The error of [`validate`].
#[derive(Clone, Copy, Debug, PartialEq, Eq, Structural)]
pub struct InvalidTransition {
    pub reason: Rejection,
}

/// Where an auction stands at a given time.
#[derive(Clone, Copy, Debug, PartialEq, Eq, Structural)]
pub enum Phase {
    /// Before the start time.
    Pending,
    /// From the start time on, before the end time: bids are taken.
    Open,
    /// At or after the end time, not yet closed.
    Ended,
    /// Closed, cancelled or settled.
    Finished,
}

pub open spec fn phase_at(auction: AuctionView, now: u64) -> Phase {
    if auction.state.terminal() {
        Phase::Finished
    } else if now < auction.start_time {
        Phase::Pending
    } else if now < auction.end_time {
        Phase::Open
    } else {
        Phase::Ended
    }
}

/// The state of an auction at a given time: a final state stays; otherwise
/// the auction is pending before its start time and active from then on.
pub open spec fn state_at(auction: AuctionView, now: u64) -> AuctionState {
    match phase_at(auction, now) {
        Phase::Finished => auction.state,
        Phase::Pending => AuctionState::Pending,
        Phase::Open => AuctionState::Active,
        Phase::Ended => AuctionState::Active,
    }
}

/// The auction that a command names; a create command names none.
pub open spec fn target(command: CommandView) -> Option<u64> {
    match command {
        CommandView::Create { .. } => None,
        CommandView::Bid { auction_id, .. } => Some(auction_id),
        CommandView::Close { auction_id } => Some(auction_id),
        CommandView::Cancel { auction_id } => Some(auction_id),
        CommandView::Extend { auction_id, .. } => Some(auction_id),
    }
}

/// The transition table. `None` means that the command is legal.
pub open spec fn rejection(auction: AuctionView, command: CommandView, now: u64) -> Option<
    Rejection,
> {
    let phase = phase_at(auction, now);
    if command is Create {
        Some(Rejection::AlreadyCreated)
    } else if target(command) != Some(auction.id) {
        Some(Rejection::WrongAuction)
    } else if phase == Phase::Finished {
        Some(Rejection::Finished)
    } else {
        match command {
            CommandView::Create { .. } => Some(Rejection::AlreadyCreated),
            CommandView::Bid { amount, .. } => match phase {
                Phase::Pending => Some(Rejection::NotStarted),
                Phase::Open => match auction.current_highest_bid {
                    Some(best) => if amount > best.amount {
                        None
                    } else {
                        Some(Rejection::BidTooLow)
                    },
                    None => None,
                },
                _ => Some(Rejection::WindowClosed),
            },
            CommandView::Close { .. } => match phase {
                Phase::Pending => Some(Rejection::NotStarted),
                Phase::Open => Some(Rejection::StillOpen),
                _ => None,
            },
            CommandView::Cancel { .. } => match phase {
                Phase::Pending => None,
                Phase::Open => None,
                _ => Some(Rejection::WindowClosed),
            },
            CommandView::Extend { new_end_time, .. } => match phase {
                Phase::Pending => Some(Rejection::NotStarted),
                Phase::Open => if new_end_time > auction.end_time {
                    None
                } else {
                    Some(Rejection::EndTimeNotLater)
                },
                _ => Some(Rejection::WindowClosed),
            },
        }
    }
}

pub open spec fn allowed(auction: AuctionView, command: CommandView, now: u64) -> bool {
    rejection(auction, command, now) is None
}

pub open spec fn verdict(auction: AuctionView, command: CommandView, now: u64) -> Result<
    (),
    InvalidTransition,
> {
    match rejection(auction, command, now) {
        None => Ok(()),
        Some(reason) => Err(InvalidTransition { reason }),
    }
}

/// The snapshot after an accepted command that was recorded under
/// `sequence`. A bid is put to the resolver as a challenge to the highest
/// bid so far. A create command changes nothing.
pub open spec fn applied(auction: AuctionView, command: CommandView, sequence: u64) -> AuctionView {
    match command {
        CommandView::Create { .. } => auction,
        CommandView::Bid { bidder, amount, .. } => AuctionView {
            current_highest_bid: challenge(
                auction.current_highest_bid,
                BidView { bidder, amount, sequence },
            ),
            state: AuctionState::Active,
            version: (auction.version + 1) as u64,
            ..auction
        },
        CommandView::Close { .. } => AuctionView {
            state: AuctionState::Closed,
            version: (auction.version + 1) as u64,
            ..auction
        },
        CommandView::Cancel { .. } => AuctionView {
            state: AuctionState::Cancelled,
            version: (auction.version + 1) as u64,
            ..auction
        },
        CommandView::Extend { new_end_time, .. } => AuctionView {
            end_time: new_end_time,
            state: AuctionState::Active,
            version: (auction.version + 1) as u64,
            ..auction
        },
    }
}

/// The snapshot right after creation: pending, without a bid, at version 1.
pub open spec fn created(id: u64, item: ItemView, start_time: u64, end_time: u64)
    -> AuctionView {
    AuctionView {
        id,
        item,
        start_time,
        end_time,
        current_highest_bid: None,
        state: AuctionState::Pending,
        version: 1,
    }
}

impl Command {
    /// The auction that the command names; a create command names none.
    pub fn target(&self) -> (r: Option<u64>)
        ensures
            r == target(self@),
    {
        match self {
            Command::Create { .. } => None,
            Command::Bid { auction_id, .. } => Some(*auction_id),
            Command::Close { auction_id } => Some(*auction_id),
            Command::Cancel { auction_id } => Some(*auction_id),
            Command::Extend { auction_id, .. } => Some(*auction_id),
        }
    }
}

impl Auction {
    /// The snapshot of an auction that has just been created.
    pub fn new(id: u64, item: Item, start_time: u64, end_time: u64) -> (r: Auction)
        ensures
            r@ == created(id, item@, start_time, end_time),
    {
        Auction {
            id,
            item,
            start_time,
            end_time,
            current_highest_bid: None,
            state: AuctionState::Pending,
            version: 1,
        }
    }

    /// Where the auction stands at `now`.
    pub fn phase(&self, now: u64) -> (r: Phase)
        ensures
            r == phase_at(self@, now),
    {
        if self.state.is_terminal() {
            Phase::Finished
        } else if now < self.start_time {
            Phase::Pending
        } else if now < self.end_time {
            Phase::Open
        } else {
            Phase::Ended
        }
    }

    /// The state of the auction at `now`.
    pub fn state_at(&self, now: u64) -> (r: AuctionState)
        ensures
            r == state_at(self@, now),
    {
        match self.phase(now) {
            Phase::Finished => self.state,
            Phase::Pending => AuctionState::Pending,
            Phase::Open => AuctionState::Active,
            Phase::Ended => AuctionState::Active,
        }
    }
}

/// Decides whether `command` is legal on `current_snapshot` at time `now`.
/// Nothing is changed.
pub fn validate(current_snapshot: &Auction, command: &Command, now: u64) -> (r: Result<
    (),
    InvalidTransition,
>)
    ensures
        r == verdict(current_snapshot@, command@, now),
        r is Ok <==> allowed(current_snapshot@, command@, now),
        (command@ matches CommandView::Bid { amount, .. }
            && current_snapshot@.current_highest_bid matches Some(best) && amount <= best.amount)
            ==> r is Err,
{
    let phase = current_snapshot.phase(now);
    let named = match command {
        Command::Create { .. } => {
            return Err(InvalidTransition { reason: Rejection::AlreadyCreated });
        },
        Command::Bid { auction_id, .. } => *auction_id,
        Command::Close { auction_id } => *auction_id,
        Command::Cancel { auction_id } => *auction_id,
        Command::Extend { auction_id, .. } => *auction_id,
    };
    if named != current_snapshot.id {
        return Err(InvalidTransition { reason: Rejection::WrongAuction });
    }
    if let Phase::Finished = phase {
        return Err(InvalidTransition { reason: Rejection::Finished });
    }
    let refused = match command {
        Command::Create { .. } => Some(Rejection::AlreadyCreated),
        Command::Bid { amount, .. } => match phase {
            Phase::Pending => Some(Rejection::NotStarted),
            Phase::Open => match &current_snapshot.current_highest_bid {
                Some(best) => if *amount > best.amount {
                    None
                } else {
                    Some(Rejection::BidTooLow)
                },
                None => None,
            },
            _ => Some(Rejection::WindowClosed),
        },
        Command::Close { .. } => match phase {
            Phase::Pending => Some(Rejection::NotStarted),
            Phase::Open => Some(Rejection::StillOpen),
            _ => None,
        },
        Command::Cancel { .. } => match phase {
            Phase::Pending => None,
            Phase::Open => None,
            _ => Some(Rejection::WindowClosed),
        },
        Command::Extend { new_end_time, .. } => match phase {
            Phase::Pending => Some(Rejection::NotStarted),
            Phase::Open => if *new_end_time > current_snapshot.end_time {
                None
            } else {
                Some(Rejection::EndTimeNotLater)
            },
            _ => Some(Rejection::WindowClosed),
        },
    };
    match refused {
        None => Ok(()),
        Some(reason) => Err(InvalidTransition { reason }),
    }
}

/// Applies a command that has been accepted to a snapshot.
pub(crate) fn apply(snapshot: Auction, command: &Command, sequence: u64) -> (r: Auction)
    requires
        snapshot.version < u64::MAX,
    ensures
        r@ == applied(snapshot@, command@, sequence),
{
    let mut next = snapshot;
    match command {
        Command::Create { .. } => {},
        Command::Bid { bidder, amount, .. } => {
            let bid = Bid::new(bidder.clone(), *amount, sequence);
            next.current_highest_bid = contest(next.current_highest_bid, bid);
            next.state = AuctionState::Active;
            next.version = next.version + 1;
        },
        Command::Close { .. } => {
            next.state = AuctionState::Closed;
            next.version = next.version + 1;
        },
        Command::Cancel { .. } => {
            next.state = AuctionState::Cancelled;
            next.version = next.version + 1;
        },
        Command::Extend { new_end_time, .. } => {
            next.end_time = *new_end_time;
            next.state = AuctionState::Active;
            next.version = next.version + 1;
        },
    }
    next
}

/// Validates `command` at time `now` and, where it is legal, gives the
/// snapshot that follows; `sequence` is the ledger sequence number of the
/// command. The snapshot handed in is not changed.
pub fn transition(current_snapshot: &Auction, command: &Command, sequence: u64, now: u64) -> (r:
    Result<Auction, InvalidTransition>)
    requires
        current_snapshot.version < u64::MAX,
    ensures
        match r {
            Ok(next) => allowed(current_snapshot@, command@, now) && next@ == applied(
                current_snapshot@,
                command@,
                sequence,
            ),
            Err(e) => Err::<(), InvalidTransition>(e) == verdict(
                current_snapshot@,
                command@,
                now,
            ),
        },
{
    match validate(current_snapshot, command, now) {
        Ok(()) => Ok(apply(current_snapshot.clone(), command, sequence)),
        Err(e) => Err(e),
    }
}

/// What a replay of the ledger's history accepts: a command that is legal
/// by the transition table with the clock left aside, since the ledger took
/// the command at a time that is not known any more. The command names the
/// auction, the auction is not finished, a bid exceeds the highest bid so
/// far, and an extension moves the end time forward.
pub open spec fn acceptable(auction: AuctionView, command: CommandView) -> bool {
    &&& target(command) == Some(auction.id)
    &&& !auction.state.terminal()
    &&& match command {
        CommandView::Create { .. } => false,
        CommandView::Bid { amount, .. } => match auction.current_highest_bid {
            Some(best) => amount > best.amount,
            None => true,
        },
        CommandView::Close { .. } => true,
        CommandView::Cancel { .. } => true,
        CommandView::Extend { new_end_time, .. } => new_end_time > auction.end_time,
    }
}

/// Decides whether a replay accepts `command` on `snapshot`.
pub fn is_acceptable(snapshot: &Auction, command: &Command) -> (r: bool)
    ensures
        r == acceptable(snapshot@, command@),
{
    let (named, accepted) = match command {
        Command::Create { .. } => {
            return false;
        },
        Command::Bid { auction_id, amount, .. } => {
            let above = match &snapshot.current_highest_bid {
                Some(best) => *amount > best.amount,
                None => true,
            };
            (*auction_id, above)
        },
        Command::Close { auction_id } => (*auction_id, true),
        Command::Cancel { auction_id } => (*auction_id, true),
        Command::Extend { auction_id, new_end_time } => (
            *auction_id,
            *new_end_time > snapshot.end_time,
        ),
    };
    named == snapshot.id && !snapshot.state.is_terminal() && accepted
}

/// The snapshot after a replay has come to a command that was recorded
/// under `sequence`: the command applied where the replay accepts it, and
/// the snapshot as it was where not.
pub open spec fn accepted(auction: AuctionView, command: CommandView, sequence: u64) -> AuctionView {
    if acceptable(auction, command) {
        applied(auction, command, sequence)
    } else {
        auction
    }
}

/// Takes a replay one command further: applies `command` where the replay
/// accepts it, and passes it over where not.
pub fn accept(snapshot: Auction, command: &Command, sequence: u64) -> (r: Auction)
    requires
        snapshot.version < u64::MAX,
    ensures
        r@ == accepted(snapshot@, command@, sequence),
{
    if is_acceptable(&snapshot, command) {
        apply(snapshot, command, sequence)
    } else {
        snapshot
    }
}

/// What is legal at some time is acceptable in a replay.
pub proof fn lemma_allowed_is_acceptable(auction: AuctionView, command: CommandView, now: u64)
    requires
        allowed(auction, command, now),
    ensures
        acceptable(auction, command),
{
}

/// What a replay accepts was legal at some time, where the auction has a
/// time at which it is open: its start time is before its end time.
pub proof fn lemma_acceptable_was_legal(auction: AuctionView, command: CommandView)
    requires
        acceptable(auction, command),
        auction.start_time < auction.end_time,
    ensures
        exists|now: u64| allowed(auction, command, now),
{
    if command is Close {
        assert(allowed(auction, command, auction.end_time));
    } else {
        assert(allowed(auction, command, auction.start_time));
    }
}

/// A bid at or below the current highest bid is rejected in every state
/// and at every time.
pub proof fn lemma_low_bid_rejected(auction: AuctionView, command: CommandView, now: u64)
    requires
        command matches CommandView::Bid { amount, .. } && auction.current_highest_bid matches Some(
            best,
        ) && amount <= best.amount,
    ensures
        rejection(auction, command, now) is Some,
        !acceptable(auction, command),
{
}

/// Once an auction is closed, cancelled or settled, no command is legal.
pub proof fn lemma_finished_is_final(auction: AuctionView, command: CommandView, now: u64)
    requires
        auction.state.terminal(),
    ensures
        rejection(auction, command, now) is Some,
        !acceptable(auction, command),
{
}

/// What every legal command has in common: it names the snapshot's auction,
/// the auction is not finished, and the version grows by one. A legal bid
/// exceeds the highest bid so far and becomes the highest; a legal extension
/// comes while the auction is active and moves the end time forward.
pub proof fn lemma_legal_transitions(
    auction: AuctionView,
    command: CommandView,
    sequence: u64,
    now: u64,
)
    requires
        allowed(auction, command, now),
        auction.version < u64::MAX,
    ensures
        target(command) == Some(auction.id),
        !auction.state.terminal(),
        applied(auction, command, sequence).version == auction.version + 1,
        applied(auction, command, sequence).id == auction.id,
        applied(auction, command, sequence).item == auction.item,
        applied(auction, command, sequence).start_time == auction.start_time,
        command matches CommandView::Bid { amount, .. } ==> {
            &&& state_at(auction, now) == AuctionState::Active
            &&& now < auction.end_time
            &&& auction.current_highest_bid matches Some(best) ==> amount > best.amount
            &&& applied(auction, command, sequence).current_highest_bid matches Some(top)
                && top.amount == amount && top.sequence == sequence
        },
        command matches CommandView::Extend { new_end_time, .. } ==> {
            &&& state_at(auction, now) == AuctionState::Active
            &&& now < auction.end_time
            &&& new_end_time > auction.end_time
            &&& applied(auction, command, sequence).end_time == new_end_time
        },
        command is Close ==> {
            &&& state_at(auction, now) == AuctionState::Active
            &&& now >= auction.end_time
            &&& applied(auction, command, sequence).state == AuctionState::Closed
        },
        command is Cancel ==> {
            &&& now < auction.start_time || now < auction.end_time
            &&& applied(auction, command, sequence).state == AuctionState::Cancelled
        },
        !(command is Bid) ==> applied(auction, command, sequence).current_highest_bid
            == auction.current_highest_bid,
        !(command is Extend) ==> applied(auction, command, sequence).end_time == auction.end_time,
{
}

} // verus!
