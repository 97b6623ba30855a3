//! The operations of an auction client: the transactions that it submits,
//! and what it reads back from the ledger's events.
//!
//! A command on an auction that exists becomes a transaction only where
//! the lifecycle rules allow it on the current snapshot at the current
//! time. The creation of an auction has no snapshot to be held against.

use crate::framing::EncodingError;
use crate::lifecycle::{allowed, rejection, validate, verdict, InvalidTransition};
use crate::model::{
    bid_view, Address, Auction, AuctionView, Bid, Command, CommandKind, CommandView, Item,
};
use crate::reconcile::{raw_views, reconcile, reconciled, RawEvent, ReconcileError};
use crate::wire::{encodable, encode, oversized, parse, wire};
use vstd::prelude::*;

verus! {

/// An operation that is ready to be submitted: who sends it, what kind of
/// command it is, and the bytes of the command.
#[derive(Debug, PartialEq, Eq)]
pub struct Transaction {
    pub sender: Address,
    pub kind: CommandKind,
    pub payload: Vec<u8>,
}

pub struct TransactionView {
    pub sender: Seq<u8>,
    pub kind: CommandKind,
    pub payload: Seq<u8>,
}

impl View for Transaction {
    type V = TransactionView;

    open spec fn view(&self) -> TransactionView {
        TransactionView { sender: self.sender@, kind: self.kind, payload: self.payload@ }
    }
}

/// The transaction that carries `command` from `sender`.
pub open spec fn transaction_of(sender: Seq<u8>, command: CommandView) -> TransactionView {
    TransactionView { sender, kind: command.kind(), payload: wire(command) }
}

/// Builds the transaction that carries `command` from `account_address`,
/// without regard to any snapshot.
fn transaction(command: &Command, account_address: Address) -> (r: Result<
    Transaction,
    EncodingError,
>)
    ensures
        r is Ok <==> encodable(command@),
        r matches Ok(tx) ==> tx@ == transaction_of(account_address@, command@) && parse(
            tx@.payload,
        ) == Some(command@),
        r matches Err(e) ==> oversized(command@) == Some(e->length as nat),
{
    match encode(command) {
        Ok(payload) => Ok(Transaction { sender: account_address, kind: command.kind(), payload }),
        Err(e) => Err(e),
    }
}

/// Why a command did not become a transaction. Neither reaches the ledger.
#[derive(Clone, Copy, Debug, PartialEq, Eq, Structural)]
pub enum CommandError {
    /// The command is not legal on the snapshot at the time given.
    Invalid(InvalidTransition),
    /// The command is legal, and a field of it is too long to be encoded.
    Encoding(EncodingError),
}

/// What [`prepare`] gives for a command on a snapshot at a time: the
/// rejection of the transition table first, then the encoder's.
pub open spec fn prepared(
    snapshot: AuctionView,
    command: CommandView,
    sender: Seq<u8>,
    now: u64,
) -> Result<TransactionView, CommandError> {
    match rejection(snapshot, command, now) {
        Some(reason) => Err(CommandError::Invalid(InvalidTransition { reason })),
        None => match oversized(command) {
            Some(length) => Err(
                CommandError::Encoding(EncodingError::FieldTooLong { length: length as usize }),
            ),
            None => Ok(transaction_of(sender, command)),
        },
    }
}

/// The view of what [`prepare`] returns.
pub open spec fn prepared_view(r: Result<Transaction, CommandError>) -> Result<
    TransactionView,
    CommandError,
> {
    match r {
        Ok(tx) => Ok(tx@),
        Err(e) => Err(e),
    }
}

/// Validates `command` against `current_snapshot` at time `now` and, where
/// it is legal, builds the transaction that carries it from
/// `account_address`. A command that is not legal gives no transaction.
pub fn prepare(
    current_snapshot: &Auction,
    command: &Command,
    account_address: Address,
    now: u64,
) -> (r: Result<Transaction, CommandError>)
    ensures
        prepared_view(r) == prepared(current_snapshot@, command@, account_address@, now),
        r is Ok <==> allowed(current_snapshot@, command@, now) && encodable(command@),
        r matches Ok(tx) ==> parse(tx@.payload) == Some(command@),
        r matches Err(CommandError::Invalid(e)) ==> verdict(current_snapshot@, command@, now)
            == Err::<(), InvalidTransition>(e),
        r matches Err(CommandError::Encoding(e)) ==> allowed(current_snapshot@, command@, now)
            && oversized(command@) == Some(e->length as nat),
        (command@ matches CommandView::Bid { amount, .. }
            && current_snapshot@.current_highest_bid matches Some(best) && amount <= best.amount)
            ==> r matches Err(CommandError::Invalid(_)),
{
    match validate(current_snapshot, command, now) {
        Ok(()) => {},
        Err(e) => {
            return Err(CommandError::Invalid(e));
        },
    }
    match transaction(command, account_address) {
        Ok(tx) => Ok(tx),
        Err(e) => Err(CommandError::Encoding(e)),
    }
}

/// The name of the ledger module that takes the transactions.
pub fn module_name() -> (r: &'static str)
    ensures
        r@ == "auction"@,
{
    "auction"
}

/// The name of the entry function of the ledger module for a kind of
/// command.
pub fn entry_function(kind: CommandKind) -> (r: &'static str)
    ensures
        r@ == match kind {
            CommandKind::Create => "create_auction"@,
            CommandKind::Bid => "place_bid"@,
            CommandKind::Close => "close_auction"@,
            CommandKind::Cancel => "cancel_auction"@,
            CommandKind::Extend => "extend_auction"@,
        },
{
    match kind {
        CommandKind::Create => "create_auction",
        CommandKind::Bid => "place_bid",
        CommandKind::Close => "close_auction",
        CommandKind::Cancel => "cancel_auction",
        CommandKind::Extend => "extend_auction",
    }
}

impl Auction {
    /// The transaction that creates an auction of `item`.
    pub fn create_auction(
        item: Item,
        start_time: u64,
        end_time: u64,
        account_address: Address,
    ) -> (r: Result<Transaction, EncodingError>)
        ensures
            r is Ok <==> encodable(CommandView::Create { item: item@, start_time, end_time }),
            r matches Ok(tx) ==> tx@ == transaction_of(
                account_address@,
                CommandView::Create { item: item@, start_time, end_time },
            ),
            r matches Err(e) ==> oversized(
                CommandView::Create { item: item@, start_time, end_time },
            ) == Some(e->length as nat),
    {
        transaction(&Command::Create { item, start_time, end_time }, account_address)
    }

    /// The transaction that places a bid of `amount` for `bidder` on the
    /// auction of `current_snapshot`, where that bid is legal at time `now`.
    pub fn place_bid(
        current_snapshot: &Auction,
        bidder: Address,
        amount: u64,
        account_address: Address,
        now: u64,
    ) -> (r: Result<Transaction, CommandError>)
        ensures
            prepared_view(r) == prepared(
                current_snapshot@,
                CommandView::Bid { auction_id: current_snapshot@.id, bidder: bidder@, amount },
                account_address@,
                now,
            ),
            r is Ok ==> allowed(
                current_snapshot@,
                CommandView::Bid { auction_id: current_snapshot@.id, bidder: bidder@, amount },
                now,
            ),
            current_snapshot@.current_highest_bid matches Some(best) && amount <= best.amount
                ==> r matches Err(CommandError::Invalid(_)),
    {
        let command = Command::Bid { auction_id: current_snapshot.id, bidder, amount };
        prepare(current_snapshot, &command, account_address, now)
    }

    /// The snapshot of auction `auction_id` that the ledger's raw events
    /// give.
    pub fn get_auction(auction_id: u64, raw_events: &Vec<RawEvent>) -> (r: Result<
        Auction,
        ReconcileError,
    >)
        ensures
            match r {
                Ok(auction) => reconciled(auction_id, raw_views(raw_events@)) == Ok::<
                    AuctionView,
                    ReconcileError,
                >(auction@),
                Err(e) => reconciled(auction_id, raw_views(raw_events@)) == Err::<
                    AuctionView,
                    ReconcileError,
                >(e) && e == ReconcileError::MissingCreation,
            },
    {
        reconcile(auction_id, raw_events)
    }

    /// The highest bid of auction `auction_id` that the ledger's raw events
    /// give; `Ok(None)` where no bid was accepted.
    pub fn get_highest_bid(auction_id: u64, raw_events: &Vec<RawEvent>) -> (r: Result<
        Option<Bid>,
        ReconcileError,
    >)
        ensures
            match r {
                Ok(bid) => reconciled(auction_id, raw_views(raw_events@)) matches Ok(auction)
                    && bid_view(bid) == auction.current_highest_bid,
                Err(e) => reconciled(auction_id, raw_views(raw_events@)) == Err::<
                    AuctionView,
                    ReconcileError,
                >(e) && e == ReconcileError::MissingCreation,
            },
    {
        match reconcile(auction_id, raw_events) {
            Ok(auction) => Ok(auction.current_highest_bid),
            Err(e) => Err(e),
        }
    }

    /// The transaction that closes the auction of `current_snapshot`, where
    /// a close is legal at time `now`.
    pub fn close_auction(current_snapshot: &Auction, account_address: Address, now: u64) -> (r:
        Result<Transaction, CommandError>)
        ensures
            prepared_view(r) == prepared(
                current_snapshot@,
                CommandView::Close { auction_id: current_snapshot@.id },
                account_address@,
                now,
            ),
            r is Ok <==> allowed(
                current_snapshot@,
                CommandView::Close { auction_id: current_snapshot@.id },
                now,
            ),
            r is Err ==> r matches Err(CommandError::Invalid(_)),
    {
        let command = Command::Close { auction_id: current_snapshot.id };
        prepare(current_snapshot, &command, account_address, now)
    }

    /// The transaction that cancels the auction of `current_snapshot`,
    /// where a cancellation is legal at time `now`.
    pub fn cancel_auction(current_snapshot: &Auction, account_address: Address, now: u64) -> (r:
        Result<Transaction, CommandError>)
        ensures
            prepared_view(r) == prepared(
                current_snapshot@,
                CommandView::Cancel { auction_id: current_snapshot@.id },
                account_address@,
                now,
            ),
            r is Ok <==> allowed(
                current_snapshot@,
                CommandView::Cancel { auction_id: current_snapshot@.id },
                now,
            ),
            r is Err ==> r matches Err(CommandError::Invalid(_)),
    {
        let command = Command::Cancel { auction_id: current_snapshot.id };
        prepare(current_snapshot, &command, account_address, now)
    }

    /// The transaction that moves the end of the auction of
    /// `current_snapshot` to `new_end_time`, where that extension is legal
    /// at time `now`.
    pub fn extend_auction(
        current_snapshot: &Auction,
        account_address: Address,
        new_end_time: u64,
        now: u64,
    ) -> (r: Result<Transaction, CommandError>)
        ensures
            prepared_view(r) == prepared(
                current_snapshot@,
                CommandView::Extend { auction_id: current_snapshot@.id, new_end_time },
                account_address@,
                now,
            ),
            r is Ok <==> allowed(
                current_snapshot@,
                CommandView::Extend { auction_id: current_snapshot@.id, new_end_time },
                now,
            ),
            r is Err ==> r matches Err(CommandError::Invalid(_)),
    {
        let command = Command::Extend { auction_id: current_snapshot.id, new_end_time };
        prepare(current_snapshot, &command, account_address, now)
    }
}

} // verus!
