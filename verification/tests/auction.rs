use aptos_auction::auction::{entry_function, module_name, prepare, CommandError, Transaction};
use aptos_auction::framing::EncodingError;
use aptos_auction::lifecycle::{InvalidTransition, Rejection};
use aptos_auction::model::{Address, Auction, AuctionState, Bid, Command, CommandKind, Item};
use aptos_auction::reconcile::{RawEvent, ReconcileError};
use aptos_auction::wire::decode;

fn item() -> Item {
    Item::new(
        "My Awesome Item".to_string(),
        "This is a great item you won't want to miss!".to_string(),
        "https://example.com/item.jpg".to_string(),
    )
}

fn account() -> Address {
    Address::new(vec![0x11; 32])
}

fn bidder() -> Address {
    Address::new(vec![0x22; 32])
}

/// Auction 123, from 100 to 200, without a bid.
fn fresh() -> Auction {
    Auction::new(123, item(), 100, 200)
}

/// Auction 123, from 100 to 200, active with a highest bid of 50.
fn led() -> Auction {
    let mut auction = fresh();
    auction.state = AuctionState::Active;
    auction.current_highest_bid = Some(Bid::new(Address::new(vec![0x33; 32]), 50, 2));
    auction.version = 2;
    auction
}

fn refused<T>(reason: Rejection) -> Result<T, CommandError> {
    Err(CommandError::Invalid(InvalidTransition { reason }))
}

#[test]
fn create_auction_builds_the_transaction() {
    let tx = Auction::create_auction(item(), 1663728000, 1663731600, account()).unwrap();
    assert_eq!(tx.sender, account());
    assert_eq!(tx.kind, CommandKind::Create);
    assert_eq!(tx.payload[0], 0);
    assert_eq!(tx.payload[1], 15);
    assert_eq!(&tx.payload[2..17], b"My Awesome Item");
    assert_eq!(&tx.payload[tx.payload.len() - 16..tx.payload.len() - 8], &1663728000u64.to_le_bytes());
    assert_eq!(&tx.payload[tx.payload.len() - 8..], &1663731600u64.to_le_bytes());
    assert_eq!(
        decode(&tx.payload),
        Ok(Command::Create { item: item(), start_time: 1663728000, end_time: 1663731600 })
    );
}

#[test]
fn a_legal_bid_becomes_a_transaction() {
    let tx = Auction::place_bid(&fresh(), bidder(), 1000, account(), 150).unwrap();
    assert_eq!(tx.kind, CommandKind::Bid);
    assert_eq!(tx.sender, account());
    let mut expected = vec![1u8];
    expected.extend_from_slice(&123u64.to_le_bytes());
    expected.push(32);
    expected.extend_from_slice(&[0x22; 32]);
    expected.extend_from_slice(&1000u64.to_le_bytes());
    assert_eq!(tx.payload, expected);
    let tx = Auction::place_bid(&led(), bidder(), 51, account(), 199).unwrap();
    assert_eq!(decode(&tx.payload), Ok(Command::Bid { auction_id: 123, bidder: bidder(), amount: 51 }));
}

#[test]
fn a_bid_at_or_below_the_highest_becomes_no_transaction() {
    assert_eq!(Auction::place_bid(&led(), bidder(), 50, account(), 150), refused(Rejection::BidTooLow));
    assert_eq!(Auction::place_bid(&led(), bidder(), 30, account(), 150), refused(Rejection::BidTooLow));
    let states = [
        AuctionState::Pending,
        AuctionState::Active,
        AuctionState::Closed,
        AuctionState::Cancelled,
        AuctionState::Settled,
    ];
    for state in states {
        for now in [0u64, 99, 100, 150, 199, 200, 250] {
            for amount in [0u64, 30, 50] {
                let mut auction = led();
                auction.state = state;
                let r = Auction::place_bid(&auction, bidder(), amount, account(), now);
                assert!(matches!(r, Err(CommandError::Invalid(_))));
            }
        }
    }
}

#[test]
fn a_bid_outside_the_window_becomes_no_transaction() {
    assert_eq!(Auction::place_bid(&fresh(), bidder(), 50, account(), 250), refused(Rejection::WindowClosed));
    assert_eq!(Auction::place_bid(&led(), bidder(), 60, account(), 200), refused(Rejection::WindowClosed));
    assert_eq!(Auction::place_bid(&fresh(), bidder(), 50, account(), 99), refused(Rejection::NotStarted));
    let mut closed = led();
    closed.state = AuctionState::Closed;
    assert_eq!(Auction::place_bid(&closed, bidder(), 60, account(), 150), refused(Rejection::Finished));
}

#[test]
fn a_close_is_built_from_the_end_time_on() {
    assert_eq!(Auction::close_auction(&fresh(), account(), 150), refused(Rejection::StillOpen));
    assert_eq!(Auction::close_auction(&fresh(), account(), 99), refused(Rejection::NotStarted));
    let mut cancelled = fresh();
    cancelled.state = AuctionState::Cancelled;
    assert_eq!(Auction::close_auction(&cancelled, account(), 250), refused(Rejection::Finished));
    for now in [200u64, 250] {
        let close = Auction::close_auction(&fresh(), account(), now).unwrap();
        assert_eq!(
            close,
            Transaction { sender: account(), kind: CommandKind::Close, payload: vec![2, 123, 0, 0, 0, 0, 0, 0, 0] }
        );
    }
}

#[test]
fn a_cancellation_is_built_before_the_end_time() {
    assert_eq!(Auction::cancel_auction(&fresh(), account(), 250), refused(Rejection::WindowClosed));
    assert_eq!(Auction::cancel_auction(&fresh(), account(), 200), refused(Rejection::WindowClosed));
    let mut closed = fresh();
    closed.state = AuctionState::Closed;
    assert_eq!(Auction::cancel_auction(&closed, account(), 150), refused(Rejection::Finished));
    for now in [0u64, 99, 100, 199] {
        let cancel = Auction::cancel_auction(&fresh(), account(), now).unwrap();
        assert_eq!(
            cancel,
            Transaction { sender: account(), kind: CommandKind::Cancel, payload: vec![3, 123, 0, 0, 0, 0, 0, 0, 0] }
        );
    }
}

#[test]
fn an_extension_is_built_where_it_moves_the_end_forward() {
    assert_eq!(Auction::extend_auction(&fresh(), account(), 180, 150), refused(Rejection::EndTimeNotLater));
    assert_eq!(Auction::extend_auction(&fresh(), account(), 200, 150), refused(Rejection::EndTimeNotLater));
    assert_eq!(Auction::extend_auction(&fresh(), account(), 250, 99), refused(Rejection::NotStarted));
    assert_eq!(Auction::extend_auction(&fresh(), account(), 250, 200), refused(Rejection::WindowClosed));
    let mut settled = fresh();
    settled.state = AuctionState::Settled;
    assert_eq!(Auction::extend_auction(&settled, account(), 250, 150), refused(Rejection::Finished));
    let extend = Auction::extend_auction(&fresh(), account(), 250, 150).unwrap();
    let mut payload = vec![4u8, 123, 0, 0, 0, 0, 0, 0, 0];
    payload.extend_from_slice(&250u64.to_le_bytes());
    assert_eq!(extend, Transaction { sender: account(), kind: CommandKind::Extend, payload });
}

#[test]
fn a_command_is_validated_before_it_is_encoded() {
    let length: usize = (1 << 31) + 5;
    // Legal and too long: the encoder refuses.
    let r = Auction::place_bid(&fresh(), Address::new(vec![0u8; length]), 1, account(), 150);
    assert_eq!(r, Err(CommandError::Encoding(EncodingError::FieldTooLong { length })));
    // Not legal and too long: the transition table refuses first.
    let r = Auction::place_bid(&fresh(), Address::new(vec![0u8; length]), 1, account(), 250);
    assert_eq!(r, refused(Rejection::WindowClosed));
}

#[test]
fn prepare_holds_a_command_against_the_snapshot() {
    let other = Command::Close { auction_id: 9 };
    assert_eq!(prepare(&fresh(), &other, account(), 250), refused(Rejection::WrongAuction));
    let again = Command::Create { item: item(), start_time: 1, end_time: 2 };
    assert_eq!(prepare(&fresh(), &again, account(), 150), refused(Rejection::AlreadyCreated));
    let bid = Command::Bid { auction_id: 123, bidder: bidder(), amount: 70 };
    let tx = prepare(&led(), &bid, account(), 150).unwrap();
    assert_eq!(tx.kind, CommandKind::Bid);
    assert_eq!(decode(&tx.payload), Ok(bid));
}

#[test]
fn a_creation_with_an_oversized_field_is_not_built() {
    // A name of two gibibytes of zero bytes, which are valid UTF-8.
    let length: usize = 1 << 31;
    let name = String::from_utf8(vec![0u8; length]).unwrap();
    let r = Auction::create_auction(Item::new(name, String::new(), String::new()), 1, 2, account());
    assert_eq!(r, Err(EncodingError::FieldTooLong { length }));
}

#[test]
fn the_ledger_module_and_its_entry_functions() {
    assert_eq!(module_name(), "auction");
    assert_eq!(entry_function(CommandKind::Create), "create_auction");
    assert_eq!(entry_function(CommandKind::Bid), "place_bid");
    assert_eq!(entry_function(CommandKind::Close), "close_auction");
    assert_eq!(entry_function(CommandKind::Cancel), "cancel_auction");
    assert_eq!(entry_function(CommandKind::Extend), "extend_auction");
}

#[test]
fn what_was_submitted_is_read_back() {
    let create = Auction::create_auction(item(), 100, 200, account()).unwrap();
    let first = Auction::place_bid(&fresh(), bidder(), 50, account(), 150).unwrap();
    let second = Auction::place_bid(&led(), Address::new(vec![0x33; 32]), 70, account(), 160).unwrap();
    let events = vec![
        RawEvent::new(3, second.payload),
        RawEvent::new(1, create.payload),
        RawEvent::new(2, first.payload),
    ];
    let auction = Auction::get_auction(123, &events).unwrap();
    assert_eq!(auction.id, 123);
    assert_eq!(auction.item, item());
    assert_eq!(auction.version, 3);
    assert_eq!(
        Auction::get_highest_bid(123, &events),
        Ok(Some(Bid::new(Address::new(vec![0x33; 32]), 70, 3)))
    );
    assert_eq!(auction.current_highest_bid, Some(Bid::new(Address::new(vec![0x33; 32]), 70, 3)));
}

#[test]
fn an_auction_without_bids_has_no_highest_bid() {
    let create = Auction::create_auction(item(), 100, 200, account()).unwrap();
    assert_eq!(Auction::get_highest_bid(5, &vec![RawEvent::new(1, create.payload)]), Ok(None));
}

#[test]
fn an_auction_that_was_never_created_is_not_found() {
    assert_eq!(Auction::get_auction(5, &Vec::new()), Err(ReconcileError::MissingCreation));
    assert_eq!(Auction::get_highest_bid(5, &Vec::new()), Err(ReconcileError::MissingCreation));
}
