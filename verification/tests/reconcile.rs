use aptos_auction::model::{Address, Auction, AuctionState, Bid, Command, Item};
use aptos_auction::reconcile::{ordered_events, parse_event, reconcile, Event, RawEvent, ReconcileError};
use aptos_auction::wire::encode;

fn item() -> Item {
    Item::new("Lamp".to_string(), "An old lamp".to_string(), "https://example.com/l.jpg".to_string())
}

fn raw(sequence: u64, command: Command) -> RawEvent {
    RawEvent::new(sequence, encode(&command).unwrap())
}

fn created(sequence: u64) -> RawEvent {
    raw(sequence, Command::Create { item: item(), start_time: 100, end_time: 200 })
}

fn placed(sequence: u64, who: u8, amount: u64) -> RawEvent {
    raw(sequence, Command::Bid { auction_id: 7, bidder: Address::new(vec![who; 32]), amount })
}

fn top(auction: &Auction) -> Option<(u64, u64)> {
    auction.current_highest_bid.as_ref().map(|b| (b.amount, b.sequence))
}

#[test]
fn a_creation_alone_gives_a_pending_auction() {
    let auction = reconcile(7, &vec![created(1)]).unwrap();
    assert_eq!(auction, Auction::new(7, item(), 100, 200));
}

#[test]
fn bids_are_replayed_in_order() {
    let auction = reconcile(7, &vec![created(1), placed(2, 1, 50), placed(3, 2, 70)]).unwrap();
    assert_eq!(auction.current_highest_bid, Some(Bid::new(Address::new(vec![2; 32]), 70, 3)));
    assert_eq!(auction.state, AuctionState::Active);
    assert_eq!(auction.version, 3);
}

#[test]
fn events_out_of_order_give_the_same_snapshot() {
    let in_order = reconcile(7, &vec![created(1), placed(2, 1, 50), placed(3, 2, 70)]).unwrap();
    let swapped = reconcile(7, &vec![created(1), placed(3, 2, 70), placed(2, 1, 50)]).unwrap();
    assert_eq!(swapped, in_order);
    let reversed = reconcile(7, &vec![placed(3, 2, 70), placed(2, 1, 50), created(1)]).unwrap();
    assert_eq!(reversed, in_order);
    assert_eq!(top(&reversed), Some((70, 3)));
}

#[test]
fn the_order_of_sequence_numbers_decides_not_the_order_of_arrival() {
    // By sequence the bid of 70 comes first, so the bid of 50 is too low.
    let auction = reconcile(7, &vec![created(1), placed(3, 1, 50), placed(2, 2, 70)]).unwrap();
    assert_eq!(top(&auction), Some((70, 2)));
    assert_eq!(auction.version, 2);
}

#[test]
fn a_malformed_event_between_two_good_ones_is_passed_over() {
    let garbage = RawEvent::new(2, vec![1, 2, 3]);
    let with = reconcile(7, &vec![created(1), garbage, placed(3, 1, 50)]).unwrap();
    let without = reconcile(7, &vec![created(1), placed(3, 1, 50)]).unwrap();
    assert_eq!(with, without);
    assert_eq!(top(&with), Some((50, 3)));
    assert_eq!(with.version, 2);
}

#[test]
fn an_event_of_unknown_kind_is_passed_over() {
    let future = RawEvent::new(2, vec![9, 1, 2, 3]);
    assert_eq!(parse_event(&future), Ok(Event::Unknown { sequence: 2, tag: 9 }));
    let auction = reconcile(7, &vec![created(1), future, placed(3, 1, 50)]).unwrap();
    assert_eq!(top(&auction), Some((50, 3)));
    assert_eq!(auction.version, 2);
}

#[test]
fn an_event_before_the_creation_is_an_error() {
    assert_eq!(reconcile(7, &vec![placed(1, 1, 50), created(2)]), Err(ReconcileError::MissingCreation));
    assert_eq!(
        reconcile(7, &vec![raw(1, Command::Close { auction_id: 7 })]),
        Err(ReconcileError::MissingCreation)
    );
}

#[test]
fn no_creation_at_all_is_an_error() {
    assert_eq!(reconcile(7, &Vec::new()), Err(ReconcileError::MissingCreation));
    assert_eq!(reconcile(7, &vec![RawEvent::new(1, vec![0, 1])]), Err(ReconcileError::MissingCreation));
    assert_eq!(reconcile(7, &vec![RawEvent::new(1, vec![77])]), Err(ReconcileError::MissingCreation));
}

#[test]
fn malformed_bytes_are_reported_for_the_single_event() {
    assert_eq!(parse_event(&RawEvent::new(4, Vec::new())), Err(ReconcileError::MalformedEvent));
    assert_eq!(parse_event(&RawEvent::new(4, vec![1, 2, 3])), Err(ReconcileError::MalformedEvent));
    assert_eq!(
        parse_event(&placed(4, 1, 50)),
        Ok(Event::Recorded {
            sequence: 4,
            command: Command::Bid { auction_id: 7, bidder: Address::new(vec![1; 32]), amount: 50 },
        })
    );
}

#[test]
fn events_of_another_auction_are_passed_over() {
    let other = raw(2, Command::Bid { auction_id: 8, bidder: Address::new(vec![3; 32]), amount: 900 });
    let early = raw(0, Command::Close { auction_id: 8 });
    let auction = reconcile(7, &vec![early, created(1), other, placed(3, 1, 50)]).unwrap();
    assert_eq!(top(&auction), Some((50, 3)));
    assert_eq!(auction.version, 2);
}

#[test]
fn a_second_creation_is_passed_over() {
    let again = raw(2, Command::Create { item: item(), start_time: 1, end_time: 2 });
    let auction = reconcile(7, &vec![created(1), again]).unwrap();
    assert_eq!(auction, Auction::new(7, item(), 100, 200));
}

#[test]
fn what_could_never_have_been_legal_is_passed_over() {
    let events = vec![
        created(1),
        placed(2, 1, 50),
        placed(3, 2, 50),
        placed(4, 3, 20),
        raw(5, Command::Extend { auction_id: 7, new_end_time: 150 }),
        raw(6, Command::Extend { auction_id: 7, new_end_time: 300 }),
        raw(7, Command::Close { auction_id: 7 }),
        placed(8, 4, 1000),
        raw(9, Command::Cancel { auction_id: 7 }),
    ];
    let auction = reconcile(7, &events).unwrap();
    assert_eq!(top(&auction), Some((50, 2)));
    assert_eq!(auction.end_time, 300);
    assert_eq!(auction.state, AuctionState::Closed);
    assert_eq!(auction.version, 4);
}

#[test]
fn a_cancellation_is_final() {
    let events = vec![created(1), raw(2, Command::Cancel { auction_id: 7 }), placed(3, 1, 50)];
    let auction = reconcile(7, &events).unwrap();
    assert_eq!(auction.state, AuctionState::Cancelled);
    assert_eq!(auction.current_highest_bid, None);
    assert_eq!(auction.version, 2);
}

#[test]
fn events_are_put_in_the_order_of_their_sequence_numbers() {
    let events = ordered_events(&vec![
        placed(5, 1, 10),
        RawEvent::new(4, vec![1]),
        RawEvent::new(3, vec![9]),
        created(1),
        placed(5, 2, 20),
        placed(2, 3, 30),
    ]);
    let keys: Vec<u64> = events.iter().map(|e| e.sequence()).collect();
    assert_eq!(keys, vec![1, 2, 3, 5, 5]);
    let amounts: Vec<u64> = events
        .iter()
        .filter_map(|e| match e {
            Event::Recorded { command: Command::Bid { amount, .. }, .. } => Some(*amount),
            _ => None,
        })
        .collect();
    assert_eq!(amounts, vec![30, 10, 20]);
}

#[test]
fn malformed_events_are_passed_over_however_many() {
    let clean = vec![created(1), placed(3, 1, 50), placed(6, 2, 70)];
    let noisy = vec![
        RawEvent::new(0, Vec::new()),
        created(1),
        RawEvent::new(2, vec![1, 2, 3]),
        placed(3, 1, 50),
        RawEvent::new(4, vec![0, 0xff]),
        RawEvent::new(5, vec![200]),
        placed(6, 2, 70),
        RawEvent::new(7, vec![4, 1]),
    ];
    assert_eq!(reconcile(7, &noisy), reconcile(7, &clean));
    assert_eq!(top(&reconcile(7, &noisy).unwrap()), Some((70, 6)));
}

#[test]
fn the_clock_is_not_asked_again_in_a_replay() {
    let never_open = raw(1, Command::Create { item: item(), start_time: 200, end_time: 200 });
    let auction = reconcile(7, &vec![never_open, placed(2, 1, 50), placed(3, 2, 40), placed(4, 3, 60)]).unwrap();
    assert_eq!(top(&auction), Some((60, 4)));
    assert_eq!(auction.state, AuctionState::Active);
    assert_eq!(auction.version, 3);
}

#[test]
fn the_highest_bid_is_what_the_resolver_makes_of_all_bids() {
    let bids = vec![(2u64, 1u8, 50u64), (3, 2, 70), (4, 3, 70), (5, 4, 10), (6, 5, 71), (7, 6, 71)];
    let mut events = vec![created(1)];
    let mut all = Vec::new();
    for (sequence, who, amount) in bids {
        events.push(placed(sequence, who, amount));
        all.push(Bid::new(Address::new(vec![who; 32]), amount, sequence));
    }
    let auction = reconcile(7, &events).unwrap();
    assert_eq!(auction.current_highest_bid, aptos_auction::resolver::resolve(&all));
    assert_eq!(top(&auction), Some((71, 6)));
    assert_eq!(auction.version, 4);
}

#[test]
fn nothing_changes_after_the_final_event() {
    let at_zero = raw(1, Command::Create { item: item(), start_time: 0, end_time: 0 });
    let events = vec![
        at_zero,
        raw(2, Command::Cancel { auction_id: 7 }),
        placed(3, 1, 50),
        raw(4, Command::Extend { auction_id: 7, new_end_time: 900 }),
        raw(5, Command::Close { auction_id: 7 }),
    ];
    let auction = reconcile(7, &events).unwrap();
    assert_eq!(auction.state, AuctionState::Cancelled);
    assert_eq!(auction.current_highest_bid, None);
    assert_eq!(auction.end_time, 0);
    assert_eq!(auction.version, 2);
    let until_final = vec![
        raw(1, Command::Create { item: item(), start_time: 0, end_time: 0 }),
        raw(2, Command::Cancel { auction_id: 7 }),
    ];
    assert_eq!(auction, reconcile(7, &until_final).unwrap());
}
