use aptos_auction::model::{Address, Bid};
use aptos_auction::resolver::{contest, resolve};

fn bid(who: u8, amount: u64, sequence: u64) -> Bid {
    Bid::new(Address::new(vec![who; 32]), amount, sequence)
}

#[test]
fn resolve_of_nothing_is_none() {
    assert_eq!(resolve(&Vec::new()), None);
}

#[test]
fn resolve_keeps_the_greatest_amount() {
    let bids = vec![bid(1, 50, 1), bid(2, 70, 2), bid(3, 60, 3)];
    assert_eq!(resolve(&bids), Some(bid(2, 70, 2)));
}

#[test]
fn equal_amounts_go_to_the_earlier_sequence_number() {
    assert_eq!(resolve(&vec![bid(1, 50, 4), bid(2, 50, 9)]), Some(bid(1, 50, 4)));
    assert_eq!(resolve(&vec![bid(2, 50, 9), bid(1, 50, 4)]), Some(bid(1, 50, 4)));
}

#[test]
fn bids_equal_in_amount_and_sequence_go_to_the_first() {
    assert_eq!(resolve(&vec![bid(1, 50, 4), bid(2, 50, 4)]), Some(bid(1, 50, 4)));
    assert_eq!(resolve(&vec![bid(2, 50, 4), bid(1, 50, 4)]), Some(bid(2, 50, 4)));
}

#[test]
fn the_resolved_amount_never_falls_as_bids_are_added() {
    let bids = vec![bid(1, 5, 1), bid(2, 3, 2), bid(3, 9, 3), bid(4, 9, 4), bid(5, 1, 5), bid(6, 12, 6)];
    let mut last = 0;
    for n in 1..=bids.len() {
        let prefix: Vec<Bid> = bids[..n].to_vec();
        let amount = resolve(&prefix).unwrap().amount;
        assert!(amount >= last);
        last = amount;
    }
    assert_eq!(last, 12);
}

#[test]
fn resolving_twice_gives_the_same() {
    let bids = vec![bid(1, 5, 1), bid(2, 30, 2), bid(3, 9, 3)];
    assert_eq!(resolve(&bids), resolve(&bids));
    assert_eq!(resolve(&bids), resolve(&bids.clone()));
}

#[test]
fn the_order_of_the_input_does_not_matter() {
    let a = vec![bid(1, 5, 1), bid(2, 30, 2), bid(3, 30, 3), bid(4, 7, 4)];
    let b = vec![bid(3, 30, 3), bid(4, 7, 4), bid(2, 30, 2), bid(1, 5, 1)];
    assert_eq!(resolve(&a), Some(bid(2, 30, 2)));
    assert_eq!(resolve(&b), Some(bid(2, 30, 2)));
}

#[test]
fn resolution_resumes_from_an_earlier_result() {
    let head = vec![bid(1, 5, 1), bid(2, 30, 2)];
    let rest = vec![bid(3, 9, 3), bid(4, 31, 4)];
    let mut all = head.clone();
    all.extend(rest.clone());
    let mut resumed = vec![resolve(&head).unwrap()];
    resumed.extend(rest);
    assert_eq!(resolve(&resumed), resolve(&all));
    assert_eq!(resolve(&all), Some(bid(4, 31, 4)));
}

#[test]
fn a_challenger_must_beat_the_leader() {
    assert_eq!(contest(None, bid(1, 5, 1)), Some(bid(1, 5, 1)));
    assert_eq!(contest(Some(bid(1, 5, 1)), bid(2, 5, 2)), Some(bid(1, 5, 1)));
    assert_eq!(contest(Some(bid(1, 5, 2)), bid(2, 5, 1)), Some(bid(2, 5, 1)));
    assert_eq!(contest(Some(bid(1, 5, 1)), bid(2, 6, 2)), Some(bid(2, 6, 2)));
    assert_eq!(contest(Some(bid(1, 5, 1)), bid(2, 4, 0)), Some(bid(1, 5, 1)));
}
