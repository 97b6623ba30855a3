use aptos_auction::gaps::{first_gap, visibility, Visibility};
use aptos_auction::model::{Auction, AuctionState, Item};
use aptos_auction::reconcile::{refresh, RawEvent};

fn delivery(sequences: &[u64]) -> Vec<RawEvent> {
    sequences.iter().map(|s| RawEvent::new(*s, vec![9])).collect()
}

#[test]
fn a_delivery_without_a_gap_has_none() {
    assert_eq!(first_gap(&delivery(&[]), 1), None);
    assert_eq!(first_gap(&delivery(&[1]), 1), None);
    assert_eq!(first_gap(&delivery(&[3, 1, 2]), 1), None);
    assert_eq!(first_gap(&delivery(&[3, 1, 2, 2, 3]), 1), None);
}

#[test]
fn the_first_missing_number_below_a_present_one_is_the_gap() {
    assert_eq!(first_gap(&delivery(&[1, 2, 4]), 1), Some(3));
    assert_eq!(first_gap(&delivery(&[4, 1, 2]), 1), Some(3));
    assert_eq!(first_gap(&delivery(&[7, 5]), 1), Some(1));
    assert_eq!(first_gap(&delivery(&[1, 2, 4, 6]), 1), Some(3));
    assert_eq!(first_gap(&delivery(&[u64::MAX, u64::MAX - 2]), u64::MAX - 2), Some(u64::MAX - 1));
}

#[test]
fn what_lies_before_the_start_does_not_count() {
    assert_eq!(first_gap(&delivery(&[1, 2, 4]), 4), None);
    assert_eq!(first_gap(&delivery(&[1, 2, 4]), 5), None);
    assert_eq!(first_gap(&delivery(&[1, 5, 6, 8]), 5), Some(7));
    assert_eq!(first_gap(&delivery(&[1, 5, 6, 8]), 3), Some(3));
}

#[test]
fn a_gap_is_waited_for_until_the_threshold() {
    let events = delivery(&[1, 2, 4]);
    assert_eq!(visibility(&events, 1, 0, 500), Visibility::Waiting { missing: 3 });
    assert_eq!(visibility(&events, 1, 499, 500), Visibility::Waiting { missing: 3 });
    assert_eq!(visibility(&events, 1, 500, 500), Visibility::Stale { missing: 3 });
    assert_eq!(visibility(&events, 1, 9000, 500), Visibility::Stale { missing: 3 });
    assert_eq!(visibility(&delivery(&[1, 2, 3]), 1, 9000, 500), Visibility::Complete);
    assert_eq!(visibility(&delivery(&[1, 2, 3]), 1, 0, 0), Visibility::Complete);
}

fn snapshot(id: u64, version: u64) -> Auction {
    let mut auction = Auction::new(id, Item::new("a".to_string(), "b".to_string(), "c".to_string()), 1, 2);
    auction.version = version;
    if version > 1 {
        auction.state = AuctionState::Active;
    }
    auction
}

#[test]
fn a_fresh_snapshot_replaces_the_cached_one_as_a_whole() {
    assert_eq!(refresh(None, snapshot(7, 1)), snapshot(7, 1));
    assert_eq!(refresh(Some(snapshot(7, 2)), snapshot(7, 3)), snapshot(7, 3));
    assert_eq!(refresh(Some(snapshot(7, 3)), snapshot(7, 3)), snapshot(7, 3));
}

#[test]
fn a_snapshot_from_a_stale_read_does_not_replace_a_newer_one() {
    assert_eq!(refresh(Some(snapshot(7, 5)), snapshot(7, 3)), snapshot(7, 5));
    assert_eq!(refresh(Some(snapshot(8, 5)), snapshot(7, 3)), snapshot(7, 3));
}
