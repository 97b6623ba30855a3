//! The bid resolver: which of a sequence of bids is the highest.

use crate::model::{bid_view, bid_views, Bid, BidView};
use vstd::prelude::*;

verus! {

/// `a` beats `b`: a larger amount, or the same amount recorded earlier.
pub open spec fn outbids(a: BidView, b: BidView) -> bool {
    a.amount > b.amount || (a.amount == b.amount && a.sequence < b.sequence)
}

/// The bid at index `i` is the one that resolution picks: no bid beats it,
/// and it beats every bid that stands before it.
pub open spec fn leads(bids: Seq<BidView>, i: int) -> bool {
    &&& 0 <= i < bids.len()
    &&& forall|j: int| 0 <= j < bids.len() ==> !outbids(#[trigger] bids[j], bids[i])
    &&& forall|j: int| 0 <= j < i ==> outbids(bids[i], #[trigger] bids[j])
}

/// The leader after one more bid has been seen.
pub open spec fn challenge(leader: Option<BidView>, bid: BidView) -> Option<BidView> {
    match leader {
        None => Some(bid),
        Some(best) => if outbids(bid, best) {
            Some(bid)
        } else {
            Some(best)
        },
    }
}

/// The leader after one more bid has been seen.
pub fn contest(leader: Option<Bid>, bid: Bid) -> (r: Option<Bid>)
    ensures
        bid_view(r) == challenge(bid_view(leader), bid@),
{
    match leader {
        None => Some(bid),
        Some(best) => if bid.amount > best.amount || (bid.amount == best.amount && bid.sequence
            < best.sequence) {
            Some(bid)
        } else {
            Some(best)
        },
    }
}

/// The highest bid of a sequence, as a fold from the left.
pub open spec fn winner(bids: Seq<BidView>) -> Option<BidView>
    decreases bids.len(),
{
    if bids.len() == 0 {
        None
    } else {
        challenge(winner(bids.drop_last()), bids.last())
    }
}

/// The fold and the direct description agree: the winner of a non-empty
/// sequence is the bid at the one index that leads it.
pub proof fn lemma_winner_leads(bids: Seq<BidView>) -> (i: int)
    requires
        bids.len() > 0,
    ensures
        leads(bids, i),
        winner(bids) == Some(bids[i]),
    decreases bids.len(),
{
    let front = bids.drop_last();
    if front.len() == 0 {
        assert(winner(front) is None);
        0
    } else {
        let k = lemma_winner_leads(front);
        assert forall|j: int| 0 <= j < front.len() implies front[j] == bids[j] by {}
        if outbids(bids.last(), front[k]) {
            let i = bids.len() - 1;
            assert forall|j: int| 0 <= j < bids.len() implies !outbids(
                #[trigger] bids[j],
                bids[i],
            ) by {
                if j < front.len() {
                    assert(!outbids(front[j], front[k]));
                }
            }
            assert forall|j: int| 0 <= j < i implies outbids(bids[i], #[trigger] bids[j]) by {
                assert(!outbids(front[j], front[k]));
            }
            i
        } else {
            assert forall|j: int| 0 <= j < bids.len() implies !outbids(
                #[trigger] bids[j],
                bids[k],
            ) by {
                if j < front.len() {
                    assert(!outbids(front[j], front[k]));
                }
            }
            assert forall|j: int| 0 <= j < k implies outbids(bids[k], #[trigger] bids[j]) by {
                assert(outbids(front[k], front[j]));
            }
            k
        }
    }
}

/// Only one index can lead a sequence.
pub proof fn lemma_leader_unique(bids: Seq<BidView>, i: int, j: int)
    requires
        leads(bids, i),
        leads(bids, j),
    ensures
        i == j,
{
    if i < j {
        assert(outbids(bids[j], bids[i]));
        assert(!outbids(bids[j], bids[i]));
    } else if j < i {
        assert(outbids(bids[i], bids[j]));
        assert(!outbids(bids[i], bids[j]));
    }
}

/// Seeing more bids never lowers the resolved amount: the winner of any
/// prefix bids no more than the winner of the whole sequence.
pub proof fn lemma_winner_monotonic(bids: Seq<BidView>, n: int)
    requires
        0 <= n <= bids.len(),
    ensures
        winner(bids.take(n)) matches Some(earlier) ==> (winner(bids) matches Some(later)
            && later.amount >= earlier.amount),
    decreases bids.len() - n,
{
    if n < bids.len() {
        let next = bids.take(n + 1);
        assert(next.drop_last() == bids.take(n));
        assert(next.last() == bids[n]);
        lemma_winner_monotonic(bids, n + 1);
    } else {
        assert(bids.take(n) == bids);
    }
}

/// A single bid wins.
pub proof fn lemma_winner_single(a: BidView)
    ensures
        winner(seq![a]) == Some(a),
{
    let s = seq![a];
    assert(s.drop_last().len() == 0);
    assert(winner(s.drop_last()) is None);
    assert(s.last() == a);
}

/// Of two bids of equal amount the one recorded earlier wins, whichever
/// comes first in the input.
pub proof fn lemma_tie_break(a: BidView, b: BidView)
    requires
        a.amount == b.amount,
        a.sequence < b.sequence,
    ensures
        winner(seq![a, b]) == Some(a),
        winner(seq![b, a]) == Some(a),
{
    let ab = seq![a, b];
    let ba = seq![b, a];
    assert(ab.drop_last() == seq![a]);
    assert(ba.drop_last() == seq![b]);
    lemma_winner_single(a);
    lemma_winner_single(b);
}

/// No two bids of the sequence share both amount and sequence number,
/// unless they are the same bid.
pub open spec fn keys_identify(bids: Seq<BidView>) -> bool {
    forall|i: int, j: int|
        0 <= i < bids.len() && 0 <= j < bids.len() && (#[trigger] bids[i]).amount == (
        #[trigger] bids[j]).amount && bids[i].sequence == bids[j].sequence ==> bids[i] == bids[j]
}

/// Resolution does not depend on the order of the input: two sequences
/// that hold the same bids resolve to the same bid.
pub proof fn lemma_winner_order_independent(s: Seq<BidView>, t: Seq<BidView>)
    requires
        s.to_multiset() == t.to_multiset(),
        keys_identify(s),
    ensures
        winner(s) == winner(t),
{
    s.to_multiset_ensures();
    t.to_multiset_ensures();
    if s.len() > 0 {
        let i = lemma_winner_leads(s);
        let k = lemma_winner_leads(t);
        assert(t.contains(t[k]));
        assert(t.to_multiset().count(t[k]) > 0);
        assert(s.to_multiset().count(t[k]) > 0);
        assert(s.contains(t[k]));
        let j = choose|j: int| 0 <= j < s.len() && s[j] == t[k];
        assert(s.contains(s[i]));
        assert(s.to_multiset().count(s[i]) > 0);
        assert(t.to_multiset().count(s[i]) > 0);
        assert(t.contains(s[i]));
        let m = choose|m: int| 0 <= m < t.len() && t[m] == s[i];
        assert(!outbids(s[j], s[i]));
        assert(!outbids(t[m], t[k]));
    } else {
        assert(t.len() == 0);
    }
}

/// Resolution can resume from an earlier result: the winner of `s` followed
/// by `t` is the winner of the earlier winner followed by `t`.
pub proof fn lemma_winner_resumes(s: Seq<BidView>, t: Seq<BidView>)
    ensures
        winner(s + t) == match winner(s) {
            None => winner(t),
            Some(w) => winner(seq![w] + t),
        },
    decreases t.len(),
{
    if t.len() == 0 {
        assert(s + t == s);
        if let Some(w) = winner(s) {
            assert(seq![w] + t == seq![w]);
            lemma_winner_single(w);
        } else {
            assert(winner(t) is None);
        }
    } else {
        lemma_winner_resumes(s, t.drop_last());
        assert((s + t).drop_last() == s + t.drop_last());
        assert((s + t).last() == t.last());
        match winner(s) {
            None => {
                assert(s.len() == 0) by {
                    if s.len() > 0 {
                        lemma_winner_leads(s);
                    }
                }
                assert(s + t == t);
                assert(s + t.drop_last() == t.drop_last());
            },
            Some(w) => {
                assert((seq![w] + t).drop_last() == seq![w] + t.drop_last());
                assert((seq![w] + t).last() == t.last());
            },
        }
    }
}

/// Resolution can be repeated: whatever two runs on the same bids return,
/// they return the same.
pub proof fn lemma_resolution_repeats(
    first_input: Seq<Bid>,
    first_result: Option<Bid>,
    second_input: Seq<Bid>,
    second_result: Option<Bid>,
)
    requires
        bid_views(first_input) == bid_views(second_input),
        bid_view(first_result) == winner(bid_views(first_input)),
        bid_view(second_result) == winner(bid_views(second_input)),
    ensures
        bid_view(first_result) == bid_view(second_result),
{
}

/// Resolves the highest bid: the greatest amount, and among equal amounts
/// the lowest sequence number; of bids equal in both, the first in the input.
pub fn resolve(bid_events: &Vec<Bid>) -> (r: Option<Bid>)
    ensures
        r is None <==> bid_events.len() == 0,
        bid_view(r) == winner(bid_views(bid_events@)),
        r matches Some(b) ==> exists|i: int|
            leads(bid_views(bid_events@), i) && #[trigger] bid_views(bid_events@)[i] == b@,
{
    let ghost views = bid_views(bid_events@);
    if bid_events.len() == 0 {
        return None;
    }
    let mut best: usize = 0;
    let mut i: usize = 1;
    proof {
        assert(views.take(1).drop_last().len() == 0);
        assert(winner(views.take(1).drop_last()) is None);
        assert(views.take(1).last() == views[0]);
    }
    while i < bid_events.len()
        invariant
            views == bid_views(bid_events@),
            1 <= i <= bid_events.len(),
            best < i,
            winner(views.take(i as int)) == Some(views[best as int]),
        decreases bid_events.len() - i,
    {
        let candidate = &bid_events[i];
        let leader = &bid_events[best];
        proof {
            let next = views.take(i + 1);
            assert(next.drop_last() == views.take(i as int));
            assert(next.last() == views[i as int]);
            assert(views[i as int] == candidate@);
            assert(views[best as int] == leader@);
        }
        if candidate.amount > leader.amount || (candidate.amount == leader.amount
            && candidate.sequence < leader.sequence) {
            best = i;
        }
        i += 1;
    }
    proof {
        assert(views.take(i as int) == views);
        let k = lemma_winner_leads(views);
        assert(views[k] == views[best as int]);
        assert(views[best as int] == bid_events@[best as int]@);
    }
    Some(bid_events[best].clone())
}

} // verus!
