//! What reconciliation does not depend on: the order in which the events
//! arrive, and the events that cannot be decoded.

use crate::reconcile::{
    ordered, reconciled, replayed, slotted, typed, visible, EventView, RawEventView,
};
use vstd::prelude::*;

verus! {

/// No two raw events share a sequence number.
pub open spec fn distinct_sequences(raws: Seq<RawEventView>) -> bool {
    forall|i: int, j: int|
        0 <= i < j < raws.len() ==> (#[trigger] raws[i]).sequence != (#[trigger] raws[j]).sequence
}

/// No two events share a sequence number.
pub open spec fn distinct_keys(events: Seq<EventView>) -> bool {
    forall|i: int, j: int|
        0 <= i < j < events.len() ==> (#[trigger] events[i]).sequence() != (
        #[trigger] events[j]).sequence()
}

/// The sequence numbers rise from each event to the next.
pub open spec fn rising(events: Seq<EventView>) -> bool {
    forall|i: int, j: int|
        0 <= i < j < events.len() ==> (#[trigger] events[i]).sequence() < (
        #[trigger] events[j]).sequence()
}

/// The sequence numbers do not fall from any event to the next.
pub open spec fn not_falling(events: Seq<EventView>) -> bool {
    forall|i: int, j: int|
        0 <= i < j < events.len() ==> (#[trigger] events[i]).sequence() <= (
        #[trigger] events[j]).sequence()
}

/// The decodable events of two deliveries, one after the other, are those
/// of the first followed by those of the second.
pub proof fn lemma_visible_concat(u: Seq<RawEventView>, v: Seq<RawEventView>)
    ensures
        visible(u + v) == visible(u) + visible(v),
    decreases v.len(),
{
    if v.len() == 0 {
        assert(u + v == u);
        assert(visible(u) + visible(v) == visible(u));
    } else {
        lemma_visible_concat(u, v.drop_last());
        assert((u + v).drop_last() == u + v.drop_last());
        assert((u + v).last() == v.last());
        match typed(v.last()) {
            Some(event) => {
                assert((visible(u) + visible(v.drop_last())).push(event) == visible(u) + visible(
                    v.drop_last(),
                ).push(event));
            },
            None => {},
        }
    }
}

/// An event that cannot be decoded changes nothing, wherever it stands in
/// the delivery.
pub proof fn lemma_malformed_is_passed_over(
    id: u64,
    before: Seq<RawEventView>,
    malformed: RawEventView,
    after: Seq<RawEventView>,
)
    requires
        typed(malformed) is None,
    ensures
        reconciled(id, before + seq![malformed] + after) == reconciled(id, before + after),
{
    let one = seq![malformed];
    assert(one.drop_last().len() == 0);
    assert(visible(one.drop_last()) == Seq::<EventView>::empty());
    assert(one.last() == malformed);
    assert(visible(one) == Seq::<EventView>::empty());
    lemma_visible_concat(before, one);
    lemma_visible_concat(before + one, after);
    lemma_visible_concat(before, after);
    assert(visible(before) + visible(one) == visible(before));
}

/// Every decodable event comes from a raw event of the delivery, and has
/// its sequence number.
pub proof fn lemma_visible_source(raws: Seq<RawEventView>, k: int) -> (i: int)
    requires
        0 <= k < visible(raws).len(),
    ensures
        0 <= i < raws.len(),
        typed(raws[i]) == Some(visible(raws)[k]),
        raws[i].sequence == visible(raws)[k].sequence(),
    decreases raws.len(),
{
    let front = raws.drop_last();
    match typed(raws.last()) {
        Some(event) => {
            if k == visible(front).len() {
                raws.len() - 1
            } else {
                lemma_visible_source(front, k)
            }
        },
        None => lemma_visible_source(front, k),
    }
}

/// Every raw event that can be decoded is among the decodable events.
pub proof fn lemma_visible_holds(raws: Seq<RawEventView>, i: int)
    requires
        0 <= i < raws.len(),
        typed(raws[i]) is Some,
    ensures
        visible(raws).contains(typed(raws[i])->0),
    decreases raws.len(),
{
    let front = raws.drop_last();
    let seen = visible(front);
    if i == raws.len() - 1 {
        let event = typed(raws.last())->0;
        assert(seen.push(event)[seen.len() as int] == event);
    } else {
        lemma_visible_holds(front, i);
        let event = typed(raws[i])->0;
        let k = choose|k: int| 0 <= k < seen.len() && seen[k] == event;
        match typed(raws.last()) {
            Some(last) => {
                assert(seen.push(last)[k] == event);
            },
            None => {},
        }
    }
}

/// Raw events of distinct sequence numbers decode to events of distinct
/// sequence numbers.
pub proof fn lemma_visible_distinct(raws: Seq<RawEventView>)
    requires
        distinct_sequences(raws),
    ensures
        distinct_keys(visible(raws)),
    decreases raws.len(),
{
    if raws.len() > 0 {
        let front = raws.drop_last();
        assert(distinct_sequences(front)) by {
            assert forall|i: int, j: int| 0 <= i < j < front.len() implies (#[trigger] front[i]).sequence
                != (#[trigger] front[j]).sequence by {
                assert(front[i] == raws[i] && front[j] == raws[j]);
            }
        }
        lemma_visible_distinct(front);
        let seen = visible(front);
        let all = visible(raws);
        if typed(raws.last()) is Some {
            assert forall|i: int, j: int| 0 <= i < j < all.len() implies (#[trigger] all[i]).sequence()
                != (#[trigger] all[j]).sequence() by {
                if j == seen.len() {
                    let source = lemma_visible_source(front, i);
                    assert(front[source] == raws[source]);
                    assert(raws[source].sequence != raws[raws.len() - 1].sequence);
                } else {
                    assert(seen[i] == all[i] && seen[j] == all[j]);
                }
            }
        }
    }
}

/// `slotted` adds the event and keeps the others.
pub proof fn lemma_slotted_holds(events: Seq<EventView>, event: EventView, other: EventView)
    ensures
        slotted(events, event).contains(other) <==> (events.contains(other) || other == event),
        slotted(events, event).len() == events.len() + 1,
    decreases events.len(),
{
    let out = slotted(events, event);
    if events.len() == 0 {
        assert(out[0] == event);
    } else if events.last().sequence() <= event.sequence() {
        assert(out[events.len() as int] == event);
        if events.contains(other) {
            let k = choose|k: int| 0 <= k < events.len() && events[k] == other;
            assert(out[k] == other);
        }
        if out.contains(other) {
            let k = choose|k: int| 0 <= k < out.len() && out[k] == other;
            if k < events.len() {
                assert(events[k] == other);
            }
        }
    } else {
        let front = events.drop_last();
        let inner = slotted(front, event);
        lemma_slotted_holds(front, event, other);
        assert(out == inner.push(events.last()));
        if out.contains(other) {
            let k = choose|k: int| 0 <= k < out.len() && out[k] == other;
            if k < inner.len() {
                assert(inner[k] == other);
                assert(inner.contains(other));
                if front.contains(other) {
                    let m = choose|m: int| 0 <= m < front.len() && front[m] == other;
                    assert(events[m] == other);
                }
            } else {
                assert(events[events.len() - 1] == other);
            }
        }
        if events.contains(other) {
            let m = choose|m: int| 0 <= m < events.len() && events[m] == other;
            if m == events.len() - 1 {
                assert(out[inner.len() as int] == other);
            } else {
                assert(front[m] == other);
                assert(front.contains(other));
                let k = choose|k: int| 0 <= k < inner.len() && inner[k] == other;
                assert(out[k] == other);
            }
        }
        if other == event {
            assert(inner.contains(other));
            let k = choose|k: int| 0 <= k < inner.len() && inner[k] == other;
            assert(out[k] == other);
        }
    }
}

/// Ordering keeps the events: none is lost, none is added.
pub proof fn lemma_ordered_holds(events: Seq<EventView>, other: EventView)
    ensures
        ordered(events).contains(other) <==> events.contains(other),
        ordered(events).len() == events.len(),
    decreases events.len(),
{
    if events.len() > 0 {
        let front = events.drop_last();
        lemma_ordered_holds(front, other);
        lemma_slotted_holds(ordered(front), events.last(), other);
        if front.contains(other) {
            let m = choose|m: int| 0 <= m < front.len() && front[m] == other;
            assert(events[m] == other);
        }
        if events.contains(other) {
            let m = choose|m: int| 0 <= m < events.len() && events[m] == other;
            if m < front.len() {
                assert(front[m] == other);
            }
        }
    }
}

/// `slotted` keeps an order in which the sequence numbers do not fall.
pub proof fn lemma_slotted_not_falling(events: Seq<EventView>, event: EventView)
    requires
        not_falling(events),
    ensures
        not_falling(slotted(events, event)),
    decreases events.len(),
{
    let out = slotted(events, event);
    if events.len() == 0 {
    } else if events.last().sequence() <= event.sequence() {
        assert forall|i: int, j: int| 0 <= i < j < out.len() implies (#[trigger] out[i]).sequence()
            <= (#[trigger] out[j]).sequence() by {
            if j == events.len() {
                assert(out[i] == events[i]);
                if i < events.len() - 1 {
                    assert(events[i].sequence() <= events[events.len() - 1].sequence());
                }
            } else {
                assert(out[i] == events[i] && out[j] == events[j]);
            }
        }
    } else {
        let front = events.drop_last();
        let inner = slotted(front, event);
        assert(not_falling(front)) by {
            assert forall|i: int, j: int| 0 <= i < j < front.len() implies (#[trigger] front[i]).sequence()
                <= (#[trigger] front[j]).sequence() by {
                assert(front[i] == events[i] && front[j] == events[j]);
            }
        }
        lemma_slotted_not_falling(front, event);
        assert forall|i: int, j: int| 0 <= i < j < out.len() implies (#[trigger] out[i]).sequence()
            <= (#[trigger] out[j]).sequence() by {
            if j == inner.len() {
                assert(out[i] == inner[i]);
                lemma_slotted_holds(front, event, inner[i]);
                assert(inner.contains(inner[i]));
                if front.contains(inner[i]) {
                    let m = choose|m: int| 0 <= m < front.len() && front[m] == inner[i];
                    assert(events[m].sequence() <= events[events.len() - 1].sequence());
                }
            } else {
                assert(out[i] == inner[i] && out[j] == inner[j]);
            }
        }
    }
}

/// Ordering gives an order in which the sequence numbers do not fall.
pub proof fn lemma_ordered_not_falling(events: Seq<EventView>)
    ensures
        not_falling(ordered(events)),
    decreases events.len(),
{
    if events.len() > 0 {
        lemma_ordered_not_falling(events.drop_last());
        lemma_slotted_not_falling(ordered(events.drop_last()), events.last());
    }
}

/// Where no two events share a sequence number, ordering gives an order in
/// which the sequence numbers rise.
pub proof fn lemma_ordered_rising(events: Seq<EventView>)
    requires
        distinct_keys(events),
    ensures
        rising(ordered(events)),
{
    let out = ordered(events);
    lemma_ordered_not_falling(events);
    assert forall|i: int, j: int| 0 <= i < j < out.len() implies (#[trigger] out[i]).sequence() < (
    #[trigger] out[j]).sequence() by {
        if out[i].sequence() == out[j].sequence() {
            lemma_ordered_distinct(events);
        }
    }
}

/// Ordering keeps the sequence numbers distinct.
pub proof fn lemma_ordered_distinct(events: Seq<EventView>)
    requires
        distinct_keys(events),
    ensures
        distinct_keys(ordered(events)),
    decreases events.len(),
{
    if events.len() > 0 {
        let front = events.drop_last();
        let last = events.last();
        assert(distinct_keys(front)) by {
            assert forall|i: int, j: int| 0 <= i < j < front.len() implies (#[trigger] front[i]).sequence()
                != (#[trigger] front[j]).sequence() by {
                assert(front[i] == events[i] && front[j] == events[j]);
            }
        }
        lemma_ordered_distinct(front);
        let base = ordered(front);
        assert forall|k: int| 0 <= k < base.len() implies (#[trigger] base[k]).sequence()
            != last.sequence() by {
            lemma_ordered_holds(front, base[k]);
            assert(base.contains(base[k]));
            let m = choose|m: int| 0 <= m < front.len() && front[m] == base[k];
            assert(events[m].sequence() != events[events.len() - 1].sequence());
        }
        lemma_slotted_distinct(base, last);
    }
}

/// `slotted` keeps the sequence numbers distinct where the new event brings
/// a new one.
pub proof fn lemma_slotted_distinct(events: Seq<EventView>, event: EventView)
    requires
        distinct_keys(events),
        forall|k: int| 0 <= k < events.len() ==> (#[trigger] events[k]).sequence() != event.sequence(),
    ensures
        distinct_keys(slotted(events, event)),
    decreases events.len(),
{
    let out = slotted(events, event);
    if events.len() == 0 {
    } else if events.last().sequence() <= event.sequence() {
        assert forall|i: int, j: int| 0 <= i < j < out.len() implies (#[trigger] out[i]).sequence()
            != (#[trigger] out[j]).sequence() by {
            if j == events.len() {
                assert(out[i] == events[i]);
            } else {
                assert(out[i] == events[i] && out[j] == events[j]);
            }
        }
    } else {
        let front = events.drop_last();
        let inner = slotted(front, event);
        assert(distinct_keys(front)) by {
            assert forall|i: int, j: int| 0 <= i < j < front.len() implies (#[trigger] front[i]).sequence()
                != (#[trigger] front[j]).sequence() by {
                assert(front[i] == events[i] && front[j] == events[j]);
            }
        }
        assert forall|k: int| 0 <= k < front.len() implies (#[trigger] front[k]).sequence()
            != event.sequence() by {
            assert(front[k] == events[k]);
        }
        lemma_slotted_distinct(front, event);
        assert forall|i: int, j: int| 0 <= i < j < out.len() implies (#[trigger] out[i]).sequence()
            != (#[trigger] out[j]).sequence() by {
            if j == inner.len() {
                assert(out[i] == inner[i]);
                lemma_slotted_holds(front, event, inner[i]);
                assert(inner.contains(inner[i]));
                if front.contains(inner[i]) {
                    let m = choose|m: int| 0 <= m < front.len() && front[m] == inner[i];
                    assert(events[m].sequence() != events[events.len() - 1].sequence());
                }
            } else {
                assert(out[i] == inner[i] && out[j] == inner[j]);
            }
        }
    }
}

/// Two sequences of rising sequence numbers that hold the same events are
/// the same sequence.
pub proof fn lemma_rising_unique(x: Seq<EventView>, y: Seq<EventView>)
    requires
        rising(x),
        rising(y),
        forall|e: EventView| x.contains(e) <==> y.contains(e),
    ensures
        x == y,
    decreases x.len(),
{
    if x.len() == 0 {
        if y.len() > 0 {
            assert(y.contains(y[0]));
        }
        assert(x =~= y);
    } else {
        assert(x.contains(x.last()));
        assert(y.contains(x.last()));
        let a = choose|a: int| 0 <= a < y.len() && y[a] == x.last();
        assert(y.contains(y.last()));
        assert(x.contains(y.last()));
        let b = choose|b: int| 0 <= b < x.len() && x[b] == y.last();
        assert(a == y.len() - 1) by {
            if a < y.len() - 1 {
                assert(y[a].sequence() < y[y.len() - 1].sequence());
                if b < x.len() - 1 {
                    assert(x[b].sequence() < x[x.len() - 1].sequence());
                }
            }
        }
        let xf = x.drop_last();
        let yf = y.drop_last();
        assert(rising(xf)) by {
            assert forall|i: int, j: int| 0 <= i < j < xf.len() implies (#[trigger] xf[i]).sequence() < (
            #[trigger] xf[j]).sequence() by {
                assert(xf[i] == x[i] && xf[j] == x[j]);
            }
        }
        assert(rising(yf)) by {
            assert forall|i: int, j: int| 0 <= i < j < yf.len() implies (#[trigger] yf[i]).sequence() < (
            #[trigger] yf[j]).sequence() by {
                assert(yf[i] == y[i] && yf[j] == y[j]);
            }
        }
        assert forall|e: EventView| xf.contains(e) <==> yf.contains(e) by {
            if xf.contains(e) {
                let i = choose|i: int| 0 <= i < xf.len() && xf[i] == e;
                assert(x[i] == e);
                assert(x.contains(e));
                let k = choose|k: int| 0 <= k < y.len() && y[k] == e;
                if k == y.len() - 1 {
                    assert(x[i].sequence() < x[x.len() - 1].sequence());
                }
                assert(yf[k] == e);
            }
            if yf.contains(e) {
                let i = choose|i: int| 0 <= i < yf.len() && yf[i] == e;
                assert(y[i] == e);
                assert(y.contains(e));
                let k = choose|k: int| 0 <= k < x.len() && x[k] == e;
                if k == x.len() - 1 {
                    assert(y[i].sequence() < y[y.len() - 1].sequence());
                }
                assert(xf[k] == e);
            }
        }
        lemma_rising_unique(xf, yf);
        assert(x == xf.push(x.last()));
        assert(y == yf.push(y.last()));
    }
}

/// Reconciliation does not depend on the order of arrival: two deliveries
/// of the same raw events, each under its own sequence number, give the
/// same result.
pub proof fn lemma_order_of_arrival(id: u64, a: Seq<RawEventView>, b: Seq<RawEventView>)
    requires
        distinct_sequences(a),
        distinct_sequences(b),
        forall|r: RawEventView| a.contains(r) <==> b.contains(r),
    ensures
        ordered(visible(a)) == ordered(visible(b)),
        reconciled(id, a) == reconciled(id, b),
{
    let va = visible(a);
    let vb = visible(b);
    lemma_visible_distinct(a);
    lemma_visible_distinct(b);
    lemma_ordered_rising(va);
    lemma_ordered_rising(vb);
    assert forall|e: EventView| ordered(va).contains(e) <==> ordered(vb).contains(e) by {
        lemma_ordered_holds(va, e);
        lemma_ordered_holds(vb, e);
        if va.contains(e) {
            lemma_same_events_visible(a, b, e);
        }
        if vb.contains(e) {
            lemma_same_events_visible(b, a, e);
        }
    }
    lemma_rising_unique(ordered(va), ordered(vb));
}

proof fn lemma_same_events_visible(a: Seq<RawEventView>, b: Seq<RawEventView>, e: EventView)
    requires
        forall|r: RawEventView| a.contains(r) <==> b.contains(r),
        visible(a).contains(e),
    ensures
        visible(b).contains(e),
{
    let k = choose|k: int| 0 <= k < visible(a).len() && visible(a)[k] == e;
    let i = lemma_visible_source(a, k);
    assert(a.contains(a[i]));
    assert(b.contains(a[i]));
    let j = choose|j: int| 0 <= j < b.len() && b[j] == a[i];
    lemma_visible_holds(b, j);
}

/// The raw events that can be decoded, in the order of the input.
pub open spec fn decodable(raws: Seq<RawEventView>) -> Seq<RawEventView>
    decreases raws.len(),
{
    if raws.len() == 0 {
        Seq::empty()
    } else if typed(raws.last()) is Some {
        decodable(raws.drop_last()).push(raws.last())
    } else {
        decodable(raws.drop_last())
    }
}

/// The events that cannot be decoded change nothing, however many they are:
/// a delivery gives what it gives without them.
pub proof fn lemma_undecodable_are_passed_over(id: u64, raws: Seq<RawEventView>)
    ensures
        visible(decodable(raws)) == visible(raws),
        reconciled(id, decodable(raws)) == reconciled(id, raws),
    decreases raws.len(),
{
    if raws.len() > 0 {
        let front = raws.drop_last();
        lemma_undecodable_are_passed_over(id, front);
        if typed(raws.last()) is Some {
            let kept = decodable(front).push(raws.last());
            assert(kept.drop_last() == decodable(front));
            assert(kept.last() == raws.last());
        }
    }
}

/// The events that are recorded commands, in the order of the input: the
/// events without those of unknown kind.
pub open spec fn recorded(events: Seq<EventView>) -> Seq<EventView>
    decreases events.len(),
{
    if events.len() == 0 {
        Seq::empty()
    } else if events.last() is Recorded {
        recorded(events.drop_last()).push(events.last())
    } else {
        recorded(events.drop_last())
    }
}

proof fn lemma_recorded_concat(u: Seq<EventView>, v: Seq<EventView>)
    ensures
        recorded(u + v) == recorded(u) + recorded(v),
    decreases v.len(),
{
    if v.len() == 0 {
        assert(u + v == u);
        assert(recorded(u) + recorded(v) == recorded(u));
    } else {
        lemma_recorded_concat(u, v.drop_last());
        assert((u + v).drop_last() == u + v.drop_last());
        assert((u + v).last() == v.last());
        if v.last() is Recorded {
            assert((recorded(u) + recorded(v.drop_last())).push(v.last()) == recorded(u)
                + recorded(v.drop_last()).push(v.last()));
        }
    }
}

/// The last recorded command of events whose sequence numbers do not fall
/// has a sequence number that is not above that of the last event.
proof fn lemma_recorded_last(events: Seq<EventView>)
    requires
        not_falling(events),
        recorded(events).len() > 0,
    ensures
        events.len() > 0,
        recorded(events).last().sequence() <= events.last().sequence(),
    decreases events.len(),
{
    if events.len() > 0 && !(events.last() is Recorded) {
        let front = events.drop_last();
        assert(not_falling(front)) by {
            assert forall|i: int, j: int| 0 <= i < j < front.len() implies (#[trigger] front[i]).sequence()
                <= (#[trigger] front[j]).sequence() by {
                assert(front[i] == events[i] && front[j] == events[j]);
            }
        }
        lemma_recorded_last(front);
        assert(front.last() == events[front.len() - 1]);
        if front.len() - 1 < events.len() - 1 {
            assert(events[front.len() - 1].sequence() <= events[events.len() - 1].sequence());
        }
    }
}

proof fn lemma_recorded_slotted(events: Seq<EventView>, event: EventView)
    requires
        not_falling(events),
    ensures
        recorded(slotted(events, event)) == if event is Recorded {
            slotted(recorded(events), event)
        } else {
            recorded(events)
        },
    decreases events.len(),
{
    let out = slotted(events, event);
    if events.len() == 0 {
        assert(out.drop_last().len() == 0);
        assert(out.last() == event);
        assert(recorded(out.drop_last()) == Seq::<EventView>::empty());
    } else if events.last().sequence() <= event.sequence() {
        assert(out.drop_last() == events);
        assert(out.last() == event);
        if event is Recorded && recorded(events).len() > 0 {
            lemma_recorded_last(events);
        }
    } else {
        let front = events.drop_last();
        let last = events.last();
        let inner = slotted(front, event);
        assert(not_falling(front)) by {
            assert forall|i: int, j: int| 0 <= i < j < front.len() implies (#[trigger] front[i]).sequence()
                <= (#[trigger] front[j]).sequence() by {
                assert(front[i] == events[i] && front[j] == events[j]);
            }
        }
        lemma_recorded_slotted(front, event);
        assert(out.drop_last() == inner);
        assert(out.last() == last);
        if last is Recorded && event is Recorded {
            let kept = recorded(front).push(last);
            assert(kept.drop_last() == recorded(front));
            assert(kept.last() == last);
        }
    }
}

proof fn lemma_recorded_ordered(events: Seq<EventView>)
    ensures
        recorded(ordered(events)) == ordered(recorded(events)),
    decreases events.len(),
{
    if events.len() > 0 {
        let front = events.drop_last();
        lemma_recorded_ordered(front);
        lemma_ordered_not_falling(front);
        lemma_recorded_slotted(ordered(front), events.last());
        if events.last() is Recorded {
            let kept = recorded(front).push(events.last());
            assert(kept.drop_last() == recorded(front));
            assert(kept.last() == events.last());
        }
    }
}

/// A replay gives what it gives without the events of unknown kind.
pub proof fn lemma_replay_of_recorded(id: u64, events: Seq<EventView>)
    ensures
        replayed(id, recorded(events)) == replayed(id, events),
    decreases events.len(),
{
    if events.len() > 0 {
        let front = events.drop_last();
        lemma_replay_of_recorded(id, front);
        if events.last() is Recorded {
            let kept = recorded(front).push(events.last());
            assert(kept.drop_last() == recorded(front));
            assert(kept.last() == events.last());
        }
    }
}

/// An event of unknown kind changes nothing, wherever it stands in the
/// delivery.
pub proof fn lemma_unknown_is_passed_over(
    id: u64,
    before: Seq<RawEventView>,
    unknown: RawEventView,
    after: Seq<RawEventView>,
)
    requires
        typed(unknown) matches Some(event) && event is Unknown,
    ensures
        reconciled(id, before + seq![unknown] + after) == reconciled(id, before + after),
{
    let one = seq![unknown];
    let event = typed(unknown)->0;
    assert(one.drop_last().len() == 0);
    assert(visible(one.drop_last()) == Seq::<EventView>::empty());
    assert(one.last() == unknown);
    assert(visible(one) == seq![event]);
    lemma_visible_concat(before, one);
    lemma_visible_concat(before + one, after);
    lemma_visible_concat(before, after);
    let with = visible(before + one + after);
    let without = visible(before + after);
    assert(with == visible(before) + seq![event] + visible(after));
    assert(recorded(seq![event]) == Seq::<EventView>::empty()) by {
        assert(seq![event].drop_last().len() == 0);
        assert(recorded(seq![event].drop_last()) == Seq::<EventView>::empty());
    }
    lemma_recorded_concat(visible(before), seq![event]);
    lemma_recorded_concat(visible(before) + seq![event], visible(after));
    lemma_recorded_concat(visible(before), visible(after));
    assert(recorded(visible(before)) + recorded(seq![event]) == recorded(visible(before)));
    assert(recorded(with) == recorded(without));
    lemma_recorded_ordered(with);
    lemma_recorded_ordered(without);
    lemma_replay_of_recorded(id, ordered(with));
    lemma_replay_of_recorded(id, ordered(without));
}

} // verus!
