//! The reconciler: from the raw events of the ledger to the snapshot of an
//! auction.
//!
//! Raw events are decoded, put in the order of their sequence numbers, and
//! replayed. An event that cannot be decoded, is of an unknown kind, names
//! another auction, or is not legal by the transition table, the clock left
//! aside, is passed over.

use crate::lifecycle::{accept, acceptable, applied, created, target};
use crate::model::{Auction, AuctionState, AuctionView, BidView, Command, CommandView, ItemView};
use crate::resolver::{lemma_winner_leads, outbids, winner};
use crate::wire::{decode, parse, DecodeError, TAG_EXTEND};
use vstd::prelude::*;

verus! {

/// An event as the ledger hands it out: the sequence number that the ledger
/// gave it, and its bytes.
#[derive(Debug, PartialEq, Eq)]
pub struct RawEvent {
    pub sequence: u64,
    pub payload: Vec<u8>,
}

pub struct RawEventView {
    pub sequence: u64,
    pub payload: Seq<u8>,
}

impl View for RawEvent {
    type V = RawEventView;

    open spec fn view(&self) -> RawEventView {
        RawEventView { sequence: self.sequence, payload: self.payload@ }
    }
}

impl RawEvent {
    pub fn new(sequence: u64, payload: Vec<u8>) -> (r: RawEvent)
        ensures
            r@ == (RawEventView { sequence, payload: payload@ }),
    {
        RawEvent { sequence, payload }
    }
}

/// The views of a sequence of raw events, in order.
pub open spec fn raw_views(raws: Seq<RawEvent>) -> Seq<RawEventView> {
    raws.map_values(|r: RawEvent| r@)
}

/// A decoded event. A recorded create command is the creation of the
/// auction, a recorded bid a placed bid, and so on for close, cancel and
/// extend.
#[derive(Debug, PartialEq, Eq)]
pub enum Event {
    /// A command that the ledger recorded.
    Recorded { sequence: u64, command: Command },
    /// An event of a kind that is not known here.
    Unknown { sequence: u64, tag: u8 },
}

pub enum EventView {
    Recorded { sequence: u64, command: CommandView },
    Unknown { sequence: u64, tag: u8 },
}

impl EventView {
    pub open spec fn sequence(self) -> u64 {
        match self {
            EventView::Recorded { sequence, .. } => sequence,
            EventView::Unknown { sequence, .. } => sequence,
        }
    }
}

impl View for Event {
    type V = EventView;

    open spec fn view(&self) -> EventView {
        match *self {
            Event::Recorded { sequence, command } => EventView::Recorded {
                sequence,
                command: command@,
            },
            Event::Unknown { sequence, tag } => EventView::Unknown { sequence, tag },
        }
    }
}

impl Event {
    pub fn sequence(&self) -> (r: u64)
        ensures
            r == self@.sequence(),
    {
        match self {
            Event::Recorded { sequence, .. } => *sequence,
            Event::Unknown { sequence, .. } => *sequence,
        }
    }
}

/// The views of a sequence of events, in order.
pub open spec fn event_views(events: Seq<Event>) -> Seq<EventView> {
    events.map_values(|e: Event| e@)
}

/// What can go wrong in reconciliation.
#[derive(Clone, Copy, Debug, PartialEq, Eq, Structural)]
pub enum ReconcileError {
    /// An event of the auction comes before any creation of it, or there is
    /// no creation at all.
    MissingCreation,
    /// The bytes of an event are of a known kind and yet not a command.
    MalformedEvent,
}

/// The event that a raw event decodes to; `None` where it is malformed.
pub open spec fn typed(raw: RawEventView) -> Option<EventView> {
    match parse(raw.payload) {
        Some(command) => Some(EventView::Recorded { sequence: raw.sequence, command }),
        None => if raw.payload.len() > 0 && raw.payload[0] > TAG_EXTEND {
            Some(EventView::Unknown { sequence: raw.sequence, tag: raw.payload[0] })
        } else {
            None
        },
    }
}

/// Decodes one raw event.
pub fn parse_event(raw: &RawEvent) -> (r: Result<Event, ReconcileError>)
    ensures
        match r {
            Ok(event) => typed(raw@) == Some(event@),
            Err(e) => typed(raw@) is None && e == ReconcileError::MalformedEvent,
        },
{
    match decode(raw.payload.as_slice()) {
        Ok(command) => Ok(Event::Recorded { sequence: raw.sequence, command }),
        Err(DecodeError::UnknownKind { tag }) => Ok(Event::Unknown { sequence: raw.sequence, tag }),
        Err(DecodeError::Malformed) => Err(ReconcileError::MalformedEvent),
    }
}

/// The events that can be decoded, in the order of the input.
pub open spec fn visible(raws: Seq<RawEventView>) -> Seq<EventView>
    decreases raws.len(),
{
    if raws.len() == 0 {
        Seq::empty()
    } else {
        match typed(raws.last()) {
            Some(event) => visible(raws.drop_last()).push(event),
            None => visible(raws.drop_last()),
        }
    }
}

/// `event` put into `events` behind the last event whose sequence number
/// is not above its own.
pub open spec fn slotted(events: Seq<EventView>, event: EventView) -> Seq<EventView>
    decreases events.len(),
{
    if events.len() == 0 {
        seq![event]
    } else if events.last().sequence() <= event.sequence() {
        events.push(event)
    } else {
        slotted(events.drop_last(), event).push(events.last())
    }
}

/// The events in the order of their sequence numbers; events of one
/// sequence number keep the order of the input.
pub open spec fn ordered(events: Seq<EventView>) -> Seq<EventView>
    decreases events.len(),
{
    if events.len() == 0 {
        Seq::empty()
    } else {
        slotted(ordered(events.drop_last()), events.last())
    }
}

/// The snapshot of auction `id` after one more event. `None` stands for
/// "not created yet".
pub open spec fn absorbed(id: u64, state: Option<AuctionView>, event: EventView) -> Result<
    Option<AuctionView>,
    ReconcileError,
> {
    match event {
        EventView::Unknown { .. } => Ok(state),
        EventView::Recorded { sequence, command } => match command {
            CommandView::Create { item, start_time, end_time } => match state {
                None => Ok(Some(created(id, item, start_time, end_time))),
                Some(auction) => Ok(state),
            },
            _ => if target(command) != Some(id) {
                Ok(state)
            } else {
                match state {
                    None => Err(ReconcileError::MissingCreation),
                    Some(auction) => if acceptable(auction, command) {
                        Ok(Some(applied(auction, command, sequence)))
                    } else {
                        Ok(state)
                    },
                }
            },
        },
    }
}

/// The replay of events, in the order given.
pub open spec fn replayed(id: u64, events: Seq<EventView>) -> Result<
    Option<AuctionView>,
    ReconcileError,
>
    decreases events.len(),
{
    if events.len() == 0 {
        Ok(None)
    } else {
        match replayed(id, events.drop_last()) {
            Ok(state) => absorbed(id, state, events.last()),
            Err(e) => Err(e),
        }
    }
}

/// The snapshot of auction `id` that the raw events give.
pub open spec fn reconciled(id: u64, raws: Seq<RawEventView>) -> Result<
    AuctionView,
    ReconcileError,
> {
    match replayed(id, ordered(visible(raws))) {
        Ok(Some(auction)) => Ok(auction),
        Ok(None) => Err(ReconcileError::MissingCreation),
        Err(e) => Err(e),
    }
}

/// Where `slotted` puts an event.
pub proof fn lemma_slotted_at(events: Seq<EventView>, event: EventView, at: int)
    requires
        0 <= at <= events.len(),
        at > 0 ==> events[at - 1].sequence() <= event.sequence(),
        forall|j: int| at <= j < events.len() ==> (#[trigger] events[j]).sequence()
            > event.sequence(),
    ensures
        slotted(events, event) == events.insert(at, event),
    decreases events.len() - at,
{
    if at == events.len() {
        if events.len() > 0 {
            assert(events.last() == events[at - 1]);
        }
        assert(events.insert(at, event) == events.push(event));
    } else {
        assert(events.last().sequence() > event.sequence());
        let front = events.drop_last();
        lemma_slotted_at(front, event, at);
        assert(front.insert(at, event).push(events.last()) == events.insert(at, event));
    }
}

fn slot(sorted: &mut Vec<Event>, event: Event)
    ensures
        event_views(final(sorted)@) == slotted(event_views(old(sorted)@), event@),
{
    let ghost before = event_views(sorted@);
    let key = event.sequence();
    let mut at: usize = sorted.len();
    while at > 0 && sorted[at - 1].sequence() > key
        invariant
            at <= sorted.len(),
            before == event_views(sorted@),
            key == event@.sequence(),
            forall|j: int| at <= j < before.len() ==> (#[trigger] before[j]).sequence() > key,
        decreases at,
    {
        at -= 1;
    }
    proof {
        lemma_slotted_at(before, event@, at as int);
    }
    sorted.insert(at, event);
    proof {
        assert(event_views(sorted@) == before.insert(at as int, event@));
    }
}

/// The decodable events of `raw_events`, in the order of their sequence
/// numbers.
pub fn ordered_events(raw_events: &Vec<RawEvent>) -> (r: Vec<Event>)
    ensures
        event_views(r@) == ordered(visible(raw_views(raw_events@))),
{
    let ghost raws = raw_views(raw_events@);
    let mut sorted: Vec<Event> = Vec::new();
    let mut i: usize = 0;
    proof {
        assert(raws.take(0).len() == 0);
        assert(event_views(sorted@) == Seq::<EventView>::empty());
    }
    while i < raw_events.len()
        invariant
            i <= raw_events.len(),
            raws == raw_views(raw_events@),
            event_views(sorted@) == ordered(visible(raws.take(i as int))),
        decreases raw_events.len() - i,
    {
        proof {
            let next = raws.take(i + 1);
            assert(next.drop_last() == raws.take(i as int));
            assert(next.last() == raw_events@[i as int]@);
            let seen = visible(raws.take(i as int));
            if let Some(event) = typed(next.last()) {
                assert(seen.push(event).drop_last() == seen);
            }
        }
        match parse_event(&raw_events[i]) {
            Ok(event) => {
                slot(&mut sorted, event);
            },
            Err(_) => {},
        }
        i += 1;
    }
    proof {
        assert(raws.take(i as int) == raws);
    }
    sorted
}

pub open spec fn snapshot_view(state: Option<Auction>) -> Option<AuctionView> {
    match state {
        Some(auction) => Some(auction@),
        None => None,
    }
}

/// Derives the snapshot of auction `auction_id` from raw ledger events, in
/// whatever order they arrive.
pub fn reconcile(auction_id: u64, raw_events: &Vec<RawEvent>) -> (r: Result<
    Auction,
    ReconcileError,
>)
    ensures
        match r {
            Ok(auction) => reconciled(auction_id, raw_views(raw_events@)) == Ok::<
                AuctionView,
                ReconcileError,
            >(auction@),
            Err(e) => reconciled(auction_id, raw_views(raw_events@)) == Err::<
                AuctionView,
                ReconcileError,
            >(e) && e == ReconcileError::MissingCreation,
        },
{
    let events = ordered_events(raw_events);
    let ghost views = event_views(events@);
    let mut state: Option<Auction> = None;
    let mut j: usize = 0;
    proof {
        assert(views.take(0).len() == 0);
        assert(views.take(views.len() as int) == views);
    }
    while j < events.len()
        invariant
            j <= events.len(),
            views == event_views(events@),
            views.take(views.len() as int) == views,
            replayed(auction_id, views.take(j as int)) == Ok::<
                Option<AuctionView>,
                ReconcileError,
            >(snapshot_view(state)),
            state matches Some(auction) ==> auction.version <= j,
        ensures
            j <= events.len(),
            state is None && j < events.len() ==> replayed(auction_id, views)
                == Err::<Option<AuctionView>, ReconcileError>(ReconcileError::MissingCreation),
            !(state is None && j < events.len()) ==> j == events.len() && replayed(
                auction_id,
                views,
            ) == Ok::<Option<AuctionView>, ReconcileError>(snapshot_view(state)),
        decreases events.len() - j,
    {
        proof {
            let next = views.take(j + 1);
            assert(next.drop_last() == views.take(j as int));
            assert(next.last() == events@[j as int]@);
        }
        match &events[j] {
            Event::Unknown { .. } => {},
            Event::Recorded { sequence, command } => {
                match command {
                    Command::Create { item, start_time, end_time } => {
                        if state.is_none() {
                            let item = item.clone();
                            state = Some(Auction::new(auction_id, item, *start_time, *end_time));
                        }
                    },
                    _ => {
                        let named = command.target();
                        if named == Some(auction_id) {
                            let current = state;
                            match current {
                                None => {
                                    state = None;
                                    proof {
                                        lemma_replay_stays_failed(
                                            auction_id,
                                            views,
                                            j as int + 1,
                                        );
                                    }
                                    break;
                                },
                                Some(auction) => {
                                    state = Some(accept(auction, command, *sequence));
                                },
                            }
                        }
                    },
                }
            },
        }
        j += 1;
    }
    match state {
        Some(auction) => Ok(auction),
        None => Err(ReconcileError::MissingCreation),
    }
}

/// Once the replay has failed, it stays failed.
pub proof fn lemma_replay_stays_failed(id: u64, events: Seq<EventView>, n: int)
    requires
        0 <= n <= events.len(),
        replayed(id, events.take(n)) is Err,
    ensures
        replayed(id, events) == replayed(id, events.take(n)),
    decreases events.len() - n,
{
    if n < events.len() {
        let next = events.take(n + 1);
        assert(next.drop_last() == events.take(n));
        lemma_replay_stays_failed(id, events, n + 1);
    } else {
        assert(events.take(n) == events);
    }
}

/// The bids that the replay accepts, in the order of the replay.
pub open spec fn accepted_bids(id: u64, events: Seq<EventView>) -> Seq<BidView>
    decreases events.len(),
{
    if events.len() == 0 {
        Seq::empty()
    } else {
        let earlier = accepted_bids(id, events.drop_last());
        match (replayed(id, events.drop_last()), events.last()) {
            (
                Ok(Some(auction)),
                EventView::Recorded { sequence, command: CommandView::Bid { auction_id, bidder, amount } },
            ) => if auction_id == id && acceptable(
                auction,
                CommandView::Bid { auction_id, bidder, amount },
            ) {
                earlier.push(BidView { bidder, amount, sequence })
            } else {
                earlier
            },
            _ => earlier,
        }
    }
}

/// What holds of every snapshot that a replay gives: it is the snapshot of
/// the auction asked for, its version counts the creation and the events
/// accepted after it, and its highest bid is what the resolver makes of the
/// bids that were accepted.
pub proof fn lemma_replayed_snapshot(id: u64, events: Seq<EventView>)
    requires
        events.len() <= usize::MAX,
    ensures
        match replayed(id, events) {
            Ok(Some(auction)) => {
                &&& auction.id == id
                &&& 1 <= auction.version <= events.len()
                &&& auction.version == 1 ==> auction.state == AuctionState::Pending
                &&& auction.current_highest_bid == winner(accepted_bids(id, events))
            },
            Ok(None) => accepted_bids(id, events).len() == 0,
            Err(e) => e == ReconcileError::MissingCreation,
        },
    decreases events.len(),
{
    if events.len() > 0 {
        let front = events.drop_last();
        lemma_replayed_snapshot(id, front);
        let earlier = accepted_bids(id, front);
        match (replayed(id, front), events.last()) {
            (
                Ok(Some(auction)),
                EventView::Recorded { sequence, command: CommandView::Bid { auction_id, bidder, amount } },
            ) => {
                let command = CommandView::Bid { auction_id, bidder, amount };
                if auction_id == id && acceptable(auction, command) {
                    let bid = BidView { bidder, amount, sequence };
                    assert(earlier.push(bid).drop_last() == earlier);
                    assert(earlier.push(bid).last() == bid);
                }
            },
            _ => {},
        }
    }
}

/// The amounts of the bids that a replay accepts rise from each to the
/// next.
pub proof fn lemma_accepted_bids_rise(id: u64, events: Seq<EventView>)
    requires
        events.len() <= usize::MAX,
    ensures
        forall|i: int, j: int|
            0 <= i < j < accepted_bids(id, events).len() ==> (#[trigger] accepted_bids(
                id,
                events,
            )[i]).amount < (#[trigger] accepted_bids(id, events)[j]).amount,
    decreases events.len(),
{
    if events.len() > 0 {
        let front = events.drop_last();
        let earlier = accepted_bids(id, front);
        let all = accepted_bids(id, events);
        lemma_accepted_bids_rise(id, front);
        lemma_replayed_snapshot(id, front);
        if all.len() > earlier.len() {
            let auction = replayed(id, front)->Ok_0->0;
            let top = all.last();
            assert(all == earlier.push(top));
            assert forall|i: int| 0 <= i < earlier.len() implies (#[trigger] earlier[i]).amount
                < top.amount by {
                let k = lemma_winner_leads(earlier);
                assert(!outbids(earlier[i], earlier[k]));
            }
            assert forall|i: int, j: int| 0 <= i < j < all.len() implies (#[trigger] all[i]).amount
                < (#[trigger] all[j]).amount by {
                if j < earlier.len() {
                    assert(all[i] == earlier[i] && all[j] == earlier[j]);
                } else {
                    assert(all[i] == earlier[i]);
                }
            }
        }
    }
}

/// The events of bids recorded on auction `id`, one for each bid.
pub open spec fn bids_as_events(id: u64, bids: Seq<BidView>) -> Seq<EventView> {
    bids.map_values(
        |b: BidView|
            EventView::Recorded {
                sequence: b.sequence,
                command: CommandView::Bid { auction_id: id, bidder: b.bidder, amount: b.amount },
            },
    )
}

/// The replay of a creation followed by bids, in the order of their
/// sequence numbers: the auction as it was created, with the bid that the
/// resolver picks among all the bids as its highest, active once there is a
/// bid.
pub proof fn lemma_creation_then_bids(
    id: u64,
    sequence: u64,
    item: ItemView,
    start_time: u64,
    end_time: u64,
    bids: Seq<BidView>,
)
    requires
        bids.len() < usize::MAX,
        forall|i: int, j: int|
            0 <= i < j < bids.len() ==> (#[trigger] bids[i]).sequence <= (#[trigger] bids[j]).sequence,
    ensures
        ({
            let creation = EventView::Recorded {
                sequence,
                command: CommandView::Create { item, start_time, end_time },
            };
            &&& replayed(id, seq![creation] + bids_as_events(id, bids)) matches Ok(Some(auction))
            &&& auction.id == id
            &&& auction.item == item
            &&& auction.start_time == start_time
            &&& auction.end_time == end_time
            &&& auction.current_highest_bid == winner(bids)
            &&& auction.state == if bids.len() == 0 {
                AuctionState::Pending
            } else {
                AuctionState::Active
            }
            &&& 1 <= auction.version <= bids.len() + 1
        }),
    decreases bids.len(),
{
    let creation = EventView::Recorded {
        sequence,
        command: CommandView::Create { item, start_time, end_time },
    };
    let events = seq![creation] + bids_as_events(id, bids);
    if bids.len() == 0 {
        assert(events.drop_last().len() == 0);
        assert(events.last() == creation);
        assert(replayed(id, events.drop_last()) == Ok::<Option<AuctionView>, ReconcileError>(None));
    } else {
        let front = bids.drop_last();
        let bid = bids.last();
        assert forall|i: int, j: int| 0 <= i < j < front.len() implies (#[trigger] front[i]).sequence
            <= (#[trigger] front[j]).sequence by {
            assert(front[i] == bids[i] && front[j] == bids[j]);
        }
        lemma_creation_then_bids(id, sequence, item, start_time, end_time, front);
        assert(events.drop_last() == seq![creation] + bids_as_events(id, front));
        assert(events.last() == bids_as_events(id, bids)[bids.len() - 1]);
        let before = replayed(id, events.drop_last())->Ok_0->0;
        if front.len() > 0 {
            let k = lemma_winner_leads(front);
            assert(front[k] == bids[k]);
            assert(bids[k].sequence <= bids[bids.len() - 1].sequence);
        }
        assert(BidView { bidder: bid.bidder, amount: bid.amount, sequence: bid.sequence } == bid);
    }
}

/// Nothing changes after the event that closes or cancels the auction:
/// whatever events follow, the replay gives the same.
pub proof fn lemma_final_stays(id: u64, events: Seq<EventView>, more: Seq<EventView>)
    requires
        replayed(id, events) matches Ok(Some(auction)) && auction.state.terminal(),
    ensures
        replayed(id, events + more) == replayed(id, events),
    decreases more.len(),
{
    if more.len() == 0 {
        assert(events + more == events);
    } else {
        lemma_final_stays(id, events, more.drop_last());
        assert((events + more).drop_last() == events + more.drop_last());
        assert((events + more).last() == more.last());
    }
}

/// The snapshot to keep when a reconciliation pass has given `fresh` and
/// `cached` is what an earlier pass gave: the fresh one as a whole, unless
/// the cached one is of the same auction and of a higher version, which
/// shows that the fresh one was derived from a stale read.
pub fn refresh(cached: Option<Auction>, fresh: Auction) -> (r: Auction)
    ensures
        r@ == match cached {
            Some(kept) => if kept.id == fresh.id && kept.version > fresh.version {
                kept@
            } else {
                fresh@
            },
            None => fresh@,
        },
{
    match cached {
        Some(kept) => if kept.id == fresh.id && kept.version > fresh.version {
            kept
        } else {
            fresh
        },
        None => fresh,
    }
}

} // verus!
