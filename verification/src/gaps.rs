//! Gaps in the sequence numbers of a delivery.
//!
//! The ledger numbers the events of an auction one after the other. Where a
//! delivery holds an event and lacks one of a lower number, the missing
//! event is taken as not yet visible until it has been waited for long
//! enough.

use crate::reconcile::{raw_views, RawEvent, RawEventView};
use vstd::prelude::*;

verus! {

/// The delivery holds an event of this sequence number.
pub open spec fn present(raws: Seq<RawEventView>, sequence: u64) -> bool {
    exists|i: int| 0 <= i < raws.len() && (#[trigger] raws[i]).sequence == sequence
}

/// `gap` is the lowest sequence number from `from` on that the delivery
/// lacks although it holds a higher one.
pub open spec fn is_first_gap(raws: Seq<RawEventView>, from: u64, gap: u64) -> bool {
    &&& from <= gap
    &&& !present(raws, gap)
    &&& forall|s: u64| from <= s < gap ==> present(raws, s)
    &&& exists|s: u64| gap < s && present(raws, s)
}

/// From `from` on the delivery lacks no sequence number below one that it
/// holds.
pub open spec fn gapless(raws: Seq<RawEventView>, from: u64) -> bool {
    forall|s: u64, t: u64| from <= s < t && present(raws, t) ==> present(raws, s)
}

/// What a delivery shows of the events from some sequence number on.
#[derive(Clone, Copy, Debug, PartialEq, Eq, Structural)]
pub enum Visibility {
    /// No event is missing.
    Complete,
    /// The event of this sequence number is not visible yet.
    Waiting { missing: u64 },
    /// The event of this sequence number has been waited for as long as
    /// the threshold allows, and is given up.
    Stale { missing: u64 },
}

fn holds(raw_events: &Vec<RawEvent>, sequence: u64) -> (r: bool)
    ensures
        r == present(raw_views(raw_events@), sequence),
{
    let ghost raws = raw_views(raw_events@);
    let mut i: usize = 0;
    while i < raw_events.len()
        invariant
            i <= raw_events.len(),
            raws == raw_views(raw_events@),
            forall|k: int| 0 <= k < i ==> (#[trigger] raws[k]).sequence != sequence,
        decreases raw_events.len() - i,
    {
        if raw_events[i].sequence == sequence {
            assert(raws[i as int].sequence == sequence);
            return true;
        }
        i += 1;
    }
    false
}

/// The highest sequence number of the delivery that is not below `from`.
fn highest(raw_events: &Vec<RawEvent>, from: u64) -> (r: Option<u64>)
    ensures
        match r {
            Some(top) => from <= top && present(raw_views(raw_events@), top) && forall|s: u64|
                top < s ==> !present(raw_views(raw_events@), s),
            None => forall|s: u64| from <= s ==> !present(raw_views(raw_events@), s),
        },
{
    let ghost raws = raw_views(raw_events@);
    let mut top: Option<u64> = None;
    let mut i: usize = 0;
    while i < raw_events.len()
        invariant
            i <= raw_events.len(),
            raws == raw_views(raw_events@),
            match top {
                Some(t) => from <= t && present(raws, t) && forall|k: int|
                    0 <= k < i ==> (#[trigger] raws[k]).sequence <= t,
                None => forall|k: int| 0 <= k < i ==> (#[trigger] raws[k]).sequence < from,
            },
        decreases raw_events.len() - i,
    {
        let sequence = raw_events[i].sequence;
        proof {
            assert(raws[i as int].sequence == sequence);
        }
        let higher = match top {
            Some(t) => sequence > t,
            None => sequence >= from,
        };
        if higher {
            top = Some(sequence);
        }
        i += 1;
    }
    top
}

/// Finds the first gap from `from_sequence` on: the lowest sequence number
/// that is missing below one that is there.
pub fn first_gap(raw_events: &Vec<RawEvent>, from_sequence: u64) -> (r: Option<u64>)
    ensures
        match r {
            Some(gap) => is_first_gap(raw_views(raw_events@), from_sequence, gap),
            None => gapless(raw_views(raw_events@), from_sequence),
        },
{
    let ghost raws = raw_views(raw_events@);
    let top = match highest(raw_events, from_sequence) {
        Some(top) => top,
        None => {
            return None;
        },
    };
    let mut candidate: u64 = from_sequence;
    while candidate < top
        invariant
            from_sequence <= candidate <= top,
            raws == raw_views(raw_events@),
            present(raws, top),
            forall|s: u64| from_sequence <= s < candidate ==> present(raws, s),
        decreases top - candidate,
    {
        if !holds(raw_events, candidate) {
            return Some(candidate);
        }
        candidate += 1;
    }
    None
}

/// Tells whether the delivery is complete from `from_sequence` on, and
/// where it is not, whether the missing event is still to be waited for:
/// it is, as long as `waited` is below `staleness_threshold`.
pub fn visibility(
    raw_events: &Vec<RawEvent>,
    from_sequence: u64,
    waited: u64,
    staleness_threshold: u64,
) -> (r: Visibility)
    ensures
        r is Complete <==> gapless(raw_views(raw_events@), from_sequence),
        r matches Visibility::Waiting { missing } ==> waited < staleness_threshold && is_first_gap(
            raw_views(raw_events@),
            from_sequence,
            missing,
        ),
        r matches Visibility::Stale { missing } ==> waited >= staleness_threshold && is_first_gap(
            raw_views(raw_events@),
            from_sequence,
            missing,
        ),
{
    let gap = first_gap(raw_events, from_sequence);
    proof {
        if let Some(missing) = gap {
            lemma_gap_excludes_gapless(raw_views(raw_events@), from_sequence, missing);
        }
    }
    match gap {
        None => Visibility::Complete,
        Some(missing) => if waited < staleness_threshold {
            Visibility::Waiting { missing }
        } else {
            Visibility::Stale { missing }
        },
    }
}

/// A delivery with a first gap is not gapless, and has no other first gap.
pub proof fn lemma_gap_excludes_gapless(raws: Seq<RawEventView>, from: u64, gap: u64)
    requires
        is_first_gap(raws, from, gap),
    ensures
        !gapless(raws, from),
        forall|other: u64| is_first_gap(raws, from, other) ==> other == gap,
{
    let above = choose|s: u64| gap < s && present(raws, s);
    assert(from <= gap < above && present(raws, above) && !present(raws, gap));
}

} // verus!
