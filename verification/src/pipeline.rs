//! The display pipeline: expiry filter, order policy, limiter.
//!
//! Raw stored events flow left to right: events whose target moment is not
//! strictly in the future are dropped and the survivors are projected to
//! their whole-day counts; the result is reordered under the chosen policy;
//! and the ordered list is capped to an optional maximum count.

use vstd::prelude::*;
use crate::event::{Event, FutureEvent, SECONDS_IN_DAY, future_event_of, is_upcoming, spec_days_left};
use crate::order::{SortOrder, ordered_by, sort_events};

verus! {

/// The upcoming events among `events`, in input order, each projected to
/// its display value.
pub open spec fn upcoming_events(now: u64, events: Seq<Event>) -> Seq<FutureEvent>
    decreases events.len(),
{
    if events.len() == 0 {
        Seq::empty()
    } else {
        let rest = upcoming_events(now, events.drop_last());
        if is_upcoming(events.last(), now) {
            rest.push(future_event_of(events.last(), now))
        } else {
            rest
        }
    }
}

/// A new list holding the display values of the events whose target moment
/// lies strictly after `now`, in their input order; expired events are
/// silently dropped.
pub fn filter_expired_events(now: u64, events: &Vec<Event>) -> (r: Vec<FutureEvent>)
    ensures
        r@ == upcoming_events(now, events@),
{
    let mut future_events: Vec<FutureEvent> = Vec::new();
    let mut i: usize = 0;
    proof {
        assert(events@.take(0) =~= Seq::<Event>::empty());
    }
    while i < events.len()
        invariant
            i <= events@.len(),
            future_events@ == upcoming_events(now, events@.take(i as int)),
        decreases events@.len() - i,
    {
        match events[i].as_future_event(now) {
            Some(fe) => future_events.push(fe),
            None => {},
        }
        proof {
            let t = events@.take((i + 1) as int);
            assert(t.drop_last() =~= events@.take(i as int));
            assert(t.last() == events@[i as int]);
        }
        i += 1;
    }
    proof {
        assert(events@.take(events@.len() as int) =~= events@);
    }
    future_events
}

/// The first `limit` events when a limit is given and the list is longer;
/// the whole list otherwise.
pub open spec fn limit_spec(events: Seq<FutureEvent>, limit: Option<usize>) -> Seq<FutureEvent> {
    match limit {
        Some(n) => if n <= events.len() {
            events.take(n as int)
        } else {
            events
        },
        None => events,
    }
}

/// Caps the list to at most `limit` events, keeping the first ones in their
/// given order; with no limit the list is returned unchanged.
pub fn limit_events(events: Vec<FutureEvent>, limit: Option<usize>) -> (r: Vec<FutureEvent>)
    ensures
        r@ == limit_spec(events@, limit),
{
    match limit {
        Some(n) => {
            let mut truncated = events;
            truncated.truncate(n);
            truncated
        },
        None => events,
    }
}

/// The display-ready list: upcoming events, reordered under the policy,
/// capped to the optional maximum count. The middle stage is pinned only up
/// to the policy's guarantee, so the result is the cap of some admissible
/// reordering of the upcoming events.
pub fn applicable_events(
    now: u64,
    events: Vec<Event>,
    order: &Option<SortOrder>,
    max_count: Option<usize>,
) -> (r: Vec<FutureEvent>)
    ensures
        exists|mid: Seq<FutureEvent>|
            #[trigger] ordered_by(upcoming_events(now, events@), mid, *order) && r@ == limit_spec(
                mid,
                max_count,
            ),
{
    let current = filter_expired_events(now, &events);
    let sorted = sort_events(&current, order);
    let ghost mid = sorted@;
    let limited = limit_events(sorted, max_count);
    proof {
        assert(ordered_by(upcoming_events(now, events@), mid, *order) && limited@ == limit_spec(
            mid,
            max_count,
        ));
    }
    limited
}

/// Filter correctness: a single event strictly after the reference instant
/// yields exactly one future event carrying the truncated whole-day count;
/// an event at or before the reference instant yields nothing.
pub proof fn lemma_filter_one_event(now: u64, e: Event)
    ensures
        e.time > now ==> upcoming_events(now, seq![e]) == seq![future_event_of(e, now)],
        e.time > now ==> future_event_of(e, now).days_left == (e.time - now) / (
        SECONDS_IN_DAY as int),
        e.time <= now ==> upcoming_events(now, seq![e]) == Seq::<FutureEvent>::empty(),
{
    reveal_with_fuel(upcoming_events, 2);
    assert(seq![e].drop_last() =~= Seq::<Event>::empty());
    if e.time > now {
        assert(spec_days_left(e.time, now) <= u16::MAX) by {
            assert(e.time - now <= u32::MAX);
            assert((e.time - now) / (SECONDS_IN_DAY as int) <= u16::MAX) by (nonlinear_arith)
                requires
                    0 <= e.time - now <= u32::MAX,
            ;
        }
        assert(is_upcoming(e, now));
        assert(upcoming_events(now, seq![e]) =~= seq![future_event_of(e, now)]);
    } else {
        assert(!is_upcoming(e, now));
        assert(upcoming_events(now, seq![e]) =~= Seq::<FutureEvent>::empty());
    }
}

} // verus!
