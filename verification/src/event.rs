//! Stored events and their projection to upcoming ("future") events.
//!
//! An [`Event`] is a persisted record: a display name and a target moment as
//! an unsigned epoch-seconds timestamp. A [`FutureEvent`] is the derived,
//! transient value the display layer consumes: the same name together with
//! the number of whole days remaining until the target moment, computed
//! against a reference instant. A `FutureEvent` exists only for events whose
//! target moment lies strictly in the future of the reference instant.

use vstd::prelude::*;

verus! {

/// Seconds in one whole day; remaining time is truncated to whole days.
pub const SECONDS_IN_DAY: u64 = 86400;

/// A persisted countdown record: a name and a target moment in epoch seconds.
#[derive(Debug)]
pub struct Event {
    pub name: String,
    /// Unix timestamp (seconds) of the event's target moment.
    pub time: u32,
}

/// A validated event that has definitely not occurred yet, carrying the
/// computed count of whole days remaining.
#[derive(Debug)]
pub struct FutureEvent {
    pub name: String,
    pub days_left: u16,
}

/// The persisted collection of events.
#[derive(Debug)]
pub struct CountdownConfig {
    pub events: Vec<Event>,
}

impl Clone for Event {
    fn clone(&self) -> (res: Self)
        ensures
            res == *self,
    {
        Event { name: self.name.clone(), time: self.time }
    }
}

impl Clone for FutureEvent {
    fn clone(&self) -> (res: Self)
        ensures
            res == *self,
    {
        FutureEvent { name: self.name.clone(), days_left: self.days_left }
    }
}

impl PartialEq for Event {
    fn eq(&self, other: &Event) -> (r: bool) {
        self.name == other.name && self.time == other.time
    }
}

impl vstd::std_specs::cmp::PartialEqSpecImpl for Event {
    open spec fn obeys_eq_spec() -> bool {
        true
    }

    open spec fn eq_spec(&self, other: &Event) -> bool {
        self.name@ == other.name@ && self.time == other.time
    }
}

impl PartialEq for FutureEvent {
    fn eq(&self, other: &FutureEvent) -> (r: bool) {
        self.name == other.name && self.days_left == other.days_left
    }
}

impl vstd::std_specs::cmp::PartialEqSpecImpl for FutureEvent {
    open spec fn obeys_eq_spec() -> bool {
        true
    }

    open spec fn eq_spec(&self, other: &FutureEvent) -> bool {
        self.name@ == other.name@ && self.days_left == other.days_left
    }
}

impl Default for CountdownConfig {
    fn default() -> (res: Self)
        ensures
            res.events@ == Seq::<Event>::empty(),
    {
        CountdownConfig { events: Vec::new() }
    }
}

/// Whole days between the reference instant `now` and the target moment
/// `time`, meaningful only when `time` lies strictly after `now`.
pub open spec fn spec_days_left(time: u32, now: u64) -> int {
    (time - now) / (SECONDS_IN_DAY as int)
}

/// An event is upcoming when its target moment lies strictly after the
/// reference instant and its whole-day count fits the representable range.
pub open spec fn is_upcoming(e: Event, now: u64) -> bool {
    &&& e.time > now
    &&& spec_days_left(e.time, now) <= u16::MAX
}

/// The projection of an upcoming event to its display value.
pub open spec fn future_event_of(e: Event, now: u64) -> FutureEvent {
    FutureEvent { name: e.name, days_left: spec_days_left(e.time, now) as u16 }
}

impl Event {
    /// The event's target moment in epoch seconds.
    pub fn system_time(&self) -> (r: u64)
        ensures
            r == self.time as u64,
    {
        self.time as u64
    }

    /// Whole days from the reference instant `current_time` to this event's
    /// target moment: `None` when the event is not strictly in the future or
    /// its day count does not fit, otherwise the truncated day count.
    pub fn days_left(&self, current_time: u64) -> (r: Option<u16>)
        ensures
            r == if is_upcoming(*self, current_time) {
                Some(spec_days_left(self.time, current_time) as u16)
            } else {
                None::<u16>
            },
    {
        let target = self.time as u64;
        if target > current_time {
            let days = (target - current_time) / SECONDS_IN_DAY;
            if days <= u16::MAX as u64 {
                Some(days as u16)
            } else {
                None
            }
        } else {
            None
        }
    }

    /// The display value for this event, when it is upcoming.
    pub fn as_future_event(&self, current_time: u64) -> (r: Option<FutureEvent>)
        ensures
            r == if is_upcoming(*self, current_time) {
                Some(future_event_of(*self, current_time))
            } else {
                None::<FutureEvent>
            },
    {
        match self.days_left(current_time) {
            Some(days) => Some(FutureEvent { name: self.name.clone(), days_left: days }),
            None => None,
        }
    }
}

} // verus!
