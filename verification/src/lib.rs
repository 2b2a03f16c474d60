//! A countdown library: named events with a target moment (epoch seconds),
//! turned into a display-ready list of upcoming events with whole days left,
//! ordered by a policy (ascending, descending, or random shuffle) and capped
//! to an optional maximum count.

pub mod event;
pub mod order;
pub mod pipeline;

pub use event::{CountdownConfig, Event, FutureEvent};
pub use order::{PolicyError, SortOrder, events_sorted_by_time, sort_events};
pub use pipeline::{applicable_events, filter_expired_events, limit_events};
