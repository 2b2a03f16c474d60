use countdown::{Event, FutureEvent};

#[test]
fn event_days_left_calculates_remaining_days_correctly() {
    let event = Event {
        name: "test".to_string(),
        time: 172800,
    };
    let result = event.days_left(0);

    assert_eq!(result, Some(2));
}

#[test]
fn event_days_left_returns_none_if_expired() {
    let event = Event {
        name: "test".to_string(),
        time: 5000,
    };
    let result = event.days_left(10000);

    assert_eq!(result, None);
}

#[test]
fn event_as_future_event_returns_future_event_if_not_expired() {
    let event = Event {
        name: "test".to_string(),
        time: 172800,
    };
    let result = event.as_future_event(0);

    assert_eq!(
        result,
        Some(FutureEvent {
            name: "test".to_string(),
            days_left: 2,
        })
    );
}

#[test]
fn event_as_future_event_returns_none_if_expired() {
    let event = Event {
        name: "test".to_string(),
        time: 172800,
    };
    let result = event.as_future_event(172801);

    assert_eq!(result, None);
}

#[test]
fn event_at_reference_instant_is_excluded() {
    let event = Event {
        name: "test".to_string(),
        time: 1000,
    };

    assert_eq!(event.days_left(1000), None);
    assert_eq!(event.as_future_event(1000), None);
}

#[test]
fn days_left_truncates_to_whole_days() {
    // One second short of three days still counts as two days.
    let event = Event {
        name: "test".to_string(),
        time: 259199,
    };

    assert_eq!(event.days_left(0), Some(2));
}

#[test]
fn system_time_returns_target_moment_in_seconds() {
    let event = Event {
        name: "test".to_string(),
        time: 172800,
    };

    assert_eq!(event.system_time(), 172800u64);
}

#[test]
fn default_config_has_no_events() {
    let config = countdown::CountdownConfig::default();

    assert_eq!(config.events.len(), 0);
}
