use countdown::{FutureEvent, PolicyError, SortOrder, events_sorted_by_time, sort_events};

fn three_events() -> Vec<FutureEvent> {
    vec![
        FutureEvent {
            name: "test 1".to_string(),
            days_left: 900,
        },
        FutureEvent {
            name: "test 2".to_string(),
            days_left: 1020,
        },
        FutureEvent {
            name: "test 3".to_string(),
            days_left: 543,
        },
    ]
}

#[test]
fn sort_events_sorts_in_asc_order() {
    let events = three_events();
    let result = sort_events(&events, &Some(SortOrder::TimeAsc));

    assert_eq!(
        result,
        vec![
            FutureEvent {
                name: "test 3".to_string(),
                days_left: 543
            },
            FutureEvent {
                name: "test 1".to_string(),
                days_left: 900
            },
            FutureEvent {
                name: "test 2".to_string(),
                days_left: 1020
            },
        ],
    );
}

#[test]
fn sort_events_sorts_in_desc_order() {
    let events = three_events();
    let result = sort_events(&events, &Some(SortOrder::TimeDesc));

    assert_eq!(
        result,
        vec![
            FutureEvent {
                name: "test 2".to_string(),
                days_left: 1020
            },
            FutureEvent {
                name: "test 1".to_string(),
                days_left: 900
            },
            FutureEvent {
                name: "test 3".to_string(),
                days_left: 543
            },
        ],
    );
}

#[test]
fn sort_events_defaults_to_asc_order() {
    let events = three_events();
    let result = sort_events(&events, &None);

    assert_eq!(result, events_sorted_by_time(&events, true));
}

#[test]
fn sorting_is_stable_for_equal_day_counts() {
    let events = vec![
        FutureEvent {
            name: "first".to_string(),
            days_left: 7,
        },
        FutureEvent {
            name: "second".to_string(),
            days_left: 7,
        },
        FutureEvent {
            name: "third".to_string(),
            days_left: 3,
        },
    ];

    let asc = events_sorted_by_time(&events, true);
    assert_eq!(asc[0].name, "third");
    assert_eq!(asc[1].name, "first");
    assert_eq!(asc[2].name, "second");

    let desc = events_sorted_by_time(&events, false);
    assert_eq!(desc[0].name, "first");
    assert_eq!(desc[1].name, "second");
    assert_eq!(desc[2].name, "third");
}

#[test]
fn shuffle_is_a_permutation() {
    let events = three_events();
    let result = sort_events(&events, &Some(SortOrder::Shuffle));

    assert_eq!(result.len(), events.len());
    for original in events.iter() {
        let in_original = events.iter().filter(|e| *e == original).count();
        let in_result = result.iter().filter(|e| *e == original).count();
        assert_eq!(in_result, in_original);
    }
}

#[test]
fn empty_input_yields_empty_output_for_all_policies() {
    let events: Vec<FutureEvent> = Vec::new();

    assert_eq!(sort_events(&events, &Some(SortOrder::TimeAsc)).len(), 0);
    assert_eq!(sort_events(&events, &Some(SortOrder::TimeDesc)).len(), 0);
    assert_eq!(sort_events(&events, &Some(SortOrder::Shuffle)).len(), 0);
    assert_eq!(sort_events(&events, &None).len(), 0);
}

#[test]
fn from_str_recognizes_the_three_tokens() {
    assert_eq!(SortOrder::from_str("shuffle"), Ok(SortOrder::Shuffle));
    assert_eq!(SortOrder::from_str("time-asc"), Ok(SortOrder::TimeAsc));
    assert_eq!(SortOrder::from_str("time-desc"), Ok(SortOrder::TimeDesc));
}

#[test]
fn from_str_rejects_unknown_tokens() {
    assert_eq!(
        SortOrder::from_str("backwards"),
        Err(PolicyError::InvalidPolicy)
    );
    assert_eq!(SortOrder::from_str(""), Err(PolicyError::InvalidPolicy));
}
