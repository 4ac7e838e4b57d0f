use todo_scheduler::store::EventStore;
use todo_scheduler::CreateEventRequest;
use todo_scheduler::EventFilter;
use todo_scheduler::EventStatus;

fn tagged(name: &str, description: &str, tags: Vec<(&str, &str)>) -> CreateEventRequest {
    CreateEventRequest {
        name: name.to_string(),
        description: description.to_string(),
        tags: tags
            .into_iter()
            .map(|(k, v)| (k.to_string(), v.to_string()))
            .collect(),
        dependencies: Vec::new(),
    }
}

fn sample_store() -> EventStore {
    let mut store = EventStore::new();
    store
        .create_event_with(
            tagged("Write report", "quarterly Numbers", vec![("prio", "high")]),
            "r".to_string(),
            100,
        )
        .unwrap();
    store
        .create_event_with(
            tagged("review code", "look at the numbers", vec![("prio", "low")]),
            "c".to_string(),
            100,
        )
        .unwrap();
    store
        .create_event_with(
            tagged("Plan trip", "pack bags", vec![("prio", "high"), ("kind", "fun")]),
            "t".to_string(),
            100,
        )
        .unwrap();
    store.update_event_status_cascade("c", EventStatus::Completed, 200);
    store
}

fn ids(events: Vec<todo_scheduler::TodoEvent>) -> Vec<String> {
    events.into_iter().map(|e| e.id).collect()
}

#[test]
fn empty_filter_returns_everything_in_order() {
    let store = sample_store();
    let f = EventFilter { status: None, tags: None, search: None };
    assert_eq!(ids(store.filter_events(f)), vec!["r", "c", "t"]);
}

#[test]
fn status_filter_keeps_equal_status_only() {
    let store = sample_store();
    let f = EventFilter {
        status: Some(EventStatus::Completed),
        tags: None,
        search: None,
    };
    assert_eq!(ids(store.filter_events(f)), vec!["c"]);
}

#[test]
fn search_matches_name_or_description_case_sensitively() {
    let store = sample_store();
    let f = EventFilter {
        status: None,
        tags: None,
        search: Some("numbers".to_string()),
    };
    // "quarterly Numbers" does not match: the search is case-sensitive.
    assert_eq!(ids(store.filter_events(f)), vec!["c"]);

    let f = EventFilter {
        status: None,
        tags: None,
        search: Some("Numbers".to_string()),
    };
    assert_eq!(ids(store.filter_events(f)), vec!["r"]);

    let f = EventFilter {
        status: None,
        tags: None,
        search: Some("Plan".to_string()),
    };
    assert_eq!(ids(store.filter_events(f)), vec!["t"]);
}

#[test]
fn empty_search_string_matches_everything() {
    let store = sample_store();
    let f = EventFilter {
        status: None,
        tags: None,
        search: Some(String::new()),
    };
    assert_eq!(ids(store.filter_events(f)), vec!["r", "c", "t"]);
}

#[test]
fn tag_filter_requires_every_pair_to_match() {
    let store = sample_store();
    let f = EventFilter {
        status: None,
        tags: Some(vec![("prio".to_string(), "high".to_string())]),
        search: None,
    };
    assert_eq!(ids(store.filter_events(f)), vec!["r", "t"]);

    let f = EventFilter {
        status: None,
        tags: Some(vec![
            ("prio".to_string(), "high".to_string()),
            ("kind".to_string(), "fun".to_string()),
        ]),
        search: None,
    };
    assert_eq!(ids(store.filter_events(f)), vec!["t"]);

    // A wrong value or a missing key excludes the task.
    let f = EventFilter {
        status: None,
        tags: Some(vec![("prio".to_string(), "medium".to_string())]),
        search: None,
    };
    assert!(store.filter_events(f).is_empty());
    let f = EventFilter {
        status: None,
        tags: Some(vec![("owner".to_string(), "me".to_string())]),
        search: None,
    };
    assert!(store.filter_events(f).is_empty());
}

#[test]
fn combined_filters_intersect() {
    let store = sample_store();
    let f = EventFilter {
        status: Some(EventStatus::Pending),
        tags: Some(vec![("prio".to_string(), "high".to_string())]),
        search: Some("report".to_string()),
    };
    assert_eq!(ids(store.filter_events(f)), vec!["r"]);
}

#[test]
fn substring_search_spans_word_boundaries() {
    let store = sample_store();
    let f = EventFilter {
        status: None,
        tags: None,
        search: Some("at the".to_string()),
    };
    assert_eq!(ids(store.filter_events(f)), vec!["c"]);
}
