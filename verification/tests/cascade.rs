use todo_scheduler::store::EventStore;
use todo_scheduler::CreateEventRequest;
use todo_scheduler::EventStatus;
use todo_scheduler::UpdateEventRequest;

fn request(name: &str, deps: Vec<&str>) -> CreateEventRequest {
    CreateEventRequest {
        name: name.to_string(),
        description: String::new(),
        tags: Vec::new(),
        dependencies: deps.into_iter().map(|d| d.to_string()).collect(),
    }
}

fn put(store: &mut EventStore, id: &str, name: &str, deps: Vec<&str>) {
    store
        .create_event_with(request(name, deps), id.to_string(), 100)
        .unwrap();
}

#[test]
fn scenario_a_completion_unblocks_dependent() {
    let mut store = EventStore::new();
    put(&mut store, "x", "X", vec![]);
    assert_eq!(store.get_event("x").unwrap().status, EventStatus::Pending);
    put(&mut store, "y", "Y", vec!["x"]);
    assert_eq!(store.get_event("y").unwrap().status, EventStatus::Blocked);

    let updated = store.update_event_status_cascade("x", EventStatus::Completed, 200);
    assert_eq!(updated.len(), 2);
    assert_eq!(updated[0].id, "x");
    assert_eq!(updated[0].status, EventStatus::Completed);
    assert_eq!(updated[1].id, "y");
    assert_eq!(updated[1].status, EventStatus::Pending);
    assert_eq!(store.get_event("x").unwrap().status, EventStatus::Completed);
    assert_eq!(store.get_event("y").unwrap().status, EventStatus::Pending);
    assert_eq!(store.get_event("y").unwrap().updated_at, 200);
}

#[test]
fn scenario_b_dangling_dependency_stays_blocked() {
    let mut store = EventStore::new();
    put(&mut store, "w", "W", vec![]);
    put(&mut store, "z", "Z", vec!["missing-id"]);
    assert_eq!(store.get_event("z").unwrap().status, EventStatus::Blocked);

    // Completing an unrelated task does not unblock Z.
    store.update_event_status_cascade("w", EventStatus::Completed, 200);
    assert_eq!(store.get_event("z").unwrap().status, EventStatus::Blocked);

    // Only a field update that replaces the dependency list frees it.
    let up = UpdateEventRequest {
        id: "z".to_string(),
        name: None,
        description: None,
        tags: None,
        status: Some(EventStatus::Pending),
        dependencies: Some(Vec::new()),
    };
    store.update_event(up, 300).unwrap();
    assert_eq!(store.get_event("z").unwrap().status, EventStatus::Pending);
}

#[test]
fn scenario_c_diamond_needs_both_sides() {
    let mut store = EventStore::new();
    put(&mut store, "a", "A", vec![]);
    put(&mut store, "b", "B", vec!["a"]);
    put(&mut store, "c", "C", vec!["a"]);
    put(&mut store, "d", "D", vec!["b", "c"]);
    assert_eq!(store.get_event("b").unwrap().status, EventStatus::Blocked);
    assert_eq!(store.get_event("c").unwrap().status, EventStatus::Blocked);
    assert_eq!(store.get_event("d").unwrap().status, EventStatus::Blocked);

    let updated = store.update_event_status_cascade("a", EventStatus::Completed, 200);
    let ids: Vec<&str> = updated.iter().map(|e| e.id.as_str()).collect();
    assert_eq!(ids, vec!["a", "b", "c"]);
    assert_eq!(store.get_event("b").unwrap().status, EventStatus::Pending);
    assert_eq!(store.get_event("c").unwrap().status, EventStatus::Pending);
    assert_eq!(store.get_event("d").unwrap().status, EventStatus::Blocked);

    store.update_event_status_cascade("b", EventStatus::Completed, 300);
    assert_eq!(store.get_event("d").unwrap().status, EventStatus::Blocked);

    let updated = store.update_event_status_cascade("c", EventStatus::Completed, 400);
    assert_eq!(updated.len(), 2);
    assert_eq!(updated[1].id, "d");
    assert_eq!(store.get_event("d").unwrap().status, EventStatus::Pending);
}

#[test]
fn scenario_d_deletion_leaves_dependents_untouched() {
    let mut store = EventStore::new();
    put(&mut store, "x", "X", vec![]);
    put(&mut store, "y", "Y", vec!["x"]);
    store.update_event_status_cascade("x", EventStatus::Completed, 200);
    assert_eq!(store.get_event("y").unwrap().status, EventStatus::Pending);

    assert!(store.delete_event("x"));
    let y = store.get_event("y").unwrap();
    // The dangling dependency id and the stale status both survive deletion.
    assert_eq!(y.dependencies, vec!["x".to_string()]);
    assert_eq!(y.status, EventStatus::Pending);
    // The next derivation treats the dangling id as unsatisfied.
    assert_eq!(store.calculate_event_status(&y), EventStatus::Blocked);
}

#[test]
fn cascade_with_current_status_is_a_noop_for_others() {
    let mut store = EventStore::new();
    put(&mut store, "a", "A", vec![]);
    put(&mut store, "b", "B", vec!["a"]);
    put(&mut store, "c", "C", vec!["missing"]);
    let before: Vec<(String, EventStatus, i64)> = store
        .get_all_events()
        .iter()
        .map(|e| (e.id.clone(), e.status, e.updated_at))
        .collect();

    let updated = store.update_event_status_cascade("b", EventStatus::Blocked, 999);
    assert_eq!(updated.len(), 1);
    assert_eq!(updated[0].id, "b");
    let after: Vec<(String, EventStatus, i64)> = store
        .get_all_events()
        .iter()
        .map(|e| (e.id.clone(), e.status, e.updated_at))
        .collect();
    for (b, a) in before.iter().zip(after.iter()) {
        if b.0 != "b" {
            assert_eq!(b, a);
        } else {
            assert_eq!(a.1, EventStatus::Blocked);
            assert_eq!(a.2, 999);
        }
    }
}

#[test]
fn cascades_converge_to_a_fixed_point() {
    let mut store = EventStore::new();
    put(&mut store, "a", "A", vec![]);
    put(&mut store, "b", "B", vec!["a"]);
    put(&mut store, "c", "C", vec!["b"]);
    store.update_event_status_cascade("a", EventStatus::Completed, 200);
    store.update_event_status_cascade("b", EventStatus::Completed, 300);

    // Re-deriving every task changes nothing: every Blocked task still
    // derives Blocked, and no cascade invocation alters any other record.
    for e in store.get_all_events() {
        if e.status == EventStatus::Blocked {
            assert_eq!(store.calculate_event_status(&e), EventStatus::Blocked);
        }
    }
    let before: Vec<(String, EventStatus)> = store
        .get_all_events()
        .iter()
        .map(|e| (e.id.clone(), e.status))
        .collect();
    for (id, st) in &before {
        store.update_event_status_cascade(id, *st, 400);
        let after: Vec<(String, EventStatus)> = store
            .get_all_events()
            .iter()
            .map(|e| (e.id.clone(), e.status))
            .collect();
        assert_eq!(before, after);
    }
}

#[test]
fn cascade_on_missing_id_is_silent_noop() {
    let mut store = EventStore::new();
    put(&mut store, "a", "A", vec![]);
    let updated = store.update_event_status_cascade("ghost", EventStatus::Completed, 200);
    assert!(updated.is_empty());
    assert_eq!(store.get_all_events().len(), 1);
    assert_eq!(store.get_event("a").unwrap().updated_at, 100);
}

#[test]
fn cascade_does_not_revisit_non_blocked_dependents() {
    let mut store = EventStore::new();
    put(&mut store, "a", "A", vec![]);
    put(&mut store, "b", "B", vec!["a"]);
    // Force B to InProgress although A is not completed.
    store.update_event_status_cascade("b", EventStatus::InProgress, 150);
    // Completing A re-examines only Blocked dependents, so B keeps its
    // explicit status.
    let updated = store.update_event_status_cascade("a", EventStatus::Completed, 200);
    assert_eq!(updated.len(), 1);
    assert_eq!(store.get_event("b").unwrap().status, EventStatus::InProgress);
}
