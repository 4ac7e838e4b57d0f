use todo_scheduler::models::status_from_str;
use todo_scheduler::models::status_to_str;
use todo_scheduler::EventStatus;

#[test]
fn status_encodes_as_expected() {
    assert_eq!(status_to_str(EventStatus::Pending), "pending");
    assert_eq!(status_to_str(EventStatus::InProgress), "in_progress");
    assert_eq!(status_to_str(EventStatus::Completed), "completed");
    assert_eq!(status_to_str(EventStatus::Blocked), "blocked");
}

#[test]
fn status_round_trips() {
    for st in [
        EventStatus::Pending,
        EventStatus::InProgress,
        EventStatus::Completed,
        EventStatus::Blocked,
    ] {
        assert_eq!(status_from_str(status_to_str(st)), st);
    }
}

#[test]
fn unknown_status_decodes_to_pending() {
    assert_eq!(status_from_str(""), EventStatus::Pending);
    assert_eq!(status_from_str("done"), EventStatus::Pending);
    assert_eq!(status_from_str("PENDING"), EventStatus::Pending);
}

#[test]
fn default_status_is_pending() {
    assert_eq!(EventStatus::default(), EventStatus::Pending);
}
