use graymamba::audit::{
    event_type_string, in_window, make_event, window_bounds, Event, EventType, LedgerCall,
};

#[test]
fn event_window_of_a_day() {
    let (start, end) = window_bounds(1696161600, 86400);
    assert_eq!(start, 1696118400);
    assert_eq!(end, 1696204799);
    assert!(in_window(1696161600, start, end));
    assert!(!in_window(1696204800, start, end));
    assert!(!in_window(1696118399, start, end));
}

#[test]
fn events_carry_their_fields() {
    let e = make_event(EventType::Reassembled, "/test/path1", "Martha", "2023-10-01T12:00:00Z");
    assert_eq!(e.event_type, "REASSEMBLED");
    assert_eq!(e.file_path, "/test/path1");
    assert_eq!(e.event_key, "Martha");
    assert_eq!(e.creation_time, "2023-10-01T12:00:00Z");
    assert_eq!(event_type_string(EventType::Modified), "MODIFIED");
    assert_eq!(event_type_string(EventType::DirectoryRead), "DIRECTORY_READ");
    assert_eq!(event_type_string(EventType::Deleted), "DELETED");
    assert_eq!(event_type_string(EventType::Disassembled), "DISASSEMBLED");
}

#[test]
fn ledger_calls_follow_the_event_type() {
    let e = Event::new("2023-10-01T12:00:00Z", "disassembled", "/test/path1", "Martha");
    assert_eq!(e.ledger_call(), Some(LedgerCall::Disassembled));
    assert_eq!(e.file_path, "/test/path1");
    let r = Event::new("t", "reassembled", "/p", "k");
    assert_eq!(r.ledger_call(), Some(LedgerCall::Reassembled));
    let other = Event::new("t", "test_event", "/p", "k");
    assert_eq!(other.ledger_call(), None);
}
