use std::sync::Mutex;

use analytics_rust::intake::{ingest_event, is_counted, AnalyticsEvent, Receipt};
use analytics_rust::store::CounterStore;

fn event(event_type: &str, room_id: &str, timestamp: i64) -> AnalyticsEvent {
    AnalyticsEvent {
        event_type: event_type.to_string(),
        room_id: room_id.to_string(),
        timestamp,
    }
}

fn count(store: &CounterStore, room: &str) -> u64 {
    store.count(&room.to_string())
}

#[test]
fn unseen_room_counts_zero() {
    let store = CounterStore::new();
    assert_eq!(count(&store, "room42"), 0);
    assert_eq!(count(&store, ""), 0);
}

#[test]
fn first_increment_returns_one() {
    let mut store = CounterStore::new();
    assert_eq!(store.increment(&"fresh".to_string()), 1);
    assert_eq!(count(&store, "fresh"), 1);
}

#[test]
fn increment_returns_new_count() {
    let mut store = CounterStore::new();
    let room = "r".to_string();
    assert_eq!(store.increment(&room), 1);
    assert_eq!(store.increment(&room), 2);
    assert_eq!(store.increment(&room), 3);
    assert_eq!(count(&store, "r"), 3);
}

#[test]
fn empty_room_key_is_accepted() {
    let mut store = CounterStore::new();
    assert_eq!(store.increment(&String::new()), 1);
    assert_eq!(count(&store, ""), 1);
    assert_eq!(count(&store, "a"), 0);
}

#[test]
fn increments_on_one_room_leave_another() {
    let mut store = CounterStore::new();
    let k1 = "k1".to_string();
    let k2 = "k2".to_string();
    store.increment(&k2);
    for _ in 0..10 {
        store.increment(&k1);
    }
    assert_eq!(count(&store, "k1"), 10);
    assert_eq!(count(&store, "k2"), 1);
}

#[test]
fn only_message_type_is_counted() {
    assert!(is_counted(&"message".to_string()));
    assert!(!is_counted(&"user_join".to_string()));
    assert!(!is_counted(&"message_sent".to_string()));
    assert!(!is_counted(&"Message".to_string()));
    assert!(!is_counted(&String::new()));
}

#[test]
fn non_message_events_change_nothing() {
    let mut store = CounterStore::new();
    ingest_event(&mut store, &event("message", "room", 1));
    for kind in ["user_join", "page_view", "", "messages"] {
        let r: Receipt = ingest_event(&mut store, &event(kind, "room", 2));
        assert_eq!(r.status, "recorded");
        assert_eq!(r.room_count, None);
        assert_eq!(count(&store, "room"), 1);
    }
    ingest_event(&mut store, &event("user_join", "other", 3));
    assert_eq!(count(&store, "other"), 0);
}

#[test]
fn repeated_payload_counts_again() {
    let mut store = CounterStore::new();
    let ev = event("message", "dup", 7);
    assert_eq!(ingest_event(&mut store, &ev).room_count, Some(1));
    assert_eq!(ingest_event(&mut store, &ev).room_count, Some(2));
    assert_eq!(ingest_event(&mut store, &ev).room_count, Some(3));
}

#[test]
fn scenario_message_then_repeat() {
    let mut store = CounterStore::new();
    let ev = event("message", "room42", 1000);
    let r = ingest_event(&mut store, &ev);
    assert_eq!(r.status, "recorded");
    assert_eq!(r.room_count, Some(1));
    assert_eq!(count(&store, "room42"), 1);
    let r = ingest_event(&mut store, &ev);
    assert_eq!(r.status, "recorded");
    assert_eq!(count(&store, "room42"), 2);
}

#[test]
fn scenario_user_join_keeps_count() {
    let mut store = CounterStore::new();
    ingest_event(&mut store, &event("message", "room42", 1000));
    let before = count(&store, "room42");
    let r = ingest_event(&mut store, &event("user_join", "room42", 1001));
    assert_eq!(r.status, "recorded");
    assert_eq!(r.room_count, None);
    assert_eq!(count(&store, "room42"), before);
}

#[test]
fn scenario_hundred_messages_through_shared_store() {
    let shared = Mutex::new(CounterStore::new());
    for t in 0..100i64 {
        let mut store = shared.lock().unwrap();
        ingest_event(&mut store, &event("message", "roomX", t));
    }
    assert_eq!(count(&shared.lock().unwrap(), "roomX"), 100);
}

#[test]
fn scenario_interleaved_rooms() {
    let mut store = CounterStore::new();
    for t in 0..50i64 {
        ingest_event(&mut store, &event("message", "A", t));
        ingest_event(&mut store, &event("message", "B", t));
    }
    assert_eq!(count(&store, "A"), 50);
    assert_eq!(count(&store, "B"), 50);
}

#[test]
fn timestamp_takes_no_part() {
    let mut store = CounterStore::new();
    ingest_event(&mut store, &event("message", "t", i64::MIN));
    ingest_event(&mut store, &event("message", "t", i64::MAX));
    assert_eq!(count(&store, "t"), 2);
}
