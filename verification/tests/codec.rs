use chrono::{Datelike, Timelike};
use serde_json::Value;
use swec::api;
use swec::checker::{Checker, Spec, Status, StatusRingBuffer, TimeStampedStatus};
use swec::jsonout::{checker_message_json, list_message_json, statuses_json};
use swec::messages::{CheckerMessage, ListMessage};
use swec::ringbuffer::RingBuffer;
use swec::state::{read_canonical_dump, reconcile_histories, AppState, RestoreError};
use swec::time::Timestamp;

fn stamp(second: u8) -> Timestamp {
    Timestamp {
        year: 2024,
        month: 3,
        day: 9,
        hour: 12,
        minute: 30,
        second,
        nanosecond: 123_456_789,
        offset_minutes: 90,
    }
}

#[test]
fn test_serialize() {
    let rb = StatusRingBuffer::new(5);
    let serialized = statuses_json(&rb);
    assert_eq!(serialized, "[]");
}

#[test]
fn timestamp_text_is_fixed_width_rfc3339() {
    let mut out: Vec<char> = Vec::new();
    swec::time::push_rfc3339(&mut out, &stamp(7));
    let text: String = out.into_iter().collect();
    assert_eq!(text, "2024-03-09T12:30:07.123456789+01:30");
    assert_eq!(text.len(), 35);
}

#[test]
fn timestamp_reads_back() {
    let mut out: Vec<char> = Vec::new();
    swec::time::push_rfc3339(&mut out, &stamp(59));
    let parsed = swec::time::read_rfc3339(&out, 0).unwrap();
    assert_eq!(parsed, stamp(59));
}

#[test]
fn now_is_well_formed_and_renders() {
    let t = Timestamp::now();
    assert!(t.month >= 1 && t.month <= 12);
    assert!(t.day >= 1 && t.day <= 31);
    assert!(t.hour <= 23 && t.minute <= 59 && t.second <= 59);
    assert!(t.nanosecond < 1_000_000_000);
    let mut out: Vec<char> = Vec::new();
    swec::time::push_rfc3339(&mut out, &t);
    assert_eq!(out.len(), 35);
    assert_eq!(swec::time::read_rfc3339(&out, 0), Some(t));
}

#[test]
fn timestamp_order_follows_fields() {
    let a = stamp(5);
    let b = stamp(6);
    assert!(a.le(&b));
    assert!(!b.le(&a));
    assert!(a.le(&a));
}

#[test]
fn dump_and_restore_round_trip() {
    let mut state = AppState::new(Vec::new(), 3);
    let name = "alpha".to_string();
    api::post_checker_spec(
        &mut state,
        name.clone(),
        Spec::new("A \"quoted\"\nline".to_string(), Some("http://x".to_string())),
    );
    for i in 0..5 {
        api::post_checker_status(&mut state, &name, Status::new(i % 2 == 0, format!("s{i}")));
    }
    let dump = state.checkers_to_json();
    let restored = read_canonical_dump(&dump, 3, false).unwrap();
    assert_eq!(restored.len(), 1);
    assert_eq!(restored[0].0, "alpha");
    assert_eq!(restored[0].1.spec.description, "A \"quoted\"\nline");
    assert_eq!(restored[0].1.spec.url.as_deref(), Some("http://x"));
    assert_eq!(restored[0].1.statuses.len(), 3);
    assert_eq!(restored[0].1.statuses.capacity(), 3);
    let items = restored[0].1.statuses.iter();
    assert_eq!(items[0].status.message, "s2");
    assert_eq!(items[2].status.message, "s4");
    // The reloaded state serializes to the very same text.
    let state2 = AppState::new(restored, 3);
    assert_eq!(state2.checkers_to_json(), dump);
}

#[test]
fn restore_raises_bound_and_keeps_entries() {
    let mut state = AppState::new(Vec::new(), 3);
    let name = "alpha".to_string();
    api::post_checker_spec(&mut state, name.clone(), Spec::new("A".to_string(), None));
    for i in 0..5 {
        api::post_checker_status(&mut state, &name, Status::new(true, format!("s{i}")));
    }
    let dump = state.checkers_to_json();
    // Restart with a larger bound: the same three entries, then room for more.
    let restored = read_canonical_dump(&dump, 5, false).unwrap();
    let mut state2 = AppState::new(restored, 5);
    let (code, body) = api::get_checker_statuses(&state2, &name);
    assert_eq!(code, 200);
    let parsed: Value = serde_json::from_str(&body).unwrap();
    assert_eq!(parsed.as_array().unwrap().len(), 3);
    for i in 5..8 {
        api::post_checker_status(&mut state2, &name, Status::new(true, format!("s{i}")));
    }
    let (_, body) = api::get_checker_statuses(&state2, &name);
    let parsed: Value = serde_json::from_str(&body).unwrap();
    let entries = parsed.as_array().unwrap();
    assert_eq!(entries.len(), 5);
    assert_eq!(entries[0][1]["message"], Value::String("s3".to_string()));
    assert_eq!(entries[4][1]["message"], Value::String("s7".to_string()));
}

#[test]
fn restore_empty_text_is_empty_registry() {
    let restored = read_canonical_dump("", 3, false).unwrap();
    assert!(restored.is_empty());
}

#[test]
fn restore_rejects_foreign_text() {
    assert!(matches!(
        read_canonical_dump("not json at all", 3, false),
        Err(RestoreError::Unparsable)
    ));
    assert!(matches!(
        read_canonical_dump("{\"a\":1}", 3, false),
        Err(RestoreError::Unparsable)
    ));
}

#[test]
fn restore_truncates_when_asked() {
    let mut rb = StatusRingBuffer::new(5);
    for i in 0u8..5 {
        rb.push(TimeStampedStatus {
            time: stamp(i),
            status: Status::new(true, format!("s{i}")),
        });
    }
    let checker = Checker::new(Spec::new("A".to_string(), None), rb);
    let state = AppState::new(vec![("alpha".to_string(), checker)], 5);
    let dump = state.checkers_to_json();
    assert!(matches!(
        read_canonical_dump(&dump, 2, false),
        Err(RestoreError::HistoryTooLong)
    ));
    let restored = read_canonical_dump(&dump, 2, true).unwrap();
    assert_eq!(restored[0].1.statuses.len(), 2);
    assert_eq!(restored[0].1.statuses.capacity(), 2);
    let items = restored[0].1.statuses.iter();
    assert_eq!(items[0].status.message, "s3");
    assert_eq!(items[1].status.message, "s4");
}

#[test]
fn checker_message_wire_forms() {
    let spec = Spec::new("A".to_string(), None);
    let msg = CheckerMessage::UpdatedSpec(spec.clone());
    assert_eq!(
        checker_message_json(&msg),
        "{\"UpdatedSpec\":{\"description\":\"A\",\"url\":null}}"
    );
    let msg = CheckerMessage::Initial(spec.clone(), None);
    assert_eq!(
        checker_message_json(&msg),
        "{\"Initial\":[{\"description\":\"A\",\"url\":null},null]}"
    );
    let ts = TimeStampedStatus { time: stamp(7), status: Status::new(true, "ok".to_string()) };
    let msg = CheckerMessage::Initial(spec.clone(), Some(ts));
    assert_eq!(
        checker_message_json(&msg),
        "{\"Initial\":[{\"description\":\"A\",\"url\":null},[\"2024-03-09T12:30:07.123456789+01:30\",{\"is_up\":true,\"message\":\"ok\"}]]}"
    );
    let msg = CheckerMessage::AddedStatus(stamp(8), Status::new(false, "down".to_string()));
    assert_eq!(
        checker_message_json(&msg),
        "{\"AddedStatus\":[\"2024-03-09T12:30:08.123456789+01:30\",{\"is_up\":false,\"message\":\"down\"}]}"
    );
    assert_eq!(
        checker_message_json(&CheckerMessage::CheckerDropped),
        "{\"CheckerDropped\":null}"
    );
    assert_eq!(checker_message_json(&CheckerMessage::Lagged(17)), "{\"Lagged\":17}");
}

#[test]
fn list_message_wire_forms() {
    let msg = ListMessage::Initial(vec!["a".to_string(), "b".to_string()]);
    assert_eq!(list_message_json(&msg), "{\"Initial\":[\"a\",\"b\"]}");
    assert_eq!(
        list_message_json(&ListMessage::Insert("x".to_string())),
        "{\"Insert\":\"x\"}"
    );
    assert_eq!(
        list_message_json(&ListMessage::InsertReplace("x".to_string())),
        "{\"InsertReplace\":\"x\"}"
    );
    assert_eq!(
        list_message_json(&ListMessage::Remove("x".to_string())),
        "{\"Remove\":\"x\"}"
    );
    assert_eq!(list_message_json(&ListMessage::Lagged(3)), "{\"Lagged\":3}");
}

#[test]
fn control_characters_survive_the_dump() {
    let mut rb = StatusRingBuffer::new(2);
    rb.push(TimeStampedStatus {
        time: stamp(1),
        status: Status::new(true, "tab\there\u{1}raw".to_string()),
    });
    let checker = Checker::new(Spec::new("d\\e\"f".to_string(), None), rb);
    let state = AppState::new(vec![("n".to_string(), checker)], 2);
    let dump = state.checkers_to_json();
    let parsed: Value = serde_json::from_str(&dump).unwrap();
    assert_eq!(
        parsed["n"]["spec"]["description"],
        Value::String("d\\e\"f".to_string())
    );
    let restored = read_canonical_dump(&dump, 2, false).unwrap();
    assert_eq!(restored[0].1.spec.description, "d\\e\"f");
    let items = restored[0].1.statuses.iter();
    assert_eq!(items[0].status.message, "tab\there\u{1}raw");
}

#[test]
fn ring_of_capacity_n_keeps_last_n() {
    // The bounded-history law on concrete values.
    let mut rb = RingBuffer::<i32>::new(4);
    rb.push_multiple((1..=9).collect());
    assert_eq!(rb.iter(), vec![6, 7, 8, 9]);
    let mut rb = RingBuffer::<i32>::new(12);
    rb.push_multiple((1..=9).collect());
    assert_eq!(rb.iter(), (1..=9).collect::<Vec<i32>>());
}

#[test]
fn canonical_reader_accepts_exactly_the_rendering() {
    let restored = read_canonical_dump("{}", 3, false).unwrap();
    assert!(restored.is_empty());
    // The canonical reader takes the rendering to the byte; any other
    // layout is restored through the process's outer JSON parsing and
    // reconcile_histories instead.
    assert!(matches!(
        read_canonical_dump("{ }", 3, false),
        Err(RestoreError::Unparsable)
    ));
}

fn entries_from_value(parsed: &Value) -> Vec<(String, Checker)> {
    // The outer layer's restore path: ordinary JSON in any layout is
    // parsed outside the library and handed over as plain values.
    let mut entries: Vec<(String, Checker)> = Vec::new();
    for (name, checker) in parsed.as_object().unwrap() {
        let spec = Spec::new(
            checker["spec"]["description"].as_str().unwrap().to_string(),
            checker["spec"]["url"].as_str().map(|u| u.to_string()),
        );
        let mut items: Vec<TimeStampedStatus> = Vec::new();
        for entry in checker["statuses"].as_array().unwrap() {
            let ts = chrono::DateTime::parse_from_rfc3339(entry[0].as_str().unwrap()).unwrap();
            let time = Timestamp::new_checked(
                ts.year(),
                ts.month(),
                ts.day(),
                ts.hour(),
                ts.minute(),
                ts.second(),
                ts.nanosecond(),
                ts.offset().local_minus_utc(),
            )
            .unwrap();
            let status = Status::new(
                entry[1]["is_up"].as_bool().unwrap(),
                entry[1]["message"].as_str().unwrap().to_string(),
            );
            items.push(TimeStampedStatus { time, status });
        }
        entries.push((name.clone(), Checker::new(spec, RingBuffer::from_vec(items))));
    }
    entries
}

#[test]
fn outer_restore_accepts_ordinary_json_layouts() {
    // Whitespace, reordered members and serde-style escapes, as another
    // writer of the dump file may produce them.
    let text = "{ \"alpha\" : { \"statuses\": [ [ \"2024-03-09T12:30:07.5+01:30\", { \"message\": \"ok\", \"is_up\": true } ] ], \"spec\": { \"url\": null, \"description\": \"A\" } } }";
    let parsed: Value = serde_json::from_str(text).unwrap();
    let entries = entries_from_value(&parsed);
    let reconciled = reconcile_histories(entries, 3, false).unwrap();
    let state = AppState::new(reconciled, 3);
    let (code, body) = api::get_checker_spec(&state, &"alpha".to_string());
    assert_eq!(code, 200);
    assert_eq!(body, "{\"description\":\"A\",\"url\":null}");
    let (_, body) = api::get_checker_statuses(&state, &"alpha".to_string());
    assert_eq!(
        body,
        "[[\"2024-03-09T12:30:07.500000000+01:30\",{\"is_up\":true,\"message\":\"ok\"}]]"
    );
}

#[test]
fn reconcile_succeeds_iff_histories_fit() {
    let mut items: Vec<TimeStampedStatus> = Vec::new();
    for i in 0u8..5 {
        items.push(TimeStampedStatus { time: stamp(i), status: Status::new(true, format!("s{i}")) });
    }
    let checker = Checker::new(Spec::new("A".to_string(), None), RingBuffer::from_vec(items));
    let entries = vec![("alpha".to_string(), checker)];
    assert!(matches!(
        reconcile_histories(entries, 2, false),
        Err(RestoreError::HistoryTooLong)
    ));
}
