use serde_json::Value;
use swec::api;
use swec::checker::{Checker, StatusRingBuffer};
use swec::registry::{CheckerWithSender, Registry};
use swec::checker::{Spec, Status};
use swec::messages::{CheckerMessage, Info, ListMessage};
use swec::state::AppState;

fn fresh_state(history_len: usize) -> AppState {
    AppState::new(Vec::new(), history_len)
}

fn spec_a() -> Spec {
    Spec::new("A".to_string(), None)
}

fn status_ok() -> Status {
    Status::new(true, "ok".to_string())
}

#[test]
fn create_spec_returns_201_with_posted_body() {
    let mut state = fresh_state(3);
    let (code, body) = api::post_checker_spec(&mut state, "alpha".to_string(), spec_a());
    assert_eq!(code, 201);
    assert_eq!(body, "{\"description\":\"A\",\"url\":null}");
}

#[test]
fn five_status_posts_each_return_201() {
    let mut state = fresh_state(3);
    let (code, _) = api::post_checker_spec(&mut state, "alpha".to_string(), spec_a());
    assert_eq!(code, 201);
    let name = "alpha".to_string();
    for _ in 0..5 {
        let (code, body) = api::post_checker_status(&mut state, &name, status_ok());
        assert_eq!(code, 201);
        assert_eq!(body, "{\"is_up\":true,\"message\":\"ok\"}");
    }
}

#[test]
fn statuses_read_is_bounded_ordered_and_latest() {
    let mut state = fresh_state(3);
    let name = "alpha".to_string();
    api::post_checker_spec(&mut state, name.clone(), spec_a());
    for _ in 0..5 {
        api::post_checker_status(&mut state, &name, status_ok());
    }
    let (code, body) = api::get_checker_statuses(&state, &name);
    assert_eq!(code, 200);
    let parsed: Value = serde_json::from_str(&body).unwrap();
    let entries = parsed.as_array().unwrap();
    assert_eq!(entries.len(), 3);
    let mut previous: Option<String> = None;
    for entry in entries {
        let pair = entry.as_array().unwrap();
        assert_eq!(pair.len(), 2);
        let stamp = pair[0].as_str().unwrap().to_string();
        assert_eq!(pair[1]["is_up"], Value::Bool(true));
        assert_eq!(pair[1]["message"], Value::String("ok".to_string()));
        if let Some(p) = &previous {
            // Fixed-width timestamps of one offset order as their text.
            assert!(p <= &stamp);
        }
        previous = Some(stamp);
    }
}

#[test]
fn conflicting_create_returns_409_and_keeps_spec() {
    let mut state = fresh_state(3);
    let name = "alpha".to_string();
    api::post_checker_spec(&mut state, name.clone(), spec_a());
    let other = Spec::new("A'".to_string(), None);
    let (code, _) = api::post_checker_spec(&mut state, name.clone(), other);
    assert_eq!(code, 409);
    let (code, body) = api::get_checker_spec(&state, &name);
    assert_eq!(code, 200);
    assert_eq!(body, "{\"description\":\"A\",\"url\":null}");
}

#[test]
fn put_replaces_spec_and_subscriber_sees_update() {
    let mut state = fresh_state(3);
    let name = "alpha".to_string();
    api::post_checker_spec(&mut state, name.clone(), spec_a());
    let (mut rx, initial) = state.subscribe_checker(&name).ok().unwrap();
    match initial {
        CheckerMessage::Initial(spec, last) => {
            assert_eq!(spec.description, "A");
            assert!(last.is_none());
        }
        _ => panic!("first frame must be Initial"),
    }
    let new_spec = Spec::new("A'".to_string(), Some("http://x".to_string()));
    let (code, body) = api::put_checker_spec(&mut state, &name, new_spec);
    assert_eq!(code, 200);
    assert_eq!(body, "{\"description\":\"A'\",\"url\":\"http://x\"}");
    let (code, body) = api::get_checker_spec(&state, &name);
    assert_eq!(code, 200);
    assert_eq!(body, "{\"description\":\"A'\",\"url\":\"http://x\"}");
    match rx.try_recv().unwrap() {
        CheckerMessage::UpdatedSpec(spec) => {
            assert_eq!(spec.description, "A'");
            assert_eq!(spec.url.as_deref(), Some("http://x"));
        }
        _ => panic!("subscriber must see UpdatedSpec"),
    }
}

#[test]
fn subscriber_sees_each_added_status_in_order() {
    let mut state = fresh_state(3);
    let name = "alpha".to_string();
    api::post_checker_spec(&mut state, name.clone(), spec_a());
    let (mut rx, _) = state.subscribe_checker(&name).ok().unwrap();
    api::post_checker_status(&mut state, &name, Status::new(true, "one".to_string()));
    api::post_checker_status(&mut state, &name, Status::new(false, "two".to_string()));
    match rx.try_recv().unwrap() {
        CheckerMessage::AddedStatus(_, status) => {
            assert!(status.is_up);
            assert_eq!(status.message, "one");
        }
        _ => panic!("expected AddedStatus"),
    }
    match rx.try_recv().unwrap() {
        CheckerMessage::AddedStatus(_, status) => {
            assert!(!status.is_up);
            assert_eq!(status.message, "two");
        }
        _ => panic!("expected AddedStatus"),
    }
}

#[test]
fn delete_notifies_and_forgets() {
    let mut state = fresh_state(3);
    let name = "alpha".to_string();
    api::post_checker_spec(&mut state, name.clone(), spec_a());
    let (mut rx, _) = state.subscribe_checker(&name).ok().unwrap();
    let (mut list_rx, list_initial) = state.subscribe_list();
    match list_initial {
        ListMessage::Initial(names) => assert_eq!(names, vec!["alpha".to_string()]),
        _ => panic!("first list frame must be Initial"),
    }
    let (code, body) = api::delete_checker(&mut state, &name);
    assert_eq!(code, 200);
    let parsed: Value = serde_json::from_str(&body).unwrap();
    assert_eq!(parsed["spec"]["description"], Value::String("A".to_string()));
    match rx.try_recv().unwrap() {
        CheckerMessage::CheckerDropped => {}
        _ => panic!("subscriber must see CheckerDropped last"),
    }
    match list_rx.try_recv().unwrap() {
        ListMessage::Remove(removed) => assert_eq!(removed, "alpha"),
        _ => panic!("list subscriber must see Remove"),
    }
    let (code, _) = api::get_checker(&state, &name);
    assert_eq!(code, 404);
}

#[test]
fn initial_frame_carries_latest_status() {
    let mut state = fresh_state(3);
    let name = "alpha".to_string();
    api::post_checker_spec(&mut state, name.clone(), spec_a());
    api::post_checker_status(&mut state, &name, Status::new(true, "latest".to_string()));
    let (_, initial) = state.subscribe_checker(&name).ok().unwrap();
    match initial {
        CheckerMessage::Initial(spec, last) => {
            assert_eq!(spec.description, "A");
            assert_eq!(last.unwrap().status.message, "latest");
        }
        _ => panic!("first frame must be Initial"),
    }
}

#[test]
fn info_reports_writability() {
    let info = Info::new(false, "1.0.0".to_string());
    let (code, body) = api::get_api_info(&info);
    assert_eq!(code, 200);
    assert_eq!(body, "{\"writable\":false,\"swec_version\":\"1.0.0\"}");
}

#[test]
fn checker_names_are_lexicographic() {
    let mut state = fresh_state(3);
    api::post_checker_spec(&mut state, "bravo".to_string(), spec_a());
    api::post_checker_spec(&mut state, "alpha".to_string(), spec_a());
    api::post_checker_spec(&mut state, "charlie".to_string(), spec_a());
    let (code, body) = api::get_checker_names(&state);
    assert_eq!(code, 200);
    assert_eq!(body, "[\"alpha\",\"bravo\",\"charlie\"]");
}

#[test]
fn status_read_indexes_from_newest() {
    let mut state = fresh_state(3);
    let name = "alpha".to_string();
    api::post_checker_spec(&mut state, name.clone(), spec_a());
    api::post_checker_status(&mut state, &name, Status::new(true, "old".to_string()));
    api::post_checker_status(&mut state, &name, Status::new(false, "new".to_string()));
    let (code, body) = api::get_checker_status(&state, &name, 0);
    assert_eq!(code, 200);
    let parsed: Value = serde_json::from_str(&body).unwrap();
    assert_eq!(parsed[1]["message"], Value::String("new".to_string()));
    let (code, body) = api::get_checker_status(&state, &name, 1);
    assert_eq!(code, 200);
    let parsed: Value = serde_json::from_str(&body).unwrap();
    assert_eq!(parsed[1]["message"], Value::String("old".to_string()));
    let (code, _) = api::get_checker_status(&state, &name, 2);
    assert_eq!(code, 404);
}

#[test]
fn missing_checker_is_404_everywhere() {
    let mut state = fresh_state(3);
    let name = "ghost".to_string();
    assert_eq!(api::get_checker(&state, &name).0, 404);
    assert_eq!(api::get_checker_spec(&state, &name).0, 404);
    assert_eq!(api::get_checker_statuses(&state, &name).0, 404);
    assert_eq!(api::get_checker_status(&state, &name, 0).0, 404);
    assert_eq!(api::delete_checker(&mut state, &name).0, 404);
    assert_eq!(api::put_checker_spec(&mut state, &name, spec_a()).0, 404);
    assert_eq!(api::post_checker_status(&mut state, &name, status_ok()).0, 404);
}

#[test]
fn ws_step_forwards_and_synthesizes_lag() {
    match api::checker_ws_step(api::RecvEvent::Lagged(17)) {
        api::WsAction::Send(CheckerMessage::Lagged(n)) => assert_eq!(n, 17),
        _ => panic!("lag must become a Lagged frame"),
    }
    match api::checker_ws_step(api::RecvEvent::Closed) {
        api::WsAction::Close => {}
        _ => panic!("a closed channel must close the socket"),
    }
    match api::list_ws_step(api::RecvEvent::Message(ListMessage::Insert("a".to_string()))) {
        api::WsAction::Send(ListMessage::Insert(name)) => assert_eq!(name, "a"),
        _ => panic!("messages must be forwarded"),
    }
}

#[test]
fn single_or_vec_flattens() {
    let one: Vec<i64> = api::SingleOrVec::Single(5i64).into_vec();
    assert_eq!(one, vec![5]);
    let many = api::SingleOrVec::Multiple(vec![1i64, 2, 3]).into_vec();
    assert_eq!(many, vec![1, 2, 3]);
}

#[test]
fn registry_insert_replace_announces_and_returns_previous() {
    let mut registry = Registry::new();
    let mut rx = registry.subscribe();
    let first = Checker::new(Spec::new("first".to_string(), None), StatusRingBuffer::new(2));
    assert!(registry
        .insert("n".to_string(), CheckerWithSender::new(first))
        .is_none());
    match rx.try_recv().unwrap() {
        ListMessage::Insert(name) => assert_eq!(name, "n"),
        _ => panic!("a fresh name must announce Insert"),
    }
    let second = Checker::new(Spec::new("second".to_string(), None), StatusRingBuffer::new(2));
    let previous = registry
        .insert("n".to_string(), CheckerWithSender::new(second))
        .unwrap();
    assert_eq!(previous.checker().spec.description, "first");
    match rx.try_recv().unwrap() {
        ListMessage::InsertReplace(name) => assert_eq!(name, "n"),
        _ => panic!("a taken name must announce InsertReplace"),
    }
    assert_eq!(
        registry.get(&"n".to_string()).unwrap().checker().spec.description,
        "second"
    );
}

#[test]
fn later_dump_entries_win() {
    let first = Checker::new(Spec::new("first".to_string(), None), StatusRingBuffer::new(3));
    let second = Checker::new(Spec::new("second".to_string(), None), StatusRingBuffer::new(3));
    let state = AppState::new(
        vec![("n".to_string(), first), ("n".to_string(), second)],
        3,
    );
    let (code, body) = api::get_checker_spec(&state, &"n".to_string());
    assert_eq!(code, 200);
    assert_eq!(body, "{\"description\":\"second\",\"url\":null}");
}

#[test]
fn shutdown_notifies_every_subscriber() {
    let mut state = fresh_state(3);
    api::post_checker_spec(&mut state, "alpha".to_string(), spec_a());
    api::post_checker_spec(&mut state, "bravo".to_string(), spec_a());
    let (mut rx_a, _) = state.subscribe_checker(&"alpha".to_string()).ok().unwrap();
    let (mut rx_b, _) = state.subscribe_checker(&"bravo".to_string()).ok().unwrap();
    state.close_checkers();
    assert!(matches!(rx_a.try_recv().unwrap(), CheckerMessage::CheckerDropped));
    assert!(matches!(rx_b.try_recv().unwrap(), CheckerMessage::CheckerDropped));
    // The registry itself is untouched.
    let (code, _) = api::get_checker(&state, &"alpha".to_string());
    assert_eq!(code, 200);
}
