use sqs_events::batch::{
    build_delete_entries, build_send_entries, delete_entries_with_ids, received_messages,
    send_entries_with_ids, BatchError, ReceivedMessage,
    MAX_RECEIVE_COUNT, RECEIVE_WAIT_SECONDS,
};
use sqs_events::event::{encode, CodecError, Event};
use sqs_events::worker::{has_deletable, next_action, split_decoded, WorkerAction, WorkerEvent};

fn message(id: Option<&str>, handle: Option<&str>, body: &str) -> ReceivedMessage {
    ReceivedMessage {
        message_id: id.map(String::from),
        receipt_handle: handle.map(String::from),
        body: Some(body.to_string()),
    }
}

fn event(text: &str) -> Event {
    Event::new(text.to_string())
}

#[test]
fn encode_plain_text() {
    assert_eq!(encode(&event("a")), "{\"text\":\"a\"}");
}

#[test]
fn encode_escapes_quotes_and_newlines() {
    assert_eq!(
        encode(&event("say \"hi\"\n")),
        "{\"text\":\"say \\\"hi\\\"\\n\"}"
    );
}

#[test]
fn encode_empty_text() {
    assert_eq!(encode(&event("")), "{\"text\":\"\"}");
}

#[test]
fn encoded_payload_decodes_back() {
    for text in ["a", "", "with \"quotes\" and \\ slashes", "tab\there", "ünïcødé ✓"] {
        let body = encode(&event(text));
        let value: serde_json::Value = serde_json::from_str(&body).unwrap();
        assert_eq!(value["text"].as_str(), Some(text));
        assert_eq!(value.as_object().unwrap().len(), 1);
    }
}

#[test]
fn send_one_event() {
    let entries = build_send_entries(&[event("a")]).unwrap();
    assert_eq!(entries.len(), 1);
    assert_eq!(entries[0].body, "{\"text\":\"a\"}");
    assert_eq!(entries[0].id.len(), 36);
    assert!(uuid::Uuid::parse_str(&entries[0].id).is_ok());
}

#[test]
fn send_ids_are_distinct() {
    let events: Vec<Event> = (0..10).map(|i| event(&format!("event {i}"))).collect();
    let entries = build_send_entries(&events).unwrap();
    assert_eq!(entries.len(), 10);
    for (i, entry) in entries.iter().enumerate() {
        assert_eq!(entry.body, format!("{{\"text\":\"event {i}\"}}"));
        for other in &entries[i + 1..] {
            assert_ne!(entry.id, other.id);
        }
    }
}

#[test]
fn send_nothing() {
    assert!(build_send_entries(&[]).unwrap().is_empty());
}

#[test]
fn send_duplicate_content_gets_distinct_ids() {
    let entries = build_send_entries(&[event("same"), event("same")]).unwrap();
    assert_eq!(entries.len(), 2);
    assert_eq!(entries[0].body, entries[1].body);
    assert_ne!(entries[0].id, entries[1].id);
}

#[test]
fn delete_skips_message_without_handle() {
    let messages: Vec<ReceivedMessage> = (0..10)
        .map(|i| {
            let handle = format!("handle-{i}");
            let id = format!("id-{i}");
            message(Some(&id), if i == 4 { None } else { Some(&handle) }, "{}")
        })
        .collect();
    let entries = build_delete_entries(&messages);
    assert_eq!(entries.len(), 9);
    assert!(entries.iter().all(|e| e.receipt_handle != "handle-4"));
    assert_eq!(entries[4].id, "id-5");
    assert_eq!(entries[4].receipt_handle, "handle-5");
}

#[test]
fn delete_skips_empty_handle() {
    let messages = vec![message(Some("x"), Some(""), "{}"), message(Some("y"), Some("h"), "{}")];
    let entries = build_delete_entries(&messages);
    assert_eq!(entries.len(), 1);
    assert_eq!(entries[0].id, "y");
    assert_eq!(entries[0].receipt_handle, "h");
}

#[test]
fn delete_without_message_id_draws_one() {
    let entries = build_delete_entries(&[message(None, Some("h"), "{}")]);
    assert_eq!(entries.len(), 1);
    assert_eq!(entries[0].id.len(), 36);
    assert!(uuid::Uuid::parse_str(&entries[0].id).is_ok());
    assert_eq!(entries[0].receipt_handle, "h");
}

#[test]
fn delete_same_messages_twice_gives_same_entries() {
    let messages = vec![message(Some("a"), Some("ha"), "{}"), message(Some("b"), Some("hb"), "{}")];
    let first = build_delete_entries(&messages);
    let second = build_delete_entries(&messages);
    assert_eq!(first.len(), second.len());
    for (x, y) in first.iter().zip(second.iter()) {
        assert_eq!(x.id, y.id);
        assert_eq!(x.receipt_handle, y.receipt_handle);
    }
}

#[test]
fn delete_nothing() {
    assert!(build_delete_entries(&[]).is_empty());
}

#[test]
fn receive_empty_queue_gives_no_messages() {
    assert!(received_messages(None).is_empty());
    assert!(received_messages(Some(Vec::new())).is_empty());
    let got = received_messages(Some(vec![message(Some("m"), Some("h"), "b")]));
    assert_eq!(got.len(), 1);
    assert_eq!(got[0].message_id.as_deref(), Some("m"));
}

#[test]
fn receive_parameters() {
    assert_eq!(MAX_RECEIVE_COUNT, 10);
    assert_eq!(RECEIVE_WAIT_SECONDS, 20);
}

#[test]
fn worker_polls_after_empty_receive() {
    assert!(matches!(next_action(false, WorkerEvent::Received(Vec::new())), WorkerAction::Receive));
}

#[test]
fn worker_polls_when_nothing_can_be_acknowledged() {
    let msgs = vec![message(Some("m"), None, "{}")];
    assert!(!has_deletable(&msgs));
    assert!(matches!(next_action(false, WorkerEvent::Received(msgs)), WorkerAction::Receive));
}

#[test]
fn worker_acknowledges_received_batch() {
    let msgs = vec![message(Some("m"), None, "{}"), message(Some("n"), Some("h"), "{}")];
    match next_action(false, WorkerEvent::Received(msgs)) {
        WorkerAction::Acknowledge(batch) => {
            assert_eq!(batch.len(), 2);
            assert_eq!(build_delete_entries(&batch).len(), 1);
        }
        _ => panic!("expected an acknowledgement"),
    }
}

#[test]
fn worker_continues_after_failure_and_stops_on_cancel() {
    assert!(matches!(next_action(false, WorkerEvent::Failed), WorkerAction::Receive));
    assert!(matches!(next_action(false, WorkerEvent::Started), WorkerAction::Receive));
    assert!(matches!(next_action(false, WorkerEvent::Acknowledged), WorkerAction::Receive));
    assert!(matches!(next_action(true, WorkerEvent::Started), WorkerAction::Stop));
    let msgs = vec![message(Some("n"), Some("h"), "{}")];
    assert!(matches!(next_action(true, WorkerEvent::Received(msgs)), WorkerAction::Stop));
}

#[test]
fn two_workers_handle_the_same_delivery() {
    let delivery = || vec![message(Some("m"), Some("h"), "{\"text\":\"dup\"}")];
    for _worker in 0..2 {
        match next_action(false, WorkerEvent::Received(delivery())) {
            WorkerAction::Acknowledge(batch) => {
                let entries = build_delete_entries(&batch);
                assert_eq!(entries.len(), 1);
                assert_eq!(entries[0].receipt_handle, "h");
            }
            _ => panic!("expected an acknowledgement"),
        }
    }
}

#[test]
fn split_keeps_good_records_and_reports_bad_positions() {
    let results = vec![
        Ok(event("one")),
        Err(CodecError::Decode),
        Ok(event("two")),
        Err(CodecError::Decode),
    ];
    let split = split_decoded(results);
    assert_eq!(split.events.len(), 2);
    assert_eq!(split.events[0].text, "one");
    assert_eq!(split.events[1].text, "two");
    assert_eq!(split.failed, vec![1, 3]);
}

fn ids(names: &[&str]) -> Vec<String> {
    names.iter().map(|n| n.to_string()).collect()
}

#[test]
fn send_with_ids_pairs_ids_with_payloads() {
    let entries = send_entries_with_ids(&[event("a"), event("b")], &ids(&["x", "y"])).unwrap();
    assert_eq!(entries.len(), 2);
    assert_eq!(entries[0].id, "x");
    assert_eq!(entries[0].body, "{\"text\":\"a\"}");
    assert_eq!(entries[1].id, "y");
    assert_eq!(entries[1].body, "{\"text\":\"b\"}");
}

#[test]
fn send_with_repeated_id_is_refused() {
    let result = send_entries_with_ids(&[event("a"), event("b")], &ids(&["x", "x"]));
    assert!(matches!(result, Err(BatchError::DuplicateId)));
}

#[test]
fn send_with_repeated_unused_id_is_accepted() {
    let entries = send_entries_with_ids(&[event("a")], &ids(&["x", "x", "x"])).unwrap();
    assert_eq!(entries.len(), 1);
    assert_eq!(entries[0].id, "x");
}

#[test]
fn delete_with_ids_uses_fallback_by_entry_position() {
    let messages = vec![
        message(None, None, "{}"),
        message(Some("own"), Some("h1"), "{}"),
        message(None, Some("h2"), "{}"),
    ];
    let entries = delete_entries_with_ids(&messages, &ids(&["f0", "f1", "f2"]));
    assert_eq!(entries.len(), 2);
    assert_eq!(entries[0].id, "own");
    assert_eq!(entries[0].receipt_handle, "h1");
    assert_eq!(entries[1].id, "f1");
    assert_eq!(entries[1].receipt_handle, "h2");
}

#[test]
fn encode_control_characters() {
    assert_eq!(
        encode(&event("\u{1}\u{8}\t\u{c}\r\u{1f}\u{7f}\\")),
        "{\"text\":\"\\u0001\\b\\t\\f\\r\\u001f\u{7f}\\\\\"}"
    );
}

#[test]
fn send_more_than_ten_events_keeps_all() {
    let events: Vec<Event> = (0..12).map(|i| event(&format!("e{i}"))).collect();
    let entries = build_send_entries(&events).unwrap();
    assert_eq!(entries.len(), 12);
    assert_eq!(entries[11].body, "{\"text\":\"e11\"}");
}
