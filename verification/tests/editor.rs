use lsp_broker::editor::EditorAction;
use lsp_broker::error::BrokerError;
use lsp_broker::session::ServerInstance;
use serde_json::Value;

fn server() -> ServerInstance {
    ServerInstance::new("/w/p".to_string(), "rust".to_string(), 0)
}

fn with_capabilities() -> ServerInstance {
    let mut s = server();
    s.register(1, false);
    s.process_editor_message(1, r#"{"id":1,"method":"initialize"}"#).unwrap();
    s.handle_server_message(r#"{"id":1,"result":{"capabilities":{"hover":true}}}"#).unwrap();
    s
}

fn parse(s: &str) -> Value {
    serde_json::from_str(s).unwrap()
}

fn forwarded(action: EditorAction) -> String {
    match action {
        EditorAction::Forward(text) => text,
        _ => panic!("not forwarded"),
    }
}

fn open(uri: &str) -> String {
    format!(r#"{{"method":"textDocument/didOpen","params":{{"textDocument":{{"uri":"{}"}}}}}}"#, uri)
}

fn close(uri: &str) -> String {
    format!(r#"{{"method":"textDocument/didClose","params":{{"textDocument":{{"uri":"{}"}}}}}}"#, uri)
}

fn send(s: &mut ServerInstance, client: usize, text: &str) -> &'static str {
    match s.process_editor_message(client, text).unwrap() {
        EditorAction::Nothing => "nothing",
        EditorAction::Reply(_) => "reply",
        EditorAction::Forward(t) => {
            assert_eq!(t, text);
            "forward"
        }
        EditorAction::ForwardClose { text: t, uri } => {
            assert_eq!(t, text);
            s.finish_close(client, &uri);
            "close"
        }
    }
}

#[test]
fn a_request_gets_the_next_id_of_the_server() {
    let mut s = server();
    s.register(1, false);
    s.register(2, false);
    let first = forwarded(
        s.process_editor_message(1, r#"{"jsonrpc":"2.0","id":"a","method":"hover","params":[1.5]}"#)
            .unwrap(),
    );
    assert_eq!(first, r#"{"id":1,"jsonrpc":"2.0","method":"hover","params":[1.5]}"#);
    let second =
        forwarded(s.process_editor_message(2, r#"{"id":"a","method":"hover"}"#).unwrap());
    assert_eq!(parse(&second), parse(r#"{"id":2,"method":"hover"}"#));
    assert_eq!(s.next_server_id, 3);
    assert_eq!(s.id_mapping.get(&1), Some(&(1, Value::from("a"))));
    assert_eq!(s.id_mapping.get(&2), Some(&(2, Value::from("a"))));
}

#[test]
fn an_id_may_be_null() {
    let mut s = server();
    let text = forwarded(s.process_editor_message(1, r#"{"id":null}"#).unwrap());
    assert_eq!(parse(&text), parse(r#"{"id":1}"#));
    assert_eq!(s.id_mapping.get(&1), Some(&(1, Value::Null)));
}

#[test]
fn a_notification_is_forwarded_as_it_is() {
    let mut s = server();
    for text in [r#"{"method":"x", "params":{}}"#, "[1,2]", "null", "  {}"] {
        assert_eq!(forwarded(s.process_editor_message(1, text).unwrap()), text);
    }
    assert!(s.id_mapping.is_empty());
}

#[test]
fn what_is_not_json_is_refused() {
    let mut s = server();
    let r = s.process_editor_message(1, "{");
    assert!(matches!(r, Err(BrokerError::InvalidJson)));
    assert_eq!(s.next_server_id, 1);
}

#[test]
fn the_first_initialize_is_forwarded_and_later_ones_are_answered() {
    let mut s = server();
    s.register(1, false);
    let text = forwarded(
        s.process_editor_message(1, r#"{"method":"initialize","params":{"a":1}}"#).unwrap(),
    );
    assert_eq!(parse(&text), parse(r#"{"id":1,"method":"initialize","params":{"a":1}}"#));
    assert_eq!(s.id_mapping.get(&1), Some(&(1, Value::from(1))));

    let mut s = with_capabilities();
    s.register(2, false);
    for (request, id) in [
        (r#"{"id":"q","method":"initialize"}"#, "\"q\""),
        (r#"{"method":"initialize"}"#, "1"),
    ] {
        match s.process_editor_message(2, request).unwrap() {
            EditorAction::Reply(text) => assert_eq!(
                text,
                format!(
                    r#"{{"id":{},"jsonrpc":"2.0","result":{{"capabilities":{{"hover":true}}}}}}"#,
                    id
                )
            ),
            _ => panic!("not answered"),
        }
    }
    assert_eq!(s.next_server_id, 2);
    assert_eq!(send(&mut s, 9, r#"{"id":1,"method":"initialize"}"#), "nothing");
}

#[test]
fn initialized_is_dropped() {
    let mut s = server();
    assert_eq!(send(&mut s, 1, r#"{"method":"initialized","params":{}}"#), "nothing");
    assert_eq!(send(&mut s, 1, r#"{"id":4,"method":"initialized"}"#), "nothing");
    assert!(s.id_mapping.is_empty());
}

#[test]
fn a_document_is_opened_and_closed_on_the_server_once() {
    let mut s = server();
    s.register(1, false);
    s.register(2, false);
    assert_eq!(send(&mut s, 1, &open("a")), "forward");
    assert_eq!(send(&mut s, 2, &open("a")), "nothing");
    assert_eq!(s.open_documents.get("a"), Some(&2));
    assert_eq!(send(&mut s, 1, &close("a")), "nothing");
    assert!(s.clients[&1].open_files.is_empty());
    assert_eq!(s.clients[&2].open_files, vec!["a"]);
    assert_eq!(send(&mut s, 2, &close("a")), "close");
    assert_eq!(s.open_documents.get("a"), None);
    assert!(s.clients[&2].open_files.is_empty());
    assert_eq!(send(&mut s, 2, &close("a")), "nothing");
    assert_eq!(send(&mut s, 2, &open("a")), "forward");
}

#[test]
fn a_close_that_could_not_be_sent_is_not_forgotten() {
    let mut s = server();
    s.register(1, false);
    send(&mut s, 1, &open("a"));
    match s.process_editor_message(1, &close("a")).unwrap() {
        EditorAction::ForwardClose { uri, .. } => assert_eq!(uri, "a"),
        _ => panic!("not closed"),
    }
    assert_eq!(s.open_documents.get("a"), None);
    assert_eq!(s.clients[&1].open_files, vec!["a"]);
}

#[test]
fn closing_forgets_every_time_that_a_client_opened() {
    let mut s = server();
    s.register(1, false);
    send(&mut s, 1, &open("a"));
    send(&mut s, 1, &open("b"));
    send(&mut s, 1, &open("a"));
    assert_eq!(send(&mut s, 1, &close("a")), "nothing");
    assert_eq!(s.clients[&1].open_files, vec!["b"]);
    assert_eq!(s.open_documents.get("a"), Some(&1));
}

#[test]
fn a_message_without_a_document_opens_nothing() {
    let mut s = server();
    for text in [
        r#"{"method":"textDocument/didOpen"}"#,
        r#"{"method":"textDocument/didOpen","params":{"textDocument":{"uri":3}}}"#,
        r#"{"method":"textDocument/didClose","params":[]}"#,
    ] {
        assert_eq!(send(&mut s, 1, text), "nothing");
    }
}

#[test]
fn a_client_that_is_not_connected_still_counts() {
    let mut s = server();
    assert_eq!(send(&mut s, 5, &open("a")), "forward");
    assert_eq!(s.open_documents.get("a"), Some(&1));
    assert!(s.clients.is_empty());
}

#[test]
fn full_counters_refuse_what_needs_them_and_nothing_else() {
    let mut s = server();
    s.next_server_id = u64::MAX;
    let r = s.process_editor_message(1, r#"{"id":1,"method":"hover"}"#);
    assert!(matches!(r, Err(BrokerError::CounterExhausted)));
    let r = s.process_editor_message(1, r#"{"method":"initialize"}"#);
    assert!(matches!(r, Err(BrokerError::CounterExhausted)));
    assert_eq!(send(&mut s, 1, r#"{"method":"x"}"#), "forward");
    s.open_documents.insert("a".to_string(), usize::MAX);
    assert!(matches!(
        s.process_editor_message(1, &open("a")),
        Err(BrokerError::CounterExhausted)
    ));
    assert_eq!(send(&mut s, 1, &open("b")), "forward");
    assert!(s.has_room(&parse(&close("a"))));
}

#[test]
fn leaving_closes_what_nobody_else_has_open() {
    let mut s = server();
    s.register(1, false);
    s.register(2, false);
    for uri in ["a", "b", "c"] {
        send(&mut s, 1, &open(uri));
    }
    send(&mut s, 2, &open("b"));
    let texts = s.unregister(1, 77);
    let expected: Vec<String> = ["a", "c"]
        .iter()
        .map(|uri| {
            format!(
                r#"{{"jsonrpc":"2.0","method":"textDocument/didClose","params":{{"textDocument":{{"uri":"{}"}}}}}}"#,
                uri
            )
        })
        .collect();
    assert_eq!(texts, expected);
    assert_eq!(s.open_documents.get("b"), Some(&1));
    assert_eq!(s.open_documents.len(), 1);
    assert_eq!(s.last_activity, 77);
    assert_eq!(s.unregister(2, 78).len(), 1);
    assert!(s.open_documents.is_empty());
    assert!(s.unregister(9, 79).is_empty());
    assert_eq!(s.last_activity, 79);
}

#[test]
fn a_document_opened_twice_is_closed_by_leaving() {
    let mut s = server();
    s.register(1, false);
    send(&mut s, 1, &open("a"));
    send(&mut s, 1, &open("a"));
    assert_eq!(s.unregister(1, 0).len(), 1);
    assert!(s.open_documents.is_empty());
}

#[test]
fn a_server_is_idle_after_fifteen_minutes_without_clients() {
    let limit: u128 = 15 * 60 * 1_000_000_000;
    let mut s = server();
    s.touch(5);
    assert!(!s.is_idle(5 + limit));
    assert!(s.is_idle(6 + limit));
    assert!(!s.is_idle(0));
    s.register(1, true);
    assert!(!s.is_idle(6 + limit));
}
