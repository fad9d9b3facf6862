use lsp_broker::error::BrokerError;
use lsp_broker::server::Delivery;
use lsp_broker::session::ServerInstance;
use serde_json::Value;

fn server() -> ServerInstance {
    let mut s = ServerInstance::new("/w/p".to_string(), "rust".to_string(), 0);
    s.register(1, false);
    s.register(2, false);
    s.register(3, true);
    s
}

fn sorted(list: Vec<Delivery>) -> Vec<(usize, String)> {
    let mut out: Vec<(usize, String)> = list.into_iter().map(|d| (d.client, d.text)).collect();
    out.sort();
    out
}

fn open(s: &mut ServerInstance, client: usize, uri: &str) {
    let text = format!(
        r#"{{"method":"textDocument/didOpen","params":{{"textDocument":{{"uri":"{}"}}}}}}"#,
        uri
    );
    s.process_editor_message(client, &text).unwrap();
}

#[test]
fn an_answer_returns_to_the_client_under_its_id() {
    let mut s = server();
    s.process_editor_message(2, r#"{"id":{"k":[-7]},"method":"hover"}"#).unwrap();
    let list = s.handle_server_message(r#"{"id":1,"result":{"x":"\u0001"}}"#).unwrap().deliveries;
    assert_eq!(
        sorted(list),
        vec![(2, r#"{"id":{"k":[-7]},"result":{"x":"\u0001"}}"#.to_string())]
    );
    assert!(s.id_mapping.is_empty());
    assert!(s.handle_server_message(r#"{"id":1,"result":{}}"#).unwrap().deliveries.is_empty());
}

#[test]
fn an_answer_to_a_client_that_left_reaches_nobody() {
    let mut s = server();
    s.process_editor_message(2, r#"{"id":5,"method":"hover"}"#).unwrap();
    s.unregister(2, 0);
    assert!(s.handle_server_message(r#"{"id":1,"result":{}}"#).unwrap().deliveries.is_empty());
    assert!(s.id_mapping.is_empty());
}

#[test]
fn an_id_that_nobody_asked_under_is_ignored() {
    let mut s = server();
    for text in [r#"{"id":7}"#, r#"{"id":"1"}"#, r#"{"id":-1}"#, r#"{"id":1.0}"#, r#"{"id":null}"#] {
        assert!(s.handle_server_message(text).unwrap().deliveries.is_empty());
    }
}

#[test]
fn capabilities_are_kept_the_first_time() {
    let mut s = server();
    for id in 1..4u64 {
        s.process_editor_message(1, r#"{"id":1,"method":"initialize"}"#).unwrap();
        assert_eq!(s.next_server_id, id + 1);
    }
    s.handle_server_message(r#"{"id":1,"result":{"no":1}}"#).unwrap();
    assert_eq!(s.cached_capabilities, None);
    s.handle_server_message(r#"{"id":2,"result":{"capabilities":{},"n":1}}"#).unwrap();
    s.handle_server_message(r#"{"id":3,"result":{"capabilities":{},"n":2}}"#).unwrap();
    let kept: Value = serde_json::from_str(r#"{"capabilities":{},"n":1}"#).unwrap();
    assert_eq!(s.cached_capabilities, Some(kept));
}

#[test]
fn notifications_go_to_every_editor() {
    let mut s = server();
    let text = r#"{"method":"window/logMessage", "params":{}}"#;
    assert_eq!(
        sorted(s.handle_server_message(text).unwrap().deliveries),
        vec![(1, text.to_string()), (2, text.to_string())]
    );
    assert_eq!(s.handle_server_message("[]").unwrap().deliveries.len(), 2);
}

#[test]
fn diagnostics_go_to_those_who_have_the_document_open() {
    let mut s = server();
    open(&mut s, 1, "a");
    open(&mut s, 2, "b");
    open(&mut s, 3, "a");
    let text = r#"{"method":"textDocument/publishDiagnostics","params":{"uri":"a"}}"#;
    assert_eq!(sorted(s.handle_server_message(text).unwrap().deliveries), vec![(1, text.to_string())]);
    let text = r#"{"method":"textDocument/publishDiagnostics","params":{"uri":"z"}}"#;
    assert!(s.handle_server_message(text).unwrap().deliveries.is_empty());
    let text = r#"{"method":"textDocument/publishDiagnostics"}"#;
    assert!(s.handle_server_message(text).unwrap().deliveries.is_empty());
}

#[test]
fn a_server_that_does_not_speak_json_is_not_understood() {
    let mut s = server();
    assert!(matches!(s.handle_server_message("nope"), Err(BrokerError::InvalidJson)));
}

#[test]
fn requests_wait_whatever_happens_meanwhile() {
    let mut s = server();
    s.process_editor_message(1, r#"{"id":7,"method":"hover"}"#).unwrap();
    s.process_editor_message(2, r#"{"id":7,"method":"rename"}"#).unwrap();
    open(&mut s, 2, "a");
    s.begin_initialization();
    s.handle_server_message(r#"{"id":0,"result":{"capabilities":{}}}"#).unwrap();
    s.handle_server_message(r#"{"method":"progress"}"#).unwrap();
    let second = s.handle_server_message(r#"{"id":2,"result":"b"}"#).unwrap().deliveries;
    assert_eq!(sorted(second), vec![(2, r#"{"id":7,"result":"b"}"#.to_string())]);
    s.unregister(2, 5);
    let first = s.handle_server_message(r#"{"id":1,"error":{"code":-1}}"#).unwrap().deliveries;
    assert_eq!(sorted(first), vec![(1, r#"{"error":{"code":-1},"id":7}"#.to_string())]);
}

#[test]
fn errors_of_the_server_are_reported() {
    let mut s = server();
    let reception = s.handle_server_message(r#"{"id":9,"error":{"code":-1}}"#).unwrap();
    let error: Value = serde_json::from_str(r#"{"code":-1}"#).unwrap();
    assert_eq!(reception.error, Some(error));
    assert!(reception.deliveries.is_empty());
    assert_eq!(s.handle_server_message(r#"{"method":"x"}"#).unwrap().error, None);
}

#[test]
fn a_second_answer_changes_nothing() {
    let mut s = server();
    s.process_editor_message(1, r#"{"id":7,"method":"hover"}"#).unwrap();
    let answer = r#"{"id":1,"result":{"capabilities":1}}"#;
    assert_eq!(s.handle_server_message(answer).unwrap().deliveries.len(), 1);
    s.process_editor_message(2, r#"{"id":7,"method":"hover"}"#).unwrap();
    let again = r#"{"id":1,"result":{"capabilities":2}}"#;
    assert!(s.handle_server_message(again).unwrap().deliveries.is_empty());
    assert_eq!(s.id_mapping.len(), 1);
    let kept: Value = serde_json::from_str(r#"{"capabilities":1}"#).unwrap();
    assert_eq!(s.cached_capabilities, Some(kept));
}
