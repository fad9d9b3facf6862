use lsp_broker::error::BrokerError;
use lsp_broker::query::{read_query, InitializationStep, QueryAction, QueryStage, INITIALIZATION_LIMIT};
use lsp_broker::session::ServerInstance;
use serde_json::Value;

const QUERY: &str =
    r#"{"id":"q","method":"textDocument/definition","params":{"textDocument":{"uri":"file:///w/a%20b.rs"}}}"#;

fn parse(s: &str) -> Value {
    serde_json::from_str(s).unwrap()
}

fn initialized() -> ServerInstance {
    let mut s = ServerInstance::new("/w".to_string(), "rust".to_string(), 0);
    s.begin_initialization();
    s.handle_server_message(r#"{"id":0,"result":{"capabilities":{}}}"#).unwrap();
    s
}

#[test]
fn a_query_names_its_file() {
    let query = read_query(QUERY).unwrap();
    assert_eq!(query.path, "/w/a b.rs");
    assert_eq!(query.message, parse(QUERY));
}

#[test]
fn a_query_needs_a_document() {
    assert!(matches!(read_query("{"), Err(BrokerError::InvalidJson)));
    assert!(matches!(read_query("{}"), Err(BrokerError::MissingUri)));
    assert!(matches!(
        read_query(r#"{"params":{"textDocument":{"uri":1}}}"#),
        Err(BrokerError::MissingUri)
    ));
}

#[test]
fn a_server_is_initialized_on_demand() {
    let mut s = ServerInstance::new("/w".to_string(), "rust".to_string(), 0);
    let text = s.begin_initialization().unwrap();
    assert_eq!(
        parse(&text),
        parse(
            r#"{"jsonrpc":"2.0","id":0,"method":"initialize","params":{"processId":null,
                "rootUri":"file:///w","capabilities":{"textDocument":{
                "definition":{"dynamicRegistration":true},
                "references":{"dynamicRegistration":true}}}}}"#
        )
    );
    assert!(matches!(s.initialization_step(0), InitializationStep::Wait));
    assert!(matches!(s.initialization_step(INITIALIZATION_LIMIT), InitializationStep::Wait));
    assert_eq!(INITIALIZATION_LIMIT, 30_000_000_000);
    assert!(matches!(
        s.initialization_step(INITIALIZATION_LIMIT + 1),
        InitializationStep::TimedOut
    ));
    let list = s.handle_server_message(r#"{"id":0,"result":{"capabilities":{}}}"#).unwrap().deliveries;
    assert!(list.is_empty());
    match s.initialization_step(INITIALIZATION_LIMIT + 1) {
        InitializationStep::Ready(text) => {
            assert_eq!(text, r#"{"jsonrpc":"2.0","method":"initialized","params":{}}"#)
        }
        _ => panic!("not ready"),
    }
    assert!(s.begin_initialization().is_none());
}

#[test]
fn a_query_is_asked_and_answered() {
    let mut s = initialized();
    let text = s.dispatch_query(4, read_query(QUERY).unwrap());
    let mut expected = parse(QUERY);
    expected["id"] = Value::from(1);
    assert_eq!(parse(&text), expected);
    assert!(s.clients[&4].is_fleeting);
    let list = s.handle_server_message(r#"{"id":1,"result":[]}"#).unwrap().deliveries;
    assert_eq!(list.len(), 1);
    assert_eq!(list[0].client, 4);
    assert_eq!(parse(&list[0].text), parse(r#"{"id":"q","result":[]}"#));
    let answer = s.finish_query(4, 9, Some(list[0].text.clone()));
    assert_eq!(answer.as_deref(), Ok(list[0].text.as_str()));
    assert!(s.clients.is_empty());
    assert_eq!(s.last_activity, 9);
}

#[test]
fn a_late_answer_reaches_nobody() {
    let mut s = initialized();
    s.dispatch_query(4, read_query(QUERY).unwrap());
    assert_eq!(s.finish_query(4, 9, None), Err(BrokerError::QueryTimedOut));
    assert!(s.handle_server_message(r#"{"id":1,"result":[]}"#).unwrap().deliveries.is_empty());
}

#[test]
fn a_query_without_an_id_has_the_id_one() {
    let mut s = initialized();
    let query = read_query(r#"{"params":{"textDocument":{"uri":"a"}}}"#).unwrap();
    s.dispatch_query(4, query);
    assert_eq!(s.id_mapping.get(&1), Some(&(4, Value::from(1))));
}

#[test]
fn a_query_that_could_not_be_sent_leaves_no_client() {
    let mut s = initialized();
    s.dispatch_query(4, read_query(QUERY).unwrap());
    assert!(!s.is_idle(u128::MAX));
    assert!(s.finish_query(4, 5, None).is_err());
    assert!(s.clients.is_empty());
    assert!(!s.is_idle(5 + 900_000_000_000));
    assert!(s.is_idle(6 + 900_000_000_000));
}

/// Sends a query to `s`, which answers what it is asked after `waits` turns; returns the methods
/// and ids of what was sent.
fn run(s: &mut ServerInstance, waits: usize) -> Vec<(Value, Value)> {
    let mut sent = Vec::new();
    let mut stage = QueryStage::Start;
    let mut waited = 0;
    loop {
        match s.advance_query(stage, 0).unwrap() {
            QueryAction::Send { text, next } => {
                sent.push(text);
                stage = next;
            }
            QueryAction::Wait => {
                waited += 1;
                if waited == waits {
                    s.handle_server_message(r#"{"id":0,"result":{"capabilities":{}}}"#).unwrap();
                }
            }
            QueryAction::Dispatch => break,
        }
    }
    sent.push(s.dispatch_query(4, read_query(QUERY).unwrap()));
    sent.iter().map(|t| (parse(t)["method"].clone(), parse(t)["id"].clone())).collect()
}

#[test]
fn a_query_follows_the_initialization_of_its_server() {
    let mut s = ServerInstance::new("/w".to_string(), "rust".to_string(), 0);
    let query = (Value::from("textDocument/definition"), Value::from(1));
    assert_eq!(
        run(&mut s, 3),
        vec![
            (Value::from("initialize"), Value::from(0)),
            (Value::from("initialized"), Value::Null),
            query.clone(),
        ]
    );
    assert_eq!(run(&mut initialized(), 1), vec![query]);
}

#[test]
fn a_query_waits_for_its_server_for_thirty_seconds() {
    let mut s = ServerInstance::new("/w".to_string(), "rust".to_string(), 0);
    assert!(matches!(
        s.advance_query(QueryStage::Start, u128::MAX),
        Ok(QueryAction::Send { next: QueryStage::Initializing, .. })
    ));
    for stage in [QueryStage::Initializing, QueryStage::Initialized] {
        assert!(matches!(s.advance_query(stage, INITIALIZATION_LIMIT), Ok(QueryAction::Wait)));
        assert!(matches!(
            s.advance_query(stage, INITIALIZATION_LIMIT + 1),
            Err(BrokerError::InitializationTimedOut)
        ));
    }
}

#[test]
fn what_nests_deep_is_sent_and_read_or_refused() {
    let nested = |n: usize| format!(r#"{{"id":{}{}}}"#, "[".repeat(n), "]".repeat(n));
    let mut s = initialized();
    s.register(1, false);
    assert!(matches!(s.process_editor_message(1, &nested(127)), Err(BrokerError::InvalidJson)));
    s.process_editor_message(1, &nested(126)).unwrap();
    let list = s.handle_server_message(r#"{"id":1}"#).unwrap().deliveries;
    assert_eq!(parse(&list[0].text), parse(&nested(126)));
}

#[test]
fn errors_have_their_messages() {
    let text = |e: BrokerError, subject: &str| e.message(subject);
    assert_eq!(text(BrokerError::InvalidJson, ""), "Message is not JSON");
    assert_eq!(text(BrokerError::CounterExhausted, ""), "A counter has no room for one more");
    assert_eq!(
        text(BrokerError::NoCommand, "cobol"),
        "No command configured for language 'cobol'"
    );
    assert_eq!(text(BrokerError::MissingUri, "x"), "Query missing textDocument.uri");
    assert_eq!(
        text(BrokerError::UnknownLanguage, "\"/a\""),
        "Could not detect language for \"/a\""
    );
    assert_eq!(
        text(BrokerError::InitializationTimedOut, ""),
        "LSP server initialization timed out"
    );
    assert_eq!(text(BrokerError::QueryTimedOut, ""), "LSP server query timed out");
}
