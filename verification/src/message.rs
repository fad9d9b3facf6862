//! The messages of the protocol: what the broker reads in them and those that it writes itself.

use crate::json::{
    as_text, bool_json, empty_json, is_readable, is_readable_member, json, member, member_of,
    nests_within, null_json, set_member, string_json, string_of, unsigned_json, Json, JsonNumber,
};
use vstd::prelude::*;
use vstd::string::StringExecFns;

verus! {

/// The JSON integer `n`.
pub open spec fn integer(n: u64) -> Json {
    Json::Number(JsonNumber::Unsigned(n))
}

/// The text at the member `key` of `j`, if there is one.
pub open spec fn text_at(j: Option<Json>, key: Seq<char>) -> Option<Seq<char>> {
    match at(j, key) {
        Some(v) => string_of(v),
        None => None,
    }
}

/// The member `key` of `j`, if there is one.
pub open spec fn at(j: Option<Json>, key: Seq<char>) -> Option<Json> {
    match j {
        Some(v) => member_of(v, key),
        None => None,
    }
}

/// The method of a message; empty where it has none.
pub open spec fn method_of(j: Json) -> Seq<char> {
    match text_at(Some(j), "method"@) {
        Some(s) => s,
        None => ""@,
    }
}

/// The document that a message is about.
pub open spec fn document_of(j: Json) -> Option<Seq<char>> {
    text_at(at(at(Some(j), "params"@), "textDocument"@), "uri"@)
}

/// The document that diagnostics are about.
pub open spec fn diagnosed_of(j: Json) -> Option<Seq<char>> {
    text_at(at(Some(j), "params"@), "uri"@)
}

/// The id of a message that must have one: where it has none, one.
pub open spec fn id_or_one(j: Json) -> Json {
    match member_of(j, "id"@) {
        Some(id) => id,
        None => integer(1),
    }
}

/// The method of the message `v`.
pub(crate) fn method(v: &serde_json::Value) -> (r: &str)
    ensures
        r@ == method_of(json(*v)),
{
    match member(v, "method") {
        Some(m) => match as_text(m) {
            Some(s) => s,
            None => "",
        },
        None => "",
    }
}

/// The document that the message `v` is about.
pub(crate) fn document(v: &serde_json::Value) -> (r: Option<&str>)
    ensures
        match r {
            Some(s) => document_of(json(*v)) == Some(s@),
            None => document_of(json(*v)) is None,
        },
{
    match member(v, "params") {
        Some(params) => match member(params, "textDocument") {
            Some(text_document) => match member(text_document, "uri") {
                Some(uri) => as_text(uri),
                None => None,
            },
            None => None,
        },
        None => None,
    }
}

/// The document that the diagnostics `v` are about.
pub(crate) fn diagnosed(v: &serde_json::Value) -> (r: Option<&str>)
    ensures
        match r {
            Some(s) => diagnosed_of(json(*v)) == Some(s@),
            None => diagnosed_of(json(*v)) is None,
        },
{
    match member(v, "params") {
        Some(params) => match member(params, "uri") {
            Some(uri) => as_text(uri),
            None => None,
        },
        None => None,
    }
}

/// The answer `result` to the request `id`.
pub open spec fn response(id: Json, result: Json) -> Json {
    Json::Object(map!["jsonrpc"@ => Json::Str("2.0"@), "id"@ => id, "result"@ => result])
}

pub(crate) proof fn lemma_response_readable(id: Json, result: Json)
    ensures
        is_readable_member(id) && is_readable_member(result) ==> is_readable(response(id, result)),
{
    reveal_with_fuel(nests_within, 2);
}

/// The answer `result` to the request `id`.
pub(crate) fn make_response(id: serde_json::Value, result: serde_json::Value) -> (r:
    serde_json::Value)
    ensures
        json(r) == response(json(id), json(result)),
{
    let mut v = empty_json();
    set_member(&mut v, "jsonrpc", string_json("2.0"));
    set_member(&mut v, "id", id);
    set_member(&mut v, "result", result);
    v
}

/// The message that tells a server that `uri` is no longer open.
pub open spec fn did_close(uri: Seq<char>) -> Json {
    Json::Object(
        map![
            "jsonrpc"@ => Json::Str("2.0"@),
            "method"@ => Json::Str("textDocument/didClose"@),
            "params"@ => Json::Object(
                map!["textDocument"@ => Json::Object(map!["uri"@ => Json::Str(uri)])],
            ),
        ],
    )
}

/// The message that tells a server that `uri` is no longer open.
pub(crate) fn make_did_close(uri: &str) -> (r: serde_json::Value)
    ensures
        json(r) == did_close(uri@),
{
    let mut text_document = empty_json();
    set_member(&mut text_document, "uri", string_json(uri));
    let mut params = empty_json();
    set_member(&mut params, "textDocument", text_document);
    let mut v = empty_json();
    set_member(&mut v, "jsonrpc", string_json("2.0"));
    set_member(&mut v, "method", string_json("textDocument/didClose"));
    set_member(&mut v, "params", params);
    v
}

/// A capability that may be registered while the server runs.
pub open spec fn dynamic() -> Json {
    Json::Object(map!["dynamicRegistration"@ => Json::Bool(true)])
}

/// The request, with the id zero, that initializes a server for the project in `root`.
pub open spec fn initialize(root: Seq<char>) -> Json {
    Json::Object(
        map![
            "jsonrpc"@ => Json::Str("2.0"@),
            "id"@ => integer(0),
            "method"@ => Json::Str("initialize"@),
            "params"@ => Json::Object(
                map![
                    "processId"@ => Json::Null,
                    "rootUri"@ => Json::Str("file://"@ + root),
                    "capabilities"@ => Json::Object(
                        map![
                            "textDocument"@ => Json::Object(
                                map!["definition"@ => dynamic(), "references"@ => dynamic()],
                            ),
                        ],
                    ),
                ],
            ),
        ],
    )
}

fn make_dynamic() -> (r: serde_json::Value)
    ensures
        json(r) == dynamic(),
{
    let mut v = empty_json();
    set_member(&mut v, "dynamicRegistration", bool_json(true));
    v
}

/// The request, with the id zero, that initializes a server for the project in `root`.
pub(crate) fn make_initialize(root: &str) -> (r: serde_json::Value)
    ensures
        json(r) == initialize(root@),
{
    let mut text_document = empty_json();
    set_member(&mut text_document, "definition", make_dynamic());
    set_member(&mut text_document, "references", make_dynamic());
    let mut capabilities = empty_json();
    set_member(&mut capabilities, "textDocument", text_document);
    let mut params = empty_json();
    set_member(&mut params, "processId", null_json());
    let root_uri = "file://".to_owned().concat(root);
    set_member(&mut params, "rootUri", string_json(root_uri.as_str()));
    set_member(&mut params, "capabilities", capabilities);
    let mut v = empty_json();
    set_member(&mut v, "jsonrpc", string_json("2.0"));
    set_member(&mut v, "id", unsigned_json(0));
    set_member(&mut v, "method", string_json("initialize"));
    set_member(&mut v, "params", params);
    v
}

/// The message that ends the initialization of a server.
pub open spec fn initialized() -> Json {
    Json::Object(
        map![
            "jsonrpc"@ => Json::Str("2.0"@),
            "method"@ => Json::Str("initialized"@),
            "params"@ => Json::Object(Map::empty()),
        ],
    )
}

/// The message that ends the initialization of a server.
pub(crate) fn make_initialized() -> (r: serde_json::Value)
    ensures
        json(r) == initialized(),
{
    let mut v = empty_json();
    set_member(&mut v, "jsonrpc", string_json("2.0"));
    set_member(&mut v, "method", string_json("initialized"));
    set_member(&mut v, "params", empty_json());
    v
}

} // verus!
