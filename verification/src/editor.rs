//! What an editor sends: requests get an id of the server's own, opening and closing a document
//! is counted over all editors, and a server is initialized once.

use crate::error::BrokerError;
use crate::json::{
    copy_json, is_readable, json, json_parse, json_text, lemma_with_member_readable, member,
    member_of, parse_json, reads_back, set_member, unsigned_json, with_member, write_json, Json,
};
use crate::message::{
    document, document_of, id_or_one, integer, make_response, method, method_of, response,
};
use crate::session::{
    closed_once, closes_last, open_count, ClientId, ClientSession, ServerInstance, ServerModel,
    SessionModel,
};
use crate::text::{same_text, texts};
use vstd::prelude::*;

verus! {

broadcast use vstd::std_specs::hash::group_hash_axioms;

/// What is to be done about a message of an editor.
pub enum EditorAction {
    /// Nothing.
    Nothing,
    /// Send this text back to the editor.
    Reply(String),
    /// Send this text to the server.
    Forward(String),
    /// Send `text` to the server; once that has succeeded, the editor has closed `uri`.
    ForwardClose { text: String, uri: String },
}

/// What an [`EditorAction`] says.
pub enum EditorEffect {
    Nothing,
    Reply(Seq<char>),
    Forward(Seq<char>),
    ForwardClose(Seq<char>, Seq<char>),
}

impl View for EditorAction {
    type V = EditorEffect;

    open spec fn view(&self) -> EditorEffect {
        match *self {
            EditorAction::Nothing => EditorEffect::Nothing,
            EditorAction::Reply(text) => EditorEffect::Reply(text@),
            EditorAction::Forward(text) => EditorEffect::Forward(text@),
            EditorAction::ForwardClose { text, uri } => EditorEffect::ForwardClose(text@, uri@),
        }
    }
}

/// The message `j` with the id `n`.
pub open spec fn renumbered(j: Json, n: u64) -> Json {
    with_member(j, "id"@, integer(n))
}

/// `m` after a request of the client `id`, which the client numbered `original`, was given the
/// next id.
pub open spec fn with_request(m: ServerModel, id: ClientId, original: Json) -> ServerModel {
    ServerModel {
        id_mapping: m.id_mapping.insert(m.next_server_id, (id, original)),
        next_server_id: (m.next_server_id + 1) as u64,
        ..m
    }
}

/// `m` after the client `id` opened `uri`.
pub open spec fn with_open(m: ServerModel, id: ClientId, uri: Seq<char>) -> ServerModel {
    ServerModel {
        open_documents: m.open_documents.insert(uri, (open_count(m, uri) + 1) as usize),
        clients: if m.clients.contains_key(id) {
            m.clients.insert(
                id,
                SessionModel {
                    open_files: m.clients[id].open_files.push(uri),
                    ..m.clients[id]
                },
            )
        } else {
            m.clients
        },
        ..m
    }
}

/// Which documents are not `uri`.
pub open spec fn other_than(uri: Seq<char>) -> spec_fn(Seq<char>) -> bool {
    |f: Seq<char>| f != uri
}

/// `files` without `uri`.
pub open spec fn without_file(files: Seq<Seq<char>>, uri: Seq<char>) -> Seq<Seq<char>> {
    files.filter(other_than(uri))
}

/// `m` after the client `id` no longer has `uri` among the documents that it opened.
pub open spec fn with_forgotten(m: ServerModel, id: ClientId, uri: Seq<char>) -> ServerModel {
    ServerModel {
        clients: if m.clients.contains_key(id) {
            m.clients.insert(
                id,
                SessionModel {
                    open_files: without_file(m.clients[id].open_files, uri),
                    ..m.clients[id]
                },
            )
        } else {
            m.clients
        },
        ..m
    }
}

/// `m` after `uri` was closed once.
pub open spec fn with_close(m: ServerModel, uri: Seq<char>) -> ServerModel {
    ServerModel { open_documents: closed_once(m.open_documents, uri), ..m }
}

/// Whether the message `j` asks for something that the server has to answer under a new id.
pub open spec fn is_routed(m: ServerModel, j: Json) -> bool {
    let method = method_of(j);
    if method == "initialize"@ {
        m.cached_capabilities is None
    } else {
        method != "initialized"@ && method != "textDocument/didOpen"@ && method
            != "textDocument/didClose"@ && member_of(j, "id"@) is Some
    }
}

/// What the message `j` of the client `id` is answered in place of the server, if it is.
pub open spec fn local_answer(m: ServerModel, id: ClientId, j: Json) -> Option<Json> {
    match m.cached_capabilities {
        Some(known) => if method_of(j) == "initialize"@ && m.clients.contains_key(id) {
            Some(response(id_or_one(j), known))
        } else {
            None
        },
        None => None,
    }
}

/// The document that the message `j` opens, if it opens one.
pub open spec fn opened_by(j: Json) -> Option<Seq<char>> {
    if method_of(j) == "textDocument/didOpen"@ {
        document_of(j)
    } else {
        None
    }
}

/// Whether the counters of `m` have room for the message `j`.
pub open spec fn has_room_for(m: ServerModel, j: Json) -> bool {
    &&& is_routed(m, j) ==> m.next_server_id < u64::MAX
    &&& opened_by(j) matches Some(uri) ==> open_count(m, uri) < usize::MAX
}

/// What becomes of `m`, and what is to be done, when the client `id` sends `text`, which reads
/// as `j`.
pub open spec fn editor_step(m: ServerModel, id: ClientId, text: Seq<char>, j: Json) -> (
    ServerModel,
    EditorEffect,
) {
    let method = method_of(j);
    let forwarded = EditorEffect::Forward(json_text(renumbered(j, m.next_server_id)));
    if method == "initialize"@ {
        match m.cached_capabilities {
            // The server has been initialized: answer in its place.
            Some(capabilities) => (
                m,
                if m.clients.contains_key(id) {
                    EditorEffect::Reply(json_text(response(id_or_one(j), capabilities)))
                } else {
                    EditorEffect::Nothing
                },
            ),
            None => (with_request(m, id, id_or_one(j)), forwarded),
        }
    } else if method == "initialized"@ {
        (m, EditorEffect::Nothing)
    } else if method == "textDocument/didOpen"@ {
        match document_of(j) {
            // Only the first to open a document opens it on the server.
            Some(uri) => (
                with_open(m, id, uri),
                if open_count(m, uri) == 0 {
                    EditorEffect::Forward(text)
                } else {
                    EditorEffect::Nothing
                },
            ),
            None => (m, EditorEffect::Nothing),
        }
    } else if method == "textDocument/didClose"@ {
        match document_of(j) {
            // Only the last to close a document closes it on the server.
            Some(uri) => if closes_last(m.open_documents, uri) {
                (with_close(m, uri), EditorEffect::ForwardClose(text, uri))
            } else {
                (with_forgotten(with_close(m, uri), id, uri), EditorEffect::Nothing)
            },
            None => (m, EditorEffect::Nothing),
        }
    } else {
        match member_of(j, "id"@) {
            Some(original) => (with_request(m, id, original), forwarded),
            None => (m, EditorEffect::Forward(text)),
        }
    }
}

/// A copy of `files` without `uri`.
fn forget_file(files: &Vec<String>, uri: &str) -> (r: Vec<String>)
    ensures
        texts(r@) == without_file(texts(files@), uri@),
{
    let mut out: Vec<String> = Vec::new();
    let ghost all = texts(files@);
    let ghost keep = other_than(uri@);
    assert(all.take(0) =~= Seq::<Seq<char>>::empty());
    assert(all.take(0).filter(keep) =~= Seq::<Seq<char>>::empty()) by {
        reveal(Seq::filter);
    }
    assert(texts(out@) =~= all.take(0).filter(keep));
    for i in 0..files.len()
        invariant
            all == texts(files@),
            keep == other_than(uri@),
            texts(out@) == all.take(i as int).filter(keep),
    {
        let ghost before = out@;
        assert(all[i as int] == files@[i as int]@);
        assert(all.take(i + 1).drop_last() =~= all.take(i as int));
        assert(all.take(i + 1).last() == all[i as int]);
        proof {
            reveal(Seq::filter);
        }
        if !same_text(files[i].as_str(), uri) {
            out.push(files[i].clone());
            assert(texts(out@) =~= texts(before).push(all[i as int]));
        }
    }
    assert(all.take(all.len() as int) =~= all);
    out
}

impl ServerInstance {
    /// Whether the counters have room for the message `message`.
    pub fn has_room(&self, message: &serde_json::Value) -> (r: bool)
        ensures
            r == has_room_for(self@, json(*message)),
    {
        let name = method(message);
        if same_text(name, "initialize") {
            proof {
                reveal_strlit("initialize");
                reveal_strlit("textDocument/didOpen");
                assert("initialize"@.len() != "textDocument/didOpen"@.len());
            }
            self.cached_capabilities.is_some() || self.next_server_id < u64::MAX
        } else if same_text(name, "initialized") {
            proof {
                reveal_strlit("initialized");
                reveal_strlit("textDocument/didOpen");
                assert("initialized"@.len() != "textDocument/didOpen"@.len());
            }
            true
        } else if same_text(name, "textDocument/didOpen") {
            match document(message) {
                Some(uri) => match self.open_documents.get(uri) {
                    Some(n) => *n < usize::MAX,
                    None => true,
                },
                None => true,
            }
        } else if same_text(name, "textDocument/didClose") {
            true
        } else {
            member(message, "id").is_none() || self.next_server_id < u64::MAX
        }
    }

    /// Gives the next id to the request `message` of the client `id`, which the client numbered
    /// `original`. Returns the text for the server.
    pub(crate) fn route(
        &mut self,
        id: ClientId,
        message: serde_json::Value,
        original: serde_json::Value,
    ) -> (r: String)
        requires
            old(self)@.next_server_id < u64::MAX,
            json(message) is Object,
        ensures
            final(self)@ == with_request(old(self)@, id, json(original)),
            r@ == json_text(renumbered(json(message), old(self)@.next_server_id)),
            is_readable(json(message)) ==> reads_back(
                renumbered(json(message), old(self)@.next_server_id),
            ),
    {
        let ghost old_message = json(message);
        let mut message = message;
        let n: u64 = self.next_server_id;
        self.next_server_id = n + 1;
        self.id_mapping.insert(n, (id, original));
        set_member(&mut message, "id", unsigned_json(n));
        proof {
            if is_readable(old_message) {
                lemma_with_member_readable(old_message, "id"@, integer(n));
            }
        }
        assert(self@.id_mapping =~= with_request(old(self)@, id, json(original)).id_mapping);
        write_json(&message)
    }

    /// Notes that the client `id` opened `uri`. Returns whether it is the first to do so.
    fn open(&mut self, id: ClientId, uri: &str) -> (r: bool)
        requires
            open_count(old(self)@, uri@) < usize::MAX,
        ensures
            final(self)@ == with_open(old(self)@, id, uri@),
            r == (open_count(old(self)@, uri@) == 0),
    {
        let count: usize = match self.open_documents.get(uri) {
            Some(n) => *n,
            None => 0,
        };
        self.open_documents.insert(uri.to_owned(), count + 1);
        match self.clients.remove(&id) {
            Some(session) => {
                let mut session = session;
                let ghost before = session;
                session.open_files.push(uri.to_owned());
                assert(texts(session.open_files@) =~= texts(before.open_files@).push(uri@));
                self.clients.insert(id, session);
            },
            None => {},
        }
        assert(self@.clients =~= with_open(old(self)@, id, uri@).clients);
        count == 0
    }

    /// Notes that the client `id` has closed `uri`.
    pub fn finish_close(&mut self, id: ClientId, uri: &str)
        ensures
            final(self)@ == with_forgotten(old(self)@, id, uri@),
    {
        match self.clients.remove(&id) {
            Some(session) => {
                let open_files = forget_file(&session.open_files, uri);
                let left = ClientSession {
                    id: session.id,
                    open_files,
                    is_fleeting: session.is_fleeting,
                };
                assert(left@ == (SessionModel {
                    open_files: without_file(session@.open_files, uri@),
                    ..session@
                }));
                self.clients.insert(id, left);
            },
            None => {},
        }
        assert(self@.clients =~= with_forgotten(old(self)@, id, uri@).clients);
    }

    /// Takes the message `text`, which reads as `message`, from the client `id`.
    pub fn apply_editor_message(
        &mut self,
        id: ClientId,
        text: &str,
        message: serde_json::Value,
    ) -> (r: EditorAction)
        requires
            has_room_for(old(self)@, json(message)),
        ensures
            final(self)@ == editor_step(old(self)@, id, text@, json(message)).0,
            r@ == editor_step(old(self)@, id, text@, json(message)).1,
            is_readable(json(message)) && is_routed(old(self)@, json(message)) ==> reads_back(
                renumbered(json(message), old(self)@.next_server_id),
            ),
            local_answer(old(self)@, id, json(message)) matches Some(reply) ==> is_readable(reply)
                ==> reads_back(reply),
    {
        let name = method(&message);
        if same_text(name, "initialize") {
            proof {
                reveal_strlit("initialize");
                reveal_strlit("");
                assert("initialize"@.len() != ""@.len());
            }
            let original = match member(&message, "id") {
                Some(v) => copy_json(v),
                None => unsigned_json(1),
            };
            match &self.cached_capabilities {
                Some(capabilities) => {
                    assert(self@.clients.contains_key(id) == self.clients@.contains_key(id));
                    if self.clients.contains_key(&id) {
                        EditorAction::Reply(
                            write_json(&make_response(original, copy_json(capabilities))),
                        )
                    } else {
                        EditorAction::Nothing
                    }
                },
                None => EditorAction::Forward(self.route(id, message, original)),
            }
        } else if same_text(name, "initialized") {
            EditorAction::Nothing
        } else if same_text(name, "textDocument/didOpen") {
            match document(&message) {
                Some(uri) => {
                    if self.open(id, uri) {
                        EditorAction::Forward(text.to_owned())
                    } else {
                        EditorAction::Nothing
                    }
                },
                None => EditorAction::Nothing,
            }
        } else if same_text(name, "textDocument/didClose") {
            match document(&message) {
                Some(uri) => {
                    if self.close_once(uri) {
                        EditorAction::ForwardClose { text: text.to_owned(), uri: uri.to_owned() }
                    } else {
                        self.finish_close(id, uri);
                        EditorAction::Nothing
                    }
                },
                None => EditorAction::Nothing,
            }
        } else {
            let original = match member(&message, "id") {
                Some(v) => Some(copy_json(v)),
                None => None,
            };
            match original {
                Some(v) => EditorAction::Forward(self.route(id, message, v)),
                None => EditorAction::Forward(text.to_owned()),
            }
        }
    }

    /// Takes a message from the client `id`.
    pub fn process_editor_message(&mut self, id: ClientId, text: &str) -> (r: Result<
        EditorAction,
        BrokerError,
    >)
        ensures
            match json_parse(text@) {
                None => r == Err::<EditorAction, BrokerError>(BrokerError::InvalidJson)
                    && final(self)@ == old(self)@,
                Some(j) => if has_room_for(old(self)@, j) {
                    r is Ok && r->Ok_0@ == editor_step(old(self)@, id, text@, j).1 && final(self)@
                        == editor_step(old(self)@, id, text@, j).0
                } else {
                    r == Err::<EditorAction, BrokerError>(BrokerError::CounterExhausted)
                        && final(self)@ == old(self)@
                },
            },
            json_parse(text@) matches Some(j) ==> has_room_for(old(self)@, j) ==> is_routed(
                old(self)@,
                j,
            ) ==> reads_back(renumbered(j, old(self)@.next_server_id)),
            json_parse(text@) matches Some(j) ==> has_room_for(old(self)@, j) ==> (local_answer(
                old(self)@,
                id,
                j,
            ) matches Some(reply) ==> is_readable(reply) ==> reads_back(reply)),
    {
        match parse_json(text) {
            Ok(message) => if self.has_room(&message) {
                Ok(self.apply_editor_message(id, text, message))
            } else {
                Err(BrokerError::CounterExhausted)
            },
            Err(_) => Err(BrokerError::InvalidJson),
        }
    }
}

} // verus!
