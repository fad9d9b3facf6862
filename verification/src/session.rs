//! A running server: who is connected to it, which documents are open, and which requests wait
//! for an answer.

use crate::json::{json, json_text, write_json, Json};
use crate::message::{did_close, make_did_close};
use crate::text::texts;
use std::collections::HashMap;
use vstd::hash_map::StringHashMap;
use vstd::prelude::*;

verus! {

broadcast use vstd::std_specs::hash::group_hash_axioms;

/// The number of a connection.
pub type ClientId = usize;

/// How long a server without clients may be idle, in nanoseconds: fifteen minutes.
pub const IDLE_LIMIT: u128 = 900_000_000_000;

/// One connection to a server.
pub struct ClientSession {
    /// The number of the connection.
    pub id: ClientId,
    /// The documents that the client opened and did not close, in order.
    pub open_files: Vec<String>,
    /// Whether the client asks one question and leaves.
    pub is_fleeting: bool,
}

/// What a [`ClientSession`] says.
#[verifier::ext_equal]
pub struct SessionModel {
    pub id: ClientId,
    pub open_files: Seq<Seq<char>>,
    pub is_fleeting: bool,
}

impl View for ClientSession {
    type V = SessionModel;

    open spec fn view(&self) -> SessionModel {
        SessionModel {
            id: self.id,
            open_files: texts(self.open_files@),
            is_fleeting: self.is_fleeting,
        }
    }
}

/// A running server and what the broker knows of it.
pub struct ServerInstance {
    /// The root of the project that it serves.
    pub project_root: String,
    /// The language that it serves.
    pub language: String,
    /// The connections to it.
    pub clients: HashMap<ClientId, ClientSession>,
    /// How often each document is open.
    pub open_documents: StringHashMap<usize>,
    /// For each request that waits for an answer, who asked it and under which id.
    pub id_mapping: HashMap<u64, (ClientId, serde_json::Value)>,
    /// The id of the next request.
    pub next_server_id: u64,
    /// What the server answered when it was initialized.
    pub cached_capabilities: Option<serde_json::Value>,
    /// When it was last used, in nanoseconds on the clock of the broker.
    pub last_activity: u128,
}

/// What a [`ServerInstance`] says.
#[verifier::ext_equal]
pub struct ServerModel {
    pub project_root: Seq<char>,
    pub language: Seq<char>,
    pub clients: Map<ClientId, SessionModel>,
    pub open_documents: Map<Seq<char>, usize>,
    pub id_mapping: Map<u64, (ClientId, Json)>,
    pub next_server_id: u64,
    pub cached_capabilities: Option<Json>,
    pub last_activity: u128,
}

/// The contents of an optional JSON value.
pub open spec fn json_view(v: Option<serde_json::Value>) -> Option<Json> {
    match v {
        Some(value) => Some(json(value)),
        None => None,
    }
}

impl View for ServerInstance {
    type V = ServerModel;

    open spec fn view(&self) -> ServerModel {
        ServerModel {
            project_root: self.project_root@,
            language: self.language@,
            clients: self.clients@.map_values(|s: ClientSession| s@),
            open_documents: self.open_documents@,
            id_mapping: self.id_mapping@.map_values(
                |e: (ClientId, serde_json::Value)| (e.0, json(e.1)),
            ),
            next_server_id: self.next_server_id,
            cached_capabilities: json_view(self.cached_capabilities),
            last_activity: self.last_activity,
        }
    }
}

/// What every server keeps: ids that wait for an answer lie below the next one, which is never
/// zero; a document that is listed is open; a connection is listed under its number.
pub open spec fn well_formed(m: ServerModel) -> bool {
    &&& m.next_server_id > 0
    &&& forall|n: u64| #[trigger] m.id_mapping.contains_key(n) ==> n < m.next_server_id
    &&& forall|uri: Seq<char>| #[trigger]
        m.open_documents.contains_key(uri) ==> m.open_documents[uri] > 0
    &&& forall|c: ClientId| #[trigger] m.clients.contains_key(c) ==> m.clients[c].id == c
}

/// How often `uri` is open.
pub open spec fn open_count(m: ServerModel, uri: Seq<char>) -> usize {
    if m.open_documents.contains_key(uri) {
        m.open_documents[uri]
    } else {
        0
    }
}

/// A server that has just been started.
pub open spec fn started(project_root: Seq<char>, language: Seq<char>, now: u128) -> ServerModel {
    ServerModel {
        project_root,
        language,
        clients: Map::empty(),
        open_documents: Map::empty(),
        id_mapping: Map::empty(),
        next_server_id: 1,
        cached_capabilities: None,
        last_activity: now,
    }
}

/// `m` after the client `id` connected.
pub open spec fn with_client(m: ServerModel, id: ClientId, is_fleeting: bool) -> ServerModel {
    ServerModel {
        clients: m.clients.insert(
            id,
            SessionModel { id, open_files: Seq::empty(), is_fleeting },
        ),
        ..m
    }
}

/// `docs` after `uri` was closed once: it is no longer listed where it was open once.
pub open spec fn closed_once(docs: Map<Seq<char>, usize>, uri: Seq<char>) -> Map<
    Seq<char>,
    usize,
> {
    if !docs.contains_key(uri) {
        docs
    } else if docs[uri] <= 1 {
        docs.remove(uri)
    } else {
        docs.insert(uri, (docs[uri] - 1) as usize)
    }
}

/// Whether closing `uri` once leaves it closed for everybody.
pub open spec fn closes_last(docs: Map<Seq<char>, usize>, uri: Seq<char>) -> bool {
    docs.contains_key(uri) && docs[uri] <= 1
}

/// `docs` after each of `files` was closed once, in order.
pub open spec fn closed_all(docs: Map<Seq<char>, usize>, files: Seq<Seq<char>>) -> Map<
    Seq<char>,
    usize,
>
    decreases files.len(),
{
    if files.len() == 0 {
        docs
    } else {
        closed_once(closed_all(docs, files.drop_last()), files.last())
    }
}

/// Those of `files` that nobody has open any more once each was closed, in order.
pub open spec fn released(docs: Map<Seq<char>, usize>, files: Seq<Seq<char>>) -> Seq<Seq<char>>
    decreases files.len(),
{
    if files.len() == 0 {
        Seq::empty()
    } else {
        let before = closed_all(docs, files.drop_last());
        let earlier = released(docs, files.drop_last());
        if closes_last(before, files.last()) {
            earlier.push(files.last())
        } else {
            earlier
        }
    }
}

/// The documents that the client `id` has open.
pub open spec fn files_of(m: ServerModel, id: ClientId) -> Seq<Seq<char>> {
    if m.clients.contains_key(id) {
        m.clients[id].open_files
    } else {
        Seq::empty()
    }
}

/// `m` after the client `id` left at the time `now`.
pub open spec fn without_client(m: ServerModel, id: ClientId, now: u128) -> ServerModel {
    ServerModel {
        clients: m.clients.remove(id),
        open_documents: closed_all(m.open_documents, files_of(m, id)),
        last_activity: now,
        ..m
    }
}

/// The messages that close the documents `uris`.
pub open spec fn close_messages(uris: Seq<Seq<char>>) -> Seq<Seq<char>> {
    uris.map_values(|uri: Seq<char>| json_text(did_close(uri)))
}

impl ServerInstance {
    /// A server that has just been started.
    pub fn new(project_root: String, language: String, now: u128) -> (r: Self)
        ensures
            r@ == started(project_root@, language@, now),
    {
        let r = ServerInstance {
            project_root,
            language,
            clients: HashMap::new(),
            open_documents: StringHashMap::new(),
            id_mapping: HashMap::new(),
            next_server_id: 1,
            cached_capabilities: None,
            last_activity: now,
        };
        assert(r@ =~= started(project_root@, language@, now));
        r
    }

    /// Notes that the server is used at the time `now`.
    pub fn touch(&mut self, now: u128)
        ensures
            final(self)@ == (ServerModel { last_activity: now, ..old(self)@ }),
    {
        self.last_activity = now;
    }

    /// Whether the server may be stopped: nobody is connected, and it has been idle for more
    /// than fifteen minutes.
    pub fn is_idle(&self, now: u128) -> (r: bool)
        ensures
            r == idle(self@, now),
    {
        proof {
            assert(self.clients@.dom() =~= self@.clients.dom());
            assert(self.clients@.is_empty() == self@.clients.is_empty());
        }
        self.clients.is_empty() && now >= self.last_activity && now - self.last_activity
            > IDLE_LIMIT
    }

    /// Connects the client `id`.
    pub fn register(&mut self, id: ClientId, is_fleeting: bool)
        ensures
            final(self)@ == with_client(old(self)@, id, is_fleeting),
    {
        let session = ClientSession { id, open_files: Vec::new(), is_fleeting };
        assert(session@.open_files =~= Seq::<Seq<char>>::empty());
        self.clients.insert(id, session);
        assert(self@.clients =~= with_client(old(self)@, id, is_fleeting).clients);
    }

    /// Closes `uri` once. Returns whether nobody has it open any more.
    pub(crate) fn close_once(&mut self, uri: &str) -> (r: bool)
        ensures
            final(self)@ == (ServerModel {
                open_documents: closed_once(old(self)@.open_documents, uri@),
                ..old(self)@
            }),
            r == closes_last(old(self)@.open_documents, uri@),
    {
        let count: usize = match self.open_documents.get(uri) {
            Some(n) => *n,
            None => {
                return false;
            },
        };
        if count <= 1 {
            self.open_documents.remove(uri);
            true
        } else {
            self.open_documents.insert(uri.to_owned(), count - 1);
            false
        }
    }

    /// Disconnects the client `id` at the time `now` and closes what it had open. Returns the
    /// messages for the server about the documents that nobody has open any more.
    pub fn unregister(&mut self, id: ClientId, now: u128) -> (r: Vec<String>)
        ensures
            final(self)@ == without_client(old(self)@, id, now),
            texts(r@) == close_messages(
                released(old(self)@.open_documents, files_of(old(self)@, id)),
            ),
    {
        let mut out: Vec<String> = Vec::new();
        let ghost docs = self@.open_documents;
        let ghost files = files_of(self@, id);
        match self.clients.remove(&id) {
            Some(session) => {
                let ghost m = self@;
                assert(files == texts(session.open_files@));
                assert(files.take(0) =~= Seq::<Seq<char>>::empty());
                assert(texts(out@) =~= close_messages(released(docs, files.take(0))));
                for i in 0..session.open_files.len()
                    invariant
                        files == texts(session.open_files@),
                        self@ == (ServerModel {
                            open_documents: closed_all(docs, files.take(i as int)),
                            ..m
                        }),
                        texts(out@) == close_messages(released(docs, files.take(i as int))),
                {
                    let uri = session.open_files[i].as_str();
                    assert(files[i as int] == uri@);
                    assert(files.take(i + 1).drop_last() =~= files.take(i as int));
                    assert(files.take(i + 1).last() == uri@);
                    let ghost sent = out@;
                    let ghost earlier = released(docs, files.take(i as int));
                    if self.close_once(uri) {
                        out.push(write_json(&make_did_close(uri)));
                        assert(released(docs, files.take(i + 1)) == earlier.push(uri@));
                        assert(close_messages(earlier.push(uri@)) =~= close_messages(earlier).push(
                            json_text(did_close(uri@)),
                        ));
                        assert(texts(out@) =~= texts(sent).push(json_text(did_close(uri@))));
                    } else {
                        assert(released(docs, files.take(i + 1)) == earlier);
                    }
                }
                assert(files.take(files.len() as int) =~= files);
            },
            None => {
                assert(texts(out@) =~= close_messages(released(docs, files)));
            },
        }
        self.last_activity = now;
        assert(self@.clients =~= without_client(old(self)@, id, now).clients);
        assert(self@ =~= without_client(old(self)@, id, now));
        out
    }
}

/// Whether `m` may be stopped at the time `now`.
pub open spec fn idle(m: ServerModel, now: u128) -> bool {
    m.clients.is_empty() && now - m.last_activity > IDLE_LIMIT
}

} // verus!
