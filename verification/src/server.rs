//! What a server sends: answers go to the client that asked, under the id that it used, and
//! notifications go to the editors.

use crate::error::BrokerError;
use crate::json::{
    as_unsigned, copy_json, is_readable, is_readable_member, json, json_parse, json_text,
    lemma_with_member_readable, member, member_of, parse_json, reads_back, set_member,
    unsigned_of, with_member, write_json, Json,
};
use crate::message::{diagnosed, diagnosed_of, method, method_of};
use crate::session::{json_view, ClientId, ServerInstance, ServerModel, SessionModel};
use crate::text::{same_text, texts};
use vstd::prelude::*;

verus! {

broadcast use vstd::std_specs::hash::group_hash_axioms;

/// A text for a client.
pub struct Delivery {
    pub client: ClientId,
    pub text: String,
}

/// What a message of the server comes to.
pub struct Reception {
    /// What is to be sent to which client.
    pub deliveries: Vec<Delivery>,
    /// The error that the server reports, if it reports one.
    pub error: Option<serde_json::Value>,
}

/// Whether `list` delivers to every client in `wanted` its text, once, and nothing else.
pub open spec fn delivers(list: Seq<Delivery>, wanted: Map<ClientId, Seq<char>>) -> bool {
    &&& forall|i: int|
        0 <= i < list.len() ==> wanted.contains_key((#[trigger] list[i]).client)
            && wanted[list[i].client] == list[i].text@
    &&& forall|i: int, j: int|
        0 <= i < j < list.len() ==> (#[trigger] list[i]).client != (#[trigger] list[j]).client
    &&& forall|c: ClientId| #[trigger] wanted.contains_key(c) ==> addresses(list, c)
}

/// Whether `list` holds a text for the client `c`.
pub open spec fn addresses(list: Seq<Delivery>, c: ClientId) -> bool {
    exists|i: int| 0 <= i < list.len() && (#[trigger] list[i]).client == c
}

/// The request that `j` answers, among those of `m` that wait for an answer.
pub open spec fn answered_by(m: ServerModel, j: Json) -> Option<u64> {
    match member_of(j, "id"@) {
        Some(id) => match unsigned_of(id) {
            Some(n) => if m.id_mapping.contains_key(n) {
                Some(n)
            } else {
                None
            },
            None => None,
        },
        None => None,
    }
}

/// The result that `j` carries, where that tells the capabilities of the server.
pub open spec fn capabilities_in(j: Json) -> Option<Json> {
    match member_of(j, "result"@) {
        Some(result) => if member_of(result, "capabilities"@) is Some {
            Some(result)
        } else {
            None
        },
        None => None,
    }
}

/// What becomes of `m` when the server sends a message that reads as `j`.
pub open spec fn server_step(m: ServerModel, j: Json) -> ServerModel {
    match answered_by(m, j) {
        Some(n) => ServerModel {
            id_mapping: m.id_mapping.remove(n),
            cached_capabilities: if m.cached_capabilities is None {
                capabilities_in(j)
            } else {
                m.cached_capabilities
            },
            ..m
        },
        None => m,
    }
}

/// Whether a notification that reads as `j` is for the client `s`: only editors get any, and
/// diagnostics only those that have the document open.
pub open spec fn is_notified(s: SessionModel, j: Json) -> bool {
    if s.is_fleeting {
        false
    } else if method_of(j) == "textDocument/publishDiagnostics"@ {
        match diagnosed_of(j) {
            Some(uri) => s.open_files.contains(uri),
            None => false,
        }
    } else {
        true
    }
}

/// The answer `j` under the id `original`.
pub open spec fn answer(j: Json, original: Json) -> Json {
    with_member(j, "id"@, original)
}

/// Which clients get which text when the server sends `text`, which reads as `j`.
pub open spec fn deliveries(m: ServerModel, text: Seq<char>, j: Json) -> Map<ClientId, Seq<char>> {
    if member_of(j, "id"@) is Some {
        match answered_by(m, j) {
            Some(n) => {
                let (client, original) = m.id_mapping[n];
                if m.clients.contains_key(client) {
                    map![client => json_text(answer(j, original))]
                } else {
                    Map::empty()
                }
            },
            None => Map::empty(),
        }
    } else {
        Map::new(
            |c: ClientId| m.clients.contains_key(c) && is_notified(m.clients[c], j),
            |c: ClientId| text,
        )
    }
}

/// Whether `uri` is among `files`.
fn has_file(files: &Vec<String>, uri: &str) -> (r: bool)
    ensures
        r == texts(files@).contains(uri@),
{
    for i in 0..files.len()
        invariant
            forall|k: int| 0 <= k < i ==> files@[k]@ != uri@,
    {
        if same_text(files[i].as_str(), uri) {
            assert(texts(files@)[i as int] == uri@);
            return true;
        }
    }
    assert(forall|k: int| 0 <= k < texts(files@).len() ==> texts(files@)[k] == files@[k]@);
    false
}

impl ServerInstance {
    /// The numbers of the clients, each once.
    fn client_ids(&self) -> (r: Vec<ClientId>)
        ensures
            r@.no_duplicates(),
            r@.to_set() == self@.clients.dom(),
    {
        let mut out: Vec<ClientId> = Vec::new();
        let ghost keys = vstd::std_specs::iter::IteratorSpec::remaining(
            &vstd::std_specs::hash::spec_keys_iter(&self.clients),
        );
        for k in it: self.clients.keys()
            invariant
                it.seq() == keys,
                out@ == keys.unref().take(it.index()),
        {
            out.push(*k);
        }
        assert(keys.unref().take(keys.len() as int) =~= keys.unref());
        assert(self@.clients.dom() =~= self.clients@.dom());
        out
    }

    /// Sends `text`, which reads as `message`, to every client that it is for.
    fn notify(&self, text: &str, message: &serde_json::Value) -> (r: Vec<Delivery>)
        requires
            member_of(json(*message), "id"@) is None,
        ensures
            delivers(r@, deliveries(self@, text@, json(*message))),
    {
        let ids = self.client_ids();
        let ghost j = json(*message);
        let ghost wanted = deliveries(self@, text@, j);
        let diagnostics = same_text(method(message), "textDocument/publishDiagnostics");
        let uri = diagnosed(message);
        let mut out: Vec<Delivery> = Vec::new();
        for i in 0..ids.len()
            invariant
                ids@.no_duplicates(),
                ids@.to_set() == self@.clients.dom(),
                j == json(*message),
                wanted == deliveries(self@, text@, j),
                member_of(j, "id"@) is None,
                diagnostics == (method_of(j) == "textDocument/publishDiagnostics"@),
                match uri {
                    Some(s) => diagnosed_of(j) == Some(s@),
                    None => diagnosed_of(j) is None,
                },
                forall|k: int|
                    0 <= k < out@.len() ==> wanted.contains_key((#[trigger] out@[k]).client)
                        && out@[k].text@ == text@ && ids@.take(i as int).contains(out@[k].client),
                forall|a: int, b: int|
                    0 <= a < b < out@.len() ==> (#[trigger] out@[a]).client
                        != (#[trigger] out@[b]).client,
                forall|k: int|
                    0 <= k < i && wanted.contains_key(#[trigger] ids@[k]) ==> addresses(
                        out@,
                        ids@[k],
                    ),
        {
            let id: ClientId = ids[i];
            let ghost before = out@;
            assert(ids@.to_set().contains(id));
            assert(self.clients@.contains_key(id));
            let mut wants = false;
            match self.clients.get(&id) {
                Some(session) => {
                    if !session.is_fleeting {
                        if diagnostics {
                            match uri {
                                Some(u) => {
                                    wants = has_file(&session.open_files, u);
                                },
                                None => {},
                            }
                        } else {
                            wants = true;
                        }
                    }
                    assert(self@.clients[id] == session@);
                    assert(wants == is_notified(session@, j));
                },
                None => {},
            }
            assert(wants == wanted.contains_key(id));
            assert(ids@.take(i + 1)[i as int] == id);
            assert forall|c: ClientId| ids@.take(i as int).contains(c) implies c != id && ids@.take(
                i + 1,
            ).contains(c) by {
                let k = choose|k: int| 0 <= k < i && ids@.take(i as int)[k] == c;
                assert(ids@[k] == c);
                assert(ids@.take(i + 1)[k] == c);
            }
            if wants {
                out.push(Delivery { client: id, text: text.to_owned() });
                assert(out@[before.len() as int].client == id);
            }
            assert forall|k: int| 0 <= k < i + 1 && wanted.contains_key(#[trigger] ids@[k]) implies
                addresses(out@, ids@[k]) by {
                if k < i {
                    let w = choose|w: int|
                        0 <= w < before.len() && (#[trigger] before[w]).client == ids@[k];
                    assert(out@[w].client == ids@[k]);
                }
            }
        }
        assert forall|c: ClientId| #[trigger] wanted.contains_key(c) implies addresses(out@, c) by {
            assert(ids@.to_set().contains(c));
            let k = choose|k: int| 0 <= k < ids@.len() && ids@[k] == c;
            assert(wanted.contains_key(ids@[k]));
        }
        out
    }

    /// Takes the message `text`, which reads as `message`, from the server. Returns what is to
    /// be sent to which client.
    pub fn apply_server_message(&mut self, text: &str, message: serde_json::Value) -> (r: Vec<
        Delivery,
    >)
        ensures
            final(self)@ == server_step(old(self)@, json(message)),
            delivers(r@, deliveries(old(self)@, text@, json(message))),
            answered_by(old(self)@, json(message)) matches Some(n)
                ==> old(self)@.clients.contains_key(old(self)@.id_mapping[n].0) && is_readable(
                json(message),
            ) && is_readable_member(old(self)@.id_mapping[n].1) ==> reads_back(
                answer(json(message), old(self)@.id_mapping[n].1),
            ),
    {
        let ghost j = json(message);
        let mut message = message;
        let number = match member(&message, "id") {
            Some(id) => as_unsigned(id),
            None => {
                return self.notify(text, &message);
            },
        };
        let mut out: Vec<Delivery> = Vec::new();
        if let Some(n) = number {
            assert(self@.id_mapping.contains_key(n) == self.id_mapping@.contains_key(n));
            if let Some((client, original)) = self.id_mapping.remove(&n) {
                if self.cached_capabilities.is_none() {
                    if let Some(result) = member(&message, "result") {
                        if member(result, "capabilities").is_some() {
                            self.cached_capabilities = Some(copy_json(result));
                        }
                    }
                }
                assert(self@.clients.contains_key(client) == self.clients@.contains_key(client));
                if self.clients.contains_key(&client) {
                    proof {
                        if is_readable(j) && is_readable_member(json(original)) {
                            lemma_with_member_readable(j, "id"@, json(original));
                        }
                    }
                    set_member(&mut message, "id", original);
                    out.push(Delivery { client, text: write_json(&message) });
                    assert(out@[0].client == client);
                }
            }
        }
        assert(self@.id_mapping =~= server_step(old(self)@, j).id_mapping);
        out
    }

    /// Takes a message from the server. Returns what is to be sent to which client, and the error
    /// that the message reports.
    pub fn handle_server_message(&mut self, text: &str) -> (r: Result<Reception, BrokerError>)
        ensures
            match json_parse(text@) {
                None => r is Err && r->Err_0 == BrokerError::InvalidJson && final(self)@
                    == old(self)@,
                Some(j) => r is Ok && delivers(
                    r->Ok_0.deliveries@,
                    deliveries(old(self)@, text@, j),
                ) && json_view(r->Ok_0.error) == member_of(j, "error"@) && final(self)@
                    == server_step(old(self)@, j),
            },
            json_parse(text@) matches Some(j) ==> answered_by(old(self)@, j) matches Some(n)
                ==> old(self)@.clients.contains_key(old(self)@.id_mapping[n].0)
                && is_readable_member(old(self)@.id_mapping[n].1) ==> reads_back(
                answer(j, old(self)@.id_mapping[n].1),
            ),
    {
        match parse_json(text) {
            Ok(message) => {
                let error = match member(&message, "error") {
                    Some(e) => Some(copy_json(e)),
                    None => None,
                };
                Ok(Reception { deliveries: self.apply_server_message(text, message), error })
            },
            Err(_) => Err(BrokerError::InvalidJson),
        }
    }
}

} // verus!
