//! What becomes of each message, told from the members of the message itself: what goes to the
//! server, what goes to which client, and what is remembered.

use crate::editor::{
    editor_step, has_room_for, is_routed, renumbered, with_forgotten, without_file, EditorAction,
    EditorEffect,
};
use crate::json::{json, json_text, member_of, Json, JsonNumber};
use crate::message::{
    diagnosed_of, did_close, document_of, id_or_one, initialize, initialized, method_of, response,
};
use crate::query::{
    after_query, query_step, with_initialization, with_query, QueryEffect, QueryStage,
    INITIALIZATION_LIMIT, QUERY_LIMIT_SECONDS,
};
use crate::server::{addresses, deliveries, delivers, server_step, Delivery};
use crate::session::{
    close_messages, closed_all, files_of, idle, released, started, with_client, without_client,
    ClientId, ClientSession, ServerInstance, ServerModel, SessionModel, IDLE_LIMIT,
};
use crate::text::texts;
use vstd::prelude::*;

verus! {

/// The members of a JSON object.
pub type Members = Map<Seq<char>, Json>;

/// Whether a message has the method `name`.
pub open spec fn is_method(members: Members, name: Seq<char>) -> bool {
    members.contains_key("method"@) && members["method"@] == Json::Str(name)
}

/// Whether the broker deals with a message of an editor itself.
pub open spec fn is_own_business(members: Members) -> bool {
    is_method(members, "initialize"@) || is_method(members, "initialized"@) || is_method(
        members,
        "textDocument/didOpen"@,
    ) || is_method(members, "textDocument/didClose"@)
}

/// Whether a message is about the document `uri`: its parameters name it so.
pub open spec fn names(members: Members, uri: Seq<char>) -> bool {
    &&& members.contains_key("params"@)
    &&& members["params"@] matches Json::Object(params)
    &&& params.contains_key("textDocument"@)
    &&& params["textDocument"@] matches Json::Object(document)
    &&& document.contains_key("uri"@)
    &&& document["uri"@] == Json::Str(uri)
}

/// Whether diagnostics are about the document `uri`: their parameters name it so.
pub open spec fn diagnoses(members: Members, uri: Seq<char>) -> bool {
    &&& members.contains_key("params"@)
    &&& members["params"@] matches Json::Object(params)
    &&& params.contains_key("uri"@)
    &&& params["uri"@] == Json::Str(uri)
}

/// The JSON integer `n`.
pub open spec fn whole(n: u64) -> Json {
    Json::Number(JsonNumber::Unsigned(n))
}

/// The id of a message; one where it has none.
pub open spec fn given_id(members: Members) -> Json {
    if members.contains_key("id"@) {
        members["id"@]
    } else {
        Json::Number(JsonNumber::Unsigned(1))
    }
}

/// How often `uri` is listed as open.
pub open spec fn times_open(m: ServerModel, uri: Seq<char>) -> int {
    if m.open_documents.contains_key(uri) {
        m.open_documents[uri] as int
    } else {
        0
    }
}

proof fn lemma_methods_differ()
    ensures
        "initialize"@ != "initialized"@,
        "initialize"@ != "textDocument/didOpen"@,
        "initialize"@ != "textDocument/didClose"@,
        "initialized"@ != "textDocument/didOpen"@,
        "initialized"@ != "textDocument/didClose"@,
        "textDocument/didOpen"@ != "textDocument/didClose"@,
        ""@ != "initialize"@,
        ""@ != "initialized"@,
        ""@ != "textDocument/didOpen"@,
        ""@ != "textDocument/didClose"@,
        ""@ != "textDocument/publishDiagnostics"@,
{
    reveal_strlit("");
    reveal_strlit("initialize");
    reveal_strlit("initialized");
    reveal_strlit("textDocument/didOpen");
    reveal_strlit("textDocument/didClose");
    reveal_strlit("textDocument/publishDiagnostics");
    assert(""@.len() == 0);
    assert("initialize"@.len() == 10);
    assert("initialized"@.len() == 11);
    assert("textDocument/didOpen"@.len() == 20);
    assert("textDocument/didClose"@.len() == 21);
    assert("textDocument/publishDiagnostics"@.len() == 31);
}

/// What a message is about is the text at `params.textDocument.uri`, whatever else it holds, and
/// nothing where there is no such text.
pub proof fn law_documents_are_named_in_the_parameters(members: Members, uri: Seq<char>)
    ensures
        document_of(Json::Object(members)) == Some(uri) <==> names(members, uri),
{
}

/// What diagnostics are about is the text at `params.uri`, whatever else they hold, and nothing
/// where there is no such text.
pub proof fn law_diagnosed_documents_are_named_in_the_parameters(members: Members, uri: Seq<char>)
    ensures
        diagnosed_of(Json::Object(members)) == Some(uri) <==> diagnoses(members, uri),
{
}

/// What is no object names no document and has neither method, id nor any other member.
pub proof fn law_other_values_have_no_members(j: Json, key: Seq<char>)
    requires
        j !is Object,
    ensures
        document_of(j) is None,
        diagnosed_of(j) is None,
        member_of(j, key) is None,
        method_of(j) == ""@,
        id_or_one(j) == whole(1),
{
}

/// The members of an object are those that it has.
pub proof fn law_members_are_found(members: Members, key: Seq<char>)
    ensures
        members.contains_key(key) ==> member_of(Json::Object(members), key) == Some(members[key]),
        !members.contains_key(key) ==> member_of(Json::Object(members), key) is None,
        id_or_one(Json::Object(members)) == given_id(members),
{
}

/// A message of an editor without an id goes to the server as it is and changes nothing, unless
/// the broker deals with its method itself: whatever its parameters are, and whatever is open.
pub proof fn law_notifications_of_editors_are_forwarded(
    m: ServerModel,
    id: ClientId,
    text: Seq<char>,
    members: Members,
)
    requires
        !members.contains_key("id"@),
        !is_own_business(members),
    ensures
        editor_step(m, id, text, Json::Object(members)) == (m, EditorEffect::Forward(text)),
        has_room_for(m, Json::Object(members)),
{
    lemma_methods_differ();
}

/// A message of an editor that is no object goes to the server as it is and changes nothing.
pub proof fn law_other_values_are_forwarded(m: ServerModel, id: ClientId, text: Seq<char>, j: Json)
    requires
        j !is Object,
    ensures
        editor_step(m, id, text, j) == (m, EditorEffect::Forward(text)),
        has_room_for(m, j),
{
    lemma_methods_differ();
}

/// A request of an editor goes to the server with the next id in place of its own and with all
/// its other members; who asked, and under which id, is remembered under the new one, and nothing
/// else changes.
pub proof fn law_requests_of_editors_are_renumbered(
    m: ServerModel,
    id: ClientId,
    text: Seq<char>,
    members: Members,
)
    requires
        members.contains_key("id"@) && !is_own_business(members) || is_method(
            members,
            "initialize"@,
        ) && m.cached_capabilities is None,
    ensures
        has_room_for(m, Json::Object(members)) <==> m.next_server_id < u64::MAX,
        is_routed(m, Json::Object(members)),
        editor_step(m, id, text, Json::Object(members)).1 == EditorEffect::Forward(
            json_text(Json::Object(members.insert("id"@, whole(m.next_server_id)))),
        ),
        ({
            let next = editor_step(m, id, text, Json::Object(members)).0;
            &&& next.id_mapping == m.id_mapping.insert(m.next_server_id, (id, given_id(members)))
            &&& m.next_server_id < u64::MAX ==> next.next_server_id == m.next_server_id + 1
            &&& next.clients == m.clients
            &&& next.open_documents == m.open_documents
            &&& next.cached_capabilities == m.cached_capabilities
            &&& next.project_root == m.project_root
            &&& next.language == m.language
            &&& next.last_activity == m.last_activity
        }),
{
    lemma_methods_differ();
}

/// Once the capabilities of the server are known, an editor that initializes is answered with
/// them, under its own id; nothing goes to the server and nothing changes.
pub proof fn law_known_capabilities_are_the_answer(
    m: ServerModel,
    id: ClientId,
    text: Seq<char>,
    members: Members,
    known: Json,
)
    requires
        is_method(members, "initialize"@),
        m.cached_capabilities == Some(known),
    ensures
        has_room_for(m, Json::Object(members)),
        editor_step(m, id, text, Json::Object(members)).0 == m,
        m.clients.contains_key(id) ==> editor_step(m, id, text, Json::Object(members)).1
            == EditorEffect::Reply(
            json_text(
                Json::Object(
                    map![
                        "jsonrpc"@ => Json::Str("2.0"@),
                        "id"@ => given_id(members),
                        "result"@ => known,
                    ],
                ),
            ),
        ),
        !m.clients.contains_key(id) ==> editor_step(m, id, text, Json::Object(members)).1
            == EditorEffect::Nothing,
{
    lemma_methods_differ();
}

/// That an editor is initialized is nobody's business; so is a document that is opened or closed
/// without being named.
pub proof fn law_what_is_dropped(m: ServerModel, id: ClientId, text: Seq<char>, members: Members)
    requires
        is_method(members, "initialized"@) || ((is_method(members, "textDocument/didOpen"@)
            || is_method(members, "textDocument/didClose"@)) && forall|uri: Seq<char>|
            !names(members, uri)),
    ensures
        editor_step(m, id, text, Json::Object(members)) == (m, EditorEffect::Nothing),
        has_room_for(m, Json::Object(members)),
{
    lemma_methods_differ();
    if let Some(uri) = document_of(Json::Object(members)) {
        assert(names(members, uri));
    }
}

/// Opening a document counts it once more and lists it with the editor; the message goes to the
/// server, as it is, where nobody had the document open, and nowhere else.
pub proof fn law_opening_a_document(
    m: ServerModel,
    id: ClientId,
    text: Seq<char>,
    members: Members,
    uri: Seq<char>,
)
    requires
        is_method(members, "textDocument/didOpen"@),
        names(members, uri),
    ensures
        has_room_for(m, Json::Object(members)) <==> times_open(m, uri) < usize::MAX,
        editor_step(m, id, text, Json::Object(members)).1 == if times_open(m, uri) == 0 {
            EditorEffect::Forward(text)
        } else {
            EditorEffect::Nothing
        },
        ({
            let next = editor_step(m, id, text, Json::Object(members)).0;
            &&& times_open(m, uri) < usize::MAX ==> next.open_documents.contains_key(uri)
                && next.open_documents[uri] == times_open(m, uri) + 1
            &&& next.open_documents.remove(uri) == m.open_documents.remove(uri)
            &&& next.clients.dom() == m.clients.dom()
            &&& next.clients.remove(id) == m.clients.remove(id)
            &&& m.clients.contains_key(id) ==> next.clients[id].open_files
                == m.clients[id].open_files + seq![uri] && next.clients[id].id == m.clients[id].id
                && next.clients[id].is_fleeting == m.clients[id].is_fleeting
            &&& next.id_mapping == m.id_mapping
            &&& next.next_server_id == m.next_server_id
            &&& next.cached_capabilities == m.cached_capabilities
            &&& next.project_root == m.project_root
            &&& next.language == m.language
            &&& next.last_activity == m.last_activity
        }),
{
    lemma_methods_differ();
    let next = editor_step(m, id, text, Json::Object(members)).0;
    assert(next.open_documents.remove(uri) =~= m.open_documents.remove(uri));
    assert(next.clients.dom() =~= m.clients.dom());
    assert(next.clients.remove(id) =~= m.clients.remove(id));
    if m.clients.contains_key(id) {
        assert(next.clients[id].open_files =~= m.clients[id].open_files + seq![uri]);
    }
}

/// What holds of `next` when the client `id` of `m` has forgotten `uri` and nothing else changed
/// but, perhaps, the counts of documents.
pub open spec fn has_forgotten(
    m: ServerModel,
    next: ServerModel,
    id: ClientId,
    uri: Seq<char>,
) -> bool {
    &&& next.clients.dom() == m.clients.dom()
    &&& next.clients.remove(id) == m.clients.remove(id)
    &&& m.clients.contains_key(id) ==> next.clients[id].open_files == without_file(
        m.clients[id].open_files,
        uri,
    ) && next.clients[id].id == m.clients[id].id && next.clients[id].is_fleeting
        == m.clients[id].is_fleeting
    &&& next.id_mapping == m.id_mapping
    &&& next.next_server_id == m.next_server_id
    &&& next.cached_capabilities == m.cached_capabilities
    &&& next.project_root == m.project_root
    &&& next.language == m.language
    &&& next.last_activity == m.last_activity
}

/// Closing a document counts it once less. Where that leaves it open, or it was not open, the
/// editor forgets it and nothing is sent. Where it was open once it is no longer listed, and the
/// message goes to the server, as it is; the editor forgets the document when that has succeeded.
pub proof fn law_closing_a_document(
    m: ServerModel,
    id: ClientId,
    text: Seq<char>,
    members: Members,
    uri: Seq<char>,
)
    requires
        is_method(members, "textDocument/didClose"@),
        names(members, uri),
    ensures
        has_room_for(m, Json::Object(members)),
        ({
            let (next, effect) = editor_step(m, id, text, Json::Object(members));
            &&& next.open_documents.remove(uri) == m.open_documents.remove(uri)
            &&& times_open(m, uri) > 1 ==> next.open_documents.contains_key(uri)
                && next.open_documents[uri] == times_open(m, uri) - 1
            &&& times_open(m, uri) <= 1 ==> !next.open_documents.contains_key(uri)
            &&& if m.open_documents.contains_key(uri) && m.open_documents[uri] <= 1 {
                &&& effect == EditorEffect::ForwardClose(text, uri)
                &&& next.clients == m.clients
                &&& next.id_mapping == m.id_mapping
                &&& next.next_server_id == m.next_server_id
                &&& next.cached_capabilities == m.cached_capabilities
                &&& next.project_root == m.project_root
                &&& next.language == m.language
                &&& next.last_activity == m.last_activity
            } else {
                has_forgotten(m, next, id, uri) && effect == EditorEffect::Nothing
            }
        }),
        has_forgotten(m, with_forgotten(m, id, uri), id, uri),
        with_forgotten(m, id, uri).open_documents == m.open_documents,
{
    lemma_methods_differ();
    let next = editor_step(m, id, text, Json::Object(members)).0;
    assert(next.open_documents.remove(uri) =~= m.open_documents.remove(uri));
    assert(next.clients.dom() =~= m.clients.dom());
    assert(next.clients.remove(id) =~= m.clients.remove(id));
    let left = with_forgotten(m, id, uri);
    assert(left.clients.dom() =~= m.clients.dom());
    assert(left.clients.remove(id) =~= m.clients.remove(id));
}

/// Forgetting a document takes it out of a list wherever it stands, and nothing else; the order
/// stays.
pub proof fn law_forgetting_a_document(files: Seq<Seq<char>>, file: Seq<char>, uri: Seq<char>)
    ensures
        without_file(Seq::empty(), uri) == Seq::<Seq<char>>::empty(),
        without_file(files.push(file), uri) == if file == uri {
            without_file(files, uri)
        } else {
            without_file(files, uri).push(file)
        },
{
    reveal(Seq::filter);
    assert(files.push(file).drop_last() =~= files);
    assert(Seq::<Seq<char>>::empty().filter(crate::editor::other_than(uri)) =~= Seq::<
        Seq<char>,
    >::empty());
}

/// A message with an id that the server sends is the answer to the request that waits under this
/// number. It goes, with the id of the client in place of its own and with all its other members,
/// to the client that asked, if that is connected, and to nobody else. The request no longer
/// waits. The first result that tells capabilities is kept.
pub proof fn law_answers_are_returned(
    m: ServerModel,
    text: Seq<char>,
    members: Members,
    n: u64,
    client: ClientId,
    original: Json,
)
    requires
        members.contains_key("id"@),
        members["id"@] == whole(n),
        m.id_mapping.contains_key(n),
        m.id_mapping[n] == (client, original),
    ensures
        m.clients.contains_key(client) ==> deliveries(m, text, Json::Object(members))
            == Map::<ClientId, Seq<char>>::empty().insert(
            client,
            json_text(Json::Object(members.insert("id"@, original))),
        ),
        !m.clients.contains_key(client) ==> deliveries(m, text, Json::Object(members)) == Map::<
            ClientId,
            Seq<char>,
        >::empty(),
        ({
            let next = server_step(m, Json::Object(members));
            &&& next.id_mapping == m.id_mapping.remove(n)
            &&& m.cached_capabilities is Some ==> next.cached_capabilities == m.cached_capabilities
            &&& m.cached_capabilities is None ==> next.cached_capabilities == if tells_capabilities(
                members,
            ) {
                Some(members["result"@])
            } else {
                None
            }
            &&& next.clients == m.clients
            &&& next.open_documents == m.open_documents
            &&& next.next_server_id == m.next_server_id
            &&& next.project_root == m.project_root
            &&& next.language == m.language
            &&& next.last_activity == m.last_activity
        }),
{
}

/// Whether the result of a message tells the capabilities of the server.
pub open spec fn tells_capabilities(members: Members) -> bool {
    &&& members.contains_key("result"@)
    &&& members["result"@] matches Json::Object(result)
    &&& result.contains_key("capabilities"@)
}

/// A message with an id under which no request waits reaches nobody and changes nothing.
pub proof fn law_answers_that_nobody_waits_for_are_dropped(
    m: ServerModel,
    text: Seq<char>,
    members: Members,
)
    requires
        members.contains_key("id"@),
        forall|n: u64| #[trigger] m.id_mapping.contains_key(n) ==> members["id"@] != whole(n),
    ensures
        deliveries(m, text, Json::Object(members)) == Map::<ClientId, Seq<char>>::empty(),
        server_step(m, Json::Object(members)) == m,
{
}

/// A message of the server without an id changes nothing. Unless it brings diagnostics, it goes
/// as it is to every client that is no query, and to nobody else.
pub proof fn law_notifications_of_servers_are_for_all_editors(
    m: ServerModel,
    text: Seq<char>,
    members: Members,
    client: ClientId,
)
    requires
        !members.contains_key("id"@),
        !is_method(members, "textDocument/publishDiagnostics"@),
    ensures
        server_step(m, Json::Object(members)) == m,
        deliveries(m, text, Json::Object(members)).contains_key(client) <==> (
        m.clients.contains_key(client) && !m.clients[client].is_fleeting),
        deliveries(m, text, Json::Object(members)).contains_key(client) ==> deliveries(
            m,
            text,
            Json::Object(members),
        )[client] == text,
{
    lemma_methods_differ();
}

/// So does a message of the server that is no object.
pub proof fn law_other_values_of_servers_are_for_all_editors(
    m: ServerModel,
    text: Seq<char>,
    j: Json,
    client: ClientId,
)
    requires
        j !is Object,
    ensures
        server_step(m, j) == m,
        deliveries(m, text, j).contains_key(client) <==> (m.clients.contains_key(client)
            && !m.clients[client].is_fleeting),
        deliveries(m, text, j).contains_key(client) ==> deliveries(m, text, j)[client] == text,
{
    lemma_methods_differ();
}

/// Diagnostics go as they are to every editor that has the document at `params.uri` open,
/// whatever else they hold, and to nobody else; where they name no document, to nobody.
pub proof fn law_diagnostics_are_for_those_who_have_the_document(
    m: ServerModel,
    text: Seq<char>,
    members: Members,
    uri: Seq<char>,
    client: ClientId,
)
    requires
        !members.contains_key("id"@),
        is_method(members, "textDocument/publishDiagnostics"@),
    ensures
        server_step(m, Json::Object(members)) == m,
        diagnoses(members, uri) ==> (deliveries(m, text, Json::Object(members)).contains_key(client)
            <==> (m.clients.contains_key(client) && !m.clients[client].is_fleeting && exists|i: int|
            0 <= i < m.clients[client].open_files.len()
                && #[trigger] m.clients[client].open_files[i] == uri)),
        (forall|u: Seq<char>| !diagnoses(members, u)) ==> deliveries(
            m,
            text,
            Json::Object(members),
        ) == Map::<ClientId, Seq<char>>::empty(),
        deliveries(m, text, Json::Object(members)).contains_key(client) ==> deliveries(
            m,
            text,
            Json::Object(members),
        )[client] == text,
{
    if let Some(u) = diagnosed_of(Json::Object(members)) {
        assert(diagnoses(members, u));
    }
    if forall|u: Seq<char>| !diagnoses(members, u) {
        assert(deliveries(m, text, Json::Object(members)) =~= Map::<ClientId, Seq<char>>::empty());
    }
}

/// A list delivers what is wanted where every client that is to get a text gets it, once, and
/// nobody else gets anything.
pub proof fn law_deliveries_are_complete(
    list: Seq<Delivery>,
    wanted: Map<ClientId, Seq<char>>,
    client: ClientId,
)
    requires
        delivers(list, wanted),
    ensures
        wanted.contains_key(client) <==> exists|i: int|
            0 <= i < list.len() && (#[trigger] list[i]).client == client,
        forall|i: int|
            0 <= i < list.len() && (#[trigger] list[i]).client == client ==> list[i].text@
                == wanted[client],
        forall|i: int, j: int|
            0 <= i < list.len() && 0 <= j < list.len() && (#[trigger] list[i]).client == client && (
            #[trigger] list[j]).client == client ==> i == j,
{
    if wanted.contains_key(client) {
        assert(addresses(list, client));
    }
}

/// The message that tells a server that `uri` is no longer open.
pub open spec fn close_notice(uri: Seq<char>) -> Json {
    Json::Object(
        map![
            "jsonrpc"@ => Json::Str("2.0"@),
            "method"@ => Json::Str("textDocument/didClose"@),
            "params"@ => Json::Object(
                map!["textDocument"@ => Json::Object(map!["uri"@ => Json::Str(uri)])],
            ),
        ],
    )
}

/// For each document that is to be closed there is one message, in order: it has the method that
/// closes documents and names the document by the very text by which it was opened.
pub proof fn law_closing_messages_name_what_was_opened(uris: Seq<Seq<char>>, k: int)
    requires
        0 <= k < uris.len(),
    ensures
        close_messages(uris).len() == uris.len(),
        close_messages(uris)[k] == json_text(close_notice(uris[k])),
        document_of(close_notice(uris[k])) == Some(uris[k]),
        method_of(close_notice(uris[k])) == "textDocument/didClose"@,
{
    let notice = close_notice(uris[k]);
    lemma_notice(uris[k]);
    assert(close_messages(uris)[k] == json_text(did_close(uris[k])));
    assert(did_close(uris[k]) == notice);
}

proof fn lemma_notice(uri: Seq<char>)
    ensures
        document_of(close_notice(uri)) == Some(uri),
        method_of(close_notice(uri)) == "textDocument/didClose"@,
{
    reveal_strlit("jsonrpc");
    reveal_strlit("method");
    reveal_strlit("params");
    assert("method"@.len() == 6 && "params"@.len() == 6 && "jsonrpc"@.len() == 7);
    assert("method"@[0] != "params"@[0]);
}

/// What leaving closes, document by document: a document of the list is released where closing
/// it leaves it open nowhere, and each closing takes one off its count.
pub proof fn law_leaving_closes_one_by_one(
    docs: Map<Seq<char>, usize>,
    files: Seq<Seq<char>>,
    uri: Seq<char>,
)
    ensures
        closed_all(docs, Seq::empty()) == docs,
        released(docs, Seq::empty()) == Seq::<Seq<char>>::empty(),
        ({
            let before = closed_all(docs, files);
            let after = closed_all(docs, files.push(uri));
            &&& after.remove(uri) == before.remove(uri)
            &&& before.contains_key(uri) && before[uri] > 1 ==> after.contains_key(uri)
                && after[uri] == before[uri] - 1
            &&& !(before.contains_key(uri) && before[uri] > 1) ==> !after.contains_key(uri)
            &&& released(docs, files.push(uri)) == if before.contains_key(uri) && before[uri] <= 1 {
                released(docs, files).push(uri)
            } else {
                released(docs, files)
            }
        }),
{
    assert(files.push(uri).drop_last() =~= files);
    let before = closed_all(docs, files);
    let after = closed_all(docs, files.push(uri));
    assert(after.remove(uri) =~= before.remove(uri));
}

/// An editor that leaves is no longer connected, and what it had open is closed for it; the other
/// clients and the requests stay, and the server was used.
pub proof fn law_editors_leave(m: ServerModel, id: ClientId, now: u128)
    ensures
        m.clients.contains_key(id) ==> files_of(m, id) == m.clients[id].open_files,
        !m.clients.contains_key(id) ==> files_of(m, id) == Seq::<Seq<char>>::empty(),
        ({
            let next = without_client(m, id, now);
            &&& next.clients == m.clients.remove(id)
            &&& next.open_documents == closed_all(m.open_documents, files_of(m, id))
            &&& next.last_activity == now
            &&& next.id_mapping == m.id_mapping
            &&& next.next_server_id == m.next_server_id
            &&& next.cached_capabilities == m.cached_capabilities
            &&& next.project_root == m.project_root
            &&& next.language == m.language
        }),
{
}

/// An editor that was the only one to open a document, and leaves, makes the broker close it on
/// the server under the text by which the editor opened it.
pub proof fn law_what_an_editor_opened_is_closed_when_it_leaves(
    m: ServerModel,
    id: ClientId,
    text: Seq<char>,
    members: Members,
    uri: Seq<char>,
)
    requires
        m.clients.contains_key(id),
        !m.open_documents.contains_key(uri),
        !m.clients[id].open_files.contains(uri),
        is_method(members, "textDocument/didOpen"@),
        names(members, uri),
    ensures
        ({
            let opened = editor_step(m, id, text, Json::Object(members)).0;
            close_messages(released(opened.open_documents, files_of(opened, id))).contains(
                json_text(close_notice(uri)),
            ) && !without_client(opened, id, 0).open_documents.contains_key(uri)
        }),
{
    law_opening_a_document(m, id, text, members, uri);
    let opened = editor_step(m, id, text, Json::Object(members)).0;
    let files = m.clients[id].open_files;
    let docs = opened.open_documents;
    lemma_untouched(docs, files, uri);
    law_leaving_closes_one_by_one(docs, files, uri);
    assert(files + seq![uri] =~= files.push(uri));
    let uris = released(docs, files.push(uri));
    assert(uris.last() == uri);
    law_closing_messages_name_what_was_opened(uris, uris.len() - 1);
    assert(close_messages(uris)[uris.len() - 1] == json_text(close_notice(uri)));
}

pub(crate) proof fn lemma_untouched(
    docs: Map<Seq<char>, usize>,
    files: Seq<Seq<char>>,
    uri: Seq<char>,
)
    requires
        !files.contains(uri),
        docs.contains_key(uri),
    ensures
        closed_all(docs, files).contains_key(uri),
        closed_all(docs, files)[uri] == docs[uri],
    decreases files.len(),
{
    if files.len() > 0 {
        assert(!files.drop_last().contains(uri)) by {
            if files.drop_last().contains(uri) {
                let i = choose|i: int|
                    0 <= i < files.drop_last().len() && files.drop_last()[i] == uri;
                assert(files[i] == uri);
            }
        }
        assert(files.contains(files.last()));
        lemma_untouched(docs, files.drop_last(), uri);
        let f = files.last();
        law_leaving_closes_one_by_one(docs, files.drop_last(), f);
        assert(files.drop_last().push(f) =~= files);
        let before = closed_all(docs, files.drop_last());
        let after = closed_all(docs, files);
        assert(before.remove(f).contains_key(uri) && before.remove(f)[uri] == docs[uri]);
        assert(after.remove(f).contains_key(uri) && after.remove(f)[uri] == docs[uri]);
    }
}

/// A server that was just started knows nothing and numbers its requests from one.
pub proof fn law_started_servers_know_nothing(
    project_root: Seq<char>,
    language: Seq<char>,
    now: u128,
)
    ensures
        ({
            let m = started(project_root, language, now);
            &&& m.project_root == project_root
            &&& m.language == language
            &&& m.clients == Map::<ClientId, SessionModel>::empty()
            &&& m.open_documents == Map::<Seq<char>, usize>::empty()
            &&& m.id_mapping == Map::<u64, (ClientId, Json)>::empty()
            &&& m.next_server_id == 1
            &&& m.cached_capabilities is None
            &&& m.last_activity == now
        }),
{
}

/// A client that connects is listed under its number, with nothing open; nothing else changes.
pub proof fn law_clients_connect(m: ServerModel, id: ClientId, is_fleeting: bool)
    ensures
        ({
            let next = with_client(m, id, is_fleeting);
            &&& next.clients.contains_key(id)
            &&& next.clients[id].id == id
            &&& next.clients[id].open_files == Seq::<Seq<char>>::empty()
            &&& next.clients[id].is_fleeting == is_fleeting
            &&& next.clients.remove(id) == m.clients.remove(id)
            &&& next.open_documents == m.open_documents
            &&& next.id_mapping == m.id_mapping
            &&& next.next_server_id == m.next_server_id
            &&& next.cached_capabilities == m.cached_capabilities
            &&& next.project_root == m.project_root
            &&& next.language == m.language
            &&& next.last_activity == m.last_activity
        }),
{
    assert(with_client(m, id, is_fleeting).clients.remove(id) =~= m.clients.remove(id));
}

/// A server may be stopped exactly where no client is connected and more than fifteen minutes
/// have passed since it was last used.
pub proof fn law_idle_servers(m: ServerModel, now: u128)
    ensures
        idle(m, now) <==> m.clients == Map::<ClientId, SessionModel>::empty() && now
            - m.last_activity > 15 * 60 * 1_000_000_000,
        IDLE_LIMIT == 15 * 60 * 1_000_000_000,
        INITIALIZATION_LIMIT == 30 * 1_000_000_000,
        QUERY_LIMIT_SECONDS == 5,
{
    if m.clients.is_empty() {
        assert(m.clients =~= Map::<ClientId, SessionModel>::empty());
    }
}

/// What the broker sends to initialize a server itself: a request under the id zero that names
/// the root of the project as a file URI.
pub proof fn law_initialization_request(root: Seq<char>)
    ensures
        initialize(root) == Json::Object(
            map![
                "jsonrpc"@ => Json::Str("2.0"@),
                "id"@ => whole(0),
                "method"@ => Json::Str("initialize"@),
                "params"@ => Json::Object(
                    map![
                        "processId"@ => Json::Null,
                        "rootUri"@ => Json::Str("file://"@ + root),
                        "capabilities"@ => Json::Object(
                            map![
                                "textDocument"@ => Json::Object(
                                    map![
                                        "definition"@ => Json::Object(
                                            map!["dynamicRegistration"@ => Json::Bool(true)],
                                        ),
                                        "references"@ => Json::Object(
                                            map!["dynamicRegistration"@ => Json::Bool(true)],
                                        ),
                                    ],
                                ),
                            ],
                        ),
                    ],
                ),
            ],
        ),
        initialized() == Json::Object(
            map![
                "jsonrpc"@ => Json::Str("2.0"@),
                "method"@ => Json::Str("initialized"@),
                "params"@ => Json::Object(Map::empty()),
            ],
        ),
{
}

/// What a query does before it is sent: nothing where the capabilities of the server are known;
/// else it asks for its initialization, remembers that under the id zero and for no client, waits
/// for up to thirty seconds, and tells the server once its capabilities are known.
pub proof fn law_queries_prepare_their_server(m: ServerModel, elapsed: u128)
    ensures
        m.cached_capabilities is Some ==> query_step(m, QueryStage::Start, elapsed) == (
            m,
            QueryEffect::Dispatch,
        ) && query_step(m, QueryStage::Initialized, elapsed) == (m, QueryEffect::Dispatch)
            && query_step(m, QueryStage::Initializing, elapsed) == (
            m,
            QueryEffect::Send(json_text(initialized()), QueryStage::Initialized),
        ),
        m.cached_capabilities is None ==> query_step(m, QueryStage::Start, elapsed) == (
            with_initialization(m),
            QueryEffect::Send(json_text(initialize(m.project_root)), QueryStage::Initializing),
        ),
        m.cached_capabilities is None ==> query_step(m, QueryStage::Initializing, elapsed) == (
            m,
            if elapsed > 30 * 1_000_000_000 {
                QueryEffect::TimedOut
            } else {
                QueryEffect::Wait
            },
        ),
        m.cached_capabilities is None ==> query_step(m, QueryStage::Initialized, elapsed)
            == query_step(m, QueryStage::Initializing, elapsed),
        ({
            let next = with_initialization(m);
            &&& next.id_mapping == m.id_mapping.insert(0, (0, whole(0)))
            &&& next.clients == m.clients
            &&& next.open_documents == m.open_documents
            &&& next.next_server_id == m.next_server_id
            &&& next.cached_capabilities == m.cached_capabilities
            &&& next.project_root == m.project_root
            &&& next.language == m.language
            &&& next.last_activity == m.last_activity
        }),
{
}

/// A query connects its client, gets the next id in place of its own, and keeps all its other
/// members; who asked, and under which id, is remembered under the new one.
pub proof fn law_queries_are_renumbered(m: ServerModel, id: ClientId, members: Members)
    requires
        m.next_server_id < u64::MAX,
    ensures
        renumbered(Json::Object(members), m.next_server_id) == Json::Object(
            members.insert("id"@, whole(m.next_server_id)),
        ),
        ({
            let next = with_query(m, id, Json::Object(members));
            &&& next.id_mapping == m.id_mapping.insert(m.next_server_id, (id, given_id(members)))
            &&& next.next_server_id == m.next_server_id + 1
            &&& next.clients.contains_key(id)
            &&& next.clients[id].id == id
            &&& next.clients[id].open_files == Seq::<Seq<char>>::empty()
            &&& next.clients[id].is_fleeting
            &&& next.clients.remove(id) == m.clients.remove(id)
            &&& next.open_documents == m.open_documents
            &&& next.cached_capabilities == m.cached_capabilities
            &&& next.project_root == m.project_root
            &&& next.language == m.language
            &&& next.last_activity == m.last_activity
        }),
{
    assert(with_query(m, id, Json::Object(members)).clients.remove(id) =~= m.clients.remove(id));
}

/// When a query is over its client is no longer connected and the server was used; nothing else
/// changes.
pub proof fn law_queries_end(m: ServerModel, id: ClientId, now: u128)
    ensures
        ({
            let next = after_query(m, id, now);
            &&& next.clients == m.clients.remove(id)
            &&& next.last_activity == now
            &&& next.open_documents == m.open_documents
            &&& next.id_mapping == m.id_mapping
            &&& next.next_server_id == m.next_server_id
            &&& next.cached_capabilities == m.cached_capabilities
            &&& next.project_root == m.project_root
            &&& next.language == m.language
        }),
{
}

/// An answer in place of the server holds the version of the protocol, the id and the result.
pub proof fn law_answers_in_place_of_the_server(id: Json, result: Json)
    ensures
        response(id, result) == Json::Object(
            map!["jsonrpc"@ => Json::Str("2.0"@), "id"@ => id, "result"@ => result],
        ),
{
}

/// What a server holds is what its fields hold.
pub proof fn law_servers_are_what_they_hold(s: ServerInstance, c: ClientId, n: u64)
    ensures
        s@.project_root == s.project_root@,
        s@.language == s.language@,
        s@.clients.contains_key(c) <==> s.clients@.contains_key(c),
        s.clients@.contains_key(c) ==> s@.clients[c] == s.clients@[c]@,
        s@.open_documents == s.open_documents@,
        s@.id_mapping.contains_key(n) <==> s.id_mapping@.contains_key(n),
        s.id_mapping@.contains_key(n) ==> s@.id_mapping[n] == (
            s.id_mapping@[n].0,
            json(s.id_mapping@[n].1),
        ),
        s@.next_server_id == s.next_server_id,
        s.cached_capabilities matches Some(v) ==> s@.cached_capabilities == Some(json(v)),
        s.cached_capabilities is None ==> s@.cached_capabilities is None,
        s@.last_activity == s.last_activity,
{
}

/// What a connection holds is what its fields hold.
pub proof fn law_connections_are_what_they_hold(s: ClientSession, i: int)
    ensures
        s@.id == s.id,
        s@.is_fleeting == s.is_fleeting,
        s@.open_files.len() == s.open_files@.len(),
        0 <= i < s.open_files@.len() ==> s@.open_files[i] == s.open_files@[i]@,
        s@.open_files == texts(s.open_files@),
{
}

/// What an action says is what it holds.
pub proof fn law_actions_are_what_they_hold(text: String, uri: String)
    ensures
        EditorAction::Nothing@ == EditorEffect::Nothing,
        EditorAction::Reply(text)@ == EditorEffect::Reply(text@),
        EditorAction::Forward(text)@ == EditorEffect::Forward(text@),
        (EditorAction::ForwardClose { text, uri })@ == EditorEffect::ForwardClose(text@, uri@),
{
}

} // verus!
