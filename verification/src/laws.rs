//! What holds of a server whatever happens to it.

use crate::editor::{
    editor_step, has_room_for, is_routed, local_answer, other_than, renumbered, with_close,
    with_forgotten, with_open, with_request, without_file, EditorEffect,
};
use crate::json::{
    is_readable, is_readable_member, json_text, lemma_with_member_readable, member_of,
    unsigned_of, Json,
};
use crate::message::{
    diagnosed_of, document_of, id_or_one, initialize, initialized, integer,
    lemma_response_readable, method_of, response,
};
use crate::query::{
    after_query, query_step, with_initialization, with_query, QueryEffect, QueryStage,
};
use crate::server::{answer, capabilities_in, deliveries, server_step};
use crate::session::{
    closed_all, files_of, idle, open_count, released, started, well_formed, with_client,
    without_client, ClientId, ServerModel, SessionModel, IDLE_LIMIT,
};
use vstd::prelude::*;

verus! {

/// Something that happens to a server.
pub enum Event {
    /// The client `id` sends `text`, which reads as `message`, and what is to be sent on is sent.
    Editor { id: ClientId, text: Seq<char>, message: Json },
    /// The server sends a message.
    Server { message: Json },
    /// An editor connects.
    Connect { id: ClientId },
    /// The client `id` leaves.
    Disconnect { id: ClientId, now: u128 },
    /// The initialization of the server is asked for.
    Initialize,
    /// The client `id` connects for a query.
    Ask { id: ClientId, message: Json },
    /// The query of the client `id` is over.
    Answered { id: ClientId, now: u128 },
    /// The server is used.
    Touch { now: u128 },
}

/// `m` after a message of the client `id` was dealt with and what was to be sent was sent.
pub open spec fn settled(m: ServerModel, id: ClientId, text: Seq<char>, j: Json) -> ServerModel {
    let (next, effect) = editor_step(m, id, text, j);
    match effect {
        EditorEffect::ForwardClose(_, uri) => with_forgotten(next, id, uri),
        _ => next,
    }
}

/// Whether `event` can happen to `m`: the counters have room.
pub open spec fn can_happen(m: ServerModel, event: Event) -> bool {
    match event {
        Event::Editor { id, text, message } => has_room_for(m, message),
        Event::Ask { id, message } => m.next_server_id < u64::MAX,
        _ => true,
    }
}

/// `m` after `event`.
pub open spec fn after(m: ServerModel, event: Event) -> ServerModel {
    match event {
        Event::Editor { id, text, message } => settled(m, id, text, message),
        Event::Server { message } => server_step(m, message),
        Event::Connect { id } => with_client(m, id, false),
        Event::Disconnect { id, now } => without_client(m, id, now),
        Event::Initialize => if m.cached_capabilities is None {
            with_initialization(m)
        } else {
            m
        },
        Event::Ask { id, message } => with_query(m, id, message),
        Event::Answered { id, now } => after_query(m, id, now),
        Event::Touch { now } => ServerModel { last_activity: now, ..m },
    }
}

/// `m` after `events`, in order.
pub open spec fn after_all(m: ServerModel, events: Seq<Event>) -> ServerModel
    decreases events.len(),
{
    if events.len() == 0 {
        m
    } else {
        after(after_all(m, events.drop_last()), events.last())
    }
}

/// Whether `events` can happen to `m` one after the other.
pub open spec fn can_all_happen(m: ServerModel, events: Seq<Event>) -> bool
    decreases events.len(),
{
    events.len() == 0 || (can_all_happen(m, events.drop_last()) && can_happen(
        after_all(m, events.drop_last()),
        events.last(),
    ))
}

proof fn lemma_closed_all_positive(docs: Map<Seq<char>, usize>, files: Seq<Seq<char>>)
    requires
        forall|uri: Seq<char>| #[trigger] docs.contains_key(uri) ==> docs[uri] > 0,
    ensures
        forall|uri: Seq<char>| #[trigger]
            closed_all(docs, files).contains_key(uri) ==> closed_all(docs, files)[uri] > 0,
    decreases files.len(),
{
    if files.len() > 0 {
        lemma_closed_all_positive(docs, files.drop_last());
        let before = closed_all(docs, files.drop_last());
        assert forall|uri: Seq<char>| #[trigger]
            closed_all(docs, files).contains_key(uri) implies closed_all(docs, files)[uri] > 0 by {
            assert(before.contains_key(uri));
        }
    }
}

/// Every event keeps what a server keeps.
pub proof fn law_events_keep_servers_well_formed(m: ServerModel, event: Event)
    requires
        well_formed(m),
        can_happen(m, event),
    ensures
        well_formed(after(m, event)),
{
    match event {
        Event::Disconnect { id, now } => {
            lemma_closed_all_positive(m.open_documents, files_of(m, id));
        },
        _ => {},
    }
}

/// Whatever happens to a server after it was started, it is well formed.
pub proof fn law_servers_are_always_well_formed(
    project_root: Seq<char>,
    language: Seq<char>,
    now: u128,
    events: Seq<Event>,
)
    requires
        can_all_happen(started(project_root, language, now), events),
    ensures
        well_formed(after_all(started(project_root, language, now), events)),
    decreases events.len(),
{
    if events.len() > 0 {
        law_servers_are_always_well_formed(project_root, language, now, events.drop_last());
        law_events_keep_servers_well_formed(
            after_all(started(project_root, language, now), events.drop_last()),
            events.last(),
        );
    }
}

/// A request gets an id that no request has that waits for an answer, and leaves those alone.
pub proof fn law_requests_get_fresh_ids(m: ServerModel, id: ClientId, original: Json)
    requires
        well_formed(m),
        m.next_server_id < u64::MAX,
    ensures
        !m.id_mapping.contains_key(m.next_server_id),
        with_request(m, id, original).id_mapping[m.next_server_id] == (id, original),
        forall|n: u64| #[trigger]
            m.id_mapping.contains_key(n) ==> with_request(m, id, original).id_mapping.contains_key(
                n,
            ) && with_request(m, id, original).id_mapping[n] == m.id_mapping[n],
        with_request(m, id, original).next_server_id > m.next_server_id,
{
}

/// Renumbering a request changes its id and nothing else, and giving the id back undoes it.
pub proof fn law_only_the_id_is_rewritten(request: Json, n: u64, key: Seq<char>)
    requires
        request is Object,
    ensures
        member_of(renumbered(request, n), "id"@) == Some(integer(n)),
        key != "id"@ ==> member_of(renumbered(request, n), key) == member_of(request, key),
        member_of(request, "id"@) matches Some(original) ==> answer(
            renumbered(request, n),
            original,
        ) == request,
{
    if let Json::Object(members) = request {
        if members.contains_key("id"@) {
            let original = members["id"@];
            assert(members.insert("id"@, integer(n)).insert("id"@, original) =~= members);
        }
    }
}

/// Whether no value that the server `m` keeps nests too deep to be sent and read.
pub open spec fn keeps_readable(m: ServerModel) -> bool {
    &&& forall|n: u64| #[trigger]
        m.id_mapping.contains_key(n) ==> is_readable_member(m.id_mapping[n].1)
    &&& m.cached_capabilities matches Some(known) ==> is_readable_member(known)
}

/// Whether the message of `event`, if it has one, nests as deep as messages that were read do.
pub open spec fn is_readable_event(event: Event) -> bool {
    match event {
        Event::Editor { id, text, message } => is_readable(message),
        Event::Server { message } => is_readable(message),
        Event::Ask { id, message } => is_readable(message),
        _ => true,
    }
}

/// Whatever is read, a server keeps only values that can be sent and read.
pub proof fn law_servers_keep_what_can_be_read(
    project_root: Seq<char>,
    language: Seq<char>,
    now: u128,
    events: Seq<Event>,
)
    requires
        forall|i: int| 0 <= i < events.len() ==> is_readable_event(#[trigger] events[i]),
    ensures
        keeps_readable(after_all(started(project_root, language, now), events)),
    decreases events.len(),
{
    if events.len() > 0 {
        law_servers_keep_what_can_be_read(project_root, language, now, events.drop_last());
        assert(is_readable_event(events[events.len() - 1]));
    }
}

/// What is sent on for a message that was read nests no deeper than can be read: a request under
/// its new id, an answer under the id of the client, and the capabilities in place of an answer.
pub proof fn law_what_is_sent_can_be_read(
    m: ServerModel,
    id: ClientId,
    message: Json,
    n: u64,
)
    requires
        keeps_readable(m),
        is_readable(message),
    ensures
        is_readable(renumbered(message, n)),
        m.id_mapping.contains_key(n) ==> is_readable(answer(message, m.id_mapping[n].1)),
        local_answer(m, id, message) matches Some(reply) ==> is_readable(reply),
{
    lemma_with_member_readable(message, "id"@, integer(n));
    if m.id_mapping.contains_key(n) {
        lemma_with_member_readable(message, "id"@, m.id_mapping[n].1);
    }
    if let Some(known) = m.cached_capabilities {
        lemma_response_readable(id_or_one(message), known);
    }
}

/// Whether `event` is the answer of the server to the request `n`.
pub open spec fn is_answer_to(event: Event, n: u64) -> bool {
    match event {
        Event::Server { message } => member_of(message, "id"@) is Some && unsigned_of(
            member_of(message, "id"@)->Some_0,
        ) == Some(n),
        _ => false,
    }
}

/// A request waits, with its client and the id that the client gave it, until the server
/// answers it. The id zero is kept for the initialization that the broker asks for itself.
pub proof fn law_requests_wait_for_their_answer(m: ServerModel, events: Seq<Event>, n: u64)
    requires
        well_formed(m),
        can_all_happen(m, events),
        m.id_mapping.contains_key(n),
        n == 0 ==> m.id_mapping[n] == (0usize, integer(0)),
        forall|i: int| 0 <= i < events.len() ==> !is_answer_to(#[trigger] events[i], n),
    ensures
        after_all(m, events).id_mapping.contains_key(n),
        after_all(m, events).id_mapping[n] == m.id_mapping[n],
        well_formed(after_all(m, events)),
    decreases events.len(),
{
    if events.len() > 0 {
        law_requests_wait_for_their_answer(m, events.drop_last(), n);
        let before = after_all(m, events.drop_last());
        assert(!is_answer_to(events[events.len() - 1], n));
        law_events_keep_servers_well_formed(before, events.last());
        assert(before.id_mapping.contains_key(n));
    }
}

/// The answer to a request that waits goes to the client that asked, and to nobody else, under
/// the id that the client gave it; then the request no longer waits.
pub proof fn law_answers_return_to_the_asker(
    m: ServerModel,
    n: u64,
    client: ClientId,
    original: Json,
    text: Seq<char>,
    message: Json,
)
    requires
        m.id_mapping.contains_key(n),
        m.id_mapping[n] == (client, original),
        m.clients.contains_key(client),
        member_of(message, "id"@) == Some(integer(n)),
    ensures
        deliveries(m, text, message) == map![client => json_text(answer(message, original))],
        member_of(answer(message, original), "id"@) == Some(original),
        !server_step(m, message).id_mapping.contains_key(n),
        deliveries(server_step(m, message), text, message) == Map::<ClientId, Seq<char>>::empty(),
{
}

/// Whether `event`, when it happens to `m`, sends the server a request under the id `n`.
pub open spec fn asks_under(m: ServerModel, event: Event, n: u64) -> bool {
    match event {
        Event::Editor { id, text, message } => is_routed(m, message) && m.next_server_id == n,
        Event::Ask { id, message } => m.next_server_id == n,
        Event::Initialize => m.cached_capabilities is None && n == 0,
        _ => false,
    }
}

/// Whether one of `events`, when they happen to `m` one after the other, sends the server a
/// request under the id `n`.
pub open spec fn asked_under(m: ServerModel, events: Seq<Event>, n: u64) -> bool
    decreases events.len(),
{
    events.len() > 0 && (asked_under(m, events.drop_last(), n) || asks_under(
        after_all(m, events.drop_last()),
        events.last(),
        n,
    ))
}

proof fn lemma_no_request_waits(m: ServerModel, events: Seq<Event>, n: u64)
    requires
        !m.id_mapping.contains_key(n),
        !asked_under(m, events, n),
    ensures
        !after_all(m, events).id_mapping.contains_key(n),
    decreases events.len(),
{
    if events.len() > 0 {
        lemma_no_request_waits(m, events.drop_last(), n);
    }
}

/// A request is answered at most once: after an answer, and as long as no request was sent under
/// the same id again, another answer reaches nobody and changes nothing.
pub proof fn law_requests_are_answered_once(
    m: ServerModel,
    n: u64,
    first: Json,
    events: Seq<Event>,
    text: Seq<char>,
    second: Json,
)
    requires
        member_of(first, "id"@) == Some(integer(n)),
        member_of(second, "id"@) == Some(integer(n)),
        !asked_under(server_step(m, first), events, n),
    ensures
        deliveries(after_all(server_step(m, first), events), text, second) == Map::<
            ClientId,
            Seq<char>,
        >::empty(),
        server_step(after_all(server_step(m, first), events), second) == after_all(
            server_step(m, first),
            events,
        ),
{
    lemma_no_request_waits(server_step(m, first), events, n);
}

/// No id is given to a second request, but for zero, which is kept for the initialization that
/// the broker asks for itself.
pub proof fn law_ids_are_not_used_again(m: ServerModel, events: Seq<Event>, n: u64)
    requires
        can_all_happen(m, events),
        0 < n < m.next_server_id,
    ensures
        !asked_under(m, events, n),
        after_all(m, events).next_server_id >= m.next_server_id,
    decreases events.len(),
{
    if events.len() > 0 {
        law_ids_are_not_used_again(m, events.drop_last(), n);
    }
}

/// From request to answer: an editor asks, anything may happen but that the server answers or
/// the editor leaves, and the answer of the server reaches the editor under its own id.
pub proof fn law_editors_get_their_answers(
    m: ServerModel,
    client: ClientId,
    text: Seq<char>,
    request: Json,
    events: Seq<Event>,
    reply_text: Seq<char>,
    reply: Json,
)
    requires
        well_formed(m),
        has_room_for(m, request),
        is_routed(m, request),
        can_all_happen(settled(m, client, text, request), events),
        forall|i: int|
            0 <= i < events.len() ==> !is_answer_to(#[trigger] events[i], m.next_server_id),
        after_all(settled(m, client, text, request), events).clients.contains_key(client),
        member_of(reply, "id"@) == Some(integer(m.next_server_id)),
    ensures
        editor_step(m, client, text, request).1 == EditorEffect::Forward(
            json_text(renumbered(request, m.next_server_id)),
        ),
        deliveries(after_all(settled(m, client, text, request), events), reply_text, reply)
            == map![client => json_text(answer(reply, id_or_one(request)))],
{
    let n = m.next_server_id;
    let asked = settled(m, client, text, request);
    law_events_keep_servers_well_formed(m, Event::Editor { id: client, text, message: request });
    assert(asked == with_request(m, client, id_or_one(request)));
    law_requests_wait_for_their_answer(asked, events, n);
    law_answers_return_to_the_asker(
        after_all(asked, events),
        n,
        client,
        id_or_one(request),
        reply_text,
        reply,
    );
}

/// Once the capabilities of a server are known they never change.
pub proof fn law_capabilities_never_change(m: ServerModel, events: Seq<Event>)
    requires
        m.cached_capabilities is Some,
    ensures
        after_all(m, events).cached_capabilities == m.cached_capabilities,
    decreases events.len(),
{
    if events.len() > 0 {
        law_capabilities_never_change(m, events.drop_last());
    }
}

/// A server whose capabilities are known is not initialized again: every editor that asks gets
/// them in its place, under its own id.
pub proof fn law_servers_are_initialized_once(
    m: ServerModel,
    events: Seq<Event>,
    client: ClientId,
    text: Seq<char>,
    request: Json,
)
    requires
        m.cached_capabilities is Some,
        method_of(request) == "initialize"@,
        after_all(m, events).clients.contains_key(client),
    ensures
        editor_step(after_all(m, events), client, text, request) == (
            after_all(m, events),
            EditorEffect::Reply(
                json_text(response(id_or_one(request), m.cached_capabilities->Some_0)),
            ),
        ),
        after(after_all(m, events), Event::Initialize) == after_all(m, events),
{
    law_capabilities_never_change(m, events);
}

/// The answer to the initialization that the broker asked for itself is kept and goes to no
/// client: no client has the number zero.
pub proof fn law_own_initialization_is_kept(m: ServerModel, text: Seq<char>, message: Json)
    requires
        m.cached_capabilities is None,
        !m.clients.contains_key(0),
        member_of(message, "id"@) == Some(integer(0)),
        capabilities_in(message) is Some,
    ensures
        server_step(with_initialization(m), message).cached_capabilities == member_of(
            message,
            "result"@,
        ),
        deliveries(with_initialization(m), text, message) == Map::<ClientId, Seq<char>>::empty(),
{
}

/// A notification goes, as it is, to every editor and to nobody else; diagnostics go to every
/// editor that has the document open and to nobody else.
pub proof fn law_notifications_go_to_editors(
    m: ServerModel,
    text: Seq<char>,
    message: Json,
    client: ClientId,
)
    requires
        member_of(message, "id"@) is None,
    ensures
        deliveries(m, text, message).contains_key(client) <==> m.clients.contains_key(client)
            && !m.clients[client].is_fleeting && (method_of(message)
            == "textDocument/publishDiagnostics"@ ==> exists|uri: Seq<char>|
            diagnosed_of(message) == Some(uri) && #[trigger] m.clients[client].open_files.contains(
                uri,
            )),
        deliveries(m, text, message).contains_key(client) ==> deliveries(m, text, message)[client]
            == text,
{
}

/// From query to answer: a client asks, anything may happen but that the server answers; while
/// the client is connected the answer reaches it under its own id, and afterwards nobody.
pub proof fn law_queries_get_their_answer(
    m: ServerModel,
    client: ClientId,
    query: Json,
    events: Seq<Event>,
    text: Seq<char>,
    reply: Json,
)
    requires
        well_formed(m),
        m.next_server_id < u64::MAX,
        can_all_happen(with_query(m, client, query), events),
        forall|i: int|
            0 <= i < events.len() ==> !is_answer_to(#[trigger] events[i], m.next_server_id),
        member_of(reply, "id"@) == Some(integer(m.next_server_id)),
    ensures
        deliveries(after_all(with_query(m, client, query), events), text, reply) == if after_all(
            with_query(m, client, query),
            events,
        ).clients.contains_key(client) {
            map![client => json_text(answer(reply, id_or_one(query)))]
        } else {
            Map::empty()
        },
{
    let n = m.next_server_id;
    let asked = with_query(m, client, query);
    law_events_keep_servers_well_formed(m, Event::Ask { id: client, message: query });
    law_requests_wait_for_their_answer(asked, events, n);
    let later = after_all(asked, events);
    if later.clients.contains_key(client) {
        law_answers_return_to_the_asker(later, n, client, id_or_one(query), text, reply);
    }
}

/// What has been done for a query that is not sent yet.
pub struct QueryRun {
    /// The server that is to be asked.
    pub server: ServerModel,
    /// How far the query has got.
    pub stage: QueryStage,
    /// What was sent to the server for the query, in order.
    pub sent: Seq<Seq<char>>,
    /// Whether the query may be sent.
    pub progress: QueryProgress,
}

/// Whether a query may be sent.
pub enum QueryProgress {
    /// Not yet.
    Preparing,
    /// It may.
    Ready,
    /// It may not: the server took too long.
    Failed,
}

/// One turn of a query: what happens to the server before it, and how long the query waits then.
pub struct QueryTurn {
    pub meanwhile: Seq<Event>,
    pub elapsed: u128,
}

/// `run` after one more turn.
pub open spec fn after_turn(run: QueryRun, turn: QueryTurn) -> QueryRun {
    if run.progress is Preparing {
        let (server, effect) = query_step(
            after_all(run.server, turn.meanwhile),
            run.stage,
            turn.elapsed,
        );
        match effect {
            QueryEffect::Send(text, next) => QueryRun {
                server,
                stage: next,
                sent: run.sent.push(text),
                ..run
            },
            QueryEffect::Wait => QueryRun { server, ..run },
            QueryEffect::Dispatch => QueryRun { server, progress: QueryProgress::Ready, ..run },
            QueryEffect::TimedOut => QueryRun { server, progress: QueryProgress::Failed, ..run },
        }
    } else {
        run
    }
}

/// What has been done after `turns` for a query to the server `m`.
pub open spec fn query_run(m: ServerModel, turns: Seq<QueryTurn>) -> QueryRun
    decreases turns.len(),
{
    if turns.len() == 0 {
        QueryRun {
            server: m,
            stage: QueryStage::Start,
            sent: Seq::empty(),
            progress: QueryProgress::Preparing,
        }
    } else {
        after_turn(query_run(m, turns.drop_last()), turns.last())
    }
}

/// Whether the capabilities of the server `m` were known at the first of `turns`.
pub open spec fn known_at_first(m: ServerModel, turns: Seq<QueryTurn>) -> bool {
    turns.len() > 0 && after_all(m, turns[0].meanwhile).cached_capabilities is Some
}

proof fn lemma_root_stays(m: ServerModel, events: Seq<Event>)
    ensures
        after_all(m, events).project_root == m.project_root,
    decreases events.len(),
{
    if events.len() > 0 {
        lemma_root_stays(m, events.drop_last());
    }
}

proof fn lemma_query_run(m: ServerModel, turns: Seq<QueryTurn>)
    requires
        turns.len() > 0,
    ensures
        ({
            let run = query_run(m, turns);
            let first = json_text(initialize(m.project_root));
            let second = json_text(initialized());
            &&& run.server.project_root == m.project_root
            &&& if known_at_first(m, turns) {
                run.progress is Ready && run.sent == Seq::<Seq<char>>::empty()
                    && run.server.cached_capabilities is Some
            } else {
                ||| run.stage is Initializing && run.sent == seq![first] && run.progress !is Ready
                    && (run.progress is Failed ==> run.server.cached_capabilities is None)
                ||| run.stage is Initialized && run.sent == seq![first, second] && run.progress
                    !is Failed && run.server.cached_capabilities is Some
            }
        }),
    decreases turns.len(),
{
    let before = query_run(m, turns.drop_last());
    let turn = turns.last();
    let first = json_text(initialize(m.project_root));
    let second = json_text(initialized());
    lemma_root_stays(before.server, turn.meanwhile);
    assert(Seq::<Seq<char>>::empty().push(first) =~= seq![first]);
    assert(seq![first].push(second) =~= seq![first, second]);
    if turns.len() > 1 {
        assert(turns.drop_last()[0] == turns[0]);
        lemma_query_run(m, turns.drop_last());
        if before.server.cached_capabilities is Some {
            law_capabilities_never_change(before.server, turn.meanwhile);
        }
    }
}

/// What the server gets for a query that is sent, in order: the query alone where the
/// capabilities of the server were known; else the request that initializes it, then the message
/// that ends the initialization, and then the query. Whatever happens between the last turn and
/// the moment when the query is sent, the capabilities are known at that moment.
pub proof fn law_queries_are_sent_in_order(
    m: ServerModel,
    turns: Seq<QueryTurn>,
    meanwhile: Seq<Event>,
    query: Json,
)
    requires
        query_run(m, turns).progress is Ready,
    ensures
        after_all(query_run(m, turns).server, meanwhile).cached_capabilities is Some,
        query_run(m, turns).sent.push(
            json_text(
                renumbered(
                    query,
                    after_all(query_run(m, turns).server, meanwhile).next_server_id,
                ),
            ),
        ) == if known_at_first(m, turns) {
            seq![
                json_text(
                    renumbered(
                        query,
                        after_all(query_run(m, turns).server, meanwhile).next_server_id,
                    ),
                ),
            ]
        } else {
            seq![
                json_text(initialize(m.project_root)),
                json_text(initialized()),
                json_text(
                    renumbered(
                        query,
                        after_all(query_run(m, turns).server, meanwhile).next_server_id,
                    ),
                ),
            ]
        },
{
    lemma_query_run(m, turns);
    law_capabilities_never_change(query_run(m, turns).server, meanwhile);
}

/// A server is told that its initialization has ended only once its capabilities are known. A
/// query whose server took too long was preceded by the request for its initialization alone.
pub proof fn law_initialization_ends_with_capabilities(m: ServerModel, turns: Seq<QueryTurn>)
    ensures
        query_run(m, turns).sent.is_prefix_of(
            seq![json_text(initialize(m.project_root)), json_text(initialized())],
        ),
        query_run(m, turns).sent.len() == 2 ==> query_run(
            m,
            turns,
        ).server.cached_capabilities is Some,
        query_run(m, turns).progress is Failed ==> query_run(m, turns).sent.len() == 1
            && query_run(m, turns).server.cached_capabilities is None,
{
    if turns.len() > 0 {
        lemma_query_run(m, turns);
    }
}

/// Once the capabilities of a server are known, a query that did not fail before may be sent
/// after two more turns, however long it has waited.
pub proof fn law_known_servers_get_the_query(run: QueryRun, turn: QueryTurn, next: QueryTurn)
    requires
        run.progress !is Failed,
        after_all(run.server, turn.meanwhile).cached_capabilities is Some,
    ensures
        after_turn(after_turn(run, turn), next).progress is Ready,
{
    law_capabilities_never_change(after_all(run.server, turn.meanwhile), next.meanwhile);
}

/// A query that is over, whether it was answered or could not even be sent, leaves no client
/// behind: the clients and the open documents are those of before, so that a server without other
/// clients is idle when fifteen minutes have passed.
pub proof fn law_queries_leave_no_client(
    m: ServerModel,
    client: ClientId,
    query: Json,
    now: u128,
    later: u128,
)
    requires
        !m.clients.contains_key(client),
    ensures
        after_query(with_query(m, client, query), client, now).clients == m.clients,
        after_query(with_query(m, client, query), client, now).open_documents == m.open_documents,
        idle(after_query(with_query(m, client, query), client, now), later)
            <==> m.clients.is_empty() && later > now + IDLE_LIMIT,
{
    assert(after_query(with_query(m, client, query), client, now).clients =~= m.clients);
}

/// A server is not idle while a client is connected, nor until fifteen minutes after its last
/// use.
pub proof fn law_servers_in_use_are_not_idle(m: ServerModel, client: ClientId, now: u128)
    requires
        m.clients.contains_key(client) || now <= m.last_activity + IDLE_LIMIT,
    ensures
        !idle(m, now),
{
}

/// How often `uri` is among `files`.
pub open spec fn occurrences(files: Seq<Seq<char>>, uri: Seq<char>) -> nat
    decreases files.len(),
{
    if files.len() == 0 {
        0
    } else {
        occurrences(files.drop_last(), uri) + if files.last() == uri {
            1nat
        } else {
            0
        }
    }
}

/// How often the client `c` has `uri` open.
pub open spec fn held_by(
    clients: Map<ClientId, SessionModel>,
    uri: Seq<char>,
    c: ClientId,
) -> nat {
    if clients.contains_key(c) {
        occurrences(clients[c].open_files, uri)
    } else {
        0
    }
}

/// How often the clients with numbers below `n` have `uri` open, all together.
pub open spec fn held_below(
    clients: Map<ClientId, SessionModel>,
    uri: Seq<char>,
    n: nat,
) -> nat
    decreases n,
{
    if n == 0 {
        0
    } else {
        held_below(clients, uri, (n - 1) as nat) + held_by(clients, uri, (n - 1) as usize)
    }
}

/// How often `uri` is open, counted over all clients.
pub open spec fn held(m: ServerModel, uri: Seq<char>) -> nat {
    held_below(m.clients, uri, usize::MAX as nat + 1)
}

/// Whether the count of every document is right: it says how often the clients have it open.
pub open spec fn balanced(m: ServerModel) -> bool {
    forall|uri: Seq<char>| #[trigger] held(m, uri) == open_count(m, uri)
}

proof fn lemma_held_update(
    a: Map<ClientId, SessionModel>,
    b: Map<ClientId, SessionModel>,
    uri: Seq<char>,
    c: ClientId,
    n: nat,
)
    requires
        n <= usize::MAX + 1,
        forall|k: ClientId| k != c ==> held_by(a, uri, k) == #[trigger] held_by(b, uri, k),
    ensures
        c < n ==> held_below(b, uri, n) == held_below(a, uri, n) - held_by(a, uri, c) + held_by(
            b,
            uri,
            c,
        ),
        c < n ==> held_by(a, uri, c) <= held_below(a, uri, n),
        c >= n ==> held_below(b, uri, n) == held_below(a, uri, n),
    decreases n,
{
    if n > 0 {
        lemma_held_update(a, b, uri, c, (n - 1) as nat);
        let k = (n - 1) as usize;
        assert(k != c ==> held_by(a, uri, k) == held_by(b, uri, k));
    }
}

proof fn lemma_held_two(
    clients: Map<ClientId, SessionModel>,
    uri: Seq<char>,
    c: ClientId,
    d: ClientId,
    n: nat,
)
    requires
        c != d,
        n <= usize::MAX + 1,
    ensures
        c < n && d < n ==> held_by(clients, uri, c) + held_by(clients, uri, d) <= held_below(
            clients,
            uri,
            n,
        ),
        c < n ==> held_by(clients, uri, c) <= held_below(clients, uri, n),
        d < n ==> held_by(clients, uri, d) <= held_below(clients, uri, n),
    decreases n,
{
    if n > 0 {
        lemma_held_two(clients, uri, c, d, (n - 1) as nat);
    }
}

proof fn lemma_held_alone(
    clients: Map<ClientId, SessionModel>,
    uri: Seq<char>,
    c: ClientId,
    n: nat,
)
    requires
        n <= usize::MAX + 1,
        forall|d: ClientId| d != c ==> #[trigger] held_by(clients, uri, d) == 0,
    ensures
        held_below(clients, uri, n) == if c < n {
            held_by(clients, uri, c)
        } else {
            0
        },
    decreases n,
{
    if n > 0 {
        lemma_held_alone(clients, uri, c, (n - 1) as nat);
        let k = (n - 1) as usize;
        assert(k != c ==> held_by(clients, uri, k) == 0);
    }
}

proof fn lemma_without_file(files: Seq<Seq<char>>, uri: Seq<char>, other: Seq<char>)
    ensures
        occurrences(without_file(files, uri), other) == if other == uri {
            0
        } else {
            occurrences(files, other)
        },
    decreases files.len(),
{
    reveal(Seq::filter);
    let keep = other_than(uri);
    if files.len() > 0 {
        lemma_without_file(files.drop_last(), uri, other);
        let shorter = files.drop_last().filter(keep);
        if files.last() != uri {
            assert(files.filter(keep) == shorter.push(files.last()));
            assert(shorter.push(files.last()).drop_last() =~= shorter);
        } else {
            assert(files.filter(keep) == shorter);
        }
    }
}

proof fn lemma_closed_all_counts(
    docs: Map<Seq<char>, usize>,
    files: Seq<Seq<char>>,
    uri: Seq<char>,
)
    requires
        occurrences(files, uri) <= (if docs.contains_key(uri) {
            docs[uri] as nat
        } else {
            0
        }),
    ensures
        ({
            let left = closed_all(docs, files);
            (if left.contains_key(uri) {
                left[uri] as nat
            } else {
                0
            }) == (if docs.contains_key(uri) {
                docs[uri] as nat
            } else {
                0
            }) - occurrences(files, uri)
        }),
    decreases files.len(),
{
    if files.len() > 0 {
        lemma_closed_all_counts(docs, files.drop_last(), uri);
    }
}

/// A server that was just started is balanced.
pub proof fn law_started_servers_are_balanced(
    project_root: Seq<char>,
    language: Seq<char>,
    now: u128,
)
    ensures
        balanced(started(project_root, language, now)),
{
    let m = started(project_root, language, now);
    assert forall|uri: Seq<char>| #[trigger] held(m, uri) == open_count(m, uri) by {
        lemma_held_alone(m.clients, uri, 0, usize::MAX as nat + 1);
    }
}

/// A client that connects keeps a server balanced, unless it takes the number of one that has
/// documents open.
pub proof fn law_connecting_keeps_balance(m: ServerModel, id: ClientId, is_fleeting: bool)
    requires
        balanced(m),
        files_of(m, id).len() == 0,
    ensures
        balanced(with_client(m, id, is_fleeting)),
{
    let next = with_client(m, id, is_fleeting);
    assert forall|uri: Seq<char>| #[trigger] held(next, uri) == open_count(next, uri) by {
        assert(held(m, uri) == open_count(m, uri));
        lemma_held_update(m.clients, next.clients, uri, id, usize::MAX as nat + 1);
    }
}

/// Opening a document keeps a server balanced.
pub proof fn law_opening_keeps_balance(m: ServerModel, id: ClientId, uri: Seq<char>)
    requires
        balanced(m),
        m.clients.contains_key(id),
        open_count(m, uri) < usize::MAX,
    ensures
        balanced(with_open(m, id, uri)),
{
    let next = with_open(m, id, uri);
    let files = m.clients[id].open_files;
    assert(files.push(uri).drop_last() =~= files);
    assert forall|u: Seq<char>| #[trigger] held(next, u) == open_count(next, u) by {
        assert(held(m, u) == open_count(m, u));
        lemma_held_update(m.clients, next.clients, u, id, usize::MAX as nat + 1);
    }
}

/// Closing a document keeps a server balanced where the client has it open once, or where
/// nobody has it open. A client that opened it twice gives up both at once, and one that never
/// opened it takes it from another: then the count is off.
pub proof fn law_closing_keeps_balance(m: ServerModel, id: ClientId, uri: Seq<char>)
    requires
        balanced(m),
        held_by(m.clients, uri, id) == 1 || open_count(m, uri) == 0,
    ensures
        balanced(with_forgotten(with_close(m, uri), id, uri)),
{
    let next = with_forgotten(with_close(m, uri), id, uri);
    assert forall|u: Seq<char>| #[trigger] held(next, u) == open_count(next, u) by {
        assert(held(m, u) == open_count(m, u));
        if m.clients.contains_key(id) {
            lemma_without_file(m.clients[id].open_files, uri, u);
        }
        lemma_held_update(m.clients, next.clients, u, id, usize::MAX as nat + 1);
    }
}

/// A client that leaves gives up exactly what it had open: the server stays balanced, and how
/// often the others have each document open is what its count says.
pub proof fn law_leaving_keeps_balance(m: ServerModel, id: ClientId, now: u128)
    requires
        balanced(m),
    ensures
        balanced(without_client(m, id, now)),
        forall|uri: Seq<char>| #[trigger]
            open_count(without_client(m, id, now), uri) == open_count(m, uri) - held_by(
                m.clients,
                uri,
                id,
            ),
{
    let next = without_client(m, id, now);
    let files = files_of(m, id);
    assert forall|uri: Seq<char>| #[trigger]
        open_count(next, uri) == open_count(m, uri) - held_by(m.clients, uri, id) by {
        assert(held(m, uri) == open_count(m, uri));
        lemma_held_update(m.clients, next.clients, uri, id, usize::MAX as nat + 1);
        assert(held_by(m.clients, uri, id) == occurrences(files, uri));
        lemma_closed_all_counts(m.open_documents, files, uri);
    }
    assert forall|uri: Seq<char>| #[trigger] held(next, uri) == open_count(next, uri) by {
        assert(held(m, uri) == open_count(m, uri));
        lemma_held_update(m.clients, next.clients, uri, id, usize::MAX as nat + 1);
    }
}

proof fn lemma_released(docs: Map<Seq<char>, usize>, files: Seq<Seq<char>>, uri: Seq<char>)
    requires
        docs.contains_key(uri) ==> docs[uri] > 0,
    ensures
        ({
            let left = closed_all(docs, files);
            let count = if docs.contains_key(uri) {
                docs[uri] as int
            } else {
                0
            };
            let closed = occurrences(files, uri);
            &&& left.contains_key(uri) <==> closed < count
            &&& left.contains_key(uri) ==> left[uri] == count - closed
            &&& occurrences(released(docs, files), uri) == if 0 < count <= closed {
                1nat
            } else {
                0
            }
        }),
    decreases files.len(),
{
    if files.len() > 0 {
        lemma_released(docs, files.drop_last(), uri);
        let earlier = released(docs, files.drop_last());
        assert(earlier.push(files.last()).drop_last() =~= earlier);
    }
}

/// A client that leaves closes on the server, each once, the documents that it had open and that
/// nobody else has open.
pub proof fn law_leaving_closes_what_nobody_else_has_open(
    m: ServerModel,
    id: ClientId,
    uri: Seq<char>,
)
    requires
        well_formed(m),
        balanced(m),
    ensures
        occurrences(released(m.open_documents, files_of(m, id)), uri) == if held_by(
            m.clients,
            uri,
            id,
        ) > 0 && forall|c: ClientId| c != id ==> #[trigger] held_by(m.clients, uri, c) == 0 {
            1nat
        } else {
            0
        },
{
    assert(held(m, uri) == open_count(m, uri));
    lemma_released(m.open_documents, files_of(m, id), uri);
    assert(held_by(m.clients, uri, id) == occurrences(files_of(m, id), uri));
    if forall|c: ClientId| c != id ==> #[trigger] held_by(m.clients, uri, c) == 0 {
        lemma_held_alone(m.clients, uri, id, usize::MAX as nat + 1);
    } else {
        let c = choose|c: ClientId| c != id && #[trigger] held_by(m.clients, uri, c) != 0;
        lemma_held_two(m.clients, uri, id, c, usize::MAX as nat + 1);
    }
}

/// Whether `event` can happen to `m` and keeps to the rules of the protocol: no client connects
/// under the number of one that has documents open, a client opens documents while it is
/// connected, closes what it has open once or what nobody has open, and a query opens nothing.
pub open spec fn is_orderly(m: ServerModel, event: Event) -> bool {
    &&& can_happen(m, event)
    &&& match event {
        Event::Connect { id } => files_of(m, id).len() == 0,
        Event::Ask { id, message } => files_of(m, id).len() == 0,
        Event::Answered { id, now } => files_of(m, id).len() == 0,
        Event::Editor { id, text, message } => match document_of(message) {
            Some(uri) => {
                &&& method_of(message) == "textDocument/didOpen"@ ==> m.clients.contains_key(id)
                &&& method_of(message) == "textDocument/didClose"@ ==> held_by(m.clients, uri, id)
                    == 1 || open_count(m, uri) == 0
            },
            None => true,
        },
        _ => true,
    }
}

/// Whether `events` happen to `m` one after the other and each keeps to the rules.
pub open spec fn are_orderly(m: ServerModel, events: Seq<Event>) -> bool
    decreases events.len(),
{
    events.len() == 0 || (are_orderly(m, events.drop_last()) && is_orderly(
        after_all(m, events.drop_last()),
        events.last(),
    ))
}

proof fn lemma_same_documents_balanced(m: ServerModel, next: ServerModel)
    requires
        balanced(m),
        next.clients == m.clients,
        next.open_documents == m.open_documents,
    ensures
        balanced(next),
{
    assert forall|uri: Seq<char>| #[trigger] held(next, uri) == open_count(next, uri) by {
        assert(held(m, uri) == open_count(m, uri));
    }
}

/// An event that keeps to the rules keeps a server balanced.
pub proof fn law_orderly_events_keep_balance(m: ServerModel, event: Event)
    requires
        balanced(m),
        is_orderly(m, event),
    ensures
        balanced(after(m, event)),
{
    let next = after(m, event);
    match event {
        Event::Editor { id, text, message } => {
            let method = method_of(message);
            let uri = document_of(message);
            reveal_strlit("initialize");
            reveal_strlit("initialized");
            reveal_strlit("textDocument/didOpen");
            reveal_strlit("textDocument/didClose");
            assert("initialize"@.len() != "textDocument/didOpen"@.len());
            assert("initialized"@.len() != "textDocument/didOpen"@.len());
            assert("initialize"@.len() != "textDocument/didClose"@.len());
            assert("initialized"@.len() != "textDocument/didClose"@.len());
            assert("textDocument/didOpen"@.len() != "textDocument/didClose"@.len());
            if method == "textDocument/didOpen"@ && uri is Some {
                law_opening_keeps_balance(m, id, uri->Some_0);
                assert(next == with_open(m, id, uri->Some_0));
            } else if method == "textDocument/didClose"@ && uri is Some {
                law_closing_keeps_balance(m, id, uri->Some_0);
                assert(next == with_forgotten(with_close(m, uri->Some_0), id, uri->Some_0));
            } else {
                lemma_same_documents_balanced(m, next);
            }
        },
        Event::Connect { id } => {
            law_connecting_keeps_balance(m, id, false);
        },
        Event::Disconnect { id, now } => {
            law_leaving_keeps_balance(m, id, now);
        },
        Event::Ask { id, message } => {
            law_connecting_keeps_balance(m, id, true);
            lemma_same_documents_balanced(with_client(m, id, true), next);
        },
        Event::Answered { id, now } => {
            law_leaving_keeps_balance(m, id, now);
            assert(closed_all(m.open_documents, files_of(m, id)) == m.open_documents);
            lemma_same_documents_balanced(without_client(m, id, now), next);
        },
        _ => {
            lemma_same_documents_balanced(m, next);
        },
    }
}

/// Whatever happens to a server after it was started, as long as it keeps to the rules, the
/// count of every document is right.
pub proof fn law_orderly_servers_are_always_balanced(
    project_root: Seq<char>,
    language: Seq<char>,
    now: u128,
    events: Seq<Event>,
)
    requires
        are_orderly(started(project_root, language, now), events),
    ensures
        balanced(after_all(started(project_root, language, now), events)),
    decreases events.len(),
{
    if events.len() == 0 {
        law_started_servers_are_balanced(project_root, language, now);
    } else {
        law_orderly_servers_are_always_balanced(project_root, language, now, events.drop_last());
        law_orderly_events_keep_balance(
            after_all(started(project_root, language, now), events.drop_last()),
            events.last(),
        );
    }
}

/// A document that a client has open is open on the server.
pub proof fn law_held_documents_are_open(m: ServerModel, id: ClientId, uri: Seq<char>)
    requires
        balanced(m),
        held_by(m.clients, uri, id) > 0,
    ensures
        open_count(m, uri) > 0,
{
    assert(held(m, uri) == open_count(m, uri));
    lemma_held_update(m.clients, m.clients, uri, id, usize::MAX as nat + 1);
}

/// When the last client has left, no document is open.
pub proof fn law_nothing_is_open_without_clients(m: ServerModel, uri: Seq<char>)
    requires
        well_formed(m),
        balanced(m),
        m.clients.is_empty(),
    ensures
        !m.open_documents.contains_key(uri),
{
    assert(held(m, uri) == open_count(m, uri));
    lemma_held_alone(m.clients, uri, 0, usize::MAX as nat + 1);
}

/// The first client to open a document opens it on the server, and only the first.
pub proof fn law_the_first_to_open_is_forwarded(
    m: ServerModel,
    id: ClientId,
    text: Seq<char>,
    message: Json,
    uri: Seq<char>,
)
    requires
        balanced(m),
        method_of(message) == "textDocument/didOpen"@,
        document_of(message) == Some(uri),
    ensures
        editor_step(m, id, text, message).1 == if forall|c: ClientId| #[trigger]
            held_by(m.clients, uri, c) == 0 {
            EditorEffect::Forward(text)
        } else {
            EditorEffect::Nothing
        },
{
    reveal_strlit("initialize");
    reveal_strlit("initialized");
    reveal_strlit("textDocument/didOpen");
    assert("initialize"@.len() != "textDocument/didOpen"@.len());
    assert("initialized"@.len() != "textDocument/didOpen"@.len());
    assert(held(m, uri) == open_count(m, uri));
    if forall|c: ClientId| #[trigger] held_by(m.clients, uri, c) == 0 {
        lemma_held_alone(m.clients, uri, 0, usize::MAX as nat + 1);
    } else {
        let c = choose|c: ClientId| #[trigger] held_by(m.clients, uri, c) != 0;
        law_held_documents_are_open(m, c, uri);
    }
}

/// The last client to close a document closes it on the server, and only the last.
pub proof fn law_the_last_to_close_is_forwarded(
    m: ServerModel,
    id: ClientId,
    text: Seq<char>,
    message: Json,
    uri: Seq<char>,
)
    requires
        balanced(m),
        method_of(message) == "textDocument/didClose"@,
        document_of(message) == Some(uri),
        held_by(m.clients, uri, id) == 1,
    ensures
        editor_step(m, id, text, message).1 == if forall|c: ClientId|
            c != id ==> #[trigger] held_by(m.clients, uri, c) == 0 {
            EditorEffect::ForwardClose(text, uri)
        } else {
            EditorEffect::Nothing
        },
{
    reveal_strlit("initialize");
    reveal_strlit("initialized");
    reveal_strlit("textDocument/didOpen");
    reveal_strlit("textDocument/didClose");
    assert("initialize"@.len() != "textDocument/didClose"@.len());
    assert("initialized"@.len() != "textDocument/didClose"@.len());
    assert("textDocument/didOpen"@.len() != "textDocument/didClose"@.len());
    assert(held(m, uri) == open_count(m, uri));
    law_held_documents_are_open(m, id, uri);
    if forall|c: ClientId| c != id ==> #[trigger] held_by(m.clients, uri, c) == 0 {
        lemma_held_alone(m.clients, uri, id, usize::MAX as nat + 1);
    } else {
        let c = choose|c: ClientId| c != id && #[trigger] held_by(m.clients, uri, c) != 0;
        lemma_held_two(m.clients, uri, id, c, usize::MAX as nat + 1);
    }
}

} // verus!
