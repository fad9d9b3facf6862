//! Single questions: a client that asks one, gets the answer and leaves.

use crate::config::{Config, ConfigModel};
use crate::editor::{renumbered, with_request};
use crate::error::BrokerError;
use crate::json::{
    copy_json, is_readable, json, json_parse, json_text, member, parse_json, reads_back,
    unsigned_json, write_json, Json,
};
use crate::message::{
    document, document_of, id_or_one, initialize, initialized, integer, make_initialize,
    make_initialized,
};
use crate::path::{extension, extension_of};
use crate::session::{with_client, ClientId, ServerInstance, ServerModel};
use crate::text::str_view;
use crate::workspace::{detect_shebang_language, file_of, file_path, shebang_language};
use vstd::prelude::*;

verus! {

broadcast use vstd::std_specs::hash::group_hash_axioms;

/// How long a server may take to initialize, in nanoseconds: thirty seconds.
pub const INITIALIZATION_LIMIT: u128 = 30_000_000_000;

/// How long a server may take to answer a query, in seconds.
pub const QUERY_LIMIT_SECONDS: u64 = 5;

/// A question about a file.
pub struct Query {
    /// The question.
    pub message: serde_json::Value,
    /// The file that it is about.
    pub path: String,
}

/// Reads a question.
pub fn read_query(text: &str) -> (r: Result<Query, BrokerError>)
    ensures
        match json_parse(text@) {
            None => r is Err && r->Err_0 == BrokerError::InvalidJson,
            Some(j) => match document_of(j) {
                None => r is Err && r->Err_0 == BrokerError::MissingUri,
                Some(uri) => r is Ok && json(r->Ok_0.message) == j && is_readable(j)
                    && r->Ok_0.path@ == file_of(uri),
            },
        },
{
    match parse_json(text) {
        Ok(message) => {
            let path = match document(&message) {
                Some(uri) => file_path(uri),
                None => {
                    return Err(BrokerError::MissingUri);
                },
            };
            Ok(Query { message, path })
        },
        Err(_) => Err(BrokerError::InvalidJson),
    }
}

/// The language that `config` assigns to files with the extension of `path`.
pub open spec fn configured_language(config: ConfigModel, path: Seq<char>) -> Option<Seq<char>> {
    let ext = match extension_of(path) {
        Some(e) => e,
        None => ""@,
    };
    if config.languages.contains_key(ext) {
        Some(config.languages[ext])
    } else {
        None
    }
}

/// The language of the file `path`, of which `first_line` could be read: by its extension, or
/// else by its first line.
pub open spec fn language_of(
    config: ConfigModel,
    path: Seq<char>,
    first_line: Option<Seq<char>>,
) -> Option<Seq<char>> {
    match configured_language(config, path) {
        Some(language) => Some(language),
        None => match first_line {
            Some(line) => shebang_language(line),
            None => None,
        },
    }
}

/// The language of a file is the one that is configured for its extension, the empty one where
/// it has none; only where that is not configured does the first line tell it, if it could be
/// read.
pub proof fn law_languages(
    config: ConfigModel,
    path: Seq<char>,
    ext: Seq<char>,
    first_line: Option<Seq<char>>,
)
    requires
        extension_of(path) == Some(ext) || extension_of(path) is None && ext.len() == 0,
    ensures
        config.languages.contains_key(ext) ==> language_of(config, path, first_line) == Some(
            config.languages[ext],
        ) && configured_language(config, path) == Some(config.languages[ext]),
        !config.languages.contains_key(ext) ==> configured_language(config, path) is None,
        !config.languages.contains_key(ext) ==> (first_line matches Some(line) ==> language_of(
            config,
            path,
            first_line,
        ) == shebang_language(line)),
        !config.languages.contains_key(ext) && first_line is None ==> language_of(
            config,
            path,
            first_line,
        ) is None,
{
    reveal_strlit("");
    assert(ext.len() == 0 ==> ext =~= ""@);
}

impl Config {
    /// The language of files with the extension of `path`.
    pub fn language_by_extension(&self, path: &str) -> (r: Option<String>)
        ensures
            match r {
                Some(language) => configured_language(self@, path@) == Some(language@),
                None => configured_language(self@, path@) is None,
            },
    {
        let ext = match extension(path) {
            Some(e) => e,
            None => "".to_owned(),
        };
        match self.languages.get(ext.as_str()) {
            Some(language) => Some(language.clone()),
            None => None,
        }
    }

    /// The language of the file `path`, of which `first_line` could be read.
    pub fn detect_language(&self, path: &str, first_line: Option<&str>) -> (r: Result<
        String,
        BrokerError,
    >)
        ensures
            match language_of(self@, path@, str_view(first_line)) {
                Some(language) => r is Ok && r->Ok_0@ == language,
                None => r is Err && r->Err_0 == BrokerError::UnknownLanguage,
            },
    {
        if let Some(language) = self.language_by_extension(path) {
            return Ok(language);
        }
        if let Some(line) = first_line {
            if let Some(language) = detect_shebang_language(line) {
                return Ok(language);
            }
        }
        Err(BrokerError::UnknownLanguage)
    }
}

/// What comes next in the initialization of a server.
pub enum InitializationStep {
    /// The server has answered: send this text to it.
    Ready(String),
    /// The server has not answered in time.
    TimedOut,
    /// Wait.
    Wait,
}

/// How far a query has got before it is sent.
#[derive(Debug, Clone, Copy, PartialEq, Eq, Structural)]
pub enum QueryStage {
    /// Nothing has been sent to the server.
    Start,
    /// The initialization of the server was asked for.
    Initializing,
    /// The server was told that its initialization has ended.
    Initialized,
}

/// What comes next for a query.
pub enum QueryAction {
    /// Send `text` to the server; then the query has got to `next`.
    Send { text: String, next: QueryStage },
    /// Wait.
    Wait,
    /// Send the query.
    Dispatch,
}

/// What comes next for a query: as [`QueryAction`] says, or that the server took too long.
pub enum QueryEffect {
    Send(Seq<char>, QueryStage),
    Wait,
    Dispatch,
    TimedOut,
}

/// What becomes of `m`, and what comes next, for a query that has got to `stage` and waits since
/// `elapsed` nanoseconds: a server whose capabilities are not known is initialized first.
pub open spec fn query_step(m: ServerModel, stage: QueryStage, elapsed: u128) -> (
    ServerModel,
    QueryEffect,
) {
    if m.cached_capabilities is Some {
        if stage is Initializing {
            (m, QueryEffect::Send(json_text(initialized()), QueryStage::Initialized))
        } else {
            (m, QueryEffect::Dispatch)
        }
    } else if stage is Start {
        (
            with_initialization(m),
            QueryEffect::Send(json_text(initialize(m.project_root)), QueryStage::Initializing),
        )
    } else if elapsed > INITIALIZATION_LIMIT {
        (m, QueryEffect::TimedOut)
    } else {
        (m, QueryEffect::Wait)
    }
}

/// `m` after its initialization was asked for, under the id zero and for no client.
pub open spec fn with_initialization(m: ServerModel) -> ServerModel {
    ServerModel { id_mapping: m.id_mapping.insert(0, (0, integer(0))), ..m }
}

/// `m` after the query of the client `id` was given the next id.
pub open spec fn with_query(m: ServerModel, id: ClientId, j: Json) -> ServerModel {
    with_request(with_client(m, id, true), id, id_or_one(j))
}

/// `m` after the query of the client `id` ended at the time `now`.
pub open spec fn after_query(m: ServerModel, id: ClientId, now: u128) -> ServerModel {
    ServerModel { clients: m.clients.remove(id), last_activity: now, ..m }
}

impl ServerInstance {
    /// Asks for the initialization of a server whose capabilities are not known. Returns the
    /// text for the server.
    pub fn begin_initialization(&mut self) -> (r: Option<String>)
        ensures
            match old(self)@.cached_capabilities {
                Some(_) => r is None && final(self)@ == old(self)@,
                None => r is Some && r->Some_0@ == json_text(initialize(old(self)@.project_root))
                    && final(self)@ == with_initialization(old(self)@),
            },
    {
        if self.cached_capabilities.is_some() {
            return None;
        }
        self.id_mapping.insert(0, (0, unsigned_json(0)));
        assert(self@.id_mapping =~= with_initialization(old(self)@).id_mapping);
        Some(write_json(&make_initialize(self.project_root.as_str())))
    }

    /// What to do when `elapsed` nanoseconds have passed since the initialization was asked for.
    pub fn initialization_step(&self, elapsed: u128) -> (r: InitializationStep)
        ensures
            if self@.cached_capabilities is Some {
                r is Ready && r->Ready_0@ == json_text(initialized())
            } else if elapsed > INITIALIZATION_LIMIT {
                r is TimedOut
            } else {
                r is Wait
            },
    {
        if self.cached_capabilities.is_some() {
            InitializationStep::Ready(write_json(&make_initialized()))
        } else if elapsed > INITIALIZATION_LIMIT {
            InitializationStep::TimedOut
        } else {
            InitializationStep::Wait
        }
    }

    /// What to do next for a query that has got to `stage` and waits since `elapsed` nanoseconds.
    pub fn advance_query(&mut self, stage: QueryStage, elapsed: u128) -> (r: Result<
        QueryAction,
        BrokerError,
    >)
        ensures
            final(self)@ == query_step(old(self)@, stage, elapsed).0,
            match query_step(old(self)@, stage, elapsed).1 {
                QueryEffect::Send(message, after) => r matches Ok(QueryAction::Send { text, next })
                    && text@ == message && next == after,
                QueryEffect::Wait => r matches Ok(QueryAction::Wait),
                QueryEffect::Dispatch => r matches Ok(QueryAction::Dispatch),
                QueryEffect::TimedOut => r matches Err(BrokerError::InitializationTimedOut),
            },
    {
        match stage {
            QueryStage::Start => match self.begin_initialization() {
                Some(text) => Ok(QueryAction::Send { text, next: QueryStage::Initializing }),
                None => Ok(QueryAction::Dispatch),
            },
            QueryStage::Initializing | QueryStage::Initialized => match self.initialization_step(
                elapsed,
            ) {
                InitializationStep::Ready(text) => if stage == QueryStage::Initializing {
                    Ok(QueryAction::Send { text, next: QueryStage::Initialized })
                } else {
                    Ok(QueryAction::Dispatch)
                },
                InitializationStep::TimedOut => Err(BrokerError::InitializationTimedOut),
                InitializationStep::Wait => Ok(QueryAction::Wait),
            },
        }
    }

    /// Connects the client `id` for its query, once the server is initialized. Returns the text
    /// for the server.
    pub fn dispatch_query(&mut self, id: ClientId, query: Query) -> (r: String)
        requires
            old(self)@.cached_capabilities is Some,
            old(self)@.next_server_id < u64::MAX,
            document_of(json(query.message)) is Some,
        ensures
            final(self)@ == with_query(old(self)@, id, json(query.message)),
            r@ == json_text(renumbered(json(query.message), old(self)@.next_server_id)),
            is_readable(json(query.message)) ==> reads_back(
                renumbered(json(query.message), old(self)@.next_server_id),
            ),
    {
        self.register(id, true);
        let original = match member(&query.message, "id") {
            Some(v) => copy_json(v),
            None => unsigned_json(1),
        };
        self.route(id, query.message, original)
    }

    /// Disconnects the client `id` at the time `now`, given what was answered in time.
    pub fn finish_query(&mut self, id: ClientId, now: u128, answer: Option<String>) -> (r: Result<
        String,
        BrokerError,
    >)
        ensures
            final(self)@ == after_query(old(self)@, id, now),
            match answer {
                Some(text) => r is Ok && r->Ok_0 == text,
                None => r is Err && r->Err_0 == BrokerError::QueryTimedOut,
            },
    {
        self.clients.remove(&id);
        self.last_activity = now;
        assert(self@.clients =~= after_query(old(self)@, id, now).clients);
        match answer {
            Some(text) => Ok(text),
            None => Err(BrokerError::QueryTimedOut),
        }
    }
}

} // verus!
