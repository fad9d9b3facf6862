//! What each operation gives back and leaves behind, told of the operation itself and of what it
//! is given: a text, a path, the members of a message, the clients that are connected.

use crate::config::Config;
use crate::editor::{without_file, EditorAction};
use crate::error::BrokerError;
use crate::framing::{
    announce_last, announces, header_block, is_blank_line, is_other_header,
    law_bad_bodies_are_refused, law_blank_lines_end_the_headers,
    law_incomplete_headers_are_refused, law_length_headers_announce,
    law_messages_are_read_whatever_their_headers, law_messages_are_written_with_their_length,
    law_other_headers_change_nothing, read_body, read_header_line, read_lsp_message,
    text_of_lines, write_lsp_message, FrameError, HeaderLine, HeaderReader,
};
use crate::json::{json, json_parse, json_text, Json};
use crate::message::{document_of, initialize, initialized};
use crate::multiplexer::{kept, law_marks_decide, Lookup, Multiplexer, ServerSlot};
use crate::path::{
    components, extension, extension_of, is_name, join, law_extensions,
    law_joining_writes_one_slash, law_parents_are_written_as_they_were, parent, parent_of,
    same_path,
};
use crate::query::{
    law_languages, read_query, InitializationStep, Query, QueryAction, QueryStage,
};
use crate::routing::{
    close_notice, diagnoses, given_id, is_method, is_own_business, law_answers_are_returned,
    law_answers_that_nobody_waits_for_are_dropped, law_closing_a_document,
    law_closing_messages_name_what_was_opened, law_deliveries_are_complete,
    law_diagnostics_are_for_those_who_have_the_document, law_idle_servers,
    law_known_capabilities_are_the_answer, law_leaving_closes_one_by_one,
    law_notifications_of_editors_are_forwarded, law_notifications_of_servers_are_for_all_editors,
    law_opening_a_document, law_other_values_are_forwarded, law_queries_are_renumbered,
    law_queries_prepare_their_server, law_requests_of_editors_are_renumbered, law_what_is_dropped,
    names, tells_capabilities, times_open, whole, Members,
};
use crate::server::Reception;
use crate::session::{
    closed_all, released, ClientId, ServerInstance, ServerModel, SessionModel,
};
use crate::text::{
    all_space, chars_of, contains, decimal_text, decimal_value, is_digits, law_numbers_are_read,
    law_numbers_are_written, law_trimming, law_words_occur_in_texts, occurs_in, parse_usize,
    same_text, text_of, texts, trim, whitespace,
};
use crate::workspace::{
    detect_shebang_language, escaped, file_path, find_project_root, law_escaped_bytes_are_decoded,
    law_files_are_named, law_markers, law_nothing_to_decode, law_scripts_tell_their_language,
    law_searches_climb, percent_decode, settle_root, start_directory, RootSearch, SearchStep,
};
use vstd::prelude::*;
use vstd::utf8::{encode_utf8, valid_utf8};

verus! {

/// A message is written as its length in bytes, a blank line and its body.
pub proof fn law_writing(body: &str, r: String)
    requires
        call_ensures(write_lsp_message, (body,), r),
    ensures
        exists|digits: Seq<char>|
            r@ == "Content-Length: "@ + digits + "\r\n\r\n"@ + body@ && #[trigger] is_digits(digits)
                && decimal_value(digits) == encode_utf8(body@).len(),
{
    law_messages_are_written_with_their_length(body@);
}

/// A message is read with the length that its headers announced last, whatever other headers it
/// has; what comes after it is left.
pub proof fn law_reading(
    input: &[u8],
    r: Result<(String, usize), (FrameError, usize)>,
    before: Seq<Seq<char>>,
    line: Seq<char>,
    after: Seq<Seq<char>>,
    blank: Seq<char>,
    body: Seq<char>,
    rest: Seq<u8>,
)
    requires
        call_ensures(read_lsp_message, (input,), r),
        announce_last(before, line, after, encode_utf8(body).len() as int),
        is_blank_line(blank),
        input@ == encode_utf8(header_block(before, line, after, blank)) + encode_utf8(body) + rest,
    ensures
        r matches Ok(m) && m.0@ == body && m.1 == input@.len() - rest.len(),
{
    law_messages_are_read_whatever_their_headers(before, line, after, blank, body, rest);
}

/// A message whose headers announce no length is refused at the blank line; one that ends early
/// is refused as a whole.
pub proof fn law_reading_fails(
    input: &[u8],
    r: Result<(String, usize), (FrameError, usize)>,
    lines: Seq<Seq<char>>,
    line: Seq<char>,
    blank: Seq<char>,
    n: int,
    rest: Seq<u8>,
)
    requires
        call_ensures(read_lsp_message, (input,), r),
        is_blank_line(blank),
        forall|i: int| 0 <= i < lines.len() ==> is_other_header(#[trigger] lines[i]),
    ensures
        input@ == encode_utf8(text_of_lines(lines) + blank) + rest ==> (r matches Err(e) && e.0
            == FrameError::MissingContentLength && e.1 == input@.len() - rest.len()),
        announces(line, n) && rest.len() < n && input@ == encode_utf8(
            header_block(Seq::empty(), line, lines, blank),
        ) + rest ==> (r matches Err(e) && e.0 == FrameError::Truncated && e.1 == input@.len()),
{
    law_incomplete_headers_are_refused(lines, blank, rest);
    if announces(line, n) {
        assert(announce_last(Seq::empty(), line, lines, n));
        law_bad_bodies_are_refused(Seq::empty(), line, lines, blank, n, rest);
    }
}

/// What one header line does to what was announced.
pub proof fn law_feeding(
    reader: &mut HeaderReader,
    line: &str,
    r: Result<Option<usize>, FrameError>,
    n: int,
)
    requires
        call_ensures(HeaderReader::feed, (reader, line), r),
    ensures
        is_other_header(line@) ==> r == Ok::<Option<usize>, FrameError>(None)
            && final(reader).content_length == old(reader).content_length,
        announces(line@, n) ==> r == Ok::<Option<usize>, FrameError>(None)
            && final(reader).content_length == Some(n as usize),
        is_blank_line(line@) ==> (old(reader).content_length matches Some(k) ==> r == Ok::<
            Option<usize>,
            FrameError,
        >(Some(k))),
        is_blank_line(line@) && old(reader).content_length is None ==> r == Err::<
            Option<usize>,
            FrameError,
        >(FrameError::MissingContentLength),
{
    if is_other_header(line@) {
        law_other_headers_change_nothing(old(reader).content_length, line@);
    }
    if announces(line@, n) {
        law_length_headers_announce(old(reader).content_length, line@, n);
    }
    if is_blank_line(line@) {
        law_blank_lines_end_the_headers(old(reader).content_length, line@);
    }
}

/// What one header line says, and that reading starts with nothing announced.
pub proof fn law_header_lines(line: &str, r: HeaderLine, n: int, reader: HeaderReader)
    requires
        call_ensures(read_header_line, (line,), r),
        call_ensures(HeaderReader::new, (), reader),
    ensures
        is_other_header(line@) ==> r == HeaderLine::Other,
        announces(line@, n) ==> r == HeaderLine::Length(n as usize),
        is_blank_line(line@) ==> r == HeaderLine::Blank,
        reader.content_length is None,
{
    if is_other_header(line@) {
        law_other_headers_change_nothing(None, line@);
        law_other_headers_change_nothing(Some(0), line@);
    }
    if announces(line@, n) {
        law_length_headers_announce(None, line@, n);
        law_length_headers_announce(Some(0), line@, n);
        law_length_headers_announce(Some(1), line@, n);
    }
}

/// A body is the text that its bytes encode.
pub proof fn law_bodies(bytes: Vec<u8>, r: Result<String, FrameError>)
    requires
        call_ensures(read_body, (bytes,), r),
    ensures
        valid_utf8(bytes@) ==> (r matches Ok(s) && encode_utf8(s@) == bytes@),
        !valid_utf8(bytes@) ==> r == Err::<String, FrameError>(FrameError::BodyNotUtf8),
{
    if valid_utf8(bytes@) {
        vstd::utf8::decode_utf8_encode_utf8(bytes@);
    }
}

/// Texts are taken apart, put together and compared character by character.
pub proof fn law_characters(
    s: &str,
    t: &str,
    v: Vec<char>,
    chars: &[char],
    text: String,
    same: bool,
)
    requires
        call_ensures(chars_of, (s,), v),
        call_ensures(text_of, (chars,), text),
        call_ensures(same_text, (s, t), same),
    ensures
        v@ == s@,
        text@ == chars@,
        same <==> s@ == t@,
{
}

/// A word is found in a text exactly where the text is something, the word, and something.
pub proof fn law_finding_words(s: &[char], w: &str, r: bool)
    requires
        call_ensures(contains, (s, w), r),
    ensures
        r <==> exists|a: Seq<char>, b: Seq<char>| s@ == #[trigger] (a + w@ + b),
{
    law_words_occur_in_texts(w@, s@);
}

/// White space is trimmed, and nothing else.
pub proof fn law_trimming_texts(
    s: &[char],
    r: &[char],
    a: Seq<char>,
    core: Seq<char>,
    b: Seq<char>,
)
    requires
        call_ensures(trim, (s,), r),
        s@ == a + core + b,
        all_space(a),
        all_space(b),
        core.len() == 0 || (!whitespace(core[0]) && !whitespace(core.last())),
    ensures
        r@ == core,
{
    law_trimming(a, core, b);
}

/// A row of digits, with or without a plus sign, is read as the number that it writes.
pub proof fn law_reading_numbers(s: &[char], r: Option<usize>, digits: Seq<char>)
    requires
        call_ensures(parse_usize, (s,), r),
        is_digits(digits),
        s@ == digits || s@ == seq!['+'] + digits,
    ensures
        decimal_value(digits) <= usize::MAX ==> r == Some(decimal_value(digits) as usize),
        decimal_value(digits) > usize::MAX ==> r is None,
{
    law_numbers_are_read(digits);
}

/// A number is written with the digits that stand for it.
pub proof fn law_writing_numbers(n: usize, r: String)
    requires
        call_ensures(decimal_text, (n,), r),
    ensures
        is_digits(r@),
        decimal_value(r@) == n,
        r@.len() > 1 ==> r@[0] != '0',
{
    law_numbers_are_written(n as nat);
}

/// Two paths are the same exactly where they have the same components.
pub proof fn law_comparing_paths(a: &str, b: &str, r: bool)
    requires
        call_ensures(same_path, (a, b), r),
    ensures
        r <==> components(a@) == components(b@),
{
}

/// The parent of a name below a directory is the directory, as it is written.
pub proof fn law_parents(
    p: &str,
    r: Option<String>,
    above: Seq<char>,
    directory: Seq<char>,
    name: Seq<char>,
)
    requires
        call_ensures(parent, (p,), r),
        is_name(directory),
        is_name(name),
        p@ == above + seq!['/'] + directory + seq!['/'] + name,
    ensures
        r matches Some(q) && q@ == above + seq!['/'] + directory,
{
    law_parents_are_written_as_they_were(above, directory, name);
}

/// The extension of a file is what stands after the last dot of its name.
pub proof fn law_finding_extensions(
    p: &str,
    r: Option<String>,
    above: Seq<char>,
    stem: Seq<char>,
    ext: Seq<char>,
)
    requires
        call_ensures(extension, (p,), r),
        !stem.contains('/'),
        !ext.contains('/'),
        !ext.contains('.'),
        stem.len() > 0,
        stem != seq!['.'],
        p@ == above + seq!['/'] + (stem + seq!['.'] + ext),
    ensures
        r matches Some(e) && e@ == ext,
{
    law_extensions(above, stem, ext);
}

/// A relative path below a directory is written after one slash.
pub proof fn law_joining(base: &str, tail: &str, r: String)
    requires
        call_ensures(join, (base, tail), r),
        tail@.len() == 0 || tail@[0] != '/',
        base@.len() > 0,
        base@.last() != '/',
    ensures
        r@ == base@ + seq!['/'] + tail@,
{
    law_joining_writes_one_slash(base@, tail@);
}

/// Decoding undoes escaping, and leaves alone what has no percent sign.
pub proof fn law_decoding(
    s: &str,
    r: String,
    t: Seq<char>,
    chosen: spec_fn(u8) -> bool,
    capital: spec_fn(u8) -> bool,
)
    requires
        call_ensures(percent_decode, (s,), r),
    ensures
        s@ == escaped(encode_utf8(t), chosen, capital) ==> r@ == t,
        !s@.contains('%') ==> r@ == s@,
{
    law_escaped_bytes_are_decoded(t, chosen, capital);
    if !s@.contains('%') {
        law_nothing_to_decode(s@);
    }
}

/// The file of a URI is the path after its scheme.
pub proof fn law_finding_files(uri: &str, r: String, path: Seq<char>)
    requires
        call_ensures(file_path, (uri,), r),
        uri@ == "file://"@ + path,
        !"file://"@.is_prefix_of(path),
        !path.contains('%'),
    ensures
        r@ == path,
{
    law_files_are_named(path);
}

/// The language of a script is told by the words of its first line.
pub proof fn law_detecting_scripts(line: &str, r: Option<String>)
    requires
        call_ensures(detect_shebang_language, (line,), r),
    ensures
        !"#!"@.is_prefix_of(line@) ==> r is None,
        "#!"@.is_prefix_of(line@) ==> if occurs_in("python"@, line@) {
            r matches Some(l) && l@ == "python"@
        } else if occurs_in("node"@, line@) {
            r matches Some(l) && l@ == "javascript"@
        } else if occurs_in("ruby"@, line@) {
            r matches Some(l) && l@ == "ruby"@
        } else if occurs_in("sh"@, line@) {
            r matches Some(l) && l@ == "shell"@
        } else if occurs_in("perl"@, line@) {
            r matches Some(l) && l@ == "perl"@
        } else {
            r is None
        },
{
    law_scripts_tell_their_language(line@);
}

/// A search starts in the path itself or in the directory of the file, and there it ends where
/// it finds nothing.
pub proof fn law_starting_a_search(
    file_path: &str,
    is_file: bool,
    home: Option<String>,
    search: RootSearch,
    start: String,
    found: Option<String>,
    root: String,
)
    requires
        call_ensures(find_project_root, (file_path, is_file, home), search),
        call_ensures(start_directory, (file_path, is_file), start),
        call_ensures(settle_root, (found, file_path, is_file), root),
    ensures
        search.current@ == start@,
        search.home == home,
        !is_file ==> start@ == file_path@,
        is_file ==> (parent_of(file_path@) matches Some(dir) ==> start@ == dir),
        is_file && parent_of(file_path@) is None ==> start@ == "."@,
        found matches Some(f) ==> root@ == f@,
        found is None ==> root@ == start@,
{
}

/// One step of a search looks for the two markers in the current directory; with one of them the
/// directory is the root, and else the search goes on in its parent unless it is at home.
pub proof fn law_stepping(
    search: RootSearch,
    markers: (String, String),
    git: bool,
    project_root: bool,
    step: SearchStep,
)
    requires
        call_ensures(RootSearch::markers, (&search,), markers),
        call_ensures(RootSearch::step, (search, git, project_root), step),
        search.current@.len() > 0,
        search.current@.last() != '/',
    ensures
        markers.0@ == search.current@ + "/"@ + ".git"@,
        markers.1@ == search.current@ + "/"@ + ".project-root"@,
        git || project_root ==> (step matches SearchStep::Found(root) && root@ == search.current@),
        !git && !project_root ==> (search.home matches Some(h) ==> components(h@) == components(
            search.current@,
        ) ==> step is NotFound),
        !git && !project_root && (search.home matches Some(h) ==> components(h@) != components(
            search.current@,
        )) ==> match parent_of(search.current@) {
            Some(up) => step matches SearchStep::Climb(next) && next.current@ == up,
            None => step is NotFound,
        },
{
    law_markers(search.current@);
    law_searches_climb(
        search.current@,
        match search.home {
            Some(h) => Some(h@),
            None => None,
        },
    );
}

/// The configuration is the one that was read, and a command is the one that is configured.
pub proof fn law_configuring(
    read: Option<Config>,
    loaded: Config,
    config: Config,
    language: &str,
    command: Vec<String>,
)
    requires
        call_ensures(Config::load, (read,), loaded),
        call_ensures(Config::server_command, (&config, language), command),
    ensures
        read matches Some(c) ==> loaded == c,
        read is None ==> loaded@ == crate::config::default_model(),
        config@.servers.contains_key(language@) ==> texts(command@) == config@.servers[language@],
        !config@.servers.contains_key(language@) ==> command@.len() == 0,
{
    if !config@.servers.contains_key(language@) {
        assert(texts(command@).len() == command@.len());
    }
}

/// Setting a language or a command sets this one and no other.
pub proof fn law_setting(
    fresh: Config,
    config: &mut Config,
    other: &mut Config,
    word: String,
    language: String,
    command: Vec<String>,
    key: Seq<char>,
)
    requires
        call_ensures(Config::new, (), fresh),
        call_ensures(Config::set_language, (config, word, language), ()),
        call_ensures(Config::set_server, (other, word, command), ()),
    ensures
        !fresh@.languages.contains_key(key),
        !fresh@.servers.contains_key(key),
        final(config)@.languages == old(config)@.languages.insert(word@, language@),
        final(config)@.servers == old(config)@.servers,
        final(other)@.servers == old(other)@.servers.insert(word@, texts(command@)),
        final(other)@.languages == old(other)@.languages,
{
}

/// The default configuration.
pub proof fn law_default_configuration(config: Config)
    requires
        call_ensures(Config::default_config, (), config),
    ensures
        config@.languages == map![
            "rs"@ => "rust"@,
            "py"@ => "python"@,
            "go"@ => "go"@,
            "md"@ => "markdown"@,
        ],
        config@.servers == map![
            "rust"@ => seq!["rust-analyzer"@],
            "python"@ => seq!["pyright-langserver"@, "--stdio"@],
            "go"@ => seq!["gopls"@],
            "markdown"@ => seq!["markdown-oxide"@],
        ],
{
}

/// Where the configuration and the sockets are.
pub proof fn law_finding_places(
    dir: &str,
    path: String,
    no_home: String,
    sockets: (String, String),
    no_runtime: (String, String),
)
    requires
        call_ensures(crate::config::config_path, (Some(dir),), path),
        call_ensures(crate::config::config_path, (None,), no_home),
        call_ensures(crate::config::socket_paths, (Some(dir),), sockets),
        call_ensures(crate::config::socket_paths, (None,), no_runtime),
        dir@.len() > 0,
        dir@.last() != '/',
    ensures
        path@ == dir@ + "/"@ + ".config/lsp-broker/config.toml"@,
        sockets.0@ == dir@ + "/"@ + "lsp-broker.sock"@,
        sockets.1@ == dir@ + "/"@ + "lsp-broker-query.sock"@,
        no_home@ == "/home/tau"@ + "/"@ + ".config/lsp-broker/config.toml"@,
        no_runtime.0@ == "/run/user/1000"@ + "/"@ + "lsp-broker.sock"@,
        no_runtime.1@ == "/run/user/1000"@ + "/"@ + "lsp-broker-query.sock"@,
{
    reveal_strlit("/home/tau");
    reveal_strlit("/run/user/1000");
    crate::config::law_places(dir@);
    crate::config::law_places("/home/tau"@);
    crate::config::law_places("/run/user/1000"@);
}

/// The language of a file is told by its extension, and else by its first line.
pub proof fn law_detecting_languages(
    config: Config,
    path: &str,
    first_line: Option<&str>,
    by_extension: Option<String>,
    language: Result<String, BrokerError>,
    ext: Seq<char>,
)
    requires
        call_ensures(Config::language_by_extension, (&config, path), by_extension),
        call_ensures(Config::detect_language, (&config, path, first_line), language),
        extension_of(path@) == Some(ext) || extension_of(path@) is None && ext.len() == 0,
    ensures
        config@.languages.contains_key(ext) ==> (by_extension matches Some(l) && l@
            == config@.languages[ext]) && (language matches Ok(l) && l@ == config@.languages[ext]),
        !config@.languages.contains_key(ext) ==> by_extension is None,
        !config@.languages.contains_key(ext) && first_line is None ==> language matches Err(
            BrokerError::UnknownLanguage,
        ),
        !config@.languages.contains_key(ext) ==> (first_line matches Some(line) ==> (
        crate::workspace::shebang_language(line@) matches Some(l) ==> language matches Ok(found)
            && found@ == l)),
        !config@.languages.contains_key(ext) ==> (first_line matches Some(line) ==> (
        crate::workspace::shebang_language(line@) is None ==> language matches Err(
            BrokerError::UnknownLanguage,
        ))),
{
    law_languages(
        config@,
        path@,
        ext,
        match first_line {
            Some(line) => Some(line@),
            None => None,
        },
    );
}

/// A query is read with the file that its parameters name.
pub proof fn law_reading_queries(
    text: &str,
    r: Result<Query, BrokerError>,
    members: Members,
    path: Seq<char>,
)
    requires
        call_ensures(read_query, (text,), r),
    ensures
        json_parse(text@) is None ==> r matches Err(BrokerError::InvalidJson),
        json_parse(text@) == Some(Json::Object(members)) && names(members, "file://"@ + path)
            && !"file://"@.is_prefix_of(path) && !path.contains('%') ==> (r matches Ok(q)
            && json(q.message) == Json::Object(members) && q.path@ == path),
        json_parse(text@) == Some(Json::Object(members)) && (forall|u: Seq<char>|
            !names(members, u)) ==> r matches Err(BrokerError::MissingUri),
{
    law_files_are_named(path);
    if forall|u: Seq<char>| !names(members, u) {
        if let Some(u) = document_of(Json::Object(members)) {
            assert(names(members, u));
        }
    }
}

/// A server starts with nothing, is used when it is said to be, and may be stopped when nobody
/// is connected and fifteen minutes have passed.
pub proof fn law_using_servers(
    project_root: String,
    language: String,
    now: u128,
    fresh: ServerInstance,
    server: &mut ServerInstance,
    time: u128,
    other: ServerInstance,
    may_stop: bool,
)
    requires
        call_ensures(ServerInstance::new, (project_root, language, now), fresh),
        call_ensures(ServerInstance::touch, (server, time), ()),
        call_ensures(ServerInstance::is_idle, (&other, time), may_stop),
    ensures
        fresh@.project_root == project_root@,
        fresh@.language == language@,
        fresh@.clients == Map::<ClientId, SessionModel>::empty(),
        fresh@.open_documents == Map::<Seq<char>, usize>::empty(),
        fresh@.id_mapping == Map::<u64, (ClientId, Json)>::empty(),
        fresh@.next_server_id == 1,
        fresh@.cached_capabilities is None,
        fresh@.last_activity == now,
        final(server)@ == (ServerModel { last_activity: time, ..old(server)@ }),
        may_stop <==> other@.clients == Map::<ClientId, SessionModel>::empty() && time
            - other@.last_activity > 15 * 60 * 1_000_000_000,
{
    law_idle_servers(other@, time);
}

/// A client that connects is listed with nothing open.
pub proof fn law_registering(server: &mut ServerInstance, id: ClientId, is_fleeting: bool)
    requires
        call_ensures(ServerInstance::register, (server, id, is_fleeting), ()),
    ensures
        final(server)@ == (ServerModel {
            clients: old(server)@.clients.insert(
                id,
                SessionModel { id, open_files: Seq::empty(), is_fleeting },
            ),
            ..old(server)@
        }),
{
}

/// A client that leaves closes what it alone has open: where its files are listed once each, there
/// is one message for each that is counted once, in order, which names it by the text by which
/// it was opened.
pub proof fn law_unregistering(
    server: &mut ServerInstance,
    id: ClientId,
    now: u128,
    r: Vec<String>,
    files: Seq<Seq<char>>,
    uri: Seq<char>,
)
    requires
        call_ensures(ServerInstance::unregister, (server, id, now), r),
        old(server)@.clients.contains_key(id),
        old(server)@.clients[id].open_files == files.push(uri),
        !files.contains(uri),
        old(server)@.open_documents.contains_key(uri),
    ensures
        final(server)@.clients == old(server)@.clients.remove(id),
        final(server)@.last_activity == now,
        final(server)@.id_mapping == old(server)@.id_mapping,
        final(server)@.next_server_id == old(server)@.next_server_id,
        final(server)@.cached_capabilities == old(server)@.cached_capabilities,
        old(server)@.open_documents[uri] <= 1 ==> r@.len() > 0 && r@.last()@ == json_text(
            close_notice(uri),
        ) && !final(server)@.open_documents.contains_key(uri),
        old(server)@.open_documents[uri] > 1 ==> final(server)@.open_documents.contains_key(uri)
            && final(server)@.open_documents[uri] == old(server)@.open_documents[uri] - 1,
        files.len() == 0 && old(server)@.open_documents[uri] > 1 ==> r@.len() == 0,
        files.len() == 0 && old(server)@.open_documents[uri] <= 1 ==> r@.len() == 1,
{
    let docs = old(server)@.open_documents;
    crate::routing::lemma_untouched(docs, files, uri);
    law_leaving_closes_one_by_one(docs, files, uri);
    let uris = released(docs, files.push(uri));
    assert(texts(r@).len() == r@.len());
    if docs[uri] <= 1 {
        assert(uris.last() == uri);
        law_closing_messages_name_what_was_opened(uris, uris.len() - 1);
        assert(texts(r@)[r@.len() - 1] == r@[r@.len() - 1]@);
    }
    if files.len() == 0 {
        assert(files =~= Seq::<Seq<char>>::empty());
    }
}

/// For each document that leaving releases there is one message, in order, which names it by the
/// text by which it was opened.
pub proof fn law_messages_of_unregistering(
    server: &mut ServerInstance,
    id: ClientId,
    now: u128,
    r: Vec<String>,
    k: int,
)
    requires
        call_ensures(ServerInstance::unregister, (server, id, now), r),
        old(server)@.clients.contains_key(id),
        0 <= k < r@.len(),
    ensures
        ({
            let uris = released(old(server)@.open_documents, old(server)@.clients[id].open_files);
            r@.len() == uris.len() && r@[k]@ == json_text(close_notice(uris[k]))
        }),
        final(server)@.open_documents == closed_all(
            old(server)@.open_documents,
            old(server)@.clients[id].open_files,
        ),
{
    let uris = released(old(server)@.open_documents, old(server)@.clients[id].open_files);
    assert(texts(r@).len() == r@.len());
    assert(texts(r@)[k] == r@[k]@);
    if uris.len() > 0 {
        law_closing_messages_name_what_was_opened(uris, 0);
        law_closing_messages_name_what_was_opened(uris, k);
    }
}

/// A client that has nothing open, or is not connected, closes nothing when it leaves.
pub proof fn law_unregistering_without_files(
    server: &mut ServerInstance,
    id: ClientId,
    now: u128,
    r: Vec<String>,
)
    requires
        call_ensures(ServerInstance::unregister, (server, id, now), r),
        old(server)@.clients.contains_key(id) ==> old(server)@.clients[id].open_files.len() == 0,
    ensures
        r@.len() == 0,
        final(server)@.open_documents == old(server)@.open_documents,
        final(server)@.clients == old(server)@.clients.remove(id),
        final(server)@.last_activity == now,
{
    assert(texts(r@).len() == r@.len());
}

/// A message of an editor without an id that the broker does not deal with itself, and what is no
/// object, goes to the server as it is.
pub proof fn law_processing_notifications(
    server: &mut ServerInstance,
    id: ClientId,
    text: &str,
    r: Result<EditorAction, BrokerError>,
    j: Json,
)
    requires
        call_ensures(ServerInstance::process_editor_message, (server, id, text), r),
        json_parse(text@) == Some(j),
        j matches Json::Object(members) ==> !members.contains_key("id"@) && !is_own_business(
            members,
        ),
    ensures
        r matches Ok(EditorAction::Forward(t)) && t@ == text@,
        final(server)@ == old(server)@,
{
    match j {
        Json::Object(members) => {
            law_notifications_of_editors_are_forwarded(old(server)@, id, text@, members);
        },
        _ => {
            law_other_values_are_forwarded(old(server)@, id, text@, j);
        },
    }
}

/// A request of an editor goes to the server under the next id, with all its other members.
pub proof fn law_processing_requests(
    server: &mut ServerInstance,
    id: ClientId,
    text: &str,
    r: Result<EditorAction, BrokerError>,
    members: Members,
)
    requires
        call_ensures(ServerInstance::process_editor_message, (server, id, text), r),
        json_parse(text@) == Some(Json::Object(members)),
        members.contains_key("id"@) && !is_own_business(members) || is_method(
            members,
            "initialize"@,
        ) && old(server)@.cached_capabilities is None,
    ensures
        old(server)@.next_server_id < u64::MAX ==> (r matches Ok(EditorAction::Forward(t)) && t@
            == json_text(
            Json::Object(members.insert("id"@, whole(old(server)@.next_server_id))),
        )),
        old(server)@.next_server_id < u64::MAX ==> final(server)@ == (ServerModel {
            id_mapping: old(server)@.id_mapping.insert(
                old(server)@.next_server_id,
                (id, given_id(members)),
            ),
            next_server_id: (old(server)@.next_server_id + 1) as u64,
            ..old(server)@
        }),
        old(server)@.next_server_id == u64::MAX ==> r matches Err(BrokerError::CounterExhausted),
{
    law_requests_of_editors_are_renumbered(old(server)@, id, text@, members);
}

/// An editor that initializes a server whose capabilities are known is answered with them.
pub proof fn law_processing_initialization(
    server: &mut ServerInstance,
    id: ClientId,
    text: &str,
    r: Result<EditorAction, BrokerError>,
    members: Members,
    known: Json,
)
    requires
        call_ensures(ServerInstance::process_editor_message, (server, id, text), r),
        json_parse(text@) == Some(Json::Object(members)),
        is_method(members, "initialize"@),
        old(server)@.cached_capabilities == Some(known),
    ensures
        final(server)@ == old(server)@,
        old(server)@.clients.contains_key(id) ==> (r matches Ok(EditorAction::Reply(t)) && t@
            == json_text(
            Json::Object(
                map![
                    "jsonrpc"@ => Json::Str("2.0"@),
                    "id"@ => given_id(members),
                    "result"@ => known,
                ],
            ),
        )),
        !old(server)@.clients.contains_key(id) ==> r matches Ok(EditorAction::Nothing),
{
    law_known_capabilities_are_the_answer(old(server)@, id, text@, members, known);
}

/// What is not JSON is refused, and what is dropped is dropped.
pub proof fn law_processing_the_rest(
    server: &mut ServerInstance,
    id: ClientId,
    text: &str,
    r: Result<EditorAction, BrokerError>,
    members: Members,
)
    requires
        call_ensures(ServerInstance::process_editor_message, (server, id, text), r),
    ensures
        json_parse(text@) is None ==> (r matches Err(BrokerError::InvalidJson)) && final(server)@
            == old(server)@,
        json_parse(text@) == Some(Json::Object(members)) && (is_method(members, "initialized"@) || (
        is_method(members, "textDocument/didOpen"@) || is_method(members, "textDocument/didClose"@))
            && forall|uri: Seq<char>| !names(members, uri)) ==> (r matches Ok(
            EditorAction::Nothing,
        )) && final(server)@ == old(server)@,
{
    if is_method(members, "initialized"@) || (is_method(members, "textDocument/didOpen"@)
        || is_method(members, "textDocument/didClose"@)) && forall|uri: Seq<char>|
        !names(members, uri) {
        law_what_is_dropped(old(server)@, id, text@, members);
    }
}

/// Opening a document that nobody has open goes to the server; opening one that is open does not.
/// Either is counted and listed with the editor.
pub proof fn law_processing_opened_documents(
    server: &mut ServerInstance,
    id: ClientId,
    text: &str,
    r: Result<EditorAction, BrokerError>,
    members: Members,
    uri: Seq<char>,
)
    requires
        call_ensures(ServerInstance::process_editor_message, (server, id, text), r),
        json_parse(text@) == Some(Json::Object(members)),
        is_method(members, "textDocument/didOpen"@),
        names(members, uri),
        times_open(old(server)@, uri) < usize::MAX,
    ensures
        times_open(old(server)@, uri) == 0 ==> (r matches Ok(EditorAction::Forward(t)) && t@
            == text@),
        times_open(old(server)@, uri) > 0 ==> r matches Ok(EditorAction::Nothing),
        final(server)@.open_documents.contains_key(uri),
        final(server)@.open_documents[uri] == times_open(old(server)@, uri) + 1,
        final(server)@.open_documents.remove(uri) == old(server)@.open_documents.remove(uri),
        final(server)@.clients.remove(id) == old(server)@.clients.remove(id),
        final(server)@.clients.dom() == old(server)@.clients.dom(),
        old(server)@.clients.contains_key(id) ==> final(server)@.clients[id].open_files
            == old(server)@.clients[id].open_files + seq![uri],
{
    law_opening_a_document(old(server)@, id, text@, members, uri);
}

/// Closing a document that is open once goes to the server; closing one that is open more often,
/// or not at all, does not. The count goes down by one.
pub proof fn law_processing_closed_documents(
    server: &mut ServerInstance,
    id: ClientId,
    text: &str,
    r: Result<EditorAction, BrokerError>,
    members: Members,
    uri: Seq<char>,
)
    requires
        call_ensures(ServerInstance::process_editor_message, (server, id, text), r),
        json_parse(text@) == Some(Json::Object(members)),
        is_method(members, "textDocument/didClose"@),
        names(members, uri),
    ensures
        times_open(old(server)@, uri) == 1 ==> (r matches Ok(
            EditorAction::ForwardClose { text: t, uri: u },
        ) && t@ == text@ && u@ == uri) && !final(server)@.open_documents.contains_key(uri)
            && final(server)@.clients == old(server)@.clients,
        times_open(old(server)@, uri) > 1 ==> (r matches Ok(EditorAction::Nothing))
            && final(server)@.open_documents.contains_key(uri)
            && final(server)@.open_documents[uri] == times_open(
            old(server)@,
            uri,
        ) - 1,
        !old(server)@.open_documents.contains_key(uri) ==> (r matches Ok(EditorAction::Nothing))
            && !final(server)@.open_documents.contains_key(uri),
        (times_open(old(server)@, uri) > 1 || !old(server)@.open_documents.contains_key(uri))
            && old(server)@.clients.contains_key(id) ==> final(server)@.clients[id].open_files
            == without_file(old(server)@.clients[id].open_files, uri),
        final(server)@.open_documents.remove(uri) == old(server)@.open_documents.remove(uri),
        final(server)@.clients.remove(id) == old(server)@.clients.remove(id),
{
    law_closing_a_document(old(server)@, id, text@, members, uri);
}

/// A document that an editor has closed is no longer listed with it.
pub proof fn law_finishing_a_close(server: &mut ServerInstance, id: ClientId, uri: &str)
    requires
        call_ensures(ServerInstance::finish_close, (server, id, uri), ()),
    ensures
        final(server)@.open_documents == old(server)@.open_documents,
        final(server)@.clients.dom() == old(server)@.clients.dom(),
        final(server)@.clients.remove(id) == old(server)@.clients.remove(id),
        old(server)@.clients.contains_key(id) ==> final(server)@.clients[id].open_files
            == without_file(old(server)@.clients[id].open_files, uri@),
        final(server)@.id_mapping == old(server)@.id_mapping,
{
    assert(final(server)@.clients.dom() =~= old(server)@.clients.dom());
    assert(final(server)@.clients.remove(id) =~= old(server)@.clients.remove(id));
}

/// An answer goes to the client that asked, under the id that it gave, and to nobody else.
pub proof fn law_handling_answers(
    server: &mut ServerInstance,
    text: &str,
    r: Result<Reception, BrokerError>,
    members: Members,
    n: u64,
    client: ClientId,
    original: Json,
)
    requires
        call_ensures(ServerInstance::handle_server_message, (server, text), r),
        json_parse(text@) == Some(Json::Object(members)),
        members.contains_key("id"@),
        members["id"@] == whole(n),
        old(server)@.id_mapping.contains_key(n),
        old(server)@.id_mapping[n] == (client, original),
    ensures
        r is Ok,
        old(server)@.clients.contains_key(client) ==> r->Ok_0.deliveries@.len() == 1
            && r->Ok_0.deliveries@[0].client == client && r->Ok_0.deliveries@[0].text@ == json_text(
            Json::Object(members.insert("id"@, original)),
        ),
        !old(server)@.clients.contains_key(client) ==> r->Ok_0.deliveries@.len() == 0,
        final(server)@.id_mapping == old(server)@.id_mapping.remove(n),
        final(server)@.clients == old(server)@.clients,
        final(server)@.open_documents == old(server)@.open_documents,
        old(server)@.cached_capabilities is Some ==> final(server)@.cached_capabilities
            == old(server)@.cached_capabilities,
        old(server)@.cached_capabilities is None && tells_capabilities(members)
            ==> final(server)@.cached_capabilities == Some(members["result"@]),
        old(server)@.cached_capabilities is None && !tells_capabilities(members)
            ==> final(server)@.cached_capabilities is None,
{
    let m = old(server)@;
    law_answers_are_returned(m, text@, members, n, client, original);
    let list = r->Ok_0.deliveries@;
    let wanted = crate::server::deliveries(m, text@, Json::Object(members));
    law_deliveries_are_complete(list, wanted, client);
    if list.len() > 0 {
        law_deliveries_are_complete(list, wanted, list[0].client);
        assert(wanted.contains_key(list[0].client));
    }
    if list.len() > 1 {
        law_deliveries_are_complete(list, wanted, list[1].client);
        assert(wanted.contains_key(list[1].client));
        assert(list[0].client == list[1].client);
    }
}

/// Notifications go, as they are, to the editors; diagnostics to those that have the document at
/// `params.uri` open.
pub proof fn law_handling_notifications(
    server: &mut ServerInstance,
    text: &str,
    r: Result<Reception, BrokerError>,
    members: Members,
    uri: Seq<char>,
    client: ClientId,
)
    requires
        call_ensures(ServerInstance::handle_server_message, (server, text), r),
        json_parse(text@) == Some(Json::Object(members)),
        !members.contains_key("id"@),
        is_method(members, "textDocument/publishDiagnostics"@) ==> diagnoses(members, uri),
    ensures
        r is Ok,
        final(server)@ == old(server)@,
        (exists|i: int|
            0 <= i < r->Ok_0.deliveries@.len() && (#[trigger] r->Ok_0.deliveries@[i]).client
                == client) <==> (old(server)@.clients.contains_key(client)
            && !old(server)@.clients[client].is_fleeting && (is_method(
            members,
            "textDocument/publishDiagnostics"@,
        )
            ==> exists|k: int|
            0 <= k < old(server)@.clients[client].open_files.len()
                && #[trigger] old(server)@.clients[client].open_files[k] == uri)),
        forall|i: int|
            0 <= i < r->Ok_0.deliveries@.len() && (#[trigger] r->Ok_0.deliveries@[i]).client
                == client ==> r->Ok_0.deliveries@[i].text@ == text@,
        forall|i: int, j: int|
            0 <= i < r->Ok_0.deliveries@.len() && 0 <= j < r->Ok_0.deliveries@.len() && (
            #[trigger] r->Ok_0.deliveries@[i]).client == client && (
            #[trigger] r->Ok_0.deliveries@[j]).client == client ==> i == j,
{
    let m = old(server)@;
    let list = r->Ok_0.deliveries@;
    let wanted = crate::server::deliveries(m, text@, Json::Object(members));
    law_deliveries_are_complete(list, wanted, client);
    if is_method(members, "textDocument/publishDiagnostics"@) {
        law_diagnostics_are_for_those_who_have_the_document(m, text@, members, uri, client);
    } else {
        law_notifications_of_servers_are_for_all_editors(m, text@, members, client);
    }
}

/// A message that nobody waits for reaches nobody, what is not JSON is refused, and an error is
/// reported as the message holds it.
pub proof fn law_handling_the_rest(
    server: &mut ServerInstance,
    text: &str,
    r: Result<Reception, BrokerError>,
    members: Members,
)
    requires
        call_ensures(ServerInstance::handle_server_message, (server, text), r),
    ensures
        json_parse(text@) is None ==> (r matches Err(BrokerError::InvalidJson)) && final(server)@
            == old(server)@,
        json_parse(text@) == Some(Json::Object(members)) && members.contains_key("id"@) && (
        forall|n: u64| #[trigger]
            old(server)@.id_mapping.contains_key(n) ==> members["id"@] != whole(n)) ==> (
        r matches Ok(reception) && reception.deliveries@.len() == 0) && final(server)@
            == old(server)@,
        json_parse(text@) == Some(Json::Object(members)) && members.contains_key("error"@) ==> (
        r matches Ok(reception) && (reception.error matches Some(e) && json(e)
            == members["error"@])),
        json_parse(text@) == Some(Json::Object(members)) && !members.contains_key("error"@) ==> (
        r matches Ok(reception) && reception.error is None),
{
    let m = old(server)@;
    if json_parse(text@) == Some(Json::Object(members)) && members.contains_key("id"@) && (
    forall|n: u64| #[trigger] m.id_mapping.contains_key(n) ==> members["id"@] != whole(n)) {
        law_answers_that_nobody_waits_for_are_dropped(m, text@, members);
        let list = r->Ok_0.deliveries@;
        let wanted = crate::server::deliveries(m, text@, Json::Object(members));
        if list.len() > 0 {
            law_deliveries_are_complete(list, wanted, list[0].client);
            assert(wanted.contains_key(list[0].client));
        }
    }
}

/// How a query gets its server ready.
pub proof fn law_advancing_queries(
    server: &mut ServerInstance,
    stage: QueryStage,
    elapsed: u128,
    r: Result<QueryAction, BrokerError>,
)
    requires
        call_ensures(ServerInstance::advance_query, (server, stage, elapsed), r),
    ensures
        old(server)@.cached_capabilities is Some ==> final(server)@ == old(server)@,
        old(server)@.cached_capabilities is Some && stage != QueryStage::Initializing
            ==> r matches Ok(QueryAction::Dispatch),
        old(server)@.cached_capabilities is Some && stage == QueryStage::Initializing ==> (
        r matches Ok(QueryAction::Send { text, next }) && text@ == json_text(initialized()) && next
            == QueryStage::Initialized),
        old(server)@.cached_capabilities is None && stage == QueryStage::Start ==> (r matches Ok(
            QueryAction::Send { text, next },
        ) && text@ == json_text(initialize(old(server)@.project_root)) && next
            == QueryStage::Initializing) && final(server)@.id_mapping
            == old(server)@.id_mapping.insert(0, (0, whole(0))),
        old(server)@.cached_capabilities is None && stage == QueryStage::Initializing && elapsed
            > 30 * 1_000_000_000 ==> r matches Err(BrokerError::InitializationTimedOut),
        old(server)@.cached_capabilities is None && stage == QueryStage::Initializing && elapsed
            <= 30 * 1_000_000_000 ==> r matches Ok(QueryAction::Wait),
        final(server)@.clients == old(server)@.clients,
        final(server)@.next_server_id == old(server)@.next_server_id,
        final(server)@.cached_capabilities == old(server)@.cached_capabilities,
{
    law_queries_prepare_their_server(old(server)@, elapsed);
}

/// What the two halves of the initialization give.
pub proof fn law_initializing(
    server: &mut ServerInstance,
    r: Option<String>,
    other: ServerInstance,
    elapsed: u128,
    step: InitializationStep,
)
    requires
        call_ensures(ServerInstance::begin_initialization, (server,), r),
        call_ensures(ServerInstance::initialization_step, (&other, elapsed), step),
    ensures
        old(server)@.cached_capabilities is Some ==> r is None && final(server)@ == old(server)@,
        old(server)@.cached_capabilities is None ==> (r matches Some(text) && text@ == json_text(
            initialize(old(server)@.project_root),
        )) && final(server)@ == (ServerModel {
            id_mapping: old(server)@.id_mapping.insert(0, (0, whole(0))),
            ..old(server)@
        }),
        other@.cached_capabilities is Some ==> (step matches InitializationStep::Ready(text)
            && text@ == json_text(initialized())),
        other@.cached_capabilities is None && elapsed > 30 * 1_000_000_000 ==> step is TimedOut,
        other@.cached_capabilities is None && elapsed <= 30 * 1_000_000_000 ==> step is Wait,
{
    law_queries_prepare_their_server(old(server)@, elapsed);
}

/// A query goes to the server under the next id, with all its other members, for a client that
/// is connected for it.
pub proof fn law_dispatching_queries(
    server: &mut ServerInstance,
    id: ClientId,
    query: Query,
    r: String,
    members: Members,
)
    requires
        call_ensures(ServerInstance::dispatch_query, (server, id, query), r),
        json(query.message) == Json::Object(members),
        old(server)@.next_server_id < u64::MAX,
    ensures
        r@ == json_text(
            Json::Object(members.insert("id"@, whole(old(server)@.next_server_id))),
        ),
        final(server)@ == (ServerModel {
            clients: old(server)@.clients.insert(
                id,
                SessionModel { id, open_files: Seq::empty(), is_fleeting: true },
            ),
            id_mapping: old(server)@.id_mapping.insert(
                old(server)@.next_server_id,
                (id, given_id(members)),
            ),
            next_server_id: (old(server)@.next_server_id + 1) as u64,
            ..old(server)@
        }),
{
    law_queries_are_renumbered(old(server)@, id, members);
}

/// A query that is over gives its answer, if there is one, and leaves no client.
pub proof fn law_finishing_queries(
    server: &mut ServerInstance,
    id: ClientId,
    now: u128,
    answer: Option<String>,
    r: Result<String, BrokerError>,
)
    requires
        call_ensures(ServerInstance::finish_query, (server, id, now, answer), r),
    ensures
        answer matches Some(text) ==> r == Ok::<String, BrokerError>(text),
        answer is None ==> r matches Err(BrokerError::QueryTimedOut),
        final(server)@ == (ServerModel {
            clients: old(server)@.clients.remove(id),
            last_activity: now,
            ..old(server)@
        }),
{
}

/// The server that is handed out for a project and a language was added for a root with the same
/// components and for the same language; where there is none, the command says what to start, and
/// without a command there is none to be had.
pub proof fn law_looking_up_servers<S>(
    multiplexer: Multiplexer<S>,
    root: &str,
    language: &str,
    command: Vec<String>,
    r: Result<Lookup<S>, BrokerError>,
)
    requires
        call_ensures(
            Multiplexer::<S>::get_or_spawn_server,
            (&multiplexer, root, language, &command),
            r,
        ),
    ensures
        (exists|i: int|
            0 <= i < multiplexer.servers@.len() && components(
                (#[trigger] multiplexer.servers@[i]).root@,
            ) == components(root@) && multiplexer.servers@[i].language@ == language@) ==> (
        r matches Ok(Lookup::Running(server)) && exists|i: int|
            0 <= i < multiplexer.servers@.len() && components(
                (#[trigger] multiplexer.servers@[i]).root@,
            ) == components(root@) && multiplexer.servers@[i].language@ == language@
                && multiplexer.servers@[i].server == *server),
        !(exists|i: int|
            0 <= i < multiplexer.servers@.len() && components(
                (#[trigger] multiplexer.servers@[i]).root@,
            ) == components(root@) && multiplexer.servers@[i].language@ == language@)
            ==> if command@.len() == 0 {
            r matches Err(BrokerError::NoCommand)
        } else {
            r matches Ok(Lookup::Start { program, arguments }) && program@ == command@[0]@
                && arguments@.len() == command@.len() - 1 && forall|k: int|
                0 <= k < arguments@.len() ==> (#[trigger] arguments@[k])@ == command@[k + 1]@
        },
{
    crate::multiplexer::law_servers_run_for_what_they_were_added_for(
        multiplexer.servers@,
        root@,
        language@,
    );
}

/// Servers are added at the end, connections are numbered one after the other from one, and
/// there is nothing at first.
pub proof fn law_adding_servers<S>(
    fresh: Multiplexer<S>,
    multiplexer: &mut Multiplexer<S>,
    root: String,
    language: String,
    server: S,
    other: &mut Multiplexer<S>,
    id: ClientId,
)
    requires
        call_ensures(Multiplexer::<S>::new, (), fresh),
        call_ensures(Multiplexer::<S>::add_server, (multiplexer, root, language, server), ()),
        call_ensures(Multiplexer::<S>::get_client_id, (other,), id),
    ensures
        fresh.servers@.len() == 0,
        fresh.next_client_id == 1,
        final(multiplexer).servers@ == old(multiplexer).servers@ + seq![
            ServerSlot { root, language, server },
        ],
        final(multiplexer).next_client_id == old(multiplexer).next_client_id,
        id == old(other).next_client_id,
        final(other).next_client_id == id + 1,
        final(other).servers@ == old(other).servers@,
{
    let slot = ServerSlot { root, language, server };
    assert(old(multiplexer).servers@ + seq![slot] =~= old(multiplexer).servers@.push(slot));
}

/// Of the servers the last is kept exactly where its mark says so, and so is each before it.
pub proof fn law_removing_servers<S>(
    multiplexer: &mut Multiplexer<S>,
    marks: Vec<bool>,
    slots: Seq<ServerSlot<S>>,
    slot: ServerSlot<S>,
    stopped: Seq<bool>,
    mark: bool,
)
    requires
        call_ensures(Multiplexer::<S>::remove_stopped, (multiplexer, &marks), ()),
        old(multiplexer).servers@ == slots.push(slot),
        marks@ == stopped.push(mark),
        slots.len() == stopped.len(),
    ensures
        final(multiplexer).servers@ == if mark {
            kept(slots, stopped)
        } else {
            kept(slots, stopped).push(slot)
        },
        final(multiplexer).next_client_id == old(multiplexer).next_client_id,
{
    law_marks_decide(slots, stopped, slot, mark);
}

/// How failures are reported.
pub proof fn law_reporting(error: BrokerError, subject: &str, r: String)
    requires
        call_ensures(BrokerError::message, (&error, subject), r),
    ensures
        error is NoCommand ==> r@ == "No command configured for language '"@ + subject@ + "'"@,
        error is MissingUri ==> r@ == "Query missing textDocument.uri"@,
        error is UnknownLanguage ==> r@ == "Could not detect language for "@ + subject@,
        error is InitializationTimedOut ==> r@ == "LSP server initialization timed out"@,
        error is QueryTimedOut ==> r@ == "LSP server query timed out"@,
{
}

} // verus!
