//! Which language a file extension stands for, and which command serves a language.

use crate::path::{join, joined};
use crate::text::{copy_texts, str_view, texts};
use vstd::hash_map::StringHashMap;
use vstd::prelude::*;

verus! {

/// How to start the server of one language.
#[derive(Debug, Clone)]
pub struct ServerConfig {
    /// The program, followed by its arguments.
    pub command: Vec<String>,
}

/// The configuration of the broker.
pub struct Config {
    /// From file extension to language.
    pub languages: StringHashMap<String>,
    /// From language to server.
    pub servers: StringHashMap<ServerConfig>,
}

/// What a [`Config`] says.
#[verifier::ext_equal]
pub struct ConfigModel {
    pub languages: Map<Seq<char>, Seq<char>>,
    pub servers: Map<Seq<char>, Seq<Seq<char>>>,
}

impl View for Config {
    type V = ConfigModel;

    open spec fn view(&self) -> ConfigModel {
        ConfigModel {
            languages: self.languages@.map_values(|s: String| s@),
            servers: self.servers@.map_values(|c: ServerConfig| texts(c.command@)),
        }
    }
}

/// The configuration that holds where none could be read.
pub open spec fn default_model() -> ConfigModel {
    ConfigModel {
        languages: map![
            "rs"@ => "rust"@,
            "py"@ => "python"@,
            "go"@ => "go"@,
            "md"@ => "markdown"@,
        ],
        servers: map![
            "rust"@ => seq!["rust-analyzer"@],
            "python"@ => seq!["pyright-langserver"@, "--stdio"@],
            "go"@ => seq!["gopls"@],
            "markdown"@ => seq!["markdown-oxide"@],
        ],
    }
}

impl Config {
    /// A configuration that says nothing.
    pub fn new() -> (r: Self)
        ensures
            r@ == (ConfigModel { languages: Map::empty(), servers: Map::empty() }),
    {
        let r = Config { languages: StringHashMap::new(), servers: StringHashMap::new() };
        assert(r@.languages =~= Map::<Seq<char>, Seq<char>>::empty());
        assert(r@.servers =~= Map::<Seq<char>, Seq<Seq<char>>>::empty());
        r
    }

    /// Lets `extension` stand for `language`.
    pub fn set_language(&mut self, extension: String, language: String)
        ensures
            final(self)@ == (ConfigModel {
                languages: old(self)@.languages.insert(extension@, language@),
                ..old(self)@
            }),
    {
        self.languages.insert(extension, language);
        assert(self@.languages =~= old(self)@.languages.insert(extension@, language@));
    }

    /// Lets `command` serve `language`.
    pub fn set_server(&mut self, language: String, command: Vec<String>)
        ensures
            final(self)@ == (ConfigModel {
                servers: old(self)@.servers.insert(language@, texts(command@)),
                ..old(self)@
            }),
    {
        let ghost words = texts(command@);
        self.servers.insert(language, ServerConfig { command });
        assert(self@.servers =~= old(self)@.servers.insert(language@, words));
    }

    /// The configuration with the default commands for Rust, Python, Go and Markdown.
    pub fn default_config() -> (r: Self)
        ensures
            r@ == default_model(),
    {
        let mut languages: StringHashMap<String> = StringHashMap::new();
        languages.insert("rs".to_owned(), "rust".to_owned());
        languages.insert("py".to_owned(), "python".to_owned());
        languages.insert("go".to_owned(), "go".to_owned());
        languages.insert("md".to_owned(), "markdown".to_owned());

        let mut servers: StringHashMap<ServerConfig> = StringHashMap::new();
        let rust = ServerConfig { command: vec!["rust-analyzer".to_owned()] };
        let python = ServerConfig {
            command: vec!["pyright-langserver".to_owned(), "--stdio".to_owned()],
        };
        let go = ServerConfig { command: vec!["gopls".to_owned()] };
        let markdown = ServerConfig { command: vec!["markdown-oxide".to_owned()] };
        assert(texts(rust.command@) == seq!["rust-analyzer"@]);
        assert(texts(python.command@) == seq!["pyright-langserver"@, "--stdio"@]);
        assert(texts(go.command@) == seq!["gopls"@]);
        assert(texts(markdown.command@) == seq!["markdown-oxide"@]);
        servers.insert("rust".to_owned(), rust);
        servers.insert("python".to_owned(), python);
        servers.insert("go".to_owned(), go);
        servers.insert("markdown".to_owned(), markdown);

        let r = Config { languages, servers };
        assert(r@.languages =~= default_model().languages);
        assert(r@.servers =~= default_model().servers);
        r
    }

    /// The configuration to work with: the one that was read, or the default where none was.
    pub fn load(read: Option<Config>) -> (r: Self)
        ensures
            match read {
                Some(config) => r == config,
                None => r@ == default_model(),
            },
    {
        match read {
            Some(config) => config,
            None => Config::default_config(),
        }
    }

    /// The command that serves `language`; empty where none is configured.
    pub fn server_command(&self, language: &str) -> (r: Vec<String>)
        ensures
            texts(r@) == command_of(self@, language@),
    {
        match self.servers.get(language) {
            Some(server) => copy_texts(&server.command),
            None => {
                let out: Vec<String> = Vec::new();
                assert(texts(out@) == Seq::<Seq<char>>::empty());
                out
            },
        }
    }
}

/// The command for `language` in `config`; empty where there is none.
pub open spec fn command_of(config: ConfigModel, language: Seq<char>) -> Seq<Seq<char>> {
    if config.servers.contains_key(language) {
        config.servers[language]
    } else {
        Seq::empty()
    }
}

/// Where the configuration is read from, below the home directory.
pub open spec fn config_path_of(home: Option<Seq<char>>) -> Seq<char> {
    let base = match home {
        Some(h) => h,
        None => "/home/tau"@,
    };
    joined(base, ".config/lsp-broker/config.toml"@)
}

/// Where the configuration is read from.
pub fn config_path(home: Option<&str>) -> (r: String)
    ensures
        r@ == config_path_of(str_view(home)),
{
    let base = match home {
        Some(h) => h,
        None => "/home/tau",
    };
    join(base, ".config/lsp-broker/config.toml")
}

/// The directory of the sockets.
pub open spec fn socket_directory(runtime_directory: Option<Seq<char>>) -> Seq<char> {
    match runtime_directory {
        Some(dir) => dir,
        None => "/run/user/1000"@,
    }
}

/// The sockets on which editors and queries connect, in this order.
pub fn socket_paths(runtime_directory: Option<&str>) -> (r: (String, String))
    ensures
        r.0@ == joined(socket_directory(str_view(runtime_directory)), "lsp-broker.sock"@),
        r.1@ == joined(socket_directory(str_view(runtime_directory)), "lsp-broker-query.sock"@),
        r.0@ == editor_socket_of(socket_directory(str_view(runtime_directory))),
        r.1@ == query_socket_of(socket_directory(str_view(runtime_directory))),
{
    let dir = match runtime_directory {
        Some(d) => d,
        None => "/run/user/1000",
    };
    (join(dir, "lsp-broker.sock"), join(dir, "lsp-broker-query.sock"))
}

/// The socket on which editors connect, in the directory `dir`.
pub open spec fn editor_socket_of(dir: Seq<char>) -> Seq<char> {
    joined(dir, "lsp-broker.sock"@)
}

/// The socket on which queries connect, in the directory `dir`.
pub open spec fn query_socket_of(dir: Seq<char>) -> Seq<char> {
    joined(dir, "lsp-broker-query.sock"@)
}

/// By default there are four extensions, for Rust, Python, Go and Markdown, and each of these
/// languages has its command.
pub proof fn law_defaults(word: Seq<char>)
    ensures
        default_model().languages.contains_key(word) <==> word == "rs"@ || word == "py"@ || word
            == "go"@ || word == "md"@,
        default_model().languages["rs"@] == "rust"@,
        default_model().languages["py"@] == "python"@,
        default_model().languages["go"@] == "go"@,
        default_model().languages["md"@] == "markdown"@,
        default_model().servers.contains_key(word) <==> word == "rust"@ || word == "python"@ || word
            == "go"@ || word == "markdown"@,
        command_of(default_model(), "rust"@) == seq!["rust-analyzer"@],
        command_of(default_model(), "python"@) == seq!["pyright-langserver"@, "--stdio"@],
        command_of(default_model(), "go"@) == seq!["gopls"@],
        command_of(default_model(), "markdown"@) == seq!["markdown-oxide"@],
{
    reveal_strlit("rs");
    reveal_strlit("py");
    reveal_strlit("go");
    reveal_strlit("md");
    reveal_strlit("rust");
    reveal_strlit("python");
    reveal_strlit("markdown");
    assert("rs"@[0] == 'r' && "py"@[0] == 'p' && "go"@[0] == 'g' && "md"@[0] == 'm');
    assert("rust"@.len() == 4 && "python"@.len() == 6 && "go"@.len() == 2 && "markdown"@.len()
        == 8);
}

/// The command for a language is the one that is configured for it, and empty where none is.
pub proof fn law_commands(config: ConfigModel, language: Seq<char>)
    ensures
        config.servers.contains_key(language) ==> command_of(config, language)
            == config.servers[language],
        !config.servers.contains_key(language) ==> command_of(config, language).len() == 0,
{
}

/// Where the configuration and the sockets are: below the home directory and the runtime
/// directory, or below fixed ones where these are not known.
pub proof fn law_places(dir: Seq<char>)
    requires
        dir.len() > 0,
        dir.last() != '/',
    ensures
        config_path_of(Some(dir)) == dir + "/"@ + ".config/lsp-broker/config.toml"@,
        config_path_of(None) == config_path_of(Some("/home/tau"@)),
        editor_socket_of(dir) == dir + "/"@ + "lsp-broker.sock"@,
        query_socket_of(dir) == dir + "/"@ + "lsp-broker-query.sock"@,
        socket_directory(Some(dir)) == dir,
        socket_directory(None) == "/run/user/1000"@,
{
    reveal_strlit(".config/lsp-broker/config.toml");
    reveal_strlit("lsp-broker.sock");
    reveal_strlit("lsp-broker-query.sock");
}

/// What a configuration says is what its fields hold.
pub proof fn law_configurations_are_what_they_hold(config: Config, word: Seq<char>)
    ensures
        config@.languages.contains_key(word) <==> config.languages@.contains_key(word),
        config.languages@.contains_key(word) ==> config@.languages[word]
            == config.languages@[word]@,
        config@.servers.contains_key(word) <==> config.servers@.contains_key(word),
        config.servers@.contains_key(word) ==> config@.servers[word].len()
            == config.servers@[word].command@.len(),
        config.servers@.contains_key(word) ==> forall|i: int|
            0 <= i < config.servers@[word].command@.len() ==> #[trigger] config@.servers[word][i]
                == config.servers@[word].command@[i]@,
{
}

/// By default every language that an extension stands for has a command.
pub proof fn law_default_languages_are_served(extension: Seq<char>)
    requires
        default_model().languages.contains_key(extension),
    ensures
        command_of(default_model(), default_model().languages[extension]).len() > 0,
{
    reveal_strlit("rust");
    reveal_strlit("python");
    reveal_strlit("go");
    reveal_strlit("markdown");
}

} // verus!
