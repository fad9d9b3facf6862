use lsp_broker::config::{config_path, socket_paths, Config};
use lsp_broker::error::BrokerError;

#[test]
fn the_default_serves_four_languages() {
    let config = Config::default_config();
    for (extension, language, command) in [
        ("rs", "rust", vec!["rust-analyzer"]),
        ("py", "python", vec!["pyright-langserver", "--stdio"]),
        ("go", "go", vec!["gopls"]),
        ("md", "markdown", vec!["markdown-oxide"]),
    ] {
        assert_eq!(config.languages.get(extension).map(|s| s.as_str()), Some(language));
        assert_eq!(config.server_command(language), command);
    }
    assert_eq!(config.languages.len(), 4);
    assert_eq!(config.servers.len(), 4);
    assert!(config.server_command("cobol").is_empty());
}

#[test]
fn what_was_read_replaces_the_default() {
    let mut read = Config::new();
    read.set_language("x".to_string(), "ex".to_string());
    read.set_server("ex".to_string(), vec!["serve".to_string(), "-x".to_string()]);
    let config = Config::load(Some(read));
    assert_eq!(config.language_by_extension("a.x").as_deref(), Some("ex"));
    assert_eq!(config.server_command("ex"), vec!["serve", "-x"]);
    assert!(config.server_command("rust").is_empty());
    assert_eq!(Config::load(None).server_command("go"), vec!["gopls"]);
}

#[test]
fn files_have_their_places() {
    assert_eq!(config_path(Some("/home/me")), "/home/me/.config/lsp-broker/config.toml");
    assert_eq!(config_path(None), "/home/tau/.config/lsp-broker/config.toml");
    assert_eq!(
        socket_paths(Some("/run/user/7")),
        (
            "/run/user/7/lsp-broker.sock".to_string(),
            "/run/user/7/lsp-broker-query.sock".to_string()
        )
    );
    assert_eq!(socket_paths(None).0, "/run/user/1000/lsp-broker.sock");
}

#[test]
fn languages_are_detected_by_extension_and_then_by_first_line() {
    let config = Config::default_config();
    assert_eq!(config.language_by_extension("/a/b.rs").as_deref(), Some("rust"));
    assert_eq!(config.language_by_extension("/a/b"), None);
    assert_eq!(config.detect_language("/a/b.py", None).as_deref(), Ok("python"));
    assert_eq!(config.detect_language("/a/b.py", Some("#!/bin/sh")).as_deref(), Ok("python"));
    assert_eq!(config.detect_language("/a/b", Some("#!/bin/sh\n")).as_deref(), Ok("shell"));
    assert_eq!(config.detect_language("/a/.rs", None), Err(BrokerError::UnknownLanguage));
    assert_eq!(config.detect_language("/a/b", Some("hello")), Err(BrokerError::UnknownLanguage));
    assert_eq!(config.detect_language("/a/b.txt", None), Err(BrokerError::UnknownLanguage));
}
