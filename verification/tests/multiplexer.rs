use lsp_broker::error::BrokerError;
use lsp_broker::multiplexer::{Lookup, Multiplexer};

fn words(list: &[&str]) -> Vec<String> {
    list.iter().map(|s| s.to_string()).collect()
}

#[test]
fn a_server_is_started_once_for_each_project_and_language() {
    let mut m: Multiplexer<u32> = Multiplexer::new();
    match m.get_or_spawn_server("/w/p", "rust", &words(&["ra", "-v", "-x"])) {
        Ok(Lookup::Start { program, arguments }) => {
            assert_eq!(program, "ra");
            assert_eq!(arguments, words(&["-v", "-x"]));
        }
        _ => panic!("not started"),
    }
    m.add_server("/w/p".to_string(), "rust".to_string(), 7);
    for root in ["/w/p", "/w/p/", "/w//p", "/w/./p"] {
        for command in [words(&[]), words(&["other"])] {
            assert!(matches!(
                m.get_or_spawn_server(root, "rust", &command),
                Ok(Lookup::Running(7))
            ));
        }
    }
    assert!(matches!(
        m.get_or_spawn_server("/w/p", "go", &words(&["gopls"])),
        Ok(Lookup::Start { .. })
    ));
    assert!(matches!(
        m.get_or_spawn_server("/w", "rust", &words(&["ra"])),
        Ok(Lookup::Start { .. })
    ));
}

#[test]
fn a_language_without_a_command_cannot_be_served() {
    let m: Multiplexer<u32> = Multiplexer::new();
    assert!(matches!(
        m.get_or_spawn_server("/w/p", "cobol", &Vec::new()),
        Err(BrokerError::NoCommand)
    ));
}

#[test]
fn connections_are_numbered_from_one() {
    let mut m: Multiplexer<u32> = Multiplexer::new();
    assert_eq!(m.get_client_id(), 1);
    assert_eq!(m.get_client_id(), 2);
    assert_eq!(m.next_client_id, 3);
}

#[test]
fn stopped_servers_are_removed() {
    let mut m: Multiplexer<u32> = Multiplexer::new();
    for (i, language) in ["a", "b", "c", "d"].iter().enumerate() {
        m.add_server("/w".to_string(), language.to_string(), i as u32);
    }
    m.remove_stopped(&vec![true, false, true, false]);
    let left: Vec<u32> = m.servers.iter().map(|s| s.server).collect();
    assert_eq!(left, vec![1, 3]);
    assert!(matches!(
        m.get_or_spawn_server("/w", "a", &words(&["x"])),
        Ok(Lookup::Start { .. })
    ));
    assert!(matches!(m.get_or_spawn_server("/w", "d", &words(&["x"])), Ok(Lookup::Running(3))));
}
