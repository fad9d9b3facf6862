use lsp_broker::workspace::{
    detect_shebang_language, file_path, find_project_root, percent_decode, settle_root,
    start_directory, SearchStep,
};

#[test]
fn escapes_are_decoded() {
    assert_eq!(percent_decode("/a%20b"), "/a b");
    assert_eq!(percent_decode("%41%42"), "AB");
    assert_eq!(percent_decode("%c3%A9"), "\u{e9}");
    assert_eq!(percent_decode("/plain/\u{e9}"), "/plain/\u{e9}");
    assert_eq!(percent_decode(""), "");
}

#[test]
fn what_is_no_escape_stays() {
    assert_eq!(percent_decode("%"), "%");
    assert_eq!(percent_decode("%4"), "%4");
    assert_eq!(percent_decode("100%zz"), "100%zz");
    assert_eq!(percent_decode("%%41"), "%%41");
    assert_eq!(percent_decode("%-1"), "%-1");
    assert_eq!(percent_decode("%\u{e9}x"), "%\u{e9}x");
}

#[test]
fn a_sign_and_a_digit_are_a_number() {
    assert_eq!(percent_decode("%+9x"), "\tx");
    assert_eq!(percent_decode("%++"), "%++");
}

#[test]
fn a_result_that_is_not_utf8_is_given_up() {
    assert_eq!(percent_decode("%ff%20"), "%ff%20");
    assert_eq!(percent_decode("%a\u{e9}%20"), "%a\u{e9}%20");
    assert_eq!(percent_decode("%\u{20ac}%20"), "%\u{20ac}%20");
}

#[test]
fn a_uri_names_a_file() {
    assert_eq!(file_path("file:///home/me/a%20b.rs"), "/home/me/a b.rs");
    assert_eq!(file_path("/home/me/a.rs"), "/home/me/a.rs");
    assert_eq!(file_path("file://file:///x"), "/x");
}

#[test]
fn scripts_tell_their_language() {
    let language = |s: &str| detect_shebang_language(s);
    assert_eq!(language("#!/usr/bin/env python3\n").as_deref(), Some("python"));
    assert_eq!(language("#!/usr/bin/node\n").as_deref(), Some("javascript"));
    assert_eq!(language("#!/usr/bin/ruby").as_deref(), Some("ruby"));
    assert_eq!(language("#!/bin/bash\n").as_deref(), Some("shell"));
    assert_eq!(language("#!/bin/sh\n").as_deref(), Some("shell"));
    assert_eq!(language("#! /usr/bin/perl -w\n").as_deref(), Some("perl"));
    assert_eq!(language("#!/usr/bin/lua\n"), None);
    assert_eq!(language("#!"), None);
    assert_eq!(language(" #!/bin/sh\n"), None);
    assert_eq!(language("python\n"), None);
    assert_eq!(language(""), None);
    assert_eq!(language("#!#!/usr/bin/env python\n").as_deref(), Some("python"));
    assert_eq!(language("#!/opt/node/bin/python\n").as_deref(), Some("python"));
}

fn search(path: &str, is_file: bool, home: Option<&str>, marked: &[&str]) -> Option<String> {
    let mut search = find_project_root(path, is_file, home.map(|h| h.to_string()));
    loop {
        let (git, project_root) = search.markers();
        let has_git = marked.contains(&git.as_str());
        let has_root = marked.contains(&project_root.as_str());
        match search.step(has_git, has_root) {
            SearchStep::Found(root) => return Some(root),
            SearchStep::Climb(next) => search = next,
            SearchStep::NotFound => return None,
        }
    }
}

#[test]
fn the_nearest_marked_directory_is_the_root() {
    let marked = ["/w/p/.git", "/w/.project-root"];
    assert_eq!(search("/w/p/src/a.rs", true, None, &marked).as_deref(), Some("/w/p"));
    assert_eq!(search("/w/q/src/a.rs", true, None, &marked).as_deref(), Some("/w"));
    assert_eq!(search("/w/p", false, None, &marked).as_deref(), Some("/w/p"));
    assert_eq!(search("/", false, None, &["/.git"]).as_deref(), Some("/"));
}

#[test]
fn the_search_stops_at_the_home_directory() {
    assert_eq!(search("/home/me/x/a.rs", true, Some("/home/me/"), &["/home/.git"]), None);
    assert_eq!(
        search("/home/me/x/a.rs", true, Some("/home/me"), &["/home/me/.git"]).as_deref(),
        Some("/home/me")
    );
    assert_eq!(
        search("/home/you/x/a.rs", true, Some("/home/me"), &["/home/.git"]).as_deref(),
        Some("/home")
    );
}

#[test]
fn a_search_that_finds_nothing_ends_at_the_top() {
    assert_eq!(search("/a/b/c", false, None, &[]), None);
    assert_eq!(search("a/b/c", false, None, &[".git"]).as_deref(), Some(""));
    assert_eq!(start_directory("/a/b/c.rs", true), "/a/b");
    assert_eq!(start_directory("/a/b", false), "/a/b");
    assert_eq!(start_directory("", true), ".");
}

#[test]
fn the_root_is_where_the_search_started_if_it_found_nothing() {
    let root = |path: &str, is_file: bool, marked: &[&str]| {
        settle_root(search(path, is_file, Some("/home/me"), marked), path, is_file)
    };
    assert_eq!(root("/home/me/x/a.rs", true, &["/home/.git"]), "/home/me/x");
    assert_eq!(root("/home/me/x", false, &[]), "/home/me/x");
    assert_eq!(root("/home/me/x/a.rs", true, &["/home/me/.git"]), "/home/me");
}

#[test]
fn whole_texts_survive_escaping() {
    for text in ["", "100%", "/a b/\u{e9}\u{20ac}\u{1f600}.rs"] {
        for capital in [true, false] {
            let mut every = String::new();
            let mut some = String::new();
            for c in text.chars() {
                let mut escape = String::new();
                for b in c.to_string().bytes() {
                    if capital {
                        escape += &format!("%{:02X}", b);
                    } else {
                        escape += &format!("%{:02x}", b);
                    }
                }
                every += &escape;
                if c == '%' || c == ' ' {
                    some += &escape;
                } else {
                    some.push(c);
                }
            }
            assert_eq!(percent_decode(&every), text);
            assert_eq!(percent_decode(&some), text);
            assert_eq!(percent_decode(&format!("/\u{e9}/{}", every)), format!("/\u{e9}/{}", text));
        }
    }
    assert_eq!(percent_decode("\u{e9}%ff%20"), "\u{e9}%ff%20");
}

#[test]
fn digits_may_mix_capitals_and_small_letters() {
    assert_eq!(percent_decode("%c3%A9%Aa"), "%c3%A9%Aa");
    assert_eq!(percent_decode("%C3%a9%6a%6B%eF%bF%Bd"), "\u{e9}jk\u{fffd}");
}

#[test]
fn decoding_never_lengthens() {
    for text in ["", "%", "%4", "%%%", "%41%", "%ff", "%a\u{e9}%20", "\u{1f600}%20%C3%A9", "%+9"] {
        let decoded = percent_decode(text);
        assert!(decoded.len() <= text.len());
        assert!(decoded.chars().count() <= text.chars().count());
    }
}
