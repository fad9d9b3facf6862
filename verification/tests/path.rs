use lsp_broker::path::{extension, join, parent, same_path};
use std::path::Path;

const PATHS: [&str; 40] = [
    "", "/", "//", "///", ".", "./", "..", "../", "a", "a/", "a//", "/a", "//a", "/a/", "a/b",
    "a//b", "a/./b", "a/b/.", "a/b/./", "./a", "././a", "./a/b", "a/..", "a/../b", "/..", "/.",
    "/./a", ".git", "a/.git", "a.rs", "a/b.c.rs", "a/b.", "a/.b.c", "...", "a/...", "/a/b/c.py/",
    "\u{e9}/\u{e9}.rs", "a/.", "/a/./b//c/", "..a/b",
];

#[test]
fn parents_agree_with_the_standard_library() {
    for p in PATHS {
        let expected = Path::new(p).parent().map(|q| q.to_str().unwrap().to_string());
        assert_eq!(parent(p), expected, "{:?}", p);
    }
}

#[test]
fn extensions_agree_with_the_standard_library() {
    for p in PATHS {
        let expected = Path::new(p).extension().map(|e| e.to_str().unwrap().to_string());
        assert_eq!(extension(p), expected, "{:?}", p);
    }
}

#[test]
fn paths_are_the_same_when_the_standard_library_says_so() {
    for a in PATHS {
        for b in PATHS {
            assert_eq!(same_path(a, b), Path::new(a) == Path::new(b), "{:?} {:?}", a, b);
        }
    }
}

#[test]
fn joining_agrees_with_the_standard_library() {
    for a in PATHS {
        for b in [".git", "a/b", "", "/abs", "x"] {
            assert_eq!(join(a, b), Path::new(a).join(b).to_str().unwrap(), "{:?} {:?}", a, b);
        }
    }
}

#[test]
fn a_joined_name_is_the_last_component() {
    for base in ["", "/", "a", "a/", "./a", "/x//y/"] {
        let p = join(base, ".git");
        assert!(same_path(&parent(&p).unwrap(), base));
        assert_eq!(Path::new(&p).file_name().unwrap().to_str(), Some(".git"));
    }
}
