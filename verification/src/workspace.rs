//! Files and projects: which file a URI names, which directory is the root of its project, and
//! which language a script is written in.

use crate::path::{
    components, join, joined, law_parent_drops_the_last_component, parent, parent_of, same_path,
};
use crate::text::{
    chars_of, contains, has_at, law_stripping, law_white_space, lemma_encode_concat,
    lemma_text_before, lemma_trimming_keeps, occurs_at, occurs_in, strip_start, stripped, text_of,
    text_of_bytes, text_view, trim, trim_end, trim_start, trimmed, whitespace,
};
use vstd::prelude::*;
use vstd::utf8::{
    decode_utf8, encode_scalar, encode_utf8, is_ascii_chars, is_ascii_chars_encode_utf8,
    is_continuation_byte, valid_utf8,
};

verus! {

/// What a line that starts a script says after its `#!`.
pub open spec fn interpreter(line: Seq<char>) -> Seq<char> {
    trimmed(stripped(line, "#!"@))
}

/// The language of a script that begins with `line`.
pub open spec fn shebang_language(line: Seq<char>) -> Option<Seq<char>> {
    let program = interpreter(line);
    if !occurs_at("#!"@, line, 0) {
        None
    } else if occurs_in("python"@, program) {
        Some("python"@)
    } else if occurs_in("node"@, program) {
        Some("javascript"@)
    } else if occurs_in("ruby"@, program) {
        Some("ruby"@)
    } else if occurs_in("bash"@, program) || occurs_in("sh"@, program) {
        Some("shell"@)
    } else if occurs_in("perl"@, program) {
        Some("perl"@)
    } else {
        None
    }
}

/// The language of a script, from its first line.
pub fn detect_shebang_language(first_line: &str) -> (r: Option<String>)
    ensures
        match r {
            Some(language) => shebang_language(first_line@) == Some(language@),
            None => shebang_language(first_line@) is None,
        },
{
    let chars = chars_of(first_line);
    if !has_at(chars.as_slice(), chars_of("#!").as_slice(), 0) {
        return None;
    }
    let program: &[char] = trim(strip_start(chars.as_slice(), "#!"));
    if contains(program, "python") {
        Some("python".to_owned())
    } else if contains(program, "node") {
        Some("javascript".to_owned())
    } else if contains(program, "ruby") {
        Some("ruby".to_owned())
    } else if contains(program, "bash") || contains(program, "sh") {
        Some("shell".to_owned())
    } else if contains(program, "perl") {
        Some("perl".to_owned())
    } else {
        None
    }
}

/// The value of the hexadecimal digit `b`.
pub open spec fn hex_value(b: u8) -> Option<u8> {
    if 0x30 <= b <= 0x39 {
        Some((b - 0x30) as u8)
    } else if 0x41 <= b <= 0x46 {
        Some((b - 0x37) as u8)
    } else if 0x61 <= b <= 0x66 {
        Some((b - 0x57) as u8)
    } else {
        None
    }
}

/// What the two bytes after a percent sign stand for. Two hexadecimal digits, or a plus sign
/// and one, are a number; a pair that cuts a character in two counts as zero; any other pair
/// stands for nothing.
pub open spec fn escaped_byte(a: u8, b: u8) -> Option<u8> {
    if !valid_utf8(seq![a, b]) {
        Some(0)
    } else {
        match (hex_value(a), hex_value(b)) {
            (Some(high), Some(low)) => Some((high * 16 + low) as u8),
            (None, Some(low)) if a == 0x2b => Some(low),
            _ => None,
        }
    }
}

/// `s` with every escape replaced by the byte that it stands for. What is no escape stays.
pub open spec fn unescaped(s: Seq<u8>) -> Seq<u8>
    decreases s.len(),
{
    if s.len() == 0 {
        s
    } else if s[0] != 0x25 {
        seq![s[0]] + unescaped(s.skip(1))
    } else if s.len() < 3 {
        s
    } else {
        match escaped_byte(s[1], s[2]) {
            Some(b) => seq![b] + unescaped(s.skip(3)),
            None => s.take(3) + unescaped(s.skip(3)),
        }
    }
}

/// The text with its percent escapes replaced; the text itself where that is not UTF-8.
pub open spec fn percent_decoded(s: Seq<char>) -> Seq<char> {
    let bytes = unescaped(encode_utf8(s));
    if valid_utf8(bytes) {
        decode_utf8(bytes)
    } else {
        s
    }
}

fn hex_digit(b: u8) -> (r: Option<u8>)
    ensures
        r == hex_value(b),
        r matches Some(v) ==> v < 16,
{
    if 0x30 <= b && b <= 0x39 {
        Some(b - 0x30)
    } else if 0x41 <= b && b <= 0x46 {
        Some(b - 0x37)
    } else if 0x61 <= b && b <= 0x66 {
        Some(b - 0x57)
    } else {
        None
    }
}

fn escape_of(a: u8, b: u8) -> (r: Option<u8>)
    ensures
        r == escaped_byte(a, b),
{
    let pair: Vec<u8> = vec![a, b];
    assert(pair@ == seq![a, b]);
    if text_of_bytes(pair).is_none() {
        return Some(0);
    }
    match (hex_digit(a), hex_digit(b)) {
        (Some(high), Some(low)) => Some(high * 16 + low),
        (None, Some(low)) => if a == 0x2b {
            Some(low)
        } else {
            None
        },
        _ => None,
    }
}

/// Replaces the percent escapes in `s`.
pub fn percent_decode(s: &str) -> (r: String)
    ensures
        r@ == percent_decoded(s@),
{
    let bytes: &[u8] = s.as_bytes();
    let n: usize = bytes.len();
    let mut out: Vec<u8> = Vec::new();
    let mut i: usize = 0;
    assert(out@ + unescaped(bytes@.skip(0)) =~= unescaped(bytes@)) by {
        assert(bytes@.skip(0) == bytes@);
    }
    while i < n
        invariant
            n == bytes@.len(),
            i <= n,
            out@ + unescaped(bytes@.skip(i as int)) == unescaped(bytes@),
        decreases n - i,
    {
        let ghost rest = bytes@.skip(i as int);
        let ghost before = out@;
        let b: u8 = bytes[i];
        assert(rest[0] == b);
        if b != 0x25 {
            out.push(b);
            assert(rest.skip(1) == bytes@.skip(i + 1));
            assert(out@ + unescaped(rest.skip(1)) =~= before + unescaped(rest));
            i = i + 1;
        } else if n - i < 3 {
            while i < n
                invariant
                    n == bytes@.len(),
                    i <= n,
                    out@ + bytes@.skip(i as int) == unescaped(bytes@),
                decreases n - i,
            {
                let ghost copied = out@;
                out.push(bytes[i]);
                assert(out@ + bytes@.skip(i + 1) =~= copied + bytes@.skip(i as int));
                i = i + 1;
            }
            assert(unescaped(bytes@.skip(n as int)) == bytes@.skip(n as int));
        } else {
            assert(rest[1] == bytes@[i + 1] && rest[2] == bytes@[i + 2]);
            match escape_of(bytes[i + 1], bytes[i + 2]) {
                Some(v) => {
                    out.push(v);
                },
                None => {
                    out.push(b);
                    out.push(bytes[i + 1]);
                    out.push(bytes[i + 2]);
                    assert(out@ =~= before + rest.take(3));
                },
            }
            assert(rest.skip(3) == bytes@.skip(i + 3));
            assert(out@ + unescaped(rest.skip(3)) =~= before + unescaped(rest));
            i = i + 3;
        }
    }
    assert(out@ =~= unescaped(bytes@)) by {
        assert(bytes@.skip(n as int).len() == 0);
    }
    match text_of_bytes(out) {
        Some(text) => text,
        None => s.to_owned(),
    }
}

/// The path that a URI names: what is left of it without the scheme, unescaped.
pub open spec fn file_of(uri: Seq<char>) -> Seq<char> {
    percent_decoded(stripped(uri, "file://"@))
}

/// The path of the file that `uri` names.
pub fn file_path(uri: &str) -> (r: String)
    ensures
        r@ == file_of(uri@),
{
    let chars = chars_of(uri);
    percent_decode(text_of(strip_start(chars.as_slice(), "file://")).as_str())
}

/// The directory in which the search for a project starts, and which is the root where none is
/// found: the one that holds the file, or the path itself where it is no file.
pub open spec fn start_of(file_path: Seq<char>, is_file: bool) -> Seq<char> {
    if is_file {
        match parent_of(file_path) {
            Some(dir) => dir,
            None => "."@,
        }
    } else {
        file_path
    }
}

/// The directory in which the search for the project of `file_path` starts, and its root where
/// no project is found.
pub fn start_directory(file_path: &str, is_file: bool) -> (r: String)
    ensures
        r@ == start_of(file_path@, is_file),
{
    if is_file {
        match parent(file_path) {
            Some(dir) => dir,
            None => ".".to_owned(),
        }
    } else {
        file_path.to_owned()
    }
}

/// A search for the root of a project, which climbs from directory to directory.
pub struct RootSearch {
    /// The directory to look at next.
    pub current: String,
    /// The home directory, above which the search does not climb.
    pub home: Option<String>,
}

/// What comes next in a search.
pub enum SearchStep {
    /// This directory is the root.
    Found(String),
    /// Look at the next directory.
    Climb(RootSearch),
    /// There is no project: the root is the directory where the search started.
    NotFound,
}

/// What [`SearchStep`] says.
pub enum Ascent {
    Found(Seq<char>),
    Climb { current: Seq<char>, home: Option<Seq<char>> },
    NotFound,
}

impl View for SearchStep {
    type V = Ascent;

    open spec fn view(&self) -> Ascent {
        match *self {
            SearchStep::Found(root) => Ascent::Found(root@),
            SearchStep::Climb(search) => Ascent::Climb {
                current: search.current@,
                home: text_view(search.home),
            },
            SearchStep::NotFound => Ascent::NotFound,
        }
    }
}

/// What to do about the directory `dir`, given whether it holds a marker.
pub open spec fn ascent(dir: Seq<char>, home: Option<Seq<char>>, marked: bool) -> Ascent {
    if marked {
        Ascent::Found(dir)
    } else if home is Some && components(home->Some_0) == components(dir) {
        Ascent::NotFound
    } else {
        match parent_of(dir) {
            Some(up) => Ascent::Climb { current: up, home },
            None => Ascent::NotFound,
        }
    }
}

/// One of the two markers of the directory `dir`.
pub open spec fn git_marker_of(dir: Seq<char>) -> Seq<char> {
    joined(dir, ".git"@)
}

/// The other marker of the directory `dir`.
pub open spec fn root_marker_of(dir: Seq<char>) -> Seq<char> {
    joined(dir, ".project-root"@)
}

/// Starts the search for the root of the project that `file_path` belongs to.
pub fn find_project_root(file_path: &str, is_file: bool, home: Option<String>) -> (r: RootSearch)
    ensures
        r.current@ == start_of(file_path@, is_file),
        r.home == home,
{
    RootSearch { current: start_directory(file_path, is_file), home }
}

impl RootSearch {
    /// The two markers of which either makes the current directory the root of a project.
    pub fn markers(&self) -> (r: (String, String))
        ensures
            r.0@ == joined(self.current@, ".git"@),
            r.1@ == joined(self.current@, ".project-root"@),
            r.0@ == git_marker_of(self.current@),
            r.1@ == root_marker_of(self.current@),
    {
        (join(self.current.as_str(), ".git"), join(self.current.as_str(), ".project-root"))
    }

    /// Goes on, given which of the two markers exist.
    pub fn step(self, git: bool, project_root: bool) -> (r: SearchStep)
        ensures
            r@ == ascent(self.current@, text_view(self.home), git || project_root),
    {
        if git || project_root {
            return SearchStep::Found(self.current);
        }
        let at_home = match &self.home {
            Some(home) => same_path(home.as_str(), self.current.as_str()),
            None => false,
        };
        if at_home {
            return SearchStep::NotFound;
        }
        match parent(self.current.as_str()) {
            Some(up) => SearchStep::Climb(RootSearch { current: up, home: self.home }),
            None => SearchStep::NotFound,
        }
    }
}

/// Where a search that is at `dir` ends, when `marked` says which directories hold a marker.
pub open spec fn search_from(
    dir: Seq<char>,
    home: Option<Seq<char>>,
    marked: spec_fn(Seq<char>) -> bool,
) -> Option<Seq<char>>
    decreases dir.len(),
{
    match ascent(dir, home, marked(dir)) {
        Ascent::Found(root) => Some(root),
        Ascent::NotFound => None,
        Ascent::Climb { current: up, .. } => {
            proof {
                law_parent_drops_the_last_component(dir);
            }
            search_from(up, home, marked)
        },
    }
}

/// The root that follows from what a search found: the directory where it started where it
/// found nothing.
pub open spec fn root_or_start(found: Option<Seq<char>>, start: Seq<char>) -> Seq<char> {
    match found {
        Some(root) => root,
        None => start,
    }
}

/// The root of the project that `file_path` belongs to, given what a search for it found.
pub fn settle_root(found: Option<String>, file_path: &str, is_file: bool) -> (r: String)
    ensures
        r@ == root_or_start(text_view(found), start_of(file_path@, is_file)),
{
    match found {
        Some(root) => root,
        None => start_directory(file_path, is_file),
    }
}

/// The root of the project that `file_path` belongs to, when `marked` says which directories
/// hold a marker.
pub open spec fn project_root_of(
    file_path: Seq<char>,
    is_file: bool,
    home: Option<Seq<char>>,
    marked: spec_fn(Seq<char>) -> bool,
) -> Seq<char> {
    let start = start_of(file_path, is_file);
    root_or_start(search_from(start, home, marked), start)
}

/// The directory `k` levels above `dir`.
pub open spec fn ancestor(dir: Seq<char>, k: nat) -> Option<Seq<char>>
    decreases k,
{
    if k == 0 {
        Some(dir)
    } else {
        match parent_of(dir) {
            Some(up) => ancestor(up, (k - 1) as nat),
            None => None,
        }
    }
}

/// Whether a search that started in `dir` passes the directory `k` levels above: it exists,
/// holds no marker, and is not the home directory.
pub open spec fn passes(
    dir: Seq<char>,
    k: nat,
    home: Option<Seq<char>>,
    marked: spec_fn(Seq<char>) -> bool,
) -> bool {
    match ancestor(dir, k) {
        Some(a) => !marked(a) && !(home is Some && components(home->Some_0) == components(a)),
        None => false,
    }
}

/// A search finds the nearest directory that holds a marker: every directory below it holds
/// none and is not the home directory.
pub proof fn law_root_is_the_nearest_marked_directory(
    dir: Seq<char>,
    home: Option<Seq<char>>,
    marked: spec_fn(Seq<char>) -> bool,
)
    ensures
        search_from(dir, home, marked) matches Some(root) ==> exists|k: nat| #[trigger]
            ancestor(dir, k) == Some(root) && marked(root) && forall|j: nat|
                j < k ==> #[trigger] passes(dir, j, home, marked),
    decreases dir.len(),
{
    if let Ascent::Climb { current: up, .. } = ascent(dir, home, marked(dir)) {
        law_parent_drops_the_last_component(dir);
        law_root_is_the_nearest_marked_directory(up, home, marked);
        if let Some(root) = search_from(up, home, marked) {
            let k = choose|k: nat| #[trigger]
                ancestor(up, k) == Some(root) && marked(root) && forall|j: nat|
                    j < k ==> #[trigger] passes(up, j, home, marked);
            assert(ancestor(dir, k + 1) == Some(root));
            assert forall|j: nat| j < k + 1 implies #[trigger] passes(dir, j, home, marked) by {
                if j > 0 {
                    assert(passes(up, (j - 1) as nat, home, marked));
                } else {
                    assert(ancestor(dir, 0) == Some(dir));
                }
            }
        }
    } else {
        assert(ancestor(dir, 0) == Some(dir));
    }
}

/// A search finds nothing only where no directory holds a marker, from the start up to the home
/// directory, or up to the top where the home directory is not above.
pub proof fn law_search_misses_no_marked_directory(
    dir: Seq<char>,
    home: Option<Seq<char>>,
    marked: spec_fn(Seq<char>) -> bool,
    k: nat,
)
    requires
        ancestor(dir, k) is Some,
        marked(ancestor(dir, k)->Some_0),
        forall|j: nat| j < k ==> #[trigger] passes(dir, j, home, marked),
    ensures
        search_from(dir, home, marked) == ancestor(dir, k),
    decreases k,
{
    if k > 0 {
        assert(passes(dir, 0, home, marked));
        assert(ancestor(dir, 0) == Some(dir));
        let up = parent_of(dir)->Some_0;
        assert forall|j: nat| j < k - 1 implies #[trigger] passes(up, j, home, marked) by {
            assert(passes(dir, j + 1, home, marked));
        }
        law_search_misses_no_marked_directory(up, home, marked, (k - 1) as nat);
    }
}

/// Whether the directory `k` levels above `dir` holds a marker and a search that started in
/// `dir` gets there.
pub open spec fn reaches_marker(
    dir: Seq<char>,
    k: nat,
    home: Option<Seq<char>>,
    marked: spec_fn(Seq<char>) -> bool,
) -> bool {
    &&& ancestor(dir, k) is Some
    &&& marked(ancestor(dir, k)->Some_0)
    &&& forall|j: nat| j < k ==> #[trigger] passes(dir, j, home, marked)
}

/// The root of a project is the nearest directory that holds a marker, from the directory of the
/// file up to the home directory or the top; where none does, it is the directory of the file.
pub proof fn law_root_is_the_nearest_marker_or_the_start(
    file_path: Seq<char>,
    is_file: bool,
    home: Option<Seq<char>>,
    marked: spec_fn(Seq<char>) -> bool,
)
    ensures
        forall|k: nat| #[trigger]
            reaches_marker(start_of(file_path, is_file), k, home, marked) ==> ancestor(
                start_of(file_path, is_file),
                k,
            ) == Some(project_root_of(file_path, is_file, home, marked)),
        (forall|k: nat| !#[trigger] reaches_marker(start_of(file_path, is_file), k, home, marked))
            ==> project_root_of(file_path, is_file, home, marked) == start_of(file_path, is_file),
{
    let start = start_of(file_path, is_file);
    assert forall|k: nat| #[trigger] reaches_marker(start, k, home, marked) implies ancestor(
        start,
        k,
    ) == Some(project_root_of(file_path, is_file, home, marked)) by {
        law_search_misses_no_marked_directory(start, home, marked, k);
    }
    law_root_is_the_nearest_marked_directory(start, home, marked);
    if let Some(root) = search_from(start, home, marked) {
        let k = choose|k: nat| #[trigger]
            ancestor(start, k) == Some(root) && marked(root) && forall|j: nat|
                j < k ==> #[trigger] passes(start, j, home, marked);
        assert(reaches_marker(start, k, home, marked));
    }
}

proof fn lemma_nothing_to_unescape(s: Seq<u8>)
    requires
        forall|i: int| 0 <= i < s.len() ==> #[trigger] s[i] != 0x25,
    ensures
        unescaped(s) == s,
    decreases s.len(),
{
    if s.len() > 0 {
        assert(s[0] != 0x25);
        assert forall|i: int| 0 <= i < s.skip(1).len() implies #[trigger] s.skip(1)[i] != 0x25 by {
            assert(s[i + 1] != 0x25);
        }
        lemma_nothing_to_unescape(s.skip(1));
        assert(unescaped(s) =~= s);
    }
}

proof fn lemma_no_percent_byte(c: char)
    requires
        c != '%',
    ensures
        forall|i: int|
            0 <= i < encode_scalar(c as u32).len() ==> #[trigger] encode_scalar(c as u32)[i]
                != 0x25,
{
    let scalar = c as u32;
    assert(scalar != 0x25);
    assert(scalar <= 0x7f ==> (scalar & 0x7f) as u8 == scalar) by (bit_vector);
    assert(forall|x: u8| #[trigger] (0xc0u8 | x) >= 0xc0) by (bit_vector);
    assert(forall|x: u8| #[trigger] (0xe0u8 | x) >= 0xe0) by (bit_vector);
    assert(forall|x: u8| #[trigger] (0xf0u8 | x) >= 0xf0) by (bit_vector);
    assert(forall|x: u8| #[trigger] (0x80u8 | x) >= 0x80) by (bit_vector);
}

proof fn lemma_no_percent_bytes(s: Seq<char>)
    requires
        forall|i: int| 0 <= i < s.len() ==> #[trigger] s[i] != '%',
    ensures
        forall|i: int| 0 <= i < encode_utf8(s).len() ==> #[trigger] encode_utf8(s)[i] != 0x25,
    decreases s.len(),
{
    if s.len() > 0 {
        let head = encode_scalar(s[0] as u32);
        let tail = encode_utf8(s.drop_first());
        assert(s[0] != '%');
        assert forall|i: int| 0 <= i < s.drop_first().len() implies #[trigger] s.drop_first()[i]
            != '%' by {
            assert(s[i + 1] != '%');
        }
        lemma_no_percent_bytes(s.drop_first());
        lemma_no_percent_byte(s[0]);
        assert(encode_utf8(s) == head + tail);
        assert forall|i: int| 0 <= i < encode_utf8(s).len() implies #[trigger] encode_utf8(s)[i]
            != 0x25 by {
            if i < head.len() {
                assert(head[i] != 0x25);
            } else {
                assert(tail[i - head.len()] != 0x25);
            }
        }
    }
}

/// A text without a percent sign is left as it is.
pub proof fn law_nothing_to_decode(s: Seq<char>)
    requires
        !s.contains('%'),
    ensures
        percent_decoded(s) == s,
{
    assert forall|i: int| 0 <= i < s.len() implies #[trigger] s[i] != '%' by {
        assert(s.contains(s[i]));
    }
    lemma_no_percent_bytes(s);
    lemma_nothing_to_unescape(encode_utf8(s));
    vstd::utf8::encode_utf8_valid_utf8(s);
    vstd::utf8::encode_utf8_decode_utf8(s);
}

/// An escape stands for the byte whose two hexadecimal digits follow the percent sign.
pub proof fn law_escapes_stand_for_their_byte(b: u8, high: u8, low: u8, rest: Seq<u8>)
    requires
        hex_value(high) == Some(b / 16),
        hex_value(low) == Some((b % 16) as u8),
    ensures
        unescaped(seq![0x25, high, low] + rest) == seq![b] + unescaped(rest),
{
    let s = seq![0x25, high, low] + rest;
    assert(s.skip(3) =~= rest);
    let pair = seq![high, low];
    reveal_with_fuel(valid_utf8, 3);
    assert(high & 0x7f == high) by (bit_vector)
        requires
            high < 0x80,
    ;
    assert(low & 0x7f == low) by (bit_vector)
        requires
            low < 0x80,
    ;
    assert(vstd::utf8::pop_first_scalar(pair) =~= seq![low]);
    assert(vstd::utf8::pop_first_scalar(seq![low]) =~= Seq::<u8>::empty());
    assert(valid_utf8(pair));
}

proof fn lemma_unescape_past(a: Seq<u8>, rest: Seq<u8>)
    requires
        forall|i: int| 0 <= i < a.len() ==> #[trigger] a[i] != 0x25,
    ensures
        unescaped(a + rest) == a + unescaped(rest),
    decreases a.len(),
{
    if a.len() == 0 {
        assert(a + rest =~= rest);
        assert(a + unescaped(rest) =~= unescaped(rest));
    } else {
        assert(a[0] != 0x25);
        assert forall|i: int| 0 <= i < a.skip(1).len() implies #[trigger] a.skip(1)[i] != 0x25 by {
            assert(a[i + 1] != 0x25);
        }
        lemma_unescape_past(a.skip(1), rest);
        assert((a + rest).skip(1) =~= a.skip(1) + rest);
        assert(seq![a[0]] + (a.skip(1) + unescaped(rest)) =~= a + unescaped(rest));
    }
}

/// What stands before the first percent sign is left as it is, and does not change what comes
/// after it.
pub proof fn law_text_before_escapes_stays(a: Seq<char>, b: Seq<char>)
    requires
        !a.contains('%'),
    ensures
        percent_decoded(a + b) == a + percent_decoded(b),
{
    assert forall|i: int| 0 <= i < a.len() implies #[trigger] a[i] != '%' by {
        assert(a.contains(a[i]));
    }
    lemma_no_percent_bytes(a);
    lemma_encode_concat(a, b);
    lemma_unescape_past(encode_utf8(a), encode_utf8(b));
    lemma_text_before(a, unescaped(encode_utf8(b)));
}

/// Whether `text` is `bytes` with some of them escaped: each byte stands for itself, unless it is
/// a percent sign, or is written as a percent sign and two hexadecimal digits, each of which may
/// be a capital or a small letter.
pub open spec fn is_escaping(text: Seq<u8>, bytes: Seq<u8>) -> bool
    decreases bytes.len(),
{
    if bytes.len() == 0 {
        text.len() == 0
    } else {
        let b = bytes[0];
        ||| text.len() >= 1 && text[0] == b && b != 0x25 && is_escaping(text.skip(1), bytes.skip(1))
        ||| text.len() >= 3 && text[0] == 0x25 && hex_value(text[1]) == Some(b / 16) && hex_value(
            text[2],
        ) == Some((b % 16) as u8) && is_escaping(text.skip(3), bytes.skip(1))
    }
}

proof fn lemma_escaping_decodes(text: Seq<u8>, bytes: Seq<u8>)
    requires
        is_escaping(text, bytes),
    ensures
        unescaped(text) == bytes,
    decreases bytes.len(),
{
    if bytes.len() > 0 {
        let b = bytes[0];
        if text[0] == b && b != 0x25 && is_escaping(text.skip(1), bytes.skip(1)) {
            lemma_escaping_decodes(text.skip(1), bytes.skip(1));
            assert(seq![b] + bytes.skip(1) =~= bytes);
        } else {
            lemma_escaping_decodes(text.skip(3), bytes.skip(1));
            law_escapes_stand_for_their_byte(b, text[1], text[2], text.skip(3));
            assert(seq![0x25, text[1], text[2]] + text.skip(3) =~= text);
            assert(seq![b] + bytes.skip(1) =~= bytes);
        }
    } else {
        assert(text =~= bytes);
    }
}

/// Decoding gives back a text of which some bytes were escaped, whichever they are and however
/// the digits are written.
pub proof fn law_escaped_texts_are_decoded(text: Seq<char>, s: Seq<char>)
    requires
        is_escaping(encode_utf8(text), encode_utf8(s)),
    ensures
        percent_decoded(text) == s,
{
    lemma_escaping_decodes(encode_utf8(text), encode_utf8(s));
    vstd::utf8::encode_utf8_valid_utf8(s);
    vstd::utf8::encode_utf8_decode_utf8(s);
}

/// The hexadecimal digit of value `v`, as a capital or a small letter where it is a letter.
pub open spec fn hex_digit_of(v: u8, capital: bool) -> u8 {
    if v < 10 {
        (0x30 + v) as u8
    } else if capital {
        (0x37 + v) as u8
    } else {
        (0x57 + v) as u8
    }
}

/// `bytes` with every byte escaped that `chosen` names, that is not ASCII, or that is a percent
/// sign; `capital` names the bytes that are written with capitals.
pub open spec fn escaped(
    bytes: Seq<u8>,
    chosen: spec_fn(u8) -> bool,
    capital: spec_fn(u8) -> bool,
) -> Seq<char>
    decreases bytes.len(),
{
    if bytes.len() == 0 {
        Seq::empty()
    } else {
        let b = bytes[0];
        let first = if chosen(b) || b >= 0x80 || b == 0x25 {
            seq![
                '%',
                hex_digit_of(b / 16, capital(b)) as char,
                hex_digit_of((b % 16) as u8, capital(b)) as char,
            ]
        } else {
            seq![b as char]
        };
        first + escaped(bytes.skip(1), chosen, capital)
    }
}

proof fn lemma_escaped_is_escaping(
    bytes: Seq<u8>,
    chosen: spec_fn(u8) -> bool,
    capital: spec_fn(u8) -> bool,
)
    ensures
        is_escaping(encode_utf8(escaped(bytes, chosen, capital)), bytes),
    decreases bytes.len(),
{
    if bytes.len() > 0 {
        let b = bytes[0];
        let high = hex_digit_of(b / 16, capital(b));
        let low = hex_digit_of((b % 16) as u8, capital(b));
        let rest = escaped(bytes.skip(1), chosen, capital);
        let text = encode_utf8(escaped(bytes, chosen, capital));
        lemma_escaped_is_escaping(bytes.skip(1), chosen, capital);
        if chosen(b) || b >= 0x80 || b == 0x25 {
            let first = seq!['%', high as char, low as char];
            assert(is_ascii_chars(first));
            is_ascii_chars_encode_utf8(first);
            assert(first[0] as u8 == 0x25 && first[1] as u8 == high && first[2] as u8 == low);
            assert(encode_utf8(first) =~= seq![0x25, high, low]);
            lemma_encode_concat(first, rest);
            assert(text.skip(3) =~= encode_utf8(rest));
        } else {
            let first = seq![b as char];
            assert(is_ascii_chars(first));
            is_ascii_chars_encode_utf8(first);
            assert(first[0] as u8 == b);
            assert(encode_utf8(first) =~= seq![b]);
            lemma_encode_concat(first, rest);
            assert(text.skip(1) =~= encode_utf8(rest));
        }
    }
}

/// Decoding gives back a text whose bytes were escaped: all that are not ASCII, the percent
/// signs, and any choice of others.
pub proof fn law_escaped_bytes_are_decoded(
    s: Seq<char>,
    chosen: spec_fn(u8) -> bool,
    capital: spec_fn(u8) -> bool,
)
    ensures
        percent_decoded(escaped(encode_utf8(s), chosen, capital)) == s,
{
    lemma_escaped_is_escaping(encode_utf8(s), chosen, capital);
    law_escaped_texts_are_decoded(escaped(encode_utf8(s), chosen, capital), s);
}

/// How many characters `bytes` encode: how many bytes begin one.
spec fn beginnings(bytes: Seq<u8>) -> nat
    decreases bytes.len(),
{
    if bytes.len() == 0 {
        0
    } else {
        beginnings(bytes.skip(1)) + if is_continuation_byte(bytes[0]) {
            0nat
        } else {
            1
        }
    }
}

proof fn lemma_beginnings_add(a: Seq<u8>, b: Seq<u8>)
    ensures
        beginnings(a + b) == beginnings(a) + beginnings(b),
    decreases a.len(),
{
    if a.len() == 0 {
        assert(a + b =~= b);
    } else {
        lemma_beginnings_add(a.skip(1), b);
        assert((a + b).skip(1) =~= a.skip(1) + b);
    }
}

proof fn lemma_no_beginnings(bytes: Seq<u8>)
    requires
        forall|i: int| 0 <= i < bytes.len() ==> is_continuation_byte(#[trigger] bytes[i]),
    ensures
        beginnings(bytes) == 0,
    decreases bytes.len(),
{
    if bytes.len() > 0 {
        assert(is_continuation_byte(bytes[0]));
        assert forall|i: int| 0 <= i < bytes.skip(1).len() implies is_continuation_byte(
            #[trigger] bytes.skip(1)[i],
        ) by {
            assert(is_continuation_byte(bytes[i + 1]));
        }
        lemma_no_beginnings(bytes.skip(1));
    }
}

proof fn lemma_beginnings_of_char(c: char)
    ensures
        beginnings(encode_scalar(c as u32)) == 1,
{
    let scalar = c as u32;
    let bytes = encode_scalar(scalar);
    vstd::utf8::char_is_scalar(c);
    assert(scalar <= 0x7f ==> (scalar & 0x7f) as u8 == scalar) by (bit_vector);
    assert(forall|x: u8| #[trigger] (0xc0u8 | x) >= 0xc0) by (bit_vector);
    assert(forall|x: u8| #[trigger] (0xe0u8 | x) >= 0xc0) by (bit_vector);
    assert(forall|x: u8| #[trigger] (0xf0u8 | x) >= 0xc0) by (bit_vector);
    assert(forall|x: u32| 0x80 <= #[trigger] (0x80u8 | (x & 0x3f) as u8) <= 0xbf) by (bit_vector);
    assert forall|i: int| 0 <= i < bytes.skip(1).len() implies is_continuation_byte(
        #[trigger] bytes.skip(1)[i],
    ) by {
        assert(bytes.skip(1)[i] == bytes[i + 1]);
    }
    lemma_no_beginnings(bytes.skip(1));
}

proof fn lemma_beginnings_of_text(s: Seq<char>)
    ensures
        beginnings(encode_utf8(s)) == s.len(),
    decreases s.len(),
{
    if s.len() > 0 {
        lemma_beginnings_of_text(s.drop_first());
        lemma_beginnings_of_char(s[0]);
        lemma_beginnings_add(encode_scalar(s[0] as u32), encode_utf8(s.drop_first()));
    }
}

proof fn lemma_unescaping_shortens(s: Seq<u8>)
    ensures
        unescaped(s).len() <= s.len(),
        beginnings(unescaped(s)) <= beginnings(s),
    decreases s.len(),
{
    if s.len() > 0 {
        let first = seq![s[0]];
        assert(s =~= first + s.skip(1));
        if s[0] != 0x25 {
            lemma_unescaping_shortens(s.skip(1));
            lemma_beginnings_add(first, s.skip(1));
            lemma_beginnings_add(first, unescaped(s.skip(1)));
        } else if s.len() >= 3 {
            let head = s.take(3);
            lemma_unescaping_shortens(s.skip(3));
            assert(s =~= head + s.skip(3));
            lemma_beginnings_add(head, s.skip(3));
            lemma_beginnings_add(head, unescaped(s.skip(3)));
            assert(head[0] == 0x25);
            assert(beginnings(head) >= 1);
            if let Some(b) = escaped_byte(s[1], s[2]) {
                lemma_beginnings_add(seq![b], unescaped(s.skip(3)));
                assert(seq![b].skip(1).len() == 0);
                assert(beginnings(seq![b].skip(1)) == 0);
                assert(beginnings(seq![b]) <= 1);
            }
        }
    }
}

/// Decoding makes no text longer, neither in characters nor in bytes.
pub proof fn law_decoding_never_lengthens(s: Seq<char>)
    ensures
        percent_decoded(s).len() <= s.len(),
        encode_utf8(percent_decoded(s)).len() <= encode_utf8(s).len(),
{
    let bytes = unescaped(encode_utf8(s));
    lemma_unescaping_shortens(encode_utf8(s));
    if valid_utf8(bytes) {
        vstd::utf8::decode_utf8_encode_utf8(bytes);
        lemma_beginnings_of_text(s);
        lemma_beginnings_of_text(decode_utf8(bytes));
    }
}

/// Whether `b` is a hexadecimal digit.
pub open spec fn is_hex(b: u8) -> bool {
    0x30 <= b <= 0x39 || 0x41 <= b <= 0x46 || 0x61 <= b <= 0x66
}

/// What is no escape stays: a byte that is no percent sign, a percent sign with fewer than two
/// bytes after it, and one before two bytes that are neither two hexadecimal digits nor a plus
/// sign and one. Of a plus sign and a digit the digit counts. A percent sign that cuts a character
/// in two stands, with the bytes that it takes, for a zero byte.
pub proof fn law_what_is_no_escape_stays(a: u8, b: u8, rest: Seq<u8>, v: u8, capital: bool)
    ensures
        unescaped(Seq::<u8>::empty()) == Seq::<u8>::empty(),
        a != 0x25 ==> unescaped(seq![a] + rest) == seq![a] + unescaped(rest),
        unescaped(seq![0x25]) == seq![0x25u8],
        unescaped(seq![0x25, a]) == seq![0x25, a],
        valid_utf8(seq![a, b]) && !(is_hex(b) && (is_hex(a) || a == 0x2b)) ==> unescaped(
            seq![0x25, a, b] + rest,
        ) == seq![0x25, a, b] + unescaped(rest),
        v < 16 ==> unescaped(seq![0x25, 0x2b, hex_digit_of(v, capital)] + rest) == seq![v]
            + unescaped(rest),
        !valid_utf8(seq![a, b]) ==> unescaped(seq![0x25, a, b] + rest) == seq![0u8] + unescaped(
            rest,
        ),
{
    assert((seq![a] + rest).skip(1) =~= rest);
    let s = seq![0x25, a, b] + rest;
    assert(s.skip(3) =~= rest);
    assert(s.take(3) =~= seq![0x25, a, b]);
    if v < 16 {
        let d = hex_digit_of(v, capital);
        let t = seq![0x25, 0x2b, d] + rest;
        assert(t.skip(3) =~= rest);
        let pair = seq![0x2bu8, d];
        reveal_with_fuel(valid_utf8, 3);
        assert(vstd::utf8::pop_first_scalar(pair) =~= seq![d]);
        assert(vstd::utf8::pop_first_scalar(seq![d]) =~= Seq::<u8>::empty());
        assert(valid_utf8(pair));
    }
}

/// The decoded text is the one that the bytes without escapes encode; a text for which these are
/// not UTF-8 stays as it is.
pub proof fn law_decoding_gives_up(s: Seq<char>)
    ensures
        valid_utf8(unescaped(encode_utf8(s))) ==> encode_utf8(percent_decoded(s)) == unescaped(
            encode_utf8(s),
        ),
        !valid_utf8(unescaped(encode_utf8(s))) ==> percent_decoded(s) == s,
{
    if valid_utf8(unescaped(encode_utf8(s))) {
        vstd::utf8::decode_utf8_encode_utf8(unescaped(encode_utf8(s)));
    }
}

/// A URI names the file whose path, unescaped, stands after its scheme, however often the scheme
/// is written; a text without the scheme is a path itself.
pub proof fn law_files_are_named(s: Seq<char>)
    ensures
        file_of("file://"@ + s) == file_of(s),
        !"file://"@.is_prefix_of(s) ==> file_of(s) == percent_decoded(s),
        !"file://"@.is_prefix_of(s) && !s.contains('%') ==> file_of("file://"@ + s) == s,
{
    reveal_strlit("file://");
    law_stripping(s, "file://"@);
    if !s.contains('%') {
        law_nothing_to_decode(s);
    }
}

/// Whether `w` is a word of small letters.
spec fn is_word(w: Seq<char>) -> bool {
    w.len() > 0 && forall|i: int| 0 <= i < w.len() ==> 'a' <= #[trigger] w[i] && w[i] <= 'z'
}

proof fn lemma_word_after_strip(w: Seq<char>, s: Seq<char>)
    requires
        is_word(w),
    ensures
        occurs_in(w, stripped(s, "#!"@)) == occurs_in(w, s),
    decreases s.len(),
{
    reveal_strlit("#!");
    let mark = "#!"@;
    if occurs_at(mark, s, 0) {
        let t = s.skip(2);
        lemma_word_after_strip(w, t);
        assert(s[0] == s.subrange(0, 2)[0] && s[1] == s.subrange(0, 2)[1]);
        if occurs_in(w, s) {
            let i = choose|i: int| occurs_at(w, s, i);
            assert('a' <= w[0]);
            assert(s.subrange(i, i + w.len())[0] == s[i]);
            assert(i >= 2);
            assert(t.subrange(i - 2, i - 2 + w.len()) =~= s.subrange(i, i + w.len()));
            assert(occurs_at(w, t, i - 2));
        }
        if occurs_in(w, t) {
            let i = choose|i: int| occurs_at(w, t, i);
            assert(s.subrange(i + 2, i + 2 + w.len()) =~= t.subrange(i, i + w.len()));
            assert(occurs_at(w, s, i + 2));
        }
    }
}

proof fn lemma_trimmed_is_part(s: Seq<char>) -> (k: int)
    ensures
        0 <= k,
        k + trimmed(s).len() <= s.len(),
        trimmed(s) == s.subrange(k, k + trimmed(s).len()),
{
    let k = lemma_trim_start_is_part(s);
    lemma_trim_end_is_part(trim_start(s));
    assert(trimmed(s) =~= s.subrange(k, k + trimmed(s).len()));
    k
}

proof fn lemma_trim_start_is_part(s: Seq<char>) -> (k: int)
    ensures
        0 <= k <= s.len(),
        trim_start(s) == s.skip(k),
    decreases s.len(),
{
    if s.len() > 0 && whitespace(s[0]) {
        let k = lemma_trim_start_is_part(s.drop_first());
        assert(s.drop_first().skip(k) =~= s.skip(k + 1));
        k + 1
    } else {
        assert(s.skip(0) =~= s);
        0
    }
}

proof fn lemma_trim_end_is_part(s: Seq<char>)
    ensures
        trim_end(s).len() <= s.len(),
        trim_end(s) == s.take(trim_end(s).len() as int),
    decreases s.len(),
{
    if s.len() > 0 && whitespace(s.last()) {
        lemma_trim_end_is_part(s.drop_last());
        let k = trim_end(s).len() as int;
        assert(s.drop_last().take(k) =~= s.take(k));
    } else {
        assert(s.take(s.len() as int) =~= s);
    }
}

proof fn lemma_word_after_trim(w: Seq<char>, s: Seq<char>)
    requires
        is_word(w),
    ensures
        occurs_in(w, trimmed(s)) == occurs_in(w, s),
{
    let t = trimmed(s);
    if occurs_in(w, s) {
        let i = choose|i: int| occurs_at(w, s, i);
        let j = i + w.len();
        assert('a' <= w[0] && w[0] <= 'z');
        assert('a' <= w[w.len() - 1] && w[w.len() - 1] <= 'z');
        assert(s.subrange(i, j)[0] == s[i] && s.subrange(i, j)[w.len() - 1] == s[j - 1]);
        law_white_space(s[i]);
        law_white_space(s[j - 1]);
        let k = lemma_trimming_keeps(s, i, j);
        assert(t.subrange(i - k, j - k) =~= s.subrange(i, j));
        assert(occurs_at(w, t, i - k));
    }
    if occurs_in(w, t) {
        let i = choose|i: int| occurs_at(w, t, i);
        let k = lemma_trimmed_is_part(s);
        assert(s.subrange(i + k, i + k + w.len()) =~= t.subrange(i, i + w.len()));
        assert(occurs_at(w, s, i + k));
    }
}

proof fn lemma_word_in_program(w: Seq<char>, line: Seq<char>)
    requires
        is_word(w),
    ensures
        occurs_in(w, interpreter(line)) == occurs_in(w, line),
{
    lemma_word_after_strip(w, line);
    lemma_word_after_trim(w, stripped(line, "#!"@));
}

/// The language of a script: a first line that begins with the two marks tells it by the first of
/// these words that it holds anywhere, and any other line tells nothing.
pub proof fn law_scripts_tell_their_language(line: Seq<char>)
    ensures
        !"#!"@.is_prefix_of(line) ==> shebang_language(line) is None,
        "#!"@.is_prefix_of(line) ==> shebang_language(line) == if occurs_in("python"@, line) {
            Some("python"@)
        } else if occurs_in("node"@, line) {
            Some("javascript"@)
        } else if occurs_in("ruby"@, line) {
            Some("ruby"@)
        } else if occurs_in("sh"@, line) {
            Some("shell"@)
        } else if occurs_in("perl"@, line) {
            Some("perl"@)
        } else {
            None
        },
{
    reveal_strlit("#!");
    reveal_strlit("python");
    reveal_strlit("node");
    reveal_strlit("ruby");
    reveal_strlit("bash");
    reveal_strlit("sh");
    reveal_strlit("perl");
    lemma_word_in_program("python"@, line);
    lemma_word_in_program("node"@, line);
    lemma_word_in_program("ruby"@, line);
    lemma_word_in_program("bash"@, line);
    lemma_word_in_program("sh"@, line);
    lemma_word_in_program("perl"@, line);
    if occurs_in("bash"@, line) {
        let i = choose|i: int| occurs_at("bash"@, line, i);
        assert(line.subrange(i, i + 4)[2] == line[i + 2]);
        assert(line.subrange(i, i + 4)[3] == line[i + 3]);
        assert(line.subrange(i + 2, i + 4) =~= "sh"@);
        assert(occurs_at("sh"@, line, i + 2));
    }
    if "#!"@.is_prefix_of(line) {
        assert(line.subrange(0, 2) =~= "#!"@);
    }
    if occurs_at("#!"@, line, 0) {
        assert("#!"@ =~= line.subrange(0, 2));
        assert("#!"@.is_prefix_of(line));
    }
}

/// Where a search starts: in the path itself, or in the directory of the file.
pub proof fn law_searches_start_at_the_file(file_path: Seq<char>)
    ensures
        start_of(file_path, false) == file_path,
        parent_of(file_path) matches Some(dir) ==> start_of(file_path, true) == dir,
        parent_of(file_path) is None ==> start_of(file_path, true) == "."@,
{
}

/// One step of a search: a directory with a marker is the root; else the search ends in the home
/// directory, however that is written, and climbs to the parent of any other directory.
pub proof fn law_searches_climb(dir: Seq<char>, home: Option<Seq<char>>)
    ensures
        ascent(dir, home, true) == Ascent::Found(dir),
        home matches Some(h) ==> components(h) == components(dir) ==> ascent(dir, home, false)
            == Ascent::NotFound,
        (home matches Some(h) ==> components(h) != components(dir)) && parent_of(dir) is None
            ==> ascent(dir, home, false) == Ascent::NotFound,
        (home matches Some(h) ==> components(h) != components(dir)) ==> (parent_of(
            dir,
        ) matches Some(up) ==> ascent(dir, home, false) == (Ascent::Climb { current: up, home })),
{
}

/// What a search that is over comes to.
pub proof fn law_searches_end(found: Seq<char>, start: Seq<char>)
    ensures
        root_or_start(Some(found), start) == found,
        root_or_start(None, start) == start,
{
}

/// The markers of a directory are entries of it with these names.
pub proof fn law_markers(dir: Seq<char>)
    requires
        dir.len() > 0,
        dir.last() != '/',
    ensures
        git_marker_of(dir) == dir + "/"@ + ".git"@,
        root_marker_of(dir) == dir + "/"@ + ".project-root"@,
{
    reveal_strlit(".git");
    reveal_strlit(".project-root");
}

/// What a step of a search says is what it holds.
pub proof fn law_steps_are_what_they_hold(root: String, next: RootSearch)
    ensures
        SearchStep::Found(root)@ == Ascent::Found(root@),
        SearchStep::NotFound@ == Ascent::NotFound,
        next.home matches Some(h) ==> SearchStep::Climb(next)@ == (Ascent::Climb {
            current: next.current@,
            home: Some(h@),
        }),
        next.home is None ==> SearchStep::Climb(next)@ == (Ascent::Climb {
            current: next.current@,
            home: None,
        }),
{
}

} // verus!
