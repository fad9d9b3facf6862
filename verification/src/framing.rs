//! The framing of messages: a header block that gives the length of the body in bytes, a blank
//! line, and the body.

use crate::text::{
    all_space, chars_of, decimal, decimal_text, decimal_value, is_digit, is_digits,
    law_nothing_else_is_a_number, law_numbers_are_read, law_numbers_are_written, law_trimming,
    law_white_space, lemma_decimal_reads_back, lemma_encode_concat, lemma_number_is_decimal,
    lemma_position_of, lemma_trimming_keeps, parse_usize, parsed_usize, position_of,
    text_of_bytes, trim, trim_end, trim_start, trimmed, whitespace,
};
use vstd::prelude::*;
use vstd::string::StringExecFns;
use vstd::utf8::{
    decode_utf8, encode_scalar, encode_utf8, is_ascii_chars, is_ascii_chars_encode_utf8,
    valid_utf8,
};

verus! {

/// Why a message could not be read.
#[derive(Debug, Clone, Copy, PartialEq, Eq, Structural)]
pub enum FrameError {
    /// The input ended before the blank line.
    Eof,
    /// A header line is not UTF-8.
    HeaderNotUtf8,
    /// The value of a `Content-Length` header is not a number.
    InvalidContentLength,
    /// The header block has no `Content-Length`.
    MissingContentLength,
    /// The input ended before the end of the body.
    Truncated,
    /// The body is not UTF-8.
    BodyNotUtf8,
}

/// How `error` is reported.
pub open spec fn frame_error_text(error: FrameError) -> Seq<char> {
    match error {
        FrameError::Eof => "EOF"@,
        FrameError::HeaderNotUtf8 => "Header is not UTF-8"@,
        FrameError::InvalidContentLength => "Invalid Content-Length header"@,
        FrameError::MissingContentLength => "Missing Content-Length header"@,
        FrameError::Truncated => "Message ended early"@,
        FrameError::BodyNotUtf8 => "Body is not UTF-8"@,
    }
}

impl FrameError {
    /// How the error is reported.
    pub fn message(&self) -> (r: String)
        ensures
            r@ == frame_error_text(*self),
    {
        match self {
            FrameError::Eof => "EOF".to_owned(),
            FrameError::HeaderNotUtf8 => "Header is not UTF-8".to_owned(),
            FrameError::InvalidContentLength => "Invalid Content-Length header".to_owned(),
            FrameError::MissingContentLength => "Missing Content-Length header".to_owned(),
            FrameError::Truncated => "Message ended early".to_owned(),
            FrameError::BodyNotUtf8 => "Body is not UTF-8".to_owned(),
        }
    }
}

/// What one header line says.
#[derive(Debug, Clone, Copy, PartialEq, Eq, Structural)]
pub enum HeaderLine {
    /// The blank line that ends the header block.
    Blank,
    /// The length of the body.
    Length(usize),
    /// A `Content-Length` header without a number.
    BadLength,
    /// Any other header.
    Other,
}

/// `c` with an ASCII capital turned into the small letter.
pub open spec fn ascii_lower(c: char) -> char {
    if 'A' <= c <= 'Z' {
        ((c as u32 + 32) as u32) as char
    } else {
        c
    }
}

/// Whether `line` is a `Content-Length` header, in whatever case its name is written.
pub open spec fn names_content_length(line: Seq<char>) -> bool {
    let name = "content-length:"@;
    line.len() >= name.len() && forall|i: int|
        0 <= i < name.len() ==> ascii_lower(#[trigger] line[i]) == name[i]
}

/// The value of a header: what stands after its name and colon, up to the next colon.
pub open spec fn header_value(line: Seq<char>) -> Seq<char> {
    let rest = line.skip("content-length:"@.len() as int);
    rest.take(position_of(rest, ':') as int)
}

/// What `line`, its line end included, says.
pub open spec fn header_line(line: Seq<char>) -> HeaderLine {
    if line == "\r\n"@ || line == "\n"@ {
        HeaderLine::Blank
    } else if names_content_length(line) {
        match parsed_usize(trimmed(header_value(line))) {
            Some(n) => HeaderLine::Length(n),
            None => HeaderLine::BadLength,
        }
    } else {
        HeaderLine::Other
    }
}

fn lower(c: char) -> (r: char)
    ensures
        r == ascii_lower(c),
{
    if 'A' <= c && c <= 'Z' {
        (c as u8 + 32) as char
    } else {
        c
    }
}

/// Reads one header line.
pub fn read_header_line(line: &str) -> (r: HeaderLine)
    ensures
        r == header_line(line@),
{
    let chars = chars_of(line);
    proof {
        reveal_strlit("\r\n");
        reveal_strlit("\n");
        reveal_strlit("content-length:");
    }
    let n: usize = chars.len();
    if (n == 2 && chars[0] == '\r' && chars[1] == '\n') || (n == 1 && chars[0] == '\n') {
        assert(line@ =~= "\r\n"@ || line@ =~= "\n"@);
        return HeaderLine::Blank;
    }
    assert(line@ != "\r\n"@ && line@ != "\n"@);
    let name = chars_of("content-length:");
    let m: usize = name.len();
    if n < m {
        return HeaderLine::Other;
    }
    for i in 0..m
        invariant
            chars@ == line@,
            name@ == "content-length:"@,
            m == name@.len(),
            n == chars@.len(),
            m <= n,
            line@ != "\r\n"@ && line@ != "\n"@,
            forall|k: int| 0 <= k < i ==> ascii_lower(#[trigger] line@[k]) == name@[k],
    {
        if lower(chars[i]) != name[i] {
            assert(ascii_lower(line@[i as int]) != name@[i as int]);
            return HeaderLine::Other;
        }
    }
    let ghost rest = line@.skip(m as int);
    let mut end: usize = m;
    while end < n && chars[end] != ':'
        invariant
            chars@ == line@,
            n == chars@.len(),
            m <= end <= n,
            rest == line@.skip(m as int),
            forall|k: int| 0 <= k < end - m ==> rest[k] != ':',
        decreases n - end,
    {
        end = end + 1;
    }
    proof {
        lemma_position_of(rest, ':', end - m);
        assert(chars@.subrange(m as int, end as int) == header_value(line@));
    }
    match parse_usize(trim(vstd::slice::slice_subrange(chars.as_slice(), m, end))) {
        Some(k) => HeaderLine::Length(k),
        None => HeaderLine::BadLength,
    }
}

/// What follows from one header line when `length` was announced before it.
pub enum HeaderStep {
    /// The block goes on, with this length announced.
    More(Option<usize>),
    /// The block is complete: the body has this many bytes.
    Body(usize),
    /// The message cannot be read.
    Failed(FrameError),
}

/// What `line` makes of a header block in which `length` was announced.
pub open spec fn header_step(length: Option<usize>, line: Seq<char>) -> HeaderStep {
    match header_line(line) {
        HeaderLine::Blank => match length {
            Some(n) => HeaderStep::Body(n),
            None => HeaderStep::Failed(FrameError::MissingContentLength),
        },
        HeaderLine::Length(n) => HeaderStep::More(Some(n)),
        HeaderLine::BadLength => HeaderStep::Failed(FrameError::InvalidContentLength),
        HeaderLine::Other => HeaderStep::More(length),
    }
}

/// A header block that is being read line by line.
pub struct HeaderReader {
    /// The length that was announced last.
    pub content_length: Option<usize>,
}

impl HeaderReader {
    /// A header block of which nothing has been read.
    pub fn new() -> (r: Self)
        ensures
            r.content_length is None,
    {
        HeaderReader { content_length: None }
    }

    /// Takes the next line, its line end included. Returns the length of the body once the
    /// block is complete.
    pub fn feed(&mut self, line: &str) -> (r: Result<Option<usize>, FrameError>)
        ensures
            match header_step(old(self).content_length, line@) {
                HeaderStep::More(length) => r == Ok::<Option<usize>, FrameError>(None)
                    && final(self).content_length == length,
                HeaderStep::Body(n) => r == Ok::<Option<usize>, FrameError>(Some(n)) && *final(self)
                    == *old(self),
                HeaderStep::Failed(e) => r == Err::<Option<usize>, FrameError>(e) && *final(self)
                    == *old(self),
            },
    {
        match read_header_line(line) {
            HeaderLine::Blank => match self.content_length {
                Some(n) => Ok(Some(n)),
                None => Err(FrameError::MissingContentLength),
            },
            HeaderLine::Length(n) => {
                self.content_length = Some(n);
                Ok(None)
            },
            HeaderLine::BadLength => Err(FrameError::InvalidContentLength),
            HeaderLine::Other => Ok(None),
        }
    }
}

/// The length of the first line of `input`, its line end included.
pub open spec fn line_length(input: Seq<u8>) -> nat {
    let k = position_of(input, 10u8);
    if k < input.len() {
        k + 1
    } else {
        input.len()
    }
}

/// A line is no longer than the input, and not empty where the input is not.
pub proof fn lemma_line_length(input: Seq<u8>)
    ensures
        line_length(input) <= input.len(),
        input.len() > 0 ==> line_length(input) > 0,
{
    lemma_position_bound(input, 10u8);
}

proof fn lemma_position_bound<T>(s: Seq<T>, x: T)
    ensures
        position_of(s, x) <= s.len(),
    decreases s.len(),
{
    if s.len() != 0 && s[0] != x {
        lemma_position_bound(s.drop_first(), x);
    }
}

/// The length of the body that the header block at the start of `input` announces, and the
/// number of bytes that the block takes, when `length` was announced before. Where the block
/// cannot be read, the error and the number of bytes up to the end of the line that failed.
pub open spec fn read_headers(input: Seq<u8>, length: Option<usize>) -> Result<
    (usize, nat),
    (FrameError, nat),
>
    decreases input.len(),
{
    let n = line_length(input);
    let line = input.take(n as int);
    if input.len() == 0 {
        Err((FrameError::Eof, 0))
    } else if !valid_utf8(line) {
        Err((FrameError::HeaderNotUtf8, n))
    } else {
        match header_step(length, decode_utf8(line)) {
            HeaderStep::More(next) => {
                proof {
                    lemma_line_length(input);
                }
                past(read_headers(input.skip(n as int), next), n)
            },
            HeaderStep::Body(size) => Ok((size, n)),
            HeaderStep::Failed(e) => Err((e, n)),
        }
    }
}

/// What `r` is when `n` more bytes come before it.
pub open spec fn past(r: Result<(usize, nat), (FrameError, nat)>, n: nat) -> Result<
    (usize, nat),
    (FrameError, nat),
> {
    match r {
        Ok((size, used)) => Ok((size, used + n)),
        Err((e, used)) => Err((e, used + n)),
    }
}

/// The message at the start of `input` and the number of bytes that it takes. Where none can be
/// read, the error and the number of bytes that were taken before it came up: up to the end of
/// the header line that failed or of the body that is not UTF-8, or all of an input that ended
/// early.
pub open spec fn read_frame(input: Seq<u8>) -> Result<(Seq<char>, nat), (FrameError, nat)> {
    match read_headers(input, None) {
        Err(e) => Err(e),
        Ok((size, start)) => {
            let body = input.subrange(start as int, start + size);
            if start + size > input.len() {
                Err((FrameError::Truncated, input.len()))
            } else if valid_utf8(body) {
                Ok((decode_utf8(body), (start + size) as nat))
            } else {
                Err((FrameError::BodyNotUtf8, (start + size) as nat))
            }
        },
    }
}

/// The bytes `lo` to `hi` of `input`, on their own.
fn copy_bytes(input: &[u8], lo: usize, hi: usize) -> (r: Vec<u8>)
    requires
        lo <= hi <= input@.len(),
    ensures
        r@ == input@.subrange(lo as int, hi as int),
{
    let mut out: Vec<u8> = Vec::new();
    for i in lo..hi
        invariant
            lo <= hi <= input@.len(),
            out@ == input@.subrange(lo as int, i as int),
    {
        out.push(input[i]);
    }
    out
}

/// The text of a body.
pub fn read_body(bytes: Vec<u8>) -> (r: Result<String, FrameError>)
    ensures
        if valid_utf8(bytes@) {
            r is Ok && r->Ok_0@ == decode_utf8(bytes@)
        } else {
            r == Err::<String, FrameError>(FrameError::BodyNotUtf8)
        },
{
    match text_of_bytes(bytes) {
        Some(text) => Ok(text),
        None => Err(FrameError::BodyNotUtf8),
    }
}

/// Reads the message at the start of `input`. Returns its body, or why it cannot be read, and
/// in either case the number of bytes that were taken from the input.
pub fn read_lsp_message(input: &[u8]) -> (r: Result<(String, usize), (FrameError, usize)>)
    ensures
        match read_frame(input@) {
            Ok((body, used)) => r matches Ok(m) && m.0@ == body && m.1 == used,
            Err((e, used)) => r matches Err(f) && f.0 == e && f.1 == used,
        },
{
    let mut reader = HeaderReader::new();
    let n: usize = input.len();
    let mut pos: usize = 0;
    assert(input@.skip(0) == input@);
    loop
        invariant
            n == input@.len(),
            pos <= n,
            read_headers(input@, None) == past(
                read_headers(input@.skip(pos as int), reader.content_length),
                pos as nat,
            ),
        decreases n - pos,
    {
        let ghost rest = input@.skip(pos as int);
        if pos == n {
            return Err((FrameError::Eof, pos));
        }
        let mut end: usize = pos;
        while end < n && input[end] != 10
            invariant
                n == input@.len(),
                pos <= end <= n,
                rest == input@.skip(pos as int),
                forall|k: int| 0 <= k < end - pos ==> rest[k] != 10,
            decreases n - end,
        {
            end = end + 1;
        }
        proof {
            lemma_position_of(rest, 10u8, end - pos);
        }
        if end < n {
            end = end + 1;
        }
        let bytes = copy_bytes(input, pos, end);
        assert(bytes@ == rest.take(line_length(rest) as int));
        match text_of_bytes(bytes) {
            None => {
                return Err((FrameError::HeaderNotUtf8, end));
            },
            Some(line) => match reader.feed(line.as_str()) {
                Err(e) => {
                    return Err((e, end));
                },
                Ok(None) => {
                    assert(rest.skip(end - pos) == input@.skip(end as int));
                    pos = end;
                },
                Ok(Some(size)) => {
                    if size > n - end {
                        return Err((FrameError::Truncated, n));
                    }
                    let body = copy_bytes(input, end, end + size);
                    return match read_body(body) {
                        Ok(text) => Ok((text, end + size)),
                        Err(e) => Err((e, end + size)),
                    };
                },
            },
        }
    }
}

/// The message with the body `body`: its length in bytes, a blank line, and the body.
pub open spec fn framed(body: Seq<char>) -> Seq<char> {
    "Content-Length: "@ + decimal(encode_utf8(body).len()) + "\r\n\r\n"@ + body
}

/// Writes the message with the body `body`.
pub fn write_lsp_message(body: &str) -> (r: String)
    ensures
        r@ == framed(body@),
{
    "Content-Length: ".to_owned().concat(decimal_text(body.as_bytes().len()).as_str()).concat(
        "\r\n\r\n",
    ).concat(body)
}

/// The header line that a message starts with.
spec fn length_line(n: nat) -> Seq<char> {
    "Content-Length: "@ + decimal(n) + "\r\n"@
}

proof fn lemma_length_line(n: nat)
    requires
        n <= usize::MAX,
    ensures
        header_line(length_line(n)) == HeaderLine::Length(n as usize),
        is_ascii_chars(length_line(n)),
        length_line(n).len() > 0,
        length_line(n).last() == '\n',
        forall|i: int| 0 <= i < length_line(n).len() - 1 ==> #[trigger] length_line(n)[i] != '\n',
{
    reveal_strlit("Content-Length: ");
    reveal_strlit("content-length:");
    reveal_strlit("\r\n");
    reveal_strlit("\n");
    lemma_decimal_reads_back(n);
    let line = length_line(n);
    let d = decimal(n);
    assert(forall|i: int| 0 <= i < d.len() ==> line[16 + i] == #[trigger] d[i]);
    assert(line[16] == d[0]);
    assert(line[0] == 'C');
    assert(names_content_length(line));
    let rest = line.skip(15);
    assert(rest == seq![' '] + d + "\r\n"@);
    assert forall|i: int| 0 <= i < rest.len() implies rest[i] != ':' by {
        if 1 <= i < 1 + d.len() {
            assert(rest[i] == d[i - 1]);
            assert(is_digit(d[i - 1]));
        }
    }
    lemma_position_of(rest, ':', rest.len() as int);
    assert(header_value(line) == rest);
    let t = d + "\r\n"@;
    assert(rest.drop_first() == t);
    assert(t[0] == d[0] && is_digit(d[0]));
    assert(trim_start(t) == t);
    assert(trim_start(rest) == t);
    let u = t.drop_last();
    assert(t.last() == '\n');
    assert(u.last() == '\r');
    assert(u.drop_last() == d);
    assert(d.last() == d[d.len() - 1] && is_digit(d[d.len() - 1]));
    assert(trim_end(d) == d);
    assert(trim_end(u) == d);
    assert(trim_end(t) == d);
    assert forall|i: int| 0 <= i < line.len() implies '\0' <= #[trigger] line[i] <= '\u{7f}' by {
        if 16 <= i < 16 + d.len() {
            assert(line[i] == d[i - 16]);
            assert(is_digit(d[i - 16]));
        }
    }
    assert forall|i: int| 0 <= i < line.len() - 1 implies #[trigger] line[i] != '\n' by {
        if 16 <= i < 16 + d.len() {
            assert(line[i] == d[i - 16]);
            assert(is_digit(d[i - 16]));
        }
    }
}

proof fn lemma_first_line(line: Seq<char>, rest: Seq<u8>)
    requires
        is_ascii_chars(line),
        line.len() > 0,
        line.last() == '\n',
        forall|i: int| 0 <= i < line.len() - 1 ==> #[trigger] line[i] != '\n',
    ensures
        line_length(encode_utf8(line) + rest) == encode_utf8(line).len(),
        valid_utf8(encode_utf8(line)),
        decode_utf8(encode_utf8(line)) == line,
        (encode_utf8(line) + rest).take(encode_utf8(line).len() as int) == encode_utf8(line),
        (encode_utf8(line) + rest).skip(encode_utf8(line).len() as int) == rest,
{
    is_ascii_chars_encode_utf8(line);
    let bytes = encode_utf8(line);
    let input = bytes + rest;
    assert forall|i: int| 0 <= i < line.len() - 1 implies input[i] != 10u8 by {
        assert(line[i] as u8 == bytes[i]);
        assert(line[i] != '\n');
    }
    assert(input[line.len() - 1] == bytes[line.len() - 1]);
    lemma_position_of(input, 10u8, line.len() - 1);
    vstd::utf8::encode_utf8_valid_utf8(line);
    vstd::utf8::encode_utf8_decode_utf8(line);
}

proof fn lemma_blank_line(rest: Seq<u8>, n: usize)
    ensures
        read_headers(encode_utf8("\r\n"@) + rest, Some(n)) == Ok::<
            (usize, nat),
            (FrameError, nat),
        >((n, encode_utf8("\r\n"@).len())),
{
    let blank = "\r\n"@;
    reveal_strlit("\r\n");
    lemma_first_line(blank, rest);
    is_ascii_chars_encode_utf8(blank);
    assert((encode_utf8(blank) + rest).len() > 0);
    assert(header_step(Some(n), blank) == HeaderStep::Body(n));
}

proof fn lemma_header_block(rest: Seq<u8>, n: usize)
    ensures
        read_headers(
            encode_utf8(length_line(n as nat)) + (encode_utf8("\r\n"@) + rest),
            None,
        ) == Ok::<(usize, nat), (FrameError, nat)>(
            (n, encode_utf8(length_line(n as nat)).len() + encode_utf8("\r\n"@).len()),
        ),
{
    let first = length_line(n as nat);
    let after = encode_utf8("\r\n"@) + rest;
    lemma_length_line(n as nat);
    lemma_first_line(first, after);
    is_ascii_chars_encode_utf8(first);
    lemma_blank_line(rest, n);
    assert((encode_utf8(first) + after).len() > 0);
    assert(header_step(None, first) == HeaderStep::More(Some(n)));
}

proof fn lemma_framed_bytes(body: Seq<char>)
    ensures
        encode_utf8(framed(body)) == encode_utf8(length_line(encode_utf8(body).len())) + (
        encode_utf8("\r\n"@) + encode_utf8(body)),
{
    let first = length_line(encode_utf8(body).len());
    let blank = "\r\n"@;
    reveal_strlit("\r\n");
    reveal_strlit("\r\n\r\n");
    assert("\r\n\r\n"@ =~= blank + blank);
    assert(framed(body) =~= first + (blank + body));
    lemma_encode_concat(first, blank + body);
    lemma_encode_concat(blank, body);
}

proof fn lemma_headers_in_bounds(input: Seq<u8>, length: Option<usize>)
    ensures
        match read_headers(input, length) {
            Ok((_, used)) => used <= input.len(),
            Err((e, used)) => used <= input.len() && (e is Eof ==> used == input.len()) && e
                !is Truncated,
        },
    decreases input.len(),
{
    if input.len() > 0 {
        lemma_line_length(input);
        let n = line_length(input);
        let line = input.take(n as int);
        if valid_utf8(line) {
            if let HeaderStep::More(next) = header_step(length, decode_utf8(line)) {
                lemma_headers_in_bounds(input.skip(n as int), next);
            }
        }
    }
}

/// Reading takes no more than there is, and takes everything where the input ends early.
pub proof fn law_reading_stays_in_the_input(input: Seq<u8>)
    ensures
        match read_frame(input) {
            Ok((_, used)) => used <= input.len(),
            Err((e, used)) => used <= input.len() && (e is Eof || e is Truncated ==> used
                == input.len()),
        },
{
    lemma_headers_in_bounds(input, None);
}

/// A message that was written is read back: the reader finds the body that the writer was
/// given, takes exactly the bytes that were written, and leaves what comes after them.
pub proof fn law_read_gives_back_what_was_written(body: Seq<char>, rest: Seq<u8>)
    requires
        encode_utf8(body).len() <= usize::MAX,
    ensures
        read_frame(encode_utf8(framed(body)) + rest) == Ok::<(Seq<char>, nat), (FrameError, nat)>(
            (body, encode_utf8(framed(body)).len()),
        ),
{
    let bytes = encode_utf8(body);
    let n = bytes.len();
    let first = encode_utf8(length_line(n));
    let blank = encode_utf8("\r\n"@);
    let input = encode_utf8(framed(body)) + rest;
    lemma_framed_bytes(body);
    assert(input =~= first + (blank + (bytes + rest)));
    lemma_header_block(bytes + rest, n as usize);
    let start = first.len() + blank.len();
    assert(input.subrange(start as int, (start + n) as int) =~= bytes);
    vstd::utf8::encode_utf8_valid_utf8(body);
    vstd::utf8::encode_utf8_decode_utf8(body);
}

/// Whether `line` is one line: it ends in a line feed and holds no other.
pub open spec fn is_line(line: Seq<char>) -> bool {
    line.len() > 0 && line.last() == '\n' && forall|i: int|
        0 <= i < line.len() - 1 ==> #[trigger] line[i] != '\n'
}

/// Whether `line` begins with the name of the length header and a colon, in capital or small
/// letters.
pub open spec fn begins_with_length_name(line: Seq<char>) -> bool {
    line.len() >= 15 && forall|i: int|
        0 <= i < 15 ==> #[trigger] line[i] == "content-length:"@[i] || line[i]
            == "CONTENT-LENGTH:"@[i]
}

/// Whether `line` ends a header block.
pub open spec fn is_blank_line(line: Seq<char>) -> bool {
    line == "\r\n"@ || line == "\n"@
}

/// Whether `line` is a header other than the length.
pub open spec fn is_other_header(line: Seq<char>) -> bool {
    is_line(line) && !is_blank_line(line) && !begins_with_length_name(line)
}

/// Whether `line` is the length header: the name, white space, the digits of a number, and white
/// space.
pub open spec fn is_length_header(
    line: Seq<char>,
    name: Seq<char>,
    left: Seq<char>,
    digits: Seq<char>,
    right: Seq<char>,
) -> bool {
    &&& is_line(line)
    &&& line == name + left + digits + right
    &&& name.len() == 15
    &&& begins_with_length_name(name)
    &&& all_space(left)
    &&& all_space(right)
    &&& is_digits(digits)
    &&& decimal_value(digits) <= usize::MAX
}

/// Whether `line` announces a body of `n` bytes.
pub open spec fn announces(line: Seq<char>, n: int) -> bool {
    exists|name: Seq<char>, left: Seq<char>, digits: Seq<char>, right: Seq<char>| #[trigger]
        is_length_header(line, name, left, digits, right) && decimal_value(digits) == n
}

/// Whether `line` is a header that can be read: the length of a body, or another header.
pub open spec fn is_good_header(line: Seq<char>) -> bool {
    is_other_header(line) || exists|n: int| #[trigger] announces(line, n)
}

/// The text of `lines`, one after the other.
pub open spec fn text_of_lines(lines: Seq<Seq<char>>) -> Seq<char>
    decreases lines.len(),
{
    if lines.len() == 0 {
        Seq::empty()
    } else {
        lines[0] + text_of_lines(lines.drop_first())
    }
}

proof fn lemma_length_name(line: Seq<char>)
    ensures
        names_content_length(line) == begins_with_length_name(line),
{
    reveal_strlit("content-length:");
    reveal_strlit("CONTENT-LENGTH:");
    if begins_with_length_name(line) {
        assert forall|i: int| 0 <= i < "content-length:"@.len() implies ascii_lower(
            #[trigger] line[i],
        ) == "content-length:"@[i] by {
            assert(line[i] == "content-length:"@[i] || line[i] == "CONTENT-LENGTH:"@[i]);
        }
    }
    if names_content_length(line) {
        assert forall|i: int| 0 <= i < 15 implies #[trigger] line[i] == "content-length:"@[i]
            || line[i] == "CONTENT-LENGTH:"@[i] by {
            assert(ascii_lower(line[i]) == "content-length:"@[i]);
            lemma_lower(line[i]);
        }
    }
}

proof fn lemma_lower(c: char)
    ensures
        'A' <= c <= 'Z' ==> ascii_lower(c) as u32 == c as u32 + 32,
        !('A' <= c <= 'Z') ==> ascii_lower(c) == c,
{
}

/// A header other than the length changes nothing: a length that was announced stays announced,
/// and where none was, none is.
pub proof fn law_other_headers_change_nothing(length: Option<usize>, line: Seq<char>)
    requires
        is_other_header(line),
    ensures
        header_step(length, line) == HeaderStep::More(length),
{
    lemma_length_name(line);
}

/// A blank line ends the header block; the body has the length that was announced.
pub proof fn law_blank_lines_end_the_headers(length: Option<usize>, line: Seq<char>)
    requires
        is_blank_line(line),
    ensures
        length matches Some(n) ==> header_step(length, line) == HeaderStep::Body(n),
        length is None ==> header_step(length, line) == HeaderStep::Failed(
            FrameError::MissingContentLength,
        ),
{
}

proof fn lemma_length_value(
    line: Seq<char>,
    name: Seq<char>,
    value: Seq<char>,
    right: Seq<char>,
)
    requires
        is_line(line),
        line == name + value + right,
        name.len() == 15,
        begins_with_length_name(name),
        !value.contains(':'),
        all_space(right),
    ensures
        names_content_length(line),
        !is_blank_line(line),
        header_value(line) == value + right,
{
    reveal_strlit("content-length:");
    reveal_strlit("\r\n");
    reveal_strlit("\n");
    assert forall|i: int| 0 <= i < 15 implies #[trigger] line[i] == "content-length:"@[i] || line[i]
        == "CONTENT-LENGTH:"@[i] by {
        assert(line[i] == name[i]);
    }
    lemma_length_name(line);
    let rest = line.skip(15);
    assert(rest =~= value + right);
    assert forall|i: int| 0 <= i < rest.len() implies rest[i] != ':' by {
        if i < value.len() {
            assert(value.contains(value[i]));
        } else {
            assert(whitespace(right[i - value.len()]));
            law_white_space(':');
        }
    }
    lemma_position_of(rest, ':', rest.len() as int);
    assert(rest.take(rest.len() as int) =~= rest);
}

/// The length header announces the number that its digits write, whatever was announced before.
pub proof fn law_length_headers_announce(length: Option<usize>, line: Seq<char>, n: int)
    requires
        announces(line, n),
    ensures
        0 <= n <= usize::MAX,
        header_step(length, line) == HeaderStep::More(Some(n as usize)),
{
    let (name, left, digits, right) = choose|
        name: Seq<char>,
        left: Seq<char>,
        digits: Seq<char>,
        right: Seq<char>,
    | #[trigger]
        is_length_header(line, name, left, digits, right) && decimal_value(digits) == n;
    let value = left + digits;
    assert(line =~= name + value + right);
    assert forall|i: int| 0 <= i < value.len() implies value[i] != ':' by {
        if i < left.len() {
            assert(whitespace(left[i]));
            law_white_space(':');
        } else {
            assert(digits[i - left.len()] <= '9');
        }
    }
    assert(!value.contains(':'));
    lemma_length_value(line, name, value, right);
    assert('0' <= digits[0] && digits[0] <= '9');
    assert('0' <= digits[digits.len() - 1] && digits[digits.len() - 1] <= '9');
    law_white_space(digits[0]);
    law_white_space(digits.last());
    law_trimming(left, digits, right);
    law_numbers_are_read(digits);
    lemma_number_is_decimal(digits);
}

/// A length header says what stands between its colon and the end of the line, without the white
/// space around it: where that is a number, the number is announced, and else the header cannot
/// be read.
pub proof fn law_lengths_are_what_the_header_says(
    length: Option<usize>,
    line: Seq<char>,
    name: Seq<char>,
    value: Seq<char>,
    right: Seq<char>,
)
    requires
        is_line(line),
        line == name + value + right,
        name.len() == 15,
        begins_with_length_name(name),
        !value.contains(':'),
        all_space(right),
    ensures
        parsed_usize(trimmed(value + right)) matches Some(n) ==> header_step(length, line)
            == HeaderStep::More(Some(n)),
        parsed_usize(trimmed(value + right)) is None ==> header_step(length, line)
            == HeaderStep::Failed(FrameError::InvalidContentLength),
{
    lemma_length_value(line, name, value, right);
}

/// The length ends at a further colon, and what comes after it is not looked at.
pub proof fn law_lengths_end_at_a_colon(
    length: Option<usize>,
    name: Seq<char>,
    left: Seq<char>,
    digits: Seq<char>,
    right: Seq<char>,
    rest: Seq<char>,
)
    requires
        name.len() == 15,
        begins_with_length_name(name),
        all_space(left),
        all_space(right),
        is_digits(digits),
        decimal_value(digits) <= usize::MAX,
    ensures
        header_step(length, name + left + digits + right + seq![':'] + rest) == HeaderStep::More(
            Some(decimal_value(digits) as usize),
        ),
{
    reveal_strlit("content-length:");
    reveal_strlit("\r\n");
    reveal_strlit("\n");
    let value = left + digits + right;
    let line = name + left + digits + right + seq![':'] + rest;
    assert forall|i: int| 0 <= i < 15 implies #[trigger] line[i] == "content-length:"@[i] || line[i]
        == "CONTENT-LENGTH:"@[i] by {
        assert(line[i] == name[i]);
    }
    lemma_length_name(line);
    let tail = line.skip(15);
    assert(tail =~= value + seq![':'] + rest);
    law_white_space(':');
    assert forall|i: int| 0 <= i < value.len() implies tail[i] != ':' by {
        assert(tail[i] == value[i]);
        if i < left.len() {
            assert(whitespace(left[i]));
        } else if i < left.len() + digits.len() {
            assert(digits[i - left.len()] <= '9');
        } else {
            assert(whitespace(right[i - left.len() - digits.len()]));
        }
    }
    lemma_position_of(tail, ':', value.len() as int);
    assert(tail.take(value.len() as int) =~= value);
    assert('0' <= digits[0] && digits[0] <= '9');
    assert('0' <= digits[digits.len() - 1] && digits[digits.len() - 1] <= '9');
    law_white_space(digits[0]);
    law_white_space(digits.last());
    law_trimming(left, digits, right);
    law_numbers_are_read(digits);
    lemma_number_is_decimal(digits);
}

/// A length header whose value holds a character that belongs to no number, or a number that is
/// too large, cannot be read.
pub proof fn law_bad_lengths_are_refused(
    length: Option<usize>,
    line: Seq<char>,
    name: Seq<char>,
    value: Seq<char>,
    right: Seq<char>,
    i: int,
)
    requires
        is_line(line),
        line == name + value + right,
        name.len() == 15,
        begins_with_length_name(name),
        !value.contains(':'),
        all_space(right),
        (0 <= i < value.len() && !whitespace(value[i]) && value[i] != '+' && !('0' <= value[i]
            <= '9')) || (is_digits(value) && decimal_value(value) > usize::MAX) || value.len() == 0,
    ensures
        header_step(length, line) == HeaderStep::Failed(FrameError::InvalidContentLength),
{
    lemma_length_value(line, name, value, right);
    let all = value + right;
    let e = Seq::<char>::empty();
    if value.len() == 0 {
        assert(all =~= e + e + right);
        law_trimming(e, e, right);
        law_nothing_else_is_a_number(e);
    } else if is_digits(value) && decimal_value(value) > usize::MAX {
        assert(all =~= e + value + right);
        assert('0' <= value[0] && value[0] <= '9');
        assert('0' <= value[value.len() - 1] && value[value.len() - 1] <= '9');
        law_white_space(value[0]);
        law_white_space(value.last());
        law_trimming(e, value, right);
        law_numbers_are_read(value);
    } else {
        assert(all[i] == value[i]);
        let k = lemma_trimming_keeps(all, i, i + 1);
        let t = trimmed(all);
        assert(t[i - k] == value[i]);
        if is_digits(t) {
            assert('0' <= t[i - k] && t[i - k] <= '9');
        }
        if t[0] == '+' && is_digits(t.drop_first()) {
            assert(i - k > 0);
            assert(t.drop_first()[i - k - 1] == value[i]);
            assert('0' <= t.drop_first()[i - k - 1] && t.drop_first()[i - k - 1] <= '9');
        }
        law_nothing_else_is_a_number(t);
    }
}

proof fn lemma_no_line_feed_byte(c: char)
    requires
        c != '\n',
    ensures
        forall|i: int|
            0 <= i < encode_scalar(c as u32).len() ==> #[trigger] encode_scalar(c as u32)[i] != 10,
{
    let scalar = c as u32;
    assert(scalar != 10);
    assert(scalar <= 0x7f ==> (scalar & 0x7f) as u8 == scalar) by (bit_vector);
    assert(forall|x: u8| #[trigger] (0xc0u8 | x) >= 0xc0) by (bit_vector);
    assert(forall|x: u8| #[trigger] (0xe0u8 | x) >= 0xe0) by (bit_vector);
    assert(forall|x: u8| #[trigger] (0xf0u8 | x) >= 0xf0) by (bit_vector);
    assert(forall|x: u8| #[trigger] (0x80u8 | x) >= 0x80) by (bit_vector);
}

proof fn lemma_no_line_feed_bytes(s: Seq<char>)
    requires
        forall|i: int| 0 <= i < s.len() ==> #[trigger] s[i] != '\n',
    ensures
        forall|i: int| 0 <= i < encode_utf8(s).len() ==> #[trigger] encode_utf8(s)[i] != 10,
    decreases s.len(),
{
    if s.len() > 0 {
        let head = encode_scalar(s[0] as u32);
        let tail = encode_utf8(s.drop_first());
        assert(s[0] != '\n');
        assert forall|i: int| 0 <= i < s.drop_first().len() implies #[trigger] s.drop_first()[i]
            != '\n' by {
            assert(s[i + 1] != '\n');
        }
        lemma_no_line_feed_bytes(s.drop_first());
        lemma_no_line_feed_byte(s[0]);
        assert(encode_utf8(s) == head + tail);
        assert forall|i: int| 0 <= i < encode_utf8(s).len() implies #[trigger] encode_utf8(s)[i]
            != 10 by {
            if i < head.len() {
                assert(head[i] != 10);
            } else {
                assert(tail[i - head.len()] != 10);
            }
        }
    }
}

proof fn lemma_line(line: Seq<char>, rest: Seq<u8>)
    requires
        is_line(line),
    ensures
        encode_utf8(line).len() > 0,
        line_length(encode_utf8(line) + rest) == encode_utf8(line).len(),
        valid_utf8(encode_utf8(line)),
        decode_utf8(encode_utf8(line)) == line,
        (encode_utf8(line) + rest).take(encode_utf8(line).len() as int) == encode_utf8(line),
        (encode_utf8(line) + rest).skip(encode_utf8(line).len() as int) == rest,
{
    let start = line.drop_last();
    let end = seq!['\n'];
    assert(line =~= start + end);
    lemma_encode_concat(start, end);
    assert forall|i: int| 0 <= i < start.len() implies #[trigger] start[i] != '\n' by {
        assert(line[i] != '\n');
    }
    lemma_no_line_feed_bytes(start);
    is_ascii_chars_encode_utf8(end);
    assert(end[0] as u8 == 10);
    assert(encode_utf8(end) =~= seq![10u8]);
    let bytes = encode_utf8(line);
    let input = bytes + rest;
    let k = encode_utf8(start).len() as int;
    assert forall|i: int| 0 <= i < k implies input[i] != 10u8 by {
        assert(input[i] == encode_utf8(start)[i]);
    }
    assert(input[k] == 10u8);
    lemma_position_of(input, 10u8, k);
    vstd::utf8::encode_utf8_valid_utf8(line);
    vstd::utf8::encode_utf8_decode_utf8(line);
    assert(input.take(bytes.len() as int) =~= bytes);
    assert(input.skip(bytes.len() as int) =~= rest);
}

proof fn lemma_good_headers(lines: Seq<Seq<char>>, rest: Seq<u8>, length: Option<usize>) -> (
    next: Option<usize>)
    requires
        forall|i: int| 0 <= i < lines.len() ==> is_good_header(#[trigger] lines[i]),
    ensures
        read_headers(encode_utf8(text_of_lines(lines)) + rest, length) == past(
            read_headers(rest, next),
            encode_utf8(text_of_lines(lines)).len(),
        ),
        (forall|i: int| 0 <= i < lines.len() ==> is_other_header(#[trigger] lines[i])) ==> next
            == length,
        length is Some ==> next is Some,
    decreases lines.len(),
{
    let bytes = encode_utf8(text_of_lines(lines));
    if lines.len() == 0 {
        assert(bytes + rest =~= rest);
        length
    } else {
        let line = lines[0];
        let others = lines.drop_first();
        assert(is_good_header(lines[0]));
        let step = if is_other_header(line) {
            law_other_headers_change_nothing(length, line);
            length
        } else {
            let n = choose|n: int| #[trigger] announces(line, n);
            law_length_headers_announce(length, line, n);
            Some(n as usize)
        };
        assert(is_line(line)) by {
            if !is_other_header(line) {
                let n = choose|n: int| #[trigger] announces(line, n);
            }
        }
        let tail = encode_utf8(text_of_lines(others)) + rest;
        lemma_encode_concat(line, text_of_lines(others));
        assert(bytes + rest =~= encode_utf8(line) + tail);
        lemma_line(line, tail);
        assert forall|i: int| 0 <= i < others.len() implies is_good_header(
            #[trigger] others[i],
        ) by {
            assert(is_good_header(lines[i + 1]));
        }
        let next = lemma_good_headers(others, rest, step);
        if forall|i: int| 0 <= i < lines.len() ==> is_other_header(#[trigger] lines[i]) {
            assert(is_other_header(lines[0]));
            assert forall|i: int| 0 <= i < others.len() implies is_other_header(
                #[trigger] others[i],
            ) by {
                assert(is_other_header(lines[i + 1]));
            }
        }
        next
    }
}

/// Whether `lines` are headers that can be read, of which the last to announce a length
/// announces `n`: headers of any kind, the length header, and headers other than the length.
pub open spec fn announce_last(
    before: Seq<Seq<char>>,
    line: Seq<char>,
    after: Seq<Seq<char>>,
    n: int,
) -> bool {
    &&& forall|i: int| 0 <= i < before.len() ==> is_good_header(#[trigger] before[i])
    &&& announces(line, n)
    &&& forall|i: int| 0 <= i < after.len() ==> is_other_header(#[trigger] after[i])
}

/// The header block made of these headers and the blank line.
pub open spec fn header_block(
    before: Seq<Seq<char>>,
    line: Seq<char>,
    after: Seq<Seq<char>>,
    blank: Seq<char>,
) -> Seq<char> {
    text_of_lines(before) + line + text_of_lines(after) + blank
}

proof fn lemma_announced(
    before: Seq<Seq<char>>,
    line: Seq<char>,
    after: Seq<Seq<char>>,
    blank: Seq<char>,
    n: int,
    rest: Seq<u8>,
)
    requires
        announce_last(before, line, after, n),
        is_blank_line(blank),
    ensures
        0 <= n <= usize::MAX,
        read_headers(encode_utf8(header_block(before, line, after, blank)) + rest, None) == Ok::<
            (usize, nat),
            (FrameError, nat),
        >((n as usize, encode_utf8(header_block(before, line, after, blank)).len())),
{
    let a = text_of_lines(before);
    let c = text_of_lines(after);
    let all = header_block(before, line, after, blank);
    assert(all =~= a + (line + (c + blank)));
    lemma_encode_concat(a, line + (c + blank));
    lemma_encode_concat(line, c + blank);
    lemma_encode_concat(c, blank);
    let t3 = encode_utf8(blank) + rest;
    let t2 = encode_utf8(c) + t3;
    let t1 = encode_utf8(line) + t2;
    assert(encode_utf8(all) + rest =~= encode_utf8(a) + t1);
    let x = lemma_good_headers(before, t1, None);
    law_length_headers_announce(x, line, n);
    lemma_line(line, t2);
    assert forall|i: int| 0 <= i < after.len() implies is_good_header(#[trigger] after[i]) by {
        assert(is_other_header(after[i]));
    }
    let y = lemma_good_headers(after, t3, Some(n as usize));
    reveal_strlit("\r\n");
    reveal_strlit("\n");
    lemma_line(blank, rest);
    law_blank_lines_end_the_headers(Some(n as usize), blank);
}

/// A message is read with the length that its headers announced last. Headers other than the
/// length, before it or after it and however many, change nothing.
pub proof fn law_messages_are_read_whatever_their_headers(
    before: Seq<Seq<char>>,
    line: Seq<char>,
    after: Seq<Seq<char>>,
    blank: Seq<char>,
    body: Seq<char>,
    rest: Seq<u8>,
)
    requires
        announce_last(before, line, after, encode_utf8(body).len() as int),
        is_blank_line(blank),
    ensures
        read_frame(
            encode_utf8(header_block(before, line, after, blank)) + encode_utf8(body) + rest,
        ) == Ok::<(Seq<char>, nat), (FrameError, nat)>(
            (
                body,
                encode_utf8(header_block(before, line, after, blank)).len()
                    + encode_utf8(body).len(),
            ),
        ),
{
    let head = encode_utf8(header_block(before, line, after, blank));
    let bytes = encode_utf8(body);
    let input = head + bytes + rest;
    assert(input =~= head + (bytes + rest));
    lemma_announced(before, line, after, blank, bytes.len() as int, bytes + rest);
    assert(input.subrange(head.len() as int, (head.len() + bytes.len()) as int) =~= bytes);
    vstd::utf8::encode_utf8_valid_utf8(body);
    vstd::utf8::encode_utf8_decode_utf8(body);
}

/// A message whose body is not UTF-8 is refused with its body; one that ends before its body is
/// complete is refused as a whole.
pub proof fn law_bad_bodies_are_refused(
    before: Seq<Seq<char>>,
    line: Seq<char>,
    after: Seq<Seq<char>>,
    blank: Seq<char>,
    n: int,
    bytes: Seq<u8>,
)
    requires
        announce_last(before, line, after, n),
        is_blank_line(blank),
    ensures
        bytes.len() < n ==> read_frame(
            encode_utf8(header_block(before, line, after, blank)) + bytes,
        ) == Err::<(Seq<char>, nat), (FrameError, nat)>(
            (
                FrameError::Truncated,
                encode_utf8(header_block(before, line, after, blank)).len() + bytes.len(),
            ),
        ),
        bytes.len() >= n && !valid_utf8(bytes.take(n)) ==> read_frame(
            encode_utf8(header_block(before, line, after, blank)) + bytes,
        ) == Err::<(Seq<char>, nat), (FrameError, nat)>(
            (
                FrameError::BodyNotUtf8,
                (encode_utf8(header_block(before, line, after, blank)).len() + n) as nat,
            ),
        ),
{
    let head = encode_utf8(header_block(before, line, after, blank));
    lemma_announced(before, line, after, blank, n, bytes);
    if bytes.len() >= n {
        assert((head + bytes).subrange(head.len() as int, head.len() + n) =~= bytes.take(n));
    }
}

/// Headers without a length are refused at the blank line, headers without a blank line where
/// the input ends, and both whatever comes before.
pub proof fn law_incomplete_headers_are_refused(
    lines: Seq<Seq<char>>,
    blank: Seq<char>,
    rest: Seq<u8>,
)
    requires
        is_blank_line(blank),
    ensures
        (forall|i: int| 0 <= i < lines.len() ==> is_other_header(#[trigger] lines[i]))
            ==> read_frame(encode_utf8(text_of_lines(lines) + blank) + rest) == Err::<
            (Seq<char>, nat),
            (FrameError, nat),
        >((FrameError::MissingContentLength, encode_utf8(text_of_lines(lines) + blank).len())),
        (forall|i: int| 0 <= i < lines.len() ==> is_good_header(#[trigger] lines[i]))
            ==> read_frame(encode_utf8(text_of_lines(lines))) == Err::<
            (Seq<char>, nat),
            (FrameError, nat),
        >((FrameError::Eof, encode_utf8(text_of_lines(lines)).len())),
{
    let text = text_of_lines(lines);
    if forall|i: int| 0 <= i < lines.len() ==> is_other_header(#[trigger] lines[i]) {
        assert forall|i: int| 0 <= i < lines.len() implies is_good_header(#[trigger] lines[i]) by {
            assert(is_other_header(lines[i]));
        }
        lemma_encode_concat(text, blank);
        let tail = encode_utf8(blank) + rest;
        assert(encode_utf8(text + blank) + rest =~= encode_utf8(text) + tail);
        let x = lemma_good_headers(lines, tail, None);
        reveal_strlit("\r\n");
        reveal_strlit("\n");
        lemma_line(blank, rest);
        law_blank_lines_end_the_headers(None, blank);
    }
    if forall|i: int| 0 <= i < lines.len() ==> is_good_header(#[trigger] lines[i]) {
        let e = Seq::<u8>::empty();
        let x = lemma_good_headers(lines, e, None);
        assert(encode_utf8(text) + e =~= encode_utf8(text));
    }
}

/// A header line that cannot be read ends the reading there: one that is not UTF-8, and one that
/// gives a bad length.
pub proof fn law_bad_headers_are_refused(
    lines: Seq<Seq<char>>,
    bytes: Seq<u8>,
    line: Seq<char>,
    rest: Seq<u8>,
)
    requires
        forall|i: int| 0 <= i < lines.len() ==> is_good_header(#[trigger] lines[i]),
    ensures
        bytes.len() > 0 && bytes.last() == 10 && (forall|i: int|
            0 <= i < bytes.len() - 1 ==> #[trigger] bytes[i] != 10) && !valid_utf8(bytes)
            ==> read_frame(encode_utf8(text_of_lines(lines)) + bytes + rest) == Err::<
            (Seq<char>, nat),
            (FrameError, nat),
        >((FrameError::HeaderNotUtf8, encode_utf8(text_of_lines(lines)).len() + bytes.len())),
        is_line(line) && (forall|length: Option<usize>| #[trigger]
            header_step(length, line) == HeaderStep::Failed(FrameError::InvalidContentLength))
            ==> read_frame(encode_utf8(text_of_lines(lines)) + encode_utf8(line) + rest) == Err::<
            (Seq<char>, nat),
            (FrameError, nat),
        >(
            (
                FrameError::InvalidContentLength,
                encode_utf8(text_of_lines(lines)).len() + encode_utf8(line).len(),
            ),
        ),
{
    let head = encode_utf8(text_of_lines(lines));
    if bytes.len() > 0 && bytes.last() == 10 && (forall|i: int|
        0 <= i < bytes.len() - 1 ==> #[trigger] bytes[i] != 10) && !valid_utf8(bytes) {
        let tail = bytes + rest;
        assert(head + bytes + rest =~= head + tail);
        let x = lemma_good_headers(lines, tail, None);
        assert forall|i: int| 0 <= i < bytes.len() - 1 implies tail[i] != 10u8 by {
            assert(bytes[i] != 10);
        }
        lemma_position_of(tail, 10u8, bytes.len() - 1);
        assert(tail.take(bytes.len() as int) =~= bytes);
    }
    if is_line(line) && (forall|length: Option<usize>| #[trigger]
        header_step(length, line) == HeaderStep::Failed(FrameError::InvalidContentLength)) {
        let tail = encode_utf8(line) + rest;
        assert(head + encode_utf8(line) + rest =~= head + tail);
        let x = lemma_good_headers(lines, tail, None);
        lemma_line(line, rest);
        assert(header_step(x, line) == HeaderStep::Failed(FrameError::InvalidContentLength));
    }
}

/// A message is written as its length in bytes, in decimal after the name of the header, a blank
/// line, and its body.
pub proof fn law_messages_are_written_with_their_length(body: Seq<char>)
    ensures
        exists|digits: Seq<char>|
            framed(body) == "Content-Length: "@ + digits + "\r\n\r\n"@ + body && #[trigger]
            is_digits(digits) && decimal_value(digits) == encode_utf8(body).len() && (digits.len()
                > 1 ==> digits[0] != '0'),
{
    law_numbers_are_written(encode_utf8(body).len());
    assert(is_digits(decimal(encode_utf8(body).len())));
}

/// How each failure to read is reported.
pub proof fn law_read_errors_are_reported(error: FrameError)
    ensures
        error is Eof ==> frame_error_text(error) == "EOF"@,
        error is MissingContentLength ==> frame_error_text(error)
            == "Missing Content-Length header"@,
        error is HeaderNotUtf8 ==> frame_error_text(error) == "Header is not UTF-8"@,
        error is InvalidContentLength ==> frame_error_text(error)
            == "Invalid Content-Length header"@,
        error is Truncated ==> frame_error_text(error) == "Message ended early"@,
        error is BodyNotUtf8 ==> frame_error_text(error) == "Body is not UTF-8"@,
{
}

} // verus!
