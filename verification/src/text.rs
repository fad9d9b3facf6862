//! Text: characters, comparison, trimming and decimal numbers.

use vstd::prelude::*;
use vstd::utf8::{
    decode_first_scalar, decode_utf8, encode_scalar, encode_utf8, pop_first_scalar,
    valid_first_scalar, valid_utf8,
};

verus! {

/// `String::push`: appends one character to the end of the string.
pub assume_specification[ String::push ](s: &mut String, ch: char)
    ensures
        final(s)@ == old(s)@.push(ch),
;

/// `String::from_utf8`: succeeds exactly on well-formed UTF-8, and then yields the text that
/// the bytes encode.
#[verifier::external_body]
pub(crate) fn text_of_bytes(bytes: Vec<u8>) -> (r: Option<String>)
    ensures
        match r {
            Some(s) => valid_utf8(bytes@) && s@ == decode_utf8(bytes@),
            None => !valid_utf8(bytes@),
        },
{
    String::from_utf8(bytes).ok()
}

/// The characters of `s` in order.
pub fn chars_of(s: &str) -> (r: Vec<char>)
    ensures
        r@ == s@,
{
    let mut out: Vec<char> = Vec::new();
    for c in it: s.chars()
        invariant
            it.seq() == s@,
            out@ == s@.take(it.index()),
    {
        out.push(c);
    }
    out
}

/// The text made of the characters of `chars`.
pub fn text_of(chars: &[char]) -> (r: String)
    ensures
        r@ == chars@,
{
    let mut out = String::new();
    for i in 0..chars.len()
        invariant
            out@ == chars@.take(i as int),
    {
        out.push(chars[i]);
    }
    assert(chars@.take(chars@.len() as int) == chars@);
    out
}

/// Whether `a` and `b` are the same text.
pub fn same_text(a: &str, b: &str) -> (r: bool)
    ensures
        r == (a@ == b@),
{
    let x: &[u8] = a.as_bytes();
    let y: &[u8] = b.as_bytes();
    proof {
        vstd::utf8::encode_utf8_decode_utf8(a@);
        vstd::utf8::encode_utf8_decode_utf8(b@);
    }
    if x.len() != y.len() {
        return false;
    }
    for i in 0..x.len()
        invariant
            x@.len() == y@.len(),
            x@ == encode_utf8(a@),
            y@ == encode_utf8(b@),
            forall|k: int| 0 <= k < i ==> x@[k] == y@[k],
    {
        if x[i] != y[i] {
            return false;
        }
    }
    assert(x@ =~= y@);
    true
}

/// The texts that `v` holds.
pub open spec fn texts(v: Seq<String>) -> Seq<Seq<char>> {
    v.map_values(|s: String| s@)
}

/// The text that an optional text holds.
pub open spec fn str_view(t: Option<&str>) -> Option<Seq<char>> {
    match t {
        Some(s) => Some(s@),
        None => None,
    }
}

/// The text that an optional text holds.
pub open spec fn text_view(t: Option<String>) -> Option<Seq<char>> {
    match t {
        Some(s) => Some(s@),
        None => None,
    }
}

/// A copy of a list of texts.
pub fn copy_texts(v: &Vec<String>) -> (r: Vec<String>)
    ensures
        texts(r@) == texts(v@),
{
    let mut out: Vec<String> = Vec::new();
    for i in 0..v.len()
        invariant
            out@.len() == i,
            forall|k: int| 0 <= k < i ==> (#[trigger] out@[k])@ == v@[k]@,
    {
        out.push(v[i].clone());
    }
    assert(texts(out@) =~= texts(v@));
    out
}

/// Whether `c` has the Unicode property White_Space.
pub open spec fn whitespace(c: char) -> bool {
    let n = c as u32;
    ||| 0x09 <= n <= 0x0d
    ||| n == 0x20
    ||| n == 0x85
    ||| n == 0xa0
    ||| n == 0x1680
    ||| 0x2000 <= n <= 0x200a
    ||| n == 0x2028
    ||| n == 0x2029
    ||| n == 0x202f
    ||| n == 0x205f
    ||| n == 0x3000
}

/// Whether `c` is white space.
pub fn is_space(c: char) -> (r: bool)
    ensures
        r == whitespace(c),
{
    let n: u32 = c as u32;
    (0x09 <= n && n <= 0x0d) || n == 0x20 || n == 0x85 || n == 0xa0 || n == 0x1680 || (0x2000 <= n
        && n <= 0x200a) || n == 0x2028 || n == 0x2029 || n == 0x202f || n == 0x205f || n == 0x3000
}

/// `s` without the white space at its start.
pub open spec fn trim_start(s: Seq<char>) -> Seq<char>
    decreases s.len(),
{
    if s.len() > 0 && whitespace(s[0]) {
        trim_start(s.drop_first())
    } else {
        s
    }
}

/// `s` without the white space at its end.
pub open spec fn trim_end(s: Seq<char>) -> Seq<char>
    decreases s.len(),
{
    if s.len() > 0 && whitespace(s.last()) {
        trim_end(s.drop_last())
    } else {
        s
    }
}

/// `s` without the white space at either end.
pub open spec fn trimmed(s: Seq<char>) -> Seq<char> {
    trim_end(trim_start(s))
}

/// Strips white space from both ends.
pub fn trim(s: &[char]) -> (r: &[char])
    ensures
        r@ == trimmed(s@),
{
    let mut lo: usize = 0;
    assert(s@.skip(0) == s@);
    while lo < s.len() && is_space(s[lo])
        invariant
            lo <= s@.len(),
            trim_start(s@) == trim_start(s@.skip(lo as int)),
        decreases s@.len() - lo,
    {
        assert(s@.skip(lo as int).drop_first() == s@.skip(lo + 1));
        lo = lo + 1;
    }
    let mut hi: usize = s.len();
    assert(s@.skip(lo as int) == s@.subrange(lo as int, hi as int));
    while lo < hi && is_space(s[hi - 1])
        invariant
            lo <= hi <= s@.len(),
            trim_end(trim_start(s@)) == trim_end(s@.subrange(lo as int, hi as int)),
        decreases hi,
    {
        assert(s@.subrange(lo as int, hi as int).drop_last() == s@.subrange(lo as int, hi - 1));
        hi = hi - 1;
    }
    vstd::slice::slice_subrange(s, lo, hi)
}

/// Whether `c` is a decimal digit.
pub open spec fn is_digit(c: char) -> bool {
    '0' <= c <= '9'
}

/// Whether `s` holds nothing but decimal digits.
pub open spec fn all_digits(s: Seq<char>) -> bool {
    forall|i: int| 0 <= i < s.len() ==> is_digit(#[trigger] s[i])
}

/// The value of the decimal digit `c`.
pub open spec fn digit_value(c: char) -> nat {
    if is_digit(c) {
        (c as u32 - '0' as u32) as nat
    } else {
        0
    }
}

/// The number that a row of decimal digits writes.
pub open spec fn number_of(s: Seq<char>) -> nat
    decreases s.len(),
{
    if s.len() == 0 {
        0
    } else {
        number_of(s.drop_last()) * 10 + digit_value(s.last())
    }
}

/// The digits of a number that may start with a plus sign.
pub open spec fn unsigned_part(s: Seq<char>) -> Seq<char> {
    if s.len() > 0 && s[0] == '+' {
        s.drop_first()
    } else {
        s
    }
}

/// The number that `s` writes: an optional plus sign, then at least one digit and nothing else,
/// with a value that a `usize` holds.
pub open spec fn parsed_usize(s: Seq<char>) -> Option<usize> {
    let digits = unsigned_part(s);
    if digits.len() > 0 && all_digits(digits) && number_of(digits) <= usize::MAX {
        Some(number_of(digits) as usize)
    } else {
        None
    }
}

proof fn lemma_number_of_prefix(s: Seq<char>, i: int)
    requires
        0 <= i <= s.len(),
    ensures
        number_of(s.take(i)) <= number_of(s),
    decreases s.len(),
{
    if i < s.len() {
        lemma_number_of_prefix(s.drop_last(), i);
        assert(s.drop_last().take(i) == s.take(i));
    } else {
        assert(s.take(i) == s);
    }
}

/// Reads a number.
pub fn parse_usize(s: &[char]) -> (r: Option<usize>)
    ensures
        r == parsed_usize(s@),
{
    let start: usize = if s.len() > 0 && s[0] == '+' { 1 } else { 0 };
    let ghost digits = unsigned_part(s@);
    assert(digits == s@.skip(start as int));
    if start == s.len() {
        return None;
    }
    let mut n: usize = 0;
    for i in start..s.len()
        invariant
            start <= s@.len(),
            digits == s@.skip(start as int),
            digits == unsigned_part(s@),
            forall|k: int| 0 <= k < i - start ==> is_digit(digits[k]),
            n == number_of(digits.take(i - start)),
    {
        let c: char = s[i];
        assert(c == digits[i - start]);
        if c < '0' || '9' < c {
            assert(!is_digit(digits[i - start]));
            return None;
        }
        let d: usize = (c as u32 - '0' as u32) as usize;
        assert(digits.take(i - start + 1).drop_last() == digits.take(i - start));
        proof {
            lemma_number_of_prefix(digits, i - start + 1);
        }
        match n.checked_mul(10) {
            None => {
                return None;
            },
            Some(m) => {
                match m.checked_add(d) {
                    None => {
                        return None;
                    },
                    Some(k) => {
                        n = k;
                    },
                }
            },
        }
    }
    assert(digits.take(digits.len() as int) == digits);
    Some(n)
}

/// The decimal digit of value `d`.
pub open spec fn digit(d: nat) -> char {
    (('0' as u32 + d) as u32) as char
}

/// The number `n` in decimal, without leading zeros.
pub open spec fn decimal(n: nat) -> Seq<char>
    decreases n,
{
    if n < 10 {
        seq![digit(n)]
    } else {
        decimal(n / 10).push(digit(n % 10))
    }
}

/// Reading a number that was written in decimal gives the number back.
pub proof fn lemma_decimal_reads_back(n: nat)
    ensures
        decimal(n).len() > 0,
        all_digits(decimal(n)),
        number_of(decimal(n)) == n,
        n <= usize::MAX ==> parsed_usize(decimal(n)) == Some(n as usize),
    decreases n,
{
    assert(forall|d: nat| d < 10 ==> is_digit(#[trigger] digit(d)) && digit_value(digit(d)) == d);
    if n < 10 {
        assert(decimal(n).drop_last() == Seq::<char>::empty());
        assert(number_of(decimal(n).drop_last()) == 0);
    } else {
        lemma_decimal_reads_back(n / 10);
        assert(decimal(n).drop_last() == decimal(n / 10));
    }
    assert(is_digit(decimal(n)[0]));
    assert(unsigned_part(decimal(n)) == decimal(n));
}

/// Writes a number in decimal.
pub fn decimal_text(n: usize) -> (r: String)
    ensures
        r@ == decimal(n as nat),
    decreases n,
{
    let mut out = if n < 10 { String::new() } else { decimal_text(n / 10) };
    out.push(digit_char((n % 10) as u32));
    assert(out@ == decimal(n as nat));
    out
}

fn digit_char(d: u32) -> (r: char)
    requires
        d < 10,
    ensures
        r == digit(d as nat),
{
    ('0' as u8 + d as u8) as char
}

/// Whether `w` occurs in `s` without a gap.
pub open spec fn occurs_in(w: Seq<char>, s: Seq<char>) -> bool {
    exists|i: int| occurs_at(w, s, i)
}

/// Whether `w` occurs in `s` from position `i` on.
pub open spec fn occurs_at(w: Seq<char>, s: Seq<char>, i: int) -> bool {
    0 <= i && i + w.len() <= s.len() && s.subrange(i, i + w.len()) == w
}

/// Whether `w` occurs in `s` from position `at` on.
pub fn has_at(s: &[char], w: &[char], at: usize) -> (r: bool)
    ensures
        r == occurs_at(w@, s@, at as int),
{
    let n: usize = s.len();
    if at > n || w.len() > n - at {
        return false;
    }
    for k in 0..w.len()
        invariant
            at + w@.len() <= n,
            n == s@.len(),
            forall|j: int| 0 <= j < k ==> s@[at + j] == w@[j],
    {
        if s[at + k] != w[k] {
            assert(s@.subrange(at as int, at + w@.len())[k as int] != w@[k as int]);
            return false;
        }
    }
    assert(s@.subrange(at as int, at + w@.len()) =~= w@);
    true
}

/// Whether `w` occurs in `s`.
pub fn contains(s: &[char], w: &str) -> (r: bool)
    ensures
        r == occurs_in(w@, s@),
{
    let word = chars_of(w);
    for i in 0..s.len()
        invariant
            word@ == w@,
            forall|j: int| 0 <= j < i ==> !occurs_at(w@, s@, j),
    {
        if has_at(s, word.as_slice(), i) {
            return true;
        }
    }
    if has_at(s, word.as_slice(), s.len()) {
        return true;
    }
    false
}

/// `s` without any repetition of `w` at its start.
pub open spec fn stripped(s: Seq<char>, w: Seq<char>) -> Seq<char>
    decreases s.len(),
{
    if w.len() > 0 && occurs_at(w, s, 0) {
        stripped(s.skip(w.len() as int), w)
    } else {
        s
    }
}

/// Strips every repetition of `w` from the start of `s`.
pub fn strip_start<'a>(s: &'a [char], w: &str) -> (r: &'a [char])
    ensures
        r@ == stripped(s@, w@),
{
    let word = chars_of(w);
    let n: usize = s.len();
    let mut at: usize = 0;
    assert(s@.skip(0) == s@);
    if word.len() > 0 {
        while has_at(s, word.as_slice(), at)
            invariant
                word@ == w@,
                word@.len() > 0,
                n == s@.len(),
                at <= n,
                stripped(s@, w@) == stripped(s@.skip(at as int), w@),
            decreases s@.len() - at,
        {
            let ghost rest = s@.skip(at as int);
            assert(rest.subrange(0, w@.len() as int) == s@.subrange(at as int, at + w@.len()));
            assert(occurs_at(w@, rest, 0));
            assert(rest.skip(w@.len() as int) == s@.skip(at + w@.len()));
            at = at + word.len();
        }
        let ghost rest = s@.skip(at as int);
        assert(!occurs_at(w@, rest, 0)) by {
            if occurs_at(w@, rest, 0) {
                assert(rest.subrange(0, w@.len() as int) == s@.subrange(at as int, at + w@.len()));
            }
        }
    }
    vstd::slice::slice_subrange(s, at, n)
}

/// The position of the first `x` in `s`, or the length of `s` where there is none.
pub open spec fn position_of<T>(s: Seq<T>, x: T) -> nat
    decreases s.len(),
{
    if s.len() == 0 || s[0] == x {
        0
    } else {
        1 + position_of(s.drop_first(), x)
    }
}

pub(crate) proof fn lemma_position_of<T>(s: Seq<T>, x: T, k: int)
    requires
        0 <= k <= s.len(),
        forall|i: int| 0 <= i < k ==> s[i] != x,
        k == s.len() || s[k] == x,
    ensures
        position_of(s, x) == k,
    decreases s.len(),
{
    if k > 0 {
        let t = s.drop_first();
        assert(forall|i: int| 0 <= i < k - 1 ==> t[i] == s[i + 1]);
        lemma_position_of(t, x, k - 1);
    }
}

pub(crate) proof fn lemma_encode_concat(a: Seq<char>, b: Seq<char>)
    ensures
        encode_utf8(a + b) == encode_utf8(a) + encode_utf8(b),
    decreases a.len(),
{
    if a.len() == 0 {
        assert(a + b == b);
        assert(encode_utf8(a) == Seq::<u8>::empty());
        assert(encode_utf8(a) + encode_utf8(b) == encode_utf8(b));
    } else {
        lemma_encode_concat(a.drop_first(), b);
        assert((a + b).drop_first() == a.drop_first() + b);
        assert(encode_utf8(a + b) == encode_utf8(a) + encode_utf8(b));
    }
}

proof fn lemma_first_char(c: char, rest: Seq<u8>)
    ensures
        valid_first_scalar(encode_scalar(c as u32) + rest),
        decode_first_scalar(encode_scalar(c as u32) + rest) as char == c,
        pop_first_scalar(encode_scalar(c as u32) + rest) == rest,
{
    let head = encode_scalar(c as u32);
    let one = seq![c];
    vstd::utf8::encode_utf8_first_scalar(one);
    assert(one.drop_first() =~= Seq::<char>::empty());
    assert(encode_utf8(one.drop_first()) =~= Seq::<u8>::empty());
    assert(encode_utf8(one) =~= head);
    let all = head + rest;
    assert(forall|i: int| 0 <= i < head.len() ==> #[trigger] all[i] == head[i]);
    vstd::utf8::char_u32_cast(c, decode_first_scalar(all));
    assert(pop_first_scalar(all) =~= rest);
}

/// Whether bytes are UTF-8, and what they say, does not depend on the text before them.
pub(crate) proof fn lemma_text_before(a: Seq<char>, rest: Seq<u8>)
    ensures
        valid_utf8(encode_utf8(a) + rest) == valid_utf8(rest),
        valid_utf8(rest) ==> decode_utf8(encode_utf8(a) + rest) == a + decode_utf8(rest),
    decreases a.len(),
{
    if a.len() == 0 {
        assert(encode_utf8(a) + rest =~= rest);
        assert(a + decode_utf8(rest) =~= decode_utf8(rest));
    } else {
        let tail = encode_utf8(a.drop_first()) + rest;
        assert(encode_utf8(a) + rest =~= encode_scalar(a[0] as u32) + tail);
        lemma_first_char(a[0], tail);
        lemma_text_before(a.drop_first(), rest);
        if valid_utf8(rest) {
            assert(seq![a[0]] + (a.drop_first() + decode_utf8(rest)) =~= a + decode_utf8(rest));
        }
    }
}

/// The list of texts holds the text of each string at its place.
pub proof fn law_texts_keep_their_places(v: Seq<String>, i: int)
    requires
        0 <= i < v.len(),
    ensures
        texts(v).len() == v.len(),
        texts(v)[i] == v[i]@,
{
}

/// White space is what Unicode calls so: the ASCII controls from tab to carriage return, the
/// blank, and the separators.
pub proof fn law_white_space(c: char)
    ensures
        whitespace(c) <==> (c == '\t' || c == '\n' || c == '\u{b}' || c == '\u{c}' || c == '\r' || c
            == ' ' || c == '\u{85}' || c == '\u{a0}' || c == '\u{1680}' || '\u{2000}' <= c
            <= '\u{200a}' || c == '\u{2028}' || c == '\u{2029}' || c == '\u{202f}' || c
            == '\u{205f}' || c == '\u{3000}'),
{
}

/// Whether all of `s` is white space.
pub open spec fn all_space(s: Seq<char>) -> bool {
    forall|i: int| 0 <= i < s.len() ==> whitespace(#[trigger] s[i])
}

proof fn lemma_trim_start(a: Seq<char>, s: Seq<char>)
    requires
        all_space(a),
        s.len() == 0 || !whitespace(s[0]),
    ensures
        trim_start(a + s) == s,
    decreases a.len(),
{
    if a.len() == 0 {
        assert(a + s =~= s);
    } else {
        assert(whitespace(a[0]));
        assert((a + s).drop_first() =~= a.drop_first() + s);
        assert forall|i: int| 0 <= i < a.drop_first().len() implies whitespace(
            #[trigger] a.drop_first()[i],
        ) by {
            assert(whitespace(a[i + 1]));
        }
        lemma_trim_start(a.drop_first(), s);
    }
}

proof fn lemma_trim_end(s: Seq<char>, b: Seq<char>)
    requires
        all_space(b),
        s.len() == 0 || !whitespace(s.last()),
    ensures
        trim_end(s + b) == s,
    decreases b.len(),
{
    if b.len() == 0 {
        assert(s + b =~= s);
    } else {
        assert(whitespace(b[b.len() - 1]));
        assert((s + b).drop_last() =~= s + b.drop_last());
        assert forall|i: int| 0 <= i < b.drop_last().len() implies whitespace(
            #[trigger] b.drop_last()[i],
        ) by {
            assert(whitespace(b[i]));
        }
        lemma_trim_end(s, b.drop_last());
    }
}

/// Trimming takes the white space off both ends of a text and nothing else.
pub proof fn law_trimming(a: Seq<char>, s: Seq<char>, b: Seq<char>)
    requires
        all_space(a),
        all_space(b),
        s.len() == 0 || (!whitespace(s[0]) && !whitespace(s.last())),
    ensures
        trimmed(a + s + b) == s,
{
    if s.len() == 0 {
        let e = Seq::<char>::empty();
        assert forall|i: int| 0 <= i < (a + s + b).len() implies whitespace(
            #[trigger] (a + s + b)[i],
        ) by {
            if i < a.len() {
                assert(whitespace(a[i]));
            } else {
                assert(whitespace(b[i - a.len()]));
            }
        }
        assert(a + s + b + e =~= a + s + b);
        lemma_trim_start(a + s + b, e);
        assert(trimmed(a + s + b) =~= s);
    } else {
        assert(a + s + b =~= a + (s + b));
        assert((s + b)[0] == s[0]);
        lemma_trim_start(a, s + b);
        lemma_trim_end(s, b);
    }
}

proof fn lemma_trim_start_keeps(s: Seq<char>, i: int)
    requires
        0 <= i < s.len(),
        !whitespace(s[i]),
    ensures
        s.len() - i <= trim_start(s).len() <= s.len(),
        trim_start(s) == s.skip(s.len() - trim_start(s).len()),
    decreases s.len(),
{
    if whitespace(s[0]) {
        lemma_trim_start_keeps(s.drop_first(), i - 1);
        let k = trim_start(s).len();
        assert(s.drop_first().skip(s.len() - 1 - k) =~= s.skip(s.len() - k));
    } else {
        assert(s.skip(0) =~= s);
    }
}

proof fn lemma_trim_end_keeps(s: Seq<char>, i: int)
    requires
        0 <= i < s.len(),
        !whitespace(s[i]),
    ensures
        i < trim_end(s).len() <= s.len(),
        trim_end(s) == s.take(trim_end(s).len() as int),
    decreases s.len(),
{
    if whitespace(s.last()) {
        lemma_trim_end_keeps(s.drop_last(), i);
        let k = trim_end(s).len();
        assert(s.drop_last().take(k as int) =~= s.take(k as int));
    } else {
        assert(s.take(s.len() as int) =~= s);
    }
}

/// A stretch of a text that neither begins nor ends in white space survives trimming.
pub(crate) proof fn lemma_trimming_keeps(s: Seq<char>, i: int, j: int) -> (k: int)
    requires
        0 <= i < j <= s.len(),
        !whitespace(s[i]),
        !whitespace(s[j - 1]),
    ensures
        0 <= k <= i,
        j <= k + trimmed(s).len() <= s.len(),
        trimmed(s) == s.subrange(k, k + trimmed(s).len()),
{
    lemma_trim_start_keeps(s, i);
    let t = trim_start(s);
    let k = s.len() - t.len();
    assert(t[j - 1 - k] == s[j - 1]);
    lemma_trim_end_keeps(t, j - 1 - k);
    assert(trimmed(s) =~= s.subrange(k, k + trimmed(s).len()));
    k
}

/// The number that decimal digits write: each place counts ten times the next.
pub open spec fn decimal_value(s: Seq<char>) -> int
    decreases s.len(),
{
    if s.len() == 0 {
        0
    } else {
        10 * decimal_value(s.drop_last()) + (s.last() as int - 48)
    }
}

/// Whether `s` is a row of the digits from zero to nine.
pub open spec fn is_digits(s: Seq<char>) -> bool {
    s.len() > 0 && forall|i: int|
        0 <= i < s.len() ==> '0' <= #[trigger] s[i] && s[i] <= '9'
}

proof fn lemma_digit_value(c: char)
    requires
        '0' <= c <= '9',
    ensures
        is_digit(c),
        digit_value(c) == c as int - 48,
{
}

pub(crate) proof fn lemma_number_is_decimal(s: Seq<char>)
    requires
        s.len() == 0 || is_digits(s),
    ensures
        number_of(s) == decimal_value(s),
    decreases s.len(),
{
    if s.len() > 0 {
        let t = s.drop_last();
        assert forall|i: int| 0 <= i < t.len() implies '0' <= #[trigger] t[i] && t[i] <= '9' by {
            assert('0' <= s[i] && s[i] <= '9');
        }
        lemma_number_is_decimal(t);
        assert('0' <= s[s.len() - 1] && s[s.len() - 1] <= '9');
        lemma_digit_value(s.last());
    }
}

/// A row of digits is read as the number that it writes, where that is not too large; a plus sign
/// before it changes nothing.
pub proof fn law_numbers_are_read(s: Seq<char>)
    requires
        is_digits(s),
    ensures
        parsed_usize(s) == if decimal_value(s) <= usize::MAX {
            Some(decimal_value(s) as usize)
        } else {
            None
        },
        parsed_usize(seq!['+'] + s) == parsed_usize(s),
{
    lemma_number_is_decimal(s);
    assert(s[0] != '+') by {
        assert('0' <= s[0]);
    }
    assert forall|i: int| 0 <= i < s.len() implies is_digit(#[trigger] s[i]) by {
        lemma_digit_value(s[i]);
    }
    assert((seq!['+'] + s).drop_first() =~= s);
}

/// What is no row of digits, but for one plus sign at its start, is no number.
pub proof fn law_nothing_else_is_a_number(s: Seq<char>)
    requires
        !is_digits(s),
        s.len() > 0 && s[0] == '+' ==> !is_digits(s.drop_first()),
    ensures
        parsed_usize(s) is None,
{
    let d = unsigned_part(s);
    if d.len() > 0 && all_digits(d) {
        assert forall|i: int| 0 <= i < d.len() implies '0' <= #[trigger] d[i] && d[i] <= '9' by {
            assert(is_digit(d[i]));
        }
        assert(is_digits(d));
    }
}

/// A number is written with the digits that stand for it, and without a zero before them.
pub proof fn law_numbers_are_written(n: nat)
    ensures
        is_digits(decimal(n)),
        decimal_value(decimal(n)) == n,
        decimal(n).len() > 1 ==> decimal(n)[0] != '0',
    decreases n,
{
    lemma_decimal_reads_back(n);
    let d = decimal(n);
    assert forall|i: int| 0 <= i < d.len() implies '0' <= #[trigger] d[i] && d[i] <= '9' by {
        assert(is_digit(d[i]));
    }
    lemma_number_is_decimal(d);
    if n >= 10 {
        law_numbers_are_written(n / 10);
        assert(d[0] == decimal(n / 10)[0]);
        if n / 10 < 10 {
            assert(decimal(n / 10).len() == 1);
            assert(digit(n / 10) != '0');
        } else {
            assert(decimal(n / 10).len() > 1) by {
                lemma_decimal_reads_back(n / 100);
            }
        }
    }
}

/// A word occurs in a text where the text is something, the word, and something.
pub proof fn law_words_occur_in_texts(w: Seq<char>, s: Seq<char>)
    ensures
        occurs_in(w, s) <==> exists|a: Seq<char>, b: Seq<char>| s == #[trigger] (a + w + b),
{
    if occurs_in(w, s) {
        let i = choose|i: int| occurs_at(w, s, i);
        let a = s.take(i);
        let b = s.skip(i + w.len());
        assert(s =~= a + w + b);
    }
    if exists|a: Seq<char>, b: Seq<char>| s == #[trigger] (a + w + b) {
        let (a, b) = choose|a: Seq<char>, b: Seq<char>| s == #[trigger] (a + w + b);
        assert(s.subrange(a.len() as int, (a.len() + w.len()) as int) =~= w);
        assert(occurs_at(w, s, a.len() as int));
    }
}

/// A word occurs at the place that as many characters come before.
pub proof fn law_words_occur_at_places(w: Seq<char>, s: Seq<char>, i: int)
    ensures
        occurs_at(w, s, i) <==> exists|a: Seq<char>, b: Seq<char>|
            s == #[trigger] (a + w + b) && a.len() == i,
{
    if occurs_at(w, s, i) {
        let a = s.take(i);
        let b = s.skip(i + w.len());
        assert(s =~= a + w + b);
    }
    if exists|a: Seq<char>, b: Seq<char>| s == #[trigger] (a + w + b) && a.len() == i {
        let (a, b) = choose|a: Seq<char>, b: Seq<char>|
            s == #[trigger] (a + w + b) && a.len() == i;
        assert(s.subrange(i, i + w.len()) =~= w);
    }
}

/// Stripping takes a word off the start of a text as often as it stands there.
pub proof fn law_stripping(s: Seq<char>, w: Seq<char>)
    ensures
        w.len() > 0 ==> stripped(w + s, w) == stripped(s, w),
        !w.is_prefix_of(s) ==> stripped(s, w) == s,
{
    assert((w + s).subrange(0, w.len() as int) =~= w);
    assert((w + s).skip(w.len() as int) =~= s);
    if occurs_at(w, s, 0) {
        assert(w =~= s.subrange(0, w.len() as int));
        assert(w.is_prefix_of(s));
    }
}

} // verus!
