//! JSON values, as `serde_json` reads, holds and writes them.
//!
//! A `serde_json::Value` is a tree of members. Its contents are modelled by [`Json`]; every
//! call into `serde_json` that the broker makes stands in this file, behind a function whose
//! contract speaks of that model.

use vstd::prelude::*;

verus! {

/// `serde_json::Value`, held without looking inside.
#[verifier::external_type_specification]
#[verifier::external_body]
pub struct ExValue(serde_json::Value);

/// `serde_json::Error`, held without looking inside.
#[verifier::external_type_specification]
#[verifier::external_body]
pub struct ExJsonError(serde_json::Error);

/// What a JSON number holds: a non-negative integer, a negative one, or the bits of a double.
pub enum JsonNumber {
    Unsigned(u64),
    Negative(i64),
    Float(u64),
}

/// What a JSON value holds.
pub enum Json {
    Null,
    Bool(bool),
    Number(JsonNumber),
    Str(Seq<char>),
    Array(Seq<Json>),
    Object(Map<Seq<char>, Json>),
}

/// The contents of a `serde_json::Value`.
pub uninterp spec fn json(v: serde_json::Value) -> Json;

/// What `serde_json::from_str::<Value>` reads from a text; `None` where it fails.
pub uninterp spec fn json_parse(text: Seq<char>) -> Option<Json>;

/// The text that `serde_json::to_string` writes for a value with the contents `j`.
pub uninterp spec fn json_text(j: Json) -> Seq<char>;

/// The member `key` of `j`: `None` where `j` is no object or has no such member.
pub open spec fn member_of(j: Json, key: Seq<char>) -> Option<Json> {
    match j {
        Json::Object(members) => if members.contains_key(key) {
            Some(members[key])
        } else {
            None
        },
        _ => None,
    }
}

/// `j` with the member `key` set to `value`; null counts as an object without members.
pub open spec fn with_member(j: Json, key: Seq<char>, value: Json) -> Json {
    match j {
        Json::Object(members) => Json::Object(members.insert(key, value)),
        _ => Json::Object(Map::empty().insert(key, value)),
    }
}

/// The text that `j` holds, where it holds one.
pub open spec fn string_of(j: Json) -> Option<Seq<char>> {
    match j {
        Json::Str(s) => Some(s),
        _ => None,
    }
}

/// The non-negative integer that `j` holds, where it holds one.
pub open spec fn unsigned_of(j: Json) -> Option<u64> {
    match j {
        Json::Number(JsonNumber::Unsigned(n)) => Some(n),
        _ => None,
    }
}

/// Whether `j` nests arrays and objects at most `depth` deep.
pub open spec fn nests_within(j: Json, depth: nat) -> bool
    decreases depth,
{
    match j {
        Json::Array(items) => depth > 0 && forall|i: int|
            0 <= i < items.len() ==> nests_within(#[trigger] items[i], (depth - 1) as nat),
        Json::Object(members) => depth > 0 && forall|k: Seq<char>| #[trigger]
            members.contains_key(k) ==> nests_within(members[k], (depth - 1) as nat),
        _ => true,
    }
}

/// Whether `j` holds no double in its first `depth` levels.
pub open spec fn exact_within(j: Json, depth: nat) -> bool
    decreases depth,
{
    match j {
        Json::Number(JsonNumber::Float(_)) => false,
        Json::Array(items) => depth > 0 ==> forall|i: int|
            0 <= i < items.len() ==> exact_within(#[trigger] items[i], (depth - 1) as nat),
        Json::Object(members) => depth > 0 ==> forall|k: Seq<char>| #[trigger]
            members.contains_key(k) ==> exact_within(members[k], (depth - 1) as nat),
        _ => true,
    }
}

/// The deepest nesting that `serde_json` reads.
pub open spec fn max_depth() -> nat {
    127
}

/// Whether `j` nests no deeper than `serde_json` reads.
pub open spec fn is_readable(j: Json) -> bool {
    nests_within(j, max_depth())
}

/// Whether `j` nests no deeper than a member of what `serde_json` reads.
pub open spec fn is_readable_member(j: Json) -> bool {
    nests_within(j, (max_depth() - 1) as nat)
}

/// Whether reading what is written for `j` gives `j` back, if `j` holds no double.
pub open spec fn reads_back(j: Json) -> bool {
    exact_within(j, max_depth()) ==> json_parse(json_text(j)) == Some(j)
}

/// Setting a member keeps a value readable.
pub proof fn lemma_with_member_readable(j: Json, key: Seq<char>, value: Json)
    requires
        is_readable(j),
        is_readable_member(value),
    ensures
        is_readable(with_member(j, key, value)),
{
}

/// `serde_json::from_str::<Value>`: reads one JSON value from the whole of `text`. What it
/// reads, and whether it succeeds, depends on the text alone. It refuses a text that nests arrays
/// and objects deeper than 127 levels.
#[verifier::external_body]
pub(crate) fn parse_json(text: &str) -> (r: Result<serde_json::Value, serde_json::Error>)
    ensures
        match r {
            Ok(v) => json_parse(text@) == Some(json(v)) && is_readable(json(v)),
            Err(_) => json_parse(text@) is None,
        },
{
    serde_json::from_str(text)
}

/// `serde_json::to_string` on a `Value`: cannot fail, because the keys of a `Value` are strings
/// and writing one raises no error; the text depends on the contents alone. Reading it back
/// gives the same contents where `from_str` is not stopped by the nesting and no double is
/// rounded on the way.
#[verifier::external_body]
pub(crate) fn print_json(v: &serde_json::Value) -> (r: Result<String, serde_json::Error>)
    ensures
        r is Ok,
        r->Ok_0@ == json_text(json(*v)),
        is_readable(json(*v)) && exact_within(json(*v), max_depth()) ==> json_parse(r->Ok_0@)
            == Some(json(*v)),
{
    serde_json::to_string(v)
}

/// `Value::get` with a string: the member of that name, if the value is an object that has it.
#[verifier::external_body]
pub(crate) fn member<'a>(v: &'a serde_json::Value, key: &str) -> (r: Option<
    &'a serde_json::Value,
>)
    ensures
        match r {
            Some(m) => member_of(json(*v), key@) == Some(json(*m)),
            None => member_of(json(*v), key@) is None,
        },
{
    v.get(key)
}

/// `value[key] = new` (`IndexMut` of `Value` with a string): sets the member of an object, or
/// turns null into an object with that one member. It panics on any other value.
#[verifier::external_body]
pub(crate) fn set_member(v: &mut serde_json::Value, key: &str, new: serde_json::Value)
    requires
        json(*old(v)) is Object || json(*old(v)) is Null,
    ensures
        json(*final(v)) == with_member(json(*old(v)), key@, json(new)),
{
    v[key] = new;
}

/// `Value::as_str`: the text of a string value.
#[verifier::external_body]
pub(crate) fn as_text(v: &serde_json::Value) -> (r: Option<&str>)
    ensures
        match r {
            Some(s) => string_of(json(*v)) == Some(s@),
            None => string_of(json(*v)) is None,
        },
{
    v.as_str()
}

/// `Value::as_u64`: the integer of a number that is no double and not negative.
#[verifier::external_body]
pub(crate) fn as_unsigned(v: &serde_json::Value) -> (r: Option<u64>)
    ensures
        r == unsigned_of(json(*v)),
{
    v.as_u64()
}

/// `Clone::clone` of a `Value`: a value with the same contents.
#[verifier::external_body]
pub(crate) fn copy_json(v: &serde_json::Value) -> (r: serde_json::Value)
    ensures
        json(r) == json(*v),
{
    v.clone()
}

/// The variant `Value::Null`.
#[verifier::external_body]
pub(crate) fn null_json() -> (r: serde_json::Value)
    ensures
        json(r) == Json::Null,
{
    serde_json::Value::Null
}

/// `Value::from(bool)`.
#[verifier::external_body]
pub(crate) fn bool_json(b: bool) -> (r: serde_json::Value)
    ensures
        json(r) == Json::Bool(b),
{
    serde_json::Value::from(b)
}

/// `Value::from(u64)`: a number that is a non-negative integer.
#[verifier::external_body]
pub(crate) fn unsigned_json(n: u64) -> (r: serde_json::Value)
    ensures
        json(r) == Json::Number(JsonNumber::Unsigned(n)),
{
    serde_json::Value::from(n)
}

/// `Value::from(&str)`: a string value with that text.
#[verifier::external_body]
pub(crate) fn string_json(s: &str) -> (r: serde_json::Value)
    ensures
        json(r) == Json::Str(s@),
{
    serde_json::Value::from(s)
}

/// `Value::from(Map)` of an empty `serde_json::Map`: an object without members.
#[verifier::external_body]
pub(crate) fn empty_json() -> (r: serde_json::Value)
    ensures
        json(r) == Json::Object(Map::<Seq<char>, Json>::empty()),
{
    serde_json::Value::from(serde_json::Map::new())
}

/// The text of `v`.
pub(crate) fn write_json(v: &serde_json::Value) -> (r: String)
    ensures
        r@ == json_text(json(*v)),
        is_readable(json(*v)) ==> reads_back(json(*v)),
{
    match print_json(v) {
        Ok(s) => s,
        Err(_) => String::new(),
    }
}

} // verus!
