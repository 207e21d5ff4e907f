//! JSON: what a `serde_json` value holds, reading texts and writing objects.

use crate::text::{ascending, opt_text, pairs, text_or};
use vstd::prelude::*;

verus! {

/// The type `serde_json::Value`. What a value holds is given by [`json_of`].
#[verifier::external_type_specification]
#[verifier::external_body]
pub struct ExValue(serde_json::Value);

/// The type `serde_json::Error`, of which nothing is read.
#[verifier::external_type_specification]
#[verifier::external_body]
pub struct ExError(serde_json::Error);

/// A JSON document. Which number a number is plays no part.
pub enum Json {
    Null,
    Bool(bool),
    Number,
    Text(Seq<char>),
    Array(Seq<Json>),
    Object(Map<Seq<char>, Json>),
}

/// What a `serde_json::Value` holds: the document with its arrays and objects.
pub uninterp spec fn json_of(value: serde_json::Value) -> Json;

/// The document that `serde_json::from_str` reads from a text, where it reads one.
pub uninterp spec fn parsed_text(text: Seq<char>) -> Option<Json>;

/// The document that `serde_json::from_slice` reads from bytes, where it reads one.
pub uninterp spec fn parsed_bytes(bytes: Seq<u8>) -> Option<Json>;

/// The member of the object `json` under `key`. A document that is no object has none.
pub open spec fn member(json: Json, key: Seq<char>) -> Option<Json> {
    match json {
        Json::Object(members) => if members.contains_key(key) {
            Some(members[key])
        } else {
            None
        },
        _ => None,
    }
}

/// The text under `key`, where there is a member and it is a text.
pub open spec fn text_member(json: Json, key: Seq<char>) -> Option<Seq<char>> {
    match member(json, key) {
        Some(Json::Text(text)) => Some(text),
        _ => None,
    }
}

/// The truth value under `key`, where there is a member and it is one.
pub open spec fn bool_member(json: Json, key: Seq<char>) -> Option<bool> {
    match member(json, key) {
        Some(Json::Bool(b)) => Some(b),
        _ => None,
    }
}

/// The items of the array under `key`, where there is a member and it is an array.
pub open spec fn array_member(json: Json, key: Seq<char>) -> Option<Seq<Json>> {
    match member(json, key) {
        Some(Json::Array(items)) => Some(items),
        _ => None,
    }
}

/// What each of `values` holds.
pub open spec fn jsons_of(values: Seq<serde_json::Value>) -> Seq<Json> {
    values.map_values(|v: serde_json::Value| json_of(v))
}

/// `serde_json::Value::as_str` hands out the text of a value that is a text, and
/// nothing for any other value.
pub assume_specification<'a>[ serde_json::Value::as_str ](
    value: &'a serde_json::Value,
) -> (r: Option<&'a str>)
    ensures
        match r {
            Some(text) => json_of(*value) == Json::Text(text@),
            None => !(json_of(*value) is Text),
        },
;

/// `serde_json::Value::as_bool` hands out the truth value of a value that is one,
/// and nothing for any other value.
pub assume_specification[ serde_json::Value::as_bool ](
    value: &serde_json::Value,
) -> (r: Option<bool>)
    ensures
        match r {
            Some(b) => json_of(*value) == Json::Bool(b),
            None => !(json_of(*value) is Bool),
        },
;

/// `serde_json::Value::as_array` hands out the items of a value that is an array,
/// and nothing for any other value.
pub assume_specification<'a>[ serde_json::Value::as_array ](
    value: &'a serde_json::Value,
) -> (r: Option<&'a Vec<serde_json::Value>>)
    ensures
        match r {
            Some(items) => json_of(*value) == Json::Array(jsons_of(items@)),
            None => !(json_of(*value) is Array),
        },
;

/// `serde_json::Value::get` with a text as the index: the member of an object under
/// that key, and nothing where the key is absent or the value is no object.
#[verifier::external_body]
pub(crate) fn get<'a>(value: &'a serde_json::Value, key: &str) -> (r: Option<&'a serde_json::Value>)
    ensures
        match r {
            Some(v) => member(json_of(*value), key@) == Some(json_of(*v)),
            None => member(json_of(*value), key@) is None,
        },
{
    value.get(key)
}

/// `serde_json::from_str` into a `serde_json::Value`. Which texts it reads, and as
/// what, is named by [`parsed_text`]; it depends on the text alone.
#[verifier::external_body]
pub(crate) fn parse_text(text: &str) -> (r: Result<serde_json::Value, serde_json::Error>)
    ensures
        match r {
            Ok(value) => parsed_text(text@) == Some(json_of(value)),
            Err(_) => parsed_text(text@) is None,
        },
{
    serde_json::from_str(text)
}

/// `serde_json::from_slice` into a `serde_json::Value`. Which bytes it reads, and as
/// what, is named by [`parsed_bytes`]; it depends on the bytes alone.
#[verifier::external_body]
pub(crate) fn parse_bytes(bytes: &[u8]) -> (r: Result<serde_json::Value, serde_json::Error>)
    ensures
        match r {
            Ok(value) => parsed_bytes(bytes@) == Some(json_of(value)),
            Err(_) => parsed_bytes(bytes@) is None,
        },
{
    serde_json::from_slice(bytes)
}

/// The text under `key`.
pub fn get_text(value: &serde_json::Value, key: &str) -> (r: Option<String>)
    ensures
        opt_text(r) == text_member(json_of(*value), key@),
{
    match get(value, key) {
        Some(v) => match v.as_str() {
            Some(text) => Some(text.to_owned()),
            None => None,
        },
        None => None,
    }
}

/// The text under `key`, or `default` where there is none.
pub fn get_text_or(value: &serde_json::Value, key: &str, default: &str) -> (r: String)
    ensures
        r@ == text_or(text_member(json_of(*value), key@), default@),
{
    match get_text(value, key) {
        Some(text) => text,
        None => default.to_owned(),
    }
}

/// The truth value under `key`.
pub fn get_bool(value: &serde_json::Value, key: &str) -> (r: Option<bool>)
    ensures
        r == bool_member(json_of(*value), key@),
{
    match get(value, key) {
        Some(v) => v.as_bool(),
        None => None,
    }
}

/// The items of the array under `key`.
pub fn get_array<'a>(value: &'a serde_json::Value, key: &str) -> (r: Option<
    &'a Vec<serde_json::Value>,
>)
    ensures
        match r {
            Some(items) => array_member(json_of(*value), key@) == Some(jsons_of(items@)),
            None => array_member(json_of(*value), key@) is None,
        },
{
    match get(value, key) {
        Some(v) => v.as_array(),
        None => None,
    }
}

/// Whether there is a member under `key`, whatever it is.
pub fn has_member(value: &serde_json::Value, key: &str) -> (r: bool)
    ensures
        r == (member(json_of(*value), key@) is Some),
{
    match get(value, key) {
        Some(_) => true,
        None => false,
    }
}

/// The lower-case hexadecimal digit for `n`, which is below sixteen.
pub open spec fn hex_digit(n: int) -> char {
    if n < 10 {
        ('0' as int + n) as char
    } else {
        ('a' as int + (n - 10)) as char
    }
}

/// How a character stands inside a JSON string.
pub open spec fn escaped(c: char) -> Seq<char> {
    if c == '"' || c == '\\' {
        seq!['\\', c]
    } else if c == '\n' {
        seq!['\\', 'n']
    } else if c == '\r' {
        seq!['\\', 'r']
    } else if c == '\t' {
        seq!['\\', 't']
    } else if c == '\u{8}' {
        seq!['\\', 'b']
    } else if c == '\u{c}' {
        seq!['\\', 'f']
    } else if c as int <= 0x1f {
        seq!['\\', 'u', '0', '0', hex_digit(c as int / 16), hex_digit(c as int % 16)]
    } else {
        seq![c]
    }
}

/// How a text stands inside a JSON string.
pub open spec fn escaped_text(text: Seq<char>) -> Seq<char>
    decreases text.len(),
{
    if text.len() == 0 {
        Seq::empty()
    } else {
        escaped_text(text.drop_last()) + escaped(text.last())
    }
}

/// `text` as a JSON string, between quotation marks.
pub open spec fn quoted(text: Seq<char>) -> Seq<char> {
    seq!['"'] + escaped_text(text) + seq!['"']
}

/// The members of an object whose members are texts, one after the other.
pub open spec fn members_text(members: Seq<(Seq<char>, Seq<char>)>) -> Seq<char>
    decreases members.len(),
{
    if members.len() == 0 {
        Seq::empty()
    } else {
        let last = members.last();
        let before = members_text(members.drop_last());
        before + (if members.len() > 1 {
            seq![',']
        } else {
            Seq::empty()
        }) + quoted(last.0) + seq![':'] + quoted(last.1)
    }
}

/// The compact JSON text of an object whose members are texts.
pub open spec fn object_text(members: Seq<(Seq<char>, Seq<char>)>) -> Seq<char> {
    seq!['{'] + members_text(members) + seq!['}']
}

/// The keys of a list of members.
pub open spec fn member_keys(members: Seq<(String, String)>) -> Seq<Seq<char>> {
    members.map_values(|m: (String, String)| m.0@)
}

/// `serde_json::Value::to_string` of an object whose members are texts: the members
/// in the order given, without white space. The keys have to ascend, so that the
/// order in which the object keeps its members is the order given.
#[verifier::external_body]
pub(crate) fn write_object(members: Vec<(String, String)>) -> (r: String)
    requires
        ascending(member_keys(members@)),
    ensures
        r@ == object_text(pairs(members@)),
{
    let object: serde_json::Map<String, serde_json::Value> = members
        .into_iter()
        .map(|(key, text)| (key, serde_json::Value::String(text)))
        .collect();
    serde_json::Value::Object(object).to_string()
}

/// What has been put under a key of an object is read back under that key, and what stands
/// under the other keys plays no part in it.
pub proof fn members_are_read_back(
    members: Map<Seq<char>, Json>,
    key: Seq<char>,
    value: Json,
    other: Seq<char>,
)
    ensures
        member(Json::Object(members.insert(key, value)), key) == Some(value),
        member(Json::Object(members.remove(key)), key) is None,
        other != key ==> member(Json::Object(members.insert(other, value)), key) == member(
            Json::Object(members),
            key,
        ),
{
}

/// A document that is no object has no member.
pub proof fn only_objects_have_members(json: Json, key: Seq<char>)
    requires
        !(json is Object),
    ensures
        member(json, key) is None,
        text_member(json, key) is None,
        bool_member(json, key) is None,
        array_member(json, key) is None,
{
}

/// A text, a truth value or an array is read whole, and as nothing else.
pub proof fn members_are_read_whole(
    members: Map<Seq<char>, Json>,
    key: Seq<char>,
    text: Seq<char>,
    b: bool,
    items: Seq<Json>,
)
    ensures
        text_member(Json::Object(members.insert(key, Json::Text(text))), key) == Some(text),
        bool_member(Json::Object(members.insert(key, Json::Bool(b))), key) == Some(b),
        array_member(Json::Object(members.insert(key, Json::Array(items))), key) == Some(items),
{
}

/// What is read as a text, a truth value or an array stands under the key as one.
pub proof fn members_keep_their_type(members: Map<Seq<char>, Json>, key: Seq<char>)
    ensures
        text_member(Json::Object(members), key) matches Some(text) ==> members.contains_key(key)
            && members[key] == Json::Text(text),
        bool_member(Json::Object(members), key) matches Some(b) ==> members.contains_key(key)
            && members[key] == Json::Bool(b),
        array_member(Json::Object(members), key) matches Some(items) ==> members.contains_key(key)
            && members[key] == Json::Array(items),
{
}

/// Each of the values of an array counts, in its place.
pub proof fn arrays_are_viewed_item_by_item(values: Seq<serde_json::Value>, i: int)
    requires
        0 <= i < values.len(),
    ensures
        jsons_of(values).len() == values.len(),
        jsons_of(values)[i] == json_of(values[i]),
{
}

/// Where two texts that begin with an escaped character are the same, the characters are,
/// and so is what follows.
proof fn lemma_escape_is_a_prefix_code(c: char, d: char, u: Seq<char>, v: Seq<char>)
    requires
        escaped(c) + u == escaped(d) + v,
    ensures
        c == d,
        u == v,
{
    let x = escaped(c) + u;
    let y = escaped(d) + v;
    assert(x[0] == escaped(c)[0] && y[0] == escaped(d)[0]);
    if escaped(c).len() > 1 {
        assert(escaped(d).len() > 1);
        assert(x[1] == escaped(c)[1] && y[1] == escaped(d)[1]);
        if escaped(c).len() > 2 {
            assert(escaped(d).len() > 2);
            assert(x[4] == escaped(c)[4] && y[4] == escaped(d)[4]);
            assert(x[5] == escaped(c)[5] && y[5] == escaped(d)[5]);
            assert(c as int / 16 == d as int / 16);
            assert(c as int % 16 == d as int % 16);
        }
    }
    assert(c == d);
    assert(u =~= x.skip(escaped(c).len() as int));
    assert(v =~= y.skip(escaped(d).len() as int));
}

proof fn lemma_escaped_from_the_front(text: Seq<char>)
    requires
        text.len() > 0,
    ensures
        escaped_text(text) == escaped(text[0]) + escaped_text(text.drop_first()),
    decreases text.len(),
{
    let head = text.drop_last();
    if head.len() == 0 {
        assert(escaped_text(head) =~= Seq::empty());
        assert(escaped_text(text.drop_first()) =~= Seq::empty());
        assert(escaped_text(text) =~= escaped(text[0]) + escaped_text(text.drop_first()));
    } else {
        lemma_escaped_from_the_front(head);
        assert(head.drop_first() =~= text.drop_first().drop_last());
        assert(text.drop_first().last() == text.last());
        assert(escaped_text(text) =~= escaped(text[0]) + escaped_text(text.drop_first()));
    }
}

/// The end of a JSON string can be seen: where two texts that begin with one are the same,
/// the strings hold the same text, and what follows them is the same.
pub proof fn quoted_texts_are_read_back(a: Seq<char>, b: Seq<char>, u: Seq<char>, v: Seq<char>)
    requires
        quoted(a) + u == quoted(b) + v,
    ensures
        a == b,
        u == v,
{
    let x = quoted(a) + u;
    let y = quoted(b) + v;
    let p = escaped_text(a) + (seq!['"'] + u);
    let q = escaped_text(b) + (seq!['"'] + v);
    assert(p =~= x.drop_first());
    assert(q =~= y.drop_first());
    lemma_escaped_end(a, b, u, v);
}

proof fn lemma_escaped_end(a: Seq<char>, b: Seq<char>, u: Seq<char>, v: Seq<char>)
    requires
        escaped_text(a) + (seq!['"'] + u) == escaped_text(b) + (seq!['"'] + v),
    ensures
        a == b,
        u == v,
    decreases a.len(),
{
    let e = seq!['"'] + u;
    let f = seq!['"'] + v;
    if a.len() == 0 && b.len() == 0 {
        assert(escaped_text(a) + e =~= e);
        assert(escaped_text(b) + f =~= f);
        assert(u =~= e.drop_first());
        assert(v =~= f.drop_first());
        assert(a =~= b);
    } else if a.len() == 0 {
        lemma_escaped_from_the_front(b);
        assert((escaped_text(a) + e)[0] == '"');
        assert((escaped_text(b) + f)[0] == escaped(b[0])[0]);
    } else if b.len() == 0 {
        lemma_escaped_from_the_front(a);
        assert((escaped_text(b) + f)[0] == '"');
        assert((escaped_text(a) + e)[0] == escaped(a[0])[0]);
    } else {
        lemma_escaped_from_the_front(a);
        lemma_escaped_from_the_front(b);
        let ra = escaped_text(a.drop_first()) + e;
        let rb = escaped_text(b.drop_first()) + f;
        assert(escaped(a[0]) + ra =~= escaped_text(a) + e);
        assert(escaped(b[0]) + rb =~= escaped_text(b) + f);
        lemma_escape_is_a_prefix_code(a[0], b[0], ra, rb);
        lemma_escaped_end(a.drop_first(), b.drop_first(), u, v);
        assert(a =~= seq![a[0]] + a.drop_first());
        assert(b =~= seq![b[0]] + b.drop_first());
    }
}

/// Two objects with one text under the same key are written alike only where the texts are
/// the same.
pub proof fn objects_of_one_text_differ(key: Seq<char>, a: Seq<char>, b: Seq<char>)
    requires
        object_text(seq![(key, a)]) == object_text(seq![(key, b)]),
    ensures
        a == b,
{
    reveal_with_fuel(members_text, 2);
    let none = Seq::<(Seq<char>, Seq<char>)>::empty();
    assert(seq![(key, a)].drop_last() =~= none);
    assert(seq![(key, b)].drop_last() =~= none);
    let head = seq!['{'] + quoted(key) + seq![':'];
    let x = object_text(seq![(key, a)]);
    let y = object_text(seq![(key, b)]);
    assert(x =~= head + (quoted(a) + seq!['}']));
    assert(y =~= head + (quoted(b) + seq!['}']));
    assert(quoted(a) + seq!['}'] =~= x.skip(head.len() as int));
    assert(quoted(b) + seq!['}'] =~= y.skip(head.len() as int));
    quoted_texts_are_read_back(a, b, seq!['}'], seq!['}']);
}

} // verus!
