//! JSON values, as `serde_json` holds them.
//!
//! A value is opaque to the verifier. [`json_view`] names its contents, and the
//! items below say over that name what each function of `serde_json` does.

use vstd::prelude::*;
use serde_json::Value;

use crate::text;

verus! {

/// The contents of a JSON value. A number is modelled by its text.
pub enum JsonView {
    Null,
    Bool(bool),
    Number(Seq<char>),
    Text(Seq<char>),
    Array(Seq<JsonView>),
    Object(Map<Seq<char>, JsonView>),
}

#[verifier::external_type_specification]
#[verifier::external_body]
pub struct ExValue(serde_json::Value);

#[verifier::external_type_specification]
#[verifier::external_body]
#[verifier::reject_recursive_types(K)]
#[verifier::reject_recursive_types(V)]
pub struct ExJsonMap<K, V>(serde_json::Map<K, V>);

/// What a `serde_json::Value` holds.
pub uninterp spec fn json_view(v: serde_json::Value) -> JsonView;

/// The members of a `serde_json::Map`.
pub uninterp spec fn json_members(m: serde_json::Map<String, serde_json::Value>) -> Map<Seq<char>, JsonView>;

/// What `serde_json::from_slice` reads out of `bytes`, or the words in which it
/// says why it cannot.
pub uninterp spec fn json_parsed(bytes: Seq<u8>) -> Result<JsonView, Seq<char>>;

/// The compact notation of the contents `j`.
pub uninterp spec fn json_text(j: JsonView) -> Seq<char>;

/// Bytes that were read as `j`.
pub open spec fn parsed_as(j: JsonView) -> Result<JsonView, Seq<char>> {
    Ok(j)
}

/// Bytes that could not be read, for the reason in `words`.
pub open spec fn unparsed_with(words: Seq<char>) -> Result<JsonView, Seq<char>> {
    Err(words)
}

/// An object without members.
pub open spec fn no_members() -> Map<Seq<char>, JsonView> {
    Map::empty()
}

/// The member `key` of `j`, if `j` is an object that has one.
pub open spec fn member_of(j: JsonView, key: Seq<char>) -> Option<JsonView> {
    match j {
        JsonView::Object(m) => if m.contains_key(key) { Some(m[key]) } else { None },
        _ => None,
    }
}

/// The text of `j`, if it is a string.
pub open spec fn text_in(j: JsonView) -> Option<Seq<char>> {
    match j {
        JsonView::Text(s) => Some(s),
        _ => None,
    }
}

/// The items of `j`, if it is an array.
pub open spec fn items_in(j: JsonView) -> Option<Seq<JsonView>> {
    match j {
        JsonView::Array(a) => Some(a),
        _ => None,
    }
}

/// `j` is the integer `n`.
pub open spec fn is_integer(j: JsonView, n: u64) -> bool {
    j == JsonView::Number(text::dec(n as nat))
}

/// The hexadecimal digit `d`.
pub open spec fn hex_digit(d: int) -> char {
    if d < 10 {
        text::digit(d)
    } else {
        (('a' as int) + d - 10) as char
    }
}

/// A character as it stands in a JSON string: quotes, backslashes and control
/// characters are escaped.
pub open spec fn escaped(c: char) -> Seq<char> {
    if c == '"' || c == '\\' {
        seq!['\\', c]
    } else if c as int == 0x08 {
        seq!['\\', 'b']
    } else if c as int == 0x09 {
        seq!['\\', 't']
    } else if c as int == 0x0A {
        seq!['\\', 'n']
    } else if c as int == 0x0C {
        seq!['\\', 'f']
    } else if c as int == 0x0D {
        seq!['\\', 'r']
    } else if (c as int) < 0x20 {
        seq!['\\', 'u', '0', '0', hex_digit(c as int / 16), hex_digit(c as int % 16)]
    } else {
        seq![c]
    }
}

/// The characters of a JSON string that stands for `s`.
pub open spec fn escaped_text(s: Seq<char>) -> Seq<char>
    decreases s.len(),
{
    if s.len() == 0 {
        seq![]
    } else {
        escaped_text(s.drop_last()) + escaped(s.last())
    }
}

/// The JSON string that stands for `s`, with its quotes.
pub open spec fn quoted(s: Seq<char>) -> Seq<char> {
    seq!['"'] + escaped_text(s) + seq!['"']
}

/// No character of `s` is escaped in JSON: no control character, quote or backslash.
pub open spec fn needs_no_escape(s: Seq<char>) -> bool {
    forall|i: int| 0 <= i < s.len() ==> s[i] as int >= 0x20 && s[i] != '"' && s[i] != '\\'
}

/// A text in which nothing is escaped stands in a JSON string as it is.
pub proof fn lemma_plain_text_is_not_escaped(s: Seq<char>)
    requires
        needs_no_escape(s),
    ensures
        escaped_text(s) == s,
    decreases s.len(),
{
    if s.len() > 0 {
        lemma_plain_text_is_not_escaped(s.drop_last());
        assert(s == s.drop_last() + seq![s.last()]);
    } else {
        assert(escaped_text(s) == s);
    }
}

/// The compact notation of `j`, if it is neither an array nor an object.
pub open spec fn scalar_text(j: JsonView) -> Option<Seq<char>> {
    match j {
        JsonView::Null => Some("null"@),
        JsonView::Bool(b) => Some(if b { "true"@ } else { "false"@ }),
        JsonView::Number(t) => Some(t),
        JsonView::Text(s) => Some(quoted(s)),
        _ => None,
    }
}

/// `serde_json::Value::as_str`: the string, if the value is one.
pub assume_specification[ serde_json::Value::as_str ](v: &serde_json::Value) -> (r: Option<&str>)
    ensures
        r is Some == text_in(json_view(*v)) is Some,
        r matches Some(s) ==> text_in(json_view(*v)) == Some(s@),
;

/// `serde_json::Value::as_bool`: the truth value, if the value is one.
pub assume_specification[ serde_json::Value::as_bool ](v: &serde_json::Value) -> (r: Option<bool>)
    ensures
        forall|b: bool| r == Some(b) <==> json_view(*v) == JsonView::Bool(b),
;

/// `serde_json::Value::as_u64`: the integer, if the value is a number between
/// zero and `u64::MAX` without a fraction. Such a number, and no other, is
/// written as plain decimal digits.
pub assume_specification[ serde_json::Value::as_u64 ](v: &serde_json::Value) -> (r: Option<u64>)
    ensures
        forall|n: u64| r == Some(n) <==> #[trigger] is_integer(json_view(*v), n),
;

/// `serde_json::Value::as_array`: the items, if the value is an array.
pub assume_specification[ serde_json::Value::as_array ](v: &serde_json::Value) -> (r: Option<&Vec<serde_json::Value>>)
    ensures
        r is Some == items_in(json_view(*v)) is Some,
        r matches Some(a) ==> items_in(json_view(*v)) == Some(a@.map_values(|x: serde_json::Value| json_view(x))),
;

/// `serde_json::Map::new` gives a map without members.
pub assume_specification[ serde_json::Map::<String, serde_json::Value>::new ]() -> (r: serde_json::Map<String, serde_json::Value>)
    ensures
        json_members(r) == no_members(),
;

/// `serde_json::Map::insert` sets the member `k` and returns the one it replaced.
pub assume_specification[ serde_json::Map::<String, serde_json::Value>::insert ](m: &mut serde_json::Map<String, serde_json::Value>, k: String, v: serde_json::Value) -> (r: Option<serde_json::Value>)
    ensures
        json_members(*final(m)) == json_members(*old(m)).insert(k@, json_view(v)),
        r is Some == json_members(*old(m)).contains_key(k@),
        r matches Some(x) ==> json_view(x) == json_members(*old(m))[k@],
;

/// `serde_json::Value::get` with a string index: the member of that name, if the
/// value is an object that has one.
#[verifier::external_body]
pub(crate) fn member<'a>(v: &'a Value, key: &str) -> (r: Option<&'a Value>)
    ensures
        r is Some == member_of(json_view(*v), key@) is Some,
        r matches Some(x) ==> member_of(json_view(*v), key@) == Some(json_view(*x)),
{
    v.get(key)
}

/// `serde_json::Value::from(String)` holds that string.
#[verifier::external_body]
pub(crate) fn text_value(s: String) -> (r: Value)
    ensures
        json_view(r) == JsonView::Text(s@),
{
    Value::from(s)
}

/// `serde_json::Value::from(Vec<u32>)` holds an array of those numbers, in order.
#[verifier::external_body]
pub(crate) fn numbers_value(ns: Vec<u32>) -> (r: Value)
    ensures
        json_view(r) == JsonView::Array(ns@.map_values(|n: u32| JsonView::Number(text::dec(n as nat)))),
{
    Value::from(ns)
}

/// `serde_json::Value::from(Map)` holds an object with those members.
#[verifier::external_body]
pub(crate) fn object_value(m: serde_json::Map<String, Value>) -> (r: Value)
    ensures
        json_view(r) == JsonView::Object(json_members(m)),
{
    Value::from(m)
}

/// `serde_json::from_slice` into a `Value`, its error put into words. What comes
/// out, value or words, depends on the bytes alone.
#[verifier::external_body]
pub(crate) fn parse_value(bytes: &[u8]) -> (r: Result<Value, String>)
    ensures
        r matches Ok(v) ==> json_parsed(bytes@) == parsed_as(json_view(v)),
        r matches Err(e) ==> json_parsed(bytes@) == unparsed_with(e@),
{
    serde_json::from_slice(bytes).map_err(|e| e.to_string())
}

/// `Value::to_string`, the compact notation. It depends on the contents alone:
/// members are kept, and written, in the order of their names. Null, truth values
/// and numbers are written as they are, strings between quotes with their escapes.
#[verifier::external_body]
pub(crate) fn value_text(v: &Value) -> (r: String)
    ensures
        r@ == json_text(json_view(*v)),
        scalar_text(json_view(*v)) matches Some(t) ==> r@ == t,
{
    v.to_string()
}

/// `serde_json::Value::from(())` is null.
#[verifier::external_body]
pub(crate) fn null_value() -> (r: Value)
    ensures
        json_view(r) == JsonView::Null,
{
    Value::from(())
}

/// `serde_json::Value::clone` holds the same as the value it copies.
#[verifier::external_body]
pub(crate) fn copy_value(v: &Value) -> (r: Value)
    ensures
        json_view(r) == json_view(*v),
{
    v.clone()
}

/// The string member `key` of `v`; empty where there is none.
pub open spec fn str_field(j: JsonView, key: Seq<char>) -> Seq<char> {
    match member_of(j, key) {
        Some(x) => match text_in(x) {
            Some(s) => s,
            None => seq![],
        },
        None => seq![],
    }
}

/// The string member `key` of `v`, or the empty string where there is none.
pub fn field_str(v: &Value, key: &str) -> (r: String)
    ensures
        r@ == str_field(json_view(*v), key@),
{
    match member(v, key) {
        Some(x) => match x.as_str() {
            Some(s) => s.to_owned(),
            None => String::new(),
        },
        None => String::new(),
    }
}

/// The integer that `j` is, if it is one between zero and `u64::MAX`.
pub open spec fn integer_in(j: JsonView) -> Option<u64> {
    if exists|n: u64| is_integer(j, n) {
        Some(choose|n: u64| is_integer(j, n))
    } else {
        None
    }
}

/// The integer member `key` of `j`; zero where there is none.
pub open spec fn int_field(j: JsonView, key: Seq<char>) -> u64 {
    match member_of(j, key) {
        Some(x) => match integer_in(x) {
            Some(n) => n,
            None => 0,
        },
        None => 0,
    }
}

/// The integer member `key` of `v`, or zero where there is none.
pub fn field_u64(v: &Value, key: &str) -> (r: u64)
    ensures
        r == int_field(json_view(*v), key@),
{
    match member(v, key) {
        Some(x) => match x.as_u64() {
            Some(n) => {
                assert(is_integer(json_view(*x), n));
                n
            },
            None => 0,
        },
        None => 0,
    }
}

// ---------------------------------------------------------------------------
// Laws
// ---------------------------------------------------------------------------

/// A string member is read as it is; where there is none, or it is no string, the
/// text is empty.
pub proof fn lemma_string_members_are_read(m: Map<Seq<char>, JsonView>, key: Seq<char>, s: Seq<char>)
    ensures
        m.contains_key(key) && m[key] == JsonView::Text(s) ==> str_field(JsonView::Object(m), key) == s,
        !m.contains_key(key) ==> str_field(JsonView::Object(m), key).len() == 0,
        m.contains_key(key) && !(m[key] is Text) ==> str_field(JsonView::Object(m), key).len() == 0,
{
}

/// An integer member between zero and `u64::MAX` is read as it is, whatever its
/// size; any other, and a missing one, as zero.
pub proof fn lemma_integer_members_are_read(m: Map<Seq<char>, JsonView>, key: Seq<char>, n: u64)
    ensures
        m.contains_key(key) && m[key] == JsonView::Number(text::dec(n as nat)) ==> int_field(JsonView::Object(m), key) == n,
        !m.contains_key(key) ==> int_field(JsonView::Object(m), key) == 0,
        m.contains_key(key) && (forall|k: u64| m[key] != JsonView::Number(#[trigger] text::dec(k as nat))) ==> int_field(
            JsonView::Object(m),
            key,
        ) == 0,
{
    if m.contains_key(key) {
        let x = m[key];
        if x == JsonView::Number(text::dec(n as nat)) {
            assert(is_integer(x, n));
            let k = choose|k: u64| is_integer(x, k);
            text::lemma_decimal_is_unique(k as nat, n as nat);
        }
        if forall|k: u64| x != JsonView::Number(#[trigger] text::dec(k as nat)) {
            assert forall|k: u64| !is_integer(x, k) by {}
        }
    }
}

/// The control characters without a letter of their own stand as their number, in
/// four hexadecimal digits.
pub proof fn lemma_control_characters_stand_as_numbers(c: char)
    requires
        (c as int) < 32,
        !(8 <= c as int <= 10) && c as int != 12 && c as int != 13,
    ensures
        ({
            let e = escaped(c);
            let low = c as int % 16;
            &&& e.len() == 6
            &&& e.take(4) == seq!['\\', 'u', '0', '0']
            &&& e[4] == if (c as int) < 16 {
                '0'
            } else {
                '1'
            }
            &&& low < 10 ==> e[5] as int == 48 + low
            &&& low >= 10 ==> e[5] as int == 97 + (low - 10)
        }),
{
    assert(escaped(c).take(4) == seq!['\\', 'u', '0', '0']);
}

/// The notation of what is neither an array nor an object.
pub proof fn lemma_notation_of_scalars(j: JsonView, s: Seq<char>)
    ensures
        j is Null ==> scalar_text(j) == Some("null"@),
        j == JsonView::Bool(true) ==> scalar_text(j) == Some("true"@),
        j == JsonView::Bool(false) ==> scalar_text(j) == Some("false"@),
        j == JsonView::Number(s) ==> scalar_text(j) == Some(s),
        j == JsonView::Text(s) ==> scalar_text(j) == Some(quoted(s)),
        j is Array || j is Object ==> scalar_text(j) is None,
{
}

/// What is no object has no members.
pub proof fn lemma_only_objects_have_members(j: JsonView, key: Seq<char>)
    ensures
        !(j is Object) ==> member_of(j, key) is None && str_field(j, key).len() == 0 && int_field(j, key) == 0,
        j matches JsonView::Object(m) ==> (member_of(j, key) is Some <==> m.contains_key(key)),
        j matches JsonView::Object(m) ==> m.contains_key(key) ==> member_of(j, key) == Some(m[key]),
{
}

/// A JSON string stands between quotes, in which the next quote is escaped; its
/// characters are those of the text, one escape for each that needs one.
pub proof fn lemma_characters_are_escaped_one_by_one(s: Seq<char>, c: char)
    ensures
        quoted(Seq::empty()) == seq!['"', '"'],
        escaped_text(s.push(c)) == escaped_text(s) + escaped(c),
        quoted(s) == seq!['"'] + escaped_text(s) + seq!['"'],
        c as int >= 32 && c as int != 34 && c as int != 92 ==> escaped(c) == seq![c],
        c as int == 34 ==> escaped(c) == seq!['\\', '"'],
        c as int == 92 ==> escaped(c) == seq!['\\', '\\'],
        c as int == 10 ==> escaped(c) == seq!['\\', 'n'],
        c as int == 13 ==> escaped(c) == seq!['\\', 'r'],
        c as int == 9 ==> escaped(c) == seq!['\\', 't'],
        c as int == 8 ==> escaped(c) == seq!['\\', 'b'],
        c as int == 12 ==> escaped(c) == seq!['\\', 'f'],
        (c as int) < 32 ==> escaped(c)[0] == '\\' && (escaped(c).len() == 2 || escaped(c).len() == 6),
{
    assert(s.push(c).drop_last() == s);
    assert(escaped_text(Seq::<char>::empty()) == Seq::<char>::empty());
    assert(quoted(Seq::<char>::empty()) == seq!['"', '"']);
}

} // verus!
