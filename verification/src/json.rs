//! JSON values, as far as the protocol's messages need them.
//!
//! `serde_json` reads and writes the text. This module gives its values a model,
//! [`Json`], and states over that model what the calls into the crate do.

use std::collections::BTreeMap;

use serde::de::IgnoredAny;
use serde_json::Value;
use vstd::prelude::*;
use vstd::utf8::encode_utf8;

verus! {

/// `serde_json`'s JSON value.
#[verifier::external_type_specification]
#[verifier::external_body]
pub struct ExValue(serde_json::Value);

/// `serde_json`'s table of an object's members.
#[verifier::external_type_specification]
#[verifier::external_body]
#[verifier::reject_recursive_types(K)]
#[verifier::reject_recursive_types(V)]
pub struct ExMap<K, V>(serde_json::Map<K, V>);

/// `serde_json`'s error.
#[verifier::external_type_specification]
#[verifier::external_body]
pub struct ExError(serde_json::Error);

/// What a JSON value holds.
pub enum Json {
    Null,
    Bool(bool),
    /// A number that is held as an integer, from `i64::MIN` to `u64::MAX`.
    Integer(int),
    /// Any other number. The index tells two such numbers apart and says nothing of
    /// their magnitude: no message of the protocol reads one.
    Decimal(nat),
    Text(Seq<char>),
    Array(Seq<Json>),
    Object(Map<Seq<char>, Json>),
}

/// How many arrays and objects may stand inside one another in a text that
/// `serde_json` reads.
pub const MAX_DEPTH: usize = 127;

/// `:`, between a member's name and its value.
pub const COLON: u8 = 0x3a;

/// `,`, between members and between items.
pub const COMMA: u8 = 0x2c;

/// `{`, before the members of an object.
pub const BRACE_OPEN: u8 = 0x7b;

/// `}`, behind the members of an object.
pub const BRACE_CLOSE: u8 = 0x7d;

/// `[`, before the items of an array.
pub const BRACKET_OPEN: u8 = 0x5b;

/// `]`, behind the items of an array.
pub const BRACKET_CLOSE: u8 = 0x5d;

/// What a `serde_json::Value` holds.
pub uninterp spec fn json(value: Value) -> Json;

/// What a `serde_json::Map` holds.
pub uninterp spec fn members(table: serde_json::Map<String, Value>) -> Map<Seq<char>, Json>;

/// What `serde_json::from_str` reads from a text; `None` where it reports an error.
pub uninterp spec fn json_from_text(text: Seq<char>) -> Option<Json>;

/// What `serde_json::from_slice` reads from bytes as a value; `None` where it reports an
/// error.
pub uninterp spec fn json_from_bytes(bytes: Seq<u8>) -> Option<Json>;

/// How many bytes `serde_json` takes to skip the first JSON value, with the space before
/// it; `None` where the bytes open with none.
pub uninterp spec fn json_span(bytes: Seq<u8>) -> Option<nat>;

/// The text that the bytes open with, behind any space, as `serde_json` reads a `String`;
/// or the message of its error.
pub uninterp spec fn text_read(bytes: Seq<u8>) -> Result<Seq<char>, Seq<char>>;

/// The text or null that the bytes open with, as `serde_json` reads an `Option<String>`; or
/// the message of its error.
pub uninterp spec fn optional_text_read(bytes: Seq<u8>) -> Result<Option<Seq<char>>, Seq<char>>;

/// The truth value that the bytes open with, as `serde_json` reads a `bool`; or the message
/// of its error.
pub uninterp spec fn flag_read(bytes: Seq<u8>) -> Result<bool, Seq<char>>;

/// The number that the bytes open with, as `serde_json` reads a `u8`; or the message of its
/// error.
pub uninterp spec fn byte_read(bytes: Seq<u8>) -> Result<u8, Seq<char>>;

/// The number that the bytes open with, as `serde_json` reads a `u32`; or the message of its
/// error.
pub uninterp spec fn word_read(bytes: Seq<u8>) -> Result<u32, Seq<char>>;

/// The number that the bytes open with, as `serde_json` reads a `u64`; or the message of its
/// error.
pub uninterp spec fn long_read(bytes: Seq<u8>) -> Result<u64, Seq<char>>;

/// The message with which `serde_json` refuses the bytes as an object; `None` where it
/// accepts them.
pub uninterp spec fn object_fault(bytes: Seq<u8>) -> Option<Seq<char>>;

/// The message with which `serde_json` refuses the bytes as an array; `None` where it
/// accepts them.
pub uninterp spec fn list_fault(bytes: Seq<u8>) -> Option<Seq<char>>;

/// The message with which `serde_json` refuses the bytes as an array of five items; `None`
/// where it accepts them.
pub uninterp spec fn five_fault(bytes: Seq<u8>) -> Option<Seq<char>>;

/// The message with which `serde_json` refuses the bytes as an array of twelve items; `None`
/// where it accepts them.
pub uninterp spec fn twelve_fault(bytes: Seq<u8>) -> Option<Seq<char>>;

/// The text that a `serde_json::Value` displays as. The members of an object come in the
/// order of their names, as the tables of `serde_json` keep them unless its feature
/// `preserve_order` is on.
pub uninterp spec fn json_text(value: Json) -> Seq<char>;

/// A value that comes back unchanged when its text is read: it has no number that is
/// held as a float, whose last digit may be read differently, and at most `depth`
/// arrays and objects stand inside one another.
pub open spec fn reads_back(value: Json, depth: nat) -> bool
    decreases depth,
{
    match value {
        Json::Decimal(_) => false,
        Json::Array(items) => depth > 0 && forall|i: int|
            0 <= i < items.len() ==> reads_back(#[trigger] items[i], (depth - 1) as nat),
        Json::Object(table) => depth > 0 && forall|name: Seq<char>|
            table.contains_key(name) ==> reads_back(#[trigger] table[name], (depth - 1) as nat),
        _ => true,
    }
}

/// The text in an optional string.
pub open spec fn optional_view(text: Option<String>) -> Option<Seq<char>> {
    match text {
        Some(chars) => Some(chars@),
        None => None,
    }
}

/// What a list of named values holds.
pub open spec fn fields_view(fields: Seq<(String, Value)>) -> Seq<(Seq<char>, Json)> {
    fields.map_values(|field: (String, Value)| (field.0@, json(field.1)))
}

/// What a list of values holds.
pub open spec fn items_view(items: Seq<Value>) -> Seq<Json> {
    items.map_values(|item: Value| json(item))
}

/// The member of that name; `None` where the value is no object or has none.
pub open spec fn member(value: Json, name: Seq<char>) -> Option<Json> {
    match value {
        Json::Object(table) => if table.contains_key(name) {
            Some(table[name])
        } else {
            None
        },
        _ => None,
    }
}

/// The members of an object in compact form, up to the closing brace.
pub open spec fn members_text(fields: Seq<(Seq<char>, Json)>) -> Seq<char>
    decreases fields.len(),
{
    if fields.len() == 0 {
        seq!['}']
    } else {
        json_text(Json::Text(fields[0].0)) + seq![':'] + json_text(fields[0].1) + (if fields.len()
            == 1 {
            seq!['}']
        } else {
            seq![','] + members_text(fields.skip(1))
        })
    }
}

/// An object in compact form, with its members in this order.
pub open spec fn object_text(fields: Seq<(Seq<char>, Json)>) -> Seq<char> {
    seq!['{'] + members_text(fields)
}

/// The bytes of a value's text.
pub open spec fn json_bytes(value: Json) -> Seq<u8> {
    encode_utf8(json_text(value))
}

/// Whether JSON counts the byte as space.
pub open spec fn is_space(byte: u8) -> bool {
    byte == 0x20 || byte == 0x09 || byte == 0x0a || byte == 0x0d
}

/// Whether the bytes open with one that may stand behind a member's name or value.
pub open spec fn ends_value(bytes: Seq<u8>) -> bool {
    bytes.len() > 0 && (bytes[0] == COLON || bytes[0] == COMMA || bytes[0] == BRACE_CLOSE)
}

/// Whether all the bytes are space.
pub open spec fn all_space(bytes: Seq<u8>) -> bool {
    forall|i: int| 0 <= i < bytes.len() ==> is_space(#[trigger] bytes[i])
}

/// Whether the bytes are read as that value by each reader of a type that can hold it.
pub open spec fn reads_as(bytes: Seq<u8>, value: Json) -> bool {
    match value {
        Json::Null => optional_text_read(bytes) == Ok::<Option<Seq<char>>, Seq<char>>(None),
        Json::Text(chars) => {
            &&& text_read(bytes) == Ok::<Seq<char>, Seq<char>>(chars)
            &&& optional_text_read(bytes) == Ok::<Option<Seq<char>>, Seq<char>>(Some(chars))
        },
        Json::Bool(flag) => flag_read(bytes) == Ok::<bool, Seq<char>>(flag),
        Json::Integer(n) => {
            &&& 0 <= n <= u8::MAX ==> byte_read(bytes) == Ok::<u8, Seq<char>>(n as u8)
            &&& 0 <= n <= u32::MAX ==> word_read(bytes) == Ok::<u32, Seq<char>>(n as u32)
            &&& 0 <= n <= u64::MAX ==> long_read(bytes) == Ok::<u64, Seq<char>>(n as u64)
        },
        _ => true,
    }
}

/// A value whose text is skipped as one value where it stands inside an object. The text
/// opens with neither space nor a brace that closes.
pub open spec fn skippable(value: Json) -> bool {
    &&& json_bytes(value).len() > 0
    &&& !is_space(json_bytes(value)[0])
    &&& json_bytes(value)[0] != BRACE_CLOSE
    &&& forall|rest: Seq<u8>|
        ends_value(rest) ==> #[trigger] json_span(json_bytes(value) + rest) == Some(
            json_bytes(value).len(),
        )
}

/// A value whose text is [`skippable`], and is read back as that value, alone and behind
/// space inside an object.
pub open spec fn legible(value: Json) -> bool {
    &&& skippable(value)
    &&& json_from_bytes(json_bytes(value)) == Some(value)
    &&& forall|lead: Seq<u8>, rest: Seq<u8>|
        all_space(lead) && ends_value(rest) ==> reads_as(
            #[trigger] (lead + (json_bytes(value) + rest)),
            value,
        )
}

/// Calls `serde_json::from_str` for a `Value`, and drops the error. Claims that what it
/// reads is a function of the text alone.
#[verifier::external_body]
pub(crate) fn parse_text(source: &str) -> (value: Option<Value>)
    ensures
        match value {
            Some(v) => json_from_text(source@) == Some(json(v)),
            None => json_from_text(source@) is None,
        },
{
    serde_json::from_str(source).ok()
}

/// Calls `serde_json::from_slice` for a `Value`, and drops the error. Claims that what it
/// reads is a function of the bytes alone.
#[verifier::external_body]
pub(crate) fn parse_bytes(source: &[u8]) -> (value: Option<Value>)
    ensures
        match value {
            Some(v) => json_from_bytes(source@) == Some(json(v)),
            None => json_from_bytes(source@) is None,
        },
{
    serde_json::from_slice(source).ok()
}

/// Calls `deserialize` of `String` on a `serde_json::Deserializer` of the bytes, which
/// reads one value and looks at nothing behind it, and takes the message of the error.
/// Claims that the answer is a function of the bytes alone.
#[verifier::external_body]
pub(crate) fn read_text(source: &[u8]) -> (result: Result<String, String>)
    ensures
        match result {
            Ok(value) => text_read(source@) matches Ok(v) && v == value@,
            Err(message) => text_read(source@) matches Err(m) && m == message@,
        },
{
    let mut reader = serde_json::Deserializer::from_slice(source);
    serde::Deserialize::deserialize(&mut reader).map_err(|e: serde_json::Error| e.to_string())
}

/// Calls `deserialize` of `Option<String>` on a `serde_json::Deserializer` of the bytes, which
/// reads one value and looks at nothing behind it, and takes the message of the error.
/// Claims that the answer is a function of the bytes alone.
#[verifier::external_body]
pub(crate) fn read_optional_text(source: &[u8]) -> (result: Result<Option<String>, String>)
    ensures
        match result {
            Ok(value) => optional_text_read(source@) matches Ok(v) && v == optional_view(value),
            Err(message) => optional_text_read(source@) matches Err(m) && m == message@,
        },
{
    let mut reader = serde_json::Deserializer::from_slice(source);
    serde::Deserialize::deserialize(&mut reader).map_err(|e: serde_json::Error| e.to_string())
}

/// Calls `deserialize` of `bool` on a `serde_json::Deserializer` of the bytes, which
/// reads one value and looks at nothing behind it, and takes the message of the error.
/// Claims that the answer is a function of the bytes alone.
#[verifier::external_body]
pub(crate) fn read_flag(source: &[u8]) -> (result: Result<bool, String>)
    ensures
        match result {
            Ok(value) => flag_read(source@) matches Ok(v) && v == value,
            Err(message) => flag_read(source@) matches Err(m) && m == message@,
        },
{
    let mut reader = serde_json::Deserializer::from_slice(source);
    serde::Deserialize::deserialize(&mut reader).map_err(|e: serde_json::Error| e.to_string())
}

/// Calls `deserialize` of `u8` on a `serde_json::Deserializer` of the bytes, which
/// reads one value and looks at nothing behind it, and takes the message of the error.
/// Claims that the answer is a function of the bytes alone.
#[verifier::external_body]
pub(crate) fn read_byte(source: &[u8]) -> (result: Result<u8, String>)
    ensures
        match result {
            Ok(value) => byte_read(source@) matches Ok(v) && v == value,
            Err(message) => byte_read(source@) matches Err(m) && m == message@,
        },
{
    let mut reader = serde_json::Deserializer::from_slice(source);
    serde::Deserialize::deserialize(&mut reader).map_err(|e: serde_json::Error| e.to_string())
}

/// Calls `deserialize` of `u32` on a `serde_json::Deserializer` of the bytes, which
/// reads one value and looks at nothing behind it, and takes the message of the error.
/// Claims that the answer is a function of the bytes alone.
#[verifier::external_body]
pub(crate) fn read_word(source: &[u8]) -> (result: Result<u32, String>)
    ensures
        match result {
            Ok(value) => word_read(source@) matches Ok(v) && v == value,
            Err(message) => word_read(source@) matches Err(m) && m == message@,
        },
{
    let mut reader = serde_json::Deserializer::from_slice(source);
    serde::Deserialize::deserialize(&mut reader).map_err(|e: serde_json::Error| e.to_string())
}

/// Calls `deserialize` of `u64` on a `serde_json::Deserializer` of the bytes, which
/// reads one value and looks at nothing behind it, and takes the message of the error.
/// Claims that the answer is a function of the bytes alone.
#[verifier::external_body]
pub(crate) fn read_long(source: &[u8]) -> (result: Result<u64, String>)
    ensures
        match result {
            Ok(value) => long_read(source@) matches Ok(v) && v == value,
            Err(message) => long_read(source@) matches Err(m) && m == message@,
        },
{
    let mut reader = serde_json::Deserializer::from_slice(source);
    serde::Deserialize::deserialize(&mut reader).map_err(|e: serde_json::Error| e.to_string())
}

/// Calls `serde_json::from_slice` for a `BTreeMap<String, IgnoredAny>`, which reads the
/// names and skips the values, and takes the message of the error. Claims that the answer
/// is a function of the bytes alone, and that bytes among which is a zero are refused: JSON
/// has none, not even inside a string.
#[verifier::external_body]
pub(crate) fn find_object_fault(source: &[u8]) -> (fault: Option<String>)
    ensures
        match fault {
            Some(message) => object_fault(source@) == Some(message@),
            None => object_fault(source@) is None,
        },
        source@.contains(0u8) ==> fault is Some,
{
    serde_json::from_slice::<BTreeMap<String, IgnoredAny>>(source).err().map(|e| e.to_string())
}

/// Calls `serde_json::from_slice` for a `Vec<IgnoredAny>`, which skips the items, and takes
/// the message of the error. Claims that the answer is a function of the bytes alone, and
/// that bytes among which is a zero are refused: JSON has none, not even inside a string.
#[verifier::external_body]
pub(crate) fn find_list_fault(source: &[u8]) -> (fault: Option<String>)
    ensures
        match fault {
            Some(message) => list_fault(source@) == Some(message@),
            None => list_fault(source@) is None,
        },
        source@.contains(0u8) ==> fault is Some,
{
    serde_json::from_slice::<Vec<IgnoredAny>>(source).err().map(|e| e.to_string())
}

/// Calls `serde_json::from_slice` for a tuple of five `IgnoredAny`, which skips so many items,
/// and takes the message of the error. Claims that the answer is a function of the bytes
/// alone.
#[verifier::external_body]
pub(crate) fn find_five_fault(source: &[u8]) -> (fault: Option<String>)
    ensures
        match fault {
            Some(message) => five_fault(source@) == Some(message@),
            None => five_fault(source@) is None,
        },
{
    let read: Result<
        (IgnoredAny, IgnoredAny, IgnoredAny, IgnoredAny, IgnoredAny),
        serde_json::Error,
    > = serde_json::from_slice(source);
    read.err().map(|e| e.to_string())
}

/// Calls `serde_json::from_slice` for a tuple of twelve `IgnoredAny`, which skips so many items,
/// and takes the message of the error. Claims that the answer is a function of the bytes
/// alone.
#[verifier::external_body]
pub(crate) fn find_twelve_fault(source: &[u8]) -> (fault: Option<String>)
    ensures
        match fault {
            Some(message) => twelve_fault(source@) == Some(message@),
            None => twelve_fault(source@) is None,
        },
{
    let read: Result<
        (
            IgnoredAny, IgnoredAny, IgnoredAny, IgnoredAny, IgnoredAny, IgnoredAny,
            IgnoredAny, IgnoredAny, IgnoredAny, IgnoredAny, IgnoredAny, IgnoredAny,
        ),
        serde_json::Error,
    > = serde_json::from_slice(source);
    read.err().map(|e| e.to_string())
}

/// Takes the first value off a `serde_json::StreamDeserializer` of `serde::de::IgnoredAny`,
/// and asks for its `byte_offset`. Claims that the answer is a function of the bytes alone,
/// and that a value takes at least one of the bytes that are there.
#[verifier::external_body]
pub(crate) fn span(source: &[u8]) -> (len: Option<usize>)
    ensures
        match len {
            Some(n) => json_span(source@) == Some(n as nat) && 0 < n <= source@.len(),
            None => json_span(source@) is None,
        },
{
    let reader = serde_json::Deserializer::from_slice(source);
    let mut values = reader.into_iter::<IgnoredAny>();
    values.next()?.ok()?;
    Some(values.byte_offset())
}

/// Calls `to_string` on a `Value`, which displays it as compact JSON. Claims that the
/// text is a function of what the value holds, that an object's text opens with a
/// brace, and that `serde_json::from_str` reads the value back from it. The value is
/// within the limits of [`reads_back`], so that the call, which goes as deep as the value
/// does, returns.
#[verifier::external_body]
pub(crate) fn render(value: &Value) -> (out: String)
    requires
        reads_back(json(*value), MAX_DEPTH as nat),
    ensures
        out@ == json_text(json(*value)),
        json(*value) is Object ==> out@.len() > 0 && out@[0] == '{',
        json_from_text(out@) == Some(json(*value)),
{
    value.to_string()
}

/// Calls `serde::Serializer::collect_map` on a `serde_json::Serializer` that writes to a
/// byte vector, where no write fails. Claims that it succeeds and writes the object in
/// compact form, each value as it displays; that `serde_json` takes the bytes for an
/// object; and that each name and each value is [`legible`]. The values are within the
/// limits of [`reads_back`], so that the call, which goes as deep as they do, returns.
#[verifier::external_body]
pub(crate) fn write_object(fields: &Vec<(String, Value)>) -> (out: Result<
    Vec<u8>,
    serde_json::Error,
>)
    requires
        forall|i: int|
            #![trigger fields_view(fields@)[i]]
            0 <= i < fields@.len() ==> reads_back(fields_view(fields@)[i].1, MAX_DEPTH as nat),
    ensures
        out is Ok,
        out matches Ok(bytes) ==> bytes@ == encode_utf8(object_text(fields_view(fields@))),
        out matches Ok(bytes) ==> object_fault(bytes@) is None,
        out is Ok ==> forall|i: int|
            #![trigger fields_view(fields@)[i]]
            0 <= i < fields@.len() ==> legible(Json::Text(fields_view(fields@)[i].0)) && legible(
                fields_view(fields@)[i].1,
            ),
{
    let mut bytes = Vec::new();
    let mut writer = serde_json::Serializer::new(&mut bytes);
    serde::Serializer::collect_map(&mut writer, fields.iter().map(|field| (&field.0, &field.1)))?;
    Ok(bytes)
}

/// Calls `serde_json::Value::get` with a name: the member of an object, `None` of any
/// other value.
#[verifier::external_body]
pub(crate) fn get<'a>(value: &'a Value, name: &str) -> (found: Option<&'a Value>)
    ensures
        match found {
            Some(v) => member(json(*value), name@) == Some(json(*v)),
            None => member(json(*value), name@) is None,
        },
{
    value.get(name)
}

/// `serde_json::Value::as_array`: the items of an array, in order.
pub assume_specification[ Value::as_array ](value: &Value) -> (items: Option<&Vec<Value>>)
    ensures
        match items {
            Some(list) => json(*value) == Json::Array(items_view(list@)),
            None => !(json(*value) is Array),
        },
;

/// `serde_json::Value::as_str`: the text of a string.
pub assume_specification[ Value::as_str ](value: &Value) -> (chars: Option<&str>)
    ensures
        match chars {
            Some(s) => json(*value) == Json::Text(s@),
            None => !(json(*value) is Text),
        },
;

/// Calls `serde_json::Map::new`: a table without members.
#[verifier::external_body]
pub(crate) fn new_map() -> (table: serde_json::Map<String, Value>)
    ensures
        members(table) == (Map::<Seq<char>, Json>::empty()),
{
    serde_json::Map::new()
}

/// Calls `serde_json::Map::insert`: the member is added, or takes the place of the one
/// of that name.
#[verifier::external_body]
pub(crate) fn insert(table: &mut serde_json::Map<String, Value>, name: &str, value: Value)
    ensures
        members(*final(table)) == members(*old(table)).insert(name@, json(value)),
{
    table.insert(name.to_owned(), value);
}

/// Makes the `serde_json::Value::Object` of a table.
#[verifier::external_body]
pub(crate) fn object_value(table: serde_json::Map<String, Value>) -> (value: Value)
    ensures
        json(value) == Json::Object(members(table)),
{
    Value::Object(table)
}

/// Makes the `serde_json::Value::Array` of a list.
#[verifier::external_body]
pub(crate) fn array_value(items: Vec<Value>) -> (value: Value)
    ensures
        json(value) == Json::Array(items_view(items@)),
{
    Value::Array(items)
}

/// Makes the `serde_json::Value::String` of a text.
#[verifier::external_body]
pub(crate) fn text_value(chars: &str) -> (value: Value)
    ensures
        json(value) == Json::Text(chars@),
{
    Value::String(chars.to_owned())
}

/// Makes the `serde_json::Value::Bool` of a truth value.
#[verifier::external_body]
pub(crate) fn flag_value(flag: bool) -> (value: Value)
    ensures
        json(value) == Json::Bool(flag),
{
    Value::Bool(flag)
}

/// Calls `serde_json::Value::from` on an integer, which is then held as one.
#[verifier::external_body]
pub(crate) fn number_value(number: u64) -> (value: Value)
    ensures
        json(value) == Json::Integer(number as int),
{
    Value::from(number)
}

/// Makes `serde_json::Value::Null`.
#[verifier::external_body]
pub(crate) fn null_value() -> (value: Value)
    ensures
        json(value) == Json::Null,
{
    Value::Null
}

} // verus!
