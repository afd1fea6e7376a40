//! Cuts the JSON text of a message into its parts.
//!
//! `serde_json` says where each value ends. The cut keeps every member, in order, as far as
//! the text goes, so that what is wrong with a message can be told in reading order.

use vstd::prelude::*;
use vstd::slice::slice_subrange;
use vstd::utf8::*;

use crate::json;
use crate::json::Json;
use crate::wire;

verus! {

/// A member of an object.
#[derive(Debug)]
pub struct Member {
    pub name: String,
    /// The place behind the name.
    pub name_end: usize,
    /// The place behind the colon, if there is one.
    pub value: Option<usize>,
}

/// What is known of a member of an object.
#[verifier::ext_equal]
pub struct MemberView {
    pub name: Seq<char>,
    pub name_end: int,
    pub value: Option<int>,
}

impl View for Member {
    type V = MemberView;

    open spec fn view(&self) -> MemberView {
        MemberView {
            name: self.name@,
            name_end: self.name_end as int,
            value: match self.value {
                Some(at) => Some(at as int),
                None => None,
            },
        }
    }
}

/// What is known of the members of an object.
pub open spec fn members_view(members: Seq<Member>) -> Seq<MemberView> {
    members.map_values(|member: Member| member@)
}

/// The places of the items of an array.
pub open spec fn items_view(items: Seq<usize>) -> Seq<int> {
    items.map_values(|at: usize| at as int)
}

/// The first place from there on that holds no space.
pub open spec fn space_end(bytes: Seq<u8>, at: int) -> int
    decreases bytes.len() - at,
{
    if 0 <= at < bytes.len() && json::is_space(bytes[at]) {
        space_end(bytes, at + 1)
    } else {
        at
    }
}

/// Whether that byte is at that place.
pub open spec fn is_at(bytes: Seq<u8>, at: int, wanted: u8) -> bool {
    0 <= at < bytes.len() && bytes[at] == wanted
}

/// The place behind the value that starts there, or behind space there.
pub open spec fn value_end(bytes: Seq<u8>, at: int) -> Option<int> {
    match json::json_span(bytes.skip(at)) {
        Some(len) => if 0 < len <= bytes.len() - at {
            Some(at + len)
        } else {
            None
        },
        None => None,
    }
}

/// The members of an object: those that were found, and those from a place on that a name
/// has to stand at. With them comes the place behind the closing brace; `None` where the
/// text breaks off before it.
pub open spec fn members_from(bytes: Seq<u8>, found: Seq<MemberView>, at: int) -> (
    Seq<MemberView>,
    Option<int>,
)
    decreases bytes.len() - at,
{
    match value_end(bytes, at) {
        None => (found, None),
        Some(name_end) => match json::json_from_bytes(bytes.subrange(at, name_end)) {
            Some(Json::Text(name)) => {
                let colon = space_end(bytes, name_end);
                if !is_at(bytes, colon, json::COLON) {
                    (found.push(MemberView { name, name_end, value: None }), None)
                } else {
                    let more = found.push(MemberView { name, name_end, value: Some(colon + 1) });
                    match value_end(bytes, colon + 1) {
                        None => (more, None),
                        Some(end) => {
                            let next = space_end(bytes, end);
                            proof {
                                space_end_bounds(bytes, name_end);
                                space_end_bounds(bytes, end);
                            }
                            if is_at(bytes, next, json::COMMA) {
                                members_from(bytes, more, next + 1)
                            } else if is_at(bytes, next, json::BRACE_CLOSE) {
                                (more, Some(next + 1))
                            } else {
                                (more, None)
                            }
                        },
                    }
                }
            },
            _ => (found, None),
        },
    }
}

/// The members of an object that opens at that place.
pub open spec fn members_at(bytes: Seq<u8>, open: int) -> (Seq<MemberView>, Option<int>) {
    let inner = space_end(bytes, open + 1);
    if is_at(bytes, inner, json::BRACE_CLOSE) {
        (Seq::empty(), Some(inner + 1))
    } else {
        members_from(bytes, Seq::empty(), inner)
    }
}

/// The places of the items of an array: those that were found, and those from a place on
/// that an item has to stand at. With them comes whether the array is closed.
pub open spec fn items_from(bytes: Seq<u8>, found: Seq<int>, at: int) -> (Seq<int>, bool)
    decreases bytes.len() - at,
{
    let start = space_end(bytes, at);
    if start >= bytes.len() || is_at(bytes, start, json::BRACKET_CLOSE) {
        (found, false)
    } else {
        match value_end(bytes, start) {
            None => (found.push(start), false),
            Some(end) => {
                let next = space_end(bytes, end);
                proof {
                    space_end_bounds(bytes, at);
                    space_end_bounds(bytes, end);
                }
                if is_at(bytes, next, json::COMMA) {
                    items_from(bytes, found.push(start), next + 1)
                } else {
                    (found.push(start), is_at(bytes, next, json::BRACKET_CLOSE))
                }
            },
        }
    }
}

/// The places of the items of an array that opens at that place.
pub open spec fn items_at(bytes: Seq<u8>, open: int) -> (Seq<int>, bool) {
    let inner = space_end(bytes, open + 1);
    if is_at(bytes, inner, json::BRACKET_CLOSE) {
        (Seq::empty(), true)
    } else {
        items_from(bytes, Seq::empty(), inner)
    }
}

/// Passing over space never goes back, and never beyond the end.
pub proof fn space_end_bounds(bytes: Seq<u8>, at: int)
    ensures
        at <= space_end(bytes, at),
        at <= bytes.len() ==> space_end(bytes, at) <= bytes.len(),
    decreases bytes.len() - at,
{
    if 0 <= at < bytes.len() && json::is_space(bytes[at]) {
        space_end_bounds(bytes, at + 1);
    }
}

/// Says whether that byte is at that place.
pub(crate) fn holds(bytes: &[u8], at: usize, wanted: u8) -> (yes: bool)
    ensures
        yes == is_at(bytes@, at as int, wanted),
        yes ==> at < usize::MAX,
{
    at < bytes.len() && bytes[at] == wanted
}

/// Passes over space.
pub(crate) fn skip_space(bytes: &[u8], from: usize) -> (at: usize)
    requires
        from <= bytes@.len(),
    ensures
        from <= at <= bytes@.len(),
        at == space_end(bytes@, from as int),
{
    let mut at = from;
    while at < bytes.len() && (bytes[at] == 0x20 || bytes[at] == 0x09 || bytes[at] == 0x0a
        || bytes[at] == 0x0d)
        invariant
            from <= at <= bytes@.len(),
            space_end(bytes@, at as int) == space_end(bytes@, from as int),
        decreases bytes@.len() - at,
    {
        at += 1;
    }
    at
}

/// Finds the place behind a value.
fn find_end(bytes: &[u8], from: usize) -> (found: Option<usize>)
    requires
        from <= bytes@.len(),
    ensures
        match found {
            Some(end) => from < end <= bytes@.len() && value_end(bytes@, from as int) == Some(
                end as int,
            ),
            None => value_end(bytes@, from as int) is None,
        },
{
    let rest = slice_subrange(bytes, from, bytes.len());
    assert(rest@ =~= bytes@.skip(from as int));
    match json::span(rest) {
        Some(len) => Some(from + len),
        None => None,
    }
}

/// Reads the name of a member, and says where it ends.
fn find_name(bytes: &[u8], from: usize) -> (found: Option<(String, usize)>)
    requires
        from <= bytes@.len(),
    ensures
        match found {
            Some((name, end)) => from < end <= bytes@.len() && value_end(bytes@, from as int)
                == Some(end as int) && json::json_from_bytes(
                bytes@.subrange(from as int, end as int),
            ) == Some(Json::Text(name@)),
            None => match value_end(bytes@, from as int) {
                Some(end) => match json::json_from_bytes(bytes@.subrange(from as int, end)) {
                    Some(Json::Text(_)) => false,
                    _ => true,
                },
                None => true,
            },
        },
{
    let end = find_end(bytes, from)?;
    let value = json::parse_bytes(slice_subrange(bytes, from, end))?;
    let name = value.as_str()?;
    Some((name.to_owned(), end))
}

/// Cuts an object, from behind the brace that opens it.
pub(crate) fn cut_members(bytes: &[u8], open: usize) -> (cut: (Vec<Member>, Option<usize>))
    requires
        open < bytes@.len(),
        open < usize::MAX,
    ensures
        members_at(bytes@, open as int).0 == members_view(cut.0@),
        match cut.1 {
            Some(end) => end <= bytes@.len() && members_at(bytes@, open as int).1 == Some(
                end as int,
            ),
            None => members_at(bytes@, open as int).1 is None,
        },
        forall|i: int|
            0 <= i < cut.0@.len() ==> (#[trigger] cut.0@[i]).name_end <= bytes@.len() && (
            cut.0@[i].value matches Some(at) ==> at <= bytes@.len()),
{
    let mut list: Vec<Member> = Vec::new();
    let mut at = skip_space(bytes, open + 1);
    assert(members_view(list@) =~= Seq::empty());
    if holds(bytes, at, json::BRACE_CLOSE) {
        return (list, Some(at + 1));
    }
    loop
        invariant
            at <= bytes@.len(),
            members_from(bytes@, members_view(list@), at as int) == members_at(bytes@, open as int),
            forall|i: int|
                0 <= i < list@.len() ==> (#[trigger] list@[i]).name_end <= bytes@.len() && (
                list@[i].value matches Some(at) ==> at <= bytes@.len()),
        decreases bytes@.len() - at,
    {
        let ghost before = list@;
        let (name, name_end) = match find_name(bytes, at) {
            Some(found) => found,
            None => {
                return (list, None);
            },
        };
        let colon = skip_space(bytes, name_end);
        let value = if holds(bytes, colon, json::COLON) {
            Some(colon + 1)
        } else {
            None
        };
        let member = Member { name, name_end, value };
        list.push(member);
        assert(members_view(list@) =~= members_view(before).push(member@));
        if value.is_none() {
            return (list, None);
        }
        let end = match find_end(bytes, colon + 1) {
            Some(end) => end,
            None => {
                return (list, None);
            },
        };
        let next = skip_space(bytes, end);
        if holds(bytes, next, json::COMMA) {
            at = next + 1;
        } else if holds(bytes, next, json::BRACE_CLOSE) {
            return (list, Some(next + 1));
        } else {
            return (list, None);
        }
    }
}

/// Cuts an array, from behind the bracket that opens it.
pub(crate) fn cut_items(bytes: &[u8], open: usize) -> (cut: (Vec<usize>, bool))
    requires
        open < bytes@.len(),
        open < usize::MAX,
    ensures
        items_at(bytes@, open as int) == (items_view(cut.0@), cut.1),
        forall|i: int| 0 <= i < cut.0@.len() ==> #[trigger] cut.0@[i] <= bytes@.len(),
{
    let mut list: Vec<usize> = Vec::new();
    let mut at = skip_space(bytes, open + 1);
    assert(items_view(list@) =~= Seq::empty());
    if holds(bytes, at, json::BRACKET_CLOSE) {
        return (list, true);
    }
    loop
        invariant
            at <= bytes@.len(),
            items_from(bytes@, items_view(list@), at as int) == items_at(bytes@, open as int),
            forall|i: int| 0 <= i < list@.len() ==> #[trigger] list@[i] <= bytes@.len(),
        decreases bytes@.len() - at,
    {
        let ghost before = list@;
        let start = skip_space(bytes, at);
        if start >= bytes.len() || holds(bytes, start, json::BRACKET_CLOSE) {
            return (list, false);
        }
        list.push(start);
        assert(items_view(list@) =~= items_view(before).push(start as int));
        let end = match find_end(bytes, start) {
            Some(end) => end,
            None => {
                return (list, false);
            },
        };
        let next = skip_space(bytes, end);
        if holds(bytes, next, json::COMMA) {
            at = next + 1;
        } else {
            let closed = holds(bytes, next, json::BRACKET_CLOSE);
            return (list, closed);
        }
    }
}

/// Whether a value's text is at a place, before what may follow a value in an object.
pub open spec fn written_at(bytes: Seq<u8>, at: int, value: Json) -> bool {
    0 <= at <= bytes.len() && exists|rest: Seq<u8>|
        json::ends_value(rest) && bytes.skip(at) == #[trigger] (json::json_bytes(value) + rest)
}

/// Whether the members are named and placed as values that were written.
pub open spec fn shows(
    bytes: Seq<u8>,
    members: Seq<MemberView>,
    values: Seq<(Seq<char>, Json)>,
) -> bool {
    &&& members.len() == values.len()
    &&& forall|i: int|
        #![trigger members[i]]
        0 <= i < members.len() ==> {
            &&& members[i].name == values[i].0
            &&& members[i].value matches Some(at) && written_at(bytes, at, values[i].1)
        }
}

/// The bytes of one ASCII character.
proof fn encode_one(c: char)
    requires
        (c as u32) < 0x80,
    ensures
        encode_utf8(seq![c]) == seq![c as u8],
{
    is_ascii_chars_encode_utf8(seq![c]);
    assert(encode_utf8(seq![c]) =~= seq![c as u8]);
}

/// The bytes of written members: a name, a colon, a value, and the rest.
proof fn members_bytes(values: Seq<(Seq<char>, Json)>)
    requires
        values.len() > 0,
    ensures
        ({
            let rest = if values.len() == 1 {
                seq![json::BRACE_CLOSE]
            } else {
                seq![json::COMMA] + encode_utf8(json::members_text(values.skip(1)))
            };
            let behind_name = seq![json::COLON] + (json::json_bytes(values[0].1) + rest);
            encode_utf8(json::members_text(values)) == json::json_bytes(Json::Text(values[0].0))
                + behind_name
        }),
{
    let name = json::json_text(Json::Text(values[0].0));
    let value = json::json_text(values[0].1);
    let rest = if values.len() == 1 {
        seq!['}']
    } else {
        seq![','] + json::members_text(values.skip(1))
    };
    encode_one(':');
    encode_one(',');
    encode_one('}');
    wire::encode_utf8_concat(seq![','], json::members_text(values.skip(1)));
    wire::encode_utf8_concat(name, seq![':']);
    wire::encode_utf8_concat(name + seq![':'], value);
    wire::encode_utf8_concat(name + seq![':'] + value, rest);
    assert(json::members_text(values) == name + seq![':'] + value + rest);
    assert(encode_utf8(name) + seq![json::COLON] + encode_utf8(value) + encode_utf8(rest)
        =~= encode_utf8(name) + (seq![json::COLON] + (encode_utf8(value) + encode_utf8(rest))));
}

/// The place behind a value that was written.
proof fn written_end(bytes: Seq<u8>, at: int, value: Json, rest: Seq<u8>)
    requires
        json::skippable(value),
        json::ends_value(rest),
        0 <= at <= bytes.len(),
        bytes.skip(at) == json::json_bytes(value) + rest,
    ensures
        value_end(bytes, at) == Some(at + json::json_bytes(value).len()),
        bytes.subrange(at, at + json::json_bytes(value).len()) == json::json_bytes(value),
        bytes.skip(at + json::json_bytes(value).len()) == rest,
        bytes[at + json::json_bytes(value).len()] == rest[0],
        at + json::json_bytes(value).len() < bytes.len(),
{
    let len = json::json_bytes(value).len() as int;
    assert(json::json_span(json::json_bytes(value) + rest) == Some(json::json_bytes(value).len()));
    assert(bytes.skip(at).len() == len + rest.len());
    assert(bytes.subrange(at, at + len) =~= bytes.skip(at).take(len));
    assert(bytes.skip(at).take(len) =~= json::json_bytes(value));
    assert(bytes.skip(at + len) =~= bytes.skip(at).skip(len));
    assert(bytes.skip(at).skip(len) =~= rest);
    assert(bytes[at + len] == bytes.skip(at)[len]);
}

/// Written members are cut into what was written.
proof fn written_members(
    bytes: Seq<u8>,
    found: Seq<MemberView>,
    values: Seq<(Seq<char>, Json)>,
    at: int,
)
    requires
        values.len() > 0,
        0 <= at <= bytes.len(),
        bytes.skip(at) == encode_utf8(json::members_text(values)),
        forall|i: int|
            #![trigger values[i]]
            0 <= i < values.len() ==> json::legible(Json::Text(values[i].0)) && json::skippable(
                values[i].1,
            ),
    ensures
        members_from(bytes, found, at).1 is Some,
        members_from(bytes, found, at).0.len() == found.len() + values.len(),
        members_from(bytes, found, at).0.take(found.len() as int) == found,
        shows(bytes, members_from(bytes, found, at).0.skip(found.len() as int), values),
    decreases values.len(),
{
    members_bytes(values);
    let name = Json::Text(values[0].0);
    let value = values[0].1;
    let rest = if values.len() == 1 {
        seq![json::BRACE_CLOSE]
    } else {
        seq![json::COMMA] + encode_utf8(json::members_text(values.skip(1)))
    };
    let behind_name = seq![json::COLON] + (json::json_bytes(value) + rest);
    let name_end = at + json::json_bytes(name).len();
    let start = name_end + 1;
    let end = start + json::json_bytes(value).len();
    written_end(bytes, at, name, behind_name);
    assert(bytes.skip(start) =~= bytes.skip(name_end).skip(1));
    assert(behind_name.skip(1) =~= json::json_bytes(value) + rest);
    written_end(bytes, start, value, rest);
    assert(space_end(bytes, name_end) == name_end);
    assert(space_end(bytes, end) == end);
    assert(written_at(bytes, start, value));
    let member = MemberView { name: values[0].0, name_end, value: Some(start) };
    let more = found.push(member);
    let n = found.len() as int;
    if values.len() == 1 {
        assert(members_from(bytes, found, at) == (more, Some(end + 1)));
        assert(more.take(n) =~= found);
        assert(more.skip(n) =~= seq![member]);
    } else {
        let others = values.skip(1);
        assert forall|i: int|
            #![trigger others[i]]
            0 <= i < others.len() implies json::legible(Json::Text(others[i].0)) && json::skippable(
            others[i].1,
        ) by {
            assert(others[i] == values[i + 1]);
        }
        assert(bytes.skip(end + 1) =~= bytes.skip(end).skip(1));
        assert(rest.skip(1) =~= encode_utf8(json::members_text(others)));
        written_members(bytes, more, others, end + 1);
        let all = members_from(bytes, more, end + 1).0;
        assert(members_from(bytes, found, at) == members_from(bytes, more, end + 1));
        assert(all.take(n) =~= all.take(n + 1).take(n));
        assert(more.take(n) =~= found);
        assert(all[n] == all.take(n + 1)[n]);
        assert forall|i: int| #![trigger all.skip(n)[i]] 0 <= i < all.skip(n).len() implies {
            &&& all.skip(n)[i].name == values[i].0
            &&& all.skip(n)[i].value matches Some(at) && written_at(bytes, at, values[i].1)
        } by {
            if i > 0 {
                assert(all.skip(n)[i] == all.skip(n + 1)[i - 1]);
                assert(values[i] == others[i - 1]);
            }
        }
    }
}

/// The text of an object that was written is cut into the values it was written with.
pub proof fn written_members_at(values: Seq<(Seq<char>, Json)>)
    requires
        values.len() > 0,
        forall|i: int|
            #![trigger values[i]]
            0 <= i < values.len() ==> json::legible(Json::Text(values[i].0)) && json::skippable(
                values[i].1,
            ),
    ensures
        ({
            let bytes = encode_utf8(json::object_text(values));
            let (members, end) = members_at(bytes, 0);
            &&& space_end(bytes, 0) == 0
            &&& is_at(bytes, 0, json::BRACE_OPEN)
            &&& end is Some
            &&& shows(bytes, members, values)
        }),
{
    let bytes = encode_utf8(json::object_text(values));
    let inner = encode_utf8(json::members_text(values));
    encode_one('{');
    wire::encode_utf8_concat(seq!['{'], json::members_text(values));
    assert(bytes == seq![json::BRACE_OPEN] + inner);
    assert(bytes.skip(1) =~= inner);
    members_bytes(values);
    assert(json::legible(Json::Text(values[0].0)));
    assert(inner[0] == json::json_bytes(Json::Text(values[0].0))[0]);
    assert(bytes[1] == inner[0]);
    written_members(bytes, Seq::empty(), values, 1);
    let members = members_from(bytes, Seq::empty(), 1).0;
    assert(members.skip(0) =~= members);
}

} // verus!
