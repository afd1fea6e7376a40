//! Objects and arrays as they may be spelled, with space wherever JSON allows it, and what is
//! read of them whatever the spelling.
//!
//! A name or a value is given by its bytes, together with what `serde_json` makes of these
//! bytes wherever they stand.

use vstd::prelude::*;
use vstd::string::*;

use crate::json;
use crate::json::Json;
use crate::parts;
use crate::parts::MemberView;
use crate::place;
use crate::record;
use crate::record::{HeldView, Kind, ShapeView};

verus! {

/// A member of an object, as it is spelled.
pub struct Spelled {
    /// Space before the name.
    pub lead: Seq<u8>,
    /// The name, in quotes.
    pub name: Seq<u8>,
    /// The text that the name stands for.
    pub called: Seq<char>,
    /// Space between the name and the colon.
    pub gap: Seq<u8>,
    /// The value, with the space before it.
    pub value: Seq<u8>,
    /// Space behind the value.
    pub tail: Seq<u8>,
}

/// An item of an array, as it is spelled.
pub struct Item {
    /// Space before the value.
    pub lead: Seq<u8>,
    pub value: Seq<u8>,
    /// Space behind the value.
    pub tail: Seq<u8>,
}

/// Whether the bytes are spaces, tabs and ends of lines.
pub open spec fn blank(bytes: Seq<u8>) -> bool {
    forall|i: int| 0 <= i < bytes.len() ==> is_blank(#[trigger] bytes[i])
}

/// Whether the byte is a space, a tab or an end of a line.
pub open spec fn is_blank(byte: u8) -> bool {
    byte == 32 || byte == 9 || byte == 10 || byte == 13
}

/// Whether the bytes open with space or with one of `:`, `,`, `}` and `]`, which may follow a
/// name or a value.
pub open spec fn follows(bytes: Seq<u8>) -> bool {
    bytes.len() > 0 && (is_blank(bytes[0]) || bytes[0] == 0x3a || bytes[0] == 0x2c || bytes[0]
        == 0x7d || bytes[0] == 0x5d)
}

/// Whether the bytes are a name that stands for that text, wherever they stand.
pub open spec fn is_name(name: Seq<u8>, called: Seq<char>) -> bool {
    &&& name.len() > 0
    &&& !is_blank(name[0])
    &&& name[0] != 0x7d
    &&& forall|ws: Seq<u8>, rest: Seq<u8>|
        blank(ws) && follows(rest) ==> json::json_span(#[trigger] (ws + (name + rest))) == Some(
            ws.len() + name.len(),
        )
    &&& forall|ws: Seq<u8>|
        blank(ws) ==> json::json_from_bytes(#[trigger] (ws + name)) == Some(Json::Text(called))
}

/// Whether the bytes are one value, wherever they stand.
pub open spec fn is_value(value: Seq<u8>) -> bool {
    &&& value.len() > 0
    &&& forall|rest: Seq<u8>|
        follows(rest) ==> json::json_span(#[trigger] (value + rest)) == Some(value.len())
}

/// Whether the bytes are read as that text, wherever they stand.
pub open spec fn spells_text(value: Seq<u8>, text: Seq<char>) -> bool {
    forall|ws: Seq<u8>, rest: Seq<u8>|
        blank(ws) && follows(rest) ==> json::text_read(#[trigger] (ws + (value + rest))) == Ok::<
            Seq<char>,
            Seq<char>,
        >(text)
}

/// Whether the bytes are read as that text or null, wherever they stand.
pub open spec fn spells_optional_text(value: Seq<u8>, text: Option<Seq<char>>) -> bool {
    forall|ws: Seq<u8>, rest: Seq<u8>|
        blank(ws) && follows(rest) ==> json::optional_text_read(#[trigger] (ws + (value + rest)))
            == Ok::<Option<Seq<char>>, Seq<char>>(text)
}

/// Whether the bytes are read as that truth value, wherever they stand.
pub open spec fn spells_flag(value: Seq<u8>, flag: bool) -> bool {
    forall|ws: Seq<u8>, rest: Seq<u8>|
        blank(ws) && follows(rest) ==> json::flag_read(#[trigger] (ws + (value + rest))) == Ok::<
            bool,
            Seq<char>,
        >(flag)
}

/// Whether the bytes are read as that number of one byte, wherever they stand.
pub open spec fn spells_byte(value: Seq<u8>, n: u8) -> bool {
    forall|ws: Seq<u8>, rest: Seq<u8>|
        blank(ws) && follows(rest) ==> json::byte_read(#[trigger] (ws + (value + rest))) == Ok::<
            u8,
            Seq<char>,
        >(n)
}

/// Whether the bytes are read as that number of four bytes, wherever they stand.
pub open spec fn spells_word(value: Seq<u8>, n: u32) -> bool {
    forall|ws: Seq<u8>, rest: Seq<u8>|
        blank(ws) && follows(rest) ==> json::word_read(#[trigger] (ws + (value + rest))) == Ok::<
            u32,
            Seq<char>,
        >(n)
}

/// Whether the bytes are read as that number of eight bytes, wherever they stand.
pub open spec fn spells_long(value: Seq<u8>, n: u64) -> bool {
    forall|ws: Seq<u8>, rest: Seq<u8>|
        blank(ws) && follows(rest) ==> json::long_read(#[trigger] (ws + (value + rest))) == Ok::<
            u64,
            Seq<char>,
        >(n)
}

/// Whether the bytes are read as what a field of that kind holds, wherever they stand.
pub open spec fn spells(kind: Kind, value: Seq<u8>, held: HeldView) -> bool {
    match (kind, held) {
        (Kind::Text, HeldView::Text(text)) => spells_text(value, text),
        (Kind::OptionalText, HeldView::OptionalText(text)) => spells_optional_text(value, text),
        (Kind::Flag, HeldView::Flag(flag)) => spells_flag(value, flag),
        (Kind::Byte, HeldView::Byte(n)) => spells_byte(value, n),
        (Kind::Word, HeldView::Word(n)) => spells_word(value, n),
        (Kind::Long, HeldView::Long(n)) => spells_long(value, n),
        _ => false,
    }
}

/// Whether a member is spelled well.
pub open spec fn well_spelled(m: Spelled) -> bool {
    blank(m.lead) && is_name(m.name, m.called) && blank(m.gap) && is_value(m.value) && blank(m.tail)
}

/// Whether all members are spelled well.
pub open spec fn all_well_spelled(ms: Seq<Spelled>) -> bool {
    forall|i: int| 0 <= i < ms.len() ==> well_spelled(#[trigger] ms[i])
}

/// The bytes from the first member on to the end of the text.
pub open spec fn members_bytes(ms: Seq<Spelled>, after: Seq<u8>) -> Seq<u8>
    decreases ms.len(),
{
    let m = ms[0];
    let end = if ms.len() <= 1 {
        seq![0x7du8] + after
    } else {
        seq![0x2cu8] + members_bytes(ms.skip(1), after)
    };
    m.lead + (m.name + (m.gap + (seq![0x3au8] + (m.value + (m.tail + end)))))
}

/// The bytes of an object, with what stands before it and behind it.
pub open spec fn object_bytes(before: Seq<u8>, ms: Seq<Spelled>, after: Seq<u8>) -> Seq<u8> {
    before + (seq![0x7bu8] + members_bytes(ms, after))
}

/// How many bytes a member takes, with the comma or brace behind it.
pub open spec fn member_len(m: Spelled) -> int {
    (m.lead.len() + m.name.len() + m.gap.len() + 1 + m.value.len() + m.tail.len() + 1) as int
}

/// How many bytes the members before one take.
pub open spec fn offset(ms: Seq<Spelled>, i: int) -> int
    decreases i,
{
    if i <= 0 {
        0
    } else {
        offset(ms, i - 1) + member_len(ms[i - 1])
    }
}

/// Where the colon of a member stands in an object.
pub open spec fn colon_at(before: Seq<u8>, ms: Seq<Spelled>, i: int) -> int {
    before.len() + 1 + offset(ms, i) + ms[i].lead.len() + ms[i].name.len() + ms[i].gap.len()
}

/// What was cut off is a member as it is spelled.
pub open spec fn is_cut_of(bytes: Seq<u8>, cut: MemberView, m: Spelled) -> bool {
    &&& cut.name == m.called
    &&& 0 <= cut.name_end <= bytes.len()
    &&& cut.value == Some(cut.name_end + m.gap.len() + 1)
    &&& exists|rest: Seq<u8>|
        follows(rest) && bytes.skip(cut.name_end) == m.gap + (seq![0x3au8] + #[trigger] (m.value
            + rest))
}

proof fn behind(bytes: Seq<u8>, at: int, one: Seq<u8>, other: Seq<u8>)
    requires
        0 <= at <= bytes.len(),
        bytes.skip(at) == one + other,
    ensures
        at + one.len() <= bytes.len(),
        bytes.subrange(at, at + one.len()) == one,
        bytes.skip(at + one.len()) == other,
        other.len() > 0 ==> bytes[at + one.len()] == other[0] && at + one.len() < bytes.len(),
        bytes.len() == at + one.len() + other.len(),
{
    assert(bytes.skip(at).len() == one.len() + other.len());
    assert(bytes.subrange(at, at + one.len()) =~= bytes.skip(at).take(one.len() as int));
    assert((one + other).take(one.len() as int) =~= one);
    assert(bytes.skip(at + one.len()) =~= bytes.skip(at).skip(one.len() as int));
    assert((one + other).skip(one.len() as int) =~= other);
    if other.len() > 0 {
        assert(bytes[at + one.len()] == bytes.skip(at + one.len())[0]);
    }
}

/// Space is passed over, up to what is none.
proof fn space_is_passed(bytes: Seq<u8>, at: int, ws: Seq<u8>, rest: Seq<u8>)
    requires
        0 <= at <= bytes.len(),
        bytes.skip(at) == ws + rest,
        blank(ws),
        rest.len() > 0 ==> !is_blank(rest[0]),
    ensures
        parts::space_end(bytes, at) == at + ws.len(),
    decreases ws.len(),
{
    behind(bytes, at, ws, rest);
    if ws.len() > 0 {
        assert(bytes[at] == bytes.skip(at)[0]);
        assert(is_blank(ws[0]));
        assert(bytes.skip(at + 1) =~= bytes.skip(at).skip(1));
        assert((ws + rest).skip(1) =~= ws.skip(1) + rest);
        assert forall|i: int| 0 <= i < ws.skip(1).len() implies is_blank(
            #[trigger] ws.skip(1)[i],
        ) by {
            assert(ws.skip(1)[i] == ws[i + 1]);
        }
        space_is_passed(bytes, at + 1, ws.skip(1), rest);
    }
}

/// What one member adds to a cut.
proof fn member_is_cut(
    bytes: Seq<u8>,
    found: Seq<MemberView>,
    at: int,
    m: Spelled,
    end: Seq<u8>,
) -> (cut: MemberView)
    requires
        0 <= at <= bytes.len(),
        well_spelled(m),
        end.len() > 0,
        end[0] == 0x2c || end[0] == 0x7d,
        bytes.skip(at) == m.lead + (m.name + (m.gap + (seq![0x3au8] + (m.value + (m.tail + end))))),
    ensures
        is_cut_of(bytes, cut, m),
        cut.name_end == at + m.lead.len() + m.name.len(),
        end[0] == 0x7d ==> parts::members_from(bytes, found, at) == (
            found.push(cut),
            Some(at + member_len(m)),
        ),
        end[0] == 0x2c ==> parts::members_from(bytes, found, at) == parts::members_from(
            bytes,
            found.push(cut),
            at + member_len(m),
        ),
        at + member_len(m) <= bytes.len(),
        bytes.skip(at + member_len(m)) == end.skip(1),
{
    let behind_value = m.tail + end;
    let behind_colon = m.value + behind_value;
    let behind_gap = seq![0x3au8] + behind_colon;
    let behind_name = m.gap + behind_gap;
    let name_end = at + m.lead.len() + m.name.len();
    let cut = MemberView { name: m.called, name_end, value: Some(name_end + m.gap.len() + 1) };
    if m.gap.len() > 0 {
        assert(is_blank(m.gap[0]));
    }
    assert(follows(behind_name));
    if m.tail.len() > 0 {
        assert(is_blank(m.tail[0]));
    }
    assert(follows(behind_value));
    assert(json::json_span(m.lead + (m.name + behind_name)) == Some(m.lead.len() + m.name.len()));
    assert(m.lead + (m.name + behind_name) =~= (m.lead + m.name) + behind_name);
    behind(bytes, at, m.lead + m.name, behind_name);
    assert(json::json_from_bytes(m.lead + m.name) == Some(Json::Text(m.called)));
    space_is_passed(bytes, name_end, m.gap, behind_gap);
    behind(bytes, name_end, m.gap, behind_gap);
    let colon = name_end + m.gap.len();
    behind(bytes, colon, seq![0x3au8], behind_colon);
    assert(json::json_span(m.value + behind_value) == Some(m.value.len()));
    behind(bytes, colon + 1, m.value, behind_value);
    let value_end = colon + 1 + m.value.len();
    space_is_passed(bytes, value_end, m.tail, end);
    behind(bytes, value_end, m.tail, end);
    let next = value_end + m.tail.len();
    assert(bytes.skip(next + 1) =~= bytes.skip(next).skip(1));
    assert(bytes.skip(name_end) == m.gap + (seq![0x3au8] + (m.value + behind_value)));
    cut
}

/// The members behind the first take what they take of all, but for the first.
proof fn offset_skips(ms: Seq<Spelled>, i: int)
    requires
        0 < i <= ms.len(),
    ensures
        offset(ms, i) == member_len(ms[0]) + offset(ms.skip(1), i - 1),
    decreases i,
{
    if i > 1 {
        offset_skips(ms, i - 1);
        assert(ms.skip(1)[i - 2] == ms[i - 1]);
    } else {
        reveal_with_fuel(offset, 2);
    }
}

/// Members are cut as they are spelled, in order, up to the closing brace.
pub proof fn members_are_cut(
    bytes: Seq<u8>,
    found: Seq<MemberView>,
    ms: Seq<Spelled>,
    after: Seq<u8>,
    at: int,
)
    requires
        ms.len() > 0,
        all_well_spelled(ms),
        0 <= at <= bytes.len(),
        bytes.skip(at) == members_bytes(ms, after),
    ensures
        ({
            let (cuts, end) = parts::members_from(bytes, found, at);
            &&& end == Some(bytes.len() - after.len())
            &&& cuts.len() == found.len() + ms.len()
            &&& forall|i: int| 0 <= i < found.len() ==> #[trigger] cuts[i] == found[i]
            &&& forall|i: int|
                #![trigger ms[i]]
                0 <= i < ms.len() ==> {
                    &&& is_cut_of(bytes, cuts[found.len() + i], ms[i])
                    &&& cuts[found.len() + i].name_end == at + offset(ms, i) + ms[i].lead.len()
                        + ms[i].name.len()
                }
        }),
    decreases ms.len(),
{
    let m = ms[0];
    assert(well_spelled(ms[0]));
    let end = if ms.len() <= 1 {
        seq![0x7du8] + after
    } else {
        seq![0x2cu8] + members_bytes(ms.skip(1), after)
    };
    let cut = member_is_cut(bytes, found, at, m, end);
    let more = found.push(cut);
    let n = found.len() as int;
    if ms.len() == 1 {
        assert(end.skip(1) =~= after);
        assert(bytes.skip(at + member_len(m)).len() == after.len());
        assert forall|i: int| #![trigger ms[i]] 0 <= i < ms.len() implies {
            &&& is_cut_of(bytes, more[n + i], ms[i])
            &&& more[n + i].name_end == at + offset(ms, i) + ms[i].lead.len() + ms[i].name.len()
        } by {
            assert(i == 0);
        }
    } else {
        let others = ms.skip(1);
        let next = at + member_len(m);
        assert(end.skip(1) =~= members_bytes(others, after));
        assert forall|i: int| 0 <= i < others.len() implies well_spelled(#[trigger] others[i]) by {
            assert(others[i] == ms[i + 1]);
        }
        members_are_cut(bytes, more, others, after, next);
        let cuts = parts::members_from(bytes, more, next).0;
        assert forall|i: int| 0 <= i < n implies #[trigger] cuts[i] == found[i] by {
            assert(cuts[i] == more[i]);
        }
        assert forall|i: int| #![trigger ms[i]] 0 <= i < ms.len() implies {
            &&& is_cut_of(bytes, cuts[n + i], ms[i])
            &&& cuts[n + i].name_end == at + offset(ms, i) + ms[i].lead.len() + ms[i].name.len()
        } by {
            if i == 0 {
                assert(cuts[n] == more[n]);
            } else {
                offset_skips(ms, i);
                assert(others[i - 1] == ms[i]);
                assert(cuts[more.len() + (i - 1)] == cuts[n + i]);
            }
        }
    }
}

/// Members without the space before the first.
pub open spec fn led_by_name(ms: Seq<Spelled>) -> Seq<Spelled> {
    ms.update(0, Spelled { lead: Seq::empty(), ..ms[0] })
}

/// The space before the first member stands before the bytes of the others.
proof fn first_lead(ms: Seq<Spelled>, after: Seq<u8>)
    requires
        ms.len() > 0,
        all_well_spelled(ms),
    ensures
        members_bytes(ms, after) == ms[0].lead + members_bytes(led_by_name(ms), after),
        members_bytes(led_by_name(ms), after).len() > 0,
        members_bytes(led_by_name(ms), after)[0] == ms[0].name[0],
        all_well_spelled(led_by_name(ms)),
{
    let m = ms[0];
    assert(well_spelled(ms[0]));
    let trimmed = led_by_name(ms);
    assert(trimmed.skip(1) =~= ms.skip(1));
    let rest = members_bytes(trimmed, after);
    let end = if ms.len() <= 1 {
        seq![0x7du8] + after
    } else {
        seq![0x2cu8] + members_bytes(ms.skip(1), after)
    };
    let body = m.name + (m.gap + (seq![0x3au8] + (m.value + (m.tail + end))));
    assert(rest == Seq::<u8>::empty() + body);
    assert(rest =~= body);
    assert(members_bytes(ms, after) == m.lead + body);
    assert(body[0] == m.name[0]);
    assert forall|i: int| 0 <= i < trimmed.len() implies well_spelled(#[trigger] trimmed[i]) by {
        if i > 0 {
            assert(trimmed[i] == ms[i]);
        }
    }
}

/// Without its space the first member takes less, and the others start sooner.
proof fn led_offset(ms: Seq<Spelled>, i: int)
    requires
        0 < i <= ms.len(),
    ensures
        offset(ms, i) == ms[0].lead.len() + offset(led_by_name(ms), i),
    decreases i,
{
    if i > 1 {
        led_offset(ms, i - 1);
    } else {
        reveal_with_fuel(offset, 2);
    }
}

/// An object is cut as it is spelled.
pub proof fn object_is_cut(before: Seq<u8>, ms: Seq<Spelled>, after: Seq<u8>)
    requires
        blank(before),
        ms.len() > 0,
        all_well_spelled(ms),
    ensures
        ({
            let bytes = object_bytes(before, ms, after);
            let open = before.len() as int;
            let (cuts, end) = parts::members_at(bytes, open);
            &&& parts::space_end(bytes, 0) == open
            &&& parts::is_at(bytes, open, 0x7b)
            &&& end == Some(bytes.len() - after.len())
            &&& cuts.len() == ms.len()
            &&& forall|i: int|
                #![trigger ms[i]]
                0 <= i < ms.len() ==> is_cut_of(bytes, cuts[i], ms[i]) && cuts[i].name_end
                    + ms[i].gap.len() == colon_at(before, ms, i)
        }),
{
    let bytes = object_bytes(before, ms, after);
    let open = before.len() as int;
    let inner = members_bytes(ms, after);
    assert(bytes.skip(0) =~= before + (seq![0x7bu8] + inner));
    space_is_passed(bytes, 0, before, seq![0x7bu8] + inner);
    behind(bytes, 0, before, seq![0x7bu8] + inner);
    behind(bytes, open, seq![0x7bu8], inner);
    first_lead(ms, after);
    let m = ms[0];
    assert(well_spelled(ms[0]));
    let trimmed = led_by_name(ms);
    let rest = members_bytes(trimmed, after);
    space_is_passed(bytes, open + 1, m.lead, rest);
    behind(bytes, open + 1, m.lead, rest);
    let start = open + 1 + m.lead.len();
    members_are_cut(bytes, Seq::empty(), trimmed, after, start);
    let cuts = parts::members_from(bytes, Seq::empty(), start).0;
    assert forall|i: int| #![trigger ms[i]] 0 <= i < ms.len() implies is_cut_of(
        bytes,
        cuts[i],
        ms[i],
    ) && cuts[i].name_end + ms[i].gap.len() == colon_at(before, ms, i) by {
        let t = trimmed[i];
        assert(is_cut_of(bytes, cuts[0 + i], trimmed[i]));
        if i == 0 {
            same_cut(bytes, cuts[0], t, ms[0]);
        } else {
            assert(t == ms[i]);
            led_offset(ms, i);
        }
    }
}

/// The space before a member is no part of what is cut.
proof fn same_cut(bytes: Seq<u8>, cut: MemberView, one: Spelled, other: Spelled)
    requires
        is_cut_of(bytes, cut, one),
        one.called == other.called,
        one.gap == other.gap,
        one.value == other.value,
    ensures
        is_cut_of(bytes, cut, other),
{
}

/// What a field holds whose value was cut, if the value is read as that wherever it stands.
proof fn cut_is_read(bytes: Seq<u8>, cut: MemberView, m: Spelled, kind: Kind, held: HeldView)
    requires
        is_cut_of(bytes, cut, m),
        spells(kind, m.value, held),
    ensures
        cut.value is Some,
        record::held_at(bytes, cut.value->0, kind) == Ok::<HeldView, Seq<char>>(held),
{
    let rest = choose|rest: Seq<u8>|
        follows(rest) && bytes.skip(cut.name_end) == m.gap + (seq![0x3au8] + #[trigger] (m.value
            + rest));
    let at = cut.value->0;
    behind(bytes, cut.name_end, m.gap, seq![0x3au8] + (m.value + rest));
    behind(bytes, cut.name_end + m.gap.len(), seq![0x3au8], m.value + rest);
    place_is_read(bytes, at, m.value, rest, kind, held);
}

/// What a field holds whose value stands at a place.
proof fn place_is_read(
    bytes: Seq<u8>,
    at: int,
    value: Seq<u8>,
    rest: Seq<u8>,
    kind: Kind,
    held: HeldView,
)
    requires
        0 <= at <= bytes.len(),
        bytes.skip(at) == value + rest,
        follows(rest),
        spells(kind, value, held),
    ensures
        record::held_at(bytes, at, kind) == Ok::<HeldView, Seq<char>>(held),
{
    let ws = record::blanked(bytes, at).take(at);
    assert(record::blanked(bytes, at).skip(at) =~= bytes.skip(at));
    assert(record::blanked(bytes, at) =~= ws + (value + rest));
    assert(blank(ws));
}

/// Members that no field is named after twice, and whose values are read, fill each field
/// with what its own member holds, and leave the others empty.
pub proof fn members_fill(
    bytes: Seq<u8>,
    fields: Seq<(Seq<char>, Kind)>,
    cuts: Seq<MemberView>,
    ms: Seq<Spelled>,
    helds: Seq<HeldView>,
)
    requires
        cuts.len() == ms.len() == helds.len(),
        forall|i: int| #![trigger ms[i]] 0 <= i < ms.len() ==> is_cut_of(bytes, cuts[i], ms[i]),
        forall|i: int|
            #![trigger ms[i]]
            0 <= i < ms.len() ==> (record::field_named(fields, ms[i].called) matches Some(f)
                ==> spells(fields[f].1, ms[i].value, helds[i])),
        forall|i: int, j: int|
            #![trigger ms[i], ms[j]]
            0 <= i < j < ms.len() && ms[i].called == ms[j].called ==> record::field_named(
                fields,
                ms[i].called,
            ) is None,
    ensures
        record::filled(bytes, fields, cuts) matches Ok(slots) && slots.len() == fields.len() && (
        forall|i: int|
            #![trigger ms[i]]
            0 <= i < ms.len() ==> (record::field_named(fields, ms[i].called) matches Some(f)
                ==> slots[f] == Some(helds[i]))) && (forall|f: int|
            0 <= f < fields.len() && (forall|i: int|
                0 <= i < ms.len() ==> record::field_named(fields, (#[trigger] ms[i]).called)
                    != Some(f)) ==> (#[trigger] slots[f]) is None),
    decreases ms.len(),
{
    if ms.len() > 0 {
        let last = ms.len() - 1;
        let fewer = ms.drop_last();
        let others = cuts.drop_last();
        assert forall|i: int| #![trigger fewer[i]] 0 <= i < fewer.len() implies is_cut_of(
            bytes,
            others[i],
            fewer[i],
        ) by {
            assert(fewer[i] == ms[i] && others[i] == cuts[i]);
        }
        assert forall|i: int| #![trigger fewer[i]] 0 <= i < fewer.len() implies (
        record::field_named(fields, fewer[i].called) matches Some(f) ==> spells(
            fields[f].1,
            fewer[i].value,
            helds.drop_last()[i],
        )) by {
            assert(fewer[i] == ms[i] && helds.drop_last()[i] == helds[i]);
        }
        assert forall|i: int, j: int|
            #![trigger fewer[i], fewer[j]]
            0 <= i < j < fewer.len() && fewer[i].called
                == fewer[j].called implies record::field_named(fields, fewer[i].called) is None by {
            assert(fewer[i] == ms[i] && fewer[j] == ms[j]);
        }
        members_fill(bytes, fields, others, fewer, helds.drop_last());
        let before = record::filled(bytes, fields, others)->Ok_0;
        assert(is_cut_of(bytes, cuts[last], ms[last]));
        assert(cuts.last() == cuts[last]);
        record::found_field(fields, ms[last].called);
        if let Some(f) = record::field_named(fields, ms[last].called) {
            cut_is_read(bytes, cuts[last], ms[last], fields[f].1, helds[last]);
            assert forall|i: int| 0 <= i < fewer.len() implies record::field_named(
                fields,
                (#[trigger] fewer[i]).called,
            ) != Some(f) by {
                assert(fewer[i] == ms[i]);
                record::found_field(fields, fewer[i].called);
            }
            assert(before[f] is None);
        }
        let slots = record::filled(bytes, fields, cuts)->Ok_0;
        assert forall|i: int| #![trigger ms[i]] 0 <= i < ms.len() implies (record::field_named(
            fields,
            ms[i].called,
        ) matches Some(f) ==> slots[f] == Some(helds[i])) by {
            if i < last {
                assert(fewer[i] == ms[i]);
                record::found_field(fields, ms[i].called);
            }
        }
        assert forall|f: int|
            0 <= f < fields.len() && (forall|i: int|
                0 <= i < ms.len() ==> record::field_named(fields, (#[trigger] ms[i]).called)
                    != Some(f)) implies (#[trigger] slots[f]) is None by {
            assert forall|i: int| 0 <= i < fewer.len() implies record::field_named(
                fields,
                (#[trigger] fewer[i]).called,
            ) != Some(f) by {
                assert(fewer[i] == ms[i]);
            }
            assert(record::field_named(fields, ms[last].called) != Some(f));
            assert(before[f] is None);
        }
    }
}

/// Whether the members are fit to be read into these fields: none that a field is named after
/// comes twice, and each such one is read as what it is said to hold.
pub open spec fn fit(
    fields: Seq<(Seq<char>, Kind)>,
    ms: Seq<Spelled>,
    helds: Seq<HeldView>,
) -> bool {
    &&& ms.len() == helds.len()
    &&& forall|i: int|
        #![trigger ms[i]]
        0 <= i < ms.len() ==> (record::field_named(fields, ms[i].called) matches Some(f) ==> spells(
            fields[f].1,
            ms[i].value,
            helds[i],
        ))
    &&& forall|i: int, j: int|
        #![trigger ms[i], ms[j]]
        0 <= i < j < ms.len() && ms[i].called == ms[j].called ==> record::field_named(
            fields,
            ms[i].called,
        ) is None
}

/// Whether each slot holds what its own member does, and nothing where there is none.
pub open spec fn taken(
    fields: Seq<(Seq<char>, Kind)>,
    ms: Seq<Spelled>,
    helds: Seq<HeldView>,
    slots: Seq<Option<HeldView>>,
) -> bool {
    &&& slots.len() == fields.len()
    &&& forall|i: int|
        #![trigger ms[i]]
        0 <= i < ms.len() ==> (record::field_named(fields, ms[i].called) matches Some(f)
            ==> slots[f] == Some(helds[i]))
    &&& forall|f: int|
        0 <= f < fields.len() && (forall|i: int|
            0 <= i < ms.len() ==> record::field_named(fields, (#[trigger] ms[i]).called) != Some(f))
            ==> (#[trigger] slots[f]) is None
}

/// What is read of an object, however it is spelled: what its members hold, unless a field
/// without a default is missing or something is wrong with the text as a whole.
pub proof fn object_is_read(
    before: Seq<u8>,
    ms: Seq<Spelled>,
    after: Seq<u8>,
    shape: ShapeView,
    helds: Seq<HeldView>,
) -> (slots: Seq<Option<HeldView>>)
    requires
        blank(before),
        ms.len() > 0,
        all_well_spelled(ms),
        fit(shape.fields, ms, helds),
    ensures
        taken(shape.fields, ms, helds, slots),
        ({
            let bytes = object_bytes(before, ms, after);
            record::read_fields(bytes, shape) == match record::first_missing(
                slots,
                shape.required,
            ) {
                Some(f) => Err(
                    "missing field `"@ + shape.fields[f].0 + "`"@ + place::place(
                        bytes,
                        bytes.len() - after.len(),
                    ),
                ),
                None => match json::object_fault(bytes) {
                    Some(message) => Err(message),
                    None => Ok(slots),
                },
            }
        }),
{
    let bytes = object_bytes(before, ms, after);
    object_is_cut(before, ms, after);
    let cuts = parts::members_at(bytes, before.len() as int).0;
    members_fill(bytes, shape.fields, cuts, ms, helds);
    record::filled(bytes, shape.fields, cuts)->Ok_0
}

/// What the first members of an object fill.
proof fn first_members_fill(
    before: Seq<u8>,
    ms: Seq<Spelled>,
    after: Seq<u8>,
    fields: Seq<(Seq<char>, Kind)>,
    helds: Seq<HeldView>,
    j: int,
) -> (slots: Seq<Option<HeldView>>)
    requires
        blank(before),
        0 <= j < ms.len(),
        all_well_spelled(ms),
        fit(fields, ms.take(j), helds),
    ensures
        ({
            let bytes = object_bytes(before, ms, after);
            let cuts = parts::members_at(bytes, before.len() as int).0;
            &&& cuts.len() == ms.len()
            &&& record::filled(bytes, fields, cuts.take(j)) == Ok::<
                Seq<Option<HeldView>>,
                Seq<char>,
            >(slots)
            &&& cuts.take(j + 1).drop_last() == cuts.take(j)
            &&& cuts.take(j + 1).last() == cuts[j]
            &&& is_cut_of(bytes, cuts[j], ms[j])
            &&& cuts[j].name_end + ms[j].gap.len() == colon_at(before, ms, j)
        }),
        taken(fields, ms.take(j), helds, slots),
{
    let bytes = object_bytes(before, ms, after);
    object_is_cut(before, ms, after);
    let cuts = parts::members_at(bytes, before.len() as int).0;
    let first = ms.take(j);
    assert forall|i: int| #![trigger first[i]] 0 <= i < first.len() implies is_cut_of(
        bytes,
        cuts.take(j)[i],
        first[i],
    ) by {
        assert(first[i] == ms[i] && cuts.take(j)[i] == cuts[i]);
    }
    members_fill(bytes, fields, cuts.take(j), first, helds);
    assert(cuts.take(j + 1).drop_last() =~= cuts.take(j));
    assert(is_cut_of(bytes, cuts[j], ms[j]));
    record::filled(bytes, fields, cuts.take(j))->Ok_0
}

/// A member that comes a second time is told, at its colon, whatever stands behind it.
pub proof fn repeated_member_is_told(
    before: Seq<u8>,
    ms: Seq<Spelled>,
    after: Seq<u8>,
    shape: ShapeView,
    helds: Seq<HeldView>,
    i: int,
    j: int,
)
    requires
        blank(before),
        0 <= i < j < ms.len(),
        all_well_spelled(ms),
        fit(shape.fields, ms.take(j), helds),
        ms[i].called == ms[j].called,
        record::field_named(shape.fields, ms[j].called) is Some,
    ensures
        ({
            let bytes = object_bytes(before, ms, after);
            record::read_fields(bytes, shape) == Err::<Seq<Option<HeldView>>, Seq<char>>(
                "duplicate field `"@ + ms[j].called + "`"@ + place::place(
                    bytes,
                    colon_at(before, ms, j),
                ),
            )
        }),
{
    let bytes = object_bytes(before, ms, after);
    object_is_cut(before, ms, after);
    let cuts = parts::members_at(bytes, before.len() as int).0;
    let slots = first_members_fill(before, ms, after, shape.fields, helds, j);
    let m = ms[j];
    assert(well_spelled(ms[j]));
    assert(ms.take(j)[i] == ms[i]);
    let rest = choose|rest: Seq<u8>|
        follows(rest) && bytes.skip(cuts[j].name_end) == m.gap + (seq![0x3au8] + #[trigger] (m.value
            + rest));
    space_is_passed(bytes, cuts[j].name_end, m.gap, seq![0x3au8] + (m.value + rest));
    behind(bytes, cuts[j].name_end, m.gap, seq![0x3au8] + (m.value + rest));
    record::filled_stays(bytes, shape.fields, cuts, j + 1);
}

/// A copy of the bytes with space in place of all before a place, and lines as they are.
pub open spec fn is_blanked(copy: Seq<u8>, bytes: Seq<u8>, at: int) -> bool {
    &&& copy.len() == bytes.len()
    &&& forall|i: int|
        #![trigger copy[i]]
        0 <= i < bytes.len() ==> copy[i] == if i >= at || bytes[i] == 10 {
            bytes[i]
        } else {
            32
        }
}

/// What is wrong with a value of that kind at the start of the bytes.
pub open spec fn misread(kind: Kind, bytes: Seq<u8>, message: Seq<char>) -> bool {
    match kind {
        Kind::Text => json::text_read(bytes) == Err::<Seq<char>, Seq<char>>(message),
        Kind::OptionalText => json::optional_text_read(bytes) == Err::<
            Option<Seq<char>>,
            Seq<char>,
        >(message),
        Kind::Flag => json::flag_read(bytes) == Err::<bool, Seq<char>>(message),
        Kind::Byte => json::byte_read(bytes) == Err::<u8, Seq<char>>(message),
        Kind::Word => json::word_read(bytes) == Err::<u32, Seq<char>>(message),
        Kind::Long => json::long_read(bytes) == Err::<u64, Seq<char>>(message),
    }
}

/// A member that its field cannot hold is told in the words for its value at its place,
/// whatever stands behind it.
pub proof fn misread_member_is_told(
    before: Seq<u8>,
    ms: Seq<Spelled>,
    after: Seq<u8>,
    shape: ShapeView,
    helds: Seq<HeldView>,
    j: int,
    copy: Seq<u8>,
    message: Seq<char>,
)
    requires
        blank(before),
        0 <= j < ms.len(),
        all_well_spelled(ms),
        fit(shape.fields, ms.take(j), helds),
        forall|i: int| 0 <= i < j ==> (#[trigger] ms[i]).called != ms[j].called,
        is_blanked(copy, object_bytes(before, ms, after), colon_at(before, ms, j) + 1),
        record::field_named(shape.fields, ms[j].called) matches Some(f) && misread(
            shape.fields[f].1,
            copy,
            message,
        ),
    ensures
        record::read_fields(object_bytes(before, ms, after), shape) == Err::<
            Seq<Option<HeldView>>,
            Seq<char>,
        >(message),
{
    let bytes = object_bytes(before, ms, after);
    object_is_cut(before, ms, after);
    let cuts = parts::members_at(bytes, before.len() as int).0;
    let slots = first_members_fill(before, ms, after, shape.fields, helds, j);
    let f = record::field_named(shape.fields, ms[j].called)->0;
    record::found_field(shape.fields, ms[j].called);
    assert forall|i: int| 0 <= i < ms.take(j).len() implies record::field_named(
        shape.fields,
        (#[trigger] ms.take(j)[i]).called,
    ) != Some(f) by {
        assert(ms.take(j)[i] == ms[i]);
        record::found_field(shape.fields, ms[i].called);
    }
    assert(slots[f] is None);
    assert(record::blanked(bytes, colon_at(before, ms, j) + 1) =~= copy);
    record::filled_stays(bytes, shape.fields, cuts, j + 1);
}

/// Whether an item is spelled well.
pub open spec fn well_spelled_item(item: Item) -> bool {
    blank(item.lead) && is_value(item.value) && !is_blank(item.value[0]) && item.value[0] != 0x5d
        && blank(item.tail)
}

/// The bytes from the first item on to the end of the text.
pub open spec fn items_bytes(items: Seq<Item>, after: Seq<u8>) -> Seq<u8>
    decreases items.len(),
{
    let item = items[0];
    let end = if items.len() <= 1 {
        seq![0x5du8] + after
    } else {
        seq![0x2cu8] + items_bytes(items.skip(1), after)
    };
    item.lead + (item.value + (item.tail + end))
}

/// The bytes of an array, with what stands before it and behind it.
pub open spec fn list_bytes(before: Seq<u8>, items: Seq<Item>, after: Seq<u8>) -> Seq<u8> {
    before + (seq![0x5bu8] + items_bytes(items, after))
}

/// How many bytes an item takes, with the comma or bracket behind it.
pub open spec fn item_len(item: Item) -> int {
    (item.lead.len() + item.value.len() + item.tail.len() + 1) as int
}

/// How many bytes the items before one take.
pub open spec fn item_offset(items: Seq<Item>, i: int) -> int
    decreases i,
{
    if i <= 0 {
        0
    } else {
        item_offset(items, i - 1) + item_len(items[i - 1])
    }
}

/// The items behind the first take what they take of all, but for the first.
proof fn item_offset_skips(items: Seq<Item>, i: int)
    requires
        0 < i <= items.len(),
    ensures
        item_offset(items, i) == item_len(items[0]) + item_offset(items.skip(1), i - 1),
    decreases i,
{
    if i > 1 {
        item_offset_skips(items, i - 1);
        assert(items.skip(1)[i - 2] == items[i - 1]);
    } else {
        reveal_with_fuel(item_offset, 2);
    }
}

/// Where the value of an item stands in an array.
pub open spec fn value_at(before: Seq<u8>, items: Seq<Item>, i: int) -> int {
    before.len() + 1 + item_offset(items, i) + items[i].lead.len()
}

/// Whether the bytes of an item stand at a place.
pub open spec fn item_at(bytes: Seq<u8>, at: int, item: Item) -> bool {
    0 <= at <= bytes.len() && exists|rest: Seq<u8>|
        follows(rest) && bytes.skip(at) == #[trigger] (item.value + rest)
}

/// Items are cut as they are spelled, in order, up to the closing bracket.
pub proof fn items_are_cut(
    bytes: Seq<u8>,
    found: Seq<int>,
    items: Seq<Item>,
    after: Seq<u8>,
    at: int,
)
    requires
        items.len() > 0,
        forall|i: int| 0 <= i < items.len() ==> well_spelled_item(#[trigger] items[i]),
        0 <= at <= bytes.len(),
        bytes.skip(at) == items_bytes(items, after),
    ensures
        ({
            let (cuts, closed) = parts::items_from(bytes, found, at);
            &&& closed
            &&& cuts.len() == found.len() + items.len()
            &&& forall|i: int| 0 <= i < found.len() ==> #[trigger] cuts[i] == found[i]
            &&& forall|i: int|
                #![trigger items[i]]
                0 <= i < items.len() ==> item_at(bytes, cuts[found.len() + i], items[i])
                    && cuts[found.len() + i] == at + item_offset(items, i) + items[i].lead.len()
        }),
    decreases items.len(),
{
    let item = items[0];
    assert(well_spelled_item(items[0]));
    let end = if items.len() <= 1 {
        seq![0x5du8] + after
    } else {
        seq![0x2cu8] + items_bytes(items.skip(1), after)
    };
    let rest = item.tail + end;
    let start = at + item.lead.len();
    if item.tail.len() > 0 {
        assert(is_blank(item.tail[0]));
    }
    assert(follows(rest));
    space_is_passed(bytes, at, item.lead, item.value + rest);
    behind(bytes, at, item.lead, item.value + rest);
    assert(json::json_span(item.value + rest) == Some(item.value.len()));
    behind(bytes, start, item.value, rest);
    let value_end = start + item.value.len();
    space_is_passed(bytes, value_end, item.tail, end);
    behind(bytes, value_end, item.tail, end);
    let next = value_end + item.tail.len();
    assert(item_at(bytes, start, item));
    let more = found.push(start);
    let n = found.len() as int;
    if items.len() > 1 {
        let others = items.skip(1);
        assert(bytes.skip(next + 1) =~= bytes.skip(next).skip(1));
        assert(end.skip(1) =~= items_bytes(others, after));
        assert forall|i: int| 0 <= i < others.len() implies well_spelled_item(
            #[trigger] others[i],
        ) by {
            assert(others[i] == items[i + 1]);
        }
        items_are_cut(bytes, more, others, after, next + 1);
        let cuts = parts::items_from(bytes, more, next + 1).0;
        assert forall|i: int| 0 <= i < n implies #[trigger] cuts[i] == found[i] by {
            assert(cuts[i] == more[i]);
        }
        assert forall|i: int| #![trigger items[i]] 0 <= i < items.len() implies item_at(
            bytes,
            cuts[n + i],
            items[i],
        ) && cuts[n + i] == at + item_offset(items, i) + items[i].lead.len() by {
            if i == 0 {
                assert(cuts[n] == more[n]);
            } else {
                item_offset_skips(items, i);
                assert(others[i - 1] == items[i]);
                assert(cuts[more.len() + (i - 1)] == cuts[n + i]);
            }
        }
    }
}

/// The first items fill the first fields, each its own.
proof fn items_fill(
    bytes: Seq<u8>,
    fields: Seq<(Seq<char>, Kind)>,
    cuts: Seq<int>,
    items: Seq<Item>,
    helds: Seq<HeldView>,
    count: int,
)
    requires
        0 <= count <= items.len(),
        count <= fields.len(),
        cuts.len() == items.len() == helds.len(),
        forall|i: int|
            #![trigger items[i]]
            0 <= i < items.len() ==> item_at(bytes, cuts[i], items[i]),
        forall|i: int|
            #![trigger items[i]]
            0 <= i < count ==> spells(fields[i].1, items[i].value, helds[i]),
    ensures
        record::listed(bytes, fields, cuts, count) matches Ok(slots) && slots.len() == fields.len()
            && (forall|f: int|
            0 <= f < fields.len() ==> (#[trigger] slots[f]) == if f < count {
                Some(helds[f])
            } else {
                None
            }),
    decreases count,
{
    if count > 0 {
        items_fill(bytes, fields, cuts, items, helds, count - 1);
        let item = items[count - 1];
        let at = cuts[count - 1];
        let rest = choose|rest: Seq<u8>|
            follows(rest) && bytes.skip(at) == #[trigger] (item.value + rest);
        place_is_read(bytes, at, item.value, rest, fields[count - 1].1, helds[count - 1]);
    }
}

/// Items without the space before the first.
pub open spec fn led_by_value(items: Seq<Item>) -> Seq<Item> {
    items.update(0, Item { lead: Seq::empty(), ..items[0] })
}

/// The space before the first item stands before the bytes of the others.
proof fn first_item_lead(items: Seq<Item>, after: Seq<u8>)
    requires
        items.len() > 0,
        forall|i: int| 0 <= i < items.len() ==> well_spelled_item(#[trigger] items[i]),
    ensures
        items_bytes(items, after) == items[0].lead + items_bytes(led_by_value(items), after),
        items_bytes(led_by_value(items), after).len() > 0,
        items_bytes(led_by_value(items), after)[0] == items[0].value[0],
        forall|i: int|
            0 <= i < items.len() ==> well_spelled_item(#[trigger] led_by_value(items)[i]),
{
    let item = items[0];
    assert(well_spelled_item(items[0]));
    let trimmed = led_by_value(items);
    assert(trimmed.skip(1) =~= items.skip(1));
    let rest = items_bytes(trimmed, after);
    let end = if items.len() <= 1 {
        seq![0x5du8] + after
    } else {
        seq![0x2cu8] + items_bytes(items.skip(1), after)
    };
    let body = item.value + (item.tail + end);
    assert(rest == Seq::<u8>::empty() + body);
    assert(rest =~= body);
    assert(items_bytes(items, after) == item.lead + body);
    assert(body[0] == item.value[0]);
    assert forall|i: int| 0 <= i < items.len() implies well_spelled_item(
        #[trigger] trimmed[i],
    ) by {
        if i > 0 {
            assert(trimmed[i] == items[i]);
        }
    }
}

/// Without its space the first item takes less, and the others start sooner.
proof fn led_item_offset(items: Seq<Item>, i: int)
    requires
        0 < i <= items.len(),
    ensures
        item_offset(items, i) == items[0].lead.len() + item_offset(led_by_value(items), i),
    decreases i,
{
    if i > 1 {
        led_item_offset(items, i - 1);
    } else {
        reveal_with_fuel(item_offset, 2);
    }
}

/// An array is cut as it is spelled.
pub proof fn list_is_cut(before: Seq<u8>, items: Seq<Item>, after: Seq<u8>)
    requires
        blank(before),
        items.len() > 0,
        forall|i: int| 0 <= i < items.len() ==> well_spelled_item(#[trigger] items[i]),
    ensures
        ({
            let bytes = list_bytes(before, items, after);
            let open = before.len() as int;
            let (cuts, closed) = parts::items_at(bytes, open);
            &&& parts::space_end(bytes, 0) == open
            &&& parts::is_at(bytes, open, 0x5b)
            &&& closed
            &&& cuts.len() == items.len()
            &&& forall|i: int|
                #![trigger items[i]]
                0 <= i < items.len() ==> item_at(bytes, cuts[i], items[i]) && cuts[i] == value_at(
                    before,
                    items,
                    i,
                )
        }),
{
    let bytes = list_bytes(before, items, after);
    let open = before.len() as int;
    let inner = items_bytes(items, after);
    assert(bytes.skip(0) =~= before + (seq![0x5bu8] + inner));
    space_is_passed(bytes, 0, before, seq![0x5bu8] + inner);
    behind(bytes, 0, before, seq![0x5bu8] + inner);
    behind(bytes, open, seq![0x5bu8], inner);
    first_item_lead(items, after);
    let item = items[0];
    assert(well_spelled_item(items[0]));
    let trimmed = led_by_value(items);
    let rest = items_bytes(trimmed, after);
    space_is_passed(bytes, open + 1, item.lead, rest);
    behind(bytes, open + 1, item.lead, rest);
    let start = open + 1 + item.lead.len();
    items_are_cut(bytes, Seq::empty(), trimmed, after, start);
    let cuts = parts::items_from(bytes, Seq::empty(), start).0;
    assert forall|i: int| #![trigger items[i]] 0 <= i < items.len() implies item_at(
        bytes,
        cuts[i],
        items[i],
    ) && cuts[i] == value_at(before, items, i) by {
        let t = trimmed[i];
        assert(item_at(bytes, cuts[0 + i], trimmed[i]));
        if i > 0 {
            assert(t == items[i]);
            led_item_offset(items, i);
        }
    }
}

/// What is read of an array, however it is spelled: its items fill the fields in the order in
/// which these are declared, unless something is wrong with the text as a whole.
pub proof fn list_is_read(
    before: Seq<u8>,
    items: Seq<Item>,
    after: Seq<u8>,
    shape: ShapeView,
    helds: Seq<HeldView>,
) -> (slots: Seq<Option<HeldView>>)
    requires
        blank(before),
        0 < items.len() <= shape.fields.len(),
        0 <= shape.required <= items.len(),
        items.len() == helds.len(),
        forall|i: int| 0 <= i < items.len() ==> well_spelled_item(#[trigger] items[i]),
        forall|i: int|
            #![trigger items[i]]
            0 <= i < items.len() ==> spells(shape.fields[i].1, items[i].value, helds[i]),
    ensures
        slots.len() == shape.fields.len(),
        forall|f: int|
            0 <= f < shape.fields.len() ==> (#[trigger] slots[f]) == if f < items.len() {
                Some(helds[f])
            } else {
                None
            },
        record::read_fields(list_bytes(before, items, after), shape) == match json::list_fault(
            list_bytes(before, items, after),
        ) {
            Some(message) => Err(message),
            None => Ok(slots),
        },
{
    let bytes = list_bytes(before, items, after);
    list_is_cut(before, items, after);
    let cuts = parts::items_at(bytes, before.len() as int).0;
    items_fill(bytes, shape.fields, cuts, items, helds, items.len() as int);
    let slots = record::listed(bytes, shape.fields, cuts, items.len() as int)->Ok_0;
    none_missing(slots, shape.required);
    slots
}

/// An array with fewer items than there are fields without a default is told so.
pub proof fn short_list_is_told(
    before: Seq<u8>,
    items: Seq<Item>,
    after: Seq<u8>,
    shape: ShapeView,
    helds: Seq<HeldView>,
)
    requires
        blank(before),
        0 < items.len() < shape.required <= shape.fields.len(),
        items.len() == helds.len(),
        forall|i: int| 0 <= i < items.len() ==> well_spelled_item(#[trigger] items[i]),
        forall|i: int|
            #![trigger items[i]]
            0 <= i < items.len() ==> spells(shape.fields[i].1, items[i].value, helds[i]),
    ensures
        ({
            let bytes = list_bytes(before, items, after);
            record::read_fields(bytes, shape) == Err::<Seq<Option<HeldView>>, Seq<char>>(
                place::retold(
                    record::words(record::arity_fault(bytes, shape.arity)),
                    record::arity_words(shape.arity),
                    ", expected "@ + shape.extent + " at line "@,
                ),
            )
        }),
{
    let bytes = list_bytes(before, items, after);
    list_is_cut(before, items, after);
    let cuts = parts::items_at(bytes, before.len() as int).0;
    items_fill(bytes, shape.fields, cuts, items, helds, items.len() as int);
    let slots = record::listed(bytes, shape.fields, cuts, items.len() as int)->Ok_0;
    one_missing(slots, shape.required, items.len() as int);
}

/// An array with more items than there are fields is told so, if the first are read.
pub proof fn long_list_is_told(
    before: Seq<u8>,
    items: Seq<Item>,
    after: Seq<u8>,
    shape: ShapeView,
    helds: Seq<HeldView>,
)
    requires
        blank(before),
        shape.fields.len() < items.len(),
        items.len() == helds.len(),
        forall|i: int| 0 <= i < items.len() ==> well_spelled_item(#[trigger] items[i]),
        forall|i: int|
            #![trigger items[i]]
            0 <= i < shape.fields.len() ==> spells(shape.fields[i].1, items[i].value, helds[i]),
    ensures
        ({
            let bytes = list_bytes(before, items, after);
            record::read_fields(bytes, shape) == Err::<Seq<Option<HeldView>>, Seq<char>>(
                record::words(record::arity_fault(bytes, shape.arity)),
            )
        }),
{
    let bytes = list_bytes(before, items, after);
    list_is_cut(before, items, after);
    let cuts = parts::items_at(bytes, before.len() as int).0;
    items_fill(bytes, shape.fields, cuts, items, helds, shape.fields.len() as int);
}

/// A field that is not there is missing.
pub proof fn one_missing(slots: Seq<Option<HeldView>>, required: int, f: int)
    requires
        0 <= f < required <= slots.len(),
        slots[f] is None,
    ensures
        record::first_missing(slots, required) is Some,
    decreases required,
{
    if f < required - 1 {
        one_missing(slots, required - 1, f);
    }
}

/// Of brackets with nothing but space between them nothing is cut.
proof fn empty_object_is_cut(before: Seq<u8>, inner: Seq<u8>, after: Seq<u8>)
    requires
        blank(before),
        blank(inner),
    ensures
        ({
            let bytes = before + (seq![0x7bu8] + (inner + (seq![0x7du8] + after)));
            let open = before.len() as int;
            &&& parts::space_end(bytes, 0) == open
            &&& parts::is_at(bytes, open, 0x7b)
            &&& parts::members_at(bytes, open)
                == (Seq::<MemberView>::empty(), Some(bytes.len() - after.len()))
        }),
{
    let end = seq![0x7du8] + after;
    let bytes = before + (seq![0x7bu8] + (inner + end));
    let open = before.len() as int;
    assert(bytes.skip(0) =~= bytes);
    space_is_passed(bytes, 0, before, seq![0x7bu8] + (inner + end));
    behind(bytes, 0, before, seq![0x7bu8] + (inner + end));
    behind(bytes, open, seq![0x7bu8], inner + end);
    space_is_passed(bytes, open + 1, inner, end);
    behind(bytes, open + 1, inner, end);
}

/// What is read of an object without members: nothing.
pub proof fn empty_object_is_read(
    before: Seq<u8>,
    inner: Seq<u8>,
    after: Seq<u8>,
    shape: ShapeView,
)
    requires
        blank(before),
        blank(inner),
    ensures
        ({
            let bytes = before + (seq![0x7bu8] + (inner + (seq![0x7du8] + after)));
            record::read_fields(bytes, shape) == match record::first_missing(
                record::empty_slots(shape.fields),
                shape.required,
            ) {
                Some(f) => Err(
                    "missing field `"@ + shape.fields[f].0 + "`"@ + place::place(
                        bytes,
                        bytes.len() - after.len(),
                    ),
                ),
                None => match json::object_fault(bytes) {
                    Some(message) => Err(message),
                    None => Ok(record::empty_slots(shape.fields)),
                },
            }
        }),
{
    empty_object_is_cut(before, inner, after);
}

/// What is neither an object nor an array is told as what `serde_json` finds wrong with it as
/// an object, in words for this message.
pub proof fn other_value_is_told(before: Seq<u8>, rest: Seq<u8>, shape: ShapeView)
    requires
        blank(before),
        rest.len() > 0 ==> !is_blank(rest[0]) && rest[0] != 0x7b && rest[0] != 0x5b,
    ensures
        record::read_fields(before + rest, shape) == Err::<Seq<Option<HeldView>>, Seq<char>>(
            place::retold(
                record::words(json::object_fault(before + rest)),
                ", expected a map at line "@,
                ", expected "@ + shape.title + " at line "@,
            ),
        ),
{
    let bytes = before + rest;
    assert(bytes.skip(0) =~= bytes);
    space_is_passed(bytes, 0, before, rest);
    behind(bytes, 0, before, rest);
}

/// Nothing is missing of fields that are there.
pub proof fn none_missing(slots: Seq<Option<HeldView>>, required: int)
    requires
        required <= slots.len(),
        forall|f: int| 0 <= f < required ==> (#[trigger] slots[f]) is Some,
    ensures
        record::first_missing(slots, required) is None,
    decreases required,
{
    if required > 0 {
        none_missing(slots, required - 1);
    }
}

/// The bytes of members that each have a comma behind them, and of what follows.
pub open spec fn comma_bytes(ms: Seq<Spelled>, junk: Seq<u8>) -> Seq<u8>
    decreases ms.len(),
{
    if ms.len() == 0 {
        junk
    } else {
        let m = ms[0];
        let end = seq![0x2cu8] + comma_bytes(ms.skip(1), junk);
        m.lead + (m.name + (m.gap + (seq![0x3au8] + (m.value + (m.tail + end)))))
    }
}

/// Members are cut as they are spelled, up to where the text breaks off.
proof fn broken_members_are_cut(
    bytes: Seq<u8>,
    found: Seq<MemberView>,
    ms: Seq<Spelled>,
    junk: Seq<u8>,
    at: int,
)
    requires
        all_well_spelled(ms),
        0 <= at <= bytes.len(),
        bytes.skip(at) == comma_bytes(ms, junk),
        json::json_span(junk) is None,
    ensures
        ({
            let (cuts, end) = parts::members_from(bytes, found, at);
            &&& end is None
            &&& cuts.len() == found.len() + ms.len()
            &&& forall|i: int| 0 <= i < found.len() ==> #[trigger] cuts[i] == found[i]
            &&& forall|i: int|
                #![trigger ms[i]]
                0 <= i < ms.len() ==> is_cut_of(bytes, cuts[found.len() + i], ms[i])
        }),
    decreases ms.len(),
{
    if ms.len() > 0 {
        let m = ms[0];
        assert(well_spelled(ms[0]));
        let others = ms.skip(1);
        let end = seq![0x2cu8] + comma_bytes(others, junk);
        let cut = member_is_cut(bytes, found, at, m, end);
        let more = found.push(cut);
        let n = found.len() as int;
        let next = at + member_len(m);
        assert(end.skip(1) =~= comma_bytes(others, junk));
        assert forall|i: int| 0 <= i < others.len() implies well_spelled(#[trigger] others[i]) by {
            assert(others[i] == ms[i + 1]);
        }
        broken_members_are_cut(bytes, more, others, junk, next);
        let cuts = parts::members_from(bytes, more, next).0;
        assert forall|i: int| 0 <= i < n implies #[trigger] cuts[i] == found[i] by {
            assert(cuts[i] == more[i]);
        }
        assert forall|i: int| #![trigger ms[i]] 0 <= i < ms.len() implies is_cut_of(
            bytes,
            cuts[n + i],
            ms[i],
        ) by {
            if i == 0 {
                assert(cuts[n] == more[n]);
            } else {
                assert(others[i - 1] == ms[i]);
                assert(cuts[more.len() + (i - 1)] == cuts[n + i]);
            }
        }
    }
}

/// An object that breaks off where a name should stand is told in the words of `serde_json`, if
/// the members before are fit to be read.
pub proof fn broken_object_is_told(
    before: Seq<u8>,
    inner: Seq<u8>,
    ms: Seq<Spelled>,
    junk: Seq<u8>,
    shape: ShapeView,
    helds: Seq<HeldView>,
)
    requires
        blank(before),
        blank(inner),
        all_well_spelled(ms),
        ms.len() > 0 ==> ms[0].lead.len() == 0,
        fit(shape.fields, ms, helds),
        json::json_span(junk) is None,
        junk.len() > 0 && !is_blank(junk[0]) && junk[0] != 0x7d,
    ensures
        ({
            let bytes = before + (seq![0x7bu8] + (inner + comma_bytes(ms, junk)));
            record::read_fields(bytes, shape) == Err::<Seq<Option<HeldView>>, Seq<char>>(
                record::words(json::object_fault(bytes)),
            )
        }),
{
    let rest = comma_bytes(ms, junk);
    let bytes = before + (seq![0x7bu8] + (inner + rest));
    let open = before.len() as int;
    if ms.len() > 0 {
        assert(well_spelled(ms[0]));
        assert(rest[0] == ms[0].name[0]);
    }
    assert(bytes.skip(0) =~= bytes);
    space_is_passed(bytes, 0, before, seq![0x7bu8] + (inner + rest));
    behind(bytes, 0, before, seq![0x7bu8] + (inner + rest));
    behind(bytes, open, seq![0x7bu8], inner + rest);
    space_is_passed(bytes, open + 1, inner, rest);
    behind(bytes, open + 1, inner, rest);
    let start = open + 1 + inner.len();
    broken_members_are_cut(bytes, Seq::empty(), ms, junk, start);
    let cuts = parts::members_at(bytes, open).0;
    assert forall|i: int| #![trigger ms[i]] 0 <= i < ms.len() implies is_cut_of(
        bytes,
        cuts[i],
        ms[i],
    ) by {
        assert(cuts[0 + i] == cuts[i]);
    }
    members_fill(bytes, shape.fields, cuts, ms, helds);
}

/// An item that its field cannot hold is told in the words for its value at its place, whatever
/// stands behind it.
pub proof fn misread_item_is_told(
    before: Seq<u8>,
    items: Seq<Item>,
    after: Seq<u8>,
    shape: ShapeView,
    helds: Seq<HeldView>,
    j: int,
    copy: Seq<u8>,
    message: Seq<char>,
)
    requires
        blank(before),
        0 <= j < items.len(),
        j < shape.fields.len(),
        items.len() == helds.len(),
        forall|i: int| 0 <= i < items.len() ==> well_spelled_item(#[trigger] items[i]),
        forall|i: int|
            #![trigger items[i]]
            0 <= i < j ==> spells(shape.fields[i].1, items[i].value, helds[i]),
        is_blanked(copy, list_bytes(before, items, after), value_at(before, items, j)),
        misread(shape.fields[j].1, copy, message),
    ensures
        record::read_fields(list_bytes(before, items, after), shape) == Err::<
            Seq<Option<HeldView>>,
            Seq<char>,
        >(message),
{
    let bytes = list_bytes(before, items, after);
    list_is_cut(before, items, after);
    let cuts = parts::items_at(bytes, before.len() as int).0;
    items_fill(bytes, shape.fields, cuts, items, helds, j);
    assert(cuts[j] == value_at(before, items, j)) by {
        assert(item_at(bytes, cuts[j], items[j]));
    }
    assert(record::blanked(bytes, value_at(before, items, j)) =~= copy);
    let count = if items.len() < shape.fields.len() {
        items.len() as int
    } else {
        shape.fields.len() as int
    };
    record::listed_stays(bytes, shape.fields, cuts, j + 1, count);
}

/// Of brackets with nothing but space between them nothing is cut.
proof fn empty_list_is_cut(before: Seq<u8>, inner: Seq<u8>, after: Seq<u8>)
    requires
        blank(before),
        blank(inner),
    ensures
        ({
            let bytes = before + (seq![0x5bu8] + (inner + (seq![0x5du8] + after)));
            let open = before.len() as int;
            &&& parts::space_end(bytes, 0) == open
            &&& parts::is_at(bytes, open, 0x5b)
            &&& parts::items_at(bytes, open) == (Seq::<int>::empty(), true)
        }),
{
    let end = seq![0x5du8] + after;
    let bytes = before + (seq![0x5bu8] + (inner + end));
    let open = before.len() as int;
    assert(bytes.skip(0) =~= bytes);
    space_is_passed(bytes, 0, before, seq![0x5bu8] + (inner + end));
    behind(bytes, 0, before, seq![0x5bu8] + (inner + end));
    behind(bytes, open, seq![0x5bu8], inner + end);
    space_is_passed(bytes, open + 1, inner, end);
    behind(bytes, open + 1, inner, end);
}

/// An array without items: nothing is read.
pub proof fn empty_list_is_read(before: Seq<u8>, inner: Seq<u8>, after: Seq<u8>, shape: ShapeView)
    requires
        blank(before),
        blank(inner),
        shape.fields.len() > 0,
    ensures
        ({
            let bytes = before + (seq![0x5bu8] + (inner + (seq![0x5du8] + after)));
            record::read_fields(bytes, shape) == if record::first_missing(
                record::empty_slots(shape.fields),
                shape.required,
            ) is Some {
                Err(
                    place::retold(
                        record::words(record::arity_fault(bytes, shape.arity)),
                        record::arity_words(shape.arity),
                        ", expected "@ + shape.extent + " at line "@,
                    ),
                )
            } else {
                match json::list_fault(bytes) {
                    Some(message) => Err(message),
                    None => Ok(record::empty_slots(shape.fields)),
                }
            }
        }),
{
    empty_list_is_cut(before, inner, after);
}

/// An object that is not closed is told in the words of `serde_json`, if the members that were
/// cut off it are read; an array likewise, if it has fewer items than there are fields.
pub proof fn unclosed_text_is_told(before: Seq<u8>, rest: Seq<u8>, shape: ShapeView)
    requires
        blank(before),
        rest.len() > 0,
    ensures
        ({
            let bytes = before + rest;
            let open = before.len() as int;
            let (members, end) = parts::members_at(bytes, open);
            let (items, closed) = parts::items_at(bytes, open);
            &&& rest[0] == 0x7b && end is None && record::filled(bytes, shape.fields, members)
                is Ok ==> record::read_fields(bytes, shape) == Err::<
                Seq<Option<HeldView>>,
                Seq<char>,
            >(record::words(json::object_fault(bytes)))
            &&& rest[0] == 0x5b && !closed && items.len() < shape.fields.len() && record::listed(
                bytes,
                shape.fields,
                items,
                items.len() as int,
            ) is Ok ==> record::read_fields(bytes, shape) == Err::<
                Seq<Option<HeldView>>,
                Seq<char>,
            >(record::words(json::list_fault(bytes)))
        }),
{
    let bytes = before + rest;
    assert(bytes.skip(0) =~= bytes);
    if !is_blank(rest[0]) {
        space_is_passed(bytes, 0, before, rest);
    }
}

} // verus!
