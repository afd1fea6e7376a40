//! The rules by which a message's fields are read from its JSON text.
//!
//! A message may be written as an object, with its fields by name, or as an array, with its
//! fields in the order in which they are declared. It is read from front to back, and what
//! is wrong first is what is told. `serde_json` reads each value, and words what is wrong
//! with it.

use serde_json::Value;
use vstd::prelude::*;
use vstd::string::*;
use vstd::utf8::*;

use crate::json;
use crate::json::Json;
use crate::parts;
use crate::parts::{Member, MemberView};
use crate::place;

verus! {

/// Why a JSON text is not the message it should be, in words, with the line and the column.
#[derive(Debug, Clone, PartialEq, Eq)]
pub struct JsonError {
    pub message: String,
}

impl View for JsonError {
    type V = Seq<char>;

    open spec fn view(&self) -> Seq<char> {
        self.message@
    }
}

impl JsonError {
    /// Says the error in words.
    pub fn message(&self) -> (text: String)
        ensures
            text@ == self@,
    {
        self.message.as_str().to_owned()
    }
}

/// What a field can hold.
#[derive(Debug, Clone, Copy)]
pub enum Kind {
    Text,
    /// A text or null.
    OptionalText,
    Flag,
    /// A number that takes a byte.
    Byte,
    /// A number that takes four bytes.
    Word,
    /// A number that takes eight bytes.
    Long,
}

/// What a field holds.
#[derive(Debug)]
pub enum Held {
    Text(String),
    OptionalText(Option<String>),
    Flag(bool),
    Byte(u8),
    Word(u32),
    Long(u64),
}

/// What a field holds, as a value.
pub enum HeldView {
    Text(Seq<char>),
    OptionalText(Option<Seq<char>>),
    Flag(bool),
    Byte(u8),
    Word(u32),
    Long(u64),
}

impl View for Held {
    type V = HeldView;

    open spec fn view(&self) -> HeldView {
        match self {
            Held::Text(text) => HeldView::Text(text@),
            Held::OptionalText(text) => HeldView::OptionalText(json::optional_view(*text)),
            Held::Flag(flag) => HeldView::Flag(*flag),
            Held::Byte(n) => HeldView::Byte(*n),
            Held::Word(n) => HeldView::Word(*n),
            Held::Long(n) => HeldView::Long(*n),
        }
    }
}

/// What a field holds, if it is there.
pub open spec fn slot_view(slot: Option<Held>) -> Option<HeldView> {
    match slot {
        Some(held) => Some(held@),
        None => None,
    }
}

/// What the fields of a message hold, in the order in which they are declared.
pub open spec fn slots_view(slots: Seq<Option<Held>>) -> Seq<Option<HeldView>> {
    slots.map_values(|slot: Option<Held>| slot_view(slot))
}

/// How many fields a message has.
#[derive(Debug, Clone, Copy)]
pub enum Arity {
    Five,
    Twelve,
}

/// What a message looks like.
pub struct Shape {
    /// What is expected of it as a whole, in words.
    pub title: &'static str,
    /// What is expected of it as an array, in words.
    pub extent: &'static str,
    /// Its fields, in the order in which they are declared.
    pub fields: Vec<(&'static str, Kind)>,
    /// How many of them, from the first, have no default.
    pub required: usize,
    pub arity: Arity,
}

/// What a message looks like, as a value.
pub struct ShapeView {
    pub title: Seq<char>,
    pub extent: Seq<char>,
    pub fields: Seq<(Seq<char>, Kind)>,
    pub required: int,
    pub arity: Arity,
}

impl View for Shape {
    type V = ShapeView;

    open spec fn view(&self) -> ShapeView {
        ShapeView {
            title: self.title@,
            extent: self.extent@,
            fields: self.fields@.map_values(|field: (&'static str, Kind)| (field.0@, field.1)),
            required: self.required as int,
            arity: self.arity,
        }
    }
}

/// The place of a name among the fields; the last one where there are more.
pub open spec fn field_named(fields: Seq<(Seq<char>, Kind)>, name: Seq<char>) -> Option<int>
    decreases fields.len(),
{
    if fields.len() == 0 {
        None
    } else if fields.last().0 == name {
        Some(fields.len() - 1)
    } else {
        field_named(fields.drop_last(), name)
    }
}

/// The bytes with space in place of all before a place. Lines stay as they are.
pub open spec fn blanked(bytes: Seq<u8>, at: int) -> Seq<u8> {
    Seq::new(
        bytes.len(),
        |i: int|
            if i < at && bytes[i] != place::NEWLINE {
                0x20u8
            } else {
                bytes[i]
            },
    )
}

/// What a field of a kind holds whose value starts at a place, or what is wrong with it.
pub open spec fn held_at(bytes: Seq<u8>, at: int, kind: Kind) -> Result<HeldView, Seq<char>> {
    let rest = blanked(bytes, at);
    match kind {
        Kind::Text => match json::text_read(rest) {
            Ok(text) => Ok(HeldView::Text(text)),
            Err(e) => Err(e),
        },
        Kind::OptionalText => match json::optional_text_read(rest) {
            Ok(text) => Ok(HeldView::OptionalText(text)),
            Err(e) => Err(e),
        },
        Kind::Flag => match json::flag_read(rest) {
            Ok(flag) => Ok(HeldView::Flag(flag)),
            Err(e) => Err(e),
        },
        Kind::Byte => match json::byte_read(rest) {
            Ok(n) => Ok(HeldView::Byte(n)),
            Err(e) => Err(e),
        },
        Kind::Word => match json::word_read(rest) {
            Ok(n) => Ok(HeldView::Word(n)),
            Err(e) => Err(e),
        },
        Kind::Long => match json::long_read(rest) {
            Ok(n) => Ok(HeldView::Long(n)),
            Err(e) => Err(e),
        },
    }
}

/// The fields of a message of which nothing was read.
pub open spec fn empty_slots(fields: Seq<(Seq<char>, Kind)>) -> Seq<Option<HeldView>> {
    Seq::new(fields.len(), |i: int| None)
}

/// The place at which a name is told that should not be there: behind the name and the space
/// that follows it, and behind a brace that closes the object there.
pub open spec fn name_place(bytes: Seq<u8>, name_end: int) -> int {
    let next = parts::space_end(bytes, name_end);
    if parts::is_at(bytes, next, json::BRACE_CLOSE) {
        next + 1
    } else {
        next
    }
}

/// The fields with what one more member puts into them. A member that no field is named
/// after puts nothing; one that comes a second time is an error, whatever it holds.
pub open spec fn with_member(
    bytes: Seq<u8>,
    fields: Seq<(Seq<char>, Kind)>,
    slots: Seq<Option<HeldView>>,
    member: MemberView,
) -> Result<Seq<Option<HeldView>>, Seq<char>> {
    match field_named(fields, member.name) {
        None => Ok(slots),
        Some(i) => if slots[i] is Some {
            Err(
                "duplicate field `"@ + member.name + "`"@ + place::place(
                    bytes,
                    name_place(bytes, member.name_end),
                ),
            )
        } else {
            match member.value {
                None => Ok(slots),
                Some(at) => match held_at(bytes, at, fields[i].1) {
                    Ok(held) => Ok(slots.update(i, Some(held))),
                    Err(e) => Err(e),
                },
            }
        },
    }
}

/// The fields with what the members put into them, in order; or what is wrong first.
pub open spec fn filled(
    bytes: Seq<u8>,
    fields: Seq<(Seq<char>, Kind)>,
    members: Seq<MemberView>,
) -> Result<Seq<Option<HeldView>>, Seq<char>>
    decreases members.len(),
{
    if members.len() == 0 {
        Ok(empty_slots(fields))
    } else {
        match filled(bytes, fields, members.drop_last()) {
            Ok(slots) => with_member(bytes, fields, slots, members.last()),
            Err(e) => Err(e),
        }
    }
}

/// The fields with what the first items put into them, so many as are counted; or what is
/// wrong first.
pub open spec fn listed(
    bytes: Seq<u8>,
    fields: Seq<(Seq<char>, Kind)>,
    items: Seq<int>,
    count: int,
) -> Result<Seq<Option<HeldView>>, Seq<char>>
    decreases count,
{
    if count <= 0 {
        Ok(empty_slots(fields))
    } else {
        match listed(bytes, fields, items, count - 1) {
            Ok(slots) => match held_at(bytes, items[count - 1], fields[count - 1].1) {
                Ok(held) => Ok(slots.update(count - 1, Some(held))),
                Err(e) => Err(e),
            },
            Err(e) => Err(e),
        }
    }
}

/// The first of so many fields that is not there.
pub open spec fn first_missing(slots: Seq<Option<HeldView>>, required: int) -> Option<int>
    decreases required,
{
    if required <= 0 {
        None
    } else {
        match first_missing(slots, required - 1) {
            Some(i) => Some(i),
            None => if slots[required - 1] is None {
                Some(required - 1)
            } else {
                None
            },
        }
    }
}

/// What `serde_json` says is wrong with a text in which the cut found a fault; nothing where
/// it finds no fault itself. No text is known of which that is so, but nothing here proves
/// that there is none: it rests on reading how `serde_json` goes about a text, and on
/// comparing the two on many texts.
pub open spec fn words(fault: Option<Seq<char>>) -> Seq<char> {
    match fault {
        Some(message) => message,
        None => Seq::empty(),
    }
}

/// What is wrong with an array that has to have so many items.
pub open spec fn arity_fault(bytes: Seq<u8>, arity: Arity) -> Option<Seq<char>> {
    match arity {
        Arity::Five => json::five_fault(bytes),
        Arity::Twelve => json::twelve_fault(bytes),
    }
}

/// How an array of so many items is called.
pub open spec fn arity_words(arity: Arity) -> Seq<char> {
    match arity {
        Arity::Five => ", expected a tuple of size 5 at line "@,
        Arity::Twelve => ", expected a tuple of size 12 at line "@,
    }
}

/// The fields of a message that is written as an object, given its members and the place
/// behind the closing brace; or what is wrong first.
pub open spec fn object_fields(
    bytes: Seq<u8>,
    shape: ShapeView,
    members: Seq<MemberView>,
    end: Option<int>,
) -> Result<Seq<Option<HeldView>>, Seq<char>> {
    match filled(bytes, shape.fields, members) {
        Err(e) => Err(e),
        Ok(slots) => match end {
            None => Err(words(json::object_fault(bytes))),
            Some(at) => match first_missing(slots, shape.required) {
                Some(i) => Err(
                    "missing field `"@ + shape.fields[i].0 + "`"@ + place::place(bytes, at),
                ),
                None => match json::object_fault(bytes) {
                    Some(message) => Err(message),
                    None => Ok(slots),
                },
            },
        },
    }
}

/// The fields of a message that is written as an array, given the places of its items and
/// whether it is closed; or what is wrong first.
pub open spec fn list_fields(
    bytes: Seq<u8>,
    shape: ShapeView,
    items: Seq<int>,
    closed: bool,
) -> Result<Seq<Option<HeldView>>, Seq<char>> {
    let size = shape.fields.len();
    let count = if items.len() < size {
        items.len()
    } else {
        size
    };
    match listed(bytes, shape.fields, items, count as int) {
        Err(e) => Err(e),
        Ok(slots) => if items.len() > size || items.len() == size && !closed {
            Err(words(arity_fault(bytes, shape.arity)))
        } else if !closed {
            Err(words(json::list_fault(bytes)))
        } else if first_missing(slots, shape.required) is Some {
            Err(
                place::retold(
                    words(arity_fault(bytes, shape.arity)),
                    arity_words(shape.arity),
                    ", expected "@ + shape.extent + " at line "@,
                ),
            )
        } else {
            match json::list_fault(bytes) {
                Some(message) => Err(message),
                None => Ok(slots),
            }
        },
    }
}

/// The fields of the message that a JSON text spells; or what is wrong with it first.
pub open spec fn read_fields(bytes: Seq<u8>, shape: ShapeView) -> Result<
    Seq<Option<HeldView>>,
    Seq<char>,
> {
    let open = parts::space_end(bytes, 0);
    if parts::is_at(bytes, open, json::BRACE_OPEN) {
        let (members, end) = parts::members_at(bytes, open);
        object_fields(bytes, shape, members, end)
    } else if parts::is_at(bytes, open, json::BRACKET_OPEN) {
        let (items, closed) = parts::items_at(bytes, open);
        list_fields(bytes, shape, items, closed)
    } else {
        Err(
            place::retold(
                words(json::object_fault(bytes)),
                ", expected a map at line "@,
                ", expected "@ + shape.title + " at line "@,
            ),
        )
    }
}

/// Blanks the bytes before a place.
fn blank(bytes: &[u8], at: usize) -> (rest: Vec<u8>)
    ensures
        rest@ == blanked(bytes@, at as int),
{
    let mut rest: Vec<u8> = Vec::with_capacity(bytes.len());
    for i in 0..bytes.len()
        invariant
            rest@ == blanked(bytes@, at as int).take(i as int),
    {
        if i < at && bytes[i] != place::NEWLINE {
            rest.push(0x20);
        } else {
            rest.push(bytes[i]);
        }
        assert(rest@ =~= blanked(bytes@, at as int).take(i + 1));
    }
    assert(rest@ =~= blanked(bytes@, at as int));
    rest
}

/// Reads a field.
fn read_held(bytes: &[u8], at: usize, kind: Kind) -> (result: Result<Held, String>)
    ensures
        match result {
            Ok(held) => held_at(bytes@, at as int, kind) == Ok::<HeldView, Seq<char>>(held@),
            Err(e) => held_at(bytes@, at as int, kind) == Err::<HeldView, Seq<char>>(e@),
        },
{
    let copy = blank(bytes, at);
    let rest = copy.as_slice();
    match kind {
        Kind::Text => Ok(Held::Text(json::read_text(rest)?)),
        Kind::OptionalText => Ok(Held::OptionalText(json::read_optional_text(rest)?)),
        Kind::Flag => Ok(Held::Flag(json::read_flag(rest)?)),
        Kind::Byte => Ok(Held::Byte(json::read_byte(rest)?)),
        Kind::Word => Ok(Held::Word(json::read_word(rest)?)),
        Kind::Long => Ok(Held::Long(json::read_long(rest)?)),
    }
}

/// Finds the field of a name.
fn find_field(shape: &Shape, name: &String) -> (found: Option<usize>)
    ensures
        match found {
            Some(i) => i < shape@.fields.len() && field_named(shape@.fields, name@) == Some(
                i as int,
            ),
            None => field_named(shape@.fields, name@) is None,
        },
{
    let mut left: usize = shape.fields.len();
    assert(shape@.fields.take(left as int) =~= shape@.fields);
    while left > 0
        invariant
            left <= shape@.fields.len() == shape.fields@.len(),
            field_named(shape@.fields.take(left as int), name@) == field_named(
                shape@.fields,
                name@,
            ),
        decreases left,
    {
        assert(shape@.fields.take(left as int).last() == (
            shape.fields@[left - 1].0@,
            shape.fields@[left - 1].1,
        ));
        assert(shape@.fields.take(left as int).drop_last() =~= shape@.fields.take(left - 1));
        if shape.fields[left - 1].0.to_owned() == *name {
            return Some(left - 1);
        }
        left = left - 1;
    }
    None
}

/// Makes room for the fields of a message.
fn make_slots(shape: &Shape) -> (slots: Vec<Option<Held>>)
    ensures
        slots_view(slots@) == empty_slots(shape@.fields),
{
    let mut slots: Vec<Option<Held>> = Vec::new();
    for i in 0..shape.fields.len()
        invariant
            slots@.len() == i,
            forall|j: int| 0 <= j < i ==> (#[trigger] slots@[j]) is None,
    {
        slots.push(None);
    }
    assert(slots_view(slots@) =~= empty_slots(shape@.fields));
    slots
}

/// Puts what a field holds in its place.
fn put(slots: &mut Vec<Option<Held>>, i: usize, held: Held)
    requires
        i < old(slots)@.len(),
    ensures
        final(slots)@.len() == old(slots)@.len(),
        slots_view(final(slots)@) == slots_view(old(slots)@).update(i as int, Some(held@)),
{
    slots.set(i, Some(held));
    assert(slots_view(slots@) =~= slots_view(old(slots)@).update(i as int, Some(held@)));
}

/// Names a field in words.
fn about_field(words: &str, name: &str) -> (text: String)
    ensures
        text@ == words@ + name@ + "`"@,
{
    let mut text = words.to_owned();
    text.append(name);
    text.append("`");
    text
}

/// Takes what one member puts into the fields.
fn take_member(bytes: &[u8], shape: &Shape, slots: &mut Vec<Option<Held>>, member: &Member) -> (
result: Result<(), String>)
    requires
        old(slots)@.len() == shape@.fields.len(),
        member.name_end <= bytes@.len(),
    ensures
        final(slots)@.len() == old(slots)@.len(),
        match result {
            Ok(_) => with_member(bytes@, shape@.fields, slots_view(old(slots)@), member@) == Ok::<
                Seq<Option<HeldView>>,
                Seq<char>,
            >(slots_view(final(slots)@)),
            Err(e) => with_member(bytes@, shape@.fields, slots_view(old(slots)@), member@) == Err::<
                Seq<Option<HeldView>>,
                Seq<char>,
            >(e@),
        },
{
    let i = match find_field(shape, &member.name) {
        Some(i) => i,
        None => {
            return Ok(());
        },
    };
    if slots[i].is_some() {
        let next = parts::skip_space(bytes, member.name_end);
        let at = if parts::holds(bytes, next, json::BRACE_CLOSE) {
            next + 1
        } else {
            next
        };
        let words = about_field("duplicate field `", member.name.as_str());
        return Err(place::located(words.as_str(), bytes, at));
    }
    if let Some(at) = member.value {
        let held = read_held(bytes, at, shape.fields[i].1)?;
        put(slots, i, held);
    }
    Ok(())
}

/// An error among the first members is what is wrong first among all.
pub proof fn filled_stays(
    bytes: Seq<u8>,
    fields: Seq<(Seq<char>, Kind)>,
    members: Seq<MemberView>,
    count: int,
)
    requires
        0 <= count <= members.len(),
        filled(bytes, fields, members.take(count)) is Err,
    ensures
        filled(bytes, fields, members) == filled(bytes, fields, members.take(count)),
    decreases members.len(),
{
    if count == members.len() {
        assert(members.take(count) =~= members);
    } else {
        assert(members.drop_last().take(count) =~= members.take(count));
        filled_stays(bytes, fields, members.drop_last(), count);
    }
}

/// Takes what the members put into the fields.
fn fill(bytes: &[u8], shape: &Shape, members: &Vec<Member>) -> (result: Result<
    Vec<Option<Held>>,
    String,
>)
    requires
        forall|i: int|
            0 <= i < members@.len() ==> (#[trigger] members@[i]).name_end <= bytes@.len(),
    ensures
        match result {
            Ok(slots) => slots@.len() == shape@.fields.len() && filled(
                bytes@,
                shape@.fields,
                parts::members_view(members@),
            ) == Ok::<Seq<Option<HeldView>>, Seq<char>>(slots_view(slots@)),
            Err(e) => filled(bytes@, shape@.fields, parts::members_view(members@)) == Err::<
                Seq<Option<HeldView>>,
                Seq<char>,
            >(e@),
        },
{
    let ghost all = parts::members_view(members@);
    let mut slots = make_slots(shape);
    assert(slots@.len() == slots_view(slots@).len());
    for i in 0..members.len()
        invariant
            all == parts::members_view(members@),
            forall|i: int|
                0 <= i < members@.len() ==> (#[trigger] members@[i]).name_end <= bytes@.len(),
            slots@.len() == shape@.fields.len(),
            filled(bytes@, shape@.fields, all.take(i as int)) == Ok::<
                Seq<Option<HeldView>>,
                Seq<char>,
            >(slots_view(slots@)),
    {
        let ghost next = all.take(i + 1);
        assert(next.drop_last() =~= all.take(i as int));
        assert(next.last() == members@[i as int]@);
        if let Err(e) = take_member(bytes, shape, &mut slots, &members[i]) {
            proof {
                filled_stays(bytes@, shape@.fields, all, i + 1);
            }
            return Err(e);
        }
    }
    assert(all.take(all.len() as int) =~= all);
    Ok(slots)
}

/// An error among the first items is what is wrong first among more.
pub proof fn listed_stays(
    bytes: Seq<u8>,
    fields: Seq<(Seq<char>, Kind)>,
    items: Seq<int>,
    count: int,
    more: int,
)
    requires
        0 <= count <= more,
        listed(bytes, fields, items, count) is Err,
    ensures
        listed(bytes, fields, items, more) == listed(bytes, fields, items, count),
    decreases more,
{
    if count < more {
        listed_stays(bytes, fields, items, count, more - 1);
    }
}

/// Takes what the first items put into the fields.
fn enlist(bytes: &[u8], shape: &Shape, items: &Vec<usize>, count: usize) -> (result: Result<
    Vec<Option<Held>>,
    String,
>)
    requires
        count <= items@.len(),
        count <= shape@.fields.len(),
    ensures
        match result {
            Ok(slots) => slots@.len() == shape@.fields.len() && listed(
                bytes@,
                shape@.fields,
                parts::items_view(items@),
                count as int,
            ) == Ok::<Seq<Option<HeldView>>, Seq<char>>(slots_view(slots@)),
            Err(e) => listed(bytes@, shape@.fields, parts::items_view(items@), count as int)
                == Err::<Seq<Option<HeldView>>, Seq<char>>(e@),
        },
{
    let ghost all = parts::items_view(items@);
    let mut slots = make_slots(shape);
    assert(slots@.len() == slots_view(slots@).len());
    for i in 0..count
        invariant
            all == parts::items_view(items@),
            count <= items@.len(),
            count <= shape@.fields.len() == shape.fields@.len(),
            slots@.len() == shape@.fields.len(),
            listed(bytes@, shape@.fields, all, i as int) == Ok::<
                Seq<Option<HeldView>>,
                Seq<char>,
            >(slots_view(slots@)),
    {
        match read_held(bytes, items[i], shape.fields[i].1) {
            Ok(held) => {
                put(&mut slots, i, held);
                assert(slots@.len() == slots_view(slots@).len());
            },
            Err(e) => {
                proof {
                    listed_stays(bytes@, shape@.fields, all, i + 1, count as int);
                }
                return Err(e);
            },
        }
    }
    Ok(slots)
}

/// Finds the first of so many fields that is not there.
pub(crate) fn find_missing(slots: &Vec<Option<Held>>, required: usize) -> (found: Option<usize>)
    requires
        required <= slots@.len(),
    ensures
        match found {
            Some(i) => i < required && first_missing(slots_view(slots@), required as int) == Some(
                i as int,
            ),
            None => first_missing(slots_view(slots@), required as int) is None,
        },
{
    for i in 0..required
        invariant
            required <= slots@.len(),
            first_missing(slots_view(slots@), i as int) is None,
    {
        assert(slots_view(slots@)[i as int] == slot_view(slots@[i as int]));
        if slots[i].is_none() {
            proof {
                missing_stays(slots_view(slots@), i + 1, required as int);
            }
            return Some(i);
        }
    }
    None
}

/// A field that is missing among the first is missing among more.
proof fn missing_stays(slots: Seq<Option<HeldView>>, count: int, more: int)
    requires
        0 <= count <= more,
        first_missing(slots, count) is Some,
    ensures
        first_missing(slots, more) == first_missing(slots, count),
    decreases more,
{
    if count < more {
        missing_stays(slots, count, more - 1);
    }
}

/// Says the words of a fault.
fn words_of(fault: Option<String>) -> (text: String)
    ensures
        text@ == words(json::optional_view(fault)),
{
    match fault {
        Some(message) => message,
        None => String::new(),
    }
}

/// Finds what is wrong with an array that has to have so many items.
fn find_arity_fault(bytes: &[u8], arity: Arity) -> (fault: Option<String>)
    ensures
        json::optional_view(fault) == arity_fault(bytes@, arity),
{
    match arity {
        Arity::Five => json::find_five_fault(bytes),
        Arity::Twelve => json::find_twelve_fault(bytes),
    }
}

/// Says that something else was expected.
fn expecting(title: &str) -> (text: String)
    ensures
        text@ == ", expected "@ + title@ + " at line "@,
{
    let mut text = ", expected ".to_owned();
    text.append(title);
    text.append(" at line ");
    text
}

/// Whether the outcome of a reading is what there is to read.
pub open spec fn outcome_is(
    result: Result<Vec<Option<Held>>, JsonError>,
    expected: Result<Seq<Option<HeldView>>, Seq<char>>,
) -> bool {
    match result {
        Ok(slots) => expected == Ok::<Seq<Option<HeldView>>, Seq<char>>(slots_view(slots@)),
        Err(e) => expected == Err::<Seq<Option<HeldView>>, Seq<char>>(e@),
    }
}

/// Reads the fields of a message that is written as an object.
fn read_object(bytes: &[u8], shape: &Shape, open: usize) -> (result: Result<
    Vec<Option<Held>>,
    JsonError,
>)
    requires
        open < bytes@.len(),
        open < usize::MAX,
        shape@.required <= shape@.fields.len(),
    ensures
        outcome_is(
            result,
            object_fields(
                bytes@,
                shape@,
                parts::members_at(bytes@, open as int).0,
                parts::members_at(bytes@, open as int).1,
            ),
        ),
        bytes@.contains(0u8) ==> result is Err,
        result matches Ok(slots) ==> slots@.len() == shape@.fields.len(),
{
    let (members, end) = parts::cut_members(bytes, open);
    let slots = match fill(bytes, shape, &members) {
        Ok(slots) => slots,
        Err(message) => {
            return Err(JsonError { message });
        },
    };
    let at = match end {
        Some(at) => at,
        None => {
            return Err(JsonError { message: words_of(json::find_object_fault(bytes)) });
        },
    };
    if let Some(i) = find_missing(&slots, shape.required) {
        let words = about_field("missing field `", shape.fields[i].0);
        return Err(JsonError { message: place::located(words.as_str(), bytes, at) });
    }
    match json::find_object_fault(bytes) {
        Some(message) => Err(JsonError { message }),
        None => Ok(slots),
    }
}

/// Reads the fields of a message that is written as an array.
fn read_list(bytes: &[u8], shape: &Shape, open: usize) -> (result: Result<
    Vec<Option<Held>>,
    JsonError,
>)
    requires
        open < bytes@.len(),
        open < usize::MAX,
        shape@.required <= shape@.fields.len(),
    ensures
        outcome_is(
            result,
            list_fields(
                bytes@,
                shape@,
                parts::items_at(bytes@, open as int).0,
                parts::items_at(bytes@, open as int).1,
            ),
        ),
        bytes@.contains(0u8) ==> result is Err,
        result matches Ok(slots) ==> slots@.len() == shape@.fields.len(),
{
    let (items, closed) = parts::cut_items(bytes, open);
    let size: usize = shape.fields.len();
    let count: usize = if items.len() < size {
        items.len()
    } else {
        size
    };
    let slots = match enlist(bytes, shape, &items, count) {
        Ok(slots) => slots,
        Err(message) => {
            return Err(JsonError { message });
        },
    };
    if items.len() > size || items.len() == size && !closed {
        return Err(JsonError { message: words_of(find_arity_fault(bytes, shape.arity)) });
    }
    if !closed {
        return Err(JsonError { message: words_of(json::find_list_fault(bytes)) });
    }
    if find_missing(&slots, shape.required).is_some() {
        let told = words_of(find_arity_fault(bytes, shape.arity));
        let tuple = match shape.arity {
            Arity::Five => ", expected a tuple of size 5 at line ",
            Arity::Twelve => ", expected a tuple of size 12 at line ",
        };
        proof {
            reveal_strlit(", expected a tuple of size 5 at line ");
            reveal_strlit(", expected a tuple of size 12 at line ");
        }
        let message = place::retell(told.as_str(), tuple, expecting(shape.extent).as_str());
        return Err(JsonError { message });
    }
    match json::find_list_fault(bytes) {
        Some(message) => Err(JsonError { message }),
        None => Ok(slots),
    }
}

/// Reads the fields of a message from its JSON text. Bytes among which is a zero are no
/// JSON, and so no message.
pub(crate) fn read(bytes: &[u8], shape: &Shape) -> (result: Result<Vec<Option<Held>>, JsonError>)
    requires
        shape@.required <= shape@.fields.len(),
    ensures
        outcome_is(result, read_fields(bytes@, shape@)),
        bytes@.contains(0u8) ==> result is Err,
        result matches Ok(slots) ==> slots@.len() == shape@.fields.len(),
{
    let open = parts::skip_space(bytes, 0);
    if parts::holds(bytes, open, json::BRACE_OPEN) {
        read_object(bytes, shape, open)
    } else if parts::holds(bytes, open, json::BRACKET_OPEN) {
        read_list(bytes, shape, open)
    } else {
        let told = words_of(json::find_object_fault(bytes));
        proof {
            reveal_strlit(", expected a map at line ");
        }
        let message = place::retell(
            told.as_str(),
            ", expected a map at line ",
            expecting(shape.title).as_str(),
        );
        Err(JsonError { message })
    }
}

/// What is in a slot; nothing where there is no such slot.
pub open spec fn slot(slots: Seq<Option<HeldView>>, i: int) -> Option<HeldView> {
    if 0 <= i < slots.len() {
        slots[i]
    } else {
        None
    }
}

/// The text in a slot; empty where there is none.
pub open spec fn text_of(slot: Option<HeldView>) -> Seq<char> {
    match slot {
        Some(HeldView::Text(text)) => text,
        _ => Seq::empty(),
    }
}

/// The optional text in a slot; none where there is none.
pub open spec fn optional_text_of(slot: Option<HeldView>) -> Option<Seq<char>> {
    match slot {
        Some(HeldView::OptionalText(text)) => text,
        _ => None,
    }
}

/// The truth value in a slot; false where there is none.
pub open spec fn flag_of(slot: Option<HeldView>) -> bool {
    match slot {
        Some(HeldView::Flag(flag)) => flag,
        _ => false,
    }
}

/// The byte in a slot; 0 where there is none.
pub open spec fn byte_of(slot: Option<HeldView>) -> u8 {
    match slot {
        Some(HeldView::Byte(n)) => n,
        _ => 0,
    }
}

/// The number of four bytes in a slot; 0 where there is none.
pub open spec fn word_of(slot: Option<HeldView>) -> u32 {
    match slot {
        Some(HeldView::Word(n)) => n,
        _ => 0,
    }
}

/// The number of eight bytes in a slot; 0 where there is none.
pub open spec fn long_of(slot: Option<HeldView>) -> u64 {
    match slot {
        Some(HeldView::Long(n)) => n,
        _ => 0,
    }
}

/// Looks into a slot.
fn peek(slots: &Vec<Option<Held>>, i: usize) -> (held: Option<&Held>)
    ensures
        match held {
            Some(h) => slot(slots_view(slots@), i as int) == Some(h@),
            None => slot(slots_view(slots@), i as int) is None,
        },
{
    if i < slots.len() {
        assert(slots_view(slots@)[i as int] == slot_view(slots@[i as int]));
        match &slots[i] {
            Some(held) => Some(held),
            None => None,
        }
    } else {
        None
    }
}

/// Takes the text in a slot.
pub(crate) fn take_text(slots: &Vec<Option<Held>>, i: usize) -> (text: String)
    ensures
        text@ == text_of(slot(slots_view(slots@), i as int)),
{
    match peek(slots, i) {
        Some(Held::Text(text)) => text.as_str().to_owned(),
        _ => String::new(),
    }
}

/// Takes the optional text in a slot.
pub(crate) fn take_optional_text(slots: &Vec<Option<Held>>, i: usize) -> (text: Option<String>)
    ensures
        json::optional_view(text) == optional_text_of(slot(slots_view(slots@), i as int)),
{
    match peek(slots, i) {
        Some(Held::OptionalText(Some(text))) => Some(text.as_str().to_owned()),
        _ => None,
    }
}

/// Takes the truth value in a slot.
pub(crate) fn take_flag(slots: &Vec<Option<Held>>, i: usize) -> (flag: bool)
    ensures
        flag == flag_of(slot(slots_view(slots@), i as int)),
{
    match peek(slots, i) {
        Some(Held::Flag(flag)) => *flag,
        _ => false,
    }
}

/// Takes the byte in a slot.
pub(crate) fn take_byte(slots: &Vec<Option<Held>>, i: usize) -> (n: u8)
    ensures
        n == byte_of(slot(slots_view(slots@), i as int)),
{
    match peek(slots, i) {
        Some(Held::Byte(n)) => *n,
        _ => 0,
    }
}

/// Takes the number of four bytes in a slot.
pub(crate) fn take_word(slots: &Vec<Option<Held>>, i: usize) -> (n: u32)
    ensures
        n == word_of(slot(slots_view(slots@), i as int)),
{
    match peek(slots, i) {
        Some(Held::Word(n)) => *n,
        _ => 0,
    }
}

/// Takes the number of eight bytes in a slot.
pub(crate) fn take_long(slots: &Vec<Option<Held>>, i: usize) -> (n: u64)
    ensures
        n == long_of(slot(slots_view(slots@), i as int)),
{
    match peek(slots, i) {
        Some(Held::Long(n)) => *n,
        _ => 0,
    }
}

/// Adds a field to those of an object that will be written.
pub(crate) fn push_field(fields: &mut Vec<(String, Value)>, name: &str, value: Value)
    ensures
        json::fields_view(final(fields)@) == json::fields_view(old(fields)@).push(
            (name@, json::json(value)),
        ),
{
    fields.push((name.to_owned(), value));
    assert(json::fields_view(fields@) =~= json::fields_view(old(fields)@).push(
        (name@, json::json(value)),
    ));
}

/// Whether no member has that name.
pub open spec fn lacks(members: Seq<MemberView>, name: Seq<char>) -> bool {
    forall|i: int| 0 <= i < members.len() ==> (#[trigger] members[i]).name != name
}

/// The name of a field leads to that field, where no later one has it too.
pub proof fn named_field(fields: Seq<(Seq<char>, Kind)>, i: int)
    requires
        0 <= i < fields.len(),
        forall|j: int| i < j < fields.len() ==> (#[trigger] fields[j]).0 != fields[i].0,
    ensures
        field_named(fields, fields[i].0) == Some(i),
    decreases fields.len(),
{
    if i < fields.len() - 1 {
        assert(fields.last() == fields[fields.len() - 1]);
        assert forall|j: int| i < j < fields.drop_last().len() implies (
        #[trigger] fields.drop_last()[j]).0 != fields[i].0 by {
            assert(fields.drop_last()[j] == fields[j]);
        }
        named_field(fields.drop_last(), i);
    }
}

/// A field that was found is one of the fields, and has that name.
pub proof fn found_field(fields: Seq<(Seq<char>, Kind)>, name: Seq<char>)
    ensures
        field_named(fields, name) matches Some(i) ==> 0 <= i < fields.len() && fields[i].0 == name,
    decreases fields.len(),
{
    if fields.len() > 0 && fields.last().0 != name {
        found_field(fields.drop_last(), name);
    }
}

/// There are as many slots as fields.
pub proof fn slots_match_fields(
    bytes: Seq<u8>,
    fields: Seq<(Seq<char>, Kind)>,
    members: Seq<MemberView>,
)
    ensures
        filled(bytes, fields, members) matches Ok(slots) ==> slots.len() == fields.len(),
    decreases members.len(),
{
    if members.len() > 0 {
        slots_match_fields(bytes, fields, members.drop_last());
        found_field(fields, members.last().name);
    }
}

/// A field that no member is named after stays as it was: with nothing read into it.
pub proof fn absent_field(
    bytes: Seq<u8>,
    fields: Seq<(Seq<char>, Kind)>,
    members: Seq<MemberView>,
    i: int,
)
    requires
        0 <= i < fields.len(),
        lacks(members, fields[i].0),
    ensures
        filled(bytes, fields, members) matches Ok(slots) ==> slots[i] is None,
    decreases members.len(),
{
    if members.len() > 0 {
        let fewer = members.drop_last();
        assert forall|j: int| 0 <= j < fewer.len() implies (#[trigger] fewer[j]).name
            != fields[i].0 by {
            assert(fewer[j] == members[j]);
        }
        assert(members.last() == members[members.len() - 1]);
        absent_field(bytes, fields, fewer, i);
        slots_match_fields(bytes, fields, fewer);
        found_field(fields, members.last().name);
    }
}

/// A member that no field is named after changes nothing, wherever it stands.
pub proof fn other_member(
    bytes: Seq<u8>,
    fields: Seq<(Seq<char>, Kind)>,
    members: Seq<MemberView>,
    at: int,
    other: MemberView,
)
    requires
        0 <= at <= members.len(),
        field_named(fields, other.name) is None,
    ensures
        filled(bytes, fields, members.insert(at, other)) == filled(bytes, fields, members),
    decreases members.len(),
{
    let longer = members.insert(at, other);
    if at == members.len() {
        assert(longer.drop_last() =~= members);
    } else {
        assert(longer.drop_last() =~= members.drop_last().insert(at, other));
        assert(longer.last() == members.last());
        other_member(bytes, fields, members.drop_last(), at, other);
    }
}

/// A field that a member has put something into keeps it.
proof fn held_stays(
    bytes: Seq<u8>,
    fields: Seq<(Seq<char>, Kind)>,
    members: Seq<MemberView>,
    count: int,
    i: int,
)
    requires
        0 <= count <= members.len(),
        0 <= i < fields.len(),
        filled(bytes, fields, members.take(count)) matches Ok(slots) && slots[i] is Some,
    ensures
        filled(bytes, fields, members) matches Ok(slots) ==> slots[i] is Some,
    decreases members.len(),
{
    if count == members.len() {
        assert(members.take(count) =~= members);
    } else {
        assert(members.drop_last().take(count) =~= members.take(count));
        held_stays(bytes, fields, members.drop_last(), count, i);
        slots_match_fields(bytes, fields, members.drop_last());
        found_field(fields, members.last().name);
    }
}

/// A field whose name comes twice is an error.
pub proof fn repeated_field(
    bytes: Seq<u8>,
    fields: Seq<(Seq<char>, Kind)>,
    members: Seq<MemberView>,
    i: int,
    j: int,
)
    requires
        0 <= i < j < members.len(),
        members[i].name == members[j].name,
        members[i].value is Some,
        field_named(fields, members[i].name) is Some,
    ensures
        filled(bytes, fields, members) is Err,
{
    let field = field_named(fields, members[i].name)->0;
    let first = members.take(i + 1);
    let upto = members.take(j + 1);
    assert(first.drop_last() =~= members.take(i));
    assert(first.last() == members[i]);
    assert(upto.drop_last() =~= members.take(j));
    assert(upto.last() == members[j]);
    found_field(fields, members[i].name);
    slots_match_fields(bytes, fields, members.take(i));
    assert(members.take(j).take(i + 1) =~= first);
    if filled(bytes, fields, members.take(j)) is Ok {
        if filled(bytes, fields, first) is Err {
            filled_stays(bytes, fields, members.take(j), i + 1);
        } else {
            held_stays(bytes, fields, members.take(j), i + 1, field);
        }
    }
    filled_stays(bytes, fields, members, j + 1);
}

/// Whether a value can be held by a field of that kind.
pub open spec fn accepts(kind: Kind, value: Json) -> bool {
    match (kind, value) {
        (Kind::Text, Json::Text(_)) => true,
        (Kind::OptionalText, Json::Text(_)) => true,
        (Kind::OptionalText, Json::Null) => true,
        (Kind::Flag, Json::Bool(_)) => true,
        (Kind::Byte, Json::Integer(n)) => 0 <= n <= u8::MAX,
        (Kind::Word, Json::Integer(n)) => 0 <= n <= u32::MAX,
        (Kind::Long, Json::Integer(n)) => 0 <= n <= u64::MAX,
        _ => false,
    }
}

/// What a field of that kind holds of a value that it can hold.
pub open spec fn holding(kind: Kind, value: Json) -> HeldView {
    match value {
        Json::Text(text) => if kind == Kind::Text {
            HeldView::Text(text)
        } else {
            HeldView::OptionalText(Some(text))
        },
        Json::Bool(flag) => HeldView::Flag(flag),
        Json::Integer(n) => match kind {
            Kind::Byte => HeldView::Byte(n as u8),
            Kind::Word => HeldView::Word(n as u32),
            _ => HeldView::Long(n as u64),
        },
        _ => HeldView::OptionalText(None),
    }
}

/// The fields with what one more value puts into them, under its name: nothing where no field
/// has that name. `None` where the name comes twice, or the field cannot hold the value.
pub open spec fn with_value(
    fields: Seq<(Seq<char>, Kind)>,
    slots: Option<Seq<Option<HeldView>>>,
    value: (Seq<char>, Json),
) -> Option<Seq<Option<HeldView>>> {
    match (slots, field_named(fields, value.0)) {
        (Some(s), Some(i)) => if s[i] is None && accepts(fields[i].1, value.1) {
            Some(s.update(i, Some(holding(fields[i].1, value.1))))
        } else {
            None
        },
        (Some(s), None) => Some(s),
        _ => None,
    }
}

/// The fields with what the values put into them, in order.
pub open spec fn with_values(
    fields: Seq<(Seq<char>, Kind)>,
    values: Seq<(Seq<char>, Json)>,
) -> Option<Seq<Option<HeldView>>>
    decreases values.len(),
{
    if values.len() == 0 {
        Some(empty_slots(fields))
    } else {
        with_value(fields, with_values(fields, values.drop_last()), values.last())
    }
}

/// One more value adds what [`with_value`] says.
pub proof fn one_more(
    fields: Seq<(Seq<char>, Kind)>,
    values: Seq<(Seq<char>, Json)>,
    value: (Seq<char>, Json),
)
    ensures
        with_values(fields, values.push(value)) == with_value(
            fields,
            with_values(fields, values),
            value,
        ),
{
    assert(values.push(value).drop_last() =~= values);
}

/// Values under names that no field has put nothing into the fields: all that count are those
/// under names that one has.
pub proof fn further_values(fields: Seq<(Seq<char>, Kind)>, values: Seq<(Seq<char>, Json)>)
    ensures
        with_values(fields, values) == with_values(fields, known(fields, values)),
    decreases values.len(),
{
    reveal(Seq::filter);
    if values.len() > 0 {
        further_values(fields, values.drop_last());
        if field_named(fields, values.last().0) is Some {
            one_more(fields, known(fields, values.drop_last()), values.last());
        }
    }
}

/// The values under names that a field has.
pub open spec fn known(
    fields: Seq<(Seq<char>, Kind)>,
    values: Seq<(Seq<char>, Json)>,
) -> Seq<(Seq<char>, Json)> {
    values.filter(|value: (Seq<char>, Json)| field_named(fields, value.0) is Some)
}

/// One more value under a name that no field has leaves those under names that one has.
pub proof fn known_insert(
    fields: Seq<(Seq<char>, Kind)>,
    values: Seq<(Seq<char>, Json)>,
    at: int,
    other: (Seq<char>, Json),
)
    requires
        0 <= at <= values.len(),
        field_named(fields, other.0) is None,
    ensures
        known(fields, values.insert(at, other)) == known(fields, values),
    decreases values.len(),
{
    reveal(Seq::filter);
    let longer = values.insert(at, other);
    if at == values.len() {
        assert(longer.drop_last() =~= values);
    } else {
        assert(longer.drop_last() =~= values.drop_last().insert(at, other));
        assert(longer.last() == values.last());
        known_insert(fields, values.drop_last(), at, other);
    }
}

/// Values whose names are all those of fields are all known.
pub proof fn all_known(fields: Seq<(Seq<char>, Kind)>, values: Seq<(Seq<char>, Json)>)
    requires
        forall|i: int|
            0 <= i < values.len() ==> field_named(fields, (#[trigger] values[i]).0) is Some,
    ensures
        known(fields, values) == values,
    decreases values.len(),
{
    reveal(Seq::filter);
    if values.len() > 0 {
        let fewer = values.drop_last();
        assert forall|i: int| 0 <= i < fewer.len() implies field_named(
            fields,
            (#[trigger] fewer[i]).0,
        ) is Some by {
            assert(fewer[i] == values[i]);
        }
        assert(values.last() == values[values.len() - 1]);
        all_known(fields, fewer);
        assert(fewer.push(values.last()) =~= values);
    } else {
        assert(known(fields, values) =~= values);
    }
}

/// A value that was written at a place is read there.
proof fn written_value(bytes: Seq<u8>, at: int, value: Json, kind: Kind)
    requires
        json::legible(value),
        accepts(kind, value),
        parts::written_at(bytes, at, value),
    ensures
        held_at(bytes, at, kind) == Ok::<HeldView, Seq<char>>(holding(kind, value)),
{
    let rest = choose|rest: Seq<u8>|
        json::ends_value(rest) && bytes.skip(at) == #[trigger] (json::json_bytes(value) + rest);
    let lead = blanked(bytes, at).take(at);
    assert(blanked(bytes, at).skip(at) =~= bytes.skip(at));
    assert(blanked(bytes, at) =~= lead + (json::json_bytes(value) + rest));
    assert(json::all_space(lead));
    assert(json::reads_as(lead + (json::json_bytes(value) + rest), value));
}

/// Members that show values fill the fields with those values.
proof fn shown_values(
    bytes: Seq<u8>,
    fields: Seq<(Seq<char>, Kind)>,
    members: Seq<MemberView>,
    values: Seq<(Seq<char>, Json)>,
)
    requires
        parts::shows(bytes, members, values),
        with_values(fields, values) is Some,
        forall|i: int|
            #![trigger values[i]]
            0 <= i < values.len() && field_named(fields, values[i].0) is Some ==> json::legible(
                values[i].1,
            ),
    ensures
        filled(bytes, fields, members) == Ok::<Seq<Option<HeldView>>, Seq<char>>(
            with_values(fields, values)->0,
        ),
    decreases values.len(),
{
    if values.len() > 0 {
        let fewer = values.drop_last();
        let others = members.drop_last();
        assert forall|i: int|
            #![trigger fewer[i]]
            0 <= i < fewer.len() && field_named(
                fields,
                fewer[i].0,
            ) is Some implies json::legible(fewer[i].1) by {
            assert(fewer[i] == values[i]);
        }
        assert(parts::shows(bytes, others, fewer)) by {
            assert forall|i: int| #![trigger others[i]] 0 <= i < others.len() implies {
                &&& others[i].name == fewer[i].0
                &&& others[i].value matches Some(at) && parts::written_at(bytes, at, fewer[i].1)
            } by {
                assert(others[i] == members[i]);
                assert(fewer[i] == values[i]);
            }
        }
        shown_values(bytes, fields, others, fewer);
        let last = values.len() - 1;
        assert(members.last() == members[last] && values.last() == values[last]);
        if let Some(i) = field_named(fields, values[last].0) {
            written_value(bytes, members[last].value->0, values[last].1, fields[i].1);
        }
    }
}

/// Whether values can be written as a text that is JSON, and those under names that a field
/// has are read back.
pub open spec fn writable(
    fields: Seq<(Seq<char>, Kind)>,
    values: Seq<(Seq<char>, Json)>,
) -> bool {
    &&& json::object_fault(encode_utf8(json::object_text(values))) is None
    &&& forall|i: int|
        #![trigger values[i]]
        0 <= i < values.len() ==> {
            &&& json::legible(Json::Text(values[i].0))
            &&& json::skippable(values[i].1)
            &&& field_named(fields, values[i].0) is Some ==> json::legible(values[i].1)
        }
}

/// Values that are read back can be written with one more that no field is named after.
pub proof fn writable_insert(
    fields: Seq<(Seq<char>, Kind)>,
    values: Seq<(Seq<char>, Json)>,
    at: int,
    other: (Seq<char>, Json),
)
    requires
        0 <= at <= values.len(),
        field_named(fields, other.0) is None,
        json::legible(Json::Text(other.0)),
        json::skippable(other.1),
        forall|i: int|
            #![trigger values[i]]
            0 <= i < values.len() ==> json::legible(Json::Text(values[i].0)) && json::legible(
                values[i].1,
            ),
        json::object_fault(encode_utf8(json::object_text(values.insert(at, other)))) is None,
    ensures
        writable(fields, values.insert(at, other)),
{
    let longer = values.insert(at, other);
    assert forall|i: int| #![trigger longer[i]] 0 <= i < longer.len() implies {
        &&& json::legible(Json::Text(longer[i].0))
        &&& json::skippable(longer[i].1)
        &&& field_named(fields, longer[i].0) is Some ==> json::legible(longer[i].1)
    } by {
        if i < at {
            assert(longer[i] == values[i]);
        } else if i > at {
            assert(longer[i] == values[i - 1]);
        }
    }
}

/// The text of an object that was written is read as the values it was written with, where
/// no field without a default is left out. Values under names that no field has are passed
/// over.
pub proof fn written_object(shape: ShapeView, values: Seq<(Seq<char>, Json)>)
    requires
        values.len() > 0,
        writable(shape.fields, values),
        with_values(shape.fields, values) matches Some(slots) && first_missing(
            slots,
            shape.required,
        ) is None,
    ensures
        read_fields(encode_utf8(json::object_text(values)), shape) == Ok::<
            Seq<Option<HeldView>>,
            Seq<char>,
        >(with_values(shape.fields, values)->0),
{
    let bytes = encode_utf8(json::object_text(values));
    parts::written_members_at(values);
    shown_values(bytes, shape.fields, parts::members_at(bytes, 0).0, values);
}

/// What a field holds is what it says.
pub proof fn held_says(held: Held)
    ensures
        match held {
            Held::Text(text) => held@ == HeldView::Text(text@),
            Held::OptionalText(Some(text)) => held@ == HeldView::OptionalText(Some(text@)),
            Held::OptionalText(None) => held@ == HeldView::OptionalText(None),
            Held::Flag(flag) => held@ == HeldView::Flag(flag),
            Held::Byte(n) => held@ == HeldView::Byte(n),
            Held::Word(n) => held@ == HeldView::Word(n),
            Held::Long(n) => held@ == HeldView::Long(n),
        },
{
}

/// Slots say what is in them, each its own.
pub proof fn slots_say(slots: Seq<Option<Held>>)
    ensures
        slots_view(slots).len() == slots.len(),
        forall|i: int|
            0 <= i < slots.len() ==> match slots[i] {
                Some(held) => (#[trigger] slots_view(slots)[i]) == Some(held@),
                None => slots_view(slots)[i] is None,
            },
{
}

/// An error says its message.
pub proof fn json_error_says(error: JsonError)
    ensures
        error@ == error.message@,
{
}

} // verus!
