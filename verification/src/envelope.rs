//! The messages envelope: the structured alternative to a plain-string prompt.
//!
//! An envelope is a JSON object under a marker key. Producers call [`build`] or
//! [`build_prompt`], consumers [`parse`], and neither spells the marker itself: a typo in
//! it would not fail, but hand the model raw JSON as a plain prompt.

use serde_json::Value;
use vstd::prelude::*;
use vstd::string::*;

use crate::json;
use crate::json::Json;

verus! {

/// The key that marks a prompt as a messages envelope.
pub const MESSAGES_ENVELOPE_KEY: &'static str = "_ovata_infer_protocol";

/// The only value of the marker key that is recognised.
pub const MESSAGES_ENVELOPE_VALUE: &'static str = "messages";

/// One turn of a conversation.
///
/// The role is free-form, and nothing here acts on it: what a role means to a model is
/// the consumer's concern.
#[derive(Debug, Clone, PartialEq, Eq)]
pub struct Message {
    pub role: String,
    pub content: String,
}

/// What a turn says.
pub struct MessageView {
    pub role: Seq<char>,
    pub content: Seq<char>,
}

impl View for Message {
    type V = MessageView;

    open spec fn view(&self) -> MessageView {
        MessageView { role: self.role@, content: self.content@ }
    }
}

/// A parsed messages envelope.
#[derive(Debug, Clone, PartialEq, Eq)]
pub struct Envelope {
    /// The system prompt; empty where the envelope left it out.
    pub system: String,
    /// The turns, in order.
    pub messages: Vec<Message>,
}

/// What an envelope says.
#[verifier::ext_equal]
pub struct EnvelopeView {
    pub system: Seq<char>,
    pub messages: Seq<MessageView>,
}

/// What a list of turns says.
pub open spec fn turns_view(messages: Seq<Message>) -> Seq<MessageView> {
    messages.map_values(|message: Message| message@)
}

impl View for Envelope {
    type V = EnvelopeView;

    open spec fn view(&self) -> EnvelopeView {
        EnvelopeView { system: self.system@, messages: turns_view(self.messages@) }
    }
}

impl Default for Envelope {
    fn default() -> (envelope: Self)
        ensures
            envelope@ == (EnvelopeView { system: Seq::empty(), messages: Seq::empty() }),
            envelope.system@.len() == 0,
            envelope.messages@.len() == 0,
    {
        let envelope = Envelope { system: String::new(), messages: Vec::new() };
        assert(envelope@.messages =~= Seq::empty());
        envelope
    }
}

/// The text of the member of that name, if it is there and is text.
pub open spec fn member_text(value: Json, name: Seq<char>) -> Option<Seq<char>> {
    match json::member(value, name) {
        Some(Json::Text(chars)) => Some(chars),
        _ => None,
    }
}

/// The text of the member of that name, or another where there is none.
pub open spec fn member_text_or(value: Json, name: Seq<char>, other: Seq<char>) -> Seq<char> {
    match member_text(value, name) {
        Some(chars) => chars,
        None => other,
    }
}

/// The turn that a JSON value spells. A turn without a role is the user's, one without
/// content is empty.
pub open spec fn read_turn(value: Json) -> MessageView {
    MessageView {
        role: member_text_or(value, "role"@, "user"@),
        content: member_text_or(value, "content"@, Seq::empty()),
    }
}

/// The envelope that a JSON value spells; `None` where it bears no marker or has no array
/// of messages.
pub open spec fn read_envelope(value: Json) -> Option<EnvelopeView> {
    if member_text(value, MESSAGES_ENVELOPE_KEY@) != Some(MESSAGES_ENVELOPE_VALUE@) {
        None
    } else {
        match json::member(value, "messages"@) {
            Some(Json::Array(turns)) => Some(
                EnvelopeView {
                    system: member_text_or(value, "system"@, Seq::empty()),
                    messages: turns.map_values(|turn: Json| read_turn(turn)),
                },
            ),
            _ => None,
        }
    }
}

/// The envelope that a prompt holds; `None` for a plain prompt.
pub open spec fn envelope_in(prompt: Seq<char>) -> Option<EnvelopeView> {
    if prompt.len() == 0 || prompt[0] != '{' {
        None
    } else {
        match json::json_from_text(prompt) {
            Some(value) => read_envelope(value),
            None => None,
        }
    }
}

/// A turn as JSON.
pub open spec fn turn_json(turn: MessageView) -> Json {
    Json::Object(
        Map::<Seq<char>, Json>::empty().insert("role"@, Json::Text(turn.role)).insert(
            "content"@,
            Json::Text(turn.content),
        ),
    )
}

/// An envelope as JSON: the marker, the system prompt unless it is empty, and the turns in
/// order.
pub open spec fn envelope_json(envelope: EnvelopeView) -> Json {
    let marked = Map::<Seq<char>, Json>::empty().insert(
        MESSAGES_ENVELOPE_KEY@,
        Json::Text(MESSAGES_ENVELOPE_VALUE@),
    );
    let opened = if envelope.system.len() == 0 {
        marked
    } else {
        marked.insert("system"@, Json::Text(envelope.system))
    };
    Json::Object(
        opened.insert(
            "messages"@,
            Json::Array(envelope.messages.map_values(|turn: MessageView| turn_json(turn))),
        ),
    )
}

/// Reads the text of a member.
fn text_member<'a>(value: &'a Value, name: &str) -> (text: Option<&'a str>)
    ensures
        match text {
            Some(s) => member_text(json::json(*value), name@) == Some(s@),
            None => member_text(json::json(*value), name@) is None,
        },
{
    match json::get(value, name) {
        Some(v) => v.as_str(),
        None => None,
    }
}

/// Reads the text of a member, or another where there is none.
fn text_member_or(value: &Value, name: &str, other: &str) -> (text: String)
    ensures
        text@ == member_text_or(json::json(*value), name@, other@),
{
    match text_member(value, name) {
        Some(s) => s.to_owned(),
        None => other.to_owned(),
    }
}

proof fn empty_literal()
    ensures
        ""@ == Seq::<char>::empty(),
{
    reveal_strlit("");
    assert(""@ =~= Seq::<char>::empty());
}

/// Parses a prompt as a messages envelope.
///
/// Returns `None` for a plain single-turn prompt, which the caller wraps as one user turn.
/// A malformed turn does not fail the request: see [`read_turn`].
pub fn parse(prompt: &str) -> (result: Option<Envelope>)
    ensures
        match result {
            Some(envelope) => envelope_in(prompt@) == Some(envelope@),
            None => envelope_in(prompt@) is None,
        },
{
    // An envelope is an object, so a prompt that opens otherwise is not parsed at all.
    if prompt.is_empty() || prompt.get_char(0) != '{' {
        return None;
    }
    match json::parse_text(prompt) {
        Some(value) => from_value(&value),
        None => None,
    }
}

/// Takes the envelope out of a JSON value. Any other JSON is no envelope.
pub fn from_value(value: &Value) -> (result: Option<Envelope>)
    ensures
        match result {
            Some(envelope) => read_envelope(json::json(*value)) == Some(envelope@),
            None => read_envelope(json::json(*value)) is None,
        },
{
    match text_member(value, MESSAGES_ENVELOPE_KEY) {
        Some(marker) => if !(marker.to_owned() == MESSAGES_ENVELOPE_VALUE.to_owned()) {
            return None;
        },
        None => return None,
    }
    let system = text_member_or(value, "system", "");
    let raw = match json::get(value, "messages") {
        Some(v) => match v.as_array() {
            Some(items) => items,
            None => return None,
        },
        None => return None,
    };
    let mut messages: Vec<Message> = Vec::new();
    let ghost turns = json::items_view(raw@);
    for i in 0..raw.len()
        invariant
            turns == json::items_view(raw@),
            messages@.len() == i,
            forall|j: int| 0 <= j < i ==> (#[trigger] messages@[j])@ == read_turn(turns[j]),
    {
        let message = Message {
            role: text_member_or(&raw[i], "role", "user"),
            content: text_member_or(&raw[i], "content", ""),
        };
        proof {
            empty_literal();
        }
        assert(turns[i as int] == json::json(raw@[i as int]));
        assert(message@ == read_turn(turns[i as int]));
        messages.push(message);
    }
    proof {
        empty_literal();
        assert(turns_view(messages@) =~= turns.map_values(|turn: Json| read_turn(turn)));
    }
    Some(Envelope { system, messages })
}

/// Builds one turn.
fn build_turn(message: &Message) -> (value: Value)
    ensures
        json::json(value) == turn_json(message@),
{
    let mut table = json::new_map();
    json::insert(&mut table, "role", json::text_value(message.role.as_str()));
    json::insert(&mut table, "content", json::text_value(message.content.as_str()));
    json::object_value(table)
}

/// Builds a messages envelope. An empty system prompt is left out.
pub fn build(system: &str, messages: &[Message]) -> (value: Value)
    ensures
        json::json(value) == envelope_json(
            EnvelopeView { system: system@, messages: turns_view(messages@) },
        ),
{
    let mut table = json::new_map();
    json::insert(&mut table, MESSAGES_ENVELOPE_KEY, json::text_value(MESSAGES_ENVELOPE_VALUE));
    if !system.is_empty() {
        json::insert(&mut table, "system", json::text_value(system));
    }
    let mut items: Vec<Value> = Vec::new();
    let ghost turns = turns_view(messages@);
    for i in 0..messages.len()
        invariant
            turns == turns_view(messages@),
            items@.len() == i,
            forall|j: int| 0 <= j < i ==> json::json(#[trigger] items@[j]) == turn_json(turns[j]),
    {
        items.push(build_turn(&messages[i]));
        assert(turns[i as int] == messages@[i as int]@);
    }
    assert(json::items_view(items@) =~= turns.map_values(|turn: MessageView| turn_json(turn)));
    json::insert(&mut table, "messages", json::array_value(items));
    json::object_value(table)
}

/// Builds a messages envelope as prompt text. [`parse`] reads back the same system prompt
/// and the same turns in the same order.
pub fn build_prompt(system: &str, messages: &[Message]) -> (prompt: String)
    ensures
        prompt@ == json::json_text(
            envelope_json(EnvelopeView { system: system@, messages: turns_view(messages@) }),
        ),
        envelope_in(prompt@) == Some(
            EnvelopeView { system: system@, messages: turns_view(messages@) },
        ),
{
    proof {
        build_round_trip(EnvelopeView { system: system@, messages: turns_view(messages@) });
    }
    json::render(&build(system, messages))
}

proof fn keys_differ()
    ensures
        MESSAGES_ENVELOPE_KEY@.len() == 21,
        "system"@.len() == 6,
        "messages"@.len() == 8,
        "role"@.len() == 4,
        "content"@.len() == 7,
{
    reveal_strlit("_ovata_infer_protocol");
    reveal_strlit("system");
    reveal_strlit("messages");
    reveal_strlit("role");
    reveal_strlit("content");
}

/// What `build` writes, `parse` reads: an envelope as JSON spells that envelope, and its
/// text is within what a reader of JSON gives back unchanged.
pub proof fn build_round_trip(envelope: EnvelopeView)
    ensures
        read_envelope(envelope_json(envelope)) == Some(envelope),
        json::reads_back(envelope_json(envelope), json::MAX_DEPTH as nat),
{
    keys_differ();
    let turns = envelope.messages.map_values(|turn: MessageView| turn_json(turn));
    assert forall|i: int| 0 <= i < turns.len() implies read_turn(#[trigger] turns[i])
        == envelope.messages[i] && json::reads_back(turns[i], 125) by {
        let turn = envelope.messages[i];
        let table = turn_json(turn)->Object_0;
        assert(json::member(turn_json(turn), "role"@) == Some(Json::Text(turn.role)));
        assert forall|name: Seq<char>| table.contains_key(name) implies json::reads_back(
            #[trigger] table[name],
            124,
        ) by {}
    }
    assert(turns.map_values(|turn: Json| read_turn(turn)) =~= envelope.messages);
    assert(json::reads_back(Json::Array(turns), 126));
    let table = envelope_json(envelope)->Object_0;
    assert forall|name: Seq<char>| table.contains_key(name) implies json::reads_back(
        #[trigger] table[name],
        126,
    ) by {}
    assert(read_envelope(envelope_json(envelope))->Some_0.system =~= envelope.system);
}

/// The system prompt is written exactly where it is not empty.
pub proof fn empty_system_is_omitted(envelope: EnvelopeView)
    ensures
        json::member(envelope_json(envelope), "system"@) is None <==> envelope.system.len() == 0,
{
    keys_differ();
}

/// No turn, however malformed, fails an envelope that bears the marker and an array of
/// messages: there are as many turns as items, in the same order.
pub proof fn malformed_turns_degrade(table: Map<Seq<char>, Json>, turns: Seq<Json>)
    requires
        table.contains_key(MESSAGES_ENVELOPE_KEY@),
        table[MESSAGES_ENVELOPE_KEY@] == Json::Text(MESSAGES_ENVELOPE_VALUE@),
        table.contains_key("messages"@),
        table["messages"@] == Json::Array(turns),
    ensures
        read_envelope(Json::Object(table)) matches Some(envelope) && envelope.messages.len()
            == turns.len() && forall|i: int|
            0 <= i < turns.len() ==> #[trigger] envelope.messages[i] == read_turn(turns[i]),
{
}

/// A turn says what it holds.
pub proof fn message_says(message: Message)
    ensures
        message@.role == message.role@,
        message@.content == message.content@,
{
}

/// An envelope says what it holds: its system prompt, and its turns in order.
pub proof fn envelope_says(envelope: Envelope)
    ensures
        envelope@.system == envelope.system@,
        envelope@.messages.len() == envelope.messages@.len(),
        forall|i: int|
            0 <= i < envelope.messages@.len() ==> (#[trigger] envelope@.messages[i]).role
                == envelope.messages@[i].role@ && envelope@.messages[i].content
                == envelope.messages@[i].content@,
{
}

/// A list of turns says what they say, in order.
pub proof fn turns_say(messages: Seq<Message>)
    ensures
        turns_view(messages).len() == messages.len(),
        forall|i: int|
            0 <= i < messages.len() ==> (#[trigger] turns_view(messages)[i]).role
                == messages[i].role@ && turns_view(messages)[i].content == messages[i].content@,
{
}

/// Whether a value is an object in which that text stands under that name.
pub open spec fn has_text(value: Json, name: Seq<char>, text: Seq<char>) -> bool {
    value matches Json::Object(table) && table.contains_key(name) && table[name] == Json::Text(text)
}

/// Whether a value is an object in which an array of these items stands under that name.
pub open spec fn has_items(value: Json, name: Seq<char>, items: Seq<Json>) -> bool {
    value matches Json::Object(table) && table.contains_key(name) && table[name] == Json::Array(
        items,
    )
}

/// A prompt that opens otherwise than with a brace, or is no JSON, is plain.
pub proof fn plain_prompts(prompt: Seq<char>)
    requires
        prompt.len() == 0 || prompt[0] != '{' || json::json_from_text(prompt) is None,
    ensures
        envelope_in(prompt) is None,
{
}

/// A prompt that opens with a brace and is read as a value is an envelope exactly where that
/// value bears the marker and an array of messages.
pub proof fn marked_prompts_are_envelopes(prompt: Seq<char>, value: Json)
    requires
        prompt.len() > 0,
        prompt[0] == '{',
        json::json_from_text(prompt) == Some(value),
    ensures
        envelope_in(prompt) is Some <==> (has_text(
            value,
            "_ovata_infer_protocol"@,
            "messages"@,
        ) && exists|items: Seq<Json>| has_items(value, "messages"@, items)),
{
    if let Json::Object(table) = value {
        if table.contains_key("messages"@) {
            if let Json::Array(items) = table["messages"@] {
                assert(has_items(value, "messages"@, items));
            }
        }
    }
}

/// The system prompt of an envelope is the text under "system", however the prompt is spaced
/// or ordered; it is empty only where there is none.
pub proof fn system_is_what_stands_there(prompt: Seq<char>, value: Json)
    requires
        json::json_from_text(prompt) == Some(value),
    ensures
        envelope_in(prompt) matches Some(envelope) ==> {
            &&& forall|text: Seq<char>| #[trigger]
                has_text(value, "system"@, text) ==> envelope.system == text
            &&& (forall|text: Seq<char>| !#[trigger] has_text(value, "system"@, text))
                ==> envelope.system.len() == 0
        },
{
    if envelope_in(prompt) is Some {
        if let Json::Object(table) = value {
            if table.contains_key("system"@) {
                if let Json::Text(text) = table["system"@] {
                    assert(has_text(value, "system"@, text));
                }
            }
        }
    }
}

/// The turns of an envelope are those under "messages", in order: each has the text under
/// "role", or "user" where there is none, and the text under "content", or nothing.
pub proof fn turns_are_what_stands_there(prompt: Seq<char>, value: Json, items: Seq<Json>)
    requires
        json::json_from_text(prompt) == Some(value),
        has_items(value, "messages"@, items),
    ensures
        envelope_in(prompt) matches Some(envelope) ==> {
            &&& envelope.messages.len() == items.len()
            &&& forall|i: int, text: Seq<char>|
                0 <= i < items.len() && #[trigger] has_text(items[i], "role"@, text)
                    ==> envelope.messages[i].role == text
            &&& forall|i: int|
                0 <= i < items.len() && (forall|text: Seq<char>|
                    !#[trigger] has_text(items[i], "role"@, text)) ==> (
                #[trigger] envelope.messages[i]).role == "user"@
            &&& forall|i: int, text: Seq<char>|
                0 <= i < items.len() && #[trigger] has_text(items[i], "content"@, text)
                    ==> envelope.messages[i].content == text
            &&& forall|i: int|
                0 <= i < items.len() && (forall|text: Seq<char>|
                    !#[trigger] has_text(items[i], "content"@, text)) ==> (
                #[trigger] envelope.messages[i]).content.len() == 0
        },
{
    if let Some(envelope) = envelope_in(prompt) {
        assert forall|i: int| 0 <= i < items.len() implies envelope.messages[i] == read_turn(
            #[trigger] items[i],
        ) by {}
        assert forall|i: int|
            0 <= i < items.len() && (forall|text: Seq<char>|
                !#[trigger] has_text(items[i], "role"@, text)) implies (
        #[trigger] envelope.messages[i]).role == "user"@ by {
            if let Some(text) = member_text(items[i], "role"@) {
                assert(has_text(items[i], "role"@, text));
            }
        }
        assert forall|i: int|
            0 <= i < items.len() && (forall|text: Seq<char>|
                !#[trigger] has_text(items[i], "content"@, text)) implies (
        #[trigger] envelope.messages[i]).content.len() == 0 by {
            if let Some(text) = member_text(items[i], "content"@) {
                assert(has_text(items[i], "content"@, text));
            }
        }
    }
}

/// Two prompts that open with a brace and are read as one value are one envelope, or neither
/// is any.
pub proof fn spelling_changes_nothing(one: Seq<char>, other: Seq<char>)
    requires
        one.len() > 0,
        other.len() > 0,
        one[0] == '{',
        other[0] == '{',
        json::json_from_text(one) == json::json_from_text(other),
    ensures
        envelope_in(one) == envelope_in(other),
{
}

/// What is read of a value as an envelope is what is read of a prompt that is read as that
/// value.
pub proof fn values_and_prompts_agree(prompt: Seq<char>, value: Json)
    requires
        prompt.len() > 0,
        prompt[0] == '{',
        json::json_from_text(prompt) == Some(value),
    ensures
        read_envelope(value) == envelope_in(prompt),
{
}

/// What is built has the marker, the turns in order, each with its own role and content, and
/// the system prompt unless it is empty; and nothing else.
pub proof fn built_members(envelope: EnvelopeView)
    ensures
        envelope_json(envelope) is Object,
        forall|name: Seq<char>| #[trigger]
            envelope_json(envelope)->Object_0.contains_key(name) <==> (name
                == "_ovata_infer_protocol"@ || name == "messages"@ || name == "system"@
                && envelope.system.len() > 0),
        has_text(envelope_json(envelope), "_ovata_infer_protocol"@, "messages"@),
        envelope.system.len() > 0 ==> has_text(
            envelope_json(envelope),
            "system"@,
            envelope.system,
        ),
        exists|items: Seq<Json>| #[trigger]
            has_items(envelope_json(envelope), "messages"@, items) && items.len()
                == envelope.messages.len() && forall|i: int|
                #![trigger items[i]]
                0 <= i < items.len() ==> {
                    &&& items[i] is Object
                    &&& has_text(items[i], "role"@, envelope.messages[i].role)
                    &&& has_text(items[i], "content"@, envelope.messages[i].content)
                    &&& forall|name: Seq<char>| #[trigger]
                        items[i]->Object_0.contains_key(name) <==> (name == "role"@ || name
                            == "content"@)
                },
{
    keys_differ();
    let items = envelope.messages.map_values(|turn: MessageView| turn_json(turn));
    assert(has_items(envelope_json(envelope), "messages"@, items));
    assert forall|i: int| #![trigger items[i]] 0 <= i < items.len() implies {
        &&& items[i] is Object
        &&& has_text(items[i], "role"@, envelope.messages[i].role)
        &&& has_text(items[i], "content"@, envelope.messages[i].content)
        &&& forall|name: Seq<char>| #[trigger]
            items[i]->Object_0.contains_key(name) <==> (name == "role"@ || name == "content"@)
    } by {
        assert(items[i] == turn_json(envelope.messages[i]));
    }
}

} // verus!
