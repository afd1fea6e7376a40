//! Request side of the wire protocol: what a caller asks of a provider.
//!
//! On a byte stream a request is `[4-byte little-endian length][JSON body]`. A transport
//! that keeps message boundaries itself carries the body alone. Most fields have a
//! default, so that older and simpler callers can leave them out.

use serde_json::Value;
use vstd::prelude::*;
use vstd::slice::slice_subrange;
use vstd::string::*;
use vstd::utf8::*;

use crate::json;
use crate::json::Json;
use crate::parts::MemberView;
use crate::place;
use crate::record;
use crate::record::{Arity, Held, HeldView, JsonError, Kind, Shape, ShapeView};
use crate::spelled;
use crate::spelled::{Item, Spelled};
use crate::wire;

pub mod trust;

verus! {

/// One inference request.
#[derive(Debug, Clone)]
pub struct InferenceRequest {
    pub prompt: String,
    pub model: String,
    pub max_tokens: u32,
    /// GBNF grammar for constrained decoding; none leaves decoding unconstrained.
    pub grammar: Option<String>,
    /// The string after which the grammar applies; none applies it from the first token.
    pub anchor: Option<String>,
    /// The string at which the grammar ends. It is not passed on, and inference goes on
    /// freely; none applies the grammar through the last token.
    pub stop_anchor: Option<String>,
    /// Count the prompt's tokens and generate nothing.
    pub count_only: bool,
    /// Report the total token count so far, without touching the model.
    pub stats_only: bool,
    /// Report [`crate::Health`], as one `Json` frame and then `Done`, without touching
    /// the model.
    pub health_only: bool,
    /// Pass the `stop_anchor` on, exactly once where the span closes, so that a client
    /// can find the span's end in the text.
    pub keep_anchors: bool,
    /// Where the prompt came from: see [`trust`].
    pub trust: u8,
    /// The prompt carries a JSON payload, an upload or a query over stored context,
    /// instead of text.
    pub rlm: bool,
}

/// What a request says.
#[verifier::ext_equal]
pub struct RequestView {
    pub prompt: Seq<char>,
    pub model: Seq<char>,
    pub max_tokens: u32,
    pub grammar: Option<Seq<char>>,
    pub anchor: Option<Seq<char>>,
    pub stop_anchor: Option<Seq<char>>,
    pub count_only: bool,
    pub stats_only: bool,
    pub health_only: bool,
    pub keep_anchors: bool,
    pub trust: u8,
    pub rlm: bool,
}

impl View for InferenceRequest {
    type V = RequestView;

    open spec fn view(&self) -> RequestView {
        RequestView {
            prompt: self.prompt@,
            model: self.model@,
            max_tokens: self.max_tokens,
            grammar: json::optional_view(self.grammar),
            anchor: json::optional_view(self.anchor),
            stop_anchor: json::optional_view(self.stop_anchor),
            count_only: self.count_only,
            stats_only: self.stats_only,
            health_only: self.health_only,
            keep_anchors: self.keep_anchors,
            trust: self.trust,
            rlm: self.rlm,
        }
    }
}

/// The request in which every field has its default.
pub open spec fn default_request() -> RequestView {
    RequestView {
        prompt: Seq::empty(),
        model: Seq::empty(),
        max_tokens: 0,
        grammar: None,
        anchor: None,
        stop_anchor: None,
        count_only: false,
        stats_only: false,
        health_only: false,
        keep_anchors: false,
        trust: trust::TRUSTED,
        rlm: false,
    }
}

impl Default for InferenceRequest {
    fn default() -> (request: Self)
        ensures
            request@ == default_request(),
            request.prompt@.len() == 0,
            request.model@.len() == 0,
            request.max_tokens == 0,
            request.grammar is None,
            request.anchor is None,
            request.stop_anchor is None,
            !request.count_only,
            !request.stats_only,
            !request.health_only,
            !request.keep_anchors,
            request.trust == 0,
            !request.rlm,
    {
        InferenceRequest {
            prompt: String::new(),
            model: String::new(),
            max_tokens: 0,
            grammar: None,
            anchor: None,
            stop_anchor: None,
            count_only: false,
            stats_only: false,
            health_only: false,
            keep_anchors: false,
            trust: trust::TRUSTED,
            rlm: false,
        }
    }
}

/// Why a buffer holds no request.
#[derive(Debug)]
pub enum RequestDecodeError {
    /// The request has not arrived whole.
    Incomplete,
    /// The body is not a request.
    Json(JsonError),
}

/// What a request error says.
pub enum RequestDecodeErrorView {
    Incomplete,
    Json(Seq<char>),
}

impl View for RequestDecodeError {
    type V = RequestDecodeErrorView;

    open spec fn view(&self) -> RequestDecodeErrorView {
        match self {
            RequestDecodeError::Incomplete => RequestDecodeErrorView::Incomplete,
            RequestDecodeError::Json(e) => RequestDecodeErrorView::Json(e@),
        }
    }
}

impl RequestDecodeErrorView {
    /// The error in words.
    pub open spec fn message(self) -> Seq<char> {
        match self {
            RequestDecodeErrorView::Incomplete => "incomplete request buffer"@,
            RequestDecodeErrorView::Json(e) => "JSON decode: "@ + e,
        }
    }
}

impl RequestDecodeError {
    /// Says the error in words.
    pub fn message(&self) -> (text: String)
        ensures
            text@ == self@.message(),
    {
        match self {
            RequestDecodeError::Incomplete => "incomplete request buffer".to_owned(),
            RequestDecodeError::Json(e) => {
                let mut text = "JSON decode: ".to_owned();
                text.append(e.message().as_str());
                text
            },
        }
    }
}

/// An optional text as JSON, null for none.
pub open spec fn optional_json(text: Option<Seq<char>>) -> Json {
    match text {
        Some(chars) => Json::Text(chars),
        None => Json::Null,
    }
}

/// The fields, and one more if there is a text for it.
pub open spec fn push_some(
    fields: Seq<(Seq<char>, Json)>,
    name: Seq<char>,
    text: Option<Seq<char>>,
) -> Seq<(Seq<char>, Json)> {
    match text {
        Some(chars) => fields.push((name, Json::Text(chars))),
        None => fields,
    }
}

impl RequestView {
    /// The fields of the JSON body, in order. An anchor that is none is left out; a
    /// grammar that is none is null.
    pub open spec fn fields(self) -> Seq<(Seq<char>, Json)> {
        let head = Seq::empty().push(("prompt"@, Json::Text(self.prompt))).push(
            ("model"@, Json::Text(self.model)),
        ).push(("max_tokens"@, Json::Integer(self.max_tokens as int))).push(
            ("grammar"@, optional_json(self.grammar)),
        );
        let anchored = push_some(
            push_some(head, "anchor"@, self.anchor),
            "stop_anchor"@,
            self.stop_anchor,
        );
        anchored.push(("count_only"@, Json::Bool(self.count_only))).push(
            ("stats_only"@, Json::Bool(self.stats_only)),
        ).push(("health_only"@, Json::Bool(self.health_only))).push(
            ("keep_anchors"@, Json::Bool(self.keep_anchors)),
        ).push(("trust"@, Json::Integer(self.trust as int))).push(("rlm"@, Json::Bool(self.rlm)))
    }

    /// The JSON body of the request.
    pub open spec fn body(self) -> Seq<u8> {
        encode_utf8(json::object_text(self.fields()))
    }

    /// The request on a byte stream.
    pub open spec fn encoded(self) -> Seq<u8> {
        prefixed(self.body())
    }
}

/// A body behind its length. The prefix holds the low 32 bits of it.
pub open spec fn prefixed(body: Seq<u8>) -> Seq<u8> {
    wire::le32(body.len() % 0x1_0000_0000) + body
}

/// What a request looks like.
pub open spec fn request_shape() -> ShapeView {
    ShapeView {
        title: "struct InferenceRequest"@,
        extent: "struct InferenceRequest with 12 elements"@,
        fields: seq![
            ("prompt"@, Kind::Text),
            ("model"@, Kind::Text),
            ("max_tokens"@, Kind::Word),
            ("grammar"@, Kind::OptionalText),
            ("anchor"@, Kind::OptionalText),
            ("stop_anchor"@, Kind::OptionalText),
            ("count_only"@, Kind::Flag),
            ("stats_only"@, Kind::Flag),
            ("health_only"@, Kind::Flag),
            ("keep_anchors"@, Kind::Flag),
            ("trust"@, Kind::Byte),
            ("rlm"@, Kind::Flag),
        ],
        required: 3,
        arity: Arity::Twelve,
    }
}

/// The request whose fields hold what is in the slots, and their defaults where nothing is.
pub open spec fn request_of(slots: Seq<Option<HeldView>>) -> RequestView {
    RequestView {
        prompt: record::text_of(record::slot(slots, 0)),
        model: record::text_of(record::slot(slots, 1)),
        max_tokens: record::word_of(record::slot(slots, 2)),
        grammar: record::optional_text_of(record::slot(slots, 3)),
        anchor: record::optional_text_of(record::slot(slots, 4)),
        stop_anchor: record::optional_text_of(record::slot(slots, 5)),
        count_only: record::flag_of(record::slot(slots, 6)),
        stats_only: record::flag_of(record::slot(slots, 7)),
        health_only: record::flag_of(record::slot(slots, 8)),
        keep_anchors: record::flag_of(record::slot(slots, 9)),
        trust: record::byte_of(record::slot(slots, 10)),
        rlm: record::flag_of(record::slot(slots, 11)),
    }
}

/// The request that a JSON body spells, or what is wrong with it first. Members that no
/// field is named after count for nothing.
pub open spec fn read_body(body: Seq<u8>) -> Result<RequestView, Seq<char>> {
    match record::read_fields(body, request_shape()) {
        Ok(slots) => Ok(request_of(slots)),
        Err(e) => Err(e),
    }
}

/// The body length that a prefix of four bytes declares.
pub open spec fn declared_len(buf: Seq<u8>) -> nat {
    wire::value32(buf.subrange(0, 4))
}

/// The body of the first request of a buffer; `None` where it has not arrived whole.
pub open spec fn body_of(buf: Seq<u8>) -> Option<Seq<u8>> {
    if buf.len() < 4 || buf.len() < 4 + declared_len(buf) {
        None
    } else {
        Some(buf.subrange(4, 4 + declared_len(buf) as int))
    }
}

/// The first request of a buffer, or why there is none.
pub open spec fn decoded(buf: Seq<u8>) -> Result<RequestView, RequestDecodeErrorView> {
    match body_of(buf) {
        None => Err(RequestDecodeErrorView::Incomplete),
        Some(body) => match read_body(body) {
            Ok(request) => Ok(request),
            Err(e) => Err(RequestDecodeErrorView::Json(e)),
        },
    }
}

impl InferenceRequest {
    /// Encodes the JSON body alone, for a transport that keeps message boundaries itself.
    ///
    /// This always succeeds, and [`decode_body`](Self::decode_body) reads the request back.
    pub fn encode_body(&self) -> (result: Result<Vec<u8>, serde_json::Error>)
        ensures
            result is Ok,
            result matches Ok(body) ==> body@ == self@.body(),
            result matches Ok(body) ==> read_body(body@) == Ok::<RequestView, Seq<char>>(self@),
    {
        let mut fields: Vec<(String, Value)> = Vec::new();
        assert(json::fields_view(fields@) =~= Seq::empty());
        record::push_field(&mut fields, "prompt", json::text_value(self.prompt.as_str()));
        record::push_field(&mut fields, "model", json::text_value(self.model.as_str()));
        record::push_field(&mut fields, "max_tokens", json::number_value(self.max_tokens as u64));
        match &self.grammar {
            Some(text) => {
                record::push_field(&mut fields, "grammar", json::text_value(text.as_str()))
            },
            None => record::push_field(&mut fields, "grammar", json::null_value()),
        }
        if let Some(text) = &self.anchor {
            record::push_field(&mut fields, "anchor", json::text_value(text.as_str()));
        }
        if let Some(text) = &self.stop_anchor {
            record::push_field(&mut fields, "stop_anchor", json::text_value(text.as_str()));
        }
        record::push_field(&mut fields, "count_only", json::flag_value(self.count_only));
        record::push_field(&mut fields, "stats_only", json::flag_value(self.stats_only));
        record::push_field(&mut fields, "health_only", json::flag_value(self.health_only));
        record::push_field(&mut fields, "keep_anchors", json::flag_value(self.keep_anchors));
        record::push_field(&mut fields, "trust", json::number_value(self.trust as u64));
        record::push_field(&mut fields, "rlm", json::flag_value(self.rlm));
        assert(json::fields_view(fields@) == self@.fields());
        proof {
            fields_round_trip(self@);
        }
        let body = json::write_object(&fields)?;
        proof {
            record::written_object(request_shape(), self@.fields());
        }
        Ok(body)
    }

    /// Encodes the request for a byte stream: the body behind its length.
    ///
    /// This always succeeds. [`decode`](Self::decode) reads the request back, whatever
    /// follows it on the stream, unless the body takes 4 GiB or more: the length then
    /// does not fit the prefix, which holds its low 32 bits.
    pub fn encode(&self) -> (result: Result<Vec<u8>, serde_json::Error>)
        ensures
            result is Ok,
            result matches Ok(bytes) ==> bytes@ == self@.encoded(),
            result matches Ok(bytes) ==> (self@.body().len() <= u32::MAX ==> forall|rest: Seq<u8>|
                #[trigger] decoded(bytes@ + rest) == Ok::<RequestView, RequestDecodeErrorView>(
                    self@,
                )),
            result matches Ok(bytes) ==> bytes@ == length_bytes(self@.body().len())
                + self@.body(),
    {
        proof {
            prefixed_bytes(self@.body());
        }
        let body = self.encode_body()?;
        let mut buf: Vec<u8> = Vec::with_capacity(body.len());
        wire::push_le32(&mut buf, (body.len() as u64 % 0x1_0000_0000) as u32);
        wire::push_bytes(&mut buf, body.as_slice());
        assert(buf@ =~= self@.encoded());
        proof {
            if body@.len() <= u32::MAX {
                assert forall|rest: Seq<u8>| #[trigger] decoded(buf@ + rest) == Ok::<
                    RequestView,
                    RequestDecodeErrorView,
                >(self@) by {
                    prefix_round_trip(body@, rest);
                }
            }
        }
        Ok(buf)
    }

    /// Decodes the first request of a buffer. What follows it, such as the start of the
    /// next request, is not read.
    pub fn decode(buf: &[u8]) -> (result: Result<Self, RequestDecodeError>)
        ensures
            match result {
                Ok(request) => decoded(buf@) == Ok::<RequestView, RequestDecodeErrorView>(request@),
                Err(e) => decoded(buf@) == Err::<RequestView, RequestDecodeErrorView>(e@),
            },
            (result matches Err(RequestDecodeError::Incomplete)) == (buf@.len() < 4 || buf@.len()
                < 4 + buf@[0] + 256 * buf@[1] + 65536 * buf@[2] + 16777216 * buf@[3]),
    {
        proof {
            body_is_found(buf@);
        }
        if buf.len() < 4 {
            return Err(RequestDecodeError::Incomplete);
        }
        let len = wire::read_le32(slice_subrange(buf, 0, 4)) as usize;
        if buf.len() - 4 < len {
            return Err(RequestDecodeError::Incomplete);
        }
        match Self::decode_body(slice_subrange(buf, 4, 4 + len)) {
            Ok(request) => Ok(request),
            Err(e) => Err(RequestDecodeError::Json(e)),
        }
    }

    /// Decodes a JSON body that stands alone. A request that still has its prefix is none, as
    /// long as the body takes less than 16 MiB: the prefix then ends in a zero, and JSON has
    /// none. (With a longer body the prefix may hold other bytes.)
    pub fn decode_body(body: &[u8]) -> (result: Result<Self, JsonError>)
        ensures
            match result {
                Ok(request) => read_body(body@) == Ok::<RequestView, Seq<char>>(request@),
                Err(e) => read_body(body@) == Err::<RequestView, Seq<char>>(e@),
            },
            body@.contains(0u8) ==> result is Err,
            forall|r: RequestView|
                #![trigger r.encoded()]
                body@ == r.encoded() && r.body().len() < 0x100_0000 ==> result is Err,
    {
        proof {
            assert forall|r: RequestView|
                #![trigger r.encoded()]
                body@ == r.encoded() && r.body().len() < 0x100_0000 implies body@.contains(
                0u8,
            ) by {
                short_prefix_holds_zero(r.body());
            }
        }
        match record::read(body, &shape()) {
            Ok(slots) => Ok(Self::from_slots(&slots)),
            Err(e) => Err(e),
        }
    }

    /// Takes the request out of what was read into its fields, in the order in which they are
    /// declared. A field into which nothing was read has its default.
    pub fn from_slots(slots: &Vec<Option<Held>>) -> (request: Self)
        ensures
            request@ == request_of(record::slots_view(slots@)),
            slots@.len() > 0 ==> (slots@[0] matches Some(Held::Text(v)) ==> request.prompt@ == v@),
            slots@.len() <= 0 || slots@[0] is None ==> request.prompt@.len() == 0,
            slots@.len() > 1 ==> (slots@[1] matches Some(Held::Text(v)) ==> request.model@ == v@),
            slots@.len() <= 1 || slots@[1] is None ==> request.model@.len() == 0,
            slots@.len() > 2 ==> (slots@[2] matches Some(Held::Word(v))
                ==> request.max_tokens == v),
            slots@.len() <= 2 || slots@[2] is None ==> request.max_tokens == 0,
            slots@.len() > 3 ==> (slots@[3] matches Some(Held::OptionalText(v))
                ==> json::optional_view(request.grammar) == json::optional_view(v)),
            slots@.len() <= 3 || slots@[3] is None ==> request.grammar is None,
            slots@.len() > 4 ==> (slots@[4] matches Some(Held::OptionalText(v))
                ==> json::optional_view(request.anchor) == json::optional_view(v)),
            slots@.len() <= 4 || slots@[4] is None ==> request.anchor is None,
            slots@.len() > 5 ==> (slots@[5] matches Some(Held::OptionalText(v))
                ==> json::optional_view(request.stop_anchor) == json::optional_view(v)),
            slots@.len() <= 5 || slots@[5] is None ==> request.stop_anchor is None,
            slots@.len() > 6 ==> (slots@[6] matches Some(Held::Flag(v))
                ==> request.count_only == v),
            slots@.len() <= 6 || slots@[6] is None ==> !request.count_only,
            slots@.len() > 7 ==> (slots@[7] matches Some(Held::Flag(v))
                ==> request.stats_only == v),
            slots@.len() <= 7 || slots@[7] is None ==> !request.stats_only,
            slots@.len() > 8 ==> (slots@[8] matches Some(Held::Flag(v))
                ==> request.health_only == v),
            slots@.len() <= 8 || slots@[8] is None ==> !request.health_only,
            slots@.len() > 9 ==> (slots@[9] matches Some(Held::Flag(v))
                ==> request.keep_anchors == v),
            slots@.len() <= 9 || slots@[9] is None ==> !request.keep_anchors,
            slots@.len() > 10 ==> (slots@[10] matches Some(Held::Byte(v)) ==> request.trust == v),
            slots@.len() <= 10 || slots@[10] is None ==> request.trust == 0,
            slots@.len() > 11 ==> (slots@[11] matches Some(Held::Flag(v)) ==> request.rlm == v),
            slots@.len() <= 11 || slots@[11] is None ==> !request.rlm,
    {
        proof {
            slots_are_fields(record::slots_view(slots@));
            record::slots_say(slots@);
        }
        InferenceRequest {
            prompt: record::take_text(slots, 0),
            model: record::take_text(slots, 1),
            max_tokens: record::take_word(slots, 2),
            grammar: record::take_optional_text(slots, 3),
            anchor: record::take_optional_text(slots, 4),
            stop_anchor: record::take_optional_text(slots, 5),
            count_only: record::take_flag(slots, 6),
            stats_only: record::take_flag(slots, 7),
            health_only: record::take_flag(slots, 8),
            keep_anchors: record::take_flag(slots, 9),
            trust: record::take_byte(slots, 10),
            rlm: record::take_flag(slots, 11),
        }
    }
}

/// Builds the shape of a request.
fn shape() -> (shape: Shape)
    ensures
        shape@ == request_shape(),
{
    let mut fields: Vec<(&'static str, Kind)> = Vec::new();
    fields.push(("prompt", Kind::Text));
    fields.push(("model", Kind::Text));
    fields.push(("max_tokens", Kind::Word));
    fields.push(("grammar", Kind::OptionalText));
    fields.push(("anchor", Kind::OptionalText));
    fields.push(("stop_anchor", Kind::OptionalText));
    fields.push(("count_only", Kind::Flag));
    fields.push(("stats_only", Kind::Flag));
    fields.push(("health_only", Kind::Flag));
    fields.push(("keep_anchors", Kind::Flag));
    fields.push(("trust", Kind::Byte));
    fields.push(("rlm", Kind::Flag));
    let shape = Shape {
        title: "struct InferenceRequest",
        extent: "struct InferenceRequest with 12 elements",
        fields,
        required: 3,
        arity: Arity::Twelve,
    };
    assert(shape@.fields =~= request_shape().fields);
    shape
}

/// A body whose length fits the prefix is found again behind it, whatever follows.
pub proof fn prefix_round_trip(body: Seq<u8>, rest: Seq<u8>)
    requires
        body.len() <= u32::MAX,
    ensures
        body_of(prefixed(body) + rest) == Some(body),
{
    let prefix = prefix_of(body);
    body_behind_prefix(prefix, body, rest);
}

/// The prefix of a body whose length fits it.
#[verifier::spinoff_prover]
proof fn prefix_of(body: Seq<u8>) -> (prefix: Seq<u8>)
    requires
        body.len() <= u32::MAX,
    ensures
        prefix.len() == 4,
        wire::value32(prefix) == body.len(),
        prefixed(body) == prefix + body,
{
    wire::le32_round_trip(body.len() % 0x1_0000_0000, Seq::empty());
    wire::le32(body.len() % 0x1_0000_0000)
}

proof fn body_behind_prefix(prefix: Seq<u8>, body: Seq<u8>, rest: Seq<u8>)
    requires
        prefix.len() == 4,
        wire::value32(prefix) == body.len(),
    ensures
        body_of(prefix + body + rest) == Some(body),
{
    let buf = prefix + body + rest;
    assert(buf.subrange(0, 4) =~= prefix);
    assert(buf.subrange(4, 4 + body.len() as int) =~= body);
}

/// A request that has not arrived whole is incomplete, wherever it was cut.
pub proof fn cut_request_is_incomplete(body: Seq<u8>, cut: int)
    requires
        body.len() <= u32::MAX,
        0 <= cut < prefixed(body).len(),
    ensures
        decoded(prefixed(body).take(cut)) == Err::<RequestView, RequestDecodeErrorView>(
            RequestDecodeErrorView::Incomplete,
        ),
{
    let prefix = prefix_of(body);
    cut_behind_prefix(prefix, body, cut);
}

proof fn cut_behind_prefix(prefix: Seq<u8>, body: Seq<u8>, cut: int)
    requires
        prefix.len() == 4,
        wire::value32(prefix) == body.len(),
        0 <= cut < 4 + body.len(),
    ensures
        body_of((prefix + body).take(cut)) is None,
{
    if cut >= 4 {
        assert((prefix + body).take(cut).subrange(0, 4) =~= prefix);
    }
}

/// Bytes that arrive later change nothing of an answer other than "incomplete".
pub proof fn later_bytes_change_nothing(buf: Seq<u8>, later: Seq<u8>)
    ensures
        decoded(buf) != Err::<RequestView, RequestDecodeErrorView>(
            RequestDecodeErrorView::Incomplete,
        ) ==> decoded(buf + later) == decoded(buf),
{
    if body_of(buf) is Some {
        assert((buf + later).subrange(0, 4) =~= buf.subrange(0, 4));
        let end = 4 + declared_len(buf) as int;
        assert((buf + later).subrange(4, end) =~= buf.subrange(4, end));
    }
}

/// The prefix of a body of less than 16 MiB ends in a zero.
#[verifier::spinoff_prover]
pub proof fn short_prefix_holds_zero(body: Seq<u8>)
    requires
        body.len() < 0x100_0000,
    ensures
        prefixed(body).contains(0u8),
{
    assert(prefixed(body)[3] == 0);
}

/// A field with a default has it wherever the body leaves the field out.
pub proof fn absent_fields_have_defaults(bytes: Seq<u8>, members: Seq<MemberView>)
    ensures
        record::filled(bytes, request_shape().fields, members) matches Ok(slots) ==> {
            let read = request_of(slots);
            let plain = default_request();
            &&& record::lacks(members, "grammar"@) ==> read.grammar == plain.grammar
            &&& record::lacks(members, "anchor"@) ==> read.anchor == plain.anchor
            &&& record::lacks(members, "stop_anchor"@) ==> read.stop_anchor == plain.stop_anchor
            &&& record::lacks(members, "count_only"@) ==> read.count_only == plain.count_only
            &&& record::lacks(members, "stats_only"@) ==> read.stats_only == plain.stats_only
            &&& record::lacks(members, "health_only"@) ==> read.health_only == plain.health_only
            &&& record::lacks(members, "keep_anchors"@) ==> read.keep_anchors == plain.keep_anchors
            &&& record::lacks(members, "trust"@) ==> read.trust == plain.trust
            &&& record::lacks(members, "rlm"@) ==> read.rlm == plain.rlm
        },
{
    let fields = request_shape().fields;
    if record::lacks(members, "grammar"@) {
        record::absent_field(bytes, fields, members, 3);
    }
    if record::lacks(members, "anchor"@) {
        record::absent_field(bytes, fields, members, 4);
    }
    if record::lacks(members, "stop_anchor"@) {
        record::absent_field(bytes, fields, members, 5);
    }
    if record::lacks(members, "count_only"@) {
        record::absent_field(bytes, fields, members, 6);
    }
    if record::lacks(members, "stats_only"@) {
        record::absent_field(bytes, fields, members, 7);
    }
    if record::lacks(members, "health_only"@) {
        record::absent_field(bytes, fields, members, 8);
    }
    if record::lacks(members, "keep_anchors"@) {
        record::absent_field(bytes, fields, members, 9);
    }
    if record::lacks(members, "trust"@) {
        record::absent_field(bytes, fields, members, 10);
    }
    if record::lacks(members, "rlm"@) {
        record::absent_field(bytes, fields, members, 11);
    }
}

/// A closed object with the three fields that have no default, and none of the others, is a
/// request, unless something follows it.
pub proof fn three_fields_suffice(
    bytes: Seq<u8>,
    members: Seq<MemberView>,
    end: int,
    prompt: Seq<char>,
    model: Seq<char>,
    max_tokens: u32,
)
    requires
        record::filled(bytes, request_shape().fields, members) matches Ok(slots) && slots[0]
            == Some(HeldView::Text(prompt)) && slots[1] == Some(HeldView::Text(model)) && slots[2]
            == Some(HeldView::Word(max_tokens)),
        record::lacks(members, "grammar"@),
        record::lacks(members, "anchor"@),
        record::lacks(members, "stop_anchor"@),
        record::lacks(members, "count_only"@),
        record::lacks(members, "stats_only"@),
        record::lacks(members, "health_only"@),
        record::lacks(members, "keep_anchors"@),
        record::lacks(members, "trust"@),
        record::lacks(members, "rlm"@),
        json::object_fault(bytes) is None,
    ensures
        record::object_fields(bytes, request_shape(), members, Some(end)) matches Ok(slots)
            && request_of(slots) == (RequestView {
            prompt,
            model,
            max_tokens,
            ..default_request()
        }),
{
    absent_fields_have_defaults(bytes, members);
    record::slots_match_fields(bytes, request_shape().fields, members);
    reveal_with_fuel(record::first_missing, 4);
}

/// A member that no field is named after changes nothing, whatever it holds and wherever
/// it stands: an older reader takes a newer request.
pub proof fn unknown_members_are_ignored(
    bytes: Seq<u8>,
    members: Seq<MemberView>,
    end: Option<int>,
    at: int,
    other: MemberView,
)
    requires
        0 <= at <= members.len(),
        other.name != "prompt"@,
        other.name != "model"@,
        other.name != "max_tokens"@,
        other.name != "grammar"@,
        other.name != "anchor"@,
        other.name != "stop_anchor"@,
        other.name != "count_only"@,
        other.name != "stats_only"@,
        other.name != "health_only"@,
        other.name != "keep_anchors"@,
        other.name != "trust"@,
        other.name != "rlm"@,
    ensures
        record::object_fields(bytes, request_shape(), members.insert(at, other), end)
            == record::object_fields(bytes, request_shape(), members, end),
{
    record::found_field(request_shape().fields, other.name);
    record::other_member(bytes, request_shape().fields, members, at, other);
}

/// A field that stands twice in a body is refused, whichever it is.
pub proof fn repeated_fields_are_refused(
    bytes: Seq<u8>,
    members: Seq<MemberView>,
    end: Option<int>,
    i: int,
    j: int,
)
    requires
        0 <= i < j < members.len(),
        members[i].name == members[j].name,
        members[i].value is Some,
        exists|k: int|
            0 <= k < request_shape().fields.len() && members[i].name == (
            #[trigger] request_shape().fields[k]).0,
    ensures
        record::object_fields(bytes, request_shape(), members, end) is Err,
{
    let k = choose|k: int|
        0 <= k < request_shape().fields.len() && members[i].name == (
        #[trigger] request_shape().fields[k]).0;
    names_differ();
    record::named_field(request_shape().fields, k);
    record::repeated_field(bytes, request_shape().fields, members, i, j);
}

proof fn names_differ()
    ensures
        "prompt"@.len() == 6 && "prompt"@[0] == 'p',
        "model"@.len() == 5 && "model"@[0] == 'm',
        "max_tokens"@.len() == 10 && "max_tokens"@[0] == 'm',
        "grammar"@.len() == 7,
        "anchor"@.len() == 6 && "anchor"@[0] == 'a',
        "stop_anchor"@.len() == 11 && "stop_anchor"@[0] == 's',
        "count_only"@.len() == 10 && "count_only"@[0] == 'c',
        "stats_only"@.len() == 10 && "stats_only"@[0] == 's',
        "health_only"@.len() == 11 && "health_only"@[0] == 'h',
        "keep_anchors"@.len() == 12,
        "trust"@.len() == 5 && "trust"@[0] == 't',
        "rlm"@.len() == 3,
{
    reveal_strlit("prompt");
    reveal_strlit("model");
    reveal_strlit("max_tokens");
    reveal_strlit("grammar");
    reveal_strlit("anchor");
    reveal_strlit("stop_anchor");
    reveal_strlit("count_only");
    reveal_strlit("stats_only");
    reveal_strlit("health_only");
    reveal_strlit("keep_anchors");
    reveal_strlit("trust");
    reveal_strlit("rlm");
}

/// The place of each name among the fields.
proof fn places()
    ensures
        record::field_named(request_shape().fields, "prompt"@) == Some(0int),
        record::field_named(request_shape().fields, "model"@) == Some(1int),
        record::field_named(request_shape().fields, "max_tokens"@) == Some(2int),
        record::field_named(request_shape().fields, "grammar"@) == Some(3int),
        record::field_named(request_shape().fields, "anchor"@) == Some(4int),
        record::field_named(request_shape().fields, "stop_anchor"@) == Some(5int),
        record::field_named(request_shape().fields, "count_only"@) == Some(6int),
        record::field_named(request_shape().fields, "stats_only"@) == Some(7int),
        record::field_named(request_shape().fields, "health_only"@) == Some(8int),
        record::field_named(request_shape().fields, "keep_anchors"@) == Some(9int),
        record::field_named(request_shape().fields, "trust"@) == Some(10int),
        record::field_named(request_shape().fields, "rlm"@) == Some(11int),
{
    names_differ();
    let fields = request_shape().fields;
    record::named_field(fields, 0);
    record::named_field(fields, 1);
    record::named_field(fields, 2);
    record::named_field(fields, 3);
    record::named_field(fields, 4);
    record::named_field(fields, 5);
    record::named_field(fields, 6);
    record::named_field(fields, 7);
    record::named_field(fields, 8);
    record::named_field(fields, 9);
    record::named_field(fields, 10);
    record::named_field(fields, 11);
}

/// What is in the slots when a request was read.
pub open spec fn slots_of(r: RequestView) -> Seq<Option<HeldView>> {
    seq![
        Some(HeldView::Text(r.prompt)),
        Some(HeldView::Text(r.model)),
        Some(HeldView::Word(r.max_tokens)),
        Some(HeldView::OptionalText(r.grammar)),
        anchor_slot(r.anchor),
        anchor_slot(r.stop_anchor),
        Some(HeldView::Flag(r.count_only)),
        Some(HeldView::Flag(r.stats_only)),
        Some(HeldView::Flag(r.health_only)),
        Some(HeldView::Flag(r.keep_anchors)),
        Some(HeldView::Byte(r.trust)),
        Some(HeldView::Flag(r.rlm)),
    ]
}

/// What is in the slot of an anchor, which is left out where it is none.
pub open spec fn anchor_slot(text: Option<Seq<char>>) -> Option<HeldView> {
    match text {
        Some(chars) => Some(HeldView::OptionalText(Some(chars))),
        None => None,
    }
}

/// The first four values fill the first four fields.
proof fn head_fills(r: RequestView, head: Seq<(Seq<char>, Json)>)
    requires
        head == Seq::empty().push(("prompt"@, Json::Text(r.prompt))).push(
            ("model"@, Json::Text(r.model)),
        ).push(("max_tokens"@, Json::Integer(r.max_tokens as int))).push(
            ("grammar"@, optional_json(r.grammar)),
        ),
    ensures
        record::with_values(request_shape().fields, head) == Some(
            record::empty_slots(request_shape().fields).update(
                0,
                Some(HeldView::Text(r.prompt)),
            ).update(1, Some(HeldView::Text(r.model))).update(
                2,
                Some(HeldView::Word(r.max_tokens)),
            ).update(3, Some(HeldView::OptionalText(r.grammar))),
        ),
{
    places();
    let fields = request_shape().fields;
    let f0 = Seq::<(Seq<char>, Json)>::empty();
    let f1 = f0.push(("prompt"@, Json::Text(r.prompt)));
    let f2 = f1.push(("model"@, Json::Text(r.model)));
    let f3 = f2.push(("max_tokens"@, Json::Integer(r.max_tokens as int)));
    record::one_more(fields, f0, ("prompt"@, Json::Text(r.prompt)));
    record::one_more(fields, f1, ("model"@, Json::Text(r.model)));
    record::one_more(fields, f2, ("max_tokens"@, Json::Integer(r.max_tokens as int)));
    record::one_more(fields, f3, ("grammar"@, optional_json(r.grammar)));
}

/// An anchor that is there fills its field, and one that is none leaves it.
proof fn anchor_fills(
    values: Seq<(Seq<char>, Json)>,
    slots: Seq<Option<HeldView>>,
    i: int,
    text: Option<Seq<char>>,
)
    requires
        i == 4 || i == 5,
        record::with_values(request_shape().fields, values) == Some(slots),
        slots.len() == 12,
        slots[i] is None,
    ensures
        record::with_values(
            request_shape().fields,
            push_some(values, request_shape().fields[i].0, text),
        ) == Some(slots.update(i, anchor_slot(text))),
{
    places();
    match text {
        Some(chars) => {
            record::one_more(
                request_shape().fields,
                values,
                (request_shape().fields[i].0, Json::Text(chars)),
            );
        },
        None => {
            assert(slots.update(i, None) =~= slots);
        },
    }
}

/// The last six values fill the last six fields.
proof fn tail_fills(
    r: RequestView,
    values: Seq<(Seq<char>, Json)>,
    slots: Seq<Option<HeldView>>,
)
    requires
        record::with_values(request_shape().fields, values) == Some(slots),
        slots.len() == 12,
        forall|i: int| 6 <= i < 12 ==> (#[trigger] slots[i]) is None,
    ensures
        record::with_values(
            request_shape().fields,
            values.push(("count_only"@, Json::Bool(r.count_only))).push(
                ("stats_only"@, Json::Bool(r.stats_only)),
            ).push(("health_only"@, Json::Bool(r.health_only))).push(
                ("keep_anchors"@, Json::Bool(r.keep_anchors)),
            ).push(("trust"@, Json::Integer(r.trust as int))).push(("rlm"@, Json::Bool(r.rlm))),
        ) == Some(
            slots.update(6, Some(HeldView::Flag(r.count_only))).update(
                7,
                Some(HeldView::Flag(r.stats_only)),
            ).update(8, Some(HeldView::Flag(r.health_only))).update(
                9,
                Some(HeldView::Flag(r.keep_anchors)),
            ).update(10, Some(HeldView::Byte(r.trust))).update(11, Some(HeldView::Flag(r.rlm))),
        ),
{
    places();
    let fields = request_shape().fields;
    let f7 = values.push(("count_only"@, Json::Bool(r.count_only)));
    let f8 = f7.push(("stats_only"@, Json::Bool(r.stats_only)));
    let f9 = f8.push(("health_only"@, Json::Bool(r.health_only)));
    let f10 = f9.push(("keep_anchors"@, Json::Bool(r.keep_anchors)));
    let f11 = f10.push(("trust"@, Json::Integer(r.trust as int)));
    record::one_more(fields, values, ("count_only"@, Json::Bool(r.count_only)));
    record::one_more(fields, f7, ("stats_only"@, Json::Bool(r.stats_only)));
    record::one_more(fields, f8, ("health_only"@, Json::Bool(r.health_only)));
    record::one_more(fields, f9, ("keep_anchors"@, Json::Bool(r.keep_anchors)));
    record::one_more(fields, f10, ("trust"@, Json::Integer(r.trust as int)));
    record::one_more(fields, f11, ("rlm"@, Json::Bool(r.rlm)));
}

/// The values that a request is written as fill its fields with what it says.
pub proof fn fields_round_trip(r: RequestView)
    ensures
        record::with_values(request_shape().fields, r.fields()) == Some(slots_of(r)),
        record::first_missing(slots_of(r), request_shape().required) is None,
        request_of(slots_of(r)) == r,
        forall|i: int|
            0 <= i < r.fields().len() ==> json::reads_back(
                (#[trigger] r.fields()[i]).1,
                json::MAX_DEPTH as nat,
            ),
{
    let fields = request_shape().fields;
    let head = Seq::empty().push(("prompt"@, Json::Text(r.prompt))).push(
        ("model"@, Json::Text(r.model)),
    ).push(("max_tokens"@, Json::Integer(r.max_tokens as int))).push(
        ("grammar"@, optional_json(r.grammar)),
    );
    head_fills(r, head);
    let s4 = record::with_values(fields, head)->0;
    anchor_fills(head, s4, 4, r.anchor);
    let anchored = push_some(head, "anchor"@, r.anchor);
    let s5 = s4.update(4, anchor_slot(r.anchor));
    anchor_fills(anchored, s5, 5, r.stop_anchor);
    let s6 = s5.update(5, anchor_slot(r.stop_anchor));
    tail_fills(r, push_some(anchored, "stop_anchor"@, r.stop_anchor), s6);
    assert(record::with_values(fields, r.fields())->0 =~= slots_of(r));
    reveal_with_fuel(record::first_missing, 4);
}

/// The names that a request is written with are all those of fields.
proof fn fields_are_known(r: RequestView)
    ensures
        record::known(request_shape().fields, r.fields()) == r.fields(),
        r.fields().len() > 0,
{
    places();
    record::all_known(request_shape().fields, r.fields());
}

/// Members that no field is named after change nothing of a request, whatever they hold,
/// however many they are and wherever they stand in its text: an older reader takes a newer
/// request.
pub proof fn further_members_are_passed_over(
    r: RequestView,
    values: Seq<(Seq<char>, Json)>,
)
    requires
        record::known(request_shape().fields, values) == r.fields(),
        record::writable(request_shape().fields, values),
    ensures
        read_body(encode_utf8(json::object_text(values))) == Ok::<RequestView, Seq<char>>(r),
{
    fields_are_known(r);
    fields_round_trip(r);
    record::further_values(request_shape().fields, values);
    record::written_object(request_shape(), values);
}

/// One further member, under a name that no field has, changes nothing of a request, whatever
/// it holds and wherever it stands in its text.
pub proof fn further_member_is_passed_over(r: RequestView, at: int, name: Seq<char>, value: Json)
    requires
        0 <= at <= r.fields().len(),
        record::field_named(request_shape().fields, name) is None,
        json::legible(Json::Text(name)),
        json::skippable(value),
        forall|i: int|
            #![trigger r.fields()[i]]
            0 <= i < r.fields().len() ==> json::legible(Json::Text(r.fields()[i].0))
                && json::legible(r.fields()[i].1),
        json::object_fault(
            encode_utf8(json::object_text(r.fields().insert(at, (name, value)))),
        ) is None,
    ensures
        read_body(encode_utf8(json::object_text(r.fields().insert(at, (name, value))))) == Ok::<
            RequestView,
            Seq<char>,
        >(r),
{
    let fields = request_shape().fields;
    let written = r.fields();
    fields_are_known(r);
    record::known_insert(fields, written, at, (name, value));
    record::writable_insert(fields, written, at, (name, value));
    further_members_are_passed_over(r, written.insert(at, (name, value)));
}

/// A length in four bytes, least significant first. Of a length of 4 GiB or more they hold the
/// remainder.
pub open spec fn length_bytes(len: nat) -> Seq<u8> {
    seq![
        (len % 256) as u8,
        (len / 256 % 256) as u8,
        (len / 65536 % 256) as u8,
        (len / 16777216 % 256) as u8,
    ]
}

/// A body stands on a stream behind its length in four bytes.
pub proof fn prefixed_bytes(body: Seq<u8>)
    ensures
        prefixed(body) == length_bytes(body.len()) + body,
{
    wire::le32_low_bytes(body.len());
}

/// A request on a stream is its body behind its length, and the body is the text of its fields.
pub proof fn encoded_is_body_behind_length(r: RequestView)
    ensures
        r.body() == encode_utf8(json::object_text(r.fields())),
        r.encoded() == length_bytes(r.body().len()) + r.body(),
{
    prefixed_bytes(r.body());
}

/// A buffer holds a body exactly where it has four bytes and as many more as these spell, each
/// worth 256 times the one before it; the body is those.
pub proof fn body_is_found(buf: Seq<u8>)
    ensures
        ({
            let len = buf[0] + 256 * buf[1] + 65536 * buf[2] + 16777216 * buf[3];
            if buf.len() < 4 || buf.len() < 4 + len {
                &&& body_of(buf) is None
                &&& decoded(buf) == Err::<RequestView, RequestDecodeErrorView>(
                    RequestDecodeErrorView::Incomplete,
                )
            } else {
                &&& body_of(buf) == Some(buf.subrange(4, 4 + len))
                &&& match read_body(buf.subrange(4, 4 + len)) {
                    Ok(r) => decoded(buf) == Ok::<RequestView, RequestDecodeErrorView>(r),
                    Err(e) => decoded(buf) == Err::<RequestView, RequestDecodeErrorView>(
                        RequestDecodeErrorView::Json(e),
                    ),
                }
            }
        }),
{
    if buf.len() >= 4 {
        wire::value32_sum(buf.subrange(0, 4));
    }
}

/// A request says what its fields hold, each its own.
pub proof fn request_says(r: InferenceRequest)
    ensures
        r@.prompt == r.prompt@,
        r@.model == r.model@,
        r@.max_tokens == r.max_tokens,
        match r.grammar {
            Some(text) => r@.grammar == Some(text@),
            None => r@.grammar is None,
        },
        match r.anchor {
            Some(text) => r@.anchor == Some(text@),
            None => r@.anchor is None,
        },
        match r.stop_anchor {
            Some(text) => r@.stop_anchor == Some(text@),
            None => r@.stop_anchor is None,
        },
        r@.count_only == r.count_only,
        r@.stats_only == r.stats_only,
        r@.health_only == r.health_only,
        r@.keep_anchors == r.keep_anchors,
        r@.trust == r.trust,
        r@.rlm == r.rlm,
{
}

/// An error says what it holds.
pub proof fn request_error_says(error: RequestDecodeError)
    ensures
        match error {
            RequestDecodeError::Incomplete => error@ == RequestDecodeErrorView::Incomplete,
            RequestDecodeError::Json(e) => error@ == RequestDecodeErrorView::Json(e.message@),
        },
{
}

/// The words of each error.
pub proof fn request_error_words(error: RequestDecodeErrorView)
    ensures
        match error {
            RequestDecodeErrorView::Incomplete => error.message() == "incomplete request buffer"@,
            RequestDecodeErrorView::Json(e) => error.message() == "JSON decode: "@ + e,
        },
{
}

/// Each field of a request depends on its own slot alone: it is exactly the value that is
/// there, whatever the other slots hold, and its default where nothing is there.
pub proof fn slots_are_fields(slots: Seq<Option<HeldView>>)
    ensures
        ({
            let read = request_of(slots);
            &&& slots.len() > 0 ==> (slots[0] matches Some(HeldView::Text(v)) ==> read.prompt == v)
            &&& slots.len() <= 0 || slots[0] is None ==> read.prompt.len() == 0
            &&& slots.len() > 1 ==> (slots[1] matches Some(HeldView::Text(v)) ==> read.model == v)
            &&& slots.len() <= 1 || slots[1] is None ==> read.model.len() == 0
            &&& slots.len() > 2 ==> (slots[2] matches Some(HeldView::Word(v))
                ==> read.max_tokens == v)
            &&& slots.len() <= 2 || slots[2] is None ==> read.max_tokens == 0
            &&& slots.len() > 3 ==> (slots[3] matches Some(HeldView::OptionalText(v))
                ==> read.grammar == v)
            &&& slots.len() <= 3 || slots[3] is None ==> read.grammar is None
            &&& slots.len() > 4 ==> (slots[4] matches Some(HeldView::OptionalText(v))
                ==> read.anchor == v)
            &&& slots.len() <= 4 || slots[4] is None ==> read.anchor is None
            &&& slots.len() > 5 ==> (slots[5] matches Some(HeldView::OptionalText(v))
                ==> read.stop_anchor == v)
            &&& slots.len() <= 5 || slots[5] is None ==> read.stop_anchor is None
            &&& slots.len() > 6 ==> (slots[6] matches Some(HeldView::Flag(v))
                ==> read.count_only == v)
            &&& slots.len() <= 6 || slots[6] is None ==> !read.count_only
            &&& slots.len() > 7 ==> (slots[7] matches Some(HeldView::Flag(v))
                ==> read.stats_only == v)
            &&& slots.len() <= 7 || slots[7] is None ==> !read.stats_only
            &&& slots.len() > 8 ==> (slots[8] matches Some(HeldView::Flag(v))
                ==> read.health_only == v)
            &&& slots.len() <= 8 || slots[8] is None ==> !read.health_only
            &&& slots.len() > 9 ==> (slots[9] matches Some(HeldView::Flag(v))
                ==> read.keep_anchors == v)
            &&& slots.len() <= 9 || slots[9] is None ==> !read.keep_anchors
            &&& slots.len() > 10 ==> (slots[10] matches Some(HeldView::Byte(v)) ==> read.trust == v)
            &&& slots.len() <= 10 || slots[10] is None ==> read.trust == 0
            &&& slots.len() > 11 ==> (slots[11] matches Some(HeldView::Flag(v)) ==> read.rlm == v)
            &&& slots.len() <= 11 || slots[11] is None ==> !read.rlm
        }),
{
}

/// What a request is written as: each field under its own name, in the order in which they are
/// declared. An anchor that is none is left out, and a grammar that is none is null.
pub proof fn written_in_order(r: RequestView)
    ensures
        ({
            let written = r.fields();
            let a: int = if r.anchor is Some { 1 } else { 0 };
            let s: int = if r.stop_anchor is Some { 1 } else { 0 };
            &&& written.len() == 10 + a + s
            &&& written[0] == ("prompt"@, Json::Text(r.prompt))
            &&& written[1] == ("model"@, Json::Text(r.model))
            &&& written[2] == ("max_tokens"@, Json::Integer(r.max_tokens as int))
            &&& match r.grammar {
                Some(text) => written[3] == ("grammar"@, Json::Text(text)),
                None => written[3] == ("grammar"@, Json::Null),
            }
            &&& r.anchor matches Some(text) ==> written[4] == ("anchor"@, Json::Text(text))
            &&& r.stop_anchor matches Some(text) ==> written[4 + a] == (
                "stop_anchor"@,
                Json::Text(text),
            )
            &&& written[4 + a + s] == ("count_only"@, Json::Bool(r.count_only))
            &&& written[5 + a + s] == ("stats_only"@, Json::Bool(r.stats_only))
            &&& written[6 + a + s] == ("health_only"@, Json::Bool(r.health_only))
            &&& written[7 + a + s] == ("keep_anchors"@, Json::Bool(r.keep_anchors))
            &&& written[8 + a + s] == ("trust"@, Json::Integer(r.trust as int))
            &&& written[9 + a + s] == ("rlm"@, Json::Bool(r.rlm))
        }),
{
}

/// Among the written members, the one of each field's name holds that field.
pub proof fn written_under_its_name(r: RequestView, i: int)
    requires
        0 <= i < r.fields().len(),
    ensures
        ({
            let (name, value) = r.fields()[i];
            &&& name == "prompt"@ ==> value == Json::Text(r.prompt)
            &&& name == "model"@ ==> value == Json::Text(r.model)
            &&& name == "max_tokens"@ ==> value == Json::Integer(r.max_tokens as int)
            &&& name == "grammar"@ ==> value == match r.grammar {
                Some(text) => Json::Text(text),
                None => Json::Null,
            }
            &&& name == "anchor"@ ==> r.anchor is Some && value == Json::Text(r.anchor->0)
            &&& name == "stop_anchor"@ ==> r.stop_anchor is Some && value == Json::Text(
                r.stop_anchor->0,
            )
            &&& name == "count_only"@ ==> value == Json::Bool(r.count_only)
            &&& name == "stats_only"@ ==> value == Json::Bool(r.stats_only)
            &&& name == "health_only"@ ==> value == Json::Bool(r.health_only)
            &&& name == "keep_anchors"@ ==> value == Json::Bool(r.keep_anchors)
            &&& name == "trust"@ ==> value == Json::Integer(r.trust as int)
            &&& name == "rlm"@ ==> value == Json::Bool(r.rlm)
        }),
{
    names_differ();
    written_in_order(r);
}

/// Whether a field has that name.
pub open spec fn is_field(name: Seq<char>) -> bool {
    ||| name == "prompt"@
    ||| name == "model"@
    ||| name == "max_tokens"@
    ||| name == "grammar"@
    ||| name == "anchor"@
    ||| name == "stop_anchor"@
    ||| name == "count_only"@
    ||| name == "stats_only"@
    ||| name == "health_only"@
    ||| name == "keep_anchors"@
    ||| name == "trust"@
    ||| name == "rlm"@
}

/// Whether the bytes are read as what the field of that name can hold, if there is one.
pub open spec fn readable(name: Seq<char>, value: Seq<u8>) -> bool {
    &&& name == "prompt"@ ==> exists|v: Seq<char>| spelled::spells_text(value, v)
    &&& name == "model"@ ==> exists|v: Seq<char>| spelled::spells_text(value, v)
    &&& name == "max_tokens"@ ==> exists|v: u32| spelled::spells_word(value, v)
    &&& name == "grammar"@ ==> exists|v: Option<Seq<char>>| spelled::spells_optional_text(value, v)
    &&& name == "anchor"@ ==> exists|v: Option<Seq<char>>| spelled::spells_optional_text(value, v)
    &&& name == "stop_anchor"@ ==> exists|v: Option<Seq<char>>|
        spelled::spells_optional_text(value, v)
    &&& name == "count_only"@ ==> exists|v: bool| spelled::spells_flag(value, v)
    &&& name == "stats_only"@ ==> exists|v: bool| spelled::spells_flag(value, v)
    &&& name == "health_only"@ ==> exists|v: bool| spelled::spells_flag(value, v)
    &&& name == "keep_anchors"@ ==> exists|v: bool| spelled::spells_flag(value, v)
    &&& name == "trust"@ ==> exists|v: u8| spelled::spells_byte(value, v)
    &&& name == "rlm"@ ==> exists|v: bool| spelled::spells_flag(value, v)
}

/// Whether a request holds what the bytes are read as in the field of that name, if there is
/// one.
pub open spec fn says(r: RequestView, name: Seq<char>, value: Seq<u8>) -> bool {
    &&& name == "prompt"@ ==> spelled::spells_text(value, r.prompt)
    &&& name == "model"@ ==> spelled::spells_text(value, r.model)
    &&& name == "max_tokens"@ ==> spelled::spells_word(value, r.max_tokens)
    &&& name == "grammar"@ ==> spelled::spells_optional_text(value, r.grammar)
    &&& name == "anchor"@ ==> spelled::spells_optional_text(value, r.anchor)
    &&& name == "stop_anchor"@ ==> spelled::spells_optional_text(value, r.stop_anchor)
    &&& name == "count_only"@ ==> spelled::spells_flag(value, r.count_only)
    &&& name == "stats_only"@ ==> spelled::spells_flag(value, r.stats_only)
    &&& name == "health_only"@ ==> spelled::spells_flag(value, r.health_only)
    &&& name == "keep_anchors"@ ==> spelled::spells_flag(value, r.keep_anchors)
    &&& name == "trust"@ ==> spelled::spells_byte(value, r.trust)
    &&& name == "rlm"@ ==> spelled::spells_flag(value, r.rlm)
}

/// Whether no member has that name.
pub open spec fn unspelled(ms: Seq<Spelled>, name: Seq<char>) -> bool {
    forall|i: int| 0 <= i < ms.len() ==> (#[trigger] ms[i]).called != name
}

/// Whether the members can be read: each is spelled well and holds what its field can, and
/// none that a field is named after comes twice.
pub open spec fn all_readable(ms: Seq<Spelled>) -> bool {
    &&& spelled::all_well_spelled(ms)
    &&& forall|i: int|
        #![trigger ms[i]]
        0 <= i < ms.len() ==> readable(ms[i].called, ms[i].value)
    &&& forall|i: int, j: int|
        #![trigger ms[i], ms[j]]
        0 <= i < j < ms.len() && ms[i].called == ms[j].called ==> !is_field(ms[i].called)
}

/// What the field of that name holds of a value that it can hold.
spec fn held_for(name: Seq<char>, value: Seq<u8>) -> HeldView {
    let fields = request_shape().fields;
    let kind = fields[record::field_named(fields, name)->0].1;
    choose|held: HeldView| spelled::spells(kind, value, held)
}

/// A value that a field can hold is read as something.
proof fn readable_is_held(name: Seq<char>, value: Seq<u8>)
    requires
        readable(name, value),
    ensures
        record::field_named(request_shape().fields, name) matches Some(f) ==> spelled::spells(
            request_shape().fields[f].1,
            value,
            held_for(name, value),
        ),
        record::field_named(request_shape().fields, name) is Some <==> is_field(name),
{
    places();
    let fields = request_shape().fields;
    record::found_field(fields, name);
    if let Some(f) = record::field_named(fields, name) {
        assert(exists|held: HeldView| spelled::spells(fields[f].1, value, held)) by {
            if f == 0 {
                let v = choose|v: Seq<char>| spelled::spells_text(value, v);
                assert(spelled::spells(fields[f].1, value, HeldView::Text(v)));
            }
            if f == 1 {
                let v = choose|v: Seq<char>| spelled::spells_text(value, v);
                assert(spelled::spells(fields[f].1, value, HeldView::Text(v)));
            }
            if f == 2 {
                let v = choose|v: u32| spelled::spells_word(value, v);
                assert(spelled::spells(fields[f].1, value, HeldView::Word(v)));
            }
            if f == 3 {
                let v = choose|v: Option<Seq<char>>| spelled::spells_optional_text(value, v);
                assert(spelled::spells(fields[f].1, value, HeldView::OptionalText(v)));
            }
            if f == 4 {
                let v = choose|v: Option<Seq<char>>| spelled::spells_optional_text(value, v);
                assert(spelled::spells(fields[f].1, value, HeldView::OptionalText(v)));
            }
            if f == 5 {
                let v = choose|v: Option<Seq<char>>| spelled::spells_optional_text(value, v);
                assert(spelled::spells(fields[f].1, value, HeldView::OptionalText(v)));
            }
            if f == 6 {
                let v = choose|v: bool| spelled::spells_flag(value, v);
                assert(spelled::spells(fields[f].1, value, HeldView::Flag(v)));
            }
            if f == 7 {
                let v = choose|v: bool| spelled::spells_flag(value, v);
                assert(spelled::spells(fields[f].1, value, HeldView::Flag(v)));
            }
            if f == 8 {
                let v = choose|v: bool| spelled::spells_flag(value, v);
                assert(spelled::spells(fields[f].1, value, HeldView::Flag(v)));
            }
            if f == 9 {
                let v = choose|v: bool| spelled::spells_flag(value, v);
                assert(spelled::spells(fields[f].1, value, HeldView::Flag(v)));
            }
            if f == 10 {
                let v = choose|v: u8| spelled::spells_byte(value, v);
                assert(spelled::spells(fields[f].1, value, HeldView::Byte(v)));
            }
            if f == 11 {
                let v = choose|v: bool| spelled::spells_flag(value, v);
                assert(spelled::spells(fields[f].1, value, HeldView::Flag(v)));
            }
        }
    }
}

/// What the members hold, in order.
spec fn helds_of(ms: Seq<Spelled>) -> Seq<HeldView> {
    Seq::new(ms.len(), |i: int| held_for(ms[i].called, ms[i].value))
}

/// Members that can be read are fit to be.
proof fn readable_is_fit(ms: Seq<Spelled>)
    requires
        all_readable(ms),
    ensures
        spelled::fit(request_shape().fields, ms, helds_of(ms)),
{
    assert forall|i: int| #![trigger ms[i]] 0 <= i < ms.len() implies (record::field_named(
        request_shape().fields,
        ms[i].called,
    ) matches Some(f) ==> spelled::spells(
        request_shape().fields[f].1,
        ms[i].value,
        helds_of(ms)[i],
    )) by {
        readable_is_held(ms[i].called, ms[i].value);
    }
    assert forall|i: int, j: int|
        #![trigger ms[i], ms[j]]
        0 <= i < j < ms.len() && ms[i].called == ms[j].called implies record::field_named(
        request_shape().fields,
        ms[i].called,
    ) is None by {
        readable_is_held(ms[i].called, ms[i].value);
    }
}

/// What is in the slots when members were taken is what the request of these slots says.
#[verifier::spinoff_prover]
proof fn taken_is_said(ms: Seq<Spelled>, slots: Seq<Option<HeldView>>)
    requires
        all_readable(ms),
        spelled::taken(request_shape().fields, ms, helds_of(ms), slots),
    ensures
        slots.len() == 12,
        ({
            let r = request_of(slots);
            &&& forall|i: int|
                #![trigger ms[i]]
                0 <= i < ms.len() ==> says(r, ms[i].called, ms[i].value)
            &&& unspelled(ms, "prompt"@) ==> r.prompt.len() == 0 && slots[0] is None
            &&& unspelled(ms, "model"@) ==> r.model.len() == 0 && slots[1] is None
            &&& unspelled(ms, "max_tokens"@) ==> r.max_tokens == 0 && slots[2] is None
            &&& unspelled(ms, "grammar"@) ==> r.grammar is None && slots[3] is None
            &&& unspelled(ms, "anchor"@) ==> r.anchor is None && slots[4] is None
            &&& unspelled(ms, "stop_anchor"@) ==> r.stop_anchor is None && slots[5] is None
            &&& unspelled(ms, "count_only"@) ==> !r.count_only && slots[6] is None
            &&& unspelled(ms, "stats_only"@) ==> !r.stats_only && slots[7] is None
            &&& unspelled(ms, "health_only"@) ==> !r.health_only && slots[8] is None
            &&& unspelled(ms, "keep_anchors"@) ==> !r.keep_anchors && slots[9] is None
            &&& unspelled(ms, "trust"@) ==> r.trust == 0 && slots[10] is None
            &&& unspelled(ms, "rlm"@) ==> !r.rlm && slots[11] is None
        }),
{
    places();
    let fields = request_shape().fields;
    let r = request_of(slots);
    assert forall|i: int| #![trigger ms[i]] 0 <= i < ms.len() implies says(
        r,
        ms[i].called,
        ms[i].value,
    ) by {
        readable_is_held(ms[i].called, ms[i].value);
    }
    assert forall|f: int|
        0 <= f < 12 && unspelled(ms, fields[f].0) implies (#[trigger] slots[f]) is None by {
        assert forall|i: int| 0 <= i < ms.len() implies record::field_named(
            fields,
            (#[trigger] ms[i]).called,
        ) != Some(f) by {
            record::found_field(fields, ms[i].called);
        }
    }
    assert(unspelled(ms, fields[0].0) ==> slots[0] is None);
    assert(unspelled(ms, fields[1].0) ==> slots[1] is None);
    assert(unspelled(ms, fields[2].0) ==> slots[2] is None);
    assert(unspelled(ms, fields[3].0) ==> slots[3] is None);
    assert(unspelled(ms, fields[4].0) ==> slots[4] is None);
    assert(unspelled(ms, fields[5].0) ==> slots[5] is None);
    assert(unspelled(ms, fields[6].0) ==> slots[6] is None);
    assert(unspelled(ms, fields[7].0) ==> slots[7] is None);
    assert(unspelled(ms, fields[8].0) ==> slots[8] is None);
    assert(unspelled(ms, fields[9].0) ==> slots[9] is None);
    assert(unspelled(ms, fields[10].0) ==> slots[10] is None);
    assert(unspelled(ms, fields[11].0) ==> slots[11] is None);
}

/// Where the fields without a default are spelled, none is missing.
proof fn required_is_taken(ms: Seq<Spelled>, slots: Seq<Option<HeldView>>)
    requires
        spelled::taken(request_shape().fields, ms, helds_of(ms), slots),
        !unspelled(ms, "prompt"@),
        !unspelled(ms, "model"@),
        !unspelled(ms, "max_tokens"@),
    ensures
        record::first_missing(slots, request_shape().required) is None,
{
    places();
    let i0 = choose|i: int| 0 <= i < ms.len() && (#[trigger] ms[i]).called == "prompt"@;
    assert(slots[0] is Some);
    let i1 = choose|i: int| 0 <= i < ms.len() && (#[trigger] ms[i]).called == "model"@;
    assert(slots[1] is Some);
    let i2 = choose|i: int| 0 <= i < ms.len() && (#[trigger] ms[i]).called == "max_tokens"@;
    assert(slots[2] is Some);
    spelled::none_missing(slots, 3);
}

/// A request is what its members say, however they are spelled and in whatever order they
/// come: each field is what the member of its own name is read as, whatever the others are,
/// and has its default where there is none. Members of other names count for nothing.
#[verifier::spinoff_prover]
pub proof fn members_are_read(before: Seq<u8>, ms: Seq<Spelled>, after: Seq<u8>)
    requires
        spelled::blank(before),
        ms.len() > 0,
        all_readable(ms),
        !unspelled(ms, "prompt"@),
        !unspelled(ms, "model"@),
        !unspelled(ms, "max_tokens"@),
        json::object_fault(spelled::object_bytes(before, ms, after)) is None,
    ensures
        read_body(spelled::object_bytes(before, ms, after)) matches Ok(r) && (forall|i: int|
            #![trigger ms[i]]
            0 <= i < ms.len() ==> says(r, ms[i].called, ms[i].value))
            && (unspelled(ms, "prompt"@) ==> r.prompt.len() == 0)
            && (unspelled(ms, "model"@) ==> r.model.len() == 0)
            && (unspelled(ms, "max_tokens"@) ==> r.max_tokens == 0)
            && (unspelled(ms, "grammar"@) ==> r.grammar is None)
            && (unspelled(ms, "anchor"@) ==> r.anchor is None)
            && (unspelled(ms, "stop_anchor"@) ==> r.stop_anchor is None)
            && (unspelled(ms, "count_only"@) ==> !r.count_only)
            && (unspelled(ms, "stats_only"@) ==> !r.stats_only)
            && (unspelled(ms, "health_only"@) ==> !r.health_only)
            && (unspelled(ms, "keep_anchors"@) ==> !r.keep_anchors)
            && (unspelled(ms, "trust"@) ==> r.trust == 0)
            && (unspelled(ms, "rlm"@) ==> !r.rlm),
{
    readable_is_fit(ms);
    let slots = spelled::object_is_read(before, ms, after, request_shape(), helds_of(ms));
    required_is_taken(ms, slots);
    assert(read_body(spelled::object_bytes(before, ms, after)) == Ok::<RequestView, Seq<char>>(
        request_of(slots),
    ));
    taken_is_said(ms, slots);
}

/// Where something else is wrong with the text as a whole, such as more text behind the object,
/// that is told.
#[verifier::spinoff_prover]
pub proof fn faulty_text_is_told(
    before: Seq<u8>,
    ms: Seq<Spelled>,
    after: Seq<u8>,
    message: Seq<char>,
)
    requires
        spelled::blank(before),
        ms.len() > 0,
        all_readable(ms),
        !unspelled(ms, "prompt"@),
        !unspelled(ms, "model"@),
        !unspelled(ms, "max_tokens"@),
        json::object_fault(spelled::object_bytes(before, ms, after)) == Some(message),
    ensures
        read_body(spelled::object_bytes(before, ms, after))
            == Err::<RequestView, Seq<char>>(message),
{
    readable_is_fit(ms);
    let slots = spelled::object_is_read(before, ms, after, request_shape(), helds_of(ms));
    required_is_taken(ms, slots);
}

/// The first field without a default that no member is named after is told, at the end of the
/// object.
#[verifier::spinoff_prover]
pub proof fn missing_field_is_told(before: Seq<u8>, ms: Seq<Spelled>, after: Seq<u8>)
    requires
        spelled::blank(before),
        ms.len() > 0,
        all_readable(ms),
    ensures
        ({
            let bytes = spelled::object_bytes(before, ms, after);
            let at = place::place(bytes, bytes.len() - after.len());
            let told = read_body(bytes);
            &&& unspelled(ms, "prompt"@) ==> told == Err::<RequestView, Seq<char>>(
                "missing field `"@ + "prompt"@ + "`"@ + at,
            )
            &&& !unspelled(ms, "prompt"@) && unspelled(ms, "model"@) ==> told == Err::<
                RequestView,
                Seq<char>,
            >("missing field `"@ + "model"@ + "`"@ + at)
            &&& !unspelled(ms, "prompt"@) && !unspelled(ms, "model"@) && unspelled(
                ms,
                "max_tokens"@,
            ) ==> told == Err::<RequestView, Seq<char>>(
                "missing field `"@ + "max_tokens"@ + "`"@ + at,
            )
        }),
{
    readable_is_fit(ms);
    let slots = spelled::object_is_read(before, ms, after, request_shape(), helds_of(ms));
    taken_is_said(ms, slots);
    places();
    if !unspelled(ms, "prompt"@) {
        let i = choose|i: int| 0 <= i < ms.len() && (#[trigger] ms[i]).called == "prompt"@;
        assert(slots[0] is Some);
    }
    if !unspelled(ms, "model"@) {
        let i = choose|i: int| 0 <= i < ms.len() && (#[trigger] ms[i]).called == "model"@;
        assert(slots[1] is Some);
    }
    reveal_with_fuel(record::first_missing, 4);
}

/// A member that a field is named after and that comes a second time is told, at its colon,
/// whatever it holds and whatever stands behind it.
pub proof fn repeated_member_is_told(
    before: Seq<u8>,
    ms: Seq<Spelled>,
    after: Seq<u8>,
    i: int,
    j: int,
)
    requires
        spelled::blank(before),
        0 <= i < j < ms.len(),
        spelled::all_well_spelled(ms),
        all_readable(ms.take(j)),
        ms[i].called == ms[j].called,
        is_field(ms[j].called),
    ensures
        ({
            let bytes = spelled::object_bytes(before, ms, after);
            read_body(bytes) == Err::<RequestView, Seq<char>>(
                "duplicate field `"@ + ms[j].called + "`"@ + place::place(
                    bytes,
                    spelled::colon_at(before, ms, j),
                ),
            )
        }),
{
    readable_is_fit(ms.take(j));
    places();
    spelled::repeated_member_is_told(
        before,
        ms,
        after,
        request_shape(),
        helds_of(ms.take(j)),
        i,
        j,
    );
}

/// Whether the field of that name cannot hold what the bytes open with, for that reason.
pub open spec fn refused(name: Seq<char>, bytes: Seq<u8>, message: Seq<char>) -> bool {
    ||| name == "prompt"@ && json::text_read(bytes) == Err::<Seq<char>, Seq<char>>(message)
    ||| name == "model"@ && json::text_read(bytes) == Err::<Seq<char>, Seq<char>>(message)
    ||| name == "max_tokens"@ && json::word_read(bytes) == Err::<u32, Seq<char>>(message)
    ||| name == "grammar"@ && json::optional_text_read(bytes)
        == Err::<Option<Seq<char>>, Seq<char>>(message)
    ||| name == "anchor"@ && json::optional_text_read(bytes)
        == Err::<Option<Seq<char>>, Seq<char>>(message)
    ||| name == "stop_anchor"@ && json::optional_text_read(bytes)
        == Err::<Option<Seq<char>>, Seq<char>>(message)
    ||| name == "count_only"@ && json::flag_read(bytes) == Err::<bool, Seq<char>>(message)
    ||| name == "stats_only"@ && json::flag_read(bytes) == Err::<bool, Seq<char>>(message)
    ||| name == "health_only"@ && json::flag_read(bytes) == Err::<bool, Seq<char>>(message)
    ||| name == "keep_anchors"@ && json::flag_read(bytes) == Err::<bool, Seq<char>>(message)
    ||| name == "trust"@ && json::byte_read(bytes) == Err::<u8, Seq<char>>(message)
    ||| name == "rlm"@ && json::flag_read(bytes) == Err::<bool, Seq<char>>(message)
}

/// A member that its field cannot hold is told in the words for its value at its place,
/// whatever stands behind it.
pub proof fn misread_member_is_told(
    before: Seq<u8>,
    ms: Seq<Spelled>,
    after: Seq<u8>,
    j: int,
    copy: Seq<u8>,
    message: Seq<char>,
)
    requires
        spelled::blank(before),
        0 <= j < ms.len(),
        spelled::all_well_spelled(ms),
        all_readable(ms.take(j)),
        unspelled(ms.take(j), ms[j].called),
        spelled::is_blanked(
            copy,
            spelled::object_bytes(before, ms, after),
            spelled::colon_at(before, ms, j) + 1,
        ),
        refused(ms[j].called, copy, message),
    ensures
        read_body(spelled::object_bytes(before, ms, after))
            == Err::<RequestView, Seq<char>>(message),
{
    readable_is_fit(ms.take(j));
    places();
    assert forall|i: int| 0 <= i < j implies (#[trigger] ms[i]).called != ms[j].called by {
        assert(ms.take(j)[i] == ms[i]);
    }
    spelled::misread_member_is_told(
        before,
        ms,
        after,
        request_shape(),
        helds_of(ms.take(j)),
        j,
        copy,
        message,
    );
}

/// Whether the item at a place in an array is read as what the field at that place can hold.
pub open spec fn readable_item(i: int, value: Seq<u8>) -> bool {
    &&& i == 0 ==> exists|v: Seq<char>| spelled::spells_text(value, v)
    &&& i == 1 ==> exists|v: Seq<char>| spelled::spells_text(value, v)
    &&& i == 2 ==> exists|v: u32| spelled::spells_word(value, v)
    &&& i == 3 ==> exists|v: Option<Seq<char>>| spelled::spells_optional_text(value, v)
    &&& i == 4 ==> exists|v: Option<Seq<char>>| spelled::spells_optional_text(value, v)
    &&& i == 5 ==> exists|v: Option<Seq<char>>| spelled::spells_optional_text(value, v)
    &&& i == 6 ==> exists|v: bool| spelled::spells_flag(value, v)
    &&& i == 7 ==> exists|v: bool| spelled::spells_flag(value, v)
    &&& i == 8 ==> exists|v: bool| spelled::spells_flag(value, v)
    &&& i == 9 ==> exists|v: bool| spelled::spells_flag(value, v)
    &&& i == 10 ==> exists|v: u8| spelled::spells_byte(value, v)
    &&& i == 11 ==> exists|v: bool| spelled::spells_flag(value, v)
}

/// Whether a request holds what the bytes are read as in the field at that place.
pub open spec fn says_item(r: RequestView, i: int, value: Seq<u8>) -> bool {
    &&& i == 0 ==> spelled::spells_text(value, r.prompt)
    &&& i == 1 ==> spelled::spells_text(value, r.model)
    &&& i == 2 ==> spelled::spells_word(value, r.max_tokens)
    &&& i == 3 ==> spelled::spells_optional_text(value, r.grammar)
    &&& i == 4 ==> spelled::spells_optional_text(value, r.anchor)
    &&& i == 5 ==> spelled::spells_optional_text(value, r.stop_anchor)
    &&& i == 6 ==> spelled::spells_flag(value, r.count_only)
    &&& i == 7 ==> spelled::spells_flag(value, r.stats_only)
    &&& i == 8 ==> spelled::spells_flag(value, r.health_only)
    &&& i == 9 ==> spelled::spells_flag(value, r.keep_anchors)
    &&& i == 10 ==> spelled::spells_byte(value, r.trust)
    &&& i == 11 ==> spelled::spells_flag(value, r.rlm)
}

/// What the item at a place holds.
spec fn item_for(i: int, value: Seq<u8>) -> HeldView {
    choose|held: HeldView| spelled::spells(request_shape().fields[i].1, value, held)
}

/// An item that a field can hold is read as something.
proof fn readable_item_is_held(i: int, value: Seq<u8>)
    requires
        0 <= i < 12,
        readable_item(i, value),
    ensures
        spelled::spells(request_shape().fields[i].1, value, item_for(i, value)),
{
    let kind = request_shape().fields[i].1;
    assert(exists|held: HeldView| spelled::spells(kind, value, held)) by {
        if i == 0 {
            let v = choose|v: Seq<char>| spelled::spells_text(value, v);
            assert(spelled::spells(kind, value, HeldView::Text(v)));
        }
        if i == 1 {
            let v = choose|v: Seq<char>| spelled::spells_text(value, v);
            assert(spelled::spells(kind, value, HeldView::Text(v)));
        }
        if i == 2 {
            let v = choose|v: u32| spelled::spells_word(value, v);
            assert(spelled::spells(kind, value, HeldView::Word(v)));
        }
        if i == 3 {
            let v = choose|v: Option<Seq<char>>| spelled::spells_optional_text(value, v);
            assert(spelled::spells(kind, value, HeldView::OptionalText(v)));
        }
        if i == 4 {
            let v = choose|v: Option<Seq<char>>| spelled::spells_optional_text(value, v);
            assert(spelled::spells(kind, value, HeldView::OptionalText(v)));
        }
        if i == 5 {
            let v = choose|v: Option<Seq<char>>| spelled::spells_optional_text(value, v);
            assert(spelled::spells(kind, value, HeldView::OptionalText(v)));
        }
        if i == 6 {
            let v = choose|v: bool| spelled::spells_flag(value, v);
            assert(spelled::spells(kind, value, HeldView::Flag(v)));
        }
        if i == 7 {
            let v = choose|v: bool| spelled::spells_flag(value, v);
            assert(spelled::spells(kind, value, HeldView::Flag(v)));
        }
        if i == 8 {
            let v = choose|v: bool| spelled::spells_flag(value, v);
            assert(spelled::spells(kind, value, HeldView::Flag(v)));
        }
        if i == 9 {
            let v = choose|v: bool| spelled::spells_flag(value, v);
            assert(spelled::spells(kind, value, HeldView::Flag(v)));
        }
        if i == 10 {
            let v = choose|v: u8| spelled::spells_byte(value, v);
            assert(spelled::spells(kind, value, HeldView::Byte(v)));
        }
        if i == 11 {
            let v = choose|v: bool| spelled::spells_flag(value, v);
            assert(spelled::spells(kind, value, HeldView::Flag(v)));
        }
    }
}

/// A request that is written as an array is what its items say, in the order in which the
/// fields are declared, however they are spelled. The fields behind the last item have their
/// defaults.
#[verifier::spinoff_prover]
pub proof fn items_are_read(before: Seq<u8>, items: Seq<Item>, after: Seq<u8>)
    requires
        spelled::blank(before),
        3 <= items.len() <= 12,
        forall|i: int|
            #![trigger items[i]]
            0 <= i < items.len() ==> spelled::well_spelled_item(items[i]) && readable_item(
                i,
                items[i].value,
            ),
        json::list_fault(spelled::list_bytes(before, items, after)) is None,
    ensures
        read_body(spelled::list_bytes(before, items, after)) matches Ok(r) && (forall|i: int|
            #![trigger items[i]]
            0 <= i < items.len() ==> says_item(r, i, items[i].value))
            && (items.len() <= 0 ==> r.prompt.len() == 0)
            && (items.len() <= 1 ==> r.model.len() == 0)
            && (items.len() <= 2 ==> r.max_tokens == 0)
            && (items.len() <= 3 ==> r.grammar is None)
            && (items.len() <= 4 ==> r.anchor is None)
            && (items.len() <= 5 ==> r.stop_anchor is None)
            && (items.len() <= 6 ==> !r.count_only)
            && (items.len() <= 7 ==> !r.stats_only)
            && (items.len() <= 8 ==> !r.health_only)
            && (items.len() <= 9 ==> !r.keep_anchors)
            && (items.len() <= 10 ==> r.trust == 0)
            && (items.len() <= 11 ==> !r.rlm),
{
    let fields = request_shape().fields;
    let helds = Seq::new(items.len(), |i: int| item_for(i, items[i].value));
    assert forall|i: int| #![trigger items[i]] 0 <= i < items.len() implies spelled::spells(
        fields[i].1,
        items[i].value,
        helds[i],
    ) by {
        readable_item_is_held(i, items[i].value);
    }
    let slots = spelled::list_is_read(before, items, after, request_shape(), helds);
    let r = request_of(slots);
    assert forall|i: int| #![trigger items[i]] 0 <= i < items.len() implies says_item(
        r,
        i,
        items[i].value,
    ) by {
        assert(slots[i] == Some(helds[i]));
        assert(spelled::spells(fields[i].1, items[i].value, helds[i]));
    }
    assert(items.len() <= 0 ==> slots[0] is None);
    assert(items.len() <= 1 ==> slots[1] is None);
    assert(items.len() <= 2 ==> slots[2] is None);
    assert(items.len() <= 3 ==> slots[3] is None);
    assert(items.len() <= 4 ==> slots[4] is None);
    assert(items.len() <= 5 ==> slots[5] is None);
    assert(items.len() <= 6 ==> slots[6] is None);
    assert(items.len() <= 7 ==> slots[7] is None);
    assert(items.len() <= 8 ==> slots[8] is None);
    assert(items.len() <= 9 ==> slots[9] is None);
    assert(items.len() <= 10 ==> slots[10] is None);
    assert(items.len() <= 11 ==> slots[11] is None);
}

/// A body that is accepted is JSON as a whole: `serde_json` takes it for an object or for an
/// array.
pub proof fn accepted_bodies_are_json(body: Seq<u8>)
    ensures
        read_body(body) is Ok ==> json::object_fault(body) is None || json::list_fault(body)
            is None,
{
}

/// A body that is neither an object nor an array is no request, and is told what was expected.
pub proof fn other_value_is_told(before: Seq<u8>, rest: Seq<u8>, fault: Seq<char>)
    requires
        spelled::blank(before),
        rest.len() > 0 ==> !spelled::is_blank(rest[0]) && rest[0] != 0x7b && rest[0] != 0x5b,
        json::object_fault(before + rest) == Some(fault),
    ensures
        read_body(before + rest) == Err::<RequestView, Seq<char>>(
            place::retold(
                fault,
                ", expected a map at line "@,
                ", expected "@ + "struct InferenceRequest"@ + " at line "@,
            ),
        ),
{
    spelled::other_value_is_told(before, rest, request_shape());
}

/// An array with more items than the request has fields is refused in the words of `serde_json`
/// for an array of that many items.
pub proof fn long_list_is_told(
    before: Seq<u8>,
    items: Seq<Item>,
    after: Seq<u8>,
    fault: Seq<char>,
)
    requires
        spelled::blank(before),
        items.len() > 12,
        forall|i: int|
            #![trigger items[i]]
            0 <= i < items.len() ==> spelled::well_spelled_item(items[i]) && readable_item(
                i,
                items[i].value,
            ),
        json::twelve_fault(spelled::list_bytes(before, items, after)) == Some(fault),
    ensures
        read_body(spelled::list_bytes(before, items, after))
            == Err::<RequestView, Seq<char>>(fault),
{
    let helds = Seq::new(items.len(), |i: int| item_for(i, items[i].value));
    assert forall|i: int| #![trigger items[i]] 0 <= i < 12 implies spelled::spells(
        request_shape().fields[i].1,
        items[i].value,
        helds[i],
    ) by {
        readable_item_is_held(i, items[i].value);
    }
    spelled::long_list_is_told(before, items, after, request_shape(), helds);
}

/// An array with fewer items than the request has fields without a default is refused in the
/// words of `serde_json` for an array of as many items as there are fields, told of this
/// message.
pub proof fn short_list_is_told(
    before: Seq<u8>,
    items: Seq<Item>,
    after: Seq<u8>,
    fault: Seq<char>,
)
    requires
        spelled::blank(before),
        0 < items.len() < 3,
        forall|i: int|
            #![trigger items[i]]
            0 <= i < items.len() ==> spelled::well_spelled_item(items[i]) && readable_item(
                i,
                items[i].value,
            ),
        json::twelve_fault(spelled::list_bytes(before, items, after)) == Some(fault),
    ensures
        read_body(spelled::list_bytes(before, items, after)) == Err::<RequestView, Seq<char>>(
            place::retold(
                fault,
                ", expected a tuple of size 12 at line "@,
                ", expected "@ + "struct InferenceRequest with 12 elements"@ + " at line "@,
            ),
        ),
{
    let helds = Seq::new(items.len(), |i: int| item_for(i, items[i].value));
    assert forall|i: int| #![trigger items[i]] 0 <= i < items.len() implies spelled::spells(
        request_shape().fields[i].1,
        items[i].value,
        helds[i],
    ) by {
        readable_item_is_held(i, items[i].value);
    }
    spelled::short_list_is_told(before, items, after, request_shape(), helds);
}

/// An object without members is no request: its first field is missing.
pub proof fn empty_object_is_told(before: Seq<u8>, inner: Seq<u8>, after: Seq<u8>)
    requires
        spelled::blank(before),
        spelled::blank(inner),
    ensures
        ({
            let bytes = before + (seq![0x7bu8] + (inner + (seq![0x7du8] + after)));
            read_body(bytes) == Err::<RequestView, Seq<char>>(
                "missing field `"@ + "prompt"@ + "`"@ + place::place(
                    bytes,
                    bytes.len() - after.len(),
                ),
            )
        }),
{
    spelled::empty_object_is_read(before, inner, after, request_shape());
    reveal_with_fuel(record::first_missing, 4);
}

/// A body that breaks off where a name should stand is told in the words of `serde_json`, if
/// the members before can be read.
pub proof fn broken_text_is_told(
    before: Seq<u8>,
    inner: Seq<u8>,
    ms: Seq<Spelled>,
    junk: Seq<u8>,
    fault: Seq<char>,
)
    requires
        spelled::blank(before),
        spelled::blank(inner),
        all_readable(ms),
        ms.len() > 0 ==> ms[0].lead.len() == 0,
        json::json_span(junk) is None,
        junk.len() > 0 && !spelled::is_blank(junk[0]) && junk[0] != 0x7d,
        json::object_fault(before + (seq![0x7bu8] + (inner + spelled::comma_bytes(ms, junk))))
            == Some(fault),
    ensures
        read_body(before + (seq![0x7bu8] + (inner + spelled::comma_bytes(ms, junk)))) == Err::<
            RequestView,
            Seq<char>,
        >(fault),
{
    readable_is_fit(ms);
    spelled::broken_object_is_told(before, inner, ms, junk, request_shape(), helds_of(ms));
}

/// Whether the field at that place cannot hold what the bytes open with, for that reason.
pub open spec fn refused_item(i: int, bytes: Seq<u8>, message: Seq<char>) -> bool {
    ||| i == 0 && json::text_read(bytes) == Err::<Seq<char>, Seq<char>>(message)
    ||| i == 1 && json::text_read(bytes) == Err::<Seq<char>, Seq<char>>(message)
    ||| i == 2 && json::word_read(bytes) == Err::<u32, Seq<char>>(message)
    ||| i == 3 && json::optional_text_read(bytes) == Err::<Option<Seq<char>>, Seq<char>>(message)
    ||| i == 4 && json::optional_text_read(bytes) == Err::<Option<Seq<char>>, Seq<char>>(message)
    ||| i == 5 && json::optional_text_read(bytes) == Err::<Option<Seq<char>>, Seq<char>>(message)
    ||| i == 6 && json::flag_read(bytes) == Err::<bool, Seq<char>>(message)
    ||| i == 7 && json::flag_read(bytes) == Err::<bool, Seq<char>>(message)
    ||| i == 8 && json::flag_read(bytes) == Err::<bool, Seq<char>>(message)
    ||| i == 9 && json::flag_read(bytes) == Err::<bool, Seq<char>>(message)
    ||| i == 10 && json::byte_read(bytes) == Err::<u8, Seq<char>>(message)
    ||| i == 11 && json::flag_read(bytes) == Err::<bool, Seq<char>>(message)
}

/// An item that its field cannot hold is told in the words for its value at its place, whatever
/// stands behind it.
pub proof fn misread_item_is_told(
    before: Seq<u8>,
    items: Seq<Item>,
    after: Seq<u8>,
    j: int,
    copy: Seq<u8>,
    message: Seq<char>,
)
    requires
        spelled::blank(before),
        0 <= j < items.len(),
        forall|i: int| 0 <= i < items.len() ==> spelled::well_spelled_item(#[trigger] items[i]),
        forall|i: int|
            #![trigger items[i]]
            0 <= i < j ==> readable_item(i, items[i].value),
        spelled::is_blanked(
            copy,
            spelled::list_bytes(before, items, after),
            spelled::value_at(before, items, j),
        ),
        refused_item(j, copy, message),
    ensures
        read_body(spelled::list_bytes(before, items, after))
            == Err::<RequestView, Seq<char>>(message),
{
    let helds = Seq::new(items.len(), |i: int| item_for(i, items[i].value));
    assert forall|i: int| #![trigger items[i]] 0 <= i < j implies spelled::spells(
        request_shape().fields[i].1,
        items[i].value,
        helds[i],
    ) by {
        readable_item_is_held(i, items[i].value);
    }
    spelled::misread_item_is_told(before, items, after, request_shape(), helds, j, copy, message);
}

/// Where something else is wrong with an array as a whole, such as more text behind it, that is
/// told.
pub proof fn faulty_list_is_told(
    before: Seq<u8>,
    items: Seq<Item>,
    after: Seq<u8>,
    message: Seq<char>,
)
    requires
        spelled::blank(before),
        3 <= items.len() <= 12,
        forall|i: int|
            #![trigger items[i]]
            0 <= i < items.len() ==> spelled::well_spelled_item(items[i]) && readable_item(
                i,
                items[i].value,
            ),
        json::list_fault(spelled::list_bytes(before, items, after)) == Some(message),
    ensures
        read_body(spelled::list_bytes(before, items, after))
            == Err::<RequestView, Seq<char>>(message),
{
    let helds = Seq::new(items.len(), |i: int| item_for(i, items[i].value));
    assert forall|i: int| #![trigger items[i]] 0 <= i < items.len() implies spelled::spells(
        request_shape().fields[i].1,
        items[i].value,
        helds[i],
    ) by {
        readable_item_is_held(i, items[i].value);
    }
    let slots = spelled::list_is_read(before, items, after, request_shape(), helds);
}

/// An array without items is refused in the words of `serde_json` for an array of as many items
/// as there are fields, told of this message.
pub proof fn empty_list_is_told(
    before: Seq<u8>,
    inner: Seq<u8>,
    after: Seq<u8>,
    fault: Seq<char>,
)
    requires
        spelled::blank(before),
        spelled::blank(inner),
        json::twelve_fault(before + (seq![0x5bu8] + (inner + (seq![0x5du8] + after))))
            == Some(fault),
    ensures
        read_body(before + (seq![0x5bu8] + (inner + (seq![0x5du8] + after)))) == Err::<
            RequestView,
            Seq<char>,
        >(
            place::retold(
                fault,
                ", expected a tuple of size 12 at line "@,
                ", expected "@ + "struct InferenceRequest with 12 elements"@ + " at line "@,
            ),
        ),
{
    spelled::empty_list_is_read(before, inner, after, request_shape());
    reveal_with_fuel(record::first_missing, 4);
}

} // verus!
