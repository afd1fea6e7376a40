//! Response side of the wire protocol: the frames that a provider streams back.
//!
//! Every frame is `[1-byte tag][2-byte little-endian length][payload]`. A client decodes
//! them one at a time off a sliding buffer. A whole response is `Meta`, then `Token`s,
//! then `Done`; or it ends in `Error`.

use vstd::prelude::*;
use vstd::slice::slice_subrange;
use vstd::string::*;
use vstd::utf8::*;

use crate::wire;

pub mod tag;

verus! {

/// One frame of a streamed response.
#[derive(Debug, Clone)]
pub enum Frame {
    /// One emitted token of text.
    Token(String),
    /// Inference is complete. `tokens_used` counts the tokens of the whole request.
    Done { tokens_used: u64 },
    /// Inference failed. No further frame follows for this request.
    Error(String),
    /// The provider's name. Sent first, before any token.
    Meta { model: String },
    /// A structured payload, such as the health report: JSON text whose schema is that
    /// of the request that asked for it.
    Json(String),
}

/// What a frame says.
pub enum FrameView {
    Token(Seq<char>),
    Done { tokens_used: u64 },
    Error(Seq<char>),
    Meta { model: Seq<char> },
    Json(Seq<char>),
}

impl View for Frame {
    type V = FrameView;

    open spec fn view(&self) -> FrameView {
        match self {
            Frame::Token(text) => FrameView::Token(text@),
            Frame::Done { tokens_used } => FrameView::Done { tokens_used: *tokens_used },
            Frame::Error(text) => FrameView::Error(text@),
            Frame::Meta { model } => FrameView::Meta { model: model@ },
            Frame::Json(text) => FrameView::Json(text@),
        }
    }
}

/// Why a buffer holds no frame.
#[derive(Debug)]
pub enum FrameError {
    /// The frame has not arrived whole: read more and try again.
    Incomplete,
    /// A text payload is not UTF-8.
    InvalidUtf8,
    /// No frame has this tag.
    UnknownType(u8),
    /// The payload does not fit the tag.
    Malformed(&'static str),
}

/// What a frame error says.
pub enum FrameErrorView {
    Incomplete,
    InvalidUtf8,
    UnknownType(u8),
    Malformed(Seq<char>),
}

impl View for FrameError {
    type V = FrameErrorView;

    open spec fn view(&self) -> FrameErrorView {
        match self {
            FrameError::Incomplete => FrameErrorView::Incomplete,
            FrameError::InvalidUtf8 => FrameErrorView::InvalidUtf8,
            FrameError::UnknownType(t) => FrameErrorView::UnknownType(*t),
            FrameError::Malformed(reason) => FrameErrorView::Malformed(reason@),
        }
    }
}

impl FrameView {
    /// The tag byte of the frame.
    pub open spec fn tag(self) -> u8 {
        match self {
            FrameView::Token(_) => tag::TOKEN,
            FrameView::Done { .. } => tag::DONE,
            FrameView::Error(_) => tag::ERROR,
            FrameView::Meta { .. } => tag::META,
            FrameView::Json(_) => tag::JSON,
        }
    }

    /// The payload of the frame: the UTF-8 of its text, or its count as eight bytes.
    pub open spec fn payload(self) -> Seq<u8> {
        match self {
            FrameView::Token(text) => encode_utf8(text),
            FrameView::Done { tokens_used } => wire::le64(tokens_used as nat),
            FrameView::Error(text) => encode_utf8(text),
            FrameView::Meta { model } => encode_utf8(model),
            FrameView::Json(text) => encode_utf8(text),
        }
    }

    /// Whether the length field can hold the payload's length.
    pub open spec fn fits(self) -> bool {
        self.payload().len() <= u16::MAX
    }

    /// The frame on the wire.
    pub open spec fn encoded(self) -> Seq<u8> {
        framed(self.tag(), self.payload())
    }
}

/// A tag and a payload on the wire. The length field holds the low 16 bits of the
/// payload's length.
pub open spec fn framed(tag: u8, payload: Seq<u8>) -> Seq<u8> {
    seq![tag] + wire::le16(payload.len() % 0x1_0000) + payload
}

/// The frame that a tag and a whole payload make.
pub open spec fn frame_of(tag: u8, payload: Seq<u8>) -> Result<FrameView, FrameErrorView> {
    if tag == tag::DONE {
        if payload.len() == 8 {
            Ok(FrameView::Done { tokens_used: wire::value64(payload) as u64 })
        } else {
            Err(FrameErrorView::Malformed("DONE payload must be 8 bytes"@))
        }
    } else if tag == tag::TOKEN || tag == tag::ERROR || tag == tag::META || tag == tag::JSON {
        if !valid_utf8(payload) {
            Err(FrameErrorView::InvalidUtf8)
        } else if tag == tag::TOKEN {
            Ok(FrameView::Token(decode_utf8(payload)))
        } else if tag == tag::ERROR {
            Ok(FrameView::Error(decode_utf8(payload)))
        } else if tag == tag::META {
            Ok(FrameView::Meta { model: decode_utf8(payload) })
        } else {
            Ok(FrameView::Json(decode_utf8(payload)))
        }
    } else {
        Err(FrameErrorView::UnknownType(tag))
    }
}

/// The payload length that a header of three bytes declares.
pub open spec fn declared_len(buf: Seq<u8>) -> nat {
    wire::value16(buf.subrange(1, 3))
}

/// The first frame of a buffer and the bytes it takes, or why there is none.
pub open spec fn decoded(buf: Seq<u8>) -> Result<(FrameView, nat), FrameErrorView> {
    if buf.len() < 3 || buf.len() < 3 + declared_len(buf) {
        Err(FrameErrorView::Incomplete)
    } else {
        let end = 3 + declared_len(buf);
        match frame_of(buf[0], buf.subrange(3, end as int)) {
            Ok(frame) => Ok((frame, end)),
            Err(error) => Err(error),
        }
    }
}

impl Frame {
    /// Encodes the frame for the wire.
    ///
    /// A payload of 64 KiB or more does not fit the length field, which then holds the
    /// low 16 bits of its length.
    pub fn encode(&self) -> (bytes: Vec<u8>)
        ensures
            bytes@ == self@.encoded(),
            self matches Frame::Token(text) ==> bytes@ == header(0x01, encode_utf8(text@).len())
                + encode_utf8(text@),
            self matches Frame::Done { tokens_used } ==> bytes@.len() == 11 && bytes@.take(3)
                == seq![0x02u8, 8, 0] && tokens_used == spelled64(bytes@.skip(3)),
            self matches Frame::Error(text) ==> bytes@ == header(0x03, encode_utf8(text@).len())
                + encode_utf8(text@),
            self matches Frame::Meta { model } ==> bytes@ == header(0x04, encode_utf8(model@).len())
                + encode_utf8(model@),
            self matches Frame::Json(text) ==> bytes@ == header(0x05, encode_utf8(text@).len())
                + encode_utf8(text@),
    {
        proof {
            frame_bytes(self@);
            frame_says(*self);
            if let Frame::Done { tokens_used } = *self {
                wire::le64_round_trip(tokens_used as nat, Seq::empty());
                done_payload(tokens_used);
            }
        }
        match self {
            Frame::Token(text) => encode_frame(tag::TOKEN, text.as_str().as_bytes()),
            Frame::Done { tokens_used } => {
                let mut count: Vec<u8> = Vec::new();
                wire::push_le64(&mut count, *tokens_used);
                assert(count@ =~= wire::le64(*tokens_used as nat));
                encode_frame(tag::DONE, count.as_slice())
            },
            Frame::Error(text) => encode_frame(tag::ERROR, text.as_str().as_bytes()),
            Frame::Meta { model } => encode_frame(tag::META, model.as_str().as_bytes()),
            Frame::Json(text) => encode_frame(tag::JSON, text.as_str().as_bytes()),
        }
    }

    /// Decodes the first frame of a buffer, and says how many bytes it took.
    ///
    /// Called again and again on a sliding buffer, this drains a stream of frames.
    pub fn decode(buf: &[u8]) -> (result: Result<(Frame, usize), FrameError>)
        ensures
            match result {
                Ok((frame, consumed)) => decoded(buf@) == Ok::<(FrameView, nat), FrameErrorView>(
                    (frame@, consumed as nat),
                ),
                Err(error) => decoded(buf@) == Err::<(FrameView, nat), FrameErrorView>(error@),
            },
            (result matches Err(FrameError::Incomplete)) == (buf@.len() < 3 || buf@.len() < 3
                + buf@[1] + 256 * buf@[2]),
            result matches Ok((frame, consumed)) ==> consumed == 3 + buf@[1] + 256 * buf@[2]
                && match frame {
                Frame::Token(text) => buf@[0] == 0x01 && encode_utf8(text@) == buf@.subrange(
                    3,
                    consumed as int,
                ),
                Frame::Done { tokens_used } => buf@[0] == 0x02 && consumed == 11 && tokens_used
                    == spelled64(buf@.subrange(3, 11)),
                Frame::Error(text) => buf@[0] == 0x03 && encode_utf8(text@) == buf@.subrange(
                    3,
                    consumed as int,
                ),
                Frame::Meta { model } => buf@[0] == 0x04 && encode_utf8(model@) == buf@.subrange(
                    3,
                    consumed as int,
                ),
                Frame::Json(text) => buf@[0] == 0x05 && encode_utf8(text@) == buf@.subrange(
                    3,
                    consumed as int,
                ),
            },
            result matches Err(FrameError::UnknownType(t)) ==> t == buf@[0] && !(1 <= t <= 5),
            result matches Err(FrameError::Malformed(_)) ==> buf@[0] == 0x02 && !(buf@[1] == 8
                && buf@[2] == 0),
            result matches Err(FrameError::InvalidUtf8) ==> buf@[0] != 0x02 && !valid_utf8(
                buf@.subrange(3, 3 + buf@[1] + 256 * buf@[2]),
            ),
    {
        proof {
            buffer_is_read(buf@);
        }
        if buf.len() < 3 {
            return Err(FrameError::Incomplete);
        }
        let frame_type = buf[0];
        let payload_len = wire::read_le16(slice_subrange(buf, 1, 3)) as usize;
        if buf.len() < 3 + payload_len {
            return Err(FrameError::Incomplete);
        }
        let payload = slice_subrange(buf, 3, 3 + payload_len);
        let frame = if frame_type == tag::TOKEN {
            Frame::Token(utf8(payload)?)
        } else if frame_type == tag::DONE {
            if payload_len != 8 {
                return Err(FrameError::Malformed("DONE payload must be 8 bytes"));
            }
            Frame::Done { tokens_used: wire::read_le64(payload) }
        } else if frame_type == tag::ERROR {
            Frame::Error(utf8(payload)?)
        } else if frame_type == tag::META {
            Frame::Meta { model: utf8(payload)? }
        } else if frame_type == tag::JSON {
            Frame::Json(utf8(payload)?)
        } else {
            return Err(FrameError::UnknownType(frame_type));
        };
        Ok((frame, 3 + payload_len))
    }
}

/// One of the sixteen hexadecimal digits.
pub open spec fn hex_digit(d: int) -> char {
    "0123456789abcdef"@[d]
}

impl FrameErrorView {
    /// The error in words.
    pub open spec fn message(self) -> Seq<char> {
        match self {
            FrameErrorView::Incomplete => "incomplete frame buffer"@,
            FrameErrorView::InvalidUtf8 => "frame payload is not valid UTF-8"@,
            FrameErrorView::UnknownType(t) => "unknown frame type: 0x"@ + seq![
                hex_digit(t as int / 16),
                hex_digit(t as int % 16),
            ],
            FrameErrorView::Malformed(reason) => "malformed frame: "@ + reason,
        }
    }
}

impl FrameError {
    /// Says the error in words.
    pub fn message(&self) -> (text: String)
        ensures
            text@ == self@.message(),
    {
        match self {
            FrameError::Incomplete => "incomplete frame buffer".to_owned(),
            FrameError::InvalidUtf8 => "frame payload is not valid UTF-8".to_owned(),
            FrameError::UnknownType(t) => {
                proof {
                    reveal_strlit("0123456789abcdef");
                }
                let digits = "0123456789abcdef";
                let mut text = "unknown frame type: 0x".to_owned();
                text.push(digits.get_char((*t / 16) as usize));
                text.push(digits.get_char((*t % 16) as usize));
                assert(text@ =~= self@.message());
                text
            },
            FrameError::Malformed(reason) => {
                let mut text = "malformed frame: ".to_owned();
                text.append(reason);
                text
            },
        }
    }
}

/// Builds the wire bytes of one frame.
pub fn encode_frame(frame_type: u8, payload: &[u8]) -> (buf: Vec<u8>)
    ensures
        buf@ == framed(frame_type, payload@),
{
    let len = (payload.len() % 0x1_0000) as u16;
    let mut buf: Vec<u8> = Vec::with_capacity(payload.len());
    buf.push(frame_type);
    wire::push_le16(&mut buf, len);
    wire::push_bytes(&mut buf, payload);
    assert(buf@ =~= framed(frame_type, payload@));
    buf
}

/// Reads a payload as text.
pub fn utf8(bytes: &[u8]) -> (result: Result<String, FrameError>)
    ensures
        match result {
            Ok(text) => valid_utf8(bytes@) && text@ == decode_utf8(bytes@),
            Err(error) => !valid_utf8(bytes@) && error == FrameError::InvalidUtf8,
        },
{
    match core::str::from_utf8(bytes) {
        Ok(text) => Ok(text.to_owned()),
        Err(_) => Err(FrameError::InvalidUtf8),
    }
}

/// The frames on the wire, one after the other.
pub open spec fn stream(frames: Seq<FrameView>) -> Seq<u8>
    decreases frames.len(),
{
    if frames.len() == 0 {
        Seq::empty()
    } else {
        frames[0].encoded() + stream(frames.drop_first())
    }
}

/// The frames that are decoded off a sliding buffer until one fails, and the bytes that
/// are then left.
pub open spec fn drained(buf: Seq<u8>) -> (Seq<FrameView>, Seq<u8>)
    decreases buf.len(),
{
    match decoded(buf) {
        Ok((frame, consumed)) => {
            let (frames, left) = drained(buf.skip(consumed as int));
            (seq![frame] + frames, left)
        },
        Err(_) => (Seq::empty(), buf),
    }
}

/// A frame that fits comes back from its bytes, whatever follows them, and takes all of
/// them and no more.
pub proof fn frame_round_trip(frame: FrameView, rest: Seq<u8>)
    requires
        frame.fits(),
    ensures
        decoded(frame.encoded() + rest) == Ok::<(FrameView, nat), FrameErrorView>(
            (frame, frame.encoded().len()),
        ),
{
    let payload = frame.payload();
    let buf = frame.encoded() + rest;
    assert(buf.subrange(1, 3) =~= wire::le16(payload.len()));
    wire::le16_round_trip(payload.len(), Seq::empty());
    assert(buf.subrange(3, 3 + payload.len() as int) =~= payload);
    assert(buf[0] == frame.tag());
    match frame {
        FrameView::Done { tokens_used } => {
            wire::le64_round_trip(tokens_used as nat, Seq::empty());
        },
        FrameView::Token(text) => {
            encode_utf8_valid_utf8(text);
            encode_utf8_decode_utf8(text);
        },
        FrameView::Error(text) => {
            encode_utf8_valid_utf8(text);
            encode_utf8_decode_utf8(text);
        },
        FrameView::Meta { model } => {
            encode_utf8_valid_utf8(model);
            encode_utf8_decode_utf8(model);
        },
        FrameView::Json(text) => {
            encode_utf8_valid_utf8(text);
            encode_utf8_decode_utf8(text);
        },
    }
}

/// A decoded frame fits, and its bytes are the very ones that it was decoded from: no two
/// encodings mean one frame.
pub proof fn decoded_bytes_are_canonical(buf: Seq<u8>)
    ensures
        decoded(buf) matches Ok((frame, consumed)) ==> frame.fits() && 3 <= consumed <= buf.len()
            && frame.encoded() == buf.take(consumed as int),
{
    if let Ok((frame, consumed)) = decoded(buf) {
        let header = buf.subrange(1, 3);
        let payload = buf.subrange(3, consumed as int);
        wire::le16_round_trip(0, header);
        if buf[0] == tag::DONE {
            wire::le64_round_trip(0, payload);
        } else {
            decode_utf8_encode_utf8(payload);
        }
        assert(frame.payload() == payload);
        assert(frame.encoded() =~= buf.take(consumed as int));
    }
}

/// A frame that has not arrived whole is incomplete, wherever it was cut.
pub proof fn cut_frame_is_incomplete(frame: FrameView, cut: int)
    requires
        frame.fits(),
        0 <= cut < frame.encoded().len(),
    ensures
        decoded(frame.encoded().take(cut)) == Err::<(FrameView, nat), FrameErrorView>(
            FrameErrorView::Incomplete,
        ),
{
    let buf = frame.encoded().take(cut);
    if cut >= 3 {
        assert(buf.subrange(1, 3) =~= wire::le16(frame.payload().len()));
        wire::le16_round_trip(frame.payload().len(), Seq::empty());
    }
}

/// Bytes that arrive later change nothing of an answer other than "incomplete".
pub proof fn later_bytes_change_nothing(buf: Seq<u8>, later: Seq<u8>)
    ensures
        decoded(buf) != Err::<(FrameView, nat), FrameErrorView>(FrameErrorView::Incomplete)
            ==> decoded(buf + later) == decoded(buf),
{
    if buf.len() >= 3 {
        assert((buf + later).subrange(1, 3) =~= buf.subrange(1, 3));
        let end = 3 + declared_len(buf);
        if buf.len() >= end {
            assert((buf + later).subrange(3, end as int) =~= buf.subrange(3, end as int));
        }
    }
}

/// Draining a stream gives back its frames in order, and leaves what follows the last
/// whole frame.
pub proof fn stream_round_trip(frames: Seq<FrameView>, tail: Seq<u8>)
    requires
        forall|i: int| 0 <= i < frames.len() ==> (#[trigger] frames[i]).fits(),
        decoded(tail) is Err,
    ensures
        drained(stream(frames) + tail) == (frames, tail),
    decreases frames.len(),
{
    let buf = stream(frames) + tail;
    if frames.len() == 0 {
        assert(buf =~= tail);
        assert(frames =~= Seq::empty());
    } else {
        let rest = stream(frames.drop_first()) + tail;
        assert(buf =~= frames[0].encoded() + rest);
        frame_round_trip(frames[0], rest);
        assert(buf.skip(frames[0].encoded().len() as int) =~= rest);
        stream_round_trip(frames.drop_first(), tail);
        assert(seq![frames[0]] + frames.drop_first() =~= frames);
    }
}

/// The bytes of a frame never begin those of another: a reader that has a whole frame knows
/// it without looking further.
pub proof fn no_frame_begins_another(one: FrameView, other: FrameView)
    requires
        one.fits(),
        other.fits(),
        one.encoded().is_prefix_of(other.encoded()),
    ensures
        one == other,
{
    let rest = other.encoded().skip(one.encoded().len() as int);
    assert(other.encoded() =~= one.encoded() + rest);
    assert(other.encoded() =~= other.encoded() + Seq::<u8>::empty());
    frame_round_trip(one, rest);
    frame_round_trip(other, Seq::empty());
}

/// What a reader gets of a token of 64 KiB or more: so much of its text as the low 16 bits of
/// the length say, or an error where that ends within a character.
pub proof fn oversize_token_is_cut(text: Seq<char>, rest: Seq<u8>)
    requires
        !FrameView::Token(text).fits(),
    ensures
        ({
            let count = encode_utf8(text).len() % 0x1_0000;
            let part = encode_utf8(text).take(count as int);
            decoded(FrameView::Token(text).encoded() + rest) == if valid_utf8(part) {
                Ok::<(FrameView, nat), FrameErrorView>(
                    (FrameView::Token(decode_utf8(part)), 3 + count),
                )
            } else {
                Err(FrameErrorView::InvalidUtf8)
            }
        }),
{
    let payload = encode_utf8(text);
    let count = payload.len() % 0x1_0000;
    let buf = FrameView::Token(text).encoded() + rest;
    assert(buf.subrange(1, 3) =~= wire::le16(count));
    wire::le16_round_trip(count, Seq::empty());
    assert(buf.subrange(3, 3 + count as int) =~= payload.take(count as int));
    assert(buf[0] == tag::TOKEN);
}

/// A tag and a length in two bytes, least significant first. Of a length of 64 KiB or more
/// they hold the remainder.
pub open spec fn header(tag: u8, len: nat) -> Seq<u8> {
    seq![tag, (len % 256) as u8, (len / 256 % 256) as u8]
}

/// The number that eight bytes make, each worth 256 times the one before it.
pub open spec fn spelled64(bytes: Seq<u8>) -> int {
    bytes[0] + 256 * bytes[1] + 65536 * bytes[2] + 16777216 * bytes[3] + 4294967296 * bytes[4]
        + 1099511627776 * bytes[5] + 281474976710656 * bytes[6] + 72057594037927936 * bytes[7]
}

/// A frame says what it holds.
pub proof fn frame_says(frame: Frame)
    ensures
        match frame {
            Frame::Token(text) => frame@ == FrameView::Token(text@),
            Frame::Done { tokens_used } => frame@ == (FrameView::Done { tokens_used }),
            Frame::Error(text) => frame@ == FrameView::Error(text@),
            Frame::Meta { model } => frame@ == (FrameView::Meta { model: model@ }),
            Frame::Json(text) => frame@ == FrameView::Json(text@),
        },
{
}

/// An error says what it holds.
pub proof fn frame_error_says(error: FrameError)
    ensures
        match error {
            FrameError::Incomplete => error@ == FrameErrorView::Incomplete,
            FrameError::InvalidUtf8 => error@ == FrameErrorView::InvalidUtf8,
            FrameError::UnknownType(t) => error@ == FrameErrorView::UnknownType(t),
            FrameError::Malformed(reason) => error@ == FrameErrorView::Malformed(reason@),
        },
{
}

/// Any tag and payload stand on the wire as the tag, the length in two bytes and the payload.
pub proof fn framed_bytes(tag: u8, payload: Seq<u8>)
    ensures
        framed(tag, payload) == header(tag, payload.len()) + payload,
{
    let len = payload.len();
    assert(len % 0x1_0000 % 256 == len % 256);
    assert(len % 0x1_0000 / 256 % 256 == len / 256 % 256);
    assert(framed(tag, payload) =~= header(tag, len) + payload);
}

/// The bytes of each frame: its tag, the length in two bytes, and the UTF-8 of its text, or
/// eight bytes of which each is worth 256 times the one before it.
pub proof fn frame_bytes(frame: FrameView)
    ensures
        match frame {
            FrameView::Token(text) => frame.encoded() == header(0x01, encode_utf8(text).len())
                + encode_utf8(text),
            FrameView::Done { tokens_used } => frame.encoded() == seq![0x02u8, 8, 0] + seq![
                (tokens_used % 256) as u8,
                (tokens_used / 256 % 256) as u8,
                (tokens_used / 65536 % 256) as u8,
                (tokens_used / 16777216 % 256) as u8,
                (tokens_used / 4294967296 % 256) as u8,
                (tokens_used / 1099511627776 % 256) as u8,
                (tokens_used / 281474976710656 % 256) as u8,
                (tokens_used / 72057594037927936 % 256) as u8,
            ],
            FrameView::Error(text) => frame.encoded() == header(0x03, encode_utf8(text).len())
                + encode_utf8(text),
            FrameView::Meta { model } => frame.encoded() == header(0x04, encode_utf8(model).len())
                + encode_utf8(model),
            FrameView::Json(text) => frame.encoded() == header(0x05, encode_utf8(text).len())
                + encode_utf8(text),
        },
{
    framed_bytes(frame.tag(), frame.payload());
    if let FrameView::Done { tokens_used } = frame {
        wire::le64_bytes(tokens_used as nat);
        assert(header(2, 8) =~= seq![0x02u8, 8, 0]);
    }
}

/// The payload of `Done` spells its count.
pub proof fn done_payload(tokens_used: u64)
    ensures
        (FrameView::Done { tokens_used }).encoded().len() == 11,
        (FrameView::Done { tokens_used }).encoded().take(3) == seq![0x02u8, 8, 0],
        spelled64((FrameView::Done { tokens_used }).encoded().skip(3)) == tokens_used,
{
    let bytes = (FrameView::Done { tokens_used }).encoded();
    frame_bytes(FrameView::Done { tokens_used });
    wire::le64_round_trip(tokens_used as nat, Seq::empty());
    wire::value64_sum(wire::le64(tokens_used as nat));
    wire::le64_bytes(tokens_used as nat);
    assert(bytes.skip(3) =~= wire::le64(tokens_used as nat));
    assert(bytes.take(3) =~= seq![0x02u8, 8, 0]);
}

/// What is read of a tag, a length in two bytes, so many bytes, and whatever follows. A text
/// is the one whose UTF-8 the bytes are, and a count is what eight bytes spell.
pub proof fn payload_is_read(tag: u8, payload: Seq<u8>, rest: Seq<u8>)
    requires
        payload.len() < 0x1_0000,
    ensures
        ({
            let result = decoded(header(tag, payload.len()) + payload + rest);
            let end = 3 + payload.len();
            if tag == 0x02 {
                if payload.len() == 8 {
                    result matches Ok((frame, n)) && n == 11 && (match frame {
                        FrameView::Done { tokens_used } => tokens_used == spelled64(payload),
                        _ => false,
                    })
                } else {
                    result == Err::<(FrameView, nat), FrameErrorView>(
                        FrameErrorView::Malformed("DONE payload must be 8 bytes"@),
                    )
                }
            } else if tag == 0 || tag > 5 {
                result == Err::<(FrameView, nat), FrameErrorView>(FrameErrorView::UnknownType(tag))
            } else if !valid_utf8(payload) {
                result == Err::<(FrameView, nat), FrameErrorView>(FrameErrorView::InvalidUtf8)
            } else {
                result matches Ok((frame, n)) && n == end && match frame {
                    FrameView::Token(text) => tag == 0x01 && encode_utf8(text) == payload,
                    FrameView::Error(text) => tag == 0x03 && encode_utf8(text) == payload,
                    FrameView::Meta { model } => tag == 0x04 && encode_utf8(model) == payload,
                    FrameView::Json(text) => tag == 0x05 && encode_utf8(text) == payload,
                    FrameView::Done { .. } => false,
                }
            }
        }),
{
    let buf = header(tag, payload.len()) + payload + rest;
    assert(buf.subrange(1, 3) =~= wire::le16(payload.len()));
    wire::le16_round_trip(payload.len(), Seq::empty());
    assert(buf.subrange(3, 3 + payload.len() as int) =~= payload);
    assert(buf[0] == tag);
    if payload.len() == 8 {
        wire::value64_sum(payload);
        wire::le64_round_trip(0, payload);
    }
    if valid_utf8(payload) {
        decode_utf8_encode_utf8(payload);
    }
}

/// A buffer is incomplete exactly where it is shorter than a header, or than its header says.
/// Any other is a tag, a length, so many bytes, and what follows, of which
/// [`payload_is_read`] says what is read.
pub proof fn buffer_is_read(buf: Seq<u8>)
    ensures
        decoded(buf) == Err::<(FrameView, nat), FrameErrorView>(FrameErrorView::Incomplete) <==> (
        buf.len() < 3 || buf.len() < 3 + buf[1] + 256 * buf[2]),
        buf.len() >= 3 && buf.len() >= 3 + buf[1] + 256 * buf[2] ==> ({
            let end = 3 + buf[1] + 256 * buf[2];
            let payload = buf.subrange(3, end);
            match decoded(buf) {
                Ok((frame, n)) => n == end && match frame {
                    FrameView::Token(text) => buf[0] == 0x01 && encode_utf8(text) == payload,
                    FrameView::Done { tokens_used } => buf[0] == 0x02 && payload.len() == 8
                        && tokens_used == spelled64(payload),
                    FrameView::Error(text) => buf[0] == 0x03 && encode_utf8(text) == payload,
                    FrameView::Meta { model } => buf[0] == 0x04 && encode_utf8(model) == payload,
                    FrameView::Json(text) => buf[0] == 0x05 && encode_utf8(text) == payload,
                },
                Err(FrameErrorView::Incomplete) => false,
                Err(FrameErrorView::InvalidUtf8) => 1 <= buf[0] <= 5 && buf[0] != 2 && !valid_utf8(
                    payload,
                ),
                Err(FrameErrorView::UnknownType(t)) => t == buf[0] && !(1 <= t <= 5),
                Err(FrameErrorView::Malformed(_)) => buf[0] == 2 && payload.len() != 8,
            }
        }),
{
    if buf.len() >= 3 {
        let len = (buf[1] + 256 * buf[2]) as nat;
        assert(declared_len(buf) == len);
        if buf.len() >= 3 + len {
            let payload = buf.subrange(3, 3 + len as int);
            let rest = buf.skip(3 + len as int);
            assert(buf =~= header(buf[0], len) + payload + rest);
            payload_is_read(buf[0], payload, rest);
        }
    }
}

/// The words of each error. A tag is told as two hexadecimal digits, the first worth sixteen
/// times the second.
pub proof fn frame_error_words(error: FrameErrorView)
    ensures
        match error {
            FrameErrorView::Incomplete => error.message() == "incomplete frame buffer"@,
            FrameErrorView::InvalidUtf8 => error.message() == "frame payload is not valid UTF-8"@,
            FrameErrorView::Malformed(reason) => error.message() == "malformed frame: "@ + reason,
            FrameErrorView::UnknownType(t) => exists|high: char, low: char|
                #![trigger digit_value(high), digit_value(low)]
                error.message() == "unknown frame type: 0x"@ + seq![high, low] && digit_value(high)
                    is Some && digit_value(low) is Some && t == 16 * digit_value(high)->0
                    + digit_value(low)->0,
        },
{
    if let FrameErrorView::UnknownType(t) = error {
        reveal_strlit("0123456789abcdef");
        let high = hex_digit(t as int / 16);
        let low = hex_digit(t as int % 16);
        assert(digit_value(high) == Some(t as int / 16));
        assert(digit_value(low) == Some(t as int % 16));
    }
}

/// What a hexadecimal digit, in lower case, is worth.
pub open spec fn digit_value(c: char) -> Option<int> {
    if '0' <= c <= '9' {
        Some(c as int - '0' as int)
    } else if 'a' <= c <= 'f' {
        Some(c as int - 'a' as int + 10)
    } else {
        None
    }
}

/// A frame fits exactly where its payload takes less than 64 KiB, as `Done` always does.
pub proof fn frames_that_fit(frame: FrameView)
    ensures
        frame.fits() <==> frame.encoded().len() < 3 + 65536,
        frame is Done ==> frame.fits(),
{
    framed_bytes(frame.tag(), frame.payload());
    if let FrameView::Done { tokens_used } = frame {
        wire::le64_bytes(tokens_used as nat);
    }
}

} // verus!
