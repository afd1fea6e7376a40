//! The provider surface: the model-agnostic interface that a backend implements.
//!
//! This crate names no provider. A backend is a package of its own that implements
//! [`Provider`]; adding one never touches this crate. Across a dynamic boundary travel the
//! protocol's own bytes, request JSON in and encoded frames out, so that a new frame or a
//! new request field leaves the boundary as it is.

use vstd::prelude::*;
use vstd::string::*;
use vstd::utf8::*;

use crate::request;
use crate::request::{InferenceRequest, RequestView};
use crate::response;
use crate::response::{Frame, FrameView};
use crate::wire;

verus! {

/// Version of the provider C ABI: its symbols and their signatures. A caller refuses a
/// library with another one.
pub const PROVIDER_ABI_VERSION: u32 = 1;

/// The call succeeded.
pub const OK: i32 = 0;

/// A required pointer was null.
pub const ERR_NULL_ARG: i32 = -1;

/// The request bytes are no request.
pub const ERR_BAD_REQUEST: i32 = -2;

/// The provider panicked.
pub const ERR_PANIC: i32 = -3;

/// The most bytes that [`FrameSink::emit_text`] puts into one frame. It is well under what
/// the length field of a frame holds.
pub const MAX_TOKEN_BYTES: usize = 60_000;

/// How many characters at the front of a text fit into so many bytes.
pub open spec fn fitting(text: Seq<char>, room: int) -> nat
    decreases text.len(),
{
    if text.len() == 0 || encode_scalar(text[0] as u32).len() > room {
        0
    } else {
        1 + fitting(text.drop_first(), room - encode_scalar(text[0] as u32).len())
    }
}

/// A text cut into pieces, each as long as [`MAX_TOKEN_BYTES`] allows.
pub open spec fn pieces(text: Seq<char>) -> Seq<Seq<char>>
    decreases text.len(),
{
    if text.len() == 0 {
        Seq::empty()
    } else {
        let n = fitting(text, MAX_TOKEN_BYTES as int) as int;
        proof {
            fitting_bounds(text, MAX_TOKEN_BYTES as int);
        }
        seq![text.take(n)] + pieces(text.skip(n))
    }
}

/// The frames that carry some pieces of text.
pub open spec fn tokens(parts: Seq<Seq<char>>) -> Seq<FrameView> {
    parts.map_values(|piece: Seq<char>| FrameView::Token(piece))
}

/// The frames that a text is streamed as.
pub open spec fn token_frames(text: Seq<char>) -> Seq<FrameView> {
    tokens(pieces(text))
}

/// At least one character fits into four bytes or more.
pub proof fn fitting_bounds(text: Seq<char>, room: int)
    ensures
        fitting(text, room) <= text.len(),
        text.len() > 0 && room >= 4 ==> fitting(text, room) >= 1,
    decreases text.len(),
{
    if text.len() > 0 && encode_scalar(text[0] as u32).len() <= room {
        fitting_bounds(text.drop_first(), room - encode_scalar(text[0] as u32).len());
    }
}

/// So many characters fit and no more, if they do and the next one would not.
proof fn fitting_exact(text: Seq<char>, room: int, n: nat)
    requires
        n <= text.len(),
        wire::utf8_len(text.take(n as int)) <= room,
        n < text.len() ==> wire::utf8_len(text.take(n as int)) + encode_scalar(
            text[n as int] as u32,
        ).len() > room,
    ensures
        fitting(text, room) == n,
    decreases n,
{
    if n == 0 {
        assert(text.take(0) =~= Seq::<char>::empty());
        assert(wire::utf8_len(text.take(0)) == 0);
    } else {
        let rest = text.drop_first();
        assert(text.take(n as int).drop_first() =~= rest.take(n - 1));
        if n < text.len() {
            assert(rest[n - 1] == text[n as int]);
        }
        fitting_exact(rest, room - encode_scalar(text[0] as u32).len(), (n - 1) as nat);
    }
}

/// The first piece of a text is all of it that fits.
proof fn first_piece(text: Seq<char>, n: nat)
    requires
        0 < n <= text.len(),
        wire::utf8_len(text.take(n as int)) <= MAX_TOKEN_BYTES,
        n < text.len() ==> wire::utf8_len(text.take(n as int)) + encode_scalar(
            text[n as int] as u32,
        ).len() > MAX_TOKEN_BYTES,
    ensures
        pieces(text) == seq![text.take(n as int)] + pieces(text.skip(n as int)),
{
    fitting_exact(text, MAX_TOKEN_BYTES as int, n);
}

/// Where a provider streams the frames of its response.
///
/// The host supplies the sink. The provider calls [`emit`](FrameSink::emit) once per frame,
/// in order. The host has sent the leading `Meta` frame already, so a provider emits none.
pub trait FrameSink {
    /// The frames that the sink has taken, in order.
    ///
    /// A sink whose code is verified has to say here what it holds: with the default, which
    /// never changes, no `emit` meets its contract. The default is for a sink outside of
    /// verified code, such as one that hands the frames to a callback; of its frames this
    /// says nothing, and that it takes each of them is its author's promise.
    open spec fn emitted(&self) -> Seq<FrameView> {
        Seq::empty()
    }

    /// Takes one frame.
    fn emit(&mut self, frame: Frame)
        ensures
            final(self).emitted() == old(self).emitted().push(frame@),
    ;

    /// Emits a text as `Token` frames that each fit the wire format: `Frame::encode` would
    /// write a wrong length for a text of 64 KiB or more. The text is cut between
    /// characters, never within one.
    fn emit_text(&mut self, text: &str)
        ensures
            final(self).emitted() == old(self).emitted() + token_frames(text@),
            carried(final(self).emitted().skip(old(self).emitted().len() as int)).flatten()
                == text@,
    {
        proof {
            emitted_frames_carry_the_text(text@);
            assert((self.emitted() + token_frames(text@)).skip(self.emitted().len() as int)
                =~= token_frames(text@));
        }
        let mut buf = String::new();
        let ghost mut start: int = 0;
        let ghost mut done: Seq<Seq<char>> = Seq::empty();
        assert(text@.skip(0) =~= text@);
        assert(self.emitted() =~= old(self).emitted() + tokens(done));
        assert(pieces(text@) =~= done + pieces(text@.skip(0)));
        for ch in it: text.chars()
            invariant
                it.seq() == text@,
                0 <= start <= it.index() <= text@.len(),
                buf@ == text@.subrange(start, it.index() as int),
                wire::utf8_len(buf@) <= MAX_TOKEN_BYTES,
                self.emitted() == old(self).emitted() + tokens(done),
                pieces(text@) == done + pieces(text@.skip(start)),
        {
            let ghost i: int = it.index() as int;
            let ghost rest = text@.skip(start);
            assert(ch == text@[i]);
            proof {
                wire::utf8_len_push(buf@, ch);
            }
            if buf.as_str().len() + ch.len_utf8() > MAX_TOKEN_BYTES {
                let mut full = String::new();
                std::mem::swap(&mut full, &mut buf);
                proof {
                    assert(rest.take(i - start) =~= full@);
                    assert(rest[i - start] == ch);
                    first_piece(rest, (i - start) as nat);
                    assert(rest.skip(i - start) =~= text@.skip(i));
                    assert(pieces(text@) =~= done.push(full@) + pieces(text@.skip(i)));
                    assert(tokens(done.push(full@)) =~= tokens(done).push(FrameView::Token(full@)));
                    done = done.push(full@);
                    start = i;
                    wire::utf8_len_push(Seq::empty(), ch);
                }
                self.emit(Frame::Token(full));
            }
            buf.push(ch);
            assert(buf@ =~= text@.subrange(start, i + 1));
        }
        let ghost rest = text@.skip(start);
        assert(rest =~= buf@);
        if !buf.as_str().is_empty() {
            proof {
                assert(rest.take(rest.len() as int) =~= rest);
                first_piece(rest, rest.len());
                assert(pieces(rest.skip(rest.len() as int)) =~= Seq::empty());
                assert(pieces(text@) =~= done.push(buf@));
                assert(tokens(done.push(buf@)) =~= tokens(done).push(FrameView::Token(buf@)));
            }
            self.emit(Frame::Token(buf));
        } else {
            assert(pieces(text@) =~= done);
        }
    }
}

/// A vector keeps the frames it takes.
impl FrameSink for Vec<Frame> {
    open spec fn emitted(&self) -> Seq<FrameView> {
        self@.map_values(|frame: Frame| frame@)
    }

    fn emit(&mut self, frame: Frame) {
        self.push(frame);
        assert(self.emitted() =~= old(self).emitted().push(frame@));
    }
}

/// Frames that answer one request: the last is `Done` or `Error`, and none before it is
/// either of these. None is `Meta`, which the host sends.
pub open spec fn is_reply(frames: Seq<FrameView>) -> bool {
    &&& frames.len() > 0
    &&& frames.last() is Done || frames.last() is Error
    &&& forall|i: int|
        0 <= i < frames.len() - 1 ==> (#[trigger] frames[i] is Token || frames[i] is Json)
}

/// A model-agnostic inference backend.
pub trait Provider: Send + Sync + 'static {
    /// The provider's name, stable and readable, as the `Meta` frame carries it.
    const NAME: &'static str;

    /// The replies that the provider may give to a request; any, unless it says more.
    open spec fn may_answer(&self, request: RequestView, reply: Seq<FrameView>) -> bool {
        true
    }

    /// Builds the provider from configuration that the host passes through. An error aborts
    /// loading; its message is for the provider's own log.
    fn from_config(config: &[u8]) -> (result: Result<Self, String>) where Self: Sized;

    /// Serves one request: streams the frames of one reply to the sink.
    fn infer<S: FrameSink + ?Sized>(&self, request: &InferenceRequest, sink: &mut S)
        ensures
            old(sink).emitted().is_prefix_of(final(sink).emitted()),
            is_reply(final(sink).emitted().skip(old(sink).emitted().len() as int)),
            self.may_answer(
                request@,
                final(sink).emitted().skip(old(sink).emitted().len() as int),
            ),
    ;
}

/// Serves one request that arrives as a JSON body, and returns the code of the outcome. A
/// body that is no request gets no frame. The body comes without its length: one that still
/// has it in front, and takes less than 16 MiB, is no request.
pub fn serve<P: Provider, S: FrameSink + ?Sized>(provider: &P, body: &[u8], sink: &mut S) -> (code:
    i32)
    ensures
        match request::read_body(body@) {
            Ok(r) => {
                &&& code == OK
                &&& old(sink).emitted().is_prefix_of(final(sink).emitted())
                &&& is_reply(final(sink).emitted().skip(old(sink).emitted().len() as int))
                &&& provider.may_answer(
                    r,
                    final(sink).emitted().skip(old(sink).emitted().len() as int),
                )
            },
            Err(_) => code == ERR_BAD_REQUEST && final(sink).emitted() == old(sink).emitted(),
        },
        forall|r: RequestView|
            #![trigger r.encoded()]
            body@ == r.encoded() && r.body().len() < 0x100_0000 ==> code == ERR_BAD_REQUEST
                && final(sink).emitted() == old(sink).emitted(),
{
    match InferenceRequest::decode_body(body) {
        Ok(r) => {
            provider.infer(&r, sink);
            OK
        },
        Err(_) => ERR_BAD_REQUEST,
    }
}

/// The code that refuses a call outright, for want of a handle or a request.
pub fn refusal(handle_is_null: bool, request_is_null: bool) -> (code: Option<i32>)
    ensures
        code == if handle_is_null || request_is_null {
            Some(ERR_NULL_ARG)
        } else {
            None
        },
{
    if handle_is_null || request_is_null {
        Some(ERR_NULL_ARG)
    } else {
        None
    }
}

/// The code of a call that was let through, given what came of it: a code, or `None` where
/// the provider panicked.
pub fn outcome_code(outcome: Option<i32>) -> (code: i32)
    ensures
        code == match outcome {
            Some(c) => c,
            None => ERR_PANIC,
        },
{
    match outcome {
        Some(code) => code,
        None => ERR_PANIC,
    }
}

/// Whether a configuration was passed: a null pointer or a length of 0 stands for an empty
/// one.
pub fn config_given(config_is_null: bool, config_len: usize) -> (yes: bool)
    ensures
        yes == (!config_is_null && config_len != 0),
{
    !config_is_null && config_len != 0
}

/// The provider that was loaded, given what came of building it: `None` where that failed
/// or panicked.
pub fn loaded<P>(outcome: Option<Result<P, String>>) -> (provider: Option<P>)
    ensures
        provider == match outcome {
            Some(Ok(p)) => Some(p),
            _ => None,
        },
{
    match outcome {
        Some(Ok(p)) => Some(p),
        _ => None,
    }
}

/// The pieces of a text, put together again, are the text.
pub proof fn pieces_reassemble(text: Seq<char>)
    ensures
        pieces(text).flatten() == text,
    decreases text.len(),
{
    if text.len() > 0 {
        let n = fitting(text, MAX_TOKEN_BYTES as int) as int;
        fitting_bounds(text, MAX_TOKEN_BYTES as int);
        pieces_reassemble(text.skip(n));
        assert(pieces(text).drop_first() =~= pieces(text.skip(n)));
        assert(text.take(n) + text.skip(n) =~= text);
    } else {
        assert(text =~= Seq::empty());
    }
}

/// The characters that fit do fit.
proof fn fitting_fits(text: Seq<char>, room: int)
    requires
        room >= 0,
    ensures
        wire::utf8_len(text.take(fitting(text, room) as int)) <= room,
    decreases text.len(),
{
    fitting_bounds(text, room);
    let n = fitting(text, room) as int;
    if n > 0 {
        let rest = text.drop_first();
        let left = room - encode_scalar(text[0] as u32).len();
        fitting_fits(rest, left);
        assert(text.take(n).drop_first() =~= rest.take(n - 1));
    } else {
        assert(text.take(0) =~= Seq::<char>::empty());
    }
}

/// Each piece of a text holds something and is within [`MAX_TOKEN_BYTES`], so that its frame
/// fits the wire format.
pub proof fn pieces_fit(text: Seq<char>)
    ensures
        forall|i: int|
            0 <= i < pieces(text).len() ==> (#[trigger] pieces(text)[i]).len() > 0
                && wire::utf8_len(pieces(text)[i]) <= MAX_TOKEN_BYTES,
        forall|i: int|
            0 <= i < token_frames(text).len() ==> (#[trigger] token_frames(text)[i]).fits(),
    decreases text.len(),
{
    if text.len() > 0 {
        let n = fitting(text, MAX_TOKEN_BYTES as int) as int;
        fitting_bounds(text, MAX_TOKEN_BYTES as int);
        fitting_fits(text, MAX_TOKEN_BYTES as int);
        pieces_fit(text.skip(n));
        assert forall|i: int| 0 <= i < pieces(text).len() implies (#[trigger] pieces(
            text,
        )[i]).len() > 0 && wire::utf8_len(pieces(text)[i]) <= MAX_TOKEN_BYTES by {
            if i > 0 {
                assert(pieces(text)[i] == pieces(text.skip(n))[i - 1]);
            }
        }
        assert forall|i: int| 0 <= i < token_frames(text).len() implies (#[trigger] token_frames(
            text,
        )[i]).fits() by {
            assert(pieces(text)[i].len() > 0);
        }
    }
}

/// A client that drains the frames of a text off the wire gets all of them, and so the whole
/// text.
pub proof fn text_survives_the_wire(text: Seq<char>)
    ensures
        response::drained(response::stream(token_frames(text))) == (
            token_frames(text),
            Seq::<u8>::empty(),
        ),
        pieces(text).flatten() == text,
{
    pieces_fit(text);
    pieces_reassemble(text);
    response::stream_round_trip(token_frames(text), Seq::empty());
    assert(response::stream(token_frames(text)) + Seq::<u8>::empty() =~= response::stream(
        token_frames(text),
    ));
}

/// Characters at the front of a text that fit are among those that do.
proof fn fitting_is_most(text: Seq<char>, room: int, n: int)
    requires
        0 <= n <= text.len(),
        wire::utf8_len(text.take(n)) <= room,
    ensures
        n <= fitting(text, room),
    decreases n,
{
    if n > 0 {
        assert(text.take(n).drop_first() =~= text.drop_first().take(n - 1));
        assert(text.take(n)[0] == text[0]);
        fitting_is_most(text.drop_first(), room - encode_scalar(text[0] as u32).len(), n - 1);
    }
}

/// The end of a text takes no more pieces than the text.
proof fn later_pieces(text: Seq<char>, from: int)
    requires
        0 <= from <= text.len(),
    ensures
        pieces(text.skip(from)).len() <= pieces(text).len(),
    decreases text.len(),
{
    let rest = text.skip(from);
    if from == 0 {
        assert(rest =~= text);
    } else if rest.len() > 0 {
        let n = fitting(text, MAX_TOKEN_BYTES as int) as int;
        fitting_bounds(text, MAX_TOKEN_BYTES as int);
        if from >= n {
            assert(rest =~= text.skip(n).skip(from - n));
            later_pieces(text.skip(n), from - n);
        } else {
            let m = fitting(rest, MAX_TOKEN_BYTES as int) as int;
            fitting_bounds(rest, MAX_TOKEN_BYTES as int);
            fitting_fits(text, MAX_TOKEN_BYTES as int);
            assert(text.take(n) =~= text.take(from) + rest.take(n - from));
            wire::encode_utf8_concat(text.take(from), rest.take(n - from));
            fitting_is_most(rest, MAX_TOKEN_BYTES as int, n - from);
            assert(rest.skip(m) =~= text.skip(n).skip(from + m - n));
            later_pieces(text.skip(n), from + m - n);
        }
    }
}

/// No way of cutting a text into pieces that are within [`MAX_TOKEN_BYTES`] takes fewer of
/// them: a text is streamed in as few frames as that allows.
pub proof fn pieces_are_fewest(text: Seq<char>, parts: Seq<Seq<char>>)
    requires
        parts.flatten() == text,
        forall|i: int|
            0 <= i < parts.len() ==> wire::utf8_len(#[trigger] parts[i]) <= MAX_TOKEN_BYTES,
    ensures
        pieces(text).len() <= parts.len(),
    decreases parts.len(),
{
    if parts.len() == 0 {
        assert(text =~= Seq::empty());
    } else {
        let others = parts.drop_first();
        let m = parts[0].len() as int;
        assert(text =~= parts[0] + others.flatten());
        assert(text.take(m) =~= parts[0]);
        assert(text.skip(m) =~= others.flatten());
        assert forall|i: int| 0 <= i < others.len() implies wire::utf8_len(#[trigger] others[i])
            <= MAX_TOKEN_BYTES by {
            assert(others[i] == parts[i + 1]);
        }
        pieces_are_fewest(text.skip(m), others);
        if text.len() > 0 {
            let n = fitting(text, MAX_TOKEN_BYTES as int) as int;
            fitting_bounds(text, MAX_TOKEN_BYTES as int);
            fitting_is_most(text, MAX_TOKEN_BYTES as int, m);
            assert(text.skip(n) =~= text.skip(m).skip(n - m));
            later_pieces(text.skip(m), n - m);
        }
    }
}

/// The texts that frames carry, in order; nothing for a frame that is no token.
pub open spec fn carried(frames: Seq<FrameView>) -> Seq<Seq<char>> {
    frames.map_values(
        |frame: FrameView|
            match frame {
                FrameView::Token(text) => text,
                _ => Seq::empty(),
            },
    )
}

/// What is emitted of a text is that text: every frame is a token with something in it, and
/// the texts in these frames, put together in order, are the text.
pub proof fn emitted_frames_carry_the_text(text: Seq<char>)
    ensures
        carried(token_frames(text)).flatten() == text,
        forall|i: int|
            0 <= i < token_frames(text).len() ==> (#[trigger] token_frames(text)[i]) is Token,
        forall|i: int|
            0 <= i < token_frames(text).len() ==> (#[trigger] carried(
                token_frames(text),
            )[i]).len() > 0,
{
    pieces_reassemble(text);
    pieces_fit(text);
    assert(carried(token_frames(text)) =~= pieces(text));
}

/// Each emitted frame holds at most 60000 bytes of text, and the next character would not have
/// fitted: with [`emitted_frames_carry_the_text`] there is only one way to cut a text.
pub proof fn emitted_frames_are_full(text: Seq<char>)
    ensures
        forall|i: int|
            0 <= i < token_frames(text).len() ==> encode_utf8(
                #[trigger] carried(token_frames(text))[i],
            ).len() <= 60_000,
        forall|i: int|
            0 <= i && i + 1 < token_frames(text).len() ==> encode_utf8(
                #[trigger] carried(token_frames(text))[i],
            ).len() + encode_utf8(seq![carried(token_frames(text))[i + 1][0]]).len() > 60_000,
{
    pieces_fit(text);
    assert(carried(token_frames(text)) =~= pieces(text));
    assert forall|i: int| 0 <= i && i + 1 < pieces(text).len() implies encode_utf8(
        #[trigger] pieces(text)[i],
    ).len() + encode_utf8(seq![pieces(text)[i + 1][0]]).len() > 60_000 by {
        pieces_are_full(text, i);
    }
}

/// The first character of a piece would not have fitted into the one before it.
proof fn pieces_are_full(text: Seq<char>, i: int)
    requires
        0 <= i && i + 1 < pieces(text).len(),
    ensures
        encode_utf8(pieces(text)[i]).len() + encode_utf8(seq![pieces(text)[i + 1][0]]).len()
            > MAX_TOKEN_BYTES,
    decreases text.len(),
{
    let n = fitting(text, MAX_TOKEN_BYTES as int) as int;
    fitting_bounds(text, MAX_TOKEN_BYTES as int);
    let rest = text.skip(n);
    if i > 0 {
        assert(pieces(text)[i] == pieces(rest)[i - 1]);
        assert(pieces(text)[i + 1] == pieces(rest)[i]);
        pieces_are_full(rest, i - 1);
    } else {
        pieces_fit(rest);
        assert(pieces(text)[1] == pieces(rest)[0]);
        fitting_bounds(rest, MAX_TOKEN_BYTES as int);
        assert(pieces(rest)[0][0] == text[n]);
        assert(text.take(n + 1) =~= text.take(n) + seq![text[n]]);
        wire::encode_utf8_concat(text.take(n), seq![text[n]]);
        if wire::utf8_len(text.take(n + 1)) <= MAX_TOKEN_BYTES {
            fitting_is_most(text, MAX_TOKEN_BYTES as int, n + 1);
        }
    }
}

/// A vector of frames has taken the frames that are in it, in order.
pub proof fn vector_has_taken_its_frames(frames: Vec<Frame>)
    ensures
        frames.emitted().len() == frames@.len(),
        forall|i: int| 0 <= i < frames@.len() ==> (#[trigger] frames.emitted()[i]) == frames@[i]@,
{
}

/// A reply ends once: in `Done` or `Error`, with neither of these before, and never with
/// `Meta`.
pub proof fn a_reply_ends_once(frames: Seq<FrameView>)
    requires
        is_reply(frames),
    ensures
        frames.len() > 0,
        frames[frames.len() - 1] is Done || frames[frames.len() - 1] is Error,
        forall|i: int|
            0 <= i < frames.len() ==> !(#[trigger] frames[i] is Meta) && ((frames[i] is Done
                || frames[i] is Error) ==> i == frames.len() - 1),
{
}

/// The codes of the outcomes, and the version of the boundary.
pub proof fn codes_are()
    ensures
        OK == 0,
        ERR_NULL_ARG == -1,
        ERR_BAD_REQUEST == -2,
        ERR_PANIC == -3,
        PROVIDER_ABI_VERSION == 1,
{
}

} // verus!
