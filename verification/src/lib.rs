//! The wire protocol for local LLM inference: what a caller and an inference provider say
//! to one another.
//!
//! The encodings are payload formats. A caller that links a provider directly passes a
//! request as a bare JSON body and takes each frame as it is emitted; on a byte stream the
//! body stands behind its length.
//!
//! ```text
//! request   [4 bytes LE: body length][JSON body]
//! frame     [1 byte: tag][2 bytes LE: payload length][payload]
//!
//! 0x01  TOKEN   UTF-8 text of a token
//! 0x02  DONE    8-byte LE count of the tokens used
//! 0x03  ERROR   UTF-8 message
//! 0x04  META    UTF-8 provider name, sent first
//! 0x05  JSON    UTF-8 structured payload, such as the health report
//! ```
//!
//! A request's prompt is plain text, which stands for one user turn, or a messages
//! envelope: see [`envelope`]. Roles pass through as they are.
//!
//! Each module gives its types a view and its functions contracts over spec functions;
//! the laws that relate several functions are public proof functions beside them. What is
//! taken on trust of other code stands in [`json`] and [`wire`].

use vstd::prelude::*;

pub mod envelope;
pub mod health;
pub mod json;
pub mod parts;
pub mod place;
pub mod provider;
pub mod record;
pub mod request;
pub mod response;
pub mod spelled;
pub mod wire;

pub use envelope::{Envelope, Message, MESSAGES_ENVELOPE_KEY};
pub use health::Health;
pub use provider::{FrameSink, Provider, PROVIDER_ABI_VERSION};
pub use request::{InferenceRequest, RequestDecodeError};
pub use response::{Frame, FrameError};

verus! {

/// Protocol revision that a provider and its callers agree on, as a health report states
/// it. It changes only with the wire format: a new request field with a default, or a new
/// frame that older clients can pass over, leaves it as it is.
pub const PROTOCOL_VERSION: u32 = 3;

/// The revision that this crate speaks.
pub proof fn revision_is()
    ensures
        PROTOCOL_VERSION == 3,
{
}

} // verus!
