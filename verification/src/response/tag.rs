//! The one-byte tag at the front of each frame, which says what the frame is.
//!
//! A client that reads frames off a byte stream may match on these itself, and copy
//! only the payloads that it keeps.

use vstd::prelude::*;

verus! {

pub const TOKEN: u8 = 0x01;

pub const DONE: u8 = 0x02;

pub const ERROR: u8 = 0x03;

pub const META: u8 = 0x04;

pub const JSON: u8 = 0x05;

} // verus!
