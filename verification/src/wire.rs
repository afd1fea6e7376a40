//! Little-endian integers and UTF-8 text, as they stand on the wire.

use vstd::arithmetic::div_mod::{lemma_hoist_over_denominator, lemma_mod_multiples_vanish};
use vstd::prelude::*;
use vstd::slice::slice_subrange;
use vstd::utf8::*;

verus! {

/// The two bytes of a number, least significant first.
pub open spec fn le16(n: nat) -> Seq<u8> {
    seq![(n % 0x100) as u8, (n / 0x100 % 0x100) as u8]
}

/// The four bytes of a number, least significant first.
pub open spec fn le32(n: nat) -> Seq<u8> {
    le16(n % 0x1_0000) + le16(n / 0x1_0000)
}

/// The eight bytes of a number, least significant first.
pub open spec fn le64(n: nat) -> Seq<u8> {
    le32(n % 0x1_0000_0000) + le32(n / 0x1_0000_0000)
}

/// The number that two bytes spell, least significant first.
pub open spec fn value16(bytes: Seq<u8>) -> nat {
    (bytes[0] + 0x100 * bytes[1]) as nat
}

/// The number that four bytes spell, least significant first.
pub open spec fn value32(bytes: Seq<u8>) -> nat {
    (value16(bytes.subrange(0, 2)) + 0x1_0000 * value16(bytes.subrange(2, 4))) as nat
}

/// The number that eight bytes spell, least significant first.
pub open spec fn value64(bytes: Seq<u8>) -> nat {
    (value32(bytes.subrange(0, 4)) + 0x1_0000_0000 * value32(bytes.subrange(4, 8))) as nat
}

/// Two bytes hold any number below 2^16, and each pair of bytes spells one number.
pub proof fn le16_round_trip(n: nat, bytes: Seq<u8>)
    ensures
        le16(n).len() == 2,
        n < 0x1_0000 ==> value16(le16(n)) == n,
        bytes.len() == 2 ==> value16(bytes) < 0x1_0000 && le16(value16(bytes)) == bytes,
{
    if bytes.len() == 2 {
        assert(le16(value16(bytes)) =~= bytes);
    }
}

/// Four bytes hold any number below 2^32, and each four bytes spell one number.
pub proof fn le32_round_trip(n: nat, bytes: Seq<u8>)
    ensures
        le32(n).len() == 4,
        n < 0x1_0000_0000 ==> value32(le32(n)) == n,
        bytes.len() == 4 ==> value32(bytes) < 0x1_0000_0000 && le32(value32(bytes)) == bytes,
{
    if n < 0x1_0000_0000 {
        le16_round_trip(n % 0x1_0000, Seq::empty());
        le16_round_trip(n / 0x1_0000, Seq::empty());
        assert(le32(n).subrange(0, 2) =~= le16(n % 0x1_0000));
        assert(le32(n).subrange(2, 4) =~= le16(n / 0x1_0000));
    }
    if bytes.len() == 4 {
        le16_round_trip(0, bytes.subrange(0, 2));
        le16_round_trip(0, bytes.subrange(2, 4));
        assert(bytes =~= bytes.subrange(0, 2) + bytes.subrange(2, 4));
    }
}

proof fn le64_reads_back(low: nat, high: nat)
    requires
        low < 0x1_0000_0000,
        high < 0x1_0000_0000,
    ensures
        value64(le32(low) + le32(high)) == low + 0x1_0000_0000 * high,
{
    le32_round_trip(low, Seq::empty());
    le32_round_trip(high, Seq::empty());
    let bytes = le32(low) + le32(high);
    assert(bytes.subrange(0, 4) =~= le32(low));
    assert(bytes.subrange(4, 8) =~= le32(high));
}

proof fn halves(low: nat, high: nat)
    requires
        low < 0x1_0000_0000,
    ensures
        (low + 0x1_0000_0000 * high) % 0x1_0000_0000 == low,
        (low + 0x1_0000_0000 * high) / 0x1_0000_0000 == high,
{
}

/// Eight bytes hold any number below 2^64, and each eight bytes spell one number.
#[verifier::spinoff_prover]
pub proof fn le64_round_trip(n: nat, bytes: Seq<u8>)
    ensures
        le64(n).len() == 8,
        n < 0x1_0000_0000_0000_0000 ==> value64(le64(n)) == n,
        bytes.len() == 8 ==> value64(bytes) < 0x1_0000_0000_0000_0000 && le64(value64(bytes))
            == bytes,
{
    if n < 0x1_0000_0000_0000_0000 {
        le64_reads_back(n % 0x1_0000_0000, n / 0x1_0000_0000);
    }
    if bytes.len() == 8 {
        let low = bytes.subrange(0, 4);
        let high = bytes.subrange(4, 8);
        le32_round_trip(0, low);
        le32_round_trip(0, high);
        halves(value32(low), value32(high));
        assert(bytes =~= low + high);
    }
}

/// Of two bytes, the first is the number's remainder by 256, and the second that of the
/// number divided by 256.
pub proof fn le16_bytes(n: nat)
    ensures
        le16(n) == seq![(n % 256) as u8, (n / 256 % 256) as u8],
{
}

/// Two bytes spell the first and 256 times the second.
pub proof fn value16_sum(bytes: Seq<u8>)
    requires
        bytes.len() == 2,
    ensures
        value16(bytes) == bytes[0] + 256 * bytes[1],
{
}

/// Of four bytes, each is the remainder by 256 of the number divided by 256 so many times as
/// bytes stand before it.
#[verifier::spinoff_prover]
pub proof fn le32_bytes(n: nat)
    requires
        n < 0x1_0000_0000,
    ensures
        le32(n) == seq![
            (n % 256) as u8,
            (n / 256 % 256) as u8,
            (n / 65536 % 256) as u8,
            (n / 16777216 % 256) as u8,
        ],
{
    let low = n % 0x1_0000;
    let high = n / 0x1_0000;
    assert(low % 256 == n % 256);
    assert(low / 256 % 256 == n / 256 % 256);
    assert(high / 256 == n / 16777216);
    assert(le32(n) =~= le16(low) + le16(high));
    assert(le32(n) =~= seq![
        (n % 256) as u8,
        (n / 256 % 256) as u8,
        (n / 65536 % 256) as u8,
        (n / 16777216 % 256) as u8,
    ]);
}

/// Of any number, the four bytes of its remainder by 2^32 are its own low bytes.
#[verifier::spinoff_prover]
pub proof fn le32_low_bytes(n: nat)
    ensures
        le32(n % 0x1_0000_0000) == seq![
            (n % 256) as u8,
            (n / 256 % 256) as u8,
            (n / 65536 % 256) as u8,
            (n / 16777216 % 256) as u8,
        ],
{
    let low = n % 0x1_0000_0000;
    let high = n / 0x1_0000_0000;
    le32_bytes(low);
    assert(n == low + 0x1_0000_0000 * high);
    low_byte(low, high, 1, 16777216);
    low_byte(low, high, 256, 65536);
    low_byte(low, high, 65536, 256);
    low_byte(low, high, 16777216, 1);
}

/// Four bytes spell the sum of each times 256 to the number of bytes before it.
pub proof fn value32_sum(bytes: Seq<u8>)
    requires
        bytes.len() == 4,
    ensures
        value32(bytes) == bytes[0] + 256 * bytes[1] + 65536 * bytes[2] + 16777216 * bytes[3],
{
}

/// Of eight bytes, each is the remainder by 256 of the number divided by 256 so many times as
/// bytes stand before it.
#[verifier::spinoff_prover]
pub proof fn le64_bytes(n: nat)
    requires
        n < 0x1_0000_0000_0000_0000,
    ensures
        le64(n) == seq![
            (n % 256) as u8,
            (n / 256 % 256) as u8,
            (n / 65536 % 256) as u8,
            (n / 16777216 % 256) as u8,
            (n / 4294967296 % 256) as u8,
            (n / 1099511627776 % 256) as u8,
            (n / 281474976710656 % 256) as u8,
            (n / 72057594037927936 % 256) as u8,
        ],
{
    let low = n % 0x1_0000_0000;
    let high = n / 0x1_0000_0000;
    le32_bytes(low);
    le32_bytes(high);
    assert(n == low + 0x1_0000_0000 * high);
    low_byte(low, high, 1, 16777216);
    low_byte(low, high, 256, 65536);
    low_byte(low, high, 65536, 256);
    low_byte(low, high, 16777216, 1);
    assert(high / 256 == n / 1099511627776);
    assert(high / 65536 == n / 281474976710656);
    assert(high / 16777216 == n / 72057594037927936);
    assert(le64(n) == le32(low) + le32(high));
    let a = seq![
        (low % 256) as u8,
        (low / 256 % 256) as u8,
        (low / 65536 % 256) as u8,
        (low / 16777216 % 256) as u8,
    ];
    let b = seq![
        (high % 256) as u8,
        (high / 256 % 256) as u8,
        (high / 65536 % 256) as u8,
        (high / 16777216 % 256) as u8,
    ];
    assert(le64(n) == a + b);
    assert(a + b =~= seq![
        (n % 256) as u8,
        (n / 256 % 256) as u8,
        (n / 65536 % 256) as u8,
        (n / 16777216 % 256) as u8,
        (n / 4294967296 % 256) as u8,
        (n / 1099511627776 % 256) as u8,
        (n / 281474976710656 % 256) as u8,
        (n / 72057594037927936 % 256) as u8,
    ]);
}

/// What a number divided by a part of 2^32 leaves by 256 is what its remainder by 2^32 does.
proof fn low_byte(low: nat, high: nat, part: nat, rest: nat)
    requires
        part > 0,
        part * (256 * rest) == 0x1_0000_0000,
    ensures
        low / part % 256 == (low + 0x1_0000_0000 * high) / part % 256,
{
    let more = (256 * rest * high) as int;
    assert(0x1_0000_0000 * high == part * more) by (nonlinear_arith)
        requires
            part * (256 * rest) == 0x1_0000_0000,
            more == 256 * rest * high,
    ;
    lemma_hoist_over_denominator(low as int, more, part);
    assert((low + 0x1_0000_0000 * high) / part == low / part + more) by {
        assert(more * part == part * more) by (nonlinear_arith);
    }
    assert(more == 256 * (rest * high)) by (nonlinear_arith)
        requires
            more == 256 * rest * high,
    ;
    lemma_mod_multiples_vanish((rest * high) as int, (low / part) as int, 256);
}

/// Eight bytes spell the sum of each times 256 to the number of bytes before it.
pub proof fn value64_sum(bytes: Seq<u8>)
    requires
        bytes.len() == 8,
    ensures
        value64(bytes) == bytes[0] + 256 * bytes[1] + 65536 * bytes[2] + 16777216 * bytes[3]
            + 4294967296 * bytes[4] + 1099511627776 * bytes[5] + 281474976710656 * bytes[6]
            + 72057594037927936 * bytes[7],
{
    value32_sum(bytes.subrange(0, 4));
    value32_sum(bytes.subrange(4, 8));
}

/// Appends the low two bytes of a number.
pub(crate) fn push_le16(buf: &mut Vec<u8>, n: u16)
    ensures
        final(buf)@ == old(buf)@ + le16(n as nat),
{
    buf.push((n % 0x100) as u8);
    buf.push((n / 0x100) as u8);
    assert(buf@ =~= old(buf)@ + le16(n as nat));
}

/// Appends the four bytes of a number.
pub(crate) fn push_le32(buf: &mut Vec<u8>, n: u32)
    ensures
        final(buf)@ == old(buf)@ + le32(n as nat),
{
    push_le16(buf, (n % 0x1_0000) as u16);
    push_le16(buf, (n / 0x1_0000) as u16);
    assert(buf@ =~= old(buf)@ + le32(n as nat));
}

/// Appends the eight bytes of a number.
pub(crate) fn push_le64(buf: &mut Vec<u8>, n: u64)
    ensures
        final(buf)@ == old(buf)@ + le64(n as nat),
{
    push_le32(buf, (n % 0x1_0000_0000) as u32);
    push_le32(buf, (n / 0x1_0000_0000) as u32);
    assert(buf@ =~= old(buf)@ + le64(n as nat));
}

/// Reads two bytes.
pub(crate) fn read_le16(bytes: &[u8]) -> (n: u16)
    requires
        bytes@.len() == 2,
    ensures
        n == value16(bytes@),
{
    bytes[0] as u16 + 0x100 * bytes[1] as u16
}

/// Reads four bytes.
pub(crate) fn read_le32(bytes: &[u8]) -> (n: u32)
    requires
        bytes@.len() == 4,
    ensures
        n == value32(bytes@),
{
    let low = read_le16(slice_subrange(bytes, 0, 2));
    let high = read_le16(slice_subrange(bytes, 2, 4));
    low as u32 + 0x1_0000 * high as u32
}

/// Reads eight bytes.
pub(crate) fn read_le64(bytes: &[u8]) -> (n: u64)
    requires
        bytes@.len() == 8,
    ensures
        n == value64(bytes@),
{
    let low = read_le32(slice_subrange(bytes, 0, 4));
    let high = read_le32(slice_subrange(bytes, 4, 8));
    low as u64 + 0x1_0000_0000 * high as u64
}

/// Appends a slice of bytes.
pub(crate) fn push_bytes(buf: &mut Vec<u8>, bytes: &[u8])
    ensures
        final(buf)@ == old(buf)@ + bytes@,
{
    buf.extend_from_slice(bytes);
    assert(buf@ =~= old(buf)@ + bytes@);
}

/// The error of `core::str::from_utf8`.
#[verifier::external_type_specification]
#[verifier::external_body]
pub struct ExUtf8Error(core::str::Utf8Error);

/// `core::str::from_utf8`: the text that the bytes encode, if they are valid UTF-8.
pub assume_specification[ core::str::from_utf8 ](bytes: &[u8]) -> (text: Result<
    &str,
    core::str::Utf8Error,
>)
    ensures
        match text {
            Ok(s) => valid_utf8(bytes@) && s@ == decode_utf8(bytes@),
            Err(_) => !valid_utf8(bytes@),
        },
;

/// `String::push`: appends a character.
pub assume_specification[ String::push ](text: &mut String, c: char)
    ensures
        final(text)@ == old(text)@.push(c),
;

/// `char::len_utf8`: how many bytes the character takes in UTF-8.
pub assume_specification[ char::len_utf8 ](c: char) -> (len: usize)
    ensures
        len == encode_scalar(c as u32).len(),
;

/// How many bytes a text takes in UTF-8.
pub open spec fn utf8_len(text: Seq<char>) -> nat {
    encode_utf8(text).len()
}

/// The bytes of two texts that follow one another are the bytes of the one and then of
/// the other.
pub proof fn encode_utf8_concat(a: Seq<char>, b: Seq<char>)
    ensures
        encode_utf8(a + b) == encode_utf8(a) + encode_utf8(b),
    decreases a.len(),
{
    if a.len() == 0 {
        assert(a + b =~= b);
        assert(encode_utf8(a) + encode_utf8(b) =~= encode_utf8(b));
    } else {
        assert((a + b).drop_first() =~= a.drop_first() + b);
        encode_utf8_concat(a.drop_first(), b);
        assert(encode_utf8(a + b) =~= encode_utf8(a) + encode_utf8(b));
    }
}

/// One more character adds its own bytes.
pub proof fn utf8_len_push(text: Seq<char>, c: char)
    ensures
        utf8_len(text.push(c)) == utf8_len(text) + encode_scalar(c as u32).len(),
        1 <= encode_scalar(c as u32).len() <= 4,
{
    assert(text.push(c) =~= text + seq![c]);
    encode_utf8_concat(text, seq![c]);
    assert(seq![c].drop_first() =~= Seq::<char>::empty());
    reveal_with_fuel(encode_utf8, 2);
    assert(encode_utf8(seq![c]) =~= encode_scalar(c as u32));
}

} // verus!
