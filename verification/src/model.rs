//! The mathematical model of Base64: what one chunk encodes or decodes to,
//! and what a whole byte sequence encodes or decodes to.

use vstd::prelude::*;

verus! {

/// What a single byte of Base64 text stands for: a six-bit value, the
/// padding mark `=`, or a byte outside the accepted alphabet.
#[derive(Copy, Clone)]
pub enum Decoded {
    Value(u8),
    Padding,
    Invalid,
}

/// The six-bit value a classification carries; zero for padding or an
/// invalid byte.
pub open spec fn value_of(d: Decoded) -> u8 {
    match d {
        Decoded::Value(v) => v,
        Decoded::Padding => 0u8,
        Decoded::Invalid => 0u8,
    }
}

/// The standard alphabet: the output character for a six-bit value.
/// `0..26` map to `A..Z`, `26..52` to `a..z`, `52..62` to `0..9`,
/// `62` to `+` and `63` to `/`.
pub open spec fn char_of_six(v: u8) -> u8 {
    if v < 26 {
        (v + 65) as u8
    } else if v < 52 {
        (v + 71) as u8
    } else if v < 62 {
        (v - 4) as u8
    } else if v == 62 {
        43u8
    } else {
        47u8
    }
}

/// Classification of one byte of Base64 text. Both the standard and the
/// URL-safe alphabet are accepted: `-` counts like `+`, and `_` like `/`.
/// `=` is the padding mark; anything else is invalid.
pub open spec fn classify_spec(c: u8) -> Decoded {
    if 65 <= c <= 90 {
        Decoded::Value((c - 65) as u8)
    } else if 97 <= c <= 122 {
        Decoded::Value((c - 71) as u8)
    } else if 48 <= c <= 57 {
        Decoded::Value((c + 4) as u8)
    } else if c == 43 || c == 45 {
        Decoded::Value(62u8)
    } else if c == 47 || c == 95 {
        Decoded::Value(63u8)
    } else if c == 61 {
        Decoded::Padding
    } else {
        Decoded::Invalid
    }
}

/// The four characters one input chunk of one to three bytes encodes to.
/// Absent bytes contribute zero bits, and the output positions whose bits
/// never carried input data are forced to the padding mark.
pub open spec fn encode_chunk_spec(chunk: Seq<u8>) -> Seq<u8>
    recommends
        1 <= chunk.len() <= 3,
{
    let b0 = chunk[0];
    let b1 = if chunk.len() >= 2 { chunk[1] } else { 0u8 };
    let b2 = if chunk.len() >= 3 { chunk[2] } else { 0u8 };
    let c0 = char_of_six(b0 >> 2);
    let c1 = char_of_six(((b0 & 3) << 4) | (b1 >> 4));
    let c2 = if chunk.len() >= 2 { char_of_six(((b1 & 15) << 2) | (b2 >> 6)) } else { 61u8 };
    let c3 = if chunk.len() >= 3 { char_of_six(b2 & 63) } else { 61u8 };
    seq![c0, c1, c2, c3]
}

/// The full Base64 encoding of a byte sequence: consecutive chunks of three
/// bytes, four output characters each; the last chunk may be shorter.
pub open spec fn encode_seq(s: Seq<u8>) -> Seq<u8>
    decreases s.len(),
{
    if s.len() == 0 {
        Seq::<u8>::empty()
    } else if s.len() < 3 {
        encode_chunk_spec(s)
    } else {
        encode_chunk_spec(s.take(3)) + encode_seq(s.skip(3))
    }
}

/// Whether a decode chunk is well formed: exactly four bytes, each in the
/// alphabet or padding, no padding in the first two positions, and padding
/// in position two only when position three is padding as well.
pub open spec fn chunk_valid(chunk: Seq<u8>) -> bool {
    &&& chunk.len() == 4
    &&& forall|i: int| 0 <= i < 4 ==> !((#[trigger] classify_spec(chunk[i])) is Invalid)
    &&& !(classify_spec(chunk[0]) is Padding)
    &&& !(classify_spec(chunk[1]) is Padding)
    &&& (classify_spec(chunk[2]) is Padding ==> classify_spec(chunk[3]) is Padding)
}

/// The bytes a valid chunk decodes to: one, two or three of them, by how
/// much padding the chunk carries.
pub open spec fn decode_chunk_spec(chunk: Seq<u8>) -> Seq<u8>
    recommends
        chunk_valid(chunk),
{
    let v0 = value_of(classify_spec(chunk[0]));
    let v1 = value_of(classify_spec(chunk[1]));
    let v2 = value_of(classify_spec(chunk[2]));
    let v3 = value_of(classify_spec(chunk[3]));
    let y0 = ((v0 << 2) | ((v1 >> 4) & 3)) as u8;
    let y1 = ((v1 << 4) | ((v2 >> 2) & 15)) as u8;
    let y2 = ((v2 << 6) | (v3 & 63)) as u8;
    if classify_spec(chunk[2]) is Padding {
        seq![y0]
    } else if classify_spec(chunk[3]) is Padding {
        seq![y0, y1]
    } else {
        seq![y0, y1, y2]
    }
}

/// The bytes a Base64 text decodes to: the decode of its longest prefix of
/// whole, valid chunks. Output stops at the first chunk that is truncated
/// or invalid.
pub open spec fn decode_output(s: Seq<u8>) -> Seq<u8>
    decreases s.len(),
{
    if s.len() < 4 {
        Seq::<u8>::empty()
    } else if chunk_valid(s.take(4)) {
        decode_chunk_spec(s.take(4)) + decode_output(s.skip(4))
    } else {
        Seq::<u8>::empty()
    }
}

/// Whether a Base64 text decodes without error: empty, or a whole number of
/// valid four-byte chunks.
pub open spec fn decode_ok(s: Seq<u8>) -> bool
    decreases s.len(),
{
    if s.len() == 0 {
        true
    } else if s.len() < 4 {
        false
    } else {
        chunk_valid(s.take(4)) && decode_ok(s.skip(4))
    }
}

/// How many padding marks the encoding of an input of `n` bytes ends with.
pub open spec fn pad_len(n: int) -> int {
    if n % 3 == 1 {
        2
    } else if n % 3 == 2 {
        1
    } else {
        0
    }
}

/// Membership in the standard alphabet proper: `A..Z`, `a..z`, `0..9`,
/// `+` and `/`, without the padding mark.
pub open spec fn is_alphabet_char(c: u8) -> bool {
    (65 <= c <= 90) || (97 <= c <= 122) || (48 <= c <= 57) || c == 43 || c == 47
}

/// Membership in the 65-character output set: the alphabet plus `=`.
pub open spec fn is_output_char(c: u8) -> bool {
    is_alphabet_char(c) || c == 61
}

} // verus!
