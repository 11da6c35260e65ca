//! The laws of the codec, proved over the model: every output character is
//! in the output set, the output length and trailing padding are exact
//! functions of the input length, and decoding an encoding gives back the
//! original bytes with no error.

use vstd::prelude::*;
use crate::model::Decoded;
use crate::model::char_of_six;
use crate::model::chunk_valid;
use crate::model::classify_spec;
use crate::model::decode_chunk_spec;
use crate::model::decode_ok;
use crate::model::decode_output;
use crate::model::encode_chunk_spec;
use crate::model::encode_seq;
use crate::model::is_alphabet_char;
use crate::model::is_output_char;
use crate::model::pad_len;

verus! {

/// The alphabet map never produces the padding mark, and always lands in
/// the alphabet proper.
proof fn lemma_char_in_alphabet()
    ensures
        forall|v: u8| (#[trigger] char_of_six(v)) != 61 && is_alphabet_char(char_of_six(v)),
{
}

/// For a six-bit value, classification inverts the alphabet map.
proof fn lemma_classify_char(v: u8)
    requires
        v < 64,
    ensures
        classify_spec(char_of_six(v)) == Decoded::Value(v),
{
}

/// One chunk round-trips: the four characters that a chunk of one to three
/// bytes encodes to form a valid decode chunk, and that chunk decodes back
/// to exactly the original bytes.
pub proof fn lemma_chunk_round_trip(chunk: Seq<u8>)
    requires
        1 <= chunk.len() <= 3,
    ensures
        chunk_valid(encode_chunk_spec(chunk)),
        decode_chunk_spec(encode_chunk_spec(chunk)) == chunk,
{
    let b0 = chunk[0];
    let b1 = if chunk.len() >= 2 { chunk[1] } else { 0u8 };
    let b2 = if chunk.len() >= 3 { chunk[2] } else { 0u8 };
    let s0 = b0 >> 2;
    let s1 = ((b0 & 3) << 4) | (b1 >> 4);
    let s2 = ((b1 & 15) << 2) | (b2 >> 6);
    let s3 = b2 & 63;
    assert((b0 >> 2) < 64 && ((((b0 & 3) << 4) | (b1 >> 4))) < 64
        && ((((b1 & 15) << 2) | (b2 >> 6))) < 64 && (b2 & 63) < 64) by (bit_vector);
    lemma_classify_char(s0);
    lemma_classify_char(s1);
    lemma_classify_char(s2);
    lemma_classify_char(s3);
    let e = encode_chunk_spec(chunk);
    assert(classify_spec(61) is Padding);
    assert forall|i: int| 0 <= i < 4 implies !((#[trigger] classify_spec(e[i])) is Invalid) by {
        if i == 0 {
        } else if i == 1 {
        } else if i == 2 {
        } else {
        }
    }
    assert((((b0 >> 2) << 2) | ((((((b0 & 3) << 4) | (b1 >> 4)) >> 4) & 3))) == b0)
        by (bit_vector);
    assert((((((b0 & 3) << 4) | (b1 >> 4)) << 4) | (((((b1 & 15) << 2) | (b2 >> 6)) >> 2) & 15))
        == b1) by (bit_vector);
    assert((((((b1 & 15) << 2) | (b2 >> 6)) << 6) | ((b2 & 63) & 63)) == b2) by (bit_vector);
    if chunk.len() == 1 {
        assert(decode_chunk_spec(e) =~= chunk);
    } else if chunk.len() == 2 {
        assert(decode_chunk_spec(e) =~= chunk);
    } else {
        assert(decode_chunk_spec(e) =~= chunk);
    }
}

/// Encoding `n` input bytes produces exactly `4 * ceil(n / 3)` output
/// characters, and none for an empty input.
pub proof fn lemma_encode_len(s: Seq<u8>)
    ensures
        encode_seq(s).len() == 4 * ((s.len() + 2) / 3),
    decreases s.len(),
{
    if s.len() >= 3 {
        lemma_encode_len(s.skip(3));
    }
}

/// Every character the encoder produces lies in the 65-character output
/// set: the standard alphabet plus the padding mark.
pub proof fn lemma_encode_alphabet(s: Seq<u8>)
    ensures
        forall|i: int| 0 <= i < encode_seq(s).len()
            ==> is_output_char(#[trigger] encode_seq(s)[i]),
    decreases s.len(),
{
    lemma_char_in_alphabet();
    if s.len() == 0 {
    } else if s.len() < 3 {
        assert forall|i: int| 0 <= i < encode_seq(s).len()
            implies is_output_char(#[trigger] encode_seq(s)[i]) by {
            assert(encode_seq(s) == encode_chunk_spec(s));
        }
    } else {
        lemma_encode_alphabet(s.skip(3));
        let ec = encode_chunk_spec(s.take(3));
        let er = encode_seq(s.skip(3));
        assert forall|i: int| 0 <= i < encode_seq(s).len()
            implies is_output_char(#[trigger] encode_seq(s)[i]) by {
            if i < 4 {
                assert(encode_seq(s)[i] == ec[i]);
            } else {
                assert(encode_seq(s)[i] == er[i - 4]);
            }
        }
    }
}

/// Trailing padding is an exact function of the input length: an input of
/// `n` bytes encodes with two padding marks when `n % 3 == 1`, one when
/// `n % 3 == 2`, and none when `n % 3 == 0` — and the padding mark occurs
/// nowhere else in the output.
pub proof fn lemma_encode_padding(s: Seq<u8>)
    ensures
        forall|i: int| 0 <= i < encode_seq(s).len()
            ==> (((#[trigger] encode_seq(s)[i]) == 61)
                <==> i >= encode_seq(s).len() - pad_len(s.len() as int)),
    decreases s.len(),
{
    lemma_char_in_alphabet();
    if s.len() == 0 {
    } else if s.len() < 3 {
        assert forall|i: int| 0 <= i < encode_seq(s).len()
            implies (((#[trigger] encode_seq(s)[i]) == 61)
                <==> i >= encode_seq(s).len() - pad_len(s.len() as int)) by {
            assert(encode_seq(s) == encode_chunk_spec(s));
        }
    } else {
        lemma_encode_padding(s.skip(3));
        lemma_encode_len(s.skip(3));
        let ec = encode_chunk_spec(s.take(3));
        let er = encode_seq(s.skip(3));
        assert((s.len() - 3) % 3 == s.len() % 3);
        assert forall|i: int| 0 <= i < encode_seq(s).len()
            implies (((#[trigger] encode_seq(s)[i]) == 61)
                <==> i >= encode_seq(s).len() - pad_len(s.len() as int)) by {
            if i < 4 {
                assert(encode_seq(s)[i] == ec[i]);
                assert(ec[i] != 61);
                if s.len() % 3 != 0 {
                    assert(er.len() >= 4);
                }
            } else {
                assert(encode_seq(s)[i] == er[i - 4]);
            }
        }
    }
}

/// Round trip: the encoding of any byte sequence decodes with no error,
/// and decodes back to exactly the original sequence.
pub proof fn lemma_round_trip(s: Seq<u8>)
    ensures
        decode_ok(encode_seq(s)),
        decode_output(encode_seq(s)) == s,
    decreases s.len(),
{
    if s.len() == 0 {
    } else if s.len() < 3 {
        let e = encode_seq(s);
        lemma_chunk_round_trip(s);
        assert(e.take(4) =~= e);
        assert(e.skip(4) =~= Seq::<u8>::empty());
        assert(decode_output(Seq::<u8>::empty()) == Seq::<u8>::empty());
        assert(decode_ok(Seq::<u8>::empty()));
        assert(decode_output(e) =~= s);
    } else {
        let c = s.take(3);
        let rest = s.skip(3);
        lemma_chunk_round_trip(c);
        lemma_round_trip(rest);
        let e = encode_seq(s);
        assert(e.take(4) =~= encode_chunk_spec(c));
        assert(e.skip(4) =~= encode_seq(rest));
        assert(e.len() >= 4);
        assert(decode_output(e) =~= c + rest);
        assert(c + rest =~= s);
    }
}

} // verus!
