//! The streaming encoder: chunks of up to three input bytes are packed into
//! a 24-bit accumulator, split into four six-bit groups, mapped through the
//! alphabet, and drained one character at a time from a staging buffer.

use vstd::prelude::*;
use vstd::slice::slice_subrange;
use crate::model::char_of_six;
use crate::model::encode_chunk_spec;
use crate::model::encode_seq;

verus! {

broadcast use vstd::array::group_array_axioms;

/// Staging buffer for one encoded chunk: four output characters, delivered
/// one at a time. `idx` counts how many of them have already been handed
/// out.
struct EncodeIterator {
    buffer: [u8; 4],
    idx: usize,
}

impl EncodeIterator {
    spec fn wf(self) -> bool {
        self.idx <= 4
    }

    /// The characters of the current chunk not yet delivered.
    spec fn pending(self) -> Seq<u8> {
        self.buffer@.skip(self.idx as int)
    }

    /// Hand out the next staged character, if one is left.
    fn next(&mut self) -> (r: Option<u8>)
        requires
            old(self).wf(),
        ensures
            final(self).wf(),
            match r {
                Some(b) => {
                    &&& old(self).pending().len() > 0
                    &&& b == old(self).pending()[0]
                    &&& final(self).pending() == old(self).pending().skip(1)
                },
                None => {
                    &&& old(self).pending().len() == 0
                    &&& *final(self) == *old(self)
                },
            },
    {
        if self.idx < 4 {
            self.idx = self.idx + 1;
            let b = self.buffer[self.idx - 1];
            proof {
                assert(final(self).pending() =~= old(self).pending().skip(1));
            }
            Some(b)
        } else {
            None
        }
    }
}

/// Pack up to three bytes into a 24-bit accumulator, left-aligned: byte 0
/// occupies bits 16 to 23, byte 1 bits 8 to 15, byte 2 bits 0 to 7; absent
/// bytes contribute zero bits.
fn combine_bytes(bytes: &[u8]) -> (r: u32)
    requires
        bytes@.len() <= 3,
    ensures
        ({
            let b0 = if bytes@.len() >= 1 { bytes@[0] } else { 0u8 };
            let b1 = if bytes@.len() >= 2 { bytes@[1] } else { 0u8 };
            let b2 = if bytes@.len() >= 3 { bytes@[2] } else { 0u8 };
            r == ((b0 as u32) << 16) | ((b1 as u32) << 8) | (b2 as u32)
        }),
{
    let p0: u32 = if bytes.len() >= 1 { (bytes[0] as u32) << 16 } else { 0 };
    let p1: u32 = if bytes.len() >= 2 { (bytes[1] as u32) << 8 } else { 0 };
    let p2: u32 = if bytes.len() >= 3 { bytes[2] as u32 } else { 0 };
    proof {
        let b0 = if bytes@.len() >= 1 { bytes@[0] } else { 0u8 };
        let b1 = if bytes@.len() >= 2 { bytes@[1] } else { 0u8 };
        let b2 = if bytes@.len() >= 3 { bytes@[2] } else { 0u8 };
        assert(((0u8 as u32) << 16) == 0 && ((0u8 as u32) << 8) == 0) by (bit_vector);
        assert(p0 == ((b0 as u32) << 16) && p1 == ((b1 as u32) << 8) && p2 == (b2 as u32));
    }
    p0 | p1 | p2
}

/// The alphabet table: the output character for a six-bit value.
fn six_to_char(v: u8) -> (r: u8)
    requires
        v < 64,
    ensures
        r == char_of_six(v),
{
    if v < 26 {
        65 + v
    } else if v < 52 {
        97 + (v - 26)
    } else if v < 62 {
        48 + (v - 52)
    } else if v == 62 {
        43
    } else {
        47
    }
}

/// Fill the staging buffer with the four characters of one input chunk,
/// padding the positions whose bits carried no input data.
fn encode_chunk(chunk: &[u8], output: &mut EncodeIterator)
    requires
        1 <= chunk@.len() <= 3,
    ensures
        final(output).buffer@ == encode_chunk_spec(chunk@),
        final(output).idx == 0,
{
    let combined: u32 = combine_bytes(chunk);
    let u0: u8 = ((combined >> 18) as u8) & 63;
    let u1: u8 = ((combined >> 12) as u8) & 63;
    let u2: u8 = ((combined >> 6) as u8) & 63;
    let u3: u8 = (combined as u8) & 63;
    proof {
        let b0 = chunk@[0];
        let b1 = if chunk@.len() >= 2 { chunk@[1] } else { 0u8 };
        let b2 = if chunk@.len() >= 3 { chunk@[2] } else { 0u8 };
        assert(combined == ((b0 as u32) << 16) | ((b1 as u32) << 8) | (b2 as u32));
        assert(((((((b0 as u32) << 16) | ((b1 as u32) << 8) | (b2 as u32)) >> 18) as u8) & 63)
            == (b0 >> 2)) by (bit_vector);
        assert(((((((b0 as u32) << 16) | ((b1 as u32) << 8) | (b2 as u32)) >> 12) as u8) & 63)
            == (((b0 & 3) << 4) | (b1 >> 4))) by (bit_vector);
        assert((((((b0 as u32) << 16) | ((b1 as u32) << 8) | (b2 as u32)) >> 6) as u8 & 63)
            == (((b1 & 15) << 2) | (b2 >> 6))) by (bit_vector);
        assert(((((b0 as u32) << 16) | ((b1 as u32) << 8) | (b2 as u32)) as u8 & 63)
            == (b2 & 63)) by (bit_vector);
        assert(u0 < 64 && u1 < 64 && u2 < 64 && u3 < 64) by (bit_vector)
            requires
                u0 == ((combined >> 18) as u8) & 63,
                u1 == ((combined >> 12) as u8) & 63,
                u2 == ((combined >> 6) as u8) & 63,
                u3 == (combined as u8) & 63,
        ;
    }
    output.buffer[0] = six_to_char(u0);
    output.buffer[1] = six_to_char(u1);
    output.buffer[2] = if chunk.len() >= 2 { six_to_char(u2) } else { 61 };
    output.buffer[3] = if chunk.len() >= 3 { six_to_char(u3) } else { 61 };
    output.idx = 0;
    proof {
        assert(final(output).buffer@ =~= encode_chunk_spec(chunk@));
    }
}

/// Streaming Base64 encoder over a borrowed byte slice. Output characters
/// are pulled one at a time with [`Self::next`]; four are produced for
/// every chunk of up to three input bytes, and none for an empty input.
pub struct Base64Encoder<'a> {
    input: &'a [u8],
    pos: usize,
    output: EncodeIterator,
}

impl<'a> Base64Encoder<'a> {
    /// The whole input this encoder was built over.
    pub closed spec fn spec_input(self) -> Seq<u8> {
        self.input@
    }

    pub closed spec fn wf(self) -> bool {
        &&& self.output.wf()
        &&& self.pos <= self.input@.len()
    }

    /// The output characters not yet delivered: what is still staged from
    /// the current chunk, then the encoding of the input not yet consumed.
    pub closed spec fn spec_remaining(self) -> Seq<u8> {
        self.output.pending() + encode_seq(self.input@.skip(self.pos as int))
    }

    /// Create a new Base64Encoder from the provided slice.
    pub fn new(input: &'a [u8]) -> (r: Base64Encoder<'a>)
        ensures
            r.wf(),
            r.spec_input() == input@,
            r.spec_remaining() == encode_seq(input@),
    {
        let r = Base64Encoder {
            input,
            pos: 0,
            output: EncodeIterator { buffer: [0u8; 4], idx: 4 },
        };
        proof {
            assert(r.output.pending() =~= Seq::<u8>::empty());
            assert(input@.skip(0) =~= input@);
            assert(r.spec_remaining() =~= encode_seq(input@));
        }
        r
    }

    /// Hand out the next output character: either a character already
    /// staged, or the first of the four produced from the next input chunk.
    /// `None` exactly when the whole encoding has been delivered.
    pub fn next(&mut self) -> (r: Option<u8>)
        requires
            old(self).wf(),
        ensures
            final(self).wf(),
            final(self).spec_input() == old(self).spec_input(),
            match r {
                Some(b) => {
                    &&& old(self).spec_remaining().len() > 0
                    &&& b == old(self).spec_remaining()[0]
                    &&& final(self).spec_remaining() == old(self).spec_remaining().skip(1)
                },
                None => {
                    &&& old(self).spec_remaining().len() == 0
                    &&& *final(self) == *old(self)
                },
            },
    {
        let first = self.output.next();
        if let Some(b) = first {
            proof {
                assert(old(self).spec_remaining()[0] == b);
                assert(final(self).spec_remaining() =~= old(self).spec_remaining().skip(1));
            }
            Some(b)
        } else if self.pos < self.input.len() {
            let n: usize = self.input.len() - self.pos;
            let end: usize = if n < 3 { self.input.len() } else { self.pos + 3 };
            let chunk = slice_subrange(self.input, self.pos, end);
            encode_chunk(chunk, &mut self.output);
            proof {
                let rest = old(self).input@.skip(old(self).pos as int);
                assert(chunk@ =~= if rest.len() < 3 { rest } else { rest.take(3) });
                if rest.len() >= 3 {
                    assert(rest.skip(3) =~= old(self).input@.skip(end as int));
                } else {
                    assert(old(self).input@.skip(end as int) =~= Seq::<u8>::empty());
                    assert(encode_seq(old(self).input@.skip(end as int)) =~= Seq::<u8>::empty());
                }
                assert(old(self).spec_remaining()
                    =~= encode_chunk_spec(chunk@) + encode_seq(old(self).input@.skip(end as int)));
            }
            self.pos = end;
            let r = self.output.next();
            proof {
                assert(r is Some);
                assert(final(self).spec_remaining() =~= old(self).spec_remaining().skip(1));
            }
            r
        } else {
            proof {
                assert(old(self).input@.skip(old(self).pos as int) =~= Seq::<u8>::empty());
                assert(old(self).spec_remaining().len() == 0);
            }
            None
        }
    }
}

} // verus!
