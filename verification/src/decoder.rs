//! The streaming decoder: chunks of four input characters are classified
//! against the alphabet, checked for misplaced padding, unpacked into up to
//! three bytes, and drained one byte at a time from a staging buffer. A
//! status records whether every chunk processed so far was valid; the first
//! invalid chunk is terminal.

use vstd::prelude::*;
use vstd::slice::slice_subrange;
use crate::model::Decoded;
use crate::model::chunk_valid;
use crate::model::classify_spec;
use crate::model::decode_chunk_spec;
use crate::model::decode_ok;
use crate::model::decode_output;
use crate::model::value_of;

verus! {

broadcast use vstd::array::group_array_axioms;

/// The decoder's status: `Ok(())` while every chunk processed so far was
/// valid, `Err(())` from the first invalid chunk on.
pub type Base64Result = Result<(), ()>;

/// Staging buffer for one decoded chunk: up to three output bytes, of which
/// `len` are valid and `idx` have already been handed out.
struct DecodeIterator {
    buffer: [u8; 3],
    idx: usize,
    len: usize,
}

impl DecodeIterator {
    spec fn wf(self) -> bool {
        self.idx <= self.len && self.len <= 3
    }

    /// The bytes of the current chunk not yet delivered.
    spec fn pending(self) -> Seq<u8> {
        self.buffer@.subrange(self.idx as int, self.len as int)
    }

    /// Hand out the next staged byte, if one is left.
    fn next(&mut self) -> (r: Option<u8>)
        requires
            old(self).wf(),
        ensures
            final(self).wf(),
            match r {
                Some(b) => {
                    &&& old(self).pending().len() > 0
                    &&& b == old(self).pending()[0]
                    &&& final(self).pending() == old(self).pending().skip(1)
                },
                None => {
                    &&& old(self).pending().len() == 0
                    &&& *final(self) == *old(self)
                },
            },
    {
        if self.idx < self.len {
            self.idx = self.idx + 1;
            let b = self.buffer[self.idx - 1];
            proof {
                assert(final(self).pending() =~= old(self).pending().skip(1));
            }
            Some(b)
        } else {
            None
        }
    }
}

/// Classify one byte of Base64 text; both the standard and the URL-safe
/// alphabet are accepted.
fn classify(c: u8) -> (r: Decoded)
    ensures
        r == classify_spec(c),
{
    if 65 <= c && c <= 90 {
        Decoded::Value(c - 65)
    } else if 97 <= c && c <= 122 {
        Decoded::Value(c - 71)
    } else if 48 <= c && c <= 57 {
        Decoded::Value(c + 4)
    } else if c == 43 || c == 45 {
        Decoded::Value(62)
    } else if c == 47 || c == 95 {
        Decoded::Value(63)
    } else if c == 61 {
        Decoded::Padding
    } else {
        Decoded::Invalid
    }
}

/// Whether a classification marks a byte outside the alphabet.
fn is_invalid(d: Decoded) -> (r: bool)
    ensures
        r == (d is Invalid),
{
    match d {
        Decoded::Invalid => true,
        _ => false,
    }
}

/// Whether a classification is the padding mark.
fn is_padding(d: Decoded) -> (r: bool)
    ensures
        r == (d is Padding),
{
    match d {
        Decoded::Padding => true,
        _ => false,
    }
}

/// The six-bit value a classification carries.
fn val_of(d: Decoded) -> (r: u8)
    ensures
        r == value_of(d),
{
    match d {
        Decoded::Value(v) => v,
        _ => 0,
    }
}

/// Check one chunk and, when it is valid, fill the staging buffer with the
/// bytes it decodes to. An invalid chunk leaves the buffer untouched.
fn decode_chunk(chunk: &[u8], output: &mut DecodeIterator) -> (r: Base64Result)
    requires
        chunk@.len() <= 4,
        old(output).wf(),
    ensures
        final(output).wf(),
        if chunk_valid(chunk@) {
            &&& r is Ok
            &&& final(output).pending() == decode_chunk_spec(chunk@)
        } else {
            &&& r is Err
            &&& *final(output) == *old(output)
        },
{
    if chunk.len() < 4 {
        return Err(());
    }
    let d0 = classify(chunk[0]);
    let d1 = classify(chunk[1]);
    let d2 = classify(chunk[2]);
    let d3 = classify(chunk[3]);

    // Every character must be in the alphabet or be padding.
    if is_invalid(d0) || is_invalid(d1) || is_invalid(d2) || is_invalid(d3) {
        return Err(());
    }
    // The first six-bit group always needs two real characters.
    if is_padding(d0) || is_padding(d1) {
        return Err(());
    }
    // Padding must be a suffix of the chunk.
    if is_padding(d2) && !is_padding(d3) {
        return Err(());
    }

    let v0 = val_of(d0);
    let v1 = val_of(d1);
    let v2 = val_of(d2);
    let v3 = val_of(d3);
    output.buffer[0] = (v0 << 2) | ((v1 >> 4) & 3);
    output.len = 1;
    if !is_padding(d2) {
        output.buffer[1] = (v1 << 4) | ((v2 >> 2) & 15);
        output.len = 2;
        if !is_padding(d3) {
            output.buffer[2] = (v2 << 6) | (v3 & 63);
            output.len = 3;
        }
    }
    output.idx = 0;
    proof {
        assert(final(output).pending() =~= decode_chunk_spec(chunk@));
    }
    Ok(())
}

/// Streaming Base64 decoder over a borrowed byte slice. Output bytes are
/// pulled one at a time with [`Self::next`]; up to three are produced for
/// every chunk of four input characters. The first invalid chunk sets the
/// status to an error and ends all output.
pub struct Base64Decoder<'a> {
    input: &'a [u8],
    pos: usize,
    output: DecodeIterator,
    status: Base64Result,
}

impl<'a> Base64Decoder<'a> {
    /// The whole input this decoder was built over.
    pub closed spec fn spec_input(self) -> Seq<u8> {
        self.input@
    }

    /// Whether an invalid chunk has been encountered.
    pub closed spec fn spec_failed(self) -> bool {
        self.status is Err
    }

    /// The input not yet consumed into the staging buffer.
    pub closed spec fn spec_rest(self) -> Seq<u8> {
        self.input@.skip(self.pos as int)
    }

    pub closed spec fn wf(self) -> bool {
        &&& self.output.wf()
        &&& self.pos <= self.input@.len()
        &&& (self.status is Err ==> self.output.pending().len() == 0)
    }

    /// The output bytes still owed: what is staged from the current chunk,
    /// then the decode of the valid chunks ahead; nothing after a failure.
    pub closed spec fn spec_remaining(self) -> Seq<u8> {
        if self.status is Err {
            Seq::<u8>::empty()
        } else {
            self.output.pending() + decode_output(self.input@.skip(self.pos as int))
        }
    }

    /// Create a new Base64Decoder from the provided slice.
    pub fn new(input: &'a [u8]) -> (r: Base64Decoder<'a>)
        ensures
            r.wf(),
            r.spec_input() == input@,
            !r.spec_failed(),
            r.spec_rest() == input@,
            r.spec_remaining() == decode_output(input@),
    {
        let r = Base64Decoder {
            input,
            pos: 0,
            output: DecodeIterator { buffer: [0u8; 3], idx: 0, len: 0 },
            status: Ok(()),
        };
        proof {
            assert(r.output.pending() =~= Seq::<u8>::empty());
            assert(input@.skip(0) =~= input@);
            assert(r.spec_remaining() =~= decode_output(input@));
        }
        r
    }

    /// Check the decoder status: `Ok(())` while every chunk processed so
    /// far was valid, `Err(())` otherwise. Because output is pulled byte by
    /// byte, the status must be read after consumption to learn whether the
    /// input was well formed.
    pub fn status(&self) -> (r: Base64Result)
        ensures
            (r is Err) <==> self.spec_failed(),
    {
        self.status
    }

    /// Hand out the next output byte: either a byte already staged, or the
    /// first byte decoded from the next input chunk. `None` when the output
    /// is exhausted, the input has run out, or a chunk was invalid; after a
    /// failure the decoder never produces again and its state is unchanged.
    pub fn next(&mut self) -> (r: Option<u8>)
        requires
            old(self).wf(),
        ensures
            final(self).wf(),
            final(self).spec_input() == old(self).spec_input(),
            old(self).spec_failed() ==> *final(self) == *old(self),
            match r {
                Some(b) => {
                    &&& !old(self).spec_failed()
                    &&& !final(self).spec_failed()
                    &&& old(self).spec_remaining().len() > 0
                    &&& b == old(self).spec_remaining()[0]
                    &&& final(self).spec_remaining() == old(self).spec_remaining().skip(1)
                    &&& decode_ok(old(self).spec_rest()) == decode_ok(final(self).spec_rest())
                },
                None => {
                    &&& old(self).spec_remaining().len() == 0
                    &&& final(self).spec_remaining().len() == 0
                    &&& final(self).spec_failed() == (old(self).spec_failed()
                        || old(self).spec_rest().len() > 0)
                    &&& (!old(self).spec_failed() ==> final(self).spec_failed()
                        == !decode_ok(old(self).spec_rest()))
                    &&& (!final(self).spec_failed() ==> final(self).spec_rest()
                        == old(self).spec_rest())
                },
            },
    {
        let first = self.output.next();
        if let Some(b) = first {
            proof {
                assert(old(self).spec_remaining()[0] == b);
                assert(final(self).spec_remaining() =~= old(self).spec_remaining().skip(1));
            }
            Some(b)
        } else if self.status.is_err() {
            None
        } else if self.pos < self.input.len() {
            let n: usize = self.input.len() - self.pos;
            let end: usize = if n < 4 { self.input.len() } else { self.pos + 4 };
            let chunk = slice_subrange(self.input, self.pos, end);
            proof {
                let rest = old(self).input@.skip(old(self).pos as int);
                assert(chunk@ =~= if rest.len() < 4 { rest } else { rest.take(4) });
                if rest.len() >= 4 {
                    assert(rest.skip(4) =~= old(self).input@.skip(end as int));
                }
            }
            let st = decode_chunk(chunk, &mut self.output);
            self.pos = end;
            self.status = st;
            match st {
                Ok(()) => {
                    proof {
                        let rest = old(self).input@.skip(old(self).pos as int);
                        assert(chunk_valid(chunk@));
                        assert(rest.len() >= 4 && chunk@ == rest.take(4));
                        assert(old(self).spec_remaining()
                            =~= decode_chunk_spec(chunk@) + decode_output(rest.skip(4)));
                    }
                    let r = self.output.next();
                    proof {
                        assert(r is Some);
                        assert(final(self).spec_remaining()
                            =~= old(self).spec_remaining().skip(1));
                    }
                    r
                },
                Err(()) => {
                    proof {
                        let rest = old(self).input@.skip(old(self).pos as int);
                        assert(decode_output(rest) =~= Seq::<u8>::empty());
                        assert(old(self).spec_remaining().len() == 0);
                        assert(rest.len() > 0);
                        assert(!decode_ok(rest));
                    }
                    None
                },
            }
        } else {
            proof {
                assert(old(self).input@.skip(old(self).pos as int) =~= Seq::<u8>::empty());
                assert(old(self).spec_remaining() =~= Seq::<u8>::empty());
                assert(decode_ok(Seq::<u8>::empty()));
            }
            None
        }
    }
}

} // verus!
