//! The codec seam. The engine's own headers and error bodies have their
//! verified wire form in `wire` and `errmsg`; the numeric control bodies —
//! an acknowledged sequence id, a timeout hint's nanoseconds — go through
//! the JSON codec crate, whose calls stand here behind trusted wrappers
//! with contracts over the same decimal grammar the rest of the crate
//! proves things about.

use vstd::prelude::*;
use crate::digits::{dec_digits, lemma_dec_digits_val, parse_u64_spec};

verus! {

/// A codec bound to one connection: the reader half and the writer half
/// of the transport it runs on.
pub struct Codec<R, W> {
    /// The transport read-half handle.
    pub reader: R,
    /// The transport write-half handle.
    pub writer: W,
}

impl<R, W> Codec<R, W> {
    /// Bind a codec to a reader and a writer.
    pub fn with_reader_writer(reader: R, writer: W) -> (r: Codec<R, W>)
        ensures
            r == (Codec { reader, writer }),
    {
        Codec { reader, writer }
    }
}

/// A deferred decoder: it holds an unconsumed body source and produces a
/// typed value only when the consumer that knows the target type runs it.
/// The reader dispatches on the header without paying for typed decoding.
pub struct DeserializerOwned<D> {
    /// The body source the eventual typed decode consumes.
    pub inner: D,
}

impl<D> DeserializerOwned<D> {
    /// Wrap a body source for a later typed decode.
    pub fn new(inner: D) -> (r: DeserializerOwned<D>)
        ensures
            r == (DeserializerOwned { inner }),
    {
        DeserializerOwned { inner }
    }
}

/// Relies on serde_json::to_vec on a `u64`: the crate writes an unsigned
/// integer as its plain decimal digits, no sign, no leading zeros, and
/// serializing an integer to a vector cannot fail.
#[verifier::external_body]
fn json_encode_u64(v: u64) -> (r: Vec<u8>)
    ensures
        r@ == dec_digits(v as nat),
{
    // Serializing an integer into a vector writer is infallible; the
    // error arm is unreachable and only satisfies the signature.
    match serde_json::to_vec(&v) {
        Ok(bytes) => bytes,
        Err(_) => Vec::new(),
    }
}

/// Relies on serde_json::from_slice on a `u64`: the canonical decimal
/// digits of a value parse back to that value. (The crate also accepts
/// surrounding whitespace, so nothing is claimed of other inputs.)
#[verifier::external_body]
fn json_decode_u64(b: &[u8]) -> (r: Option<u64>)
    ensures
        forall|v: u64| b@ == dec_digits(v as nat) ==> r == Some(v),
{
    match serde_json::from_slice::<u64>(b) {
        Ok(v) => Some(v),
        Err(_) => None,
    }
}

/// Encode a numeric control body — an acknowledged sequence id, or a
/// timeout hint's nanoseconds — through the JSON codec.
pub fn encode_u64_body(v: u64) -> (r: Vec<u8>)
    ensures
        r@ == dec_digits(v as nat),
{
    json_encode_u64(v)
}

/// Decode a numeric control body through the JSON codec: whatever came
/// over the wire, the canonical encoding of a value always decodes back
/// to it.
pub fn decode_u64_body(b: &[u8]) -> (r: Option<u64>)
    ensures
        forall|v: u64| b@ == dec_digits(v as nat) ==> r == Some(v),
{
    json_decode_u64(b)
}

/// A numeric control body written by the codec is also accepted by the
/// dispatcher's own parser: the canonical digits denote the value.
pub proof fn lemma_u64_body_round_trip(v: u64)
    ensures
        parse_u64_spec(dec_digits(v as nat)) == Some(v),
{
    lemma_dec_digits_val(v as nat);
}

} // verus!
