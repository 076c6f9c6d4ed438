//! Whole-exchange laws: what one call looks like across both codecs and
//! the framing, stated over the wire bytes themselves.

use vstd::prelude::*;
use crate::frame::{spec_message, spec_read_message, lemma_message_round_trip};
use crate::wire::{
    lemma_request_header_round_trip, lemma_response_header_round_trip,
    spec_decode_request_header, spec_decode_response_header, spec_request_header_bytes,
    spec_response_header_bytes,
};

verus! {

/// A call served by the identity handler returns its arguments: the client
/// emits a request message for `(id, sm, args)`; the server reads exactly
/// that header and body back; a handler that returns its argument makes
/// the response body `args`; and the client reads a success response for
/// `id` whose body is `args` again.
#[verifier::rlimit(60)]
#[verifier::spinoff_prover]
pub proof fn lemma_identity_call(id: u64, sm: Seq<u8>, args: Seq<u8>)
    requires
        spec_request_header_bytes(id, sm).len() < 4294967296,
        args.len() < 4294967296,
    ensures
        ({
            let request_wire = spec_message(spec_request_header_bytes(id, sm), args);
            let response_wire = spec_message(spec_response_header_bytes(id, false), args);
            &&& spec_read_message(request_wire, 0) == Some(
                (
                    spec_request_header_bytes(id, sm),
                    args,
                    request_wire.len() as int,
                ),
            )
            &&& spec_decode_request_header(spec_request_header_bytes(id, sm)) == Some((id, sm))
            &&& spec_read_message(response_wire, 0) == Some(
                (
                    spec_response_header_bytes(id, false),
                    args,
                    response_wire.len() as int,
                ),
            )
            &&& spec_decode_response_header(spec_response_header_bytes(id, false)) == Some(
                (id, false),
            )
        }),
{
    let rh = spec_request_header_bytes(id, sm);
    let ph = spec_response_header_bytes(id, false);
    crate::digits::lemma_dec_digits_len(id as nat);
    assert(ph.len() < 4294967296);
    lemma_message_round_trip(Seq::empty(), rh, args, Seq::empty());
    assert(Seq::<u8>::empty() + spec_message(rh, args) + Seq::<u8>::empty() =~= spec_message(
        rh,
        args,
    ));
    lemma_request_header_round_trip(id, sm);
    lemma_message_round_trip(Seq::empty(), ph, args, Seq::empty());
    assert(Seq::<u8>::empty() + spec_message(ph, args) + Seq::<u8>::empty() =~= spec_message(
        ph,
        args,
    ));
    lemma_response_header_round_trip(id, false);
}

} // verus!
