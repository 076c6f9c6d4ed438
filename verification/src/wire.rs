//! Wire form of the two headers. A request header is the text
//! `{"id":<decimal>,"service_method":"<escaped>"}`, a response header the
//! text `{"id":<decimal>,"is_error":<true|false>}`. Encoders and decoders
//! are exact inverses, which `lemma_request_header_round_trip` and
//! `lemma_response_header_round_trip` state.

use vstd::prelude::*;
use crate::digits::{
    all_digits, dec_digits, dec_val, digit_run_end, encode_u64, is_digit,
    lemma_dec_digits_no_leading_zero, lemma_dec_digits_val, lemma_digit_run_end_bounds,
    lemma_digit_run_of, lemma_dec_val_nonneg, parse_u64,
};
use crate::escape::{escape, escape_into, lemma_scan_escape, scan_string, scan_string_at};
use crate::message::{RequestHeader, ResponseHeader};
use crate::util::{extend_bytes, starts_with_at, sub_bytes};

verus! {

/// The text `{"id":`.
pub open spec fn spec_header_prefix() -> Seq<u8> {
    seq![123u8, 34, 105, 100, 34, 58]
}

/// Exec form of [`spec_header_prefix`].
pub fn header_prefix() -> (r: Vec<u8>)
    ensures
        r@ == spec_header_prefix(),
{
    let v: Vec<u8> = vec![123u8, 34, 105, 100, 34, 58];
    proof {
        assert(v@ =~= spec_header_prefix());
    }
    v
}

/// The text `,"service_method":"`.
pub open spec fn spec_request_mid() -> Seq<u8> {
    seq![44u8, 34, 115, 101, 114, 118, 105, 99, 101, 95, 109, 101, 116, 104, 111, 100, 34, 58, 34]
}

/// Exec form of [`spec_request_mid`].
pub fn request_mid() -> (r: Vec<u8>)
    ensures
        r@ == spec_request_mid(),
{
    let v: Vec<u8> = vec![
        44u8, 34, 115, 101, 114, 118, 105, 99, 101, 95, 109, 101, 116, 104, 111, 100, 34, 58, 34,
    ];
    proof {
        assert(v@ =~= spec_request_mid());
    }
    v
}

/// The text `,"is_error":`.
pub open spec fn spec_response_mid() -> Seq<u8> {
    seq![44u8, 34, 105, 115, 95, 101, 114, 114, 111, 114, 34, 58]
}

/// Exec form of [`spec_response_mid`].
pub fn response_mid() -> (r: Vec<u8>)
    ensures
        r@ == spec_response_mid(),
{
    let v: Vec<u8> = vec![44u8, 34, 105, 115, 95, 101, 114, 114, 111, 114, 34, 58];
    proof {
        assert(v@ =~= spec_response_mid());
    }
    v
}

/// The text `true}` or `false}` that closes a response header.
pub open spec fn spec_bool_tail(b: bool) -> Seq<u8> {
    if b {
        seq![116u8, 114, 117, 101, 125]
    } else {
        seq![102u8, 97, 108, 115, 101, 125]
    }
}

/// Exec form of [`spec_bool_tail`].
pub fn bool_tail(b: bool) -> (r: Vec<u8>)
    ensures
        r@ == spec_bool_tail(b),
{
    if b {
        let v: Vec<u8> = vec![116u8, 114, 117, 101, 125];
        proof {
            assert(v@ =~= spec_bool_tail(b));
        }
        v
    } else {
        let v: Vec<u8> = vec![102u8, 97, 108, 115, 101, 125];
        proof {
            assert(v@ =~= spec_bool_tail(b));
        }
        v
    }
}

/// The bytes of the request header with id `id` and name `sm`.
pub open spec fn spec_request_header_bytes(id: u64, sm: Seq<u8>) -> Seq<u8> {
    spec_header_prefix() + dec_digits(id as nat) + spec_request_mid() + escape(sm)
        + seq![34u8, 125]
}

/// The bytes of the response header with id `id` and error flag `is_error`.
pub open spec fn spec_response_header_bytes(id: u64, is_error: bool) -> Seq<u8> {
    spec_header_prefix() + dec_digits(id as nat) + spec_response_mid() + spec_bool_tail(is_error)
}

/// Encode a request header.
pub fn encode_request_header(h: &RequestHeader) -> (r: Vec<u8>)
    ensures
        r@ == spec_request_header_bytes(h.id, h.service_method@),
{
    let mut out = header_prefix();
    let ghost s0 = out@;
    let digits = encode_u64(h.id);
    extend_bytes(&mut out, digits.as_slice());
    let mid = request_mid();
    extend_bytes(&mut out, mid.as_slice());
    escape_into(&mut out, h.service_method.as_slice());
    out.push(34);
    out.push(125);
    proof {
        assert(out@ =~= spec_request_header_bytes(h.id, h.service_method@));
    }
    out
}

/// Encode a response header.
pub fn encode_response_header(h: &ResponseHeader) -> (r: Vec<u8>)
    ensures
        r@ == spec_response_header_bytes(h.id, h.is_error),
{
    let mut out = header_prefix();
    let digits = encode_u64(h.id);
    extend_bytes(&mut out, digits.as_slice());
    let mid = response_mid();
    extend_bytes(&mut out, mid.as_slice());
    let tail = bool_tail(h.is_error);
    extend_bytes(&mut out, tail.as_slice());
    proof {
        assert(out@ =~= spec_response_header_bytes(h.id, h.is_error));
    }
    out
}

/// What decoding a request header yields: the id and the unescaped name,
/// when the whole input is one well-formed header; nothing otherwise.
pub open spec fn spec_decode_request_header(s: Seq<u8>) -> Option<(u64, Seq<u8>)> {
    let p = spec_header_prefix();
    if s.len() < p.len() || s.subrange(0, p.len() as int) != p {
        None
    } else {
        let i = p.len() as int;
        let j = digit_run_end(s, i);
        if j == i || (s[i] == 48 && j > i + 1) || dec_val(s.subrange(i, j)) > u64::MAX {
            None
        } else {
            let id = dec_val(s.subrange(i, j)) as u64;
            let mid = spec_request_mid();
            if j + mid.len() > s.len() || s.subrange(j, j + mid.len()) != mid {
                None
            } else {
                match scan_string(s, j + mid.len()) {
                    None => None,
                    Some((sm, m)) => {
                        if m + 1 == s.len() && s[m] == 125 {
                            Some((id, sm))
                        } else {
                            None
                        }
                    },
                }
            }
        }
    }
}

/// What decoding a response header yields.
pub open spec fn spec_decode_response_header(s: Seq<u8>) -> Option<(u64, bool)> {
    let p = spec_header_prefix();
    if s.len() < p.len() || s.subrange(0, p.len() as int) != p {
        None
    } else {
        let i = p.len() as int;
        let j = digit_run_end(s, i);
        if j == i || (s[i] == 48 && j > i + 1) || dec_val(s.subrange(i, j)) > u64::MAX {
            None
        } else {
            let id = dec_val(s.subrange(i, j)) as u64;
            let mid = spec_response_mid();
            if j + mid.len() > s.len() || s.subrange(j, j + mid.len()) != mid {
                None
            } else {
                let k = j + mid.len();
                if s.skip(k) =~= spec_bool_tail(true) {
                    Some((id, true))
                } else if s.skip(k) =~= spec_bool_tail(false) {
                    Some((id, false))
                } else {
                    None
                }
            }
        }
    }
}

/// Find the end of the digit run that begins at `i`.
fn find_digit_run_end(s: &[u8], i: usize) -> (j: usize)
    requires
        i <= s@.len(),
    ensures
        j == digit_run_end(s@, i as int),
        i <= j <= s@.len(),
{
    let mut j: usize = i;
    while j < s.len() && 48 <= s[j] && s[j] <= 57
        invariant
            i <= j <= s@.len(),
            digit_run_end(s@, i as int) == digit_run_end(s@, j as int),
        decreases s@.len() - j,
    {
        j = j + 1;
    }
    j
}

/// Decode a request header, as [`spec_decode_request_header`] describes.
pub fn decode_request_header(s: &[u8]) -> (r: Option<RequestHeader>)
    ensures
        match r {
            None => spec_decode_request_header(s@) is None,
            Some(h) => spec_decode_request_header(s@) == Some((h.id, h.service_method@)),
        },
{
    let p = header_prefix();
    if !starts_with_at(s, 0, p.as_slice()) {
        return None;
    }
    let i = p.len();
    let j = find_digit_run_end(s, i);
    proof {
        lemma_digit_run_end_bounds(s@, i as int);
    }
    if j == i {
        return None;
    }
    if s[i] == 48 && j > i + 1 {
        return None;
    }
    let digits = sub_bytes(s, i, j);
    let id = match parse_u64(digits.as_slice()) {
        Some(v) => v,
        None => {
            proof {
                assert(all_digits(s@.subrange(i as int, j as int)));
                lemma_dec_val_nonneg(s@.subrange(i as int, j as int));
            }
            return None;
        },
    };
    proof {
        assert(all_digits(s@.subrange(i as int, j as int)));
    }
    let mid = request_mid();
    if !starts_with_at(s, j, mid.as_slice()) {
        return None;
    }
    let k = j + mid.len();
    match scan_string_at(s, k) {
        None => None,
        Some((sm, m)) => {
            if m < s.len() && m + 1 == s.len() && s[m] == 125 {
                Some(RequestHeader { id, service_method: sm })
            } else {
                None
            }
        },
    }
}

/// Decode a response header, as [`spec_decode_response_header`] describes.
pub fn decode_response_header(s: &[u8]) -> (r: Option<ResponseHeader>)
    ensures
        match r {
            None => spec_decode_response_header(s@) is None,
            Some(h) => spec_decode_response_header(s@) == Some((h.id, h.is_error)),
        },
{
    let p = header_prefix();
    if !starts_with_at(s, 0, p.as_slice()) {
        return None;
    }
    let i = p.len();
    let j = find_digit_run_end(s, i);
    proof {
        lemma_digit_run_end_bounds(s@, i as int);
    }
    if j == i {
        return None;
    }
    if s[i] == 48 && j > i + 1 {
        return None;
    }
    let digits = sub_bytes(s, i, j);
    let id = match parse_u64(digits.as_slice()) {
        Some(v) => v,
        None => {
            proof {
                assert(all_digits(s@.subrange(i as int, j as int)));
                lemma_dec_val_nonneg(s@.subrange(i as int, j as int));
            }
            return None;
        },
    };
    proof {
        assert(all_digits(s@.subrange(i as int, j as int)));
    }
    let mid = response_mid();
    if !starts_with_at(s, j, mid.as_slice()) {
        return None;
    }
    let k = j + mid.len();
    let t_true = bool_tail(true);
    let t_false = bool_tail(false);
    if s.len() - k == t_true.len() && starts_with_at(s, k, t_true.as_slice()) {
        proof {
            assert(s@.skip(k as int) =~= s@.subrange(k as int, k + t_true@.len()));
        }
        Some(ResponseHeader { id, is_error: true })
    } else if s.len() - k == t_false.len() && starts_with_at(s, k, t_false.as_slice()) {
        proof {
            assert(s@.skip(k as int) =~= s@.subrange(k as int, k + t_false@.len()));
            assert(!(s@.skip(k as int) =~= spec_bool_tail(true)));
        }
        Some(ResponseHeader { id, is_error: false })
    } else {
        proof {
            if s@.skip(k as int) =~= spec_bool_tail(true) {
                assert(s@.subrange(k as int, k + t_true@.len()) =~= spec_bool_tail(true));
            }
            if s@.skip(k as int) =~= spec_bool_tail(false) {
                assert(s@.subrange(k as int, k + t_false@.len()) =~= spec_bool_tail(false));
            }
        }
        None
    }
}

/// Decoding inverts encoding on every request header.
pub proof fn lemma_request_header_round_trip(id: u64, sm: Seq<u8>)
    ensures
        spec_decode_request_header(spec_request_header_bytes(id, sm)) == Some((id, sm)),
{
    let p = spec_header_prefix();
    let d = dec_digits(id as nat);
    let mid = spec_request_mid();
    let e = escape(sm);
    let s = spec_request_header_bytes(id, sm);
    lemma_dec_digits_val(id as nat);
    lemma_dec_digits_no_leading_zero(id as nat);
    assert(s.len() == p.len() + d.len() + mid.len() + e.len() + 2);
    assert(s.subrange(0, p.len() as int) =~= p);
    let i = p.len() as int;
    let j = i + d.len() as int;
    assert(s.subrange(i, j) =~= d);
    assert(s[j] == mid[0]);
    assert(!is_digit(s[j]));
    lemma_digit_run_of(s, i, d);
    assert(digit_run_end(s, i) == j);
    assert(dec_val(s.subrange(i, j)) == id);
    assert(s[i] == d[0]);
    assert(!(s[i] == 48 && j > i + 1));
    assert(s.subrange(j, j + mid.len()) =~= mid);
    let k = j + mid.len() as int;
    assert(s.subrange(k, k + e.len()) =~= e);
    assert(s[k + e.len()] == 34);
    lemma_scan_escape(s, k, sm);
    let m = k + e.len() + 1;
    assert(scan_string(s, k) == Some((sm, m)));
    assert(s[m] == 125);
    assert(m + 1 == s.len());
}

/// Decoding inverts encoding on every response header.
pub proof fn lemma_response_header_round_trip(id: u64, is_error: bool)
    ensures
        spec_decode_response_header(spec_response_header_bytes(id, is_error)) == Some((
            id,
            is_error,
        )),
{
    let p = spec_header_prefix();
    let d = dec_digits(id as nat);
    let mid = spec_response_mid();
    let t = spec_bool_tail(is_error);
    let s = spec_response_header_bytes(id, is_error);
    lemma_dec_digits_val(id as nat);
    lemma_dec_digits_no_leading_zero(id as nat);
    assert(s.len() == p.len() + d.len() + mid.len() + t.len());
    assert(s.subrange(0, p.len() as int) =~= p);
    let i = p.len() as int;
    let j = i + d.len() as int;
    assert(s.subrange(i, j) =~= d);
    assert(s[j] == mid[0]);
    assert(!is_digit(s[j]));
    lemma_digit_run_of(s, i, d);
    assert(dec_val(s.subrange(i, j)) == id);
    assert(s[i] == d[0]);
    assert(!(s[i] == 48 && j > i + 1));
    assert(s.subrange(j, j + mid.len()) =~= mid);
    let k = j + mid.len() as int;
    assert(s.skip(k) =~= t);
    if is_error {
        assert(s.skip(k) =~= spec_bool_tail(true));
    } else {
        assert(!(s.skip(k) =~= spec_bool_tail(true)));
        assert(s.skip(k) =~= spec_bool_tail(false));
    }
}


/// The body of a cancellation: its token between quotes, escaped.
pub open spec fn spec_string_body_bytes(c: Seq<u8>) -> Seq<u8> {
    seq![34u8] + escape(c) + seq![34u8]
}

/// Encode a text body: the bytes between quotes, escaped.
pub fn encode_string_body(c: &[u8]) -> (r: Vec<u8>)
    ensures
        r@ == spec_string_body_bytes(c@),
{
    let mut out: Vec<u8> = Vec::new();
    out.push(34);
    escape_into(&mut out, c);
    out.push(34);
    proof {
        assert(out@ =~= spec_string_body_bytes(c@));
    }
    out
}

/// What decoding a text body yields: the unescaped text when the whole
/// input is one quoted string, nothing otherwise.
pub open spec fn spec_decode_string_body(s: Seq<u8>) -> Option<Seq<u8>> {
    if s.len() >= 1 && s[0] == 34 {
        match scan_string(s, 1) {
            None => None,
            Some((c, m)) => if m == s.len() {
                Some(c)
            } else {
                None
            },
        }
    } else {
        None
    }
}

/// Decode a text body, as [`spec_decode_string_body`] describes.
pub fn decode_string_body(s: &[u8]) -> (r: Option<Vec<u8>>)
    ensures
        match r {
            None => spec_decode_string_body(s@) is None,
            Some(c) => spec_decode_string_body(s@) == Some(c@),
        },
{
    if s.len() < 1 || s[0] != 34 {
        return None;
    }
    match scan_string_at(s, 1) {
        None => None,
        Some((c, m)) => {
            if m == s.len() {
                Some(c)
            } else {
                None
            }
        },
    }
}

/// Decoding inverts encoding on every text body.
pub proof fn lemma_string_body_round_trip(c: Seq<u8>)
    ensures
        spec_decode_string_body(spec_string_body_bytes(c)) == Some(c),
{
    let s = spec_string_body_bytes(c);
    assert(s[0] == 34);
    assert(s.subrange(1, 1 + escape(c).len() as int) =~= escape(c));
    assert(s[1 + escape(c).len() as int] == 34);
    lemma_scan_escape(s, 1, c);
}

} // verus!
