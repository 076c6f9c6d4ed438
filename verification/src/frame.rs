//! Length-prefixed framing for stream transports. A frame is a four-byte
//! big-endian length followed by that many payload bytes; a logical message
//! is a header frame followed by a body frame.

use vstd::prelude::*;
use vstd::arithmetic::div_mod::{
    lemma_breakdown, lemma_fundamental_div_mod, lemma_multiply_divide_lt, lemma_small_mod,
};
use crate::util::{extend_bytes, sub_bytes};

verus! {

/// The four big-endian length bytes of a frame carrying `n` payload bytes.
pub open spec fn spec_len_bytes(n: int) -> Seq<u8> {
    seq![
        (n / 16777216 % 256) as u8,
        (n / 65536 % 256) as u8,
        (n / 256 % 256) as u8,
        (n % 256) as u8,
    ]
}

/// The length the four bytes `b0..b3` denote.
pub open spec fn spec_len_value(b0: u8, b1: u8, b2: u8, b3: u8) -> int {
    b0 * 16777216 + b1 * 65536 + b2 * 256 + b3
}

/// Reading back the four length bytes of `n` gives `n`.
pub proof fn lemma_len_round_trip(n: int)
    requires
        0 <= n < 4294967296,
    ensures
        ({
            let b = spec_len_bytes(n);
            spec_len_value(b[0], b[1], b[2], b[3]) == n
        }),
{
    lemma_multiply_divide_lt(n, 16777216, 256);
    lemma_small_mod((n / 16777216) as nat, 256);
    lemma_fundamental_div_mod(n, 16777216);
    lemma_breakdown(n, 65536, 256);
    lemma_breakdown(n, 256, 256);
    assert(n % 16777216 == 65536 * ((n / 65536) % 256) + n % 65536);
    assert(n % 65536 == 256 * ((n / 256) % 256) + n % 256);
    assert(0 <= n / 16777216 % 256 < 256);
    assert(0 <= n / 65536 % 256 < 256);
    assert(0 <= n / 256 % 256 < 256);
    assert(0 <= n % 256 < 256);
}

/// One frame: the length bytes, then the payload.
pub open spec fn spec_frame(payload: Seq<u8>) -> Seq<u8> {
    spec_len_bytes(payload.len() as int) + payload
}

/// A whole logical message: a header frame, then a body frame.
pub open spec fn spec_message(header: Seq<u8>, body: Seq<u8>) -> Seq<u8> {
    spec_frame(header) + spec_frame(body)
}

/// Append one frame around `payload` to `out`.
pub fn write_frame(out: &mut Vec<u8>, payload: &[u8])
    requires
        payload@.len() < 4294967296,
    ensures
        final(out)@ == old(out)@ + spec_frame(payload@),
{
    let n: usize = payload.len();
    proof {
        lemma_multiply_divide_lt(n as int, 16777216, 256);
        lemma_multiply_divide_lt(n as int, 65536, 65536);
        lemma_multiply_divide_lt(n as int, 256, 16777216);
    }
    out.push((n / 16777216 % 256) as u8);
    out.push((n / 65536 % 256) as u8);
    out.push((n / 256 % 256) as u8);
    out.push((n % 256) as u8);
    extend_bytes(out, payload);
    proof {
        assert(final(out)@ =~= old(out)@ + spec_frame(payload@));
    }
}

/// What reading one frame at `i` yields: the payload and the index just
/// past it, when the buffer holds a complete frame there.
pub open spec fn spec_read_frame(s: Seq<u8>, i: int) -> Option<(Seq<u8>, int)> {
    if i < 0 || i + 4 > s.len() {
        None
    } else {
        let n = spec_len_value(s[i], s[i + 1], s[i + 2], s[i + 3]);
        if i + 4 + n > s.len() {
            None
        } else {
            Some((s.subrange(i + 4, i + 4 + n), i + 4 + n))
        }
    }
}

/// Read one frame at `i`, as [`spec_read_frame`] describes.
pub fn read_frame(s: &[u8], i: usize) -> (r: Option<(Vec<u8>, usize)>)
    ensures
        match r {
            None => spec_read_frame(s@, i as int) is None,
            Some((p, j)) => spec_read_frame(s@, i as int) == Some((p@, j as int)),
        },
{
    if s.len() < 4 || i > s.len() - 4 {
        return None;
    }
    let n: usize = (s[i] as usize) * 16777216 + (s[i + 1] as usize) * 65536
        + (s[i + 2] as usize) * 256 + (s[i + 3] as usize);
    if n > s.len() - (i + 4) {
        return None;
    }
    let p = sub_bytes(s, i + 4, i + 4 + n);
    Some((p, i + 4 + n))
}

/// Reading a frame at `i` whose length bytes and payload stand in `s`
/// gives the payload back and stops just past it.
pub proof fn lemma_read_frame_at(s: Seq<u8>, i: int, payload: Seq<u8>)
    requires
        0 <= i,
        payload.len() < 4294967296,
        i + 4 + payload.len() <= s.len(),
        s.subrange(i, i + 4) == spec_len_bytes(payload.len() as int),
        s.subrange(i + 4, i + 4 + payload.len()) == payload,
    ensures
        spec_read_frame(s, i) == Some((payload, i + 4 + payload.len() as int)),
{
    let n = payload.len() as int;
    lemma_len_round_trip(n);
    assert(s[i] == s.subrange(i, i + 4)[0]);
    assert(s[i + 1] == s.subrange(i, i + 4)[1]);
    assert(s[i + 2] == s.subrange(i, i + 4)[2]);
    assert(s[i + 3] == s.subrange(i, i + 4)[3]);
    assert(spec_len_value(s[i], s[i + 1], s[i + 2], s[i + 3]) == n);
}

/// Reading a frame written at the end of `pre` gives the payload back and
/// stops where whatever follows begins.
pub proof fn lemma_frame_round_trip(pre: Seq<u8>, payload: Seq<u8>, suf: Seq<u8>)
    requires
        payload.len() < 4294967296,
    ensures
        spec_read_frame(pre + spec_frame(payload) + suf, pre.len() as int) == Some((
            payload,
            pre.len() + 4 + payload.len() as int,
        )),
{
    let s = pre + spec_frame(payload) + suf;
    let i = pre.len() as int;
    let n = payload.len() as int;
    assert(s.subrange(i, i + 4) =~= spec_len_bytes(n));
    assert(s.subrange(i + 4, i + 4 + n) =~= payload);
    lemma_read_frame_at(s, i, payload);
}

/// Write a whole logical message: a header frame, then a body frame.
pub fn write_message(out: &mut Vec<u8>, header: &[u8], body: &[u8])
    requires
        header@.len() < 4294967296,
        body@.len() < 4294967296,
    ensures
        final(out)@ == old(out)@ + spec_message(header@, body@),
{
    write_frame(out, header);
    write_frame(out, body);
    proof {
        assert(final(out)@ =~= old(out)@ + spec_message(header@, body@));
    }
}

/// What reading one whole message at `i` yields: header bytes, body bytes,
/// and the index just past both frames.
pub open spec fn spec_read_message(s: Seq<u8>, i: int) -> Option<(Seq<u8>, Seq<u8>, int)> {
    match spec_read_frame(s, i) {
        None => None,
        Some((h, j)) => match spec_read_frame(s, j) {
            None => None,
            Some((b, k)) => Some((h, b, k)),
        },
    }
}

/// Read one whole message at `i`, as [`spec_read_message`] describes.
pub fn read_message(s: &[u8], i: usize) -> (r: Option<(Vec<u8>, Vec<u8>, usize)>)
    ensures
        match r {
            None => spec_read_message(s@, i as int) is None,
            Some((h, b, k)) => spec_read_message(s@, i as int) == Some((h@, b@, k as int)),
        },
{
    match read_frame(s, i) {
        None => None,
        Some((h, j)) => match read_frame(s, j) {
            None => None,
            Some((b, k)) => Some((h, b, k)),
        },
    }
}

/// Reading a message written at the end of `pre` gives both payloads back;
/// a zero-length body rounds like any other.
pub proof fn lemma_message_round_trip(pre: Seq<u8>, header: Seq<u8>, body: Seq<u8>, suf: Seq<u8>)
    requires
        header.len() < 4294967296,
        body.len() < 4294967296,
    ensures
        spec_read_message(pre + spec_message(header, body) + suf, pre.len() as int) == Some((
            header,
            body,
            pre.len() + spec_message(header, body).len() as int,
        )),
{
    let s = pre + spec_message(header, body) + suf;
    let i = pre.len() as int;
    let hn = header.len() as int;
    let bn = body.len() as int;
    let j = i + 4 + hn;
    assert(s.subrange(i, i + 4) =~= spec_len_bytes(hn));
    assert(s.subrange(i + 4, i + 4 + hn) =~= header);
    lemma_read_frame_at(s, i, header);
    assert(s.subrange(j, j + 4) =~= spec_len_bytes(bn));
    assert(s.subrange(j + 4, j + 4 + bn) =~= body);
    lemma_read_frame_at(s, j, body);
    assert(pre.len() + spec_message(header, body).len() as int == j + 4 + bn);
}

} // verus!
