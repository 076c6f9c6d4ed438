//! Escaping for the string field of a wire header: quote and backslash are
//! escaped with a backslash, every other byte passes through. A scanner
//! recovers the field and finds its closing quote.

use vstd::prelude::*;

verus! {

/// The quote byte that closes a string field.
pub const QUOTE: u8 = 34;

/// The backslash byte that introduces an escape.
pub const BACKSLASH: u8 = 92;

/// The escaped form of one byte.
pub open spec fn esc_byte(b: u8) -> Seq<u8> {
    if b == QUOTE || b == BACKSLASH {
        seq![BACKSLASH, b]
    } else {
        seq![b]
    }
}

/// The escaped form of a byte string.
pub open spec fn escape(s: Seq<u8>) -> Seq<u8>
    decreases s.len(),
{
    if s.len() == 0 {
        Seq::empty()
    } else {
        esc_byte(s[0]) + escape(s.skip(1))
    }
}

/// Escaping distributes over concatenation.
pub proof fn lemma_escape_append(a: Seq<u8>, b: Seq<u8>)
    ensures
        escape(a + b) == escape(a) + escape(b),
    decreases a.len(),
{
    if a.len() == 0 {
        assert(a + b =~= b);
        assert(escape(a) + escape(b) =~= escape(b));
    } else {
        assert((a + b).skip(1) =~= a.skip(1) + b);
        lemma_escape_append(a.skip(1), b);
        assert(escape(a + b) =~= escape(a) + escape(b));
    }
}

/// Scan a string field in `s` beginning at `i` (just after the opening
/// quote): the unescaped content and the index just past the closing quote.
pub open spec fn scan_string(s: Seq<u8>, i: int) -> Option<(Seq<u8>, int)>
    decreases s.len() - i,
{
    if i < 0 || i >= s.len() {
        None
    } else if s[i] == QUOTE {
        Some((Seq::empty(), i + 1))
    } else if s[i] == BACKSLASH {
        if i + 1 < s.len() && (s[i + 1] == QUOTE || s[i + 1] == BACKSLASH) {
            match scan_string(s, i + 2) {
                None => None,
                Some((c, j)) => Some((seq![s[i + 1]] + c, j)),
            }
        } else {
            None
        }
    } else {
        match scan_string(s, i + 1) {
            None => None,
            Some((c, j)) => Some((seq![s[i]] + c, j)),
        }
    }
}

/// A scanned field sits between `i` and the reported end: the bytes consumed
/// are exactly the escaped content followed by the closing quote.
pub proof fn lemma_scan_consumed(s: Seq<u8>, i: int)
    requires
        scan_string(s, i) is Some,
    ensures
        ({
            let (c, j) = scan_string(s, i)->Some_0;
            &&& i >= 0
            &&& i + escape(c).len() + 1 == j <= s.len()
            &&& s.subrange(i, j) == escape(c) + seq![QUOTE]
        }),
    decreases s.len() - i,
{
    let (c, j) = scan_string(s, i)->Some_0;
    if s[i] == QUOTE {
        assert(s.subrange(i, i + 1) =~= escape(c) + seq![QUOTE]);
    } else if s[i] == BACKSLASH {
        lemma_scan_consumed(s, i + 2);
        let (c2, _) = scan_string(s, i + 2)->Some_0;
        assert(c == seq![s[i + 1]] + c2);
        assert(c[0] == s[i + 1]);
        assert(c.skip(1) =~= c2);
        assert(escape(c) == esc_byte(s[i + 1]) + escape(c2));
        assert(s.subrange(i, j) =~= escape(c) + seq![QUOTE]) by {
            assert(forall|k: int| 2 <= k < j - i
                ==> #[trigger] s.subrange(i, j)[k] == s.subrange(i + 2, j)[k - 2]);
        }
    } else {
        lemma_scan_consumed(s, i + 1);
        let (c2, _) = scan_string(s, i + 1)->Some_0;
        assert(c == seq![s[i]] + c2);
        assert(c[0] == s[i]);
        assert(c.skip(1) =~= c2);
        assert(escape(c) == esc_byte(s[i]) + escape(c2));
        assert(s.subrange(i, j) =~= escape(c) + seq![QUOTE]) by {
            assert(forall|k: int| 1 <= k < j - i
                ==> #[trigger] s.subrange(i, j)[k] == s.subrange(i + 1, j)[k - 1]);
        }
    }
}

/// Scanning an escaped field recovers it: if the bytes from `i` hold
/// `escape(c)`, a quote, and anything after, the scan returns `c` and stops
/// just past that quote.
pub proof fn lemma_scan_escape(s: Seq<u8>, i: int, c: Seq<u8>)
    requires
        0 <= i,
        i + escape(c).len() + 1 <= s.len(),
        s.subrange(i, i + escape(c).len()) == escape(c),
        s[i + escape(c).len()] == QUOTE,
    ensures
        scan_string(s, i) == Some((c, i + escape(c).len() + 1)),
    decreases c.len(),
{
    if c.len() == 0 {
        assert(s[i] == QUOTE);
    } else {
        let b = c[0];
        let rest = c.skip(1);
        assert(escape(c) == esc_byte(b) + escape(rest));
        let eb = esc_byte(b).len();
        assert(s.subrange(i + eb, i + escape(c).len()) =~= escape(rest)) by {
            assert(forall|k: int| 0 <= k < escape(rest).len()
                ==> #[trigger] s.subrange(i + eb, i + escape(c).len())[k]
                    == s.subrange(i, i + escape(c).len())[k + eb]);
        }
        lemma_scan_escape(s, i + eb, rest);
        if b == QUOTE || b == BACKSLASH {
            assert(s[i] == escape(c)[0] == BACKSLASH);
            assert(s[i + 1] == escape(c)[1] == b);
            assert(scan_string(s, i) == Some((seq![b] + rest, i + escape(c).len() + 1)));
            assert(seq![b] + rest =~= c);
        } else {
            assert(s[i] == escape(c)[0] == b);
            assert(s[i] != QUOTE && s[i] != BACKSLASH);
            assert(scan_string(s, i) == Some((seq![b] + rest, i + escape(c).len() + 1)));
            assert(seq![b] + rest =~= c);
        }
    }
}

/// Write the escaped form of `s` onto the end of `out`.
pub fn escape_into(out: &mut Vec<u8>, s: &[u8])
    ensures
        final(out)@ == old(out)@ + escape(s@),
{
    let mut i: usize = 0;
    while i < s.len()
        invariant
            i <= s.len(),
            out@ == old(out)@ + escape(s@.take(i as int)),
        decreases s.len() - i,
    {
        let b = s[i];
        proof {
            assert(s@.take(i + 1 as int) =~= s@.take(i as int) + seq![s@[i as int]]);
            lemma_escape_append(s@.take(i as int), seq![s@[i as int]]);
            assert(seq![s@[i as int]].skip(1) =~= Seq::<u8>::empty());
            assert(escape(Seq::<u8>::empty()) =~= Seq::<u8>::empty());
            assert(escape(seq![s@[i as int]]) =~= esc_byte(s@[i as int]));
        }
        if b == QUOTE || b == BACKSLASH {
            out.push(BACKSLASH);
            out.push(b);
            proof {
                assert(out@ =~= old(out)@ + escape(s@.take(i + 1 as int)));
            }
        } else {
            out.push(b);
            proof {
                assert(out@ =~= old(out)@ + escape(s@.take(i + 1 as int)));
            }
        }
        i = i + 1;
    }
    proof {
        assert(s@.take(s@.len() as int) =~= s@);
    }
}

/// Maps a scan outcome to the same outcome with `p` put before the content.
pub open spec fn scan_prepend(p: Seq<u8>, o: Option<(Seq<u8>, int)>) -> Option<(Seq<u8>, int)> {
    match o {
        None => None,
        Some((c, j)) => Some((p + c, j)),
    }
}

/// Scan a string field of `s` beginning at `i`, as `scan_string` describes.
pub fn scan_string_at(s: &[u8], i: usize) -> (r: Option<(Vec<u8>, usize)>)
    ensures
        match r {
            None => scan_string(s@, i as int) is None,
            Some((c, j)) => scan_string(s@, i as int) == Some((c@, j as int)),
        },
{
    let mut out: Vec<u8> = Vec::new();
    let mut j: usize = i;
    loop
        invariant
            i <= j,
            scan_string(s@, i as int) == scan_prepend(out@, scan_string(s@, j as int)),
        decreases s@.len() - j,
    {
        if j >= s.len() {
            return None;
        }
        let b = s[j];
        if b == QUOTE {
            assert(scan_string(s@, j as int) == Some((Seq::<u8>::empty(), j + 1 as int)));
            proof {
                assert(out@ + Seq::<u8>::empty() =~= out@);
            }
            return Some((out, j + 1));
        } else if b == BACKSLASH {
            if j + 1 < s.len() {
                let b2 = s[j + 1];
                if b2 == QUOTE || b2 == BACKSLASH {
                    out.push(b2);
                    proof {
                        let tail = scan_string(s@, j + 2 as int);
                        match tail {
                            None => {}
                            Some((c, k)) => {
                                assert((out@.drop_last() + (seq![b2] + c))
                                    =~= (out@ + c));
                            }
                        }
                    }
                    j = j + 2;
                } else {
                    return None;
                }
            } else {
                return None;
            }
        } else {
            out.push(b);
            proof {
                let tail = scan_string(s@, j + 1 as int);
                match tail {
                    None => {}
                    Some((c, k)) => {
                        assert((out@.drop_last() + (seq![b] + c)) =~= (out@ + c));
                    }
                }
            }
            j = j + 1;
        }
    }
}

} // verus!
