//! Small verified tables on vectors: an id set and an id-keyed association
//! list, enough for the in-flight call table and the timeout-hint table.

use vstd::prelude::*;

verus! {

/// `s` without every occurrence of `x`.
pub open spec fn seq_remove_all(s: Seq<u64>, x: u64) -> Seq<u64>
    decreases s.len(),
{
    if s.len() == 0 {
        Seq::empty()
    } else if s[0] == x {
        seq_remove_all(s.skip(1), x)
    } else {
        seq![s[0]] + seq_remove_all(s.skip(1), x)
    }
}

/// Removal removes exactly the occurrences of `x`.
pub proof fn lemma_seq_remove_all(s: Seq<u64>, x: u64)
    ensures
        !seq_remove_all(s, x).contains(x),
        forall|y: u64| y != x ==> (seq_remove_all(s, x).contains(y) <==> s.contains(y)),
        seq_remove_all(s, x).len() <= s.len(),
        !s.contains(x) ==> seq_remove_all(s, x) == s,
    decreases s.len(),
{
    if s.len() > 0 {
        lemma_seq_remove_all(s.skip(1), x);
        let r = seq_remove_all(s, x);
        let r1 = seq_remove_all(s.skip(1), x);
        assert forall|y: u64| s.skip(1).contains(y) implies s.contains(y) by {
            let i = choose|i: int| 0 <= i < s.skip(1).len() && s.skip(1)[i] == y;
            assert(s[i + 1] == y);
        }
        assert forall|y: u64| y != x && s.contains(y) implies s.skip(1).contains(y)
            || s[0] == y by {
            let i = choose|i: int| 0 <= i < s.len() && s[i] == y;
            if i > 0 {
                assert(s.skip(1)[i - 1] == y);
            }
        }
        if s[0] == x {
            assert(r == r1);
        } else {
            assert(r == seq![s[0]] + r1);
            assert(r[0] == s[0]);
            assert forall|y: u64| r.contains(y) implies y == s[0] || r1.contains(y) by {
                let i = choose|i: int| 0 <= i < r.len() && r[i] == y;
                if i > 0 {
                    assert(r1[i - 1] == y);
                }
            }
            assert forall|y: u64| r1.contains(y) implies r.contains(y) by {
                let i = choose|i: int| 0 <= i < r1.len() && r1[i] == y;
                assert(r[i + 1] == y);
            }
            assert(s.contains(s[0]));
            if !s.contains(x) {
                assert(r =~= s) by {
                    assert(s.skip(1) =~= s.subrange(1, s.len() as int));
                }
            }
        }
    }
}

/// Removal distributes over concatenation.
pub proof fn lemma_seq_remove_all_append(a: Seq<u64>, b: Seq<u64>, x: u64)
    ensures
        seq_remove_all(a + b, x) == seq_remove_all(a, x) + seq_remove_all(b, x),
    decreases a.len(),
{
    if a.len() == 0 {
        assert(a + b =~= b);
        assert(seq_remove_all(a, x) + seq_remove_all(b, x) =~= seq_remove_all(b, x));
    } else {
        assert((a + b).skip(1) =~= a.skip(1) + b);
        lemma_seq_remove_all_append(a.skip(1), b, x);
        if a[0] == x {
            assert((a + b)[0] == x);
        } else {
            assert(seq![a[0]] + (seq_remove_all(a.skip(1), x) + seq_remove_all(b, x))
                =~= (seq![a[0]] + seq_remove_all(a.skip(1), x)) + seq_remove_all(b, x));
        }
    }
}

/// Does the vector contain `x`?
pub fn vec_contains(v: &Vec<u64>, x: u64) -> (r: bool)
    ensures
        r <==> v@.contains(x),
{
    let mut i: usize = 0;
    while i < v.len()
        invariant
            i <= v@.len(),
            forall|k: int| 0 <= k < i ==> v@[k] != x,
        decreases v@.len() - i,
    {
        if v[i] == x {
            return true;
        }
        i = i + 1;
    }
    false
}

/// Remove every occurrence of `x`.
pub fn vec_remove_all(v: &Vec<u64>, x: u64) -> (r: Vec<u64>)
    ensures
        r@ == seq_remove_all(v@, x),
{
    let mut out: Vec<u64> = Vec::new();
    let mut i: usize = 0;
    while i < v.len()
        invariant
            i <= v@.len(),
            out@ == seq_remove_all(v@.take(i as int), x),
        decreases v@.len() - i,
    {
        proof {
            assert(v@.take(i + 1 as int) =~= v@.take(i as int) + seq![v@[i as int]]);
            lemma_seq_remove_all_append(v@.take(i as int), seq![v@[i as int]], x);
            assert(seq![v@[i as int]].skip(1) =~= Seq::<u64>::empty());
            assert(seq_remove_all(Seq::<u64>::empty(), x) =~= Seq::<u64>::empty());
        }
        if v[i] != x {
            out.push(v[i]);
            proof {
                assert(seq_remove_all(seq![v@[i as int]], x) =~= seq![v@[i as int]]);
                assert(out@ =~= seq_remove_all(v@.take(i + 1 as int), x));
            }
        } else {
            proof {
                assert(out@ + seq_remove_all(seq![v@[i as int]], x) =~= out@);
            }
        }
        i = i + 1;
    }
    proof {
        assert(v@.take(v@.len() as int) =~= v@);
    }
    out
}

/// The value under `k`, taking the first pair that matches.
pub open spec fn assoc_get(m: Seq<(u64, u64)>, k: u64) -> Option<u64>
    decreases m.len(),
{
    if m.len() == 0 {
        None
    } else if m[0].0 == k {
        Some(m[0].1)
    } else {
        assoc_get(m.skip(1), k)
    }
}

/// `m` without every pair keyed `k`.
pub open spec fn assoc_remove(m: Seq<(u64, u64)>, k: u64) -> Seq<(u64, u64)>
    decreases m.len(),
{
    if m.len() == 0 {
        Seq::empty()
    } else if m[0].0 == k {
        assoc_remove(m.skip(1), k)
    } else {
        seq![m[0]] + assoc_remove(m.skip(1), k)
    }
}

/// Look the value under `k` up.
pub fn vec_assoc_get(m: &Vec<(u64, u64)>, k: u64) -> (r: Option<u64>)
    ensures
        r == assoc_get(m@, k),
{
    let mut i: usize = 0;
    proof {
        assert(m@.skip(0) =~= m@);
    }
    loop
        invariant
            i <= m@.len(),
            assoc_get(m@, k) == assoc_get(m@.skip(i as int), k),
        decreases m@.len() - i,
    {
        if i >= m.len() {
            proof {
                assert(m@.skip(i as int) =~= Seq::<(u64, u64)>::empty());
            }
            return None;
        }
        proof {
            assert(m@.skip(i as int)[0] == m@[i as int]);
            assert(m@.skip(i as int).skip(1) =~= m@.skip(i + 1 as int));
        }
        if m[i].0 == k {
            return Some(m[i].1);
        }
        i = i + 1;
    }
}

/// Removal of a key distributes over concatenation.
pub proof fn lemma_assoc_remove_append(a: Seq<(u64, u64)>, b: Seq<(u64, u64)>, k: u64)
    ensures
        assoc_remove(a + b, k) == assoc_remove(a, k) + assoc_remove(b, k),
    decreases a.len(),
{
    if a.len() == 0 {
        assert(a + b =~= b);
        assert(assoc_remove(a, k) + assoc_remove(b, k) =~= assoc_remove(b, k));
    } else {
        assert((a + b).skip(1) =~= a.skip(1) + b);
        lemma_assoc_remove_append(a.skip(1), b, k);
        if a[0].0 == k {
            assert((a + b)[0] == a[0]);
        } else {
            assert(seq![a[0]] + (assoc_remove(a.skip(1), k) + assoc_remove(b, k))
                =~= (seq![a[0]] + assoc_remove(a.skip(1), k)) + assoc_remove(b, k));
        }
    }
}

/// Remove every pair keyed `k`.
pub fn vec_assoc_remove(m: &Vec<(u64, u64)>, k: u64) -> (r: Vec<(u64, u64)>)
    ensures
        r@ == assoc_remove(m@, k),
{
    let mut out: Vec<(u64, u64)> = Vec::new();
    let mut i: usize = 0;
    while i < m.len()
        invariant
            i <= m@.len(),
            out@ == assoc_remove(m@.take(i as int), k),
        decreases m@.len() - i,
    {
        proof {
            assert(m@.take(i + 1 as int) =~= m@.take(i as int) + seq![m@[i as int]]);
            lemma_assoc_remove_append(m@.take(i as int), seq![m@[i as int]], k);
            assert(seq![m@[i as int]].skip(1) =~= Seq::<(u64, u64)>::empty());
            assert(assoc_remove(Seq::<(u64, u64)>::empty(), k) =~= Seq::<(u64, u64)>::empty());
        }
        if m[i].0 != k {
            out.push(m[i]);
            proof {
                assert(assoc_remove(seq![m@[i as int]], k) =~= seq![m@[i as int]]);
                assert(out@ =~= assoc_remove(m@.take(i + 1 as int), k));
            }
        } else {
            proof {
                assert(out@ + assoc_remove(seq![m@[i as int]], k) =~= out@);
            }
        }
        i = i + 1;
    }
    proof {
        assert(m@.take(m@.len() as int) =~= m@);
    }
    out
}


/// Removing from a duplicate-free table keeps it duplicate-free, and
/// leaves only elements the table had.
pub proof fn lemma_remove_all_no_dup(s: Seq<u64>, x: u64)
    requires
        s.no_duplicates(),
    ensures
        seq_remove_all(s, x).no_duplicates(),
        forall|y: u64| #[trigger] seq_remove_all(s, x).contains(y) ==> s.contains(y),
    decreases s.len(),
{
    lemma_seq_remove_all(s, x);
    if s.len() > 0 {
        assert(s.skip(1).no_duplicates());
        lemma_remove_all_no_dup(s.skip(1), x);
        let r = seq_remove_all(s, x);
        let r1 = seq_remove_all(s.skip(1), x);
        lemma_seq_remove_all(s.skip(1), x);
        assert forall|y: u64| s.skip(1).contains(y) implies s.contains(y) by {
            let k = choose|k: int| 0 <= k < s.skip(1).len() && s.skip(1)[k] == y;
            assert(s[k + 1] == y);
        }
        if s[0] != x {
            assert(r == seq![s[0]] + r1);
            assert(!s.skip(1).contains(s[0])) by {
                if s.skip(1).contains(s[0]) {
                    let k = choose|k: int| 0 <= k < s.skip(1).len() && s.skip(1)[k] == s[0];
                    assert(s[k + 1] == s[0]);
                }
            }
            assert(!r1.contains(s[0]));
            assert(r.no_duplicates()) by {
                assert forall|i: int, j: int| 0 <= i < j < r.len() implies r[i] != r[j] by {
                    if i == 0 {
                        assert(r1[j - 1] == r[j]);
                        assert(r1.contains(r[j]));
                    } else {
                        assert(r1[i - 1] != r1[j - 1]);
                    }
                }
            }
            assert forall|y: u64| r.contains(y) implies s.contains(y) by {
                let k = choose|k: int| 0 <= k < r.len() && r[k] == y;
                if k == 0 {
                    assert(s.contains(s[0]));
                } else {
                    assert(r1[k - 1] == y);
                    assert(r1.contains(y));
                }
            }
        }
    }
}

} // verus!
