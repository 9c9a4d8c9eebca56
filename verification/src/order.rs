//! Ordering of fuses: a lexicographic order on text, composite sort keys,
//! and a stable sort that yields the order as a permutation of indices.

use crate::text::chars_of;
use vstd::prelude::*;

verus! {

/// `a` sorts strictly before `b` when compared character by character by
/// code point, a proper prefix first (`str`'s `Ord`).
pub open spec fn lex_lt(a: Seq<char>, b: Seq<char>) -> bool
    decreases a.len(),
{
    if a.len() == 0 {
        b.len() > 0
    } else if b.len() == 0 {
        false
    } else if a[0] < b[0] {
        true
    } else if a[0] > b[0] {
        false
    } else {
        lex_lt(a.drop_first(), b.drop_first())
    }
}

pub proof fn lemma_lex_irreflexive(a: Seq<char>)
    ensures
        !lex_lt(a, a),
    decreases a.len(),
{
    if a.len() > 0 {
        lemma_lex_irreflexive(a.drop_first());
    }
}

pub proof fn lemma_lex_transitive(a: Seq<char>, b: Seq<char>, c: Seq<char>)
    requires
        lex_lt(a, b),
        lex_lt(b, c),
    ensures
        lex_lt(a, c),
    decreases a.len(),
{
    if a.len() > 0 && b.len() > 0 && c.len() > 0 {
        if a[0] == b[0] && b[0] == c[0] {
            lemma_lex_transitive(a.drop_first(), b.drop_first(), c.drop_first());
        }
    }
}

pub proof fn lemma_lex_total(a: Seq<char>, b: Seq<char>)
    ensures
        lex_lt(a, b) || lex_lt(b, a) || a == b,
    decreases a.len(),
{
    if a.len() > 0 && b.len() > 0 && a[0] == b[0] {
        lemma_lex_total(a.drop_first(), b.drop_first());
        if a.drop_first() == b.drop_first() {
            assert(a =~= seq![a[0]] + a.drop_first());
            assert(b =~= seq![b[0]] + b.drop_first());
        }
    } else if a.len() == 0 && b.len() == 0 {
        assert(a =~= b);
    }
}

/// Whether `a` sorts strictly before `b`.
pub fn text_less(a: &str, b: &str) -> (r: bool)
    ensures
        r == lex_lt(a@, b@),
{
    let av = chars_of(a);
    let bv = chars_of(b);
    let mut i: usize = 0;
    assert(a@.skip(0) =~= a@ && b@.skip(0) =~= b@);
    while i < av.len() && i < bv.len() && av[i] == bv[i]
        invariant
            i <= av.len(),
            i <= bv.len(),
            av@ == a@,
            bv@ == b@,
            lex_lt(a@, b@) == lex_lt(a@.skip(i as int), b@.skip(i as int)),
        decreases av.len() - i,
    {
        proof {
            let x = a@.skip(i as int);
            let y = b@.skip(i as int);
            assert(x.drop_first() =~= a@.skip(i + 1));
            assert(y.drop_first() =~= b@.skip(i + 1));
        }
        i = i + 1;
    }
    if i == av.len() {
        i < bv.len()
    } else if i == bv.len() {
        false
    } else {
        proof {
            assert(a@.skip(i as int)[0] == av@[i as int]);
            assert(b@.skip(i as int)[0] == bv@[i as int]);
        }
        av[i] < bv[i]
    }
}

/// A sort key: two numbers, a text, then two more numbers, compared in
/// that order.
#[derive(Debug)]
pub struct SortKey {
    pub first: u64,
    pub second: u64,
    pub text: String,
    pub third: u64,
    pub fourth: i64,
}

/// `a` sorts strictly before `b`.
pub open spec fn key_lt(a: SortKey, b: SortKey) -> bool {
    ||| a.first < b.first
    ||| a.first == b.first && a.second < b.second
    ||| a.first == b.first && a.second == b.second && lex_lt(a.text@, b.text@)
    ||| a.first == b.first && a.second == b.second && a.text@ == b.text@ && a.third < b.third
    ||| a.first == b.first && a.second == b.second && a.text@ == b.text@ && a.third == b.third
        && a.fourth < b.fourth
}

/// `a` and `b` sort alike.
pub open spec fn key_eq(a: SortKey, b: SortKey) -> bool {
    a.first == b.first && a.second == b.second && a.text@ == b.text@ && a.third == b.third
        && a.fourth == b.fourth
}

pub proof fn lemma_key_order(a: SortKey, b: SortKey, c: SortKey)
    ensures
        !key_lt(a, a),
        key_lt(a, b) && key_lt(b, c) ==> key_lt(a, c),
        key_lt(a, b) || key_lt(b, a) || key_eq(a, b),
        key_eq(a, b) ==> !key_lt(a, b) && !key_lt(b, a),
        !key_lt(a, b) && !key_lt(b, c) ==> !key_lt(a, c),
{
    lemma_lex_irreflexive(a.text@);
    lemma_lex_irreflexive(b.text@);
    lemma_lex_total(a.text@, b.text@);
    lemma_lex_total(b.text@, c.text@);
    lemma_lex_total(a.text@, c.text@);
    if lex_lt(a.text@, b.text@) && lex_lt(b.text@, c.text@) {
        lemma_lex_transitive(a.text@, b.text@, c.text@);
    }
    if lex_lt(c.text@, b.text@) && lex_lt(b.text@, a.text@) {
        lemma_lex_transitive(c.text@, b.text@, a.text@);
    }
    if lex_lt(a.text@, b.text@) && lex_lt(b.text@, a.text@) {
        lemma_lex_transitive(a.text@, b.text@, a.text@);
    }
    if lex_lt(b.text@, c.text@) && lex_lt(c.text@, b.text@) {
        lemma_lex_transitive(b.text@, c.text@, b.text@);
    }
    if lex_lt(a.text@, c.text@) && lex_lt(c.text@, a.text@) {
        lemma_lex_transitive(a.text@, c.text@, a.text@);
    }
}

/// Whether `a` sorts strictly before `b`.
pub fn key_less(a: &SortKey, b: &SortKey) -> (r: bool)
    ensures
        r == key_lt(*a, *b),
{
    if a.first != b.first {
        return a.first < b.first;
    }
    if a.second != b.second {
        return a.second < b.second;
    }
    if text_less(a.text.as_str(), b.text.as_str()) {
        return true;
    }
    if text_less(b.text.as_str(), a.text.as_str()) {
        proof {
            lemma_key_order(*a, *b, *b);
        }
        return false;
    }
    proof {
        lemma_lex_total(a.text@, b.text@);
    }
    if a.third != b.third {
        return a.third < b.third;
    }
    a.fourth < b.fourth
}

/// `p` lists each of `0..n` exactly once.
pub open spec fn is_permutation(p: Seq<usize>, n: nat) -> bool {
    &&& p.len() == n
    &&& forall|i: int| 0 <= i < p.len() ==> p[i] < n
    &&& forall|i: int, j: int| 0 <= i < j < p.len() ==> p[i] != p[j]
}

/// `p` puts `keys` in order, keeping the original order of equal keys.
pub open spec fn stably_sorted(keys: Seq<SortKey>, p: Seq<usize>) -> bool {
    forall|i: int, j: int|
        0 <= i < j < p.len() ==> !key_lt(keys[p[j] as int], keys[p[i] as int]) && (key_eq(
            keys[p[i] as int],
            keys[p[j] as int],
        ) ==> p[i] < p[j])
}

/// The order in which `keys` sort, stably: a permutation of their indices.
pub fn stable_order(keys: &Vec<SortKey>) -> (r: Vec<usize>)
    ensures
        is_permutation(r@, keys@.len()),
        stably_sorted(keys@, r@),
{
    let mut r: Vec<usize> = Vec::new();
    let mut k: usize = 0;
    while k < keys.len()
        invariant
            k <= keys.len(),
            r@.len() == k,
            forall|i: int| 0 <= i < r@.len() ==> r@[i] < k,
            forall|i: int, j: int| 0 <= i < j < r@.len() ==> r@[i] != r@[j],
            stably_sorted(keys@, r@),
        decreases keys.len() - k,
    {
        let mut p: usize = r.len();
        while p > 0 && key_less(&keys[k], &keys[r[p - 1]])
            invariant
                p <= r@.len(),
                k < keys.len(),
                forall|i: int| 0 <= i < r@.len() ==> r@[i] < k,
                forall|q: int| p <= q < r@.len() ==> key_lt(keys@[k as int], keys@[r@[q] as int]),
            decreases p,
        {
            p = p - 1;
        }
        let ghost old_r = r@;
        r.insert(p, k);
        proof {
            assert forall|i: int| 0 <= i < r@.len() implies r@[i] < k + 1 by {
                if i < p {
                    assert(r@[i] == old_r[i]);
                } else if i > p {
                    assert(r@[i] == old_r[i - 1]);
                }
            }
            assert forall|i: int, j: int| 0 <= i < j < r@.len() implies r@[i] != r@[j] by {
                if i < p && j > p {
                    assert(r@[i] == old_r[i] && r@[j] == old_r[j - 1]);
                } else if i > p {
                    assert(r@[i] == old_r[i - 1] && r@[j] == old_r[j - 1]);
                } else if j < p {
                    assert(r@[i] == old_r[i] && r@[j] == old_r[j]);
                } else if i == p {
                    assert(r@[j] == old_r[j - 1]);
                } else {
                    assert(r@[i] == old_r[i]);
                }
            }
            assert forall|i: int, j: int| 0 <= i < j < r@.len() implies !key_lt(
                keys@[r@[j] as int],
                keys@[r@[i] as int],
            ) && (key_eq(keys@[r@[i] as int], keys@[r@[j] as int]) ==> r@[i] < r@[j]) by {
                let x = keys@[k as int];
                if j < p {
                    assert(r@[i] == old_r[i] && r@[j] == old_r[j]);
                } else if i > p {
                    assert(r@[i] == old_r[i - 1] && r@[j] == old_r[j - 1]);
                } else if j == p {
                    assert(r@[i] == old_r[i]);
                    let y = keys@[old_r[p - 1] as int];
                    let z = keys@[old_r[i] as int];
                    assert(!key_lt(x, y));
                    if i < p - 1 {
                        assert(!key_lt(y, z));
                    }
                    lemma_key_order(x, y, z);
                    lemma_key_order(x, z, y);
                } else if i == p {
                    assert(r@[j] == old_r[j - 1]);
                    let y = keys@[old_r[j - 1] as int];
                    assert(key_lt(x, y));
                    lemma_key_order(x, y, x);
                } else {
                    assert(r@[i] == old_r[i] && r@[j] == old_r[j - 1]);
                    let y = keys@[old_r[p as int] as int];
                    let z = keys@[old_r[i] as int];
                    let w = keys@[old_r[j - 1] as int];
                    assert(!key_lt(w, z));
                }
            }
        }
        k = k + 1;
    }
    r
}

/// A permutation of `0..n` lists every index below `n`.
pub proof fn lemma_permutation_covers(p: Seq<usize>, n: nat, k: int)
    requires
        is_permutation(p, n),
        0 <= k < n,
    ensures
        exists|a: int| 0 <= a < p.len() && p[a] == k,
{
    let q = p.map_values(|x: usize| x as int);
    assert(q.no_duplicates()) by {
        assert forall|i: int, j: int| 0 <= i < q.len() && 0 <= j < q.len() && i != j implies q[i] != q[j] by {
            if i < j {
                assert(p[i] != p[j]);
            } else {
                assert(p[j] != p[i]);
            }
        }
    }
    q.unique_seq_to_set();
    vstd::set_lib::lemma_int_range(0, n as int);
    let s = q.to_set();
    let r = vstd::set_lib::set_int_range(0, n as int);
    assert(s.subset_of(r)) by {
        assert forall|x: int| s.contains(x) implies r.contains(x) by {
            let i = choose|i: int| 0 <= i < q.len() && q[i] == x;
            assert(p[i] < n);
        }
    }
    vstd::seq_lib::seq_to_set_is_finite(q);
    vstd::set_lib::lemma_subset_equality(s, r);
    assert(r.contains(k));
    assert(s.contains(k));
    let i = choose|i: int| 0 <= i < q.len() && q[i] == k;
    assert(p[i] == k);
}

} // verus!
