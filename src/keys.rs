//! Byte-string keys: common prefixes and the byte-lexicographic order in
//! which the store delivers them.
use vstd::prelude::*;

verus! {

/// Length of the longest common leading run of `a` and `b`.
pub open spec fn lcp(a: Seq<u8>, b: Seq<u8>) -> nat
    decreases a.len(),
{
    if a.len() == 0 || b.len() == 0 || a[0] != b[0] {
        0
    } else {
        1 + lcp(a.drop_first(), b.drop_first())
    }
}

/// `k` begins with the bytes of `p`.
pub open spec fn has_prefix(k: Seq<u8>, p: Seq<u8>) -> bool {
    &&& p.len() <= k.len()
    &&& forall|j: int| 0 <= j < p.len() ==> #[trigger] k[j] == p[j]
}

/// Strict byte-lexicographic order: `a` is a proper prefix of `b`, or the
/// first byte where they differ is smaller in `a`.
pub open spec fn lex_lt(a: Seq<u8>, b: Seq<u8>) -> bool {
    let n = lcp(a, b);
    ||| (n == a.len() && n < b.len())
    ||| (n < a.len() && n < b.len() && a[n as int] < b[n as int])
}

/// Every earlier key is strictly below every later one.
pub open spec fn strictly_sorted(ks: Seq<Seq<u8>>) -> bool {
    forall|i: int, j: int| 0 <= i < j < ks.len() ==> lex_lt(#[trigger] ks[i], #[trigger] ks[j])
}

/// Views of a sequence of byte vectors.
pub open spec fn views(ks: Seq<Vec<u8>>) -> Seq<Seq<u8>> {
    ks.map_values(|k: Vec<u8>| k@)
}

/// Number of leading keys of `ks` that begin with `p`.
pub open spec fn prefix_run(ks: Seq<Seq<u8>>, p: Seq<u8>) -> nat
    decreases ks.len(),
{
    if ks.len() == 0 || !has_prefix(ks[0], p) {
        0
    } else {
        1 + prefix_run(ks.drop_first(), p)
    }
}

/// The run of prefixed keys ends at the first key without the prefix.
pub proof fn lemma_prefix_run_unique(ks: Seq<Seq<u8>>, p: Seq<u8>, n: nat)
    requires
        n <= ks.len(),
        forall|i: int| 0 <= i < n ==> has_prefix(#[trigger] ks[i], p),
        n < ks.len() ==> !has_prefix(ks[n as int], p),
    ensures
        prefix_run(ks, p) == n,
    decreases ks.len(),
{
    if n > 0 {
        let t = ks.drop_first();
        assert forall|i: int| 0 <= i < n - 1 implies has_prefix(#[trigger] t[i], p) by {
            assert(t[i] == ks[i + 1]);
        }
        if n < ks.len() {
            assert(t[n - 1] == ks[n as int]);
        }
        lemma_prefix_run_unique(t, p, (n - 1) as nat);
        assert(has_prefix(ks[0], p));
    }
}

/// Two keys that begin with `p` share at least `p`.
pub proof fn lemma_lcp_covers_prefix(a: Seq<u8>, b: Seq<u8>, p: Seq<u8>)
    requires
        has_prefix(a, p),
        has_prefix(b, p),
    ensures
        lcp(a, b) >= p.len(),
{
    lemma_lcp(a, b);
    let m = lcp(a, b);
    if m < p.len() {
        assert(a[m as int] == p[m as int] && b[m as int] == p[m as int]);
    }
}

/// A fresh vector holding the bytes of `b`.
pub fn copy_bytes(b: &[u8]) -> (r: Vec<u8>)
    ensures
        r@ == b@,
{
    let mut r: Vec<u8> = Vec::new();
    let mut i: usize = 0;
    while i < b.len()
        invariant
            i <= b@.len(),
            r@ == b@.subrange(0, i as int),
        decreases b@.len() - i,
    {
        r.push(b[i]);
        i = i + 1;
        assert(r@ =~= b@.subrange(0, i as int));
    }
    assert(r@ =~= b@);
    r
}

/// The bytes of `b` from index `from` on.
pub fn suffix(b: &[u8], from: usize) -> (r: Vec<u8>)
    requires
        from <= b@.len(),
    ensures
        r@ == b@.subrange(from as int, b@.len() as int),
{
    let mut r: Vec<u8> = Vec::new();
    let mut i: usize = from;
    while i < b.len()
        invariant
            from <= i <= b@.len(),
            r@ == b@.subrange(from as int, i as int),
        decreases b@.len() - i,
    {
        r.push(b[i]);
        i = i + 1;
        assert(r@ =~= b@.subrange(from as int, i as int));
    }
    r
}

pub proof fn lemma_lcp(a: Seq<u8>, b: Seq<u8>)
    ensures
        lcp(a, b) <= a.len(),
        lcp(a, b) <= b.len(),
        forall|j: int| 0 <= j < lcp(a, b) ==> #[trigger] a[j] == b[j],
        lcp(a, b) < a.len() && lcp(a, b) < b.len() ==> a[lcp(a, b) as int] != b[lcp(
            a,
            b,
        ) as int],
    decreases a.len(),
{
    if a.len() == 0 || b.len() == 0 || a[0] != b[0] {
    } else {
        let (a1, b1) = (a.drop_first(), b.drop_first());
        lemma_lcp(a1, b1);
        assert forall|j: int| 0 <= j < lcp(a, b) implies #[trigger] a[j] == b[j] by {
            if j > 0 {
                assert(a[j] == a1[j - 1] && b[j] == b1[j - 1]);
            }
        }
        if lcp(a, b) < a.len() && lcp(a, b) < b.len() {
            assert(a[lcp(a, b) as int] == a1[lcp(a1, b1) as int]);
            assert(b[lcp(a, b) as int] == b1[lcp(a1, b1) as int]);
        }
    }
}

/// The common prefix length is the first index where the keys differ or one ends.
pub proof fn lemma_lcp_unique(a: Seq<u8>, b: Seq<u8>, n: nat)
    requires
        n <= a.len(),
        n <= b.len(),
        forall|j: int| 0 <= j < n ==> #[trigger] a[j] == b[j],
        n == a.len() || n == b.len() || a[n as int] != b[n as int],
    ensures
        lcp(a, b) == n,
{
    lemma_lcp(a, b);
    let m = lcp(a, b);
    if m < n {
        assert(a[m as int] == b[m as int]);
    } else if m > n {
        assert(a[n as int] == b[n as int]);
    }
}

pub proof fn lemma_lcp_symmetric(a: Seq<u8>, b: Seq<u8>)
    ensures
        lcp(a, b) == lcp(b, a),
{
    lemma_lcp(a, b);
    lemma_lcp_unique(b, a, lcp(a, b));
}

/// The strict order is asymmetric.
pub proof fn lemma_lex_lt_asymmetric(a: Seq<u8>, b: Seq<u8>)
    ensures
        !(lex_lt(a, b) && lex_lt(b, a)),
{
    lemma_lcp_symmetric(a, b);
}

/// Longest common leading run of two byte strings.
pub fn common_prefix_len(a: &[u8], b: &[u8]) -> (r: usize)
    ensures
        r == lcp(a@, b@),
{
    let mut i: usize = 0;
    while i < a.len() && i < b.len() && a[i] == b[i]
        invariant
            i <= a@.len(),
            i <= b@.len(),
            forall|j: int| 0 <= j < i ==> #[trigger] a@[j] == b@[j],
        decreases a@.len() - i,
    {
        i = i + 1;
    }
    proof {
        lemma_lcp_unique(a@, b@, i as nat);
    }
    i
}

/// Whether `key` begins with `prefix`.
pub fn key_has_prefix(key: &[u8], prefix: &[u8]) -> (r: bool)
    ensures
        r == has_prefix(key@, prefix@),
{
    if prefix.len() > key.len() {
        return false;
    }
    let mut i: usize = 0;
    while i < prefix.len()
        invariant
            prefix@.len() <= key@.len(),
            i <= prefix@.len(),
            forall|j: int| 0 <= j < i ==> #[trigger] key@[j] == prefix@[j],
        decreases prefix@.len() - i,
    {
        if key[i] != prefix[i] {
            return false;
        }
        i = i + 1;
    }
    true
}

} // verus!
