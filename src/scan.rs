//! Rows and prefix scans over the store's ascending key order.
use vstd::prelude::*;
use crate::keys::{
    has_prefix, key_has_prefix, lcp, lemma_lcp, lemma_lcp_unique, lex_lt, prefix_run,
    strictly_sorted,
};

verus! {

/// One stored entry: a key and its value, both opaque bytes.
#[derive(Clone)]
pub struct Row {
    pub key: Vec<u8>,
    pub value: Vec<u8>,
}

impl Row {
    pub fn new(key: Vec<u8>, value: Vec<u8>) -> (r: Row)
        ensures
            r.key@ == key@,
            r.value@ == value@,
    {
        Row { key, value }
    }

    pub fn into_pair(self) -> (r: (Vec<u8>, Vec<u8>))
        ensures
            r.0@ == self.key@,
            r.1@ == self.value@,
    {
        (self.key, self.value)
    }
}

/// The keys of a sequence of rows.
pub open spec fn row_keys(rows: Seq<Row>) -> Seq<Seq<u8>> {
    rows.map_values(|r: Row| r.key@)
}

pub proof fn lemma_prefix_run(ks: Seq<Seq<u8>>, p: Seq<u8>)
    ensures
        prefix_run(ks, p) <= ks.len(),
        forall|i: int| 0 <= i < prefix_run(ks, p) ==> has_prefix(#[trigger] ks[i], p),
        prefix_run(ks, p) < ks.len() ==> !has_prefix(ks[prefix_run(ks, p) as int], p),
    decreases ks.len(),
{
    if ks.len() > 0 && has_prefix(ks[0], p) {
        let t = ks.drop_first();
        lemma_prefix_run(t, p);
        assert forall|i: int| 0 <= i < prefix_run(ks, p) implies has_prefix(#[trigger] ks[i], p) by {
            if i > 0 {
                assert(ks[i] == t[i - 1]);
            }
        }
        if prefix_run(ks, p) < ks.len() {
            assert(ks[prefix_run(ks, p) as int] == t[prefix_run(t, p) as int]);
        }
    }
}

/// A key that carries the prefix is not below it.
pub proof fn lemma_prefixed_not_below(k: Seq<u8>, p: Seq<u8>)
    requires
        has_prefix(k, p),
    ensures
        !lex_lt(k, p),
{
    lemma_lcp_unique(k, p, p.len());
}

/// Once a key at or above `p` lacks the prefix, no greater key has it.
pub proof fn lemma_past_prefix(k0: Seq<u8>, k: Seq<u8>, p: Seq<u8>)
    requires
        !lex_lt(k0, p),
        !has_prefix(k0, p),
        lex_lt(k0, k),
    ensures
        !has_prefix(k, p),
{
    lemma_lcp(k0, p);
    let m = lcp(k0, p);
    if m == p.len() {
        assert(has_prefix(k0, p));
    }
    if has_prefix(k, p) {
        assert(k[m as int] == p[m as int]);
        assert forall|j: int| 0 <= j < m implies #[trigger] k0[j] == k[j] by {
            assert(k[j] == p[j]);
        }
        lemma_lcp_unique(k0, k, m);
    }
}

/// Scanning from the first key not below `p` and stopping at the first key
/// without it yields exactly the stored keys that begin with `p`, in
/// ascending order.
pub proof fn lemma_prefix_scan_exact(keys: Seq<Seq<u8>>, p: Seq<u8>, start: int)
    requires
        strictly_sorted(keys),
        0 <= start <= keys.len(),
        forall|i: int| 0 <= i < start ==> lex_lt(#[trigger] keys[i], p),
        forall|i: int| start <= i < keys.len() ==> !lex_lt(#[trigger] keys[i], p),
    ensures
        ({
            let n = prefix_run(keys.subrange(start, keys.len() as int), p);
            &&& start + n <= keys.len()
            &&& forall|i: int|
                0 <= i < keys.len() ==> (has_prefix(#[trigger] keys[i], p) <==> start <= i
                    < start + n)
        }),
{
    let t = keys.subrange(start, keys.len() as int);
    let n = prefix_run(t, p);
    lemma_prefix_run(t, p);
    assert forall|i: int|
        0 <= i < keys.len() implies (has_prefix(#[trigger] keys[i], p) <==> start <= i < start
        + n) by {
        if i < start {
            if has_prefix(keys[i], p) {
                lemma_prefixed_not_below(keys[i], p);
            }
        } else if i < start + n {
            assert(keys[i] == t[i - start]);
        } else {
            let k0 = keys[start + n];
            assert(k0 == t[n as int]);
            if i > start + n {
                assert(lex_lt(keys[start + n], keys[i]));
                lemma_past_prefix(k0, keys[i], p);
            }
        }
    }
}

/// Rows read from a cursor placed at `prefix`, cut at the first row whose
/// key does not begin with `prefix`.
pub fn scan_rows(prefix: &[u8], entries: Vec<Row>) -> (r: Vec<Row>)
    ensures
        r@ == entries@.take(prefix_run(row_keys(entries@), prefix@) as int),
{
    let ghost ks = row_keys(entries@);
    let ghost orig = entries@;
    let mut entries = entries;
    let mut n: usize = 0;
    while n < entries.len() && key_has_prefix(entries[n].key.as_slice(), prefix)
        invariant
            ks == row_keys(entries@),
            n <= entries@.len(),
            forall|i: int| 0 <= i < n ==> has_prefix(#[trigger] ks[i], prefix@),
        decreases entries@.len() - n,
    {
        assert(ks[n as int] == entries@[n as int].key@);
        n = n + 1;
    }
    proof {
        if n < entries@.len() {
            assert(ks[n as int] == entries@[n as int].key@);
        }
        crate::keys::lemma_prefix_run_unique(ks, prefix@, n as nat);
    }
    entries.truncate(n);
    assert(entries@ =~= orig.take(n as int));
    entries
}

} // verus!
