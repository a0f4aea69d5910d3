//! Diagnostic for truncated keys: the longest common run of bytes, after a
//! fixed tag, between any two stored keys that carry the tag.
//!
//! The store hands keys out in ascending order, and in a sorted sequence the
//! longest common prefix of any two elements is reached by two neighbours,
//! so one pass over consecutive pairs finds the maximum.
use vstd::prelude::*;
use crate::keys::{
    common_prefix_len, copy_bytes, has_prefix, key_has_prefix, lcp, lemma_lcp,
    lemma_lcp_covers_prefix, lemma_lcp_unique, lemma_lex_lt_asymmetric, lemma_prefix_run_unique,
    lex_lt, prefix_run, strictly_sorted, suffix, views,
};

verus! {

/// Largest common prefix length over consecutive elements of `s`.
pub open spec fn max_adjacent_lcp(s: Seq<Seq<u8>>) -> nat
    decreases s.len(),
{
    if s.len() < 2 {
        0
    } else {
        let m = max_adjacent_lcp(s.drop_last());
        let c = lcp(s[s.len() - 2], s[s.len() - 1]);
        if c > m {
            c
        } else {
            m
        }
    }
}

/// The bytes of `s` from last to first.
pub open spec fn reversed(s: Seq<u8>) -> Seq<u8> {
    Seq::new(s.len(), |i: int| s[s.len() - 1 - i])
}

/// Lowercase hexadecimal digit of a value below sixteen.
pub open spec fn hex_char(n: u8) -> char {
    seq!['0', '1', '2', '3', '4', '5', '6', '7', '8', '9', 'a', 'b', 'c', 'd', 'e', 'f'][n as int]
}

/// `r` spells `b` in lowercase hexadecimal, two digits per byte, high nibble first.
pub open spec fn is_hex_of(r: Seq<char>, b: Seq<u8>) -> bool {
    &&& r.len() == 2 * b.len()
    &&& forall|i: int|
        0 <= i < b.len() ==> r[2 * i] == hex_char(#[trigger] b[i] / 16) && r[2 * i + 1]
            == hex_char(b[i] % 16)
}

/// Relies on hex::encode: two lowercase hexadecimal digits for each byte,
/// the high nibble first.
#[verifier::external_body]
fn to_hex(b: &[u8]) -> (r: String)
    ensures
        is_hex_of(r@, b@),
{
    hex::encode(b)
}

/// Hexadecimal of `value` read from its last byte to its first, the order in
/// which hash values are conventionally displayed.
pub fn revhex(value: &[u8]) -> (r: String)
    ensures
        is_hex_of(r@, reversed(value@)),
{
    let mut rev: Vec<u8> = Vec::new();
    let mut i: usize = value.len();
    while i > 0
        invariant
            i <= value@.len(),
            rev@.len() == value@.len() - i,
            forall|j: int| 0 <= j < rev@.len() ==> #[trigger] rev@[j] == value@[value@.len() - 1 - j],
        decreases i,
    {
        i = i - 1;
        rev.push(value[i]);
    }
    assert(rev@ =~= reversed(value@));
    to_hex(rev.as_slice())
}

/// One sorted triple: the outer pair shares no more than the upper pair.
pub proof fn lemma_lcp_sorted_triple(a: Seq<u8>, b: Seq<u8>, c: Seq<u8>)
    requires
        lex_lt(a, b),
        lex_lt(b, c),
    ensures
        lcp(a, c) <= lcp(b, c),
{
    lemma_lcp(a, c);
    lemma_lcp(b, c);
    let n = lcp(a, c);
    let m = lcp(b, c);
    if m < n {
        assert(a[m as int] == c[m as int]);
        assert forall|j: int| 0 <= j < m implies #[trigger] b[j] == a[j] by {
            assert(b[j] == c[j]);
            assert(a[j] == c[j]);
        }
        if m == b.len() {
            lemma_lcp_unique(b, a, m);
            lemma_lex_lt_asymmetric(a, b);
        } else {
            lemma_lcp_unique(a, b, m);
            assert(false);
        }
    }
}

/// In a sorted sequence the common prefix of two elements is no longer than
/// that of the upper one and its predecessor.
pub proof fn lemma_lcp_below_predecessor(s: Seq<Seq<u8>>, i: int, j: int)
    requires
        strictly_sorted(s),
        0 <= i < j < s.len(),
    ensures
        lcp(s[i], s[j]) <= lcp(s[j - 1], s[j]),
{
    if i < j - 1 {
        assert(lex_lt(s[i], s[j - 1]));
        assert(lex_lt(s[j - 1], s[j]));
        lemma_lcp_sorted_triple(s[i], s[j - 1], s[j]);
    }
}

pub proof fn lemma_adjacent_below_max(s: Seq<Seq<u8>>, j: int)
    requires
        0 <= j,
        j + 1 < s.len(),
    ensures
        lcp(s[j], s[j + 1]) <= max_adjacent_lcp(s),
    decreases s.len(),
{
    if j + 2 < s.len() {
        let t = s.drop_last();
        lemma_adjacent_below_max(t, j);
        assert(t[j] == s[j] && t[j + 1] == s[j + 1]);
    }
}

pub proof fn lemma_max_attained(s: Seq<Seq<u8>>)
    requires
        s.len() >= 2,
    ensures
        exists|j: int| 0 <= j && j + 1 < s.len() && lcp(#[trigger] s[j], s[j + 1]) == max_adjacent_lcp(s),
    decreases s.len(),
{
    let k = s.len() - 2;
    if s.len() > 2 && max_adjacent_lcp(s) != lcp(s[k], s[k + 1]) {
        let t = s.drop_last();
        lemma_max_attained(t);
        let j = choose|j: int| 0 <= j && j + 1 < t.len() && lcp(#[trigger] t[j], t[j + 1]) == max_adjacent_lcp(t);
        assert(t[j] == s[j] && t[j + 1] == s[j + 1]);
    } else {
        if s.len() == 2 {
            assert(max_adjacent_lcp(s.drop_last()) == 0);
        }
        assert(lcp(s[k], s[k + 1]) == max_adjacent_lcp(s));
    }
}

/// Over keys in ascending order, the largest common prefix of consecutive keys
/// is the largest common prefix of any two keys, and some neighbours reach it.
pub proof fn lemma_adjacent_max_is_global(s: Seq<Seq<u8>>)
    requires
        strictly_sorted(s),
    ensures
        forall|i: int, j: int|
            0 <= i < j < s.len() ==> lcp(#[trigger] s[i], #[trigger] s[j]) <= max_adjacent_lcp(s),
        s.len() >= 2 ==> exists|j: int|
            0 <= j && j + 1 < s.len() && lcp(#[trigger] s[j], s[j + 1]) == max_adjacent_lcp(s),
{
    assert forall|i: int, j: int| 0 <= i < j < s.len() implies lcp(
        #[trigger] s[i],
        #[trigger] s[j],
    ) <= max_adjacent_lcp(s) by {
        lemma_lcp_below_predecessor(s, i, j);
        lemma_adjacent_below_max(s, j - 1);
    }
    if s.len() >= 2 {
        lemma_max_attained(s);
    }
}

/// A new longest common run past the tag, with the two keys that share it.
pub struct Collision {
    /// Common bytes after the tag.
    pub len: usize,
    /// The earlier key without its tag, as reversed hexadecimal.
    pub prev_suffix: String,
    /// The later key without its tag, as reversed hexadecimal.
    pub key_suffix: String,
}

/// `c` reports the pair `a`, `b` of keys under a tag of `plen` bytes.
pub open spec fn reports_pair(c: Collision, a: Seq<u8>, b: Seq<u8>, plen: nat) -> bool {
    &&& plen <= a.len()
    &&& plen <= b.len()
    &&& c.len + plen == lcp(a, b)
    &&& is_hex_of(c.prev_suffix@, reversed(a.subrange(plen as int, a.len() as int)))
    &&& is_hex_of(c.key_suffix@, reversed(b.subrange(plen as int, b.len() as int)))
}

/// What one key did to the scan.
pub enum ScanStep {
    /// The key lacks the tag: the tagged range is over.
    Stop,
    /// The key was taken in; the maximum did not grow.
    Next,
    /// The key was taken in and set a new maximum with its predecessor.
    Found(Collision),
}

/// Streaming state of the collision scan over keys that arrive in order.
pub struct CollisionScanner {
    pub prefix: Vec<u8>,
    pub prev: Option<Vec<u8>>,
    pub max: usize,
    /// The tagged keys taken in so far.
    pub seen: Ghost<Seq<Seq<u8>>>,
}

impl CollisionScanner {
    pub open spec fn wf(&self) -> bool {
        &&& self.max == max_adjacent_lcp(self.seen@)
        &&& forall|i: int|
            0 <= i < self.seen@.len() ==> has_prefix(#[trigger] self.seen@[i], self.prefix@)
        &&& match self.prev {
            None => self.seen@.len() == 0,
            Some(p) => self.seen@.len() > 0 && p@ == self.seen@.last(),
        }
    }

    /// A scan over keys tagged with `prefix` that has seen no key yet.
    pub fn new(prefix: &[u8]) -> (r: Self)
        ensures
            r.wf(),
            r.prefix@ == prefix@,
            r.seen@ == Seq::<Seq<u8>>::empty(),
    {
        CollisionScanner { prefix: copy_bytes(prefix), prev: None, max: 0, seen: Ghost(Seq::empty()) }
    }

    /// Takes in the next key in ascending order.
    pub fn feed(&mut self, key: &[u8]) -> (r: ScanStep)
        requires
            old(self).wf(),
        ensures
            final(self).wf(),
            final(self).prefix@ == old(self).prefix@,
            !has_prefix(key@, old(self).prefix@) ==> r is Stop && final(self).seen@ == old(
                self,
            ).seen@,
            has_prefix(key@, old(self).prefix@) ==> !(r is Stop) && final(self).seen@ == old(
                self,
            ).seen@.push(key@),
            r is Found <==> max_adjacent_lcp(final(self).seen@) > max_adjacent_lcp(
                old(self).seen@,
            ),
            r is Found ==> final(self).max == lcp(old(self).seen@.last(), key@),
            !(r is Found) ==> final(self).max == old(self).max,
            r is Found ==> reports_pair(
                r->Found_0,
                old(self).seen@.last(),
                key@,
                old(self).prefix@.len(),
            ),
    {
        if !key_has_prefix(key, self.prefix.as_slice()) {
            return ScanStep::Stop;
        }
        let ghost old_seen = self.seen@;
        let ghost new_seen = old_seen.push(key@);
        assert(new_seen.drop_last() =~= old_seen);
        let mut step = ScanStep::Next;
        let mut new_max = self.max;
        match &self.prev {
            Some(prev) => {
                let l = common_prefix_len(prev.as_slice(), key);
                proof {
                    lemma_lcp_covers_prefix(prev@, key@, self.prefix@);
                    lemma_lcp(prev@, key@);
                }
                if l > self.max {
                    let plen = self.prefix.len();
                    let c = Collision {
                        len: l - plen,
                        prev_suffix: revhex(suffix(prev.as_slice(), plen).as_slice()),
                        key_suffix: revhex(suffix(key, plen).as_slice()),
                    };
                    step = ScanStep::Found(c);
                    new_max = l;
                }
            },
            None => {
                assert(new_seen.len() == 1);
            },
        }
        self.max = new_max;
        self.prev = Some(copy_bytes(key));
        self.seen = Ghost(new_seen);
        step
    }
}

/// Scans `keys`, given in ascending order from the first key not below
/// `prefix`, over the leading run that carries `prefix`, and returns one
/// report each time two neighbours share more than any pair before them.
pub fn max_collision(prefix: &[u8], keys: &Vec<Vec<u8>>) -> (r: Vec<Collision>)
    ensures
        ({
            let s = views(keys@).take(prefix_run(views(keys@), prefix@) as int);
            &&& r@.len() == 0 <==> max_adjacent_lcp(s) == 0
            &&& r@.len() > 0 ==> r@.last().len + prefix@.len() == max_adjacent_lcp(s)
            &&& forall|i: int| 0 <= i < r@.len() - 1 ==> #[trigger] r@[i].len < r@[i + 1].len
            &&& forall|i: int|
                0 <= i < r@.len() ==> exists|j: int|
                    0 <= j && j + 1 < s.len() && reports_pair(
                        #[trigger] r@[i],
                        #[trigger] s[j],
                        s[j + 1],
                        prefix@.len(),
                    )
        }),
{
    let ghost ks = views(keys@);
    let mut scanner = CollisionScanner::new(prefix);
    let mut found: Vec<Collision> = Vec::new();
    let mut i: usize = 0;
    let mut done = false;
    assert(ks.take(0) =~= Seq::<Seq<u8>>::empty());
    while i < keys.len() && !done
        invariant
            done ==> i < keys@.len() && !has_prefix(ks[i as int], prefix@),
            scanner.wf(),
            scanner.prefix@ == prefix@,
            ks == views(keys@),
            i <= keys@.len(),
            scanner.seen@ == ks.take(i as int),
            found@.len() == 0 <==> scanner.max == 0,
            found@.len() > 0 ==> found@.last().len + prefix@.len() == scanner.max,
            forall|a: int| 0 <= a < found@.len() - 1 ==> #[trigger] found@[a].len < found@[a + 1].len,
            forall|a: int|
                0 <= a < found@.len() ==> exists|j: int|
                    0 <= j && j + 1 < i && reports_pair(
                        #[trigger] found@[a],
                        #[trigger] ks[j],
                        ks[j + 1],
                        prefix@.len(),
                    ),
        decreases keys@.len() - i + (if done { 0int } else { 1int }),
    {
        let ghost before = scanner.seen@;
        let step = scanner.feed(keys[i].as_slice());
        assert(ks[i as int] == keys@[i as int]@);
        match step {
            ScanStep::Stop => {
                done = true;
            },
            ScanStep::Next => {},
            ScanStep::Found(c) => {
                proof {
                    lemma_lcp(before.last(), ks[i as int]);
                    assert(before.last() == ks[i - 1]);
                }
                found.push(c);
            },
        }
        if !done {
            assert(ks.take(i + 1) =~= before.push(ks[i as int]));
            i = i + 1;
        }
    }
    proof {
        let n = scanner.seen@.len();
        assert forall|a: int| 0 <= a < n implies has_prefix(#[trigger] ks[a], prefix@) by {
            assert(ks[a] == scanner.seen@[a]);
        }
        lemma_prefix_run_unique(ks, prefix@, n);
        assert forall|a: int| 0 <= a < found@.len() implies exists|j: int|
            0 <= j && j + 1 < scanner.seen@.len() && reports_pair(
                #[trigger] found@[a],
                #[trigger] scanner.seen@[j],
                scanner.seen@[j + 1],
                prefix@.len(),
            ) by {
            let j = choose|j: int|
                0 <= j && j + 1 < i && reports_pair(found@[a], #[trigger] ks[j], ks[j + 1], prefix@.len());
            assert(scanner.seen@[j] == ks[j] && scanner.seen@[j + 1] == ks[j + 1]);
        }
    }
    found
}

pub proof fn lemma_lex_lt_irreflexive(a: Seq<u8>)
    ensures
        !lex_lt(a, a),
{
    lemma_lcp_unique(a, a, a.len());
}

/// Each neighbouring pair of one ascending order of a key set shares no more
/// than the maximum of another ascending order of the same set.
proof fn lemma_max_bounded_by_other_order(s1: Seq<Seq<u8>>, s2: Seq<Seq<u8>>)
    requires
        strictly_sorted(s1),
        strictly_sorted(s2),
        s1.to_set() == s2.to_set(),
    ensures
        max_adjacent_lcp(s1) <= max_adjacent_lcp(s2),
{
    if s1.len() >= 2 {
        lemma_adjacent_max_is_global(s1);
        lemma_adjacent_max_is_global(s2);
        let j = choose|j: int|
            0 <= j && j + 1 < s1.len() && lcp(#[trigger] s1[j], s1[j + 1]) == max_adjacent_lcp(s1);
        assert(s1.to_set().contains(s1[j]));
        assert(s1.to_set().contains(s1[j + 1]));
        let a = choose|a: int| 0 <= a < s2.len() && s2[a] == s1[j];
        let b = choose|b: int| 0 <= b < s2.len() && s2[b] == s1[j + 1];
        assert(lex_lt(s1[j], s1[j + 1]));
        lemma_lex_lt_irreflexive(s1[j]);
        if a < b {
            assert(lcp(s2[a], s2[b]) <= max_adjacent_lcp(s2));
        } else {
            assert(lcp(s2[b], s2[a]) <= max_adjacent_lcp(s2));
            crate::keys::lemma_lcp_symmetric(s2[a], s2[b]);
        }
    }
}

/// The scan's maximum depends only on which keys are stored: any two
/// ascending orders of one key set give the same maximum.
pub proof fn lemma_collision_order_independent(s1: Seq<Seq<u8>>, s2: Seq<Seq<u8>>)
    requires
        strictly_sorted(s1),
        strictly_sorted(s2),
        s1.to_set() == s2.to_set(),
    ensures
        max_adjacent_lcp(s1) == max_adjacent_lcp(s2),
{
    lemma_max_bounded_by_other_order(s1, s2);
    lemma_max_bounded_by_other_order(s2, s1);
}

} // verus!
