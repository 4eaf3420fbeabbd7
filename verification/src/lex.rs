//! The lexicographic order on byte strings, by which dictionary keys are sorted.

use vstd::prelude::*;

verus! {

/// How one byte string stands to another in lexicographic order.
#[derive(Debug, Clone, Copy, PartialEq, Eq, Structural)]
pub enum ByteOrder {
    Before,
    Same,
    After,
}

/// `a` precedes `b`, given that the two agree on their first `i` bytes.
pub open spec fn precedes_from(a: Seq<u8>, b: Seq<u8>, i: int) -> bool
    decreases a.len() - i,
{
    if i < 0 || i >= b.len() {
        false
    } else if i >= a.len() {
        true
    } else if a[i] != b[i] {
        a[i] < b[i]
    } else {
        precedes_from(a, b, i + 1)
    }
}

/// `a` comes strictly before `b` in lexicographic byte order: at the first
/// position where they differ `a` holds the smaller byte, or `a` is a proper
/// prefix of `b`.
pub open spec fn bytes_lt(a: Seq<u8>, b: Seq<u8>) -> bool {
    precedes_from(a, b, 0)
}

/// The order of `a` relative to `b`.
pub open spec fn byte_order(a: Seq<u8>, b: Seq<u8>) -> ByteOrder {
    if bytes_lt(a, b) {
        ByteOrder::Before
    } else if a == b {
        ByteOrder::Same
    } else {
        ByteOrder::After
    }
}

proof fn lemma_precedes_from_irreflexive(a: Seq<u8>, i: int)
    requires
        0 <= i,
    ensures
        !precedes_from(a, a, i),
    decreases a.len() - i,
{
    if i < a.len() {
        lemma_precedes_from_irreflexive(a, i + 1);
    }
}

proof fn lemma_precedes_from_asymmetric(a: Seq<u8>, b: Seq<u8>, i: int)
    requires
        0 <= i,
        precedes_from(a, b, i),
    ensures
        !precedes_from(b, a, i),
    decreases a.len() - i,
{
    if i < a.len() && i < b.len() && a[i] == b[i] {
        lemma_precedes_from_asymmetric(a, b, i + 1);
    }
}

proof fn lemma_precedes_from_transitive(a: Seq<u8>, b: Seq<u8>, c: Seq<u8>, i: int)
    requires
        0 <= i,
        precedes_from(a, b, i),
        precedes_from(b, c, i),
    ensures
        precedes_from(a, c, i),
    decreases a.len() - i,
{
    if i < a.len() && i < b.len() && i < c.len() && a[i] == b[i] && b[i] == c[i] {
        lemma_precedes_from_transitive(a, b, c, i + 1);
    }
}

proof fn lemma_precedes_from_total(a: Seq<u8>, b: Seq<u8>, i: int)
    requires
        0 <= i <= a.len(),
        i <= b.len(),
        forall|k: int| 0 <= k < i ==> a[k] == b[k],
        !precedes_from(a, b, i),
        !precedes_from(b, a, i),
    ensures
        a == b,
    decreases a.len() - i,
{
    if i < a.len() && i < b.len() {
        lemma_precedes_from_total(a, b, i + 1);
    } else {
        assert(a =~= b);
    }
}

/// No byte string comes before itself.
pub proof fn lemma_bytes_lt_irreflexive(a: Seq<u8>)
    ensures
        !bytes_lt(a, a),
{
    lemma_precedes_from_irreflexive(a, 0);
}

/// Of two byte strings at most one comes before the other.
pub proof fn lemma_bytes_lt_asymmetric(a: Seq<u8>, b: Seq<u8>)
    requires
        bytes_lt(a, b),
    ensures
        !bytes_lt(b, a),
        a != b,
{
    lemma_precedes_from_asymmetric(a, b, 0);
    lemma_precedes_from_irreflexive(a, 0);
}

/// The order is transitive.
pub proof fn lemma_bytes_lt_transitive(a: Seq<u8>, b: Seq<u8>, c: Seq<u8>)
    requires
        bytes_lt(a, b),
        bytes_lt(b, c),
    ensures
        bytes_lt(a, c),
{
    lemma_precedes_from_transitive(a, b, c, 0);
}

/// Two distinct byte strings are ordered one way or the other.
pub proof fn lemma_bytes_lt_total(a: Seq<u8>, b: Seq<u8>)
    ensures
        bytes_lt(a, b) || a == b || bytes_lt(b, a),
{
    if !bytes_lt(a, b) && !bytes_lt(b, a) {
        lemma_precedes_from_total(a, b, 0);
    }
}

/// Compares two byte strings lexicographically.
pub fn compare_bytes(a: &[u8], b: &[u8]) -> (order: ByteOrder)
    ensures
        order == byte_order(a@, b@),
        order == ByteOrder::Before <==> bytes_lt(a@, b@),
        order == ByteOrder::Same <==> a@ == b@,
        order == ByteOrder::After <==> bytes_lt(b@, a@),
{
    proof {
        lemma_bytes_lt_total(a@, b@);
        if bytes_lt(a@, b@) {
            lemma_bytes_lt_asymmetric(a@, b@);
        }
        if bytes_lt(b@, a@) {
            lemma_bytes_lt_asymmetric(b@, a@);
        }
    }
    let mut i: usize = 0;
    while i < a.len() && i < b.len()
        invariant
            i <= a.len(),
            i <= b.len(),
            precedes_from(a@, b@, i as int) == bytes_lt(a@, b@),
            precedes_from(b@, a@, i as int) == bytes_lt(b@, a@),
        decreases a.len() - i,
    {
        if a[i] < b[i] {
            return ByteOrder::Before;
        }
        if a[i] > b[i] {
            return ByteOrder::After;
        }
        i += 1;
    }
    if i < b.len() {
        ByteOrder::Before
    } else if i < a.len() {
        ByteOrder::After
    } else {
        ByteOrder::Same
    }
}

} // verus!
