//! Byte strings: copies, equality and the lexicographic order.
use vstd::prelude::*;

verus! {

/// How one key stands to another in a total order.
#[derive(Clone, Copy, Debug, PartialEq, Eq, Structural)]
pub enum Rank {
    Before,
    Same,
    After,
}

/// Whether `a` comes strictly before `b` when both are compared byte by byte
/// from position `from` on; a proper prefix comes before its extensions.
pub open spec fn bytes_lt_from(a: Seq<u8>, b: Seq<u8>, from: int) -> bool
    decreases a.len() - from,
{
    if from < 0 || from >= b.len() {
        false
    } else if from >= a.len() {
        true
    } else if a[from] != b[from] {
        a[from] < b[from]
    } else {
        bytes_lt_from(a, b, from + 1)
    }
}

/// The strict lexicographic order on byte strings.
pub open spec fn bytes_lt(a: Seq<u8>, b: Seq<u8>) -> bool {
    bytes_lt_from(a, b, 0)
}

/// The rank of `a` relative to `b` in the lexicographic order.
pub open spec fn bytes_rank(a: Seq<u8>, b: Seq<u8>) -> Rank {
    if bytes_lt(a, b) {
        Rank::Before
    } else if a == b {
        Rank::Same
    } else {
        Rank::After
    }
}

proof fn lemma_lt_from_irreflexive(a: Seq<u8>, from: int)
    ensures
        !bytes_lt_from(a, a, from),
    decreases a.len() - from,
{
    if 0 <= from < a.len() {
        lemma_lt_from_irreflexive(a, from + 1);
    }
}

proof fn lemma_lt_from_transitive(a: Seq<u8>, b: Seq<u8>, c: Seq<u8>, from: int)
    requires
        bytes_lt_from(a, b, from),
        bytes_lt_from(b, c, from),
    ensures
        bytes_lt_from(a, c, from),
    decreases a.len() - from,
{
    if from < a.len() && a[from] == b[from] && b[from] == c[from] {
        lemma_lt_from_transitive(a, b, c, from + 1);
    }
}

proof fn lemma_lt_from_total(a: Seq<u8>, b: Seq<u8>, from: int)
    requires
        0 <= from,
        from <= a.len(),
        from <= b.len(),
        forall|i: int| 0 <= i < from ==> a[i] == b[i],
        !bytes_lt_from(a, b, from),
        !bytes_lt_from(b, a, from),
    ensures
        a == b,
    decreases a.len() - from,
{
    if from < a.len() && from < b.len() {
        lemma_lt_from_total(a, b, from + 1);
    } else {
        assert(a =~= b);
    }
}

/// No byte string comes before itself.
pub proof fn lemma_bytes_lt_irreflexive(a: Seq<u8>)
    ensures
        !bytes_lt(a, a),
{
    lemma_lt_from_irreflexive(a, 0);
}

/// The lexicographic order is transitive.
pub proof fn lemma_bytes_lt_transitive(a: Seq<u8>, b: Seq<u8>, c: Seq<u8>)
    requires
        bytes_lt(a, b),
        bytes_lt(b, c),
    ensures
        bytes_lt(a, c),
{
    lemma_lt_from_transitive(a, b, c, 0);
}

/// Two byte strings of which neither comes before the other are equal.
pub proof fn lemma_bytes_lt_total(a: Seq<u8>, b: Seq<u8>)
    requires
        !bytes_lt(a, b),
        !bytes_lt(b, a),
    ensures
        a == b,
{
    lemma_lt_from_total(a, b, 0);
}

/// Of two byte strings at most one comes before the other.
pub proof fn lemma_bytes_lt_asymmetric(a: Seq<u8>, b: Seq<u8>)
    requires
        bytes_lt(a, b),
    ensures
        !bytes_lt(b, a),
{
    if bytes_lt(b, a) {
        lemma_bytes_lt_transitive(a, b, a);
        lemma_bytes_lt_irreflexive(a);
    }
}

/// Compares two byte strings in the lexicographic order.
pub fn compare_bytes(a: &[u8], b: &[u8]) -> (rank: Rank)
    ensures
        rank == bytes_rank(a@, b@),
{
    let mut i: usize = 0;
    while i < a.len() && i < b.len()
        invariant
            i <= a.len(),
            i <= b.len(),
            forall|j: int| 0 <= j < i ==> a@[j] == b@[j],
            bytes_lt(a@, b@) == bytes_lt_from(a@, b@, i as int),
            bytes_lt(b@, a@) == bytes_lt_from(b@, a@, i as int),
        decreases a.len() - i,
    {
        if a[i] < b[i] {
            proof {
                lemma_bytes_lt_asymmetric(a@, b@);
            }
            return Rank::Before;
        }
        if a[i] > b[i] {
            proof {
                lemma_bytes_lt_asymmetric(b@, a@);
                assert(a@ != b@);
            }
            return Rank::After;
        }
        i += 1;
    }
    if i < b.len() {
        Rank::Before
    } else if i < a.len() {
        proof {
            assert(a@ != b@);
        }
        Rank::After
    } else {
        proof {
            assert(a@ =~= b@);
            lemma_bytes_lt_irreflexive(a@);
        }
        Rank::Same
    }
}

/// Whether two byte strings hold the same bytes.
pub fn bytes_equal(a: &[u8], b: &[u8]) -> (same: bool)
    ensures
        same == (a@ == b@),
{
    if a.len() != b.len() {
        return false;
    }
    let mut i: usize = 0;
    while i < a.len()
        invariant
            i <= a.len(),
            a.len() == b.len(),
            forall|j: int| 0 <= j < i ==> a@[j] == b@[j],
        decreases a.len() - i,
    {
        if a[i] != b[i] {
            return false;
        }
        i += 1;
    }
    proof {
        assert(a@ =~= b@);
    }
    true
}

/// An owned copy of a byte string.
pub fn copy_bytes(a: &[u8]) -> (copy: Vec<u8>)
    ensures
        copy@ == a@,
{
    let mut copy: Vec<u8> = Vec::with_capacity(a.len());
    let mut i: usize = 0;
    while i < a.len()
        invariant
            i <= a.len(),
            copy@ == a@.subrange(0, i as int),
        decreases a.len() - i,
    {
        copy.push(a[i]);
        proof {
            assert(copy@ =~= a@.subrange(0, i + 1));
        }
        i += 1;
    }
    proof {
        assert(copy@ =~= a@);
    }
    copy
}

} // verus!
