//! Lexicographic order on byte strings.

use vstd::prelude::*;

verus! {

/// How one byte string stands to another in lexicographic order.
#[derive(Clone, Copy, Debug, PartialEq, Eq, Structural)]
pub enum Relation {
    Before,
    Same,
    After,
}

/// `a` and `b` agree on their first `i` bytes, and at position `i` either
/// `a` ends while `b` goes on, or `a` holds the smaller byte.
pub open spec fn precedes_at(a: Seq<u8>, b: Seq<u8>, i: int) -> bool {
    &&& 0 <= i <= a.len()
    &&& i < b.len()
    &&& a.subrange(0, i) == b.subrange(0, i)
    &&& (i < a.len() ==> a[i] < b[i])
}

/// Strict lexicographic order: a proper prefix comes first, otherwise the
/// first differing byte decides.
pub open spec fn bytes_lt(a: Seq<u8>, b: Seq<u8>) -> bool {
    exists|i: int| precedes_at(a, b, i)
}

/// No byte string comes before itself.
pub proof fn lemma_lt_irreflexive(a: Seq<u8>)
    ensures
        !bytes_lt(a, a),
{
}

/// The order is transitive.
pub proof fn lemma_lt_transitive(a: Seq<u8>, b: Seq<u8>, c: Seq<u8>)
    requires
        bytes_lt(a, b),
        bytes_lt(b, c),
    ensures
        bytes_lt(a, c),
{
    let i = choose|i: int| precedes_at(a, b, i);
    let j = choose|j: int| precedes_at(b, c, j);
    let k = if i <= j { i } else { j };
    assert(a.subrange(0, k) =~= a.subrange(0, i).subrange(0, k));
    assert(b.subrange(0, k) =~= b.subrange(0, i).subrange(0, k));
    assert(b.subrange(0, k) =~= b.subrange(0, j).subrange(0, k));
    assert(c.subrange(0, k) =~= c.subrange(0, j).subrange(0, k));
    if k < a.len() {
        if j < i {
            assert(a[k] == a.subrange(0, i)[k]);
            assert(b[k] == b.subrange(0, i)[k]);
        } else if i < j {
            assert(b[k] == b.subrange(0, j)[k]);
            assert(c[k] == c.subrange(0, j)[k]);
        }
    }
    assert(precedes_at(a, c, k));
}

/// Two byte strings are never each before the other.
pub proof fn lemma_lt_asymmetric(a: Seq<u8>, b: Seq<u8>)
    requires
        bytes_lt(a, b),
    ensures
        !bytes_lt(b, a),
{
    if bytes_lt(b, a) {
        lemma_lt_transitive(a, b, a);
        lemma_lt_irreflexive(a);
    }
}

/// Of two different byte strings one comes before the other.
pub proof fn lemma_lt_total(a: Seq<u8>, b: Seq<u8>)
    ensures
        a == b || bytes_lt(a, b) || bytes_lt(b, a),
{
    assert(a.subrange(0, 0) =~= b.subrange(0, 0));
    lemma_first_difference(a, b, 0);
}

/// Two byte strings that agree on their first `i` bytes are equal, or one
/// comes before the other.
proof fn lemma_first_difference(a: Seq<u8>, b: Seq<u8>, i: int)
    requires
        0 <= i <= a.len(),
        i <= b.len(),
        a.subrange(0, i) == b.subrange(0, i),
    ensures
        a == b || bytes_lt(a, b) || bytes_lt(b, a),
    decreases a.len() - i,
{
    if i == a.len() {
        if i == b.len() {
            assert(a =~= a.subrange(0, i));
            assert(b =~= b.subrange(0, i));
        } else {
            assert(precedes_at(a, b, i));
        }
    } else if i == b.len() {
        assert(precedes_at(b, a, i));
    } else if a[i] < b[i] {
        assert(precedes_at(a, b, i));
    } else if b[i] < a[i] {
        assert(precedes_at(b, a, i));
    } else {
        assert(a.subrange(0, i + 1) =~= a.subrange(0, i).push(a[i]));
        assert(b.subrange(0, i + 1) =~= b.subrange(0, i).push(b[i]));
        lemma_first_difference(a, b, i + 1);
    }
}

/// Compares two byte strings lexicographically.
pub fn compare_bytes(a: &[u8], b: &[u8]) -> (relation: Relation)
    ensures
        relation == Relation::Before <==> bytes_lt(a@, b@),
        relation == Relation::Same <==> a@ == b@,
        relation == Relation::After <==> bytes_lt(b@, a@),
{
    let mut i: usize = 0;
    while i < a.len() && i < b.len()
        invariant
            i <= a.len(),
            i <= b.len(),
            a@.subrange(0, i as int) == b@.subrange(0, i as int),
        decreases a.len() - i,
    {
        if a[i] < b[i] {
            proof {
                assert(precedes_at(a@, b@, i as int));
                lemma_lt_asymmetric(a@, b@);
                lemma_lt_irreflexive(a@);
            }
            return Relation::Before;
        }
        if b[i] < a[i] {
            proof {
                assert(precedes_at(b@, a@, i as int));
                lemma_lt_asymmetric(b@, a@);
                lemma_lt_irreflexive(a@);
            }
            return Relation::After;
        }
        proof {
            assert(a@.subrange(0, i + 1) =~= a@.subrange(0, i as int).push(a@[i as int]));
            assert(b@.subrange(0, i + 1) =~= b@.subrange(0, i as int).push(b@[i as int]));
        }
        i += 1;
    }
    if i < b.len() {
        proof {
            assert(precedes_at(a@, b@, i as int));
            lemma_lt_asymmetric(a@, b@);
            lemma_lt_irreflexive(a@);
        }
        Relation::Before
    } else if i < a.len() {
        proof {
            assert(precedes_at(b@, a@, i as int));
            lemma_lt_asymmetric(b@, a@);
            lemma_lt_irreflexive(a@);
        }
        Relation::After
    } else {
        proof {
            assert(a@ =~= a@.subrange(0, i as int));
            assert(b@ =~= b@.subrange(0, i as int));
            lemma_lt_irreflexive(a@);
        }
        Relation::Same
    }
}

/// Whether two byte strings are equal.
pub fn bytes_equal(a: &[u8], b: &[u8]) -> (equal: bool)
    ensures
        equal == (a@ == b@),
{
    if a.len() != b.len() {
        return false;
    }
    let mut i: usize = 0;
    while i < a.len()
        invariant
            i <= a.len(),
            a.len() == b.len(),
            a@.subrange(0, i as int) == b@.subrange(0, i as int),
        decreases a.len() - i,
    {
        if a[i] != b[i] {
            return false;
        }
        proof {
            assert(a@.subrange(0, i + 1) =~= a@.subrange(0, i as int).push(a@[i as int]));
            assert(b@.subrange(0, i + 1) =~= b@.subrange(0, i as int).push(b@[i as int]));
        }
        i += 1;
    }
    proof {
        assert(a@ =~= a@.subrange(0, i as int));
        assert(b@ =~= b@.subrange(0, i as int));
    }
    true
}

/// Copies a byte string.
pub fn copy_bytes(source: &[u8]) -> (copy: Vec<u8>)
    ensures
        copy@ == source@,
{
    let mut copy: Vec<u8> = Vec::new();
    let mut i: usize = 0;
    while i < source.len()
        invariant
            i <= source.len(),
            copy@ == source@.subrange(0, i as int),
        decreases source.len() - i,
    {
        copy.push(source[i]);
        i += 1;
    }
    assert(source@.subrange(0, source.len() as int) == source@);
    copy
}

} // verus!
