//! The order on map keys: byte strings compared lexicographically.

use vstd::prelude::*;

verus! {

/// How one key stands to another.
#[derive(Clone, Copy, Debug, PartialEq, Eq, Structural)]
pub enum KeyOrder {
    Before,
    Same,
    After,
}

/// `a` and `b` agree on their first `i` bytes, and there `a` ends while `b`
/// goes on, or `a` holds the smaller byte.
pub open spec fn less_at(a: Seq<u8>, b: Seq<u8>, i: int) -> bool {
    &&& 0 <= i <= a.len()
    &&& i < b.len()
    &&& forall|j: int| 0 <= j < i ==> a[j] == b[j]
    &&& (i == a.len() || a[i] < b[i])
}

/// Strict lexicographic order on byte strings.
pub open spec fn lex_less(a: Seq<u8>, b: Seq<u8>) -> bool {
    exists|i: int| less_at(a, b, i)
}

/// No key is less than itself.
pub proof fn lemma_lex_less_irreflexive(a: Seq<u8>)
    ensures
        !lex_less(a, a),
{
}

/// The order is transitive.
pub proof fn lemma_lex_less_transitive(a: Seq<u8>, b: Seq<u8>, c: Seq<u8>)
    requires
        lex_less(a, b),
        lex_less(b, c),
    ensures
        lex_less(a, c),
{
    let i = choose|i: int| less_at(a, b, i);
    let j = choose|j: int| less_at(b, c, j);
    let m = if i <= j { i } else { j };
    assert(less_at(a, c, m));
}

/// A key that is less than another differs from it and is not greater.
pub proof fn lemma_strict(a: Seq<u8>, b: Seq<u8>)
    requires
        lex_less(a, b),
    ensures
        a != b,
        !lex_less(b, a),
{
    lemma_lex_less_irreflexive(a);
    if lex_less(b, a) {
        lemma_lex_less_transitive(a, b, a);
    }
}

/// Compares two keys byte by byte.
pub fn compare_keys(a: &[u8], b: &[u8]) -> (r: KeyOrder)
    ensures
        r == KeyOrder::Before <==> lex_less(a@, b@),
        r == KeyOrder::Same <==> a@ == b@,
        r == KeyOrder::After <==> lex_less(b@, a@),
{
    let mut i: usize = 0;
    while i < a.len() && i < b.len()
        invariant
            i <= a.len(),
            i <= b.len(),
            forall|j: int| 0 <= j < i ==> a@[j] == b@[j],
        decreases a.len() - i,
    {
        if a[i] < b[i] {
            proof {
                assert(less_at(a@, b@, i as int));
                lemma_strict(a@, b@);
            }
            return KeyOrder::Before;
        }
        if b[i] < a[i] {
            proof {
                assert(less_at(b@, a@, i as int));
                lemma_strict(b@, a@);
            }
            return KeyOrder::After;
        }
        i += 1;
    }
    if i < b.len() {
        proof {
            assert(less_at(a@, b@, i as int));
            lemma_strict(a@, b@);
        }
        KeyOrder::Before
    } else if i < a.len() {
        proof {
            assert(less_at(b@, a@, i as int));
            lemma_strict(b@, a@);
        }
        KeyOrder::After
    } else {
        proof {
            assert(a@ =~= b@);
            lemma_lex_less_irreflexive(a@);
        }
        KeyOrder::Same
    }
}

} // verus!
