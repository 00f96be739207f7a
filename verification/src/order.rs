use vstd::prelude::*;

verus! {

/// Lexicographic order on byte strings of one length: at the first
/// position where the two differ, `a` holds the smaller byte.
pub open spec fn lex_lt(a: Seq<u8>, b: Seq<u8>) -> bool {
    exists|k: int| first_difference(a, b, k) && a[k] < b[k]
}

/// `k` is the first position at which `a` and `b` differ.
pub open spec fn first_difference(a: Seq<u8>, b: Seq<u8>, k: int) -> bool {
    &&& 0 <= k < a.len()
    &&& k < b.len()
    &&& a[k] != b[k]
    &&& forall|j: int| 0 <= j < k ==> a[j] == b[j]
}

/// Two byte strings differ first at one position only.
pub proof fn lemma_first_difference_unique(a: Seq<u8>, b: Seq<u8>, k: int, m: int)
    requires
        first_difference(a, b, k),
        first_difference(a, b, m),
    ensures
        k == m,
{
    if k < m {
        assert(a[k] == b[k]);
    } else if m < k {
        assert(a[m] == b[m]);
    }
}

/// No byte string precedes itself.
pub proof fn lemma_lex_irreflexive(a: Seq<u8>)
    ensures
        !lex_lt(a, a),
{
}

/// Of two byte strings at most one precedes the other.
pub proof fn lemma_lex_asymmetric(a: Seq<u8>, b: Seq<u8>)
    requires
        lex_lt(a, b),
    ensures
        !lex_lt(b, a),
{
    let k = choose|k: int| first_difference(a, b, k) && a[k] < b[k];
    if lex_lt(b, a) {
        let m = choose|m: int| first_difference(b, a, m) && b[m] < a[m];
        assert(first_difference(a, b, m));
        lemma_first_difference_unique(a, b, k, m);
    }
}

/// What precedes a byte string precedes what that one precedes.
pub proof fn lemma_lex_transitive(a: Seq<u8>, b: Seq<u8>, c: Seq<u8>)
    requires
        lex_lt(a, b),
        lex_lt(b, c),
    ensures
        lex_lt(a, c),
{
    let k = choose|k: int| first_difference(a, b, k) && a[k] < b[k];
    let m = choose|m: int| first_difference(b, c, m) && b[m] < c[m];
    let n = if k <= m {
        k
    } else {
        m
    };
    assert(first_difference(a, c, n) && a[n] < c[n]);
}

/// Two byte strings of one length are equal, or one precedes the other.
pub proof fn lemma_lex_total(a: Seq<u8>, b: Seq<u8>)
    requires
        a.len() == b.len(),
    ensures
        lex_lt(a, b) || a == b || lex_lt(b, a),
{
    if !(a =~= b) {
        let k = lemma_differing_position(a, b, a.len() as int);
        assert(first_difference(b, a, k));
    }
}

/// Among the first `n` positions, where two byte strings differ at all,
/// there is a first one at which they do.
proof fn lemma_differing_position(a: Seq<u8>, b: Seq<u8>, n: int) -> (k: int)
    requires
        a.len() == b.len(),
        0 <= n <= a.len(),
        exists|i: int| 0 <= i < n && a[i] != b[i],
    ensures
        first_difference(a, b, k),
    decreases n,
{
    if exists|i: int| 0 <= i < n - 1 && a[i] != b[i] {
        lemma_differing_position(a, b, n - 1)
    } else {
        n - 1
    }
}

/// Whether `a` precedes `b`.
pub fn precedes(a: &[u8; 32], b: &[u8; 32]) -> (r: bool)
    ensures
        r == lex_lt(a@, b@),
{
    let mut i: usize = 0;
    while i < 32
        invariant
            0 <= i <= 32,
            forall|j: int| 0 <= j < i ==> a@[j] == b@[j],
        decreases 32 - i,
    {
        if a[i] != b[i] {
            proof {
                assert(first_difference(a@, b@, i as int));
                if lex_lt(a@, b@) {
                    let k = choose|k: int| first_difference(a@, b@, k) && a@[k] < b@[k];
                    lemma_first_difference_unique(a@, b@, k, i as int);
                }
            }
            return a[i] < b[i];
        }
        i += 1;
    }
    false
}

} // verus!
