use crate::order::{
    lemma_lex_asymmetric, lemma_lex_irreflexive, lemma_lex_total, lemma_lex_transitive, lex_lt,
    precedes,
};
use vstd::prelude::*;
use vstd::seq_lib::seq_to_set_distributes_over_add;

verus! {

/// A transaction identifier: 32 bytes in the byte order of the wire format.
#[derive(Clone, Copy, Debug, PartialEq, Eq, PartialOrd, Ord, Hash)]
pub struct Txid {
    pub bytes: [u8; 32],
}

impl View for Txid {
    type V = Seq<u8>;

    open spec fn view(&self) -> Seq<u8> {
        self.bytes@
    }
}

impl Txid {
    /// Whether `self` comes before `other` in ascending order.
    pub fn precedes(&self, other: &Txid) -> (r: bool)
        ensures
            r == lex_lt(self@, other@),
    {
        precedes(&self.bytes, &other.bytes)
    }

    /// Whether the two identifiers hold the same bytes.
    pub fn same(&self, other: &Txid) -> (r: bool)
        ensures
            r == (self@ == other@),
            r == (*self == *other),
    {
        let mut i: usize = 0;
        while i < 32
            invariant
                0 <= i <= 32,
                forall|j: int| 0 <= j < i ==> self@[j] == other@[j],
            decreases 32 - i,
        {
            if self.bytes[i] != other.bytes[i] {
                return false;
            }
            i += 1;
        }
        assert(self@ =~= other@);
        assert(self.bytes =~= other.bytes);
        true
    }
}

/// For identifiers, equal bytes mean equal values.
pub proof fn lemma_txid_by_bytes(a: Txid, b: Txid)
    requires
        a@ == b@,
    ensures
        a == b,
{
    assert forall|i: int| 0 <= i < 32 implies a.bytes[i] == b.bytes[i] by {
        assert(a@[i] == b@[i]);
    }
    assert(a.bytes =~= b.bytes);
}

/// Every identifier stands before all that follow it.
pub open spec fn ascending(s: Seq<Txid>) -> bool {
    forall|i: int, j: int| 0 <= i < j < s.len() ==> lex_lt(#[trigger] s[i]@, #[trigger] s[j]@)
}

/// The ascending sequence `s` with `id` put in its place; `s` itself where
/// it holds `id` already.
pub open spec fn insert_sorted(s: Seq<Txid>, id: Txid) -> Seq<Txid>
    decreases s.len(),
{
    if s.len() == 0 {
        seq![id]
    } else if lex_lt(id@, s[0]@) {
        seq![id] + s
    } else if id == s[0] {
        s
    } else {
        seq![s[0]] + insert_sorted(s.drop_first(), id)
    }
}

/// `insert_sorted` applied to each identifier of `ids` in turn.
pub open spec fn insert_all(s: Seq<Txid>, ids: Seq<Txid>) -> Seq<Txid>
    decreases ids.len(),
{
    if ids.len() == 0 {
        s
    } else {
        insert_sorted(insert_all(s, ids.drop_last()), ids.last())
    }
}

/// What a sequence holds is its first element and what the rest holds.
proof fn lemma_first_and_rest(head: Txid, rest: Seq<Txid>)
    ensures
        (seq![head] + rest).to_set() == rest.to_set().insert(head),
{
    seq_to_set_distributes_over_add(seq![head], rest);
    assert(seq![head].to_set() =~= Set::<Txid>::empty().insert(head)) by {
        assert(seq![head][0] == head);
    }
    assert(seq![head].to_set() + rest.to_set() =~= rest.to_set().insert(head));
}

/// A sequence stays ascending when something that precedes all of it is
/// put in front.
proof fn lemma_ascending_from(head: Txid, rest: Seq<Txid>)
    requires
        ascending(rest),
        forall|i: int| 0 <= i < rest.len() ==> lex_lt(head@, #[trigger] rest[i]@),
    ensures
        ascending(seq![head] + rest),
{
    let all = seq![head] + rest;
    assert forall|i: int, j: int| 0 <= i < j < all.len() implies lex_lt(
        #[trigger] all[i]@,
        #[trigger] all[j]@,
    ) by {
        assert(all[j] == rest[j - 1]);
        if i > 0 {
            assert(all[i] == rest[i - 1]);
        }
    }
}

/// The rest of an ascending sequence is ascending, and its first element
/// precedes all of the rest.
proof fn lemma_ascending_rest(s: Seq<Txid>)
    requires
        ascending(s),
        s.len() > 0,
    ensures
        ascending(s.drop_first()),
        forall|i: int| 0 <= i < s.drop_first().len() ==> lex_lt(s[0]@, #[trigger] s.drop_first()[i]@),
        s == seq![s[0]] + s.drop_first(),
{
    let t = s.drop_first();
    assert forall|i: int, j: int| 0 <= i < j < t.len() implies lex_lt(
        #[trigger] t[i]@,
        #[trigger] t[j]@,
    ) by {
        assert(lex_lt(s[i + 1]@, s[j + 1]@));
    }
    assert forall|i: int| 0 <= i < t.len() implies lex_lt(s[0]@, #[trigger] t[i]@) by {
        assert(lex_lt(s[0]@, s[i + 1]@));
    }
    assert(s =~= seq![s[0]] + t);
}

/// Putting an identifier into an ascending sequence keeps it ascending and
/// adds exactly that identifier to what it holds.
pub proof fn lemma_insert_sorted(s: Seq<Txid>, id: Txid)
    requires
        ascending(s),
    ensures
        ascending(insert_sorted(s, id)),
        insert_sorted(s, id).to_set() == s.to_set().insert(id),
    decreases s.len(),
{
    if s.len() == 0 {
        lemma_first_and_rest(id, s);
        assert(seq![id] + s =~= seq![id]);
    } else {
        let t = s.drop_first();
        lemma_ascending_rest(s);
        lemma_first_and_rest(s[0], t);
        if lex_lt(id@, s[0]@) {
            lemma_first_and_rest(id, s);
            assert forall|i: int| 0 <= i < s.len() implies lex_lt(id@, #[trigger] s[i]@) by {
                if i > 0 {
                    assert(lex_lt(s[0]@, t[i - 1]@));
                    lemma_lex_transitive(id@, s[0]@, s[i]@);
                }
            }
            lemma_ascending_from(id, s);
        } else if id == s[0] {
            assert(s.to_set().insert(id) =~= s.to_set());
        } else {
            let u = insert_sorted(t, id);
            lemma_insert_sorted(t, id);
            lemma_first_and_rest(s[0], u);
            assert(u.to_set().insert(s[0]) =~= s.to_set().insert(id));
            lemma_lex_total(id@, s[0]@);
            if id@ == s[0]@ {
                lemma_txid_by_bytes(id, s[0]);
            }
            assert forall|i: int| 0 <= i < u.len() implies lex_lt(s[0]@, #[trigger] u[i]@) by {
                assert(u.to_set().contains(u[i]));
                if u[i] != id {
                    let k = choose|k: int| 0 <= k < t.len() && t[k] == u[i];
                    assert(lex_lt(s[0]@, t[k]@));
                }
            }
            lemma_ascending_from(s[0], u);
        }
    }
}

/// Putting several identifiers into an ascending sequence keeps it
/// ascending and adds exactly those identifiers to what it holds.
pub proof fn lemma_insert_all(s: Seq<Txid>, ids: Seq<Txid>)
    requires
        ascending(s),
    ensures
        ascending(insert_all(s, ids)),
        insert_all(s, ids).to_set() == s.to_set().union(ids.to_set()),
    decreases ids.len(),
{
    if ids.len() == 0 {
        assert(s.to_set().union(ids.to_set()) =~= s.to_set());
    } else {
        let front = ids.drop_last();
        lemma_insert_all(s, front);
        lemma_insert_sorted(insert_all(s, front), ids.last());
        front.lemma_push_to_set_commute(ids.last());
        assert(front.push(ids.last()) =~= ids);
        assert(insert_all(s, ids).to_set() =~= s.to_set().union(ids.to_set()));
    }
}

/// Where `id` belongs in the ascending sequence `s`: everything before
/// position `p` precedes it, and what stands at `p` does not.
spec fn is_place(s: Seq<Txid>, id: Txid, p: int) -> bool {
    &&& 0 <= p <= s.len()
    &&& forall|j: int| 0 <= j < p ==> lex_lt(#[trigger] s[j]@, id@)
    &&& p < s.len() ==> !lex_lt(s[p]@, id@)
}

/// Putting an identifier into an ascending sequence is inserting it at
/// its place, unless it stands there already.
proof fn lemma_insert_at_place(s: Seq<Txid>, id: Txid, p: int)
    requires
        ascending(s),
        is_place(s, id, p),
    ensures
        p < s.len() && s[p] == id ==> insert_sorted(s, id) == s,
        !(p < s.len() && s[p] == id) ==> insert_sorted(s, id) == s.insert(p, id),
    decreases s.len(),
{
    if s.len() == 0 {
        assert(s.insert(0, id) =~= seq![id]);
    } else if p == 0 {
        lemma_lex_total(id@, s[0]@);
        if id@ == s[0]@ {
            lemma_txid_by_bytes(id, s[0]);
        } else {
            assert(s.insert(0, id) =~= seq![id] + s);
        }
    } else {
        let t = s.drop_first();
        assert(lex_lt(s[0]@, id@));
        lemma_lex_asymmetric(s[0]@, id@);
        lemma_lex_irreflexive(id@);
        lemma_ascending_rest(s);
        assert(is_place(t, id, p - 1)) by {
            assert forall|j: int| 0 <= j < p - 1 implies lex_lt(#[trigger] t[j]@, id@) by {
                assert(lex_lt(s[j + 1]@, id@));
            }
        }
        lemma_insert_at_place(t, id, p - 1);
        if !(p < s.len() && s[p] == id) {
            assert(seq![s[0]] + t.insert(p - 1, id) =~= s.insert(p, id));
        }
    }
}

/// A set of transaction identifiers, kept in ascending order with each
/// identifier held once.
pub struct TxidSet {
    ids: Vec<Txid>,
}

impl View for TxidSet {
    type V = Seq<Txid>;

    /// The identifiers in ascending order.
    closed spec fn view(&self) -> Seq<Txid> {
        self.ids@
    }
}

impl TxidSet {
    #[verifier::type_invariant]
    spec fn well_formed(self) -> bool {
        ascending(self.ids@)
    }

    /// The empty set.
    pub fn new() -> (set: TxidSet)
        ensures
            set@ == Seq::<Txid>::empty(),
    {
        TxidSet { ids: Vec::new() }
    }

    /// The number of identifiers held.
    pub fn len(&self) -> (n: usize)
        ensures
            n == self@.len(),
            ascending(self@),
    {
        proof {
            use_type_invariant(self);
        }
        self.ids.len()
    }

    /// The identifier at position `i` of the ascending order.
    pub fn get(&self, i: usize) -> (id: Txid)
        requires
            i < self@.len(),
        ensures
            id == self@[i as int],
    {
        self.ids[i]
    }

    /// Whether the set holds `id`.
    pub fn contains(&self, id: &Txid) -> (found: bool)
        ensures
            found == self@.contains(*id),
    {
        let mut p: usize = 0;
        while p < self.ids.len()
            invariant
                0 <= p <= self.ids@.len(),
                forall|j: int| 0 <= j < p ==> self.ids@[j] != *id,
            decreases self.ids@.len() - p,
        {
            if self.ids[p].same(id) {
                return true;
            }
            p += 1;
        }
        false
    }

    /// Adds `id` to the set; a set that holds it already stays as it is.
    pub fn insert(&mut self, id: Txid)
        ensures
            final(self)@ == insert_sorted(old(self)@, id),
            final(self)@.to_set() == old(self)@.to_set().insert(id),
            ascending(old(self)@),
            ascending(final(self)@),
    {
        proof {
            use_type_invariant(&*self);
        }
        let mut p: usize = 0;
        while p < self.ids.len() && self.ids[p].precedes(&id)
            invariant
                0 <= p <= self.ids@.len(),
                forall|j: int| 0 <= j < p ==> lex_lt(#[trigger] self.ids@[j]@, id@),
            decreases self.ids@.len() - p,
        {
            p += 1;
        }
        proof {
            assert(is_place(self.ids@, id, p as int));
            lemma_insert_at_place(self.ids@, id, p as int);
            lemma_insert_sorted(self.ids@, id);
        }
        if p < self.ids.len() && self.ids[p].same(&id) {
            return ;
        }
        let mut ids: Vec<Txid> = Vec::new();
        core::mem::swap(&mut ids, &mut self.ids);
        ids.insert(p, id);
        self.ids = ids;
    }
}

} // verus!
