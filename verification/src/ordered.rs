//! Facts about ordered integer-triple keys and listings of them.

use vstd::prelude::*;
use vstd::std_specs::btree::group_btree_axioms;
use vstd::laws_cmp::group_laws_cmp;
use vstd::std_specs::cmp::OrdSpec;

use crate::geometry::Vec3i;

verus! {

broadcast use {group_btree_axioms, group_laws_cmp};

/// Lexicographic order on integer triples (the order of [`Vec3i`]).
pub open spec fn lex_lt(a: (i32, i32, i32), b: (i32, i32, i32)) -> bool {
    ||| a.0 < b.0
    ||| (a.0 == b.0 && a.1 < b.1)
    ||| (a.0 == b.0 && a.1 == b.1 && a.2 < b.2)
}

/// `v` lists exactly the members of `set`, in strictly increasing order.
pub open spec fn sorted_listing(v: Seq<Vec3i>, set: Set<(i32, i32, i32)>) -> bool {
    &&& forall|i: int, j: int| 0 <= i < j < v.len() ==> lex_lt(v[i].key(), v[j].key())
    &&& forall|i: int| 0 <= i < v.len() ==> set.contains(#[trigger] v[i].key())
    &&& forall|k: (i32, i32, i32)| #[trigger] set.contains(k) ==> exists|i: int|
        0 <= i < v.len() && v[i].key() == k
}

/// Increasing sequences of triples (the iteration order of ordered sets)
/// are lexicographically increasing.
pub broadcast proof fn lemma_increasing_triples(s: Seq<&(i32, i32, i32)>)
    requires
        #[trigger] vstd::std_specs::btree::increasing_seq(s),
    ensures
        forall|i: int, j: int| 0 <= i < j < s.len() ==> lex_lt(*s[i], *s[j]),
{
    assert(vstd::laws_cmp::obeys_cmp::<i32>());
    assert(vstd::laws_cmp::obeys_cmp::<(i32, i32, i32)>());
    assert(vstd::laws_cmp::obeys_cmp::<&(i32, i32, i32)>());
    vstd::std_specs::btree::axiom_increasing_seq_meaning::<&(i32, i32, i32)>(s);
    assert forall|i: int, j: int| 0 <= i < j < s.len() implies lex_lt(*s[i], *s[j]) by {
        assert(OrdSpec::cmp_spec(&s[i], &s[j]) is Less);
        assert((*s[i]).cmp_spec(&*s[j]) is Less);
    }
}

/// Members of an iteration sequence belong to the set it enumerates.
pub broadcast proof fn lemma_member_of_listing(
    s: Seq<&(i32, i32, i32)>,
    set: Set<(i32, i32, i32)>,
    i: int,
)
    requires
        s.unref().to_set() == set,
        0 <= i < s.len(),
    ensures
        #[trigger] set.contains(*s[i]),
{
    assert(s.unref()[i] == *s[i]);
    assert(s.unref().contains(*s[i]));
}

/// Members of an iteration sequence of integer pairs belong to the set it
/// enumerates.
pub broadcast proof fn lemma_member_of_pair_listing(
    s: Seq<&(i32, i32)>,
    set: Set<(i32, i32)>,
    i: int,
)
    requires
        s.unref().to_set() == set,
        0 <= i < s.len(),
    ensures
        #[trigger] set.contains(*s[i]),
{
    assert(s.unref()[i] == *s[i]);
    assert(s.unref().contains(*s[i]));
}

/// Members of an iteration sequence of dirty-tile keys belong to the set it
/// enumerates.
pub broadcast proof fn lemma_member_of_quad_listing(
    s: Seq<&(i32, i32, i32, u8)>,
    set: Set<(i32, i32, i32, u8)>,
    i: int,
)
    requires
        s.unref().to_set() == set,
        0 <= i < s.len(),
    ensures
        #[trigger] set.contains(*s[i]),
{
    assert(s.unref()[i] == *s[i]);
    assert(s.unref().contains(*s[i]));
}

/// Increasing sequences of dirty-tile keys hold no key twice.
pub broadcast proof fn lemma_increasing_quads_distinct(s: Seq<&(i32, i32, i32, u8)>)
    requires
        #[trigger] vstd::std_specs::btree::increasing_seq(s),
    ensures
        forall|i: int, j: int| 0 <= i < j < s.len() ==> *s[i] != *s[j],
{
    assert(vstd::laws_cmp::obeys_cmp::<i32>());
    assert(vstd::laws_cmp::obeys_cmp::<u8>());
    assert(vstd::laws_cmp::obeys_cmp::<(i32, i32, i32, u8)>());
    assert(vstd::laws_cmp::obeys_cmp::<&(i32, i32, i32, u8)>());
    vstd::std_specs::btree::axiom_increasing_seq_meaning::<&(i32, i32, i32, u8)>(s);
    assert forall|i: int, j: int| 0 <= i < j < s.len() implies *s[i] != *s[j] by {
        assert(OrdSpec::cmp_spec(&s[i], &s[j]) is Less);
        assert((*s[i]).cmp_spec(&*s[j]) is Less);
    }
}

/// Increasing sequences of `u64` keys are strictly increasing.
pub broadcast proof fn lemma_increasing_u64(s: Seq<u64>)
    requires
        #[trigger] vstd::std_specs::btree::increasing_seq(s),
    ensures
        forall|i: int, j: int| 0 <= i < j < s.len() ==> s[i] < s[j],
{
    assert(vstd::laws_cmp::obeys_cmp::<u64>());
    vstd::std_specs::btree::axiom_increasing_seq_meaning::<u64>(s);
    assert forall|i: int, j: int| 0 <= i < j < s.len() implies s[i] < s[j] by {
        assert(OrdSpec::cmp_spec(&s[i], &s[j]) is Less);
    }
}

/// Two strictly increasing sequences (under any asymmetric relation) with
/// the same members are the same sequence.
pub proof fn lemma_strictly_sorted_unique<A>(a: Seq<A>, b: Seq<A>, lt: spec_fn(A, A) -> bool)
    requires
        forall|x: A, y: A| #[trigger] lt(x, y) ==> !lt(y, x),
        forall|i: int, j: int| 0 <= i < j < a.len() ==> lt(a[i], a[j]),
        forall|i: int, j: int| 0 <= i < j < b.len() ==> lt(b[i], b[j]),
        forall|x: A| a.contains(x) <==> b.contains(x),
    ensures
        a == b,
    decreases a.len(),
{
    if a.len() == 0 {
        if b.len() > 0 {
            assert(b.contains(b[0]));
        }
        assert(a =~= b);
    } else {
        assert(a.contains(a[0]));
        let j = choose|j: int| 0 <= j < b.len() && b[j] == a[0];
        assert(b.contains(b[0]));
        let i = choose|i: int| 0 <= i < a.len() && a[i] == b[0];
        if a[0] != b[0] {
            assert(j != 0 && i != 0);
            assert(lt(b[0], b[j]));
            assert(lt(a[0], a[i]));
            assert(false);
        }
        let a1 = a.drop_first();
        let b1 = b.drop_first();
        assert forall|x: A| a1.contains(x) implies b1.contains(x) by {
            let k = choose|k: int| 0 <= k < a1.len() && a1[k] == x;
            assert(a[k + 1] == x);
            assert(lt(a[0], a[k + 1]));
            assert(x != a[0]);
            assert(a.contains(x));
            let m = choose|m: int| 0 <= m < b.len() && b[m] == x;
            assert(m != 0);
            assert(b1[m - 1] == x);
        }
        assert forall|x: A| b1.contains(x) implies a1.contains(x) by {
            let k = choose|k: int| 0 <= k < b1.len() && b1[k] == x;
            assert(b[k + 1] == x);
            assert(lt(b[0], b[k + 1]));
            assert(x != b[0]);
            assert(b.contains(x));
            let m = choose|m: int| 0 <= m < a.len() && a[m] == x;
            assert(m != 0);
            assert(a1[m - 1] == x);
        }
        assert forall|p: int, q: int| 0 <= p < q < a1.len() implies lt(a1[p], a1[q]) by {
            assert(lt(a[p + 1], a[q + 1]));
        }
        assert forall|p: int, q: int| 0 <= p < q < b1.len() implies lt(b1[p], b1[q]) by {
            assert(lt(b[p + 1], b[q + 1]));
        }
        lemma_strictly_sorted_unique(a1, b1, lt);
        assert(a =~= b) by {
            assert forall|k: int| 0 <= k < a.len() implies a[k] == b[k] by {
                if k > 0 {
                    assert(a[k] == a1[k - 1]);
                    assert(b[k] == b1[k - 1]);
                }
            }
        }
    }
}

/// A set has exactly one sorted listing.
pub proof fn lemma_sorted_listing_unique(a: Seq<Vec3i>, b: Seq<Vec3i>, set: Set<(i32, i32, i32)>)
    requires
        sorted_listing(a, set),
        sorted_listing(b, set),
    ensures
        a == b,
{
    let lt = |x: Vec3i, y: Vec3i| lex_lt(x.key(), y.key());
    assert forall|x: Vec3i| a.contains(x) <==> b.contains(x) by {
        if a.contains(x) {
            let i = choose|i: int| 0 <= i < a.len() && a[i] == x;
            assert(set.contains(a[i].key()));
            let j = choose|j: int| 0 <= j < b.len() && b[j].key() == x.key();
            assert(b[j] == x);
        }
        if b.contains(x) {
            let i = choose|i: int| 0 <= i < b.len() && b[i] == x;
            assert(set.contains(b[i].key()));
            let j = choose|j: int| 0 <= j < a.len() && a[j].key() == x.key();
            assert(a[j] == x);
        }
    }
    lemma_strictly_sorted_unique(a, b, lt);
}

} // verus!
