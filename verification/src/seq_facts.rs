//! Facts about sequences that the table operations rely on.

use vstd::prelude::*;

verus! {

/// Filtering one more element of a prefix.
pub proof fn lemma_filter_take_step<A>(s: Seq<A>, pred: spec_fn(A) -> bool, i: int)
    requires
        0 <= i < s.len(),
    ensures
        s.take(i + 1).filter(pred) == (if pred(s[i]) {
            s.take(i).filter(pred).push(s[i])
        } else {
            s.take(i).filter(pred)
        }),
{
    reveal(Seq::filter);
    assert(s.take(i + 1).drop_last() =~= s.take(i));
    assert(s.take(i + 1).last() == s[i]);
}

/// Every element of a filtered sequence is an element of the original.
pub proof fn lemma_filter_member<A>(s: Seq<A>, pred: spec_fn(A) -> bool, k: int)
    requires
        0 <= k < s.filter(pred).len(),
    ensures
        exists|i: int| 0 <= i < s.len() && s[i] == s.filter(pred)[k],
        pred(s.filter(pred)[k]),
{
    s.lemma_filter_pred(pred, k);
    assert(s.filter(pred).contains(s.filter(pred)[k]));
    s.lemma_filter_contains_rev(pred, s.filter(pred)[k]);
}

/// A relation that holds of every ordered pair of a sequence holds of every
/// ordered pair of any of its filterings.
pub proof fn lemma_filter_pairwise<A>(
    s: Seq<A>,
    pred: spec_fn(A) -> bool,
    rel: spec_fn(A, A) -> bool,
)
    requires
        forall|i: int, j: int| 0 <= i < j < s.len() ==> rel(s[i], s[j]),
    ensures
        forall|i: int, j: int|
            0 <= i < j < s.filter(pred).len() ==> rel(s.filter(pred)[i], s.filter(pred)[j]),
    decreases s.len(),
{
    reveal(Seq::filter);
    if s.len() > 0 {
        let init = s.drop_last();
        lemma_filter_pairwise(init, pred, rel);
        let f = init.filter(pred);
        if pred(s.last()) {
            assert forall|i: int, j: int|
                0 <= i < j < s.filter(pred).len() implies rel(
                s.filter(pred)[i],
                s.filter(pred)[j],
            ) by {
                assert(s.filter(pred) == f.push(s.last()));
                if j == f.len() {
                    lemma_filter_member(init, pred, i);
                    let k = choose|k: int| 0 <= k < init.len() && init[k] == f[i];
                    assert(s[k] == f[i]);
                }
            }
        }
    }
}

/// Two sequences with the same elements (counted) still have the same
/// elements after mapping.
pub proof fn lemma_multiset_map<A, B>(s1: Seq<A>, s2: Seq<A>, f: spec_fn(A) -> B)
    requires
        s1.to_multiset() == s2.to_multiset(),
    ensures
        s1.map_values(f).to_multiset() == s2.map_values(f).to_multiset(),
    decreases s1.len(),
{
    broadcast use vstd::seq_lib::group_to_multiset_ensures, vstd::multiset::group_multiset_axioms;

    if s1.len() == 0 {
        vstd::seq_lib::to_multiset_len(s2);
        vstd::seq_lib::to_multiset_len(s1);
        assert(s2.len() == 0);
        assert(s1.map_values(f) =~= Seq::<B>::empty());
        assert(s2.map_values(f) =~= Seq::<B>::empty());
    } else {
        let x = s1.last();
        let init = s1.drop_last();
        assert(s1 =~= init.push(x));
        vstd::seq_lib::to_multiset_build(init, x);
        assert(s2.to_multiset().count(x) > 0);
        vstd::seq_lib::to_multiset_contains(s2, x);
        let k = choose|k: int| 0 <= k < s2.len() && s2[k] == x;
        let rest = s2.remove(k);
        vstd::seq_lib::to_multiset_remove(s2, k);
        assert(init.to_multiset() =~= rest.to_multiset());
        lemma_multiset_map(init, rest, f);
        assert(s1.map_values(f) =~= init.map_values(f).push(f(x)));
        vstd::seq_lib::to_multiset_build(init.map_values(f), f(x));
        assert(s2.map_values(f) =~= rest.map_values(f).insert(k, f(x)));
        vstd::seq_lib::to_multiset_insert(rest.map_values(f), k, f(x));
    }
}

/// Elements of a sequence are elements of any sequence with the same
/// elements (counted).
pub proof fn lemma_multiset_member<A>(s1: Seq<A>, s2: Seq<A>, k: int)
    requires
        s1.to_multiset() == s2.to_multiset(),
        0 <= k < s1.len(),
    ensures
        exists|j: int| 0 <= j < s2.len() && s2[j] == s1[k],
{
    vstd::seq_lib::to_multiset_contains(s1, s1[k]);
    vstd::seq_lib::to_multiset_contains(s2, s1[k]);
    assert(s2.contains(s1[k]));
}

/// Filtering keeps a sequence whole when every element passes.
pub proof fn lemma_filter_all<A>(s: Seq<A>, pred: spec_fn(A) -> bool)
    requires
        forall|i: int| 0 <= i < s.len() ==> pred(#[trigger] s[i]),
    ensures
        s.filter(pred) == s,
    decreases s.len(),
{
    reveal(Seq::filter);
    if s.len() == 0 {
        assert(s.filter(pred) =~= s);
    } else {
        let init = s.drop_last();
        assert forall|i: int| 0 <= i < init.len() implies pred(#[trigger] init[i]) by {
            assert(init[i] == s[i]);
        }
        lemma_filter_all(init, pred);
        assert(pred(s[s.len() - 1]));
        assert(init.push(s.last()) =~= s);
    }
}

} // verus!
