//! Facts about sequences that the contracts of this crate rest on.
use vstd::prelude::*;

verus! {

/// Filtering a prefix one element longer adds that element exactly when it
/// passes the predicate.
pub proof fn lemma_filter_take_step<A>(s: Seq<A>, pred: spec_fn(A) -> bool, i: int)
    requires
        0 <= i < s.len(),
    ensures
        s.take(i + 1).filter(pred) == (if pred(s[i]) {
            s.take(i).filter(pred).push(s[i])
        } else {
            s.take(i).filter(pred)
        }),
{
    reveal(Seq::filter);
    assert(s.take(i + 1).drop_last() =~= s.take(i));
}

/// An element occurs in a sequence extended by `x` exactly when it occurred
/// before or is `x`.
pub proof fn lemma_push_contains<A>(s: Seq<A>, x: A, y: A)
    ensures
        s.push(x).contains(y) == (s.contains(y) || x == y),
{
    if s.contains(y) {
        let k = choose|k: int| 0 <= k < s.len() && s[k] == y;
        assert(s.push(x)[k] == y);
    }
    if x == y {
        assert(s.push(x)[s.len() as int] == y);
    }
    if s.push(x).contains(y) {
        let k = choose|k: int| 0 <= k < s.push(x).len() && s.push(x)[k] == y;
        if k < s.len() {
            assert(s[k] == y);
        }
    }
}

/// Replacing, by one that the predicate also drops, an element that it drops
/// leaves the filtered sequence as it was.
pub proof fn lemma_filter_update_dropped<A>(s: Seq<A>, pred: spec_fn(A) -> bool, i: int, x: A)
    requires
        0 <= i < s.len(),
        !pred(s[i]),
        !pred(x),
    ensures
        s.update(i, x).filter(pred) == s.filter(pred),
{
    broadcast use Seq::filter_distributes_over_add;

    reveal(Seq::filter);
    let a = s.take(i);
    let b = s.skip(i + 1);
    assert(s =~= a + seq![s[i]] + b);
    assert(s.update(i, x) =~= a + seq![x] + b);
    assert(seq![s[i]].drop_last() =~= Seq::<A>::empty());
    assert(seq![x].drop_last() =~= Seq::<A>::empty());
    assert(Seq::<A>::empty().filter(pred) =~= Seq::<A>::empty());
    assert(seq![s[i]].filter(pred) =~= Seq::<A>::empty());
    assert(seq![x].filter(pred) =~= Seq::<A>::empty());
    assert((a + seq![s[i]] + b).filter(pred) == (a + seq![s[i]]).filter(pred) + b.filter(pred));
    assert((a + seq![x] + b).filter(pred) == (a + seq![x]).filter(pred) + b.filter(pred));
    assert((a + seq![s[i]]).filter(pred) == a.filter(pred) + seq![s[i]].filter(pred));
    assert((a + seq![x]).filter(pred) == a.filter(pred) + seq![x].filter(pred));
    assert(a.filter(pred) + Seq::<A>::empty() =~= a.filter(pred));
}

/// A filter that keeps every element keeps the sequence.
pub proof fn lemma_filter_all<A>(s: Seq<A>, pred: spec_fn(A) -> bool)
    requires
        forall|i: int| 0 <= i < s.len() ==> pred(#[trigger] s[i]),
    ensures
        s.filter(pred) == s,
    decreases s.len(),
{
    reveal(Seq::filter);
    if s.len() > 0 {
        lemma_filter_all(s.drop_last(), pred);
        assert(s.drop_last().push(s.last()) =~= s);
    }
}

/// Every element a filter keeps comes from the filtered sequence.
pub proof fn lemma_filter_is_subseq<A>(s: Seq<A>, pred: spec_fn(A) -> bool, i: int)
    requires
        0 <= i < s.filter(pred).len(),
    ensures
        exists|j: int| 0 <= j < s.len() && s[j] == s.filter(pred)[i],
    decreases s.len(),
{
    reveal(Seq::filter);
    if s.len() > 0 {
        let sub = s.drop_last().filter(pred);
        if i < sub.len() {
            lemma_filter_is_subseq(s.drop_last(), pred, i);
            let j = choose|j: int| 0 <= j < s.drop_last().len() && s.drop_last()[j] == sub[i];
            assert(s[j] == s.filter(pred)[i]);
        } else {
            assert(s[s.len() - 1] == s.filter(pred)[i]);
        }
    }
}

/// Filtering twice is filtering once by both predicates.
pub proof fn lemma_filter_filter<A>(s: Seq<A>, p: spec_fn(A) -> bool, q: spec_fn(A) -> bool, pq: spec_fn(A) -> bool)
    requires
        forall|x: A| #[trigger] pq(x) == (p(x) && q(x)),
    ensures
        s.filter(p).filter(q) == s.filter(pq),
    decreases s.len(),
{
    reveal(Seq::filter);
    if s.len() > 0 {
        lemma_filter_filter(s.drop_last(), p, q, pq);
        let sub = s.drop_last().filter(p);
        if p(s.last()) {
            assert(sub.push(s.last()).drop_last() =~= sub);
        }
    }
}

} // verus!
