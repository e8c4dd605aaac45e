//! Facts about filtered sequences.

use vstd::prelude::*;

verus! {

/// Filtering a sequence with one more element at its end.
pub proof fn lemma_filter_push<A>(s: Seq<A>, p: spec_fn(A) -> bool, x: A)
    ensures
        s.push(x).filter(p) == if p(x) {
            s.filter(p).push(x)
        } else {
            s.filter(p)
        },
{
    reveal(Seq::filter);
    assert(s.push(x).drop_last() =~= s);
}

/// A filter that every element passes changes nothing.
pub proof fn lemma_filter_keeps_all<A>(s: Seq<A>, p: spec_fn(A) -> bool)
    requires
        forall|i: int| 0 <= i < s.len() ==> p(#[trigger] s[i]),
    ensures
        s.filter(p) == s,
    decreases s.len(),
{
    reveal(Seq::filter);
    if s.len() > 0 {
        lemma_filter_keeps_all(s.drop_last(), p);
        assert(s.drop_last().push(s.last()) =~= s);
    }
}

/// A filter that no element passes leaves nothing.
pub proof fn lemma_filter_keeps_none<A>(s: Seq<A>, p: spec_fn(A) -> bool)
    requires
        forall|i: int| 0 <= i < s.len() ==> !p(#[trigger] s[i]),
    ensures
        s.filter(p) == Seq::<A>::empty(),
    decreases s.len(),
{
    reveal(Seq::filter);
    if s.len() > 0 {
        lemma_filter_keeps_none(s.drop_last(), p);
    }
}

/// The element at `i` passes or fails on its own: the filter of the whole is
/// the filter of what stands before it, the element if it passes, and the
/// filter of what stands after it.
pub proof fn lemma_filter_split<A>(s: Seq<A>, p: spec_fn(A) -> bool, i: int)
    requires
        0 <= i < s.len(),
    ensures
        s.filter(p) == s.subrange(0, i).filter(p) + (if p(s[i]) {
            seq![s[i]]
        } else {
            Seq::<A>::empty()
        }) + s.subrange(i + 1, s.len() as int).filter(p),
        s.remove(i).filter(p) == s.subrange(0, i).filter(p) + s.subrange(
            i + 1,
            s.len() as int,
        ).filter(p),
{
    let before = s.subrange(0, i);
    let after = s.subrange(i + 1, s.len() as int);
    let one = seq![s[i]];
    assert(s =~= before + one + after);
    assert(s.remove(i) =~= before + after);
    Seq::filter_distributes_over_add(before + one, after, p);
    Seq::filter_distributes_over_add(before, one, p);
    Seq::filter_distributes_over_add(before, after, p);
    lemma_filter_push(Seq::<A>::empty(), p, s[i]);
    assert(Seq::<A>::empty().push(s[i]) =~= one);
    lemma_filter_keeps_none(Seq::<A>::empty(), p);
}

/// Replacing the element at `i` replaces its share of the filter.
pub proof fn lemma_filter_update<A>(s: Seq<A>, p: spec_fn(A) -> bool, i: int, x: A)
    requires
        0 <= i < s.len(),
    ensures
        s.update(i, x).filter(p) == s.subrange(0, i).filter(p) + (if p(x) {
            seq![x]
        } else {
            Seq::<A>::empty()
        }) + s.subrange(i + 1, s.len() as int).filter(p),
{
    let t = s.update(i, x);
    lemma_filter_split(t, p, i);
    assert(t.subrange(0, i) =~= s.subrange(0, i));
    assert(t.subrange(i + 1, t.len() as int) =~= s.subrange(i + 1, s.len() as int));
}

} // verus!
