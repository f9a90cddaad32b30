use vstd::prelude::*;
use vstd::seq_lib::{to_multiset_build, to_multiset_insert, group_to_multiset_ensures};

verus! {

/// How the items chosen by `p` among the first `i + 1` entries, and what `f`
/// makes of them, follow from those among the first `i`.
pub proof fn lemma_select_next<A, B>(s: Seq<A>, p: spec_fn(A) -> bool, f: spec_fn(A) -> B, i: int)
    requires
        0 <= i < s.len(),
    ensures
        s.take(i + 1).filter(p) == if p(s[i]) {
            s.take(i).filter(p).push(s[i])
        } else {
            s.take(i).filter(p)
        },
        s.take(i + 1).filter(p).map_values(f) == if p(s[i]) {
            s.take(i).filter(p).map_values(f).push(f(s[i]))
        } else {
            s.take(i).filter(p).map_values(f)
        },
{
    s.lemma_take_succ_push(i);
    s.take(i).lemma_filter_push(s[i], p);
    s.take(i).filter(p).lemma_push_map_commute(f, s[i]);
}

/// What holds of every entry holds of every entry that `p` chooses, and `p` as well.
pub proof fn lemma_filter_keeps<A>(s: Seq<A>, p: spec_fn(A) -> bool, q: spec_fn(A) -> bool)
    requires
        forall|i: int| 0 <= i < s.len() ==> q(#[trigger] s[i]),
    ensures
        forall|j: int|
            0 <= j < s.filter(p).len() ==> q(#[trigger] s.filter(p)[j]) && p(s.filter(p)[j]),
{
    let kept = s.filter(p);
    assert forall|j: int| 0 <= j < kept.len() implies q(#[trigger] kept[j]) && p(kept[j]) by {
        s.lemma_filter_pred(p, j);
        assert(kept.contains(kept[j]));
        s.lemma_filter_contains_rev(p, kept[j]);
        let i = choose|i: int| 0 <= i < s.len() && s[i] == kept[j];
        assert(q(s[i]));
    }
}

/// Counting in two rounds: where every entry that `r` chooses is chosen in
/// exactly one of two rounds, by `p` in the first or by `q` in the second, the
/// two rounds together choose as many entries as `r` does.
pub proof fn lemma_two_rounds<A>(
    s: Seq<A>,
    t: Seq<A>,
    p: spec_fn(A) -> bool,
    q: spec_fn(A) -> bool,
    r: spec_fn(A) -> bool,
)
    requires
        s.len() == t.len(),
        forall|i: int|
            0 <= i < t.len() ==> (r(#[trigger] t[i]) <==> p(s[i]) || q(t[i])) && !(p(s[i]) && q(
                t[i],
            )),
    ensures
        s.filter(p).len() + t.filter(q).len() == t.filter(r).len(),
    decreases s.len(),
{
    if s.len() == 0 {
        s.lemma_filter_len(p);
        t.lemma_filter_len(q);
        t.lemma_filter_len(r);
    } else {
        let n = s.len() - 1;
        assert(s.take(n + 1) =~= s);
        assert(t.take(n + 1) =~= t);
        assert(s.take(n) =~= s.drop_last());
        assert(t.take(n) =~= t.drop_last());
        assert forall|i: int| 0 <= i < t.drop_last().len() implies (r(#[trigger] t.drop_last()[i])
            <==> p(s.drop_last()[i]) || q(t.drop_last()[i])) && !(p(s.drop_last()[i]) && q(
            t.drop_last()[i],
        )) by {
            assert(t.drop_last()[i] == t[i]);
        }
        lemma_two_rounds(s.drop_last(), t.drop_last(), p, q, r);
        lemma_select_next(s, p, |a: A| a, n);
        lemma_select_next(t, q, |a: A| a, n);
        lemma_select_next(t, r, |a: A| a, n);
        assert(r(t[n]) <==> p(s[n]) || q(t[n]));
    }
}

/// What a function makes of the entries of a sequence does not depend, as a
/// collection, on the order of the entries.
pub proof fn lemma_map_any_order<A, B>(first: Seq<A>, second: Seq<A>, f: spec_fn(A) -> B)
    requires
        first.to_multiset() == second.to_multiset(),
    ensures
        first.map_values(f).to_multiset() == second.map_values(f).to_multiset(),
    decreases first.len(),
{
    broadcast use group_to_multiset_ensures;

    assert(first.len() == first.to_multiset().len());
    assert(second.len() == second.to_multiset().len());
    if first.len() == 0 {
        assert(first.map_values(f) =~= second.map_values(f));
    } else {
        let x = first.last();
        let front = first.drop_last();
        assert(first =~= front.push(x));
        assert(first.to_multiset().count(x) > 0);
        assert(second.contains(x));
        let j = choose|j: int| 0 <= j < second.len() && second[j] == x;
        let rest = second.remove(j);
        assert(front.to_multiset() =~= rest.to_multiset());
        lemma_map_any_order(front, rest, f);
        assert(first.map_values(f) =~= front.map_values(f).push(f(x)));
        assert(second.map_values(f) =~= rest.map_values(f).insert(j, f(x)));
        to_multiset_insert(rest.map_values(f), j, f(x));
        to_multiset_build(front.map_values(f), f(x));
    }
}

} // verus!
