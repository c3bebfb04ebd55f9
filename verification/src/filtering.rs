//! Facts about filtered sequences.

use vstd::prelude::*;

verus! {

/// Where a predicate that holds of an item holds of every item before it, the
/// filter keeps a front part of the sequence: the items it keeps, and no
/// others, stand before the place that their number gives.
pub proof fn lemma_filter_front<A>(s: Seq<A>, pred: spec_fn(A) -> bool)
    requires
        forall|i: int, j: int| 0 <= i < j < s.len() && pred(#[trigger] s[j]) ==> pred(#[trigger] s[i]),
    ensures
        s.filter(pred) == s.take(s.filter(pred).len() as int),
        s.filter(pred).len() <= s.len(),
        forall|i: int| 0 <= i < s.filter(pred).len() ==> pred(#[trigger] s[i]),
        forall|i: int| s.filter(pred).len() <= i < s.len() ==> !pred(#[trigger] s[i]),
    decreases s.len(),
{
    reveal(Seq::filter);
    if s.len() == 0 {
        assert(s.filter(pred) =~= s.take(0));
    } else {
        let front = s.drop_last();
        assert forall|i: int, j: int| 0 <= i < j < front.len() && pred(#[trigger] front[j]) implies pred(
            #[trigger] front[i],
        ) by {
            assert(front[i] == s[i] && front[j] == s[j]);
        }
        lemma_filter_front(front, pred);
        let kept = front.filter(pred).len() as int;
        let last = s.len() - 1;
        if pred(s.last()) {
            assert(pred(s[last]));
            assert forall|i: int| 0 <= i < s.len() implies pred(#[trigger] s[i]) by {
                if i < last {
                    assert(pred(s[last]) ==> pred(s[i]));
                }
            }
            if kept < front.len() {
                assert(front[kept] == s[kept]);
                assert(!pred(front[kept]));
            }
            assert(front.take(kept).push(s.last()) =~= s.take(kept + 1));
        } else {
            assert(front.take(kept) =~= s.take(kept));
            assert forall|i: int| 0 <= i < kept implies pred(#[trigger] s[i]) by {
                assert(front[i] == s[i]);
            }
            assert forall|i: int| kept <= i < s.len() implies !pred(#[trigger] s[i]) by {
                if i < last {
                    assert(front[i] == s[i]);
                }
            }
        }
    }
}

/// A filter keeps items of the sequence only, each of which passes it, and
/// keeps them in their order: a relation that holds from every item to every
/// later one still does so among the items kept.
pub proof fn lemma_filter_keeps_order<A>(
    s: Seq<A>,
    pred: spec_fn(A) -> bool,
    related: spec_fn(A, A) -> bool,
)
    requires
        forall|i: int, j: int| 0 <= i < j < s.len() ==> related(#[trigger] s[i], #[trigger] s[j]),
    ensures
        forall|i: int|
            0 <= i < s.filter(pred).len() ==> s.contains(#[trigger] s.filter(pred)[i]) && pred(
                s.filter(pred)[i],
            ),
        forall|i: int, j: int|
            0 <= i < j < s.filter(pred).len() ==> related(
                #[trigger] s.filter(pred)[i],
                #[trigger] s.filter(pred)[j],
            ),
        forall|i: int| 0 <= i < s.len() && pred(s[i]) ==> s.filter(pred).contains(#[trigger] s[i]),
    decreases s.len(),
{
    reveal(Seq::filter);
    if s.len() > 0 {
        let front = s.drop_last();
        let kept = front.filter(pred);
        lemma_filter_keeps_order(front, pred, related);
        assert forall|i: int| 0 <= i < kept.len() implies s.contains(#[trigger] kept[i])
            && related(kept[i], s.last()) by {
            let k = choose|k: int| 0 <= k < front.len() && front[k] == kept[i];
            assert(s[k] == kept[i]);
        }
        assert forall|i: int| 0 <= i < s.len() && pred(s[i]) implies s.filter(pred).contains(
            #[trigger] s[i],
        ) by {
            if i < front.len() {
                assert(front[i] == s[i]);
                let k = choose|k: int| 0 <= k < kept.len() && kept[k] == front[i];
                assert(s.filter(pred)[k] == s[i]);
            } else {
                assert(s.filter(pred)[kept.len() as int] == s[i]);
            }
        }
    }
}

/// A filter that every item passes keeps the whole sequence.
pub proof fn lemma_filter_all<A>(s: Seq<A>, pred: spec_fn(A) -> bool)
    requires
        forall|i: int| 0 <= i < s.len() ==> pred(#[trigger] s[i]),
    ensures
        s.filter(pred) == s,
    decreases s.len(),
{
    reveal(Seq::filter);
    if s.len() > 0 {
        let front = s.drop_last();
        assert forall|i: int| 0 <= i < front.len() implies pred(#[trigger] front[i]) by {
            assert(front[i] == s[i]);
        }
        lemma_filter_all(front, pred);
        assert(pred(s[s.len() - 1]));
        assert(front.push(s.last()) =~= s);
    }
}

/// A filter that no item passes keeps nothing.
pub proof fn lemma_filter_none<A>(s: Seq<A>, pred: spec_fn(A) -> bool)
    requires
        forall|i: int| 0 <= i < s.len() ==> !pred(#[trigger] s[i]),
    ensures
        s.filter(pred) == Seq::<A>::empty(),
    decreases s.len(),
{
    reveal(Seq::filter);
    if s.len() > 0 {
        let front = s.drop_last();
        assert forall|i: int| 0 <= i < front.len() implies !pred(#[trigger] front[i]) by {
            assert(front[i] == s[i]);
        }
        lemma_filter_none(front, pred);
        assert(!pred(s[s.len() - 1]));
    } else {
        assert(s =~= Seq::<A>::empty());
    }
}

/// A filter that every item passes but the one at `at` removes that item.
pub proof fn lemma_filter_one_out<A>(s: Seq<A>, pred: spec_fn(A) -> bool, at: int)
    requires
        0 <= at < s.len(),
        !pred(s[at]),
        forall|i: int| 0 <= i < s.len() && i != at ==> pred(#[trigger] s[i]),
    ensures
        s.filter(pred) == s.remove(at),
    decreases s.len(),
{
    reveal(Seq::filter);
    let front = s.drop_last();
    if at == s.len() - 1 {
        assert forall|i: int| 0 <= i < front.len() implies pred(#[trigger] front[i]) by {
            assert(front[i] == s[i]);
        }
        lemma_filter_all(front, pred);
        assert(front =~= s.remove(at));
    } else {
        assert forall|i: int| 0 <= i < front.len() && i != at implies pred(#[trigger] front[i]) by {
            assert(front[i] == s[i]);
        }
        assert(front[at] == s[at]);
        lemma_filter_one_out(front, pred, at);
        assert(pred(s[s.len() - 1]));
        assert(front.remove(at).push(s.last()) =~= s.remove(at));
    }
}

/// Filtering twice is filtering once, where whatever passes the second
/// filter passes the first.
pub proof fn lemma_filter_twice<A>(s: Seq<A>, first: spec_fn(A) -> bool, second: spec_fn(A) -> bool)
    requires
        forall|a: A| #[trigger] second(a) ==> first(a),
    ensures
        s.filter(first).filter(second) == s.filter(second),
    decreases s.len(),
{
    reveal(Seq::filter);
    if s.len() > 0 {
        let front = s.drop_last();
        lemma_filter_twice(front, first, second);
        front.filter(first).lemma_filter_push(s.last(), second);
    }
}

} // verus!
