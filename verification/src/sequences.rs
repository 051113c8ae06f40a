//! Facts about sequences.

use vstd::prelude::*;

verus! {

/// The rows that pass, in the order they have.
pub(crate) fn retain<T: DeepView, F: Fn(&T) -> bool>(
    rows: Vec<T>,
    passes: F,
    Ghost(pred): Ghost<spec_fn(T::V) -> bool>,
) -> (r: Vec<T>)
    requires
        forall|x: &T| call_requires(passes, (x,)),
        forall|x: &T, b: bool| call_ensures(passes, (x,), b) ==> b == pred(x.deep_view()),
    ensures
        r.deep_view() == rows.deep_view().filter(pred),
{
    let ghost all = rows.deep_view();
    let mut kept: Vec<T> = Vec::new();
    proof {
        reveal(Seq::filter);
        assert(kept.deep_view() =~= all.take(0).filter(pred));
    }
    for row in it: rows
        invariant
            it.seq() == rows@,
            rows.deep_view() == all,
            forall|x: &T| call_requires(passes, (x,)),
            forall|x: &T, b: bool| call_ensures(passes, (x,), b) ==> b == pred(x.deep_view()),
            kept.deep_view() == all.take(it.index()).filter(pred),
    {
        let ghost so_far = kept.deep_view();
        let ghost this = row.deep_view();
        proof {
            lemma_filter_take(all, it.index(), pred);
        }
        assert(this == all[it.index()]);
        if passes(&row) {
            kept.push(row);
            assert(kept.deep_view() =~= so_far.push(this));
        }
    }
    assert(all.take(all.len() as int) =~= all);
    kept
}

/// Filtering one element more.
pub proof fn lemma_filter_take<A>(s: Seq<A>, i: int, pred: spec_fn(A) -> bool)
    requires
        0 <= i < s.len(),
    ensures
        s.take(i + 1).filter(pred) == if pred(s[i]) {
            s.take(i).filter(pred).push(s[i])
        } else {
            s.take(i).filter(pred)
        },
{
    reveal(Seq::filter);
    assert(s.take(i + 1).drop_last() =~= s.take(i));
    assert(s.take(i + 1).last() == s[i]);
}

/// What a sequence with one element more contains.
pub proof fn lemma_push_contains<A>(s: Seq<A>, x: A)
    ensures
        forall|y: A| #[trigger] s.push(x).contains(y) <==> s.contains(y) || x == y,
{
    assert forall|y: A| #[trigger] s.push(x).contains(y) <==> s.contains(y) || x == y by {
        if s.contains(y) {
            let k = choose|k: int| 0 <= k < s.len() && s[k] == y;
            assert(s.push(x)[k] == y);
        }
        if x == y {
            assert(s.push(x)[s.len() as int] == y);
        }
        if s.push(x).contains(y) {
            let k = choose|k: int| 0 <= k < s.push(x).len() && s.push(x)[k] == y;
            if k < s.len() {
                assert(s[k] == y);
            }
        }
    }
}

/// An element is in the filtered sequence exactly if it is in the sequence and passes.
pub proof fn lemma_filter_contains_iff<A>(s: Seq<A>, pred: spec_fn(A) -> bool, x: A)
    ensures
        s.filter(pred).contains(x) <==> s.contains(x) && pred(x),
    decreases s.len(),
{
    reveal(Seq::filter);
    if s.len() > 0 {
        let front = s.drop_last();
        lemma_filter_contains_iff(front, pred, x);
        assert(s =~= front.push(s.last()));
        if s.contains(x) {
            let k = choose|k: int| 0 <= k < s.len() && s[k] == x;
            if k < front.len() {
                assert(front[k] == x);
            }
        }
        if front.contains(x) {
            let k = choose|k: int| 0 <= k < front.len() && front[k] == x;
            assert(s[k] == x);
        }
        let kept = front.filter(pred);
        if pred(s.last()) {
            assert(s.filter(pred) == kept.push(s.last()));
            if kept.contains(x) {
                let k = choose|k: int| 0 <= k < kept.len() && kept[k] == x;
                assert(kept.push(s.last())[k] == x);
            }
            if x == s.last() {
                assert(kept.push(s.last())[kept.len() as int] == x);
            }
        }
    }
}

/// Filtering by a predicate and by its opposite splits the sequence in two.
pub proof fn lemma_filter_split_len<A>(s: Seq<A>, pred: spec_fn(A) -> bool, opposite: spec_fn(A) -> bool)
    requires
        forall|x: A| #[trigger] opposite(x) == !pred(x),
    ensures
        s.filter(pred).len() + s.filter(opposite).len() == s.len(),
    decreases s.len(),
{
    reveal(Seq::filter);
    if s.len() > 0 {
        lemma_filter_split_len(s.drop_last(), pred, opposite);
        assert(opposite(s.last()) == !pred(s.last()));
    }
}

/// A filter that lets everything pass changes nothing.
pub proof fn lemma_filter_all<A>(s: Seq<A>, pred: spec_fn(A) -> bool)
    requires
        forall|i: int| 0 <= i < s.len() ==> pred(#[trigger] s[i]),
    ensures
        s.filter(pred) == s,
    decreases s.len(),
{
    reveal(Seq::filter);
    if s.len() > 0 {
        let front = s.drop_last();
        assert forall|i: int| 0 <= i < front.len() implies pred(#[trigger] front[i]) by {
            assert(front[i] == s[i]);
        }
        lemma_filter_all(front, pred);
        assert(pred(s[s.len() - 1]));
        assert(front.push(s.last()) =~= s);
    } else {
        assert(s.filter(pred) =~= s);
    }
}

/// Filters that agree on the elements give the same.
pub proof fn lemma_filter_alike<A>(s: Seq<A>, p: spec_fn(A) -> bool, q: spec_fn(A) -> bool)
    requires
        forall|i: int| 0 <= i < s.len() ==> p(#[trigger] s[i]) == q(s[i]),
    ensures
        s.filter(p) == s.filter(q),
    decreases s.len(),
{
    reveal(Seq::filter);
    if s.len() > 0 {
        let front = s.drop_last();
        assert forall|i: int| 0 <= i < front.len() implies p(#[trigger] front[i]) == q(front[i]) by {
            assert(front[i] == s[i]);
        }
        lemma_filter_alike(front, p, q);
        assert(p(s[s.len() - 1]) == q(s[s.len() - 1]));
    }
}

/// Filtering twice is filtering by both.
pub proof fn lemma_filter_filter<A>(
    s: Seq<A>,
    p: spec_fn(A) -> bool,
    q: spec_fn(A) -> bool,
    both: spec_fn(A) -> bool,
)
    requires
        forall|i: int| 0 <= i < s.len() ==> both(#[trigger] s[i]) == (p(s[i]) && q(s[i])),
    ensures
        s.filter(p).filter(q) == s.filter(both),
    decreases s.len(),
{
    reveal(Seq::filter);
    if s.len() > 0 {
        let front = s.drop_last();
        assert forall|i: int| 0 <= i < front.len() implies both(#[trigger] front[i]) == (p(front[i])
            && q(front[i])) by {
            assert(front[i] == s[i]);
        }
        lemma_filter_filter(front, p, q, both);
        let last = s[s.len() - 1];
        assert(both(last) == (p(last) && q(last)));
        if p(last) {
            let kept = front.filter(p);
            assert(s.filter(p) == kept.push(last));
            assert(kept.push(last).drop_last() =~= kept);
        }
    } else {
        assert(s.filter(p) =~= s);
        assert(s.filter(p).filter(q) =~= s);
        assert(s.filter(both) =~= s);
    }
}

} // verus!
