//! Lemmas on filtered sequences that the table operations share.

use vstd::prelude::*;

verus! {

/// Filtering one element more of `s` keeps that element or does not.
pub proof fn lemma_filter_step<T>(s: Seq<T>, i: int, pred: spec_fn(T) -> bool)
    requires
        0 <= i < s.len(),
    ensures
        s.take(i + 1).filter(pred) == if pred(s[i]) {
            s.take(i).filter(pred).push(s[i])
        } else {
            s.take(i).filter(pred)
        },
{
    s.lemma_take_succ_push(i);
    Seq::lemma_filter_push(s.take(i), s[i], pred);
}

/// Filtering nothing of `s` gives nothing; filtering all of it is filtering `s`.
pub proof fn lemma_filter_ends<T>(s: Seq<T>, pred: spec_fn(T) -> bool)
    ensures
        s.take(0).filter(pred) == Seq::<T>::empty(),
        s.take(s.len() as int).filter(pred) == s.filter(pred),
{
    reveal(Seq::filter);
    assert(s.take(0) =~= Seq::<T>::empty());
    assert(s.take(s.len() as int) =~= s);
}

/// Each element of a filtered sequence satisfies the predicate and stands in
/// the sequence that was filtered, and elements keep their relative positions.
pub proof fn lemma_filter_sources<T>(s: Seq<T>, pred: spec_fn(T) -> bool) -> (src: Seq<int>)
    ensures
        src.len() == s.filter(pred).len(),
        forall|k: int|
            #![trigger src[k]]
            0 <= k < src.len() ==> 0 <= src[k] < s.len() && s[src[k]] == s.filter(pred)[k] && pred(
                s[src[k]],
            ),
        forall|a: int, b: int|
            #![trigger src[a], src[b]]
            0 <= a < b < src.len() ==> src[a] < src[b],
        forall|i: int|
            #![trigger s[i]]
            0 <= i < s.len() && pred(s[i]) ==> exists|k: int|
                0 <= k < src.len() && #[trigger] src[k] == i,
    decreases s.len(),
{
    reveal(Seq::filter);
    if s.len() == 0 {
        Seq::<int>::empty()
    } else {
        let front = lemma_filter_sources(s.drop_last(), pred);
        let last = s.len() - 1;
        let src = if pred(s.last()) {
            front.push(last)
        } else {
            front
        };
        assert forall|i: int| #![trigger s[i]] 0 <= i < s.len() && pred(s[i]) implies exists|k: int|
            0 <= k < src.len() && #[trigger] src[k] == i by {
            if i < last {
                assert(s.drop_last()[i] == s[i]);
                let k = choose|k: int| 0 <= k < front.len() && #[trigger] front[k] == i;
                assert(src[k] == i);
            } else {
                assert(src[src.len() - 1] == i);
            }
        }
        assert forall|k: int| #![trigger src[k]] 0 <= k < src.len() implies 0 <= src[k] < s.len()
            && s[src[k]] == s.filter(pred)[k] && pred(s[src[k]]) by {
            if k < front.len() {
                assert(s.drop_last()[front[k]] == s[front[k]]);
            }
        }
        src
    }
}

/// A relation that holds of every ordered pair of `s` holds of every ordered
/// pair of what a filter keeps of it.
pub proof fn lemma_filter_pairs<T>(s: Seq<T>, pred: spec_fn(T) -> bool, rel: spec_fn(T, T) -> bool)
    requires
        forall|i: int, j: int| #![trigger s[i], s[j]] 0 <= i < j < s.len() ==> rel(s[i], s[j]),
    ensures
        forall|a: int, b: int|
            #![trigger s.filter(pred)[a], s.filter(pred)[b]]
            0 <= a < b < s.filter(pred).len() ==> rel(s.filter(pred)[a], s.filter(pred)[b]),
{
    let src = lemma_filter_sources(s, pred);
    let f = s.filter(pred);
    assert forall|a: int, b: int| #![trigger f[a], f[b]] 0 <= a < b < f.len() implies rel(
        f[a],
        f[b],
    ) by {
        assert(src[a] < src[b]);
        assert(rel(s[src[a]], s[src[b]]));
    }
}

/// What holds of every element of `s` holds of every element that a filter keeps.
pub proof fn lemma_filter_all<T>(s: Seq<T>, pred: spec_fn(T) -> bool, prop: spec_fn(T) -> bool)
    requires
        forall|i: int| #![trigger s[i]] 0 <= i < s.len() ==> prop(s[i]),
    ensures
        forall|a: int|
            #![trigger s.filter(pred)[a]]
            0 <= a < s.filter(pred).len() ==> prop(s.filter(pred)[a]) && pred(s.filter(pred)[a]),
{
    let src = lemma_filter_sources(s, pred);
    let f = s.filter(pred);
    assert forall|a: int| #![trigger f[a]] 0 <= a < f.len() implies prop(f[a]) && pred(f[a]) by {
        assert(s[src[a]] == f[a]);
    }
}


/// What a filter keeps of a prefix of `s` is a prefix of what it keeps of `s`.
pub proof fn lemma_filter_prefix<T>(s: Seq<T>, i: int, pred: spec_fn(T) -> bool)
    requires
        0 <= i <= s.len(),
    ensures
        s.take(i).filter(pred).len() <= s.filter(pred).len(),
        s.filter(pred).take(s.take(i).filter(pred).len() as int) == s.take(i).filter(pred),
{
    Seq::filter_distributes_over_add(s.take(i), s.skip(i), pred);
    assert(s.take(i) + s.skip(i) =~= s);
    let a = s.take(i).filter(pred);
    let b = s.skip(i).filter(pred);
    assert((a + b).take(a.len() as int) =~= a);
}


/// `base` followed by the elements of `more` that it does not hold yet, each
/// once, in the order they come.
pub open spec fn with_new<T>(base: Seq<T>, more: Seq<T>) -> Seq<T>
    decreases more.len(),
{
    if more.len() == 0 {
        base
    } else {
        let before = with_new(base, more.drop_last());
        if before.contains(more.last()) {
            before
        } else {
            before.push(more.last())
        }
    }
}

/// The elements of `s`, each once, in the order they come first.
pub open spec fn distinct<T>(s: Seq<T>) -> Seq<T> {
    with_new(Seq::empty(), s)
}

/// Adding what is new keeps a sequence without duplicates so, keeps what it
/// held in place, and adds exactly the elements that were missing.
pub proof fn lemma_with_new<T>(base: Seq<T>, more: Seq<T>)
    ensures
        base.no_duplicates() ==> with_new(base, more).no_duplicates(),
        base.len() <= with_new(base, more).len() <= base.len() + more.len(),
        with_new(base, more).take(base.len() as int) == base,
        forall|x: T|
            #![trigger with_new(base, more).contains(x)]
            with_new(base, more).contains(x) <==> base.contains(x) || more.contains(x),
    decreases more.len(),
{
    let all = with_new(base, more);
    if more.len() == 0 {
        assert(base.take(base.len() as int) =~= base);
    } else {
        let front = more.drop_last();
        let last = more.last();
        let before = with_new(base, front);
        lemma_with_new(base, front);
        assert(all.take(base.len() as int) =~= before.take(base.len() as int));
        assert forall|x: T| #![trigger all.contains(x)] all.contains(x) <==> base.contains(x)
            || more.contains(x) by {
            if more.contains(x) {
                let i = choose|i: int| 0 <= i < more.len() && more[i] == x;
                if i < front.len() {
                    assert(front[i] == x);
                    assert(front.contains(x));
                }
            }
            if front.contains(x) {
                let i = choose|i: int| 0 <= i < front.len() && front[i] == x;
                assert(more[i] == x);
            }
            assert(more[more.len() - 1] == last);
            if before.contains(x) {
                let i = choose|i: int| 0 <= i < before.len() && before[i] == x;
                if !before.contains(last) {
                    assert(all[i] == x);
                }
            }
            if !before.contains(last) {
                assert(all[all.len() - 1] == last);
                if all.contains(x) {
                    let i = choose|i: int| 0 <= i < all.len() && all[i] == x;
                    if i < before.len() {
                        assert(before[i] == x);
                    }
                }
            }
        }
        if base.no_duplicates() && !before.contains(last) {
            assert forall|i: int, j: int| 0 <= i < all.len() && 0 <= j < all.len() && i != j implies all[i]
                != all[j] by {
                if i < before.len() && j < before.len() {
                    assert(before[i] != before[j]);
                } else if i < before.len() {
                    assert(before[i] == all[i]);
                } else {
                    assert(before[j] == all[j]);
                }
            }
        }
    }
}

/// A sequence without duplicates is the sequence of its distinct elements.
pub proof fn lemma_distinct_keeps_distinct<T>(s: Seq<T>)
    requires
        s.no_duplicates(),
    ensures
        distinct(s) == s,
    decreases s.len(),
{
    if s.len() > 0 {
        let front = s.drop_last();
        assert forall|i: int, j: int| 0 <= i < front.len() && 0 <= j < front.len() && i
            != j implies front[i] != front[j] by {
            assert(s[i] != s[j]);
        }
        lemma_distinct_keeps_distinct(front);
        if front.contains(s.last()) {
            let i = choose|i: int| 0 <= i < front.len() && front[i] == s.last();
            assert(s[i] == s[s.len() - 1]);
        }
        assert(front.push(s.last()) =~= s);
    }
}

} // verus!
