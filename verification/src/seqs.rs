//! Sequences without repetition.

use vstd::prelude::*;

verus! {

/// `s` without the later occurrences of any item: the first occurrences, in
/// their order.
pub open spec fn distinct<A>(s: Seq<A>) -> Seq<A>
    decreases s.len(),
{
    if s.len() == 0 {
        Seq::empty()
    } else {
        let head = distinct(s.drop_last());
        if head.contains(s.last()) {
            head
        } else {
            head.push(s.last())
        }
    }
}

/// The two ends of each pair of `pairs`, pair by pair, the first of a pair
/// before its second.
pub open spec fn endpoints<A>(pairs: Seq<(A, A)>) -> Seq<A>
    decreases pairs.len(),
{
    if pairs.len() == 0 {
        Seq::empty()
    } else {
        endpoints(pairs.drop_last()).push(pairs.last().0).push(pairs.last().1)
    }
}

/// The numbers from 0 up to `n`, in order.
pub open spec fn count_up(n: nat) -> Seq<usize> {
    Seq::new(n, |i: int| i as usize)
}

/// `distinct` keeps every item once.
pub proof fn lemma_distinct<A>(s: Seq<A>)
    ensures
        distinct(s).no_duplicates(),
        distinct(s).len() <= s.len(),
        forall|x: A| distinct(s).contains(x) <==> s.contains(x),
    decreases s.len(),
{
    if s.len() > 0 {
        let init = s.drop_last();
        lemma_distinct(init);
        let head = distinct(init);
        assert forall|x: A| distinct(s).contains(x) <==> s.contains(x) by {
            if s.contains(x) {
                let i = choose|i: int| 0 <= i < s.len() && s[i] == x;
                if i < s.len() - 1 {
                    assert(init[i] == x);
                    assert(init.contains(x));
                    assert(head.contains(x));
                    let j = choose|j: int| 0 <= j < head.len() && head[j] == x;
                    assert(distinct(s)[j] == x);
                } else {
                    if !head.contains(x) {
                        assert(distinct(s)[head.len() as int] == x);
                    }
                }
            }
            if distinct(s).contains(x) {
                let j = choose|j: int| 0 <= j < distinct(s).len() && distinct(s)[j] == x;
                if j < head.len() {
                    assert(head[j] == x);
                    assert(head.contains(x));
                    assert(init.contains(x));
                    let i = choose|i: int| 0 <= i < init.len() && init[i] == x;
                    assert(s[i] == x);
                } else {
                    assert(s[s.len() - 1] == x);
                }
            }
        }
    }
}

/// What `distinct` makes of a sequence with one more item.
pub proof fn lemma_distinct_push<A>(s: Seq<A>, x: A)
    ensures
        distinct(s.push(x)) == if distinct(s).contains(x) {
            distinct(s)
        } else {
            distinct(s).push(x)
        },
{
    assert(s.push(x).drop_last() == s);
}

/// The ends of a sequence of pairs with one more pair.
pub proof fn lemma_endpoints_push<A>(pairs: Seq<(A, A)>, pair: (A, A))
    ensures
        endpoints(pairs.push(pair)) == endpoints(pairs).push(pair.0).push(pair.1),
{
    assert(pairs.push(pair).drop_last() == pairs);
}

/// A sequence without repetition is its own `distinct`.
pub proof fn lemma_distinct_unique<A>(s: Seq<A>)
    requires
        s.no_duplicates(),
    ensures
        distinct(s) == s,
    decreases s.len(),
{
    if s.len() > 0 {
        let init = s.drop_last();
        lemma_distinct_unique(init);
        if init.contains(s.last()) {
            let i = choose|i: int| 0 <= i < init.len() && init[i] == s.last();
            assert(s[i] == s[s.len() - 1]);
        }
        assert(init.push(s.last()) =~= s);
    } else {
        assert(s =~= Seq::<A>::empty());
    }
}

/// Something is an end of a pair of `pairs` exactly if it is among their
/// ends.
pub proof fn lemma_endpoints_contains<A>(pairs: Seq<(A, A)>, x: A)
    ensures
        endpoints(pairs).contains(x) <==> exists|k: int|
            0 <= k < pairs.len() && ((#[trigger] pairs[k]).0 == x || pairs[k].1 == x),
    decreases pairs.len(),
{
    if pairs.len() > 0 {
        let init = pairs.drop_last();
        let ends = endpoints(pairs);
        lemma_endpoints_contains(init, x);
        if endpoints(init).contains(x) {
            let i = choose|i: int| 0 <= i < endpoints(init).len() && endpoints(init)[i] == x;
            assert(ends[i] == x);
            let k = choose|k: int|
                0 <= k < init.len() && ((#[trigger] init[k]).0 == x || init[k].1 == x);
            assert(pairs[k] == init[k]);
        }
        if pairs.last().0 == x {
            assert(ends[ends.len() - 2] == x);
        }
        if pairs.last().1 == x {
            assert(ends[ends.len() - 1] == x);
        }
        if ends.contains(x) {
            let i = choose|i: int| 0 <= i < ends.len() && ends[i] == x;
            if i < endpoints(init).len() {
                assert(endpoints(init)[i] == x);
                assert(endpoints(init).contains(x));
            }
        }
        if exists|k: int| 0 <= k < pairs.len() && ((#[trigger] pairs[k]).0 == x || pairs[k].1 == x) {
            let k = choose|k: int|
                0 <= k < pairs.len() && ((#[trigger] pairs[k]).0 == x || pairs[k].1 == x);
            if k < init.len() {
                assert(init[k] == pairs[k]);
            }
        }
    }
}

/// Where no two items of `s` have the same image under `f`, the first
/// occurrences of the images are the images of the first occurrences.
pub proof fn lemma_distinct_images<A, B>(s: Seq<A>, f: spec_fn(A) -> B)
    requires
        forall|i: int, j: int|
            0 <= i < s.len() && 0 <= j < s.len() && f(s[i]) == f(s[j]) ==> s[i] == s[j],
    ensures
        distinct(s.map_values(f)) == distinct(s).map_values(f),
    decreases s.len(),
{
    let images = s.map_values(f);
    if s.len() > 0 {
        let init = s.drop_last();
        assert forall|i: int, j: int|
            0 <= i < init.len() && 0 <= j < init.len() && f(init[i]) == f(init[j]) implies init[i]
            == init[j] by {
            assert(init[i] == s[i] && init[j] == s[j]);
        }
        lemma_distinct_images(init, f);
        assert(images.drop_last() =~= init.map_values(f));
        assert(images.last() == f(s.last()));
        lemma_distinct(init);
        let head = distinct(init);
        let seen = head.map_values(f);
        if head.contains(s.last()) {
            let i = choose|i: int| 0 <= i < head.len() && head[i] == s.last();
            assert(seen[i] == f(s.last()));
        }
        if seen.contains(f(s.last())) {
            let i = choose|i: int| 0 <= i < seen.len() && seen[i] == f(s.last());
            assert(head.contains(head[i]));
            assert(init.contains(head[i]));
            let j = choose|j: int| 0 <= j < init.len() && init[j] == head[i];
            assert(s[j] == init[j]);
            assert(f(s[j]) == f(s[s.len() - 1]));
            assert(head[i] == s.last());
        }
        assert(head.push(s.last()).map_values(f) =~= seen.push(f(s.last())));
    } else {
        assert(images =~= Seq::<B>::empty());
        assert(distinct(s).map_values(f) =~= Seq::<B>::empty());
    }
}

} // verus!
