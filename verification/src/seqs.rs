//! Facts about filtered sequences that the rest of the library leans on.

use vstd::prelude::*;

verus! {

/// The predicate that holds of everything but `value`.
pub open spec fn other_than<A>(value: A) -> spec_fn(A) -> bool {
    |x: A| x != value
}

/// The predicate that holds of what does not occur in `items`.
pub open spec fn not_among<A>(items: Seq<A>) -> spec_fn(A) -> bool {
    |x: A| !items.contains(x)
}

/// What occurs in a sequence extended by one element.
pub proof fn lemma_push_contains<A>(s: Seq<A>, last: A, x: A)
    ensures
        s.push(last).contains(x) <==> s.contains(x) || x == last,
{
    if s.contains(x) {
        let k = choose|k: int| 0 <= k < s.len() && s[k] == x;
        assert(s.push(last)[k] == x);
    }
    if x == last {
        assert(s.push(last)[s.len() as int] == x);
    }
    if s.push(last).contains(x) && x != last {
        let k = choose|k: int| 0 <= k < s.push(last).len() && s.push(last)[k] == x;
        assert(s[k] == x);
    }
}

/// What occurs in two sequences put end to end.
pub proof fn lemma_concat_contains<A>(a: Seq<A>, b: Seq<A>, x: A)
    ensures
        (a + b).contains(x) <==> a.contains(x) || b.contains(x),
{
    if a.contains(x) {
        let k = choose|k: int| 0 <= k < a.len() && a[k] == x;
        assert((a + b)[k] == x);
    }
    if b.contains(x) {
        let k = choose|k: int| 0 <= k < b.len() && b[k] == x;
        assert((a + b)[a.len() + k] == x);
    }
    if (a + b).contains(x) {
        let k = choose|k: int| 0 <= k < (a + b).len() && (a + b)[k] == x;
        if k < a.len() {
            assert(a[k] == x);
        } else {
            assert(b[k - a.len()] == x);
        }
    }
}

/// A filter that every element passes changes nothing.
pub proof fn lemma_filter_keeps_all<A>(s: Seq<A>, pred: spec_fn(A) -> bool)
    requires
        forall|i: int| 0 <= i < s.len() ==> pred(#[trigger] s[i]),
    ensures
        s.filter(pred) == s,
    decreases s.len(),
{
    reveal(Seq::filter);
    if s.len() > 0 {
        lemma_filter_keeps_all(s.drop_last(), pred);
        assert(s.drop_last().push(s.last()) =~= s);
    }
}

/// What passes a filter occurs in the sequence filtered, and passes.
pub proof fn lemma_filter_membership<A>(s: Seq<A>, pred: spec_fn(A) -> bool)
    ensures
        forall|x: A| #[trigger] s.filter(pred).contains(x) <==> s.contains(x) && pred(x),
    decreases s.len(),
{
    reveal(Seq::filter);
    if s.len() > 0 {
        let init = s.drop_last();
        lemma_filter_membership(init, pred);
        assert forall|x: A| #[trigger] s.filter(pred).contains(x) <==> s.contains(x) && pred(
            x,
        ) by {
            let kept = init.filter(pred);
            if s.filter(pred).contains(x) {
                if pred(s.last()) && x == s.last() {
                    assert(s[s.len() - 1] == x);
                } else {
                    if pred(s.last()) {
                        let j = choose|j: int| 0 <= j < kept.push(s.last()).len() && kept.push(
                            s.last(),
                        )[j] == x;
                        assert(kept[j] == x);
                    }
                    assert(kept.contains(x));
                    let k = choose|k: int| 0 <= k < init.len() && init[k] == x;
                    assert(s[k] == x);
                }
            }
            if s.contains(x) && pred(x) {
                let k = choose|k: int| 0 <= k < s.len() && s[k] == x;
                if k == s.len() - 1 {
                    assert(kept.push(s.last())[kept.len() as int] == x);
                } else {
                    assert(init[k] == x);
                    assert(kept.contains(x));
                    let j = choose|j: int| 0 <= j < kept.len() && kept[j] == x;
                    if pred(s.last()) {
                        assert(kept.push(s.last())[j] == x);
                    }
                }
            }
        }
    }
}

/// Filtering keeps a sequence free of repetitions.
pub proof fn lemma_filter_no_duplicates<A>(s: Seq<A>, pred: spec_fn(A) -> bool)
    requires
        s.no_duplicates(),
    ensures
        s.filter(pred).no_duplicates(),
    decreases s.len(),
{
    reveal(Seq::filter);
    if s.len() > 0 {
        let init = s.drop_last();
        lemma_filter_no_duplicates(init, pred);
        lemma_filter_membership(init, pred);
        if pred(s.last()) {
            if init.contains(s.last()) {
                let k = choose|k: int| 0 <= k < init.len() && init[k] == s.last();
                assert(s[k] == s[s.len() - 1]);
            }
            assert(!init.filter(pred).contains(s.last()));
        }
    }
}

/// Filtering twice is filtering once by both predicates.
pub proof fn lemma_filter_twice<A>(
    s: Seq<A>,
    first: spec_fn(A) -> bool,
    second: spec_fn(A) -> bool,
    both: spec_fn(A) -> bool,
)
    requires
        forall|x: A| #[trigger] both(x) == (first(x) && second(x)),
    ensures
        s.filter(first).filter(second) == s.filter(both),
    decreases s.len(),
{
    reveal(Seq::filter);
    if s.len() > 0 {
        let init = s.drop_last();
        lemma_filter_twice(init, first, second, both);
        if first(s.last()) {
            init.filter(first).lemma_filter_push(s.last(), second);
        }
    }
}

/// In a sequence without repetitions, taking out the element at an index is
/// filtering out its value.
pub proof fn lemma_remove_is_filter<A>(s: Seq<A>, index: int)
    requires
        s.no_duplicates(),
        0 <= index < s.len(),
    ensures
        s.remove(index) == s.filter(other_than(s[index])),
    decreases s.len(),
{
    reveal(Seq::filter);
    let init = s.drop_last();
    let pred = other_than(s[index]);
    if index == s.len() - 1 {
        lemma_filter_keeps_all(init, pred);
        assert(s.remove(index) =~= init);
    } else {
        lemma_remove_is_filter(init, index);
        assert(s.remove(index) =~= init.remove(index).push(s.last()));
    }
}

} // verus!
