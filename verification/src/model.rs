//! The queue that a ring buffer implements, written over plain sequences.
//!
//! A queue is a `Seq` of its elements, oldest first, together with the
//! number of elements it can hold. Each function here gives the queue after
//! an operation and what the operation hands back.

use vstd::prelude::*;

verus! {

/// Appends `item` where there is room; otherwise leaves the queue alone. The
/// flag says whether the item went in.
pub open spec fn enqueued<T>(q: Seq<T>, capacity: nat, item: T) -> (Seq<T>, bool) {
    if q.len() < capacity {
        (q.push(item), true)
    } else {
        (q, false)
    }
}

/// Takes the oldest element out, if there is one.
pub open spec fn dequeued<T>(q: Seq<T>) -> (Seq<T>, Option<T>) {
    if q.len() > 0 {
        (q.drop_first(), Some(q.first()))
    } else {
        (q, None)
    }
}

/// Appends `item` in any case; a queue without room first gives up its
/// oldest element, which is handed back.
pub open spec fn pushed<T>(q: Seq<T>, capacity: nat, item: T) -> (Seq<T>, Option<T>) {
    if q.len() < capacity {
        (q.push(item), None)
    } else {
        (q.drop_first().push(item), Some(q.first()))
    }
}

/// The elements of `s` whose entry in `keep` is `true`, in their order.
pub open spec fn retained<T>(s: Seq<T>, keep: Seq<bool>) -> Seq<T>
    recommends
        keep.len() == s.len(),
    decreases s.len(),
{
    if s.len() == 0 {
        Seq::empty()
    } else if keep.last() {
        retained(s.drop_last(), keep.drop_last()).push(s.last())
    } else {
        retained(s.drop_last(), keep.drop_last())
    }
}

/// How many entries of `keep` are `false`.
pub open spec fn rejections(keep: Seq<bool>) -> nat
    decreases keep.len(),
{
    if keep.len() == 0 {
        0
    } else if keep.last() {
        rejections(keep.drop_last())
    } else {
        rejections(keep.drop_last()) + 1
    }
}

/// `keep` is a record of answers that `f` may give, one for each element of
/// `s`.
pub open spec fn judged<T, F: FnMut(&T) -> bool>(f: F, s: Seq<T>, keep: Seq<bool>) -> bool {
    &&& keep.len() == s.len()
    &&& forall|i: int| 0 <= i < s.len() ==> call_ensures(f, (&s[i],), #[trigger] keep[i])
}

/// `f` may be called on every element of `s`.
pub open spec fn callable_on<T, F: FnMut(&T) -> bool>(f: F, s: Seq<T>) -> bool {
    forall|i: int| 0 <= i < s.len() ==> call_requires(f, (&#[trigger] s[i],))
}

/// `f` may answer `false` for every element of `s` before index `k`.
pub open spec fn rejected_before<T, F: FnMut(&T) -> bool>(f: F, s: Seq<T>, k: int) -> bool {
    forall|j: int| 0 <= j < k ==> call_ensures(f, (&#[trigger] s[j],), false)
}

/// Index `k` is where a search through `s` may stop: `f` may answer `true`
/// for the element there and `false` for every element before it.
pub open spec fn first_accepted<T, F: FnMut(&T) -> bool>(f: F, s: Seq<T>, k: int) -> bool {
    &&& 0 <= k < s.len()
    &&& call_ensures(f, (&s[k],), true)
    &&& rejected_before(f, s, k)
}

/// `p` tells what `f` answers on each element of `s`: `f` has no other
/// answer to give.
pub open spec fn decides<T, F: FnMut(&T) -> bool>(f: F, s: Seq<T>, p: spec_fn(T) -> bool) -> bool {
    forall|i: int, answer: bool|
        0 <= i < s.len() && #[trigger] call_ensures(f, (&s[i],), answer) ==> answer == p(s[i])
}

/// The queue after the elements of `items` have been offered to it one by
/// one, and for each of them whether it went in.
pub open spec fn enqueued_all<T>(q: Seq<T>, capacity: nat, items: Seq<T>) -> (Seq<T>, Seq<bool>)
    decreases items.len(),
{
    if items.len() == 0 {
        (q, Seq::empty())
    } else {
        let (before, flags) = enqueued_all(q, capacity, items.drop_last());
        let (after, flag) = enqueued(before, capacity, items.last());
        (after, flags.push(flag))
    }
}

/// The queue after `k` attempts to take an element out, and what each
/// attempt handed back.
pub open spec fn dequeued_times<T>(q: Seq<T>, k: nat) -> (Seq<T>, Seq<Option<T>>)
    decreases k,
{
    if k == 0 {
        (q, Seq::empty())
    } else {
        let (before, handed) = dequeued_times(q, (k - 1) as nat);
        let (after, item) = dequeued(before);
        (after, handed.push(item))
    }
}

/// Pushing into a queue is enqueueing, after a dequeue where the queue is
/// full.
pub proof fn lemma_pushed_makes_room<T>(q: Seq<T>, capacity: nat, item: T)
    requires
        0 < capacity,
        q.len() <= capacity,
    ensures
        pushed(q, capacity, item) == if q.len() == capacity {
            (enqueued(dequeued(q).0, capacity, item).0, dequeued(q).1)
        } else {
            (enqueued(q, capacity, item).0, None)
        },
{
}

/// Offering `items` to a queue that has room for all of them appends them
/// in order, and none is turned away.
pub proof fn lemma_enqueued_all<T>(q: Seq<T>, capacity: nat, items: Seq<T>)
    requires
        q.len() + items.len() <= capacity,
    ensures
        enqueued_all(q, capacity, items).0 == q + items,
        enqueued_all(q, capacity, items).1 == Seq::new(items.len(), |i: int| true),
    decreases items.len(),
{
    if items.len() > 0 {
        lemma_enqueued_all(q, capacity, items.drop_last());
    }
}

/// Taking `k` elements out of a queue that holds at least `k` hands back
/// its first `k` elements in order and leaves the others.
pub proof fn lemma_dequeued_times<T>(q: Seq<T>, k: nat)
    requires
        k <= q.len(),
    ensures
        dequeued_times(q, k).0 == q.skip(k as int),
        dequeued_times(q, k).1 == q.take(k as int).map_values(|item: T| Some(item)),
    decreases k,
{
    if k > 0 {
        lemma_dequeued_times(q, (k - 1) as nat);
        assert(q.take(k - 1).map_values(|item: T| Some(item)).push(Some(q[k - 1])) =~= q.take(
            k as int,
        ).map_values(|item: T| Some(item)));
    }
}

/// First in, first out: when an empty queue is offered no more elements
/// than it can hold and is then asked for as many, every element goes in,
/// the elements come back in the order in which they went in, and the
/// queue is empty again.
pub proof fn lemma_first_in_first_out<T>(capacity: nat, items: Seq<T>)
    requires
        items.len() <= capacity,
    ensures
        ({
            let (filled, flags) = enqueued_all(Seq::<T>::empty(), capacity, items);
            let (drained, handed) = dequeued_times(filled, items.len());
            &&& flags == Seq::new(items.len(), |i: int| true)
            &&& filled == items
            &&& handed == items.map_values(|item: T| Some(item))
            &&& drained == Seq::<T>::empty()
        }),
{
    lemma_enqueued_all(Seq::<T>::empty(), capacity, items);
    lemma_dequeued_times(items, items.len());
}

/// What is retained has lost exactly the rejected elements.
pub proof fn lemma_retained_len<T>(s: Seq<T>, keep: Seq<bool>)
    requires
        keep.len() == s.len(),
    ensures
        retained(s, keep).len() == s.len() - rejections(keep),
    decreases s.len(),
{
    if s.len() > 0 {
        lemma_retained_len(s.drop_last(), keep.drop_last());
    }
}

/// Retaining by the answers of a function that a predicate decides is
/// filtering by that predicate.
pub proof fn lemma_retained_is_filter<T, F: FnMut(&T) -> bool>(
    f: F,
    s: Seq<T>,
    keep: Seq<bool>,
    p: spec_fn(T) -> bool,
)
    requires
        judged(f, s, keep),
        decides(f, s, p),
    ensures
        retained(s, keep) == s.filter(p),
    decreases s.len(),
{
    reveal(Seq::filter);
    if s.len() > 0 {
        let front = s.drop_last();
        let answers = keep.drop_last();
        assert(judged(f, front, answers));
        assert(decides(f, front, p));
        lemma_retained_is_filter(f, front, answers, p);
    }
}

/// Where a predicate decides the answers, a search can stop at one index
/// only: the first whose element satisfies the predicate.
pub proof fn lemma_first_accepted_is_first_match<T, F: FnMut(&T) -> bool>(
    f: F,
    s: Seq<T>,
    p: spec_fn(T) -> bool,
    k: int,
)
    requires
        first_accepted(f, s, k),
        decides(f, s, p),
    ensures
        p(s[k]),
        forall|j: int| 0 <= j < k ==> !p(#[trigger] s[j]),
{
}

} // verus!
