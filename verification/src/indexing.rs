//! Index arithmetic on a ring of `n` slots.
//!
//! A ring keeps two cursors, `head` and `tail`, both below `n`. Everything a
//! ring buffer computes from them is one of the three functions here.

use vstd::prelude::*;

verus! {

/// How many slots lie between `head` (inclusive) and `tail` (exclusive),
/// walking forward around a ring of `n` slots.
pub open spec fn occupied(head: int, tail: int, n: int) -> int {
    (tail - head + n) % n
}

/// The slot after slot `i`, wrapping from the last slot to the first.
pub open spec fn next_slot(i: int, n: int) -> int {
    (i + 1) % n
}

/// The slot that lies `i` steps after `head`.
pub open spec fn slot_at(head: int, i: int, n: int) -> int {
    (head + i) % n
}

/// A value below `2 * n` is reduced modulo `n` by at most one subtraction.
pub proof fn lemma_wrap_once(x: int, n: int)
    requires
        0 < n,
        0 <= x < 2 * n,
    ensures
        x % n == if x < n { x } else { x - n },
{
    if x < n {
        vstd::arithmetic::div_mod::lemma_fundamental_div_mod_converse(x, n, 0, x);
    } else {
        vstd::arithmetic::div_mod::lemma_fundamental_div_mod_converse(x, n, 1, x - n);
    }
}

/// `occupied` without the modulus: the distance from `head` to `tail`, plus
/// `n` where the tail has wrapped and the head has not.
pub proof fn lemma_occupied(head: int, tail: int, n: int)
    requires
        0 <= head < n,
        0 <= tail < n,
    ensures
        occupied(head, tail, n) == if tail >= head { tail - head } else { n - head + tail },
        0 <= occupied(head, tail, n) < n,
        occupied(head, tail, n) == 0 <==> head == tail,
        occupied(head, tail, n) == n - 1 <==> next_slot(tail, n) == head,
        slot_at(head, occupied(head, tail, n), n) == tail,
{
    lemma_wrap_once(tail - head + n, n);
    lemma_wrap_once(tail + 1, n);
    lemma_wrap_once(head + occupied(head, tail, n), n);
}

/// `slot_at` without the modulus, and how it moves with its arguments.
pub proof fn lemma_slot_at(head: int, i: int, n: int)
    requires
        0 <= head < n,
        0 <= i < n,
    ensures
        slot_at(head, i, n) == if head + i < n { head + i } else { head + i - n },
        0 <= slot_at(head, i, n) < n,
        slot_at(head, 0, n) == head,
        next_slot(slot_at(head, i, n), n) == slot_at(next_slot(head, n), i, n),
        i + 1 < n ==> next_slot(slot_at(head, i, n), n) == slot_at(head, i + 1, n),
{
    lemma_wrap_once(head + i, n);
    lemma_wrap_once(head, n);
    lemma_wrap_once(head + 1, n);
    lemma_wrap_once(slot_at(head, i, n) + 1, n);
    lemma_wrap_once(next_slot(head, n) + i, n);
    if i + 1 < n {
        lemma_wrap_once(head + i + 1, n);
    }
}

/// Distinct offsets below `n` name distinct slots.
pub proof fn lemma_slot_at_injective(head: int, i: int, j: int, n: int)
    requires
        0 <= head < n,
        0 <= i < n,
        0 <= j < n,
        i != j,
    ensures
        slot_at(head, i, n) != slot_at(head, j, n),
{
    lemma_wrap_once(head + i, n);
    lemma_wrap_once(head + j, n);
}

} // verus!
