//! A circular queue over borrowed, fixed-size storage.

use crate::indexing::{
    lemma_occupied, lemma_slot_at, lemma_slot_at_injective, lemma_wrap_once, next_slot, occupied,
    slot_at,
};
use crate::model::{
    callable_on, decides, dequeued, enqueued, first_accepted, judged, lemma_retained_is_filter,
    lemma_retained_len, pushed, rejected_before, rejections, retained,
};
use vstd::prelude::*;

verus! {

/// A queue of at most `N - 1` elements kept in `N` borrowed slots.
///
/// Two cursors delimit the live elements: `head` is the slot of the oldest
/// one, `tail` the slot that the next one will go to. One slot always stays
/// free, so that `head == tail` can only mean "empty".
pub struct RingBuffer<'a, T> {
    ring: &'a mut [T],
    head: usize,
    tail: usize,
}

impl<'a, T> View for RingBuffer<'a, T> {
    type V = Seq<T>;

    /// The live elements, oldest first.
    closed spec fn view(&self) -> Seq<T> {
        window(
            self.ring@,
            self.head as int,
            occupied(self.head as int, self.tail as int, self.ring@.len() as int),
        )
    }
}

/// The `len` elements that a ring holds from slot `head` on, wrapping at the
/// end of the storage.
spec fn window<T>(ring: Seq<T>, head: int, len: int) -> Seq<T> {
    Seq::new(len as nat, |i: int| ring[slot_at(head, i, ring.len() as int)])
}

/// A write to the slot just behind a window appends to it.
proof fn lemma_window_push<T>(ring: Seq<T>, head: int, len: int, item: T)
    requires
        0 <= head < ring.len(),
        0 <= len < ring.len(),
    ensures
        window(ring.update(slot_at(head, len, ring.len() as int), item), head, len + 1) == window(
            ring,
            head,
            len,
        ).push(item),
{
    let n = ring.len() as int;
    let after = ring.update(slot_at(head, len, n), item);
    assert forall|i: int| 0 <= i < len implies #[trigger] window(after, head, len + 1)[i] == window(
        ring,
        head,
        len,
    )[i] by {
        lemma_slot_at_injective(head, i, len, n);
    }
}

/// Moving the head one slot on drops the first element of a window.
proof fn lemma_window_drop_first<T>(ring: Seq<T>, head: int, len: int)
    requires
        0 <= head < ring.len(),
        0 < len < ring.len(),
    ensures
        window(ring, next_slot(head, ring.len() as int), len - 1) == window(
            ring,
            head,
            len,
        ).drop_first(),
        window(ring, head, len).first() == ring[head],
{
    let n = ring.len() as int;
    lemma_slot_at(head, 0, n);
    assert forall|i: int| 0 <= i < len - 1 implies #[trigger] window(
        ring,
        next_slot(head, n),
        len - 1,
    )[i] == window(ring, head, len)[i + 1] by {
        lemma_slot_at(head, i, n);
    }
}

impl<'a, T> RingBuffer<'a, T> {
    /// What every buffer satisfies: it has at least two slots, and both
    /// cursors lie inside the storage.
    #[verifier::type_invariant]
    spec fn cursors_in_storage(&self) -> bool {
        &&& self.ring@.len() >= 2
        &&& self.head < self.ring@.len()
        &&& self.tail < self.ring@.len()
    }
}

impl<'a, T: Copy> RingBuffer<'a, T> {
    /// The number of slots in the borrowed storage.
    pub closed spec fn slots(&self) -> int {
        self.ring@.len() as int
    }

    /// The borrowed storage, slot by slot. A slot outside the live range
    /// holds whatever was last written to it.
    pub closed spec fn storage(&self) -> Seq<T> {
        self.ring@
    }

    /// The slot of the oldest element.
    pub closed spec fn head(&self) -> int {
        self.head as int
    }

    /// The slot that the next element will be written to.
    pub closed spec fn tail(&self) -> int {
        self.tail as int
    }

    /// How many elements the buffer can hold: one less than it has slots.
    pub open spec fn capacity(&self) -> nat {
        (self.slots() - 1) as nat
    }

    /// The invariant of the type: at least two slots, both cursors inside
    /// the storage, and the live elements those that lie in the slots from
    /// the head on, up to the tail.
    pub open spec fn wf(&self) -> bool {
        &&& 2 <= self.slots()
        &&& self.storage().len() == self.slots()
        &&& 0 <= self.head() < self.slots()
        &&& 0 <= self.tail() < self.slots()
        &&& self@.len() == occupied(self.head(), self.tail(), self.slots())
        &&& forall|i: int|
            0 <= i < self@.len() ==> #[trigger] self@[i] == self.storage()[slot_at(
                self.head(),
                i,
                self.slots(),
            )]
    }

    /// What [`Self::len`] returns.
    pub open spec fn spec_len(&self) -> nat {
        self@.len()
    }

    /// What [`Self::available_len`] returns.
    pub open spec fn spec_available_len(&self) -> nat {
        (self.capacity() - self@.len()) as nat
    }

    /// What [`Self::is_full`] returns.
    pub open spec fn spec_is_full(&self) -> bool {
        next_slot(self.tail(), self.slots()) == self.head()
    }

    /// What [`Self::has_elements`] returns.
    pub open spec fn spec_has_elements(&self) -> bool {
        self.head() != self.tail()
    }

    /// A buffer never holds more than its capacity, and its tail lies as
    /// many slots after its head as it holds elements.
    pub proof fn lemma_len_bounded(&self)
        requires
            self.wf(),
        ensures
            self@.len() <= self.capacity(),
            self.tail() == slot_at(self.head(), self@.len() as int, self.slots()),
    {
        lemma_occupied(self.head(), self.tail(), self.slots());
    }

    /// The elements held and the places still free add up to one less than
    /// the number of slots.
    pub proof fn lemma_len_plus_available(&self)
        requires
            self.wf(),
        ensures
            self.spec_len() + self.spec_available_len() == self.slots() - 1,
    {
        self.lemma_len_bounded();
    }

    /// A buffer is full exactly when no place is free, and has elements
    /// exactly when its length is not zero.
    pub proof fn lemma_full_and_empty(&self)
        requires
            self.wf(),
        ensures
            self.spec_is_full() <==> self.spec_available_len() == 0,
            self.spec_has_elements() <==> self.spec_len() > 0,
    {
        lemma_occupied(self.head(), self.tail(), self.slots());
    }

    /// Lays an empty queue over `ring`.
    pub fn new(ring: &'a mut [T]) -> (rb: Self)
        requires
            old(ring)@.len() >= 2,
        ensures
            rb.wf(),
            rb@ == Seq::<T>::empty(),
            rb.slots() == old(ring)@.len(),
            rb.head() == 0,
            rb.tail() == 0,
    {
        let rb = RingBuffer { ring, head: 0, tail: 0 };
        proof {
            lemma_occupied(0, 0, rb.ring@.len() as int);
        }
        rb
    }

    /// Whether the buffer holds at least one element.
    #[verifier::when_used_as_spec(spec_has_elements)]
    pub fn has_elements(&self) -> (r: bool)
        ensures
            self.wf(),
            r == self.spec_has_elements(),
            r == (self@.len() > 0),
    {
        proof {
            use_type_invariant(self);
            self.lemma_full_and_empty();
        }
        self.head != self.tail
    }

    /// Whether every usable slot is taken.
    #[verifier::when_used_as_spec(spec_is_full)]
    pub fn is_full(&self) -> (r: bool)
        ensures
            self.wf(),
            r == self.spec_is_full(),
            r == (self@.len() == self.capacity()),
    {
        proof {
            use_type_invariant(self);
            self.lemma_len_bounded();
            self.lemma_full_and_empty();
        }
        let n = self.ring.len();
        self.head == (self.tail + 1) % n
    }

    /// The number of elements held.
    pub fn len(&self) -> (r: usize)
        ensures
            self.wf(),
            r == self.spec_len(),
            r == occupied(self.head(), self.tail(), self.slots()),
    {
        proof {
            use_type_invariant(self);
            lemma_occupied(self.head(), self.tail(), self.slots());
        }
        if self.tail > self.head {
            self.tail - self.head
        } else if self.tail < self.head {
            (self.ring.len() - self.head) + self.tail
        } else {
            0
        }
    }

    /// The number of elements that can still be enqueued.
    pub fn available_len(&self) -> (r: usize)
        ensures
            self.wf(),
            r == self.spec_available_len(),
            r + self@.len() == self.slots() - 1,
    {
        proof {
            use_type_invariant(self);
            self.lemma_len_bounded();
        }
        self.ring.len() - 1 - self.len()
    }

    /// Adds `val` behind the newest element, unless the buffer is full.
    pub fn enqueue(&mut self, val: T) -> (ok: bool)
        ensures
            final(self).wf(),
            final(self).slots() == old(self).slots(),
            final(self).head() == old(self).head(),
            (final(self)@, ok) == enqueued(old(self)@, old(self).capacity(), val),
            ok == !old(self).spec_is_full(),
            final(self).tail() == if ok {
                next_slot(old(self).tail(), old(self).slots())
            } else {
                old(self).tail()
            },
    {
        proof {
            use_type_invariant(&*self);
        }
        if self.is_full() {
            false
        } else {
            let n = self.ring.len();
            let ghost len = self@.len() as int;
            proof {
                lemma_window_push(self.ring@, self.head as int, len, val);
                lemma_occupied(self.head as int, self.tail as int, n as int);
                lemma_wrap_once(self.tail + 1, n as int);
            }
            self.ring[self.tail] = val;
            self.tail = (self.tail + 1) % n;
            proof {
                lemma_occupied(self.head as int, self.tail as int, n as int);
            }
            true
        }
    }

    /// Takes the oldest element out of the buffer.
    pub fn dequeue(&mut self) -> (r: Option<T>)
        ensures
            final(self).wf(),
            final(self).slots() == old(self).slots(),
            final(self).tail() == old(self).tail(),
            (final(self)@, r) == dequeued(old(self)@),
            final(self).head() == if r is Some {
                next_slot(old(self).head(), old(self).slots())
            } else {
                old(self).head()
            },
    {
        proof {
            use_type_invariant(&*self);
        }
        if self.has_elements() {
            let n = self.ring.len();
            let ghost len = self@.len() as int;
            proof {
                lemma_window_drop_first(self.ring@, self.head as int, len);
                lemma_occupied(self.head as int, self.tail as int, n as int);
                lemma_wrap_once(self.head + 1, n as int);
            }
            let val = self.ring[self.head];
            self.head = (self.head + 1) % n;
            proof {
                lemma_occupied(self.head as int, self.tail as int, n as int);
            }
            Some(val)
        } else {
            None
        }
    }

    /// Adds `val` behind the newest element. A full buffer makes room by
    /// giving up its oldest element, which is returned.
    pub fn push(&mut self, val: T) -> (r: Option<T>)
        ensures
            final(self).wf(),
            final(self).slots() == old(self).slots(),
            (final(self)@, r) == pushed(old(self)@, old(self).capacity(), val),
            r is Some <==> old(self).spec_is_full(),
            old(self).spec_is_full() ==> r == Some(old(self)@.first()) && final(self)@ == old(
                self,
            )@.drop_first().push(val),
            final(self).tail() == next_slot(old(self).tail(), old(self).slots()),
            final(self).head() == if r is Some {
                next_slot(old(self).head(), old(self).slots())
            } else {
                old(self).head()
            },
    {
        proof {
            use_type_invariant(&*self);
        }
        let result = if self.is_full() {
            self.dequeue()
        } else {
            None
        };
        let n = self.ring.len();
        let ghost before = self@;
        proof {
            lemma_window_push(self.ring@, self.head as int, before.len() as int, val);
            lemma_occupied(self.head as int, self.tail as int, n as int);
            lemma_wrap_once(self.tail + 1, n as int);
        }
        self.ring[self.tail] = val;
        self.tail = (self.tail + 1) % n;
        proof {
            lemma_occupied(self.head as int, self.tail as int, n as int);
        }
        result
    }

    /// The live elements as two borrowed runs of the storage, oldest first.
    ///
    /// Where the elements do not wrap around the end of the storage, the
    /// first run holds them all and the second is empty. Where they do, the
    /// first run reaches from the head to the end of the storage and the
    /// second from the start of the storage to the tail.
    pub fn as_slices(&self) -> (r: (&[T], &[T]))
        ensures
            self.wf(),
            r.0@ + r.1@ == self@,
            r.0@ == if self.head() <= self.tail() {
                self.storage().subrange(self.head(), self.tail())
            } else {
                self.storage().subrange(self.head(), self.slots())
            },
            r.1@ == if self.head() <= self.tail() {
                Seq::<T>::empty()
            } else {
                self.storage().subrange(0, self.tail())
            },
    {
        proof {
            use_type_invariant(self);
            lemma_occupied(self.head as int, self.tail as int, self.ring@.len() as int);
        }
        if self.head <= self.tail {
            let all = &self.ring[self.head..self.tail];
            let none = &self.ring[0..0];
            proof {
                assert forall|i: int| 0 <= i < self@.len() implies all@[i] == #[trigger] self@[i] by {
                    lemma_slot_at(self.head as int, i, self.ring@.len() as int);
                }
            }
            (all, none)
        } else {
            let (left, right) = self.ring.split_at(self.head);
            let wrapped = &left[0..self.tail];
            proof {
                assert forall|i: int| 0 <= i < self@.len() implies (right@ + wrapped@)[i]
                    == #[trigger] self@[i] by {
                    lemma_slot_at(self.head as int, i, self.ring@.len() as int);
                }
            }
            (right, wrapped)
        }
    }

    /// Keeps the elements that `f` answers `true` for, in their order, and
    /// discards the others. `f` is asked once about each element, oldest
    /// first.
    pub fn retain<F>(&mut self, mut f: F) where F: FnMut(&T) -> bool
        requires
            callable_on(f, old(self)@),
        ensures
            final(self).wf(),
            final(self).slots() == old(self).slots(),
            final(self).head() == old(self).head(),
            exists|keep: Seq<bool>|
                {
                    &&& #[trigger] judged(f, old(self)@, keep)
                    &&& final(self)@ == retained(old(self)@, keep)
                    &&& final(self)@.len() == old(self)@.len() - rejections(keep)
                },
            forall|p: spec_fn(T) -> bool|
                decides(f, old(self)@, p) ==> final(self)@ == #[trigger] old(self)@.filter(p),
            final(self).tail() == slot_at(
                old(self).head(),
                final(self)@.len() as int,
                old(self).slots(),
            ),
    {
        proof {
            use_type_invariant(&*self);
        }
        let n = self.ring.len();
        let mut src = self.head;
        let mut dst = self.head;
        let ghost orig = self@;
        let ghost f0 = f;
        let ghost head = self.head as int;
        let ghost mut s: int = 0;
        let ghost mut keep: Seq<bool> = Seq::empty();
        proof {
            self.lemma_len_bounded();
            lemma_slot_at(head, 0, n as int);
        }
        while src != self.tail
            invariant
                n == self.ring@.len(),
                self.slots() == old(self).slots(),
                self.head == old(self).head,
                self.tail == old(self).tail,
                n >= 2,
                0 <= head < n,
                head == self.head,
                self.tail < n,
                self.tail == slot_at(head, orig.len() as int, n as int),
                orig.len() < n,
                orig == old(self)@,
                0 <= s <= orig.len(),
                src == slot_at(head, s, n as int),
                dst == slot_at(head, retained(orig.take(s), keep).len() as int, n as int),
                retained(orig.take(s), keep).len() <= s,
                judged(f, orig.take(s), keep),
                window(self.ring@, head, retained(orig.take(s), keep).len() as int) == retained(
                    orig.take(s),
                    keep,
                ),
                forall|i: int|
                    s <= i < orig.len() ==> self.ring@[slot_at(head, i, n as int)] == #[trigger] orig[i],
                callable_on(f, orig),
                f == f0,
            decreases orig.len() - s,
        {
            let ghost d = retained(orig.take(s), keep).len() as int;
            proof {
                lemma_slot_at(head, s, n as int);
                lemma_slot_at(head, d, n as int);
                assert(self.ring@[src as int] == orig[s]);
            }
            let item = self.ring[src];
            let answer = f(&item);
            proof {
                assert(orig.take(s + 1).drop_last() =~= orig.take(s));
                assert(keep.push(answer).drop_last() =~= keep);
            }
            if answer {
                proof {
                    lemma_window_push(self.ring@, head, d, item);
                    assert forall|i: int| s < i < orig.len() implies slot_at(head, i, n as int)
                        != dst by {
                        lemma_slot_at_injective(head, i, d, n as int);
                    }
                }
                if src != dst {
                    self.ring[dst] = item;
                }
                dst = (dst + 1) % n;
            }
            src = (src + 1) % n;
            proof {
                keep = keep.push(answer);
                s = s + 1;
                assert(judged(f, orig.take(s), keep));
            }
        }
        proof {
            if s != orig.len() {
                lemma_slot_at_injective(head, s, orig.len() as int, n as int);
            }
            assert(orig.take(s) =~= orig);
            lemma_slot_at(head, retained(orig, keep).len() as int, n as int);
        }
        self.tail = dst;
        proof {
            lemma_occupied(self.head as int, self.tail as int, n as int);
            lemma_retained_len(orig, keep);
            assert forall|p: spec_fn(T) -> bool| decides(f0, orig, p) implies self@
                == #[trigger] orig.filter(p) by {
                lemma_retained_is_filter(f0, orig, keep, p);
            }
        }
    }

    /// Takes out the oldest element that `f` answers `true` for and closes
    /// the gap, keeping the order of the others. `f` is asked about the
    /// elements oldest first, up to the one that is taken out.
    pub fn remove_first_matching<F>(&mut self, f: F) -> (r: Option<T>) where F: Fn(&T) -> bool
        requires
            callable_on(f, old(self)@),
        ensures
            final(self).wf(),
            final(self).slots() == old(self).slots(),
            final(self).head() == old(self).head(),
            match r {
                Some(item) => exists|k: int|
                    {
                        &&& #[trigger] first_accepted(f, old(self)@, k)
                        &&& item == old(self)@[k]
                        &&& final(self)@ == old(self)@.remove(k)
                        &&& next_slot(final(self).tail(), old(self).slots()) == old(self).tail()
                    },
                None => {
                    &&& rejected_before(f, old(self)@, old(self)@.len() as int)
                    &&& final(self)@ == old(self)@
                    &&& final(self).tail() == old(self).tail()
                },
            },
    {
        proof {
            use_type_invariant(&*self);
        }
        let n = self.ring.len();
        let mut slot = self.head;
        let ghost orig = self@;
        let ghost head = self.head as int;
        let ghost count = orig.len() as int;
        let ghost mut k: int = 0;
        proof {
            self.lemma_len_bounded();
            lemma_slot_at(head, 0, n as int);
        }
        while slot != self.tail
            invariant
                n == self.ring@.len(),
                *self == *old(self),
                n >= 2,
                0 <= head < n,
                head == self.head,
                self.tail == slot_at(head, count, n as int),
                count == orig.len(),
                count < n,
                orig == window(self.ring@, head, count),
                orig == old(self)@,
                0 <= k <= count,
                slot == slot_at(head, k, n as int),
                rejected_before(f, orig, k),
                callable_on(f, orig),
            decreases count - k,
        {
            proof {
                lemma_slot_at(head, k, n as int);
                assert(self.ring@[slot as int] == orig[k]);
            }
            if f(&self.ring[slot]) {
                let val = self.ring[slot];
                let mut next = (slot + 1) % n;
                let ghost mut m: int = k;
                while next != self.tail
                    invariant
                        n == self.ring@.len(),
                        self.slots() == old(self).slots(),
                        self.head == old(self).head,
                        self.tail == old(self).tail,
                        n >= 2,
                        0 <= head < n,
                        head == self.head,
                        self.tail == slot_at(head, count, n as int),
                        count == orig.len(),
                        count < n,
                        0 <= k <= m < count,
                        slot == slot_at(head, m, n as int),
                        next == slot_at(head, m + 1, n as int),
                        forall|i: int|
                            0 <= i < k ==> self.ring@[slot_at(head, i, n as int)] == #[trigger] orig[i],
                        forall|i: int|
                            k <= i < m ==> self.ring@[slot_at(head, i, n as int)] == #[trigger] orig[i
                                + 1],
                        forall|i: int|
                            m < i < count ==> self.ring@[slot_at(head, i, n as int)]
                                == #[trigger] orig[i],
                    decreases count - m,
                {
                    proof {
                        lemma_slot_at(head, m + 1, n as int);
                        assert forall|i: int| 0 <= i < count && i != m implies slot_at(
                            head,
                            i,
                            n as int,
                        ) != slot by {
                            lemma_slot_at_injective(head, i, m, n as int);
                        }
                    }
                    self.ring[slot] = self.ring[next];
                    slot = next;
                    next = (next + 1) % n;
                    proof {
                        m = m + 1;
                    }
                }
                proof {
                    if m + 1 != count {
                        lemma_slot_at_injective(head, m + 1, count, n as int);
                    }
                }
                self.tail = slot;
                proof {
                    lemma_occupied(self.head as int, self.tail as int, n as int);
                    lemma_slot_at(head, m, n as int);
                    assert forall|i: int| 0 <= i < count - 1 implies #[trigger] self@[i]
                        == orig.remove(k)[i] by {
                        if i >= k {
                            assert(self.ring@[slot_at(head, i, n as int)] == orig[i + 1]);
                        }
                    }
                    assert(first_accepted(f, orig, k));
                }
                return Some(val);
            }
            slot = (slot + 1) % n;
            proof {
                k = k + 1;
            }
        }
        proof {
            if k != count {
                lemma_slot_at_injective(head, k, count, n as int);
            }
        }
        None
    }

    /// Discards every element.
    pub fn empty(&mut self)
        ensures
            final(self).wf(),
            final(self).slots() == old(self).slots(),
            final(self)@ == Seq::<T>::empty(),
            final(self).head() == 0,
            final(self).tail() == 0,
    {
        proof {
            use_type_invariant(&*self);
        }
        self.head = 0;
        self.tail = 0;
        proof {
            lemma_occupied(0, 0, self.ring@.len() as int);
        }
    }
}

} // verus!
