//! An array of eight elements with checked access.

use core::slice::{Iter, IterMut};
use vstd::prelude::*;
use vstd::std_specs::iter::IteratorSpec;
use vstd::std_specs::slice::into_iter_elts;

verus! {

/// `core::slice::IterMut`, the iterator that `<[T]>::iter_mut` returns.
/// Verus does not look inside it: what such an iterator has yet to hand
/// out is spoken of through `IteratorSpec::remaining`.
#[verifier::external_type_specification]
#[verifier::external_body]
#[verifier::reject_recursive_types(A)]
pub struct ExIterMut<'a, A: 'a>(core::slice::IterMut<'a, A>);

/// `<[T]>::iter_mut`, which returns an iterator that yields every element
/// of the slice, from the first to the last, for writing. So what the
/// iterator has to hand out is one reference for each element, in order:
/// each holds its element's value, and what it is left with is what the
/// slice holds there in the end.
#[verifier::external_body]
fn slice_iter_mut<'a, T>(s: &'a mut [T]) -> (it: IterMut<'a, T>)
    ensures
        it.remaining().len() == old(s)@.len(),
        forall|i: int|
            #![trigger it.remaining()[i]]
            0 <= i < old(s)@.len() ==> *it.remaining()[i] == old(s)@[i],
        forall|i: int|
            #![trigger it.remaining()[i]]
            0 <= i < old(s)@.len() ==> final(s)@[i] == *final(it.remaining()[i]),
        final(s)@.len() == old(s)@.len(),
{
    s.iter_mut()
}

/// Eight elements of a `Copy` type, read and written by index.
pub struct RArray<T: Copy> {
    arr: [T; 8],
}

impl<T: Copy> View for RArray<T> {
    type V = Seq<T>;

    /// The eight elements in order.
    closed spec fn view(&self) -> Seq<T> {
        self.arr@
    }
}

impl<T: Copy> RArray<T> {
    /// An `RArray` always holds eight elements.
    pub proof fn lemma_len(&self)
        ensures
            self@.len() == 8,
    {
    }

    /// Wraps `arr`.
    pub fn new(arr: [T; 8]) -> (r: Self)
        ensures
            r@ == arr@,
    {
        Self { arr }
    }

    /// The element at `idx`.
    pub fn get(&self, idx: usize) -> (r: T)
        requires
            idx < 8,
        ensures
            r == self@[idx as int],
    {
        self.arr[idx]
    }

    /// Replaces the element at `idx` by `item`.
    pub fn set(&mut self, idx: usize, item: T)
        requires
            idx < 8,
        ensures
            final(self)@ == old(self)@.update(idx as int, item),
    {
        self.arr[idx] = item;
    }

    /// The number of elements, which is eight.
    pub fn len(&self) -> (r: usize)
        ensures
            r == 8,
            r == self@.len(),
    {
        self.arr.len()
    }

    /// An iterator over the elements in order.
    pub fn iter(&self) -> (it: Iter<'_, T>)
        ensures
            into_iter_elts(it) == self@,
    {
        self.arr.iter()
    }

    /// An iterator through which the elements can be replaced in order:
    /// it has eight references to hand out, one for each element, and what
    /// each is left with is the element in the end.
    pub fn iter_mut(&mut self) -> (it: IterMut<'_, T>)
        ensures
            it.remaining().len() == 8,
            forall|i: int|
                #![trigger it.remaining()[i]]
                0 <= i < 8 ==> *it.remaining()[i] == old(self)@[i],
            forall|i: int|
                #![trigger it.remaining()[i]]
                0 <= i < 8 ==> final(self)@[i] == *final(it.remaining()[i]),
            final(self)@.len() == 8,
    {
        slice_iter_mut(&mut self.arr)
    }
}

} // verus!
