//! Utilities for working with slices.

use crate::splittable::{SplittableViewImpl, SplittableViewImplMut};
use crate::view::Poll;
use core::convert::Infallible;
use vstd::prelude::*;
use vstd::slice::{slice_subrange, spec_slice_len};

verus! {

broadcast use vstd::slice::axiom_spec_len;

/// Treats a slice as a stream.
pub struct Slice<'a, T>(&'a [T], Ghost<int>);

impl<'a, T> Slice<'a, T> {
    /// The elements of the slice.
    pub closed spec fn spec_slice(&self) -> Seq<T> {
        self.0@
    }

    /// The position before which readers have declared they are done.
    pub closed spec fn spec_head(&self) -> int {
        self.1@
    }

    /// Create a stream from a slice.
    pub fn new(slice: &'a [T]) -> (r: Self)
        ensures
            r.spec_slice() == slice@,
            r.first() == 0,
    {
        Slice(slice, Ghost(0))
    }

    /// Return the slice the stream was made from.
    pub fn into_inner(self) -> (r: &'a [T])
        ensures
            r@ == self.spec_slice(),
    {
        self.0
    }
}

impl<'a, T> SplittableViewImpl for Slice<'a, T> {
    type Item = T;

    type Error = Infallible;

    open spec fn inv(&self) -> bool {
        0 <= self.spec_head() <= self.spec_slice().len()
    }

    open spec fn first(&self) -> int {
        self.spec_head()
    }

    open spec fn end(&self) -> int {
        self.spec_slice().len() as int
    }

    open spec fn is_closed(&self) -> bool {
        true
    }

    open spec fn contents(&self) -> Seq<T> {
        self.spec_slice()
    }

    open spec fn overflows(&self, len: nat) -> bool {
        false
    }

    open spec fn answers(&self, index: int) -> bool {
        true
    }

    proof fn lemma_inv(&self) {
        assert(spec_slice_len(&*self.0) == self.0@.len());
    }

    fn set_head(&mut self, index: u64) {
        self.1 = Ghost(index as int);
    }

    fn compare_set_head(&mut self, index: u64) {
        self.1 = Ghost(if index > self.1@ { index as int } else { self.1@ });
    }

    fn poll_available(&self, index: u64, len: usize) -> (r: Poll<Result<usize, Infallible>>) {
        let available = self.0.len();
        if index < available as u64 {
            Poll::Ready(Ok(available - index as usize))
        } else {
            Poll::Ready(Ok(0))
        }
    }

    fn view(&self, index: u64, len: usize) -> (r: &[T]) {
        proof {
            assert(spec_slice_len(&*self.0) == self.0@.len());
        }
        let index = index as usize;
        slice_subrange(self.0, index, index + len)
    }
}

/// Treats a mutable slice as a stream.
pub struct SliceMut<'a, T>(
    /// The borrowed slice, which the stream reads and writes in place.
    pub &'a mut [T],
    /// The position before which readers have declared they are done.
    pub Ghost<int>,
);

impl<'a, T> SliceMut<'a, T> {
    /// The elements of the slice.
    pub open spec fn spec_slice(&self) -> Seq<T> {
        self.0@
    }

    /// The position before which readers have declared they are done.
    pub open spec fn spec_head(&self) -> int {
        self.1@
    }

    /// Create a stream from a slice. The stream reads and writes the slice
    /// in place: what the stream holds when it is done is what the slice
    /// then holds.
    pub fn new(slice: &'a mut [T]) -> (r: Self)
        ensures
            r.spec_slice() == old(slice)@,
            r.first() == 0,
            final(slice)@ == final(r.0)@,
    {
        SliceMut(slice, Ghost(0))
    }

    /// Return the slice the stream was made from.
    pub fn into_inner(self) -> (r: &'a mut [T])
        ensures
            r@ == self.spec_slice(),
            final(r)@ == final(self.0)@,
    {
        self.0
    }
}

impl<'a, T> SplittableViewImpl for SliceMut<'a, T> {
    type Item = T;

    type Error = Infallible;

    open spec fn inv(&self) -> bool {
        0 <= self.spec_head() <= self.spec_slice().len()
    }

    open spec fn first(&self) -> int {
        self.spec_head()
    }

    open spec fn end(&self) -> int {
        self.spec_slice().len() as int
    }

    open spec fn is_closed(&self) -> bool {
        true
    }

    open spec fn contents(&self) -> Seq<T> {
        self.spec_slice()
    }

    open spec fn overflows(&self, len: nat) -> bool {
        false
    }

    open spec fn answers(&self, index: int) -> bool {
        true
    }

    proof fn lemma_inv(&self) {
        assert(spec_slice_len(&*self.0) == self.0@.len());
    }

    fn set_head(&mut self, index: u64)
        ensures
            final(self).0 == old(self).0,
    {
        self.1 = Ghost(index as int);
    }

    fn compare_set_head(&mut self, index: u64)
        ensures
            final(self).0 == old(self).0,
    {
        self.1 = Ghost(if index > self.1@ { index as int } else { self.1@ });
    }

    fn poll_available(&self, index: u64, len: usize) -> (r: Poll<Result<usize, Infallible>>) {
        let available = self.0.len();
        if index < available as u64 {
            Poll::Ready(Ok(available - index as usize))
        } else {
            Poll::Ready(Ok(0))
        }
    }

    fn view(&self, index: u64, len: usize) -> (r: &[T]) {
        proof {
            assert(spec_slice_len(&*self.0) == self.0@.len());
        }
        let index = index as usize;
        let whole: &[T] = &*self.0;
        slice_subrange(whole, index, index + len)
    }
}

impl<'a, T> SplittableViewImplMut for SliceMut<'a, T> {
    fn set(&mut self, index: u64, value: T)
        ensures
            final(final(self).0)@ == final(old(self).0)@,
    {
        let index = index as usize;
        self.0[index] = value;
    }
}

} // verus!
