//! Streams that can be read through cursors.
//!
//! A source of data ([`SplittableViewImpl`]) keeps the stream; a [`View`]
//! reads it from a position of its own, asking the source how much is
//! available and telling it how far it has read.

use crate::view::Poll;

pub mod cloneable;
pub mod sequence;
use vstd::prelude::*;
#[allow(unused_imports)]
use vstd::view::View as _;

verus! {

/// The number of elements of `source` available from position `index`: none
/// past the end.
pub open spec fn available_from<S: SplittableViewImpl>(source: &S, index: int) -> int {
    if index <= source.end() {
        source.end() - index
    } else {
        0
    }
}

/// A stream that readers can view by position.
pub trait SplittableViewImpl: Sized {
    /// The streamed type.
    type Item;

    /// The error produced by [`poll_available`](`Self::poll_available`).
    type Error;

    /// The source is usable.
    spec fn inv(&self) -> bool;

    /// The earliest position still retained: no reader will read before it
    /// again.
    spec fn first(&self) -> int;

    /// The position just past the last available element.
    spec fn end(&self) -> int;

    /// No more elements will become available.
    spec fn is_closed(&self) -> bool;

    /// The elements of the stream by position; those before
    /// [`first`](`Self::first`) are no longer retained.
    spec fn contents(&self) -> Seq<Self::Item>;

    /// A request for `len` elements exceeds what the source can ever grant.
    spec fn overflows(&self, len: nat) -> bool;

    /// [`poll_available`](`Self::poll_available`) answers for position
    /// `index`: every retained position up to the end does, and a source may
    /// answer for others too.
    spec fn answers(&self, index: int) -> bool;

    /// What every usable source keeps: its positions are ordered and fit in
    /// a `u64`, and its contents reach exactly to its end.
    proof fn lemma_inv(&self)
        requires
            self.inv(),
        ensures
            0 <= self.first() <= self.end() <= u64::MAX,
            self.contents().len() == self.end(),
            forall|index: int| self.first() <= index <= self.end() ==> #[trigger] self.answers(index),
    ;

    /// The source keeps its shape: positions, contents and limits.
    open spec fn same_stream(&self, other: &Self) -> bool {
        &&& other.first() == self.first()
        &&& other.end() == self.end()
        &&& other.is_closed() == self.is_closed()
        &&& other.contents() == self.contents()
        &&& forall|len: nat| #[trigger] other.overflows(len) == self.overflows(len)
    }

    /// Declare that no data before `index` will be read again.
    fn set_head(&mut self, index: u64)
        requires
            old(self).inv(),
            old(self).first() <= index <= old(self).end(),
        ensures
            final(self).inv(),
            final(self).first() == index,
            final(self).end() == old(self).end(),
            final(self).is_closed() == old(self).is_closed(),
            final(self).contents().len() == old(self).contents().len(),
            forall|p: int| index <= p < old(self).end() ==> #[trigger] final(self).contents()[p] == old(self).contents()[p],
            forall|len: nat| #[trigger] final(self).overflows(len) == old(self).overflows(len),
    ;

    /// Declare that no data before `index` will be read again, where `index`
    /// may lie before the current head.
    fn compare_set_head(&mut self, index: u64)
        requires
            old(self).inv(),
            index <= old(self).end(),
        ensures
            final(self).inv(),
            final(self).first() == if index > old(self).first() {
                index as int
            } else {
                old(self).first()
            },
            final(self).end() == old(self).end(),
            final(self).is_closed() == old(self).is_closed(),
            final(self).contents().len() == old(self).contents().len(),
            forall|p: int| final(self).first() <= p < old(self).end() ==> #[trigger] final(self).contents()[p] == old(self).contents()[p],
            forall|len: nat| #[trigger] final(self).overflows(len) == old(self).overflows(len),
    ;

    /// How many elements are available from `index`: ready once at least
    /// `len` are, or once the stream is closed.
    fn poll_available(&self, index: u64, len: usize) -> (r: Poll<Result<usize, Self::Error>>)
        requires
            self.inv(),
            self.answers(index as int),
        ensures
            match r {
                Poll::Ready(Ok(n)) => {
                    &&& !self.overflows(len as nat)
                    &&& n == (if index <= self.end() { self.end() - index } else { 0 })
                    &&& (n >= len || self.is_closed())
                },
                Poll::Ready(Err(_)) => self.overflows(len as nat),
                Poll::Pending => {
                    &&& !self.overflows(len as nat)
                    &&& (if index <= self.end() { self.end() - index } else { 0 }) < len
                    &&& !self.is_closed()
                },
            },
    ;

    /// The `len` elements from position `index`.
    fn view(&self, index: u64, len: usize) -> (r: &[Self::Item])
        requires
            self.inv(),
            self.first() <= index,
            index + len <= self.end(),
        ensures
            r@ == self.contents().subrange(index as int, index + len),
    ;
}

/// A stream whose elements readers can replace.
pub trait SplittableViewImplMut: SplittableViewImpl {
    /// Replace the element at position `index` with `value`.
    fn set(&mut self, index: u64, value: Self::Item)
        requires
            old(self).inv(),
            old(self).first() <= index < old(self).end(),
        ensures
            final(self).inv(),
            final(self).first() == old(self).first(),
            final(self).end() == old(self).end(),
            final(self).is_closed() == old(self).is_closed(),
            final(self).contents() == old(self).contents().update(index as int, value),
            forall|len: nat| #[trigger] final(self).overflows(len) == old(self).overflows(len),
    ;
}

/// A stream that can be read through views.
pub trait SplittableView: SplittableViewImpl {
    /// Create a view for a single reader.
    fn into_view(self) -> (r: View<Self>)
        requires
            self.inv(),
            self.first() == 0,
        ensures
            r.wf(),
            r.source() == self,
            r.spec_head() == 0,
            r.spec_len() == 0,
    {
        View::new(self)
    }

    /// Split into two views in sequence: what the first releases becomes
    /// available to the second.
    fn sequence(self) -> (r: (sequence::First, sequence::Second, sequence::Shared<Self>))
        requires
            self.inv(),
            self.first() == 0,
        ensures
            r.2.wf(),
            r.2.source() == self,
            r.2.boundary() == 0,
            !r.2.spec_closed(),
    {
        sequence::make_sequence(self)
    }
}

/// A stream that can be read, and changed, through views.
pub trait SplittableViewMut: SplittableView + SplittableViewImplMut {

}

impl<T: SplittableViewImpl> SplittableView for T {

}

impl<T: SplittableViewImplMut> SplittableViewMut for T {

}

/// A reader of a [`SplittableViewImpl`], viewing `len` elements from position
/// `head`.
pub struct View<S: SplittableViewImpl> {
    splittable: S,
    head: u64,
    len: usize,
    released: Ghost<Seq<S::Item>>,
}

impl<S: SplittableViewImpl> View<S> {
    /// The position of the first element of the view.
    pub closed spec fn spec_head(&self) -> int {
        self.head as int
    }

    /// The number of elements in the view.
    pub closed spec fn spec_len(&self) -> nat {
        self.len as nat
    }

    /// The number of elements in the view fits in a `usize`.
    pub proof fn lemma_len_fits(&self)
        ensures
            self.spec_len() <= usize::MAX,
    {
    }

    /// The source that this view reads.
    pub closed spec fn source(&self) -> S {
        self.splittable
    }

    /// Every element this view has released, in order.
    pub closed spec fn spec_released(&self) -> Seq<S::Item> {
        self.released@
    }

    /// The view is usable: it lies within the retained and available part
    /// of its source.
    pub open spec fn wf(&self) -> bool {
        &&& self.source().inv()
        &&& self.source().first() <= self.spec_head()
        &&& self.spec_head() + self.spec_len() <= self.source().end()
    }

    /// The elements of the view.
    pub open spec fn spec_view(&self) -> Seq<S::Item> {
        self.source().contents().subrange(self.spec_head(), self.spec_head() + self.spec_len())
    }

    /// Create a view at the start of a stream.
    pub fn new(splittable: S) -> (r: Self)
        requires
            splittable.inv(),
            splittable.first() == 0,
        ensures
            r.wf(),
            r.source() == splittable,
            r.spec_head() == 0,
            r.spec_len() == 0,
            r.spec_released() == Seq::<S::Item>::empty(),
    {
        proof {
            splittable.lemma_inv();
        }
        View { splittable, head: 0, len: 0, released: Ghost(Seq::empty()) }
    }

    /// Return the source.
    pub fn into_inner(self) -> (r: S)
        ensures
            r == self.source(),
    {
        self.splittable
    }

    /// Borrow the source.
    pub fn get_ref(&self) -> (r: &S)
        ensures
            *r == self.source(),
    {
        &self.splittable
    }

    /// Borrow the source mutably, for the writer of a shared stream.
    pub fn get_mut(&mut self) -> (r: &mut S)
        ensures
            *r == old(self).source(),
            final(self).source() == *final(r),
            final(self).spec_head() == old(self).spec_head(),
            final(self).spec_len() == old(self).spec_len(),
            final(self).spec_released() == old(self).spec_released(),
    {
        &mut self.splittable
    }

    /// Obtain the current view of the stream.
    pub fn view(&self) -> (r: &[S::Item])
        requires
            self.wf(),
        ensures
            r@ == self.spec_view(),
    {
        proof {
            self.splittable.lemma_inv();
        }
        self.splittable.view(self.head, self.len)
    }

    /// Attempt to obtain a view of at least `count` elements.
    ///
    /// When ready without error, the view holds every available element from
    /// its head: at least `count` of them unless the stream is closed.
    pub fn poll_grant(&mut self, count: usize) -> (r: Poll<Result<(), S::Error>>)
        requires
            old(self).wf(),
        ensures
            final(self).wf(),
            final(self).source() == old(self).source(),
            final(self).spec_head() == old(self).spec_head(),
            final(self).spec_released() == old(self).spec_released(),
            match r {
                Poll::Ready(Ok(())) => {
                    &&& !old(self).source().overflows(count as nat)
                    &&& final(self).spec_head() + final(self).spec_len() == old(self).source().end()
                    &&& (final(self).spec_len() >= count || old(self).source().is_closed())
                },
                Poll::Ready(Err(_)) => {
                    &&& old(self).source().overflows(count as nat)
                    &&& final(self).spec_len() == old(self).spec_len()
                },
                Poll::Pending => {
                    &&& !old(self).source().overflows(count as nat)
                    &&& old(self).source().end() - old(self).spec_head() < count
                    &&& !old(self).source().is_closed()
                    &&& final(self).spec_len() == old(self).spec_len()
                },
            },
    {
        proof {
            self.splittable.lemma_inv();
        }
        match self.splittable.poll_available(self.head, count) {
            Poll::Ready(Ok(len)) => {
                self.len = len;
                Poll::Ready(Ok(()))
            },
            Poll::Ready(Err(e)) => Poll::Ready(Err(e)),
            Poll::Pending => Poll::Pending,
        }
    }

    /// Advance past the first `count` elements in the current view.
    pub fn release(&mut self, count: usize)
        requires
            old(self).wf(),
            count <= old(self).spec_len(),
        ensures
            final(self).wf(),
            final(self).spec_head() == old(self).spec_head() + count,
            final(self).spec_len() == old(self).spec_len() - count,
            final(self).spec_view() == old(self).spec_view().subrange(
                count as int,
                old(self).spec_len() as int,
            ),
            final(self).source().end() == old(self).source().end(),
            final(self).source().is_closed() == old(self).source().is_closed(),
            final(self).source().first() == final(self).spec_head(),
            final(self).spec_released() == old(self).spec_released() + old(self).spec_view().subrange(0, count as int),
    {
        proof {
            self.splittable.lemma_inv();
        }
        let ghost passed = self.spec_view().subrange(0, count as int);
        self.released = Ghost(self.released@ + passed);
        self.len = self.len - count;
        self.head = self.head + count as u64;
        self.splittable.set_head(self.head);
        proof {
            self.splittable.lemma_inv();
        }
        assert(self.spec_view() =~= old(self).spec_view().subrange(count as int, old(self).spec_len() as int));
    }
}

impl<S: SplittableViewImplMut> View<S> {
    /// Replace element `index` of the current view with `value`.
    pub fn set(&mut self, index: usize, value: S::Item)
        requires
            old(self).wf(),
            index < old(self).spec_len(),
        ensures
            final(self).wf(),
            final(self).spec_head() == old(self).spec_head(),
            final(self).spec_len() == old(self).spec_len(),
            final(self).spec_view() == old(self).spec_view().update(index as int, value),
            final(self).spec_released() == old(self).spec_released(),
            final(self).source().is_closed() == old(self).source().is_closed(),
    {
        proof {
            self.splittable.lemma_inv();
        }
        let pos = self.head + index as u64;
        self.splittable.set(pos, value);
        proof {
            self.splittable.lemma_inv();
        }
        assert(self.spec_view() =~= old(self).spec_view().update(index as int, value));
    }
}

impl<S: SplittableViewImpl> crate::view::View for View<S> {
    type Item = S::Item;

    type Error = S::Error;

    open spec fn inv(&self) -> bool {
        self.wf()
    }

    open spec fn current(&self) -> Seq<S::Item> {
        self.spec_view()
    }

    open spec fn is_closed(&self) -> bool {
        self.source().is_closed()
    }

    open spec fn released(&self) -> Seq<S::Item> {
        self.spec_released()
    }

    /// The view extends to everything available from its head, when that
    /// is enough or the stream is closed.
    open spec fn grant_effect(&self, count: nat, after: Self, r: Poll<Result<(), S::Error>>) -> bool {
        &&& after.source() == self.source()
        &&& after.spec_head() == self.spec_head()
        &&& after.spec_released() == self.spec_released()
        &&& match r {
            Poll::Ready(Ok(())) => {
                &&& !self.source().overflows(count)
                &&& after.spec_head() + after.spec_len() == self.source().end()
                &&& (after.spec_len() >= count || self.source().is_closed())
            },
            Poll::Ready(Err(_)) => self.source().overflows(count) && after.spec_len() == self.spec_len(),
            Poll::Pending => {
                &&& !self.source().overflows(count)
                &&& self.source().end() - self.spec_head() < count
                &&& !self.source().is_closed()
                &&& after.spec_len() == self.spec_len()
            },
        }
    }

    open spec fn overflows(&self, count: nat) -> bool {
        self.source().overflows(count)
    }

    fn view(&self) -> (r: &[S::Item]) {
        View::view(self)
    }

    fn poll_grant(&mut self, count: usize) -> (r: Poll<Result<(), S::Error>>)
        ensures
            final(self).source() == old(self).source(),
            final(self).spec_head() == old(self).spec_head(),
            match r {
                Poll::Ready(Ok(())) => final(self).spec_head() + final(self).spec_len() == old(self).source().end(),
                _ => final(self).spec_len() == old(self).spec_len(),
            },
    {
        proof {
            self.splittable.lemma_inv();
        }
        let r = View::poll_grant(self, count);
        proof {
            self.splittable.lemma_inv();
        }
        assert(self.spec_view().subrange(0, old(self).spec_len() as int) =~= old(self).spec_view());
        r
    }

    fn release(&mut self, count: usize) {
        proof {
            self.splittable.lemma_inv();
        }
        View::release(self, count)
    }
}

impl<S: SplittableViewImplMut> crate::view::ViewMut for View<S> {
    fn set(&mut self, index: usize, value: S::Item) {
        proof {
            self.splittable.lemma_inv();
        }
        View::set(self, index, value)
    }
}

/// The largest of `head` and every index of `indices`.
pub open spec fn max_head(head: int, indices: Seq<u64>) -> int
    decreases indices.len(),
{
    if indices.len() == 0 {
        head
    } else {
        let earlier = max_head(head, indices.drop_last());
        if indices.last() > earlier {
            indices.last() as int
        } else {
            earlier
        }
    }
}

/// Successive calls of [`SplittableViewImpl::compare_set_head`] leave the
/// head at the largest of the starting head and every index given: no call
/// moves it back, and no larger index is lost. `states[k + 1]` is the source
/// after the call with `indices[k]`, as that call's contract gives it.
pub proof fn law_compare_set_head_is_max<S: SplittableViewImpl>(states: Seq<S>, indices: Seq<u64>)
    requires
        states.len() == indices.len() + 1,
        forall|k: int| 0 <= k < indices.len() ==> states[k + 1].first() == if #[trigger] indices[k] > states[k].first() {
            indices[k] as int
        } else {
            states[k].first()
        },
    ensures
        states.last().first() == max_head(states[0].first(), indices),
    decreases indices.len(),
{
    if indices.len() > 0 {
        let k = indices.len() - 1;
        law_compare_set_head_is_max(states.drop_last(), indices.drop_last());
        assert(indices[k] == indices.last());
    }
}

} // verus!
