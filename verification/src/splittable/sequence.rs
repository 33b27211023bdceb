//! Two views of one stream in sequence: data that the first view releases
//! becomes available to the second.
//!
//! The shared state keeps the boundary between the two: the first view
//! reads the whole stream and moves the boundary as it releases; the second
//! reads only up to the boundary and moves the stream's own head.

use crate::splittable::{available_from, SplittableViewImpl, SplittableViewImplMut};
use crate::view::Poll;
use vstd::prelude::*;
#[allow(unused_imports)]
use vstd::view::View as _;

verus! {

/// The state shared by the two views of a sequence.
pub struct Shared<S> {
    splittable: S,
    head: u64,
    closed: bool,
}

impl<S: SplittableViewImpl> Shared<S> {
    /// The underlying stream.
    pub closed spec fn source(&self) -> S {
        self.splittable
    }

    /// The boundary: the position up to which the first view has released.
    pub closed spec fn boundary(&self) -> int {
        self.head as int
    }

    /// One of the two views has gone away.
    pub closed spec fn spec_closed(&self) -> bool {
        self.closed
    }

    /// The shared state is well formed: the boundary lies within the
    /// stream, and past its head while both views are attached.
    pub open spec fn wf(&self) -> bool {
        &&& self.source().inv()
        &&& self.boundary() <= self.source().end()
        &&& (self.source().first() <= self.boundary() || self.spec_closed())
    }
}

impl<S: SplittableViewImpl> Shared<S> {
    /// Borrow the underlying stream.
    pub fn get_ref(&self) -> (r: &S)
        ensures
            *r == self.source(),
    {
        &self.splittable
    }

    /// Borrow the underlying stream mutably, for its writer.
    pub fn get_mut(&mut self) -> (r: &mut S)
        ensures
            *r == old(self).source(),
            final(self).source() == *final(r),
            final(self).boundary() == old(self).boundary(),
            final(self).spec_closed() == old(self).spec_closed(),
    {
        &mut self.splittable
    }

    /// Returns the boundary between the two views.
    pub fn boundary_pos(&self) -> (r: u64)
        ensures
            r == self.boundary(),
    {
        self.head
    }
}

/// Splits a stream into two views in sequence.
pub fn make_sequence<S: SplittableViewImpl>(splittable: S) -> (r: (First, Second, Shared<S>))
    requires
        splittable.inv(),
        splittable.first() == 0,
    ensures
        r.2.wf(),
        r.2.source() == splittable,
        r.2.boundary() == 0,
        !r.2.spec_closed(),
{
    proof {
        splittable.lemma_inv();
    }
    (First, Second, Shared { splittable, head: 0, closed: false })
}

/// The first view of a sequence: it reads the whole stream, and what it
/// releases passes to the second view.
pub struct First;

impl First {
    /// Declare that the first view is done with the data before `index`.
    ///
    /// While the second view is attached this moves the boundary; after
    /// that, it moves the stream's head, but never backwards.
    pub fn set_head<S: SplittableViewImpl>(&self, shared: &mut Shared<S>, index: u64)
        requires
            old(shared).wf(),
            old(shared).boundary() <= index <= old(shared).source().end(),
        ensures
            final(shared).wf(),
            final(shared).spec_closed() == old(shared).spec_closed(),
            !old(shared).spec_closed() ==> final(shared).boundary() == index && final(shared).source() == old(
                shared,
            ).source(),
            old(shared).spec_closed() ==> {
                &&& final(shared).boundary() == old(shared).boundary()
                &&& final(shared).source().first() == if index > old(shared).source().first() {
                    index as int
                } else {
                    old(shared).source().first()
                }
                &&& final(shared).source().is_closed() == old(shared).source().is_closed()
                &&& forall|p: int| final(shared).source().first() <= p < final(shared).source().end()
                    ==> #[trigger] final(shared).source().contents()[p] == old(shared).source().contents()[p]
            },
            final(shared).source().end() == old(shared).source().end(),
    {
        if self.closed_of(shared) {
            // the second view is gone: release the data for good
            shared.splittable.compare_set_head(index);
        } else {
            shared.head = index;
        }
    }

    fn closed_of<S: SplittableViewImpl>(&self, shared: &Shared<S>) -> (r: bool)
        ensures
            r == shared.spec_closed(),
    {
        shared.closed
    }

    /// Declare that the first view is done with the data before `index`,
    /// where `index` may lie before the current boundary: the boundary only
    /// moves forward.
    pub fn compare_set_head<S: SplittableViewImpl>(&self, shared: &mut Shared<S>, index: u64)
        requires
            old(shared).wf(),
            index <= old(shared).source().end(),
        ensures
            final(shared).wf(),
            final(shared).spec_closed() == old(shared).spec_closed(),
            !old(shared).spec_closed() ==> {
                &&& final(shared).source() == old(shared).source()
                &&& final(shared).boundary() == if index > old(shared).boundary() {
                    index as int
                } else {
                    old(shared).boundary()
                }
            },
            old(shared).spec_closed() ==> {
                &&& final(shared).boundary() == old(shared).boundary()
                &&& final(shared).source().first() == if index > old(shared).source().first() {
                    index as int
                } else {
                    old(shared).source().first()
                }
                &&& final(shared).source().is_closed() == old(shared).source().is_closed()
                &&& forall|p: int| final(shared).source().first() <= p < final(shared).source().end()
                    ==> #[trigger] final(shared).source().contents()[p] == old(shared).source().contents()[p]
            },
            final(shared).source().end() == old(shared).source().end(),
    {
        if self.closed_of(shared) {
            shared.splittable.compare_set_head(index);
        } else {
            // only set the head if it's greater than the current head
            let current = shared.head;
            if index > current {
                shared.head = index;
            }
        }
    }

    /// How many elements are available to the first view from `index`.
    pub fn poll_available<S: SplittableViewImpl>(&self, shared: &Shared<S>, index: u64, len: usize) -> (r: Poll<
        Result<usize, S::Error>,
    >)
        requires
            shared.wf(),
            shared.source().answers(index as int),
        ensures
            match r {
                Poll::Ready(Ok(n)) => {
                    &&& !shared.source().overflows(len as nat)
                    &&& n == available_from(&shared.source(), index as int)
                    &&& (n >= len || shared.source().is_closed())
                },
                Poll::Ready(Err(_)) => shared.source().overflows(len as nat),
                Poll::Pending => {
                    &&& !shared.source().overflows(len as nat)
                    &&& available_from(&shared.source(), index as int) < len
                    &&& !shared.source().is_closed()
                },
            },
    {
        shared.splittable.poll_available(index, len)
    }

    /// The `len` elements from position `index`, for the first view.
    pub fn view<'a, S: SplittableViewImpl>(&self, shared: &'a Shared<S>, index: u64, len: usize) -> (r: &'a [S::Item])
        requires
            shared.wf(),
            shared.source().first() <= index,
            index + len <= shared.source().end(),
        ensures
            r@ == shared.source().contents().subrange(index as int, index + len),
    {
        shared.splittable.view(index, len)
    }

    /// Detaches the first view: the second view may finish with what was
    /// passed to it.
    pub fn drop<S: SplittableViewImpl>(self, shared: &mut Shared<S>)
        requires
            old(shared).wf(),
        ensures
            final(shared).wf(),
            final(shared).spec_closed(),
            final(shared).source() == old(shared).source(),
            final(shared).boundary() == old(shared).boundary(),
    {
        shared.closed = true;
    }
}

/// The second view of a sequence: it reads what the first view has
/// released.
pub struct Second;

impl Second {
    /// The number of elements from `start` up to the boundary.
    pub fn readable_len<S: SplittableViewImpl>(&self, shared: &Shared<S>, start: u64) -> (r: usize)
        requires
            shared.wf(),
            start <= shared.boundary(),
            shared.boundary() - start <= usize::MAX,
        ensures
            r == shared.boundary() - start,
    {
        (shared.head - start) as usize
    }

    /// Declare that the second view is done with the data before `index`:
    /// the stream's head moves.
    pub fn set_head<S: SplittableViewImpl>(&self, shared: &mut Shared<S>, index: u64)
        requires
            old(shared).wf(),
            old(shared).source().first() <= index <= old(shared).boundary(),
        ensures
            final(shared).wf(),
            final(shared).boundary() == old(shared).boundary(),
            final(shared).spec_closed() == old(shared).spec_closed(),
            final(shared).source().end() == old(shared).source().end(),
            final(shared).source().first() == index,
            final(shared).source().contents().subrange(index as int, final(shared).boundary())
                == old(shared).source().contents().subrange(index as int, old(shared).boundary()),
    {
        shared.splittable.set_head(index);
        proof {
            shared.splittable.lemma_inv();
            old(shared).splittable.lemma_inv();
            assert(shared.splittable.contents().subrange(index as int, shared.head as int)
                =~= old(shared).splittable.contents().subrange(index as int, old(shared).head as int));
        }
    }

    /// As [`set_head`](Self::set_head), where `index` may lie before the
    /// stream's head.
    pub fn compare_set_head<S: SplittableViewImpl>(&self, shared: &mut Shared<S>, index: u64)
        requires
            old(shared).wf(),
            index <= old(shared).boundary(),
        ensures
            final(shared).wf(),
            final(shared).boundary() == old(shared).boundary(),
            final(shared).spec_closed() == old(shared).spec_closed(),
            final(shared).source().end() == old(shared).source().end(),
            final(shared).source().first() == if index > old(shared).source().first() {
                index as int
            } else {
                old(shared).source().first()
            },
    {
        shared.splittable.compare_set_head(index);
    }

    /// How many elements are available to the second view from `index`:
    /// ready once at least `len` are, or once the first view has gone.
    pub fn poll_available<S: SplittableViewImpl>(&self, shared: &Shared<S>, index: u64, len: usize) -> (r: Poll<
        Result<usize, S::Error>,
    >)
        requires
            shared.wf(),
            shared.source().first() <= index <= shared.boundary(),
            shared.boundary() - index <= usize::MAX,
        ensures
            match r {
                Poll::Ready(Ok(n)) => {
                    &&& n == shared.boundary() - index
                    &&& (n >= len || shared.spec_closed())
                },
                Poll::Ready(Err(_)) => false,
                Poll::Pending => shared.boundary() - index < len && !shared.spec_closed(),
            },
    {
        let available = self.readable_len(shared, index);
        if available >= len || shared.closed {
            Poll::Ready(Ok(available))
        } else {
            Poll::Pending
        }
    }

    /// The `len` elements from position `index`, for the second view.
    pub fn view<'a, S: SplittableViewImpl>(&self, shared: &'a Shared<S>, index: u64, len: usize) -> (r: &'a [S::Item])
        requires
            shared.wf(),
            shared.source().first() <= index,
            index + len <= shared.boundary(),
        ensures
            r@ == shared.source().contents().subrange(index as int, index + len),
    {
        shared.splittable.view(index, len)
    }

    /// Detaches the second view: the stream drops everything before the
    /// boundary, and the first view now moves the stream's head itself.
    pub fn drop<S: SplittableViewImpl>(self, shared: &mut Shared<S>)
        requires
            old(shared).wf(),
        ensures
            final(shared).wf(),
            final(shared).spec_closed(),
            final(shared).boundary() == old(shared).boundary(),
            final(shared).source().end() == old(shared).source().end(),
            final(shared).source().first() == if old(shared).boundary() > old(shared).source().first() {
                old(shared).boundary()
            } else {
                old(shared).source().first()
            },
            final(shared).source().is_closed() == old(shared).source().is_closed(),
            forall|p: int| final(shared).source().first() <= p < final(shared).source().end()
                ==> #[trigger] final(shared).source().contents()[p] == old(shared).source().contents()[p],
    {
        shared.closed = true;
        let head = shared.head;
        shared.splittable.compare_set_head(head);
    }
}

impl First {
    /// Replace the element at position `index`, which the first view has
    /// not passed on to the second.
    pub fn set<S: SplittableViewImplMut>(&self, shared: &mut Shared<S>, index: u64, value: S::Item)
        requires
            old(shared).wf(),
            old(shared).source().first() <= index < old(shared).source().end(),
            !old(shared).spec_closed() ==> old(shared).boundary() <= index,
        ensures
            final(shared).wf(),
            final(shared).boundary() == old(shared).boundary(),
            final(shared).spec_closed() == old(shared).spec_closed(),
            final(shared).source().first() == old(shared).source().first(),
            final(shared).source().end() == old(shared).source().end(),
            final(shared).source().is_closed() == old(shared).source().is_closed(),
            final(shared).source().contents() == old(shared).source().contents().update(index as int, value),
    {
        shared.splittable.set(index, value);
    }
}

impl Second {
    /// Replace the element at position `index`, which the first view has
    /// passed on to the second.
    pub fn set<S: SplittableViewImplMut>(&self, shared: &mut Shared<S>, index: u64, value: S::Item)
        requires
            old(shared).wf(),
            old(shared).source().first() <= index < old(shared).boundary(),
        ensures
            final(shared).wf(),
            final(shared).boundary() == old(shared).boundary(),
            final(shared).spec_closed() == old(shared).spec_closed(),
            final(shared).source().first() == old(shared).source().first(),
            final(shared).source().end() == old(shared).source().end(),
            final(shared).source().is_closed() == old(shared).source().is_closed(),
            final(shared).source().contents() == old(shared).source().contents().update(index as int, value),
    {
        shared.splittable.set(index, value);
    }
}

/// What the first view releases becomes available to the second: after
/// [`First::set_head`] moves the boundary of an attached sequence to
/// `index`, a second view at `start` has exactly `index - start` elements
/// available, the elements it had plus those the first view released.
pub proof fn law_first_release_reaches_second<S: SplittableViewImpl>(
    before: Shared<S>,
    after: Shared<S>,
    index: u64,
    start: int,
)
    requires
        before.wf(),
        !before.spec_closed(),
        before.boundary() <= index <= before.source().end(),
        after.boundary() == index,
        after.source() == before.source(),
        after.spec_closed() == before.spec_closed(),
        before.source().first() <= start <= before.boundary(),
    ensures
        after.wf(),
        after.source().first() <= start <= after.boundary(),
        after.boundary() - start == (before.boundary() - start) + (index - before.boundary()),
        after.source().contents().subrange(start, after.boundary()) == before.source().contents().subrange(
            start,
            index as int,
        ),
{
}

} // verus!
