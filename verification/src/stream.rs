//! Streams written through reservations and read through requests.
//!
//! A [`Sink`] reserves slots, fills them and commits them to the stream; a
//! [`Source`] requests elements of the stream and consumes them. The
//! extension traits turn each of these calls into a request that is
//! completed by polling.

use crate::view::Poll;
use vstd::prelude::*;
#[allow(unused_imports)]
use vstd::view::View as _;

verus! {

/// Error produced by a buffer's writer or readers.
#[derive(Copy, Clone, Debug, PartialEq, Eq, Structural)]
pub enum Error {
    /// The stream has been closed and cannot satisfy the request.
    Closed,
    /// The request exceeds what the buffer can hold or what was granted.
    Overflow,
}

/// What a request for `count` elements may answer, for an end that holds
/// `len` elements once answered: ready once it holds `count`; an overflow
/// when the request can never be met; closed when the stream has ended
/// short of `count`; pending while it is still open.
pub open spec fn request_outcome(
    r: Poll<Result<(), Error>>,
    count: nat,
    len: nat,
    closed: bool,
    overflows: bool,
) -> bool {
    match r {
        Poll::Ready(Ok(())) => !overflows && len >= count,
        Poll::Ready(Err(Error::Overflow)) => overflows,
        Poll::Ready(Err(Error::Closed)) => !overflows && closed && len < count,
        Poll::Pending => !overflows && !closed && len < count,
    }
}

/// What advancing past `count` of the elements `before` may answer, leaving
/// `after`: done at once when there are that many, an overflow otherwise.
pub open spec fn advance_outcome<T>(r: Poll<Result<(), Error>>, count: nat, before: Seq<T>, after: Seq<T>) -> bool {
    match r {
        Poll::Ready(Ok(())) => count <= before.len() && after == before.subrange(count as int, before.len() as int),
        Poll::Ready(Err(e)) => e == Error::Overflow && count > before.len() && after == before,
        Poll::Pending => false,
    }
}

/// The writer's end of a stream.
pub trait Sink: Sized {
    /// The streamed type.
    type Item;

    /// The writer is usable.
    spec fn inv(&self) -> bool;

    /// The slots currently reserved.
    spec fn reserved(&self) -> Seq<Self::Item>;

    /// The stream has ended.
    spec fn is_closed(&self) -> bool;

    /// A request for `count` slots can never be met.
    spec fn overflows(&self, count: nat) -> bool;

    /// Obtain the reserved slots.
    fn sink(&self) -> (r: &[Self::Item])
        requires
            self.inv(),
        ensures
            r@ == self.reserved(),
    ;

    /// Write `value` to reserved slot `index`.
    fn set(&mut self, index: usize, value: Self::Item)
        requires
            old(self).inv(),
            index < old(self).reserved().len(),
        ensures
            final(self).inv(),
            final(self).reserved() == old(self).reserved().update(index as int, value),
    ;

    /// Attempt to reserve at least `count` slots.
    fn poll_reserve(&mut self, count: usize) -> (r: Poll<Result<(), Error>>)
        requires
            old(self).inv(),
        ensures
            final(self).inv(),
            request_outcome(
                r,
                count as nat,
                final(self).reserved().len(),
                final(self).is_closed(),
                final(self).overflows(count as nat),
            ),
    ;

    /// Commit the first `count` reserved slots to the stream.
    fn poll_commit(&mut self, count: usize) -> (r: Poll<Result<(), Error>>)
        requires
            old(self).inv(),
        ensures
            final(self).inv(),
            advance_outcome(r, count as nat, old(self).reserved(), final(self).reserved()),
    ;
}

/// A reader's end of a stream.
pub trait Source: Sized {
    /// The streamed type.
    type Item;

    /// The reader is usable.
    spec fn inv(&self) -> bool;

    /// The elements currently requested.
    spec fn requested(&self) -> Seq<Self::Item>;

    /// The stream has ended.
    spec fn is_closed(&self) -> bool;

    /// A request for `count` elements can never be met.
    spec fn overflows(&self, count: nat) -> bool;

    /// Obtain the requested elements.
    fn source(&self) -> (r: &[Self::Item])
        requires
            self.inv(),
        ensures
            r@ == self.requested(),
    ;

    /// Attempt to request at least `count` elements.
    fn poll_request(&mut self, count: usize) -> (r: Poll<Result<(), Error>>)
        requires
            old(self).inv(),
        ensures
            final(self).inv(),
            request_outcome(
                r,
                count as nat,
                final(self).requested().len(),
                final(self).is_closed(),
                final(self).overflows(count as nat),
            ),
    ;

    /// Advance past the first `count` requested elements.
    fn poll_consume(&mut self, count: usize) -> (r: Poll<Result<(), Error>>)
        requires
            old(self).inv(),
        ensures
            final(self).inv(),
            advance_outcome(r, count as nat, old(self).requested(), final(self).requested()),
    ;
}

/// A reader that may change the elements it has requested.
pub trait SourceMut: Source {
    /// Replace requested element `index` with `value`.
    fn set(&mut self, index: usize, value: Self::Item)
        requires
            old(self).inv(),
            index < old(self).requested().len(),
        ensures
            final(self).inv(),
            final(self).requested() == old(self).requested().update(index as int, value),
    ;
}

/// A request to reserve slots, completed by polling; produced by
/// [`SinkExt::reserve`].
pub struct Reserve<'a, T> {
    handle: &'a mut T,
    count: usize,
}

impl<'a, T: Sink> Reserve<'a, T> {
    /// The end the request is for.
    pub closed spec fn spec_handle(&self) -> T {
        *self.handle
    }

    /// The number of elements of the request.
    pub closed spec fn spec_count(&self) -> nat {
        self.count as nat
    }

    /// Poll the request once: [`Sink::poll_reserve`] on its end.
    pub fn poll(&mut self) -> (r: Poll<Result<(), Error>>)
        requires
            old(self).spec_handle().inv(),
        ensures
            final(self).spec_handle().inv(),
            final(self).spec_count() == old(self).spec_count(),
            request_outcome(
                r,
                old(self).spec_count(),
                final(self).spec_handle().reserved().len(),
                final(self).spec_handle().is_closed(),
                final(self).spec_handle().overflows(old(self).spec_count()),
            ),
    {
        self.handle.poll_reserve(self.count)
    }
}

/// A request to commit reserved slots, completed by polling; produced by
/// [`SinkExt::commit`].
pub struct Commit<'a, T> {
    handle: &'a mut T,
    count: usize,
}

impl<'a, T: Sink> Commit<'a, T> {
    /// The end the request is for.
    pub closed spec fn spec_handle(&self) -> T {
        *self.handle
    }

    /// The number of elements of the request.
    pub closed spec fn spec_count(&self) -> nat {
        self.count as nat
    }

    /// Poll the request once: [`Sink::poll_commit`] on its end.
    pub fn poll(&mut self) -> (r: Poll<Result<(), Error>>)
        requires
            old(self).spec_handle().inv(),
        ensures
            final(self).spec_handle().inv(),
            final(self).spec_count() == old(self).spec_count(),
            advance_outcome(
                r,
                old(self).spec_count(),
                old(self).spec_handle().reserved(),
                final(self).spec_handle().reserved(),
            ),
    {
        self.handle.poll_commit(self.count)
    }
}

/// A request for elements, completed by polling; produced by
/// [`SourceExt::request`].
pub struct Request<'a, T> {
    handle: &'a mut T,
    count: usize,
}

impl<'a, T: Source> Request<'a, T> {
    /// The end the request is for.
    pub closed spec fn spec_handle(&self) -> T {
        *self.handle
    }

    /// The number of elements of the request.
    pub closed spec fn spec_count(&self) -> nat {
        self.count as nat
    }

    /// Poll the request once: [`Source::poll_request`] on its end.
    pub fn poll(&mut self) -> (r: Poll<Result<(), Error>>)
        requires
            old(self).spec_handle().inv(),
        ensures
            final(self).spec_handle().inv(),
            final(self).spec_count() == old(self).spec_count(),
            request_outcome(
                r,
                old(self).spec_count(),
                final(self).spec_handle().requested().len(),
                final(self).spec_handle().is_closed(),
                final(self).spec_handle().overflows(old(self).spec_count()),
            ),
    {
        self.handle.poll_request(self.count)
    }
}

/// A request to consume requested elements, completed by polling; produced by
/// [`SourceExt::consume`].
pub struct Consume<'a, T> {
    handle: &'a mut T,
    count: usize,
}

impl<'a, T: Source> Consume<'a, T> {
    /// The end the request is for.
    pub closed spec fn spec_handle(&self) -> T {
        *self.handle
    }

    /// The number of elements of the request.
    pub closed spec fn spec_count(&self) -> nat {
        self.count as nat
    }

    /// Poll the request once: [`Source::poll_consume`] on its end.
    pub fn poll(&mut self) -> (r: Poll<Result<(), Error>>)
        requires
            old(self).spec_handle().inv(),
        ensures
            final(self).spec_handle().inv(),
            final(self).spec_count() == old(self).spec_count(),
            advance_outcome(
                r,
                old(self).spec_count(),
                old(self).spec_handle().requested(),
                final(self).spec_handle().requested(),
            ),
    {
        self.handle.poll_consume(self.count)
    }
}

/// Requests on a [`Sink`] that are completed by polling.
pub trait SinkExt: Sink {
    /// Create a request to reserve at least `count` slots.
    fn reserve(&mut self, count: usize) -> (r: Reserve<'_, Self>)
        ensures
            r.spec_handle() == *old(self),
            r.spec_count() == count,
    ;

    /// Create a request to commit the first `count` reserved slots.
    fn commit(&mut self, count: usize) -> (r: Commit<'_, Self>)
        ensures
            r.spec_handle() == *old(self),
            r.spec_count() == count,
    ;
}

impl<S: Sink> SinkExt for S {
    fn reserve(&mut self, count: usize) -> (r: Reserve<'_, Self>) {
        Reserve { handle: self, count }
    }

    fn commit(&mut self, count: usize) -> (r: Commit<'_, Self>) {
        Commit { handle: self, count }
    }
}

/// Requests on a [`Source`] that are completed by polling.
pub trait SourceExt: Source {
    /// Create a request for at least `count` elements.
    fn request(&mut self, count: usize) -> (r: Request<'_, Self>)
        ensures
            r.spec_handle() == *old(self),
            r.spec_count() == count,
    ;

    /// Create a request to consume the first `count` requested elements.
    fn consume(&mut self, count: usize) -> (r: Consume<'_, Self>)
        ensures
            r.spec_handle() == *old(self),
            r.spec_count() == count,
    ;
}

impl<S: Source> SourceExt for S {
    fn request(&mut self, count: usize) -> (r: Request<'_, Self>) {
        Request { handle: self, count }
    }

    fn consume(&mut self, count: usize) -> (r: Consume<'_, Self>) {
        Consume { handle: self, count }
    }
}

} // verus!
