//! Views into streams.
//!
//! A view is a window onto a stream: [`View::view`] shows the elements
//! currently granted, [`View::poll_grant`] asks for a larger window and
//! [`View::release`] moves the window past its first elements.

use vstd::prelude::*;
#[allow(unused_imports)]
use vstd::view::View as _;

verus! {

/// The outcome of polling a stream: ready with a value, or pending until the
/// stream changes.
pub enum Poll<T> {
    /// The request has completed with this value.
    Ready(T),
    /// The request cannot complete until the stream changes.
    Pending,
}

/// Obtain views into streams of contiguous data.
pub trait View: Sized {
    /// The streamed type.
    type Item;

    /// The error produced by [`poll_grant`](`Self::poll_grant`).
    type Error;

    /// The view is usable.
    spec fn inv(&self) -> bool;

    /// The elements currently granted.
    spec fn current(&self) -> Seq<Self::Item>;

    /// No more elements will be granted than the stream now holds.
    spec fn is_closed(&self) -> bool;

    /// Every element this view has released, in order.
    spec fn released(&self) -> Seq<Self::Item>;

    /// A grant of `count` elements on this view may leave it as `after`
    /// and answer `r`: what this kind of view does on a grant.
    spec fn grant_effect(&self, count: nat, after: Self, r: Poll<Result<(), Self::Error>>) -> bool;

    /// A grant of `count` elements exceeds what the view can ever grant.
    spec fn overflows(&self, count: nat) -> bool;

    /// Obtain the current view of the stream.
    fn view(&self) -> (r: &[Self::Item])
        requires
            self.inv(),
        ensures
            r@ == self.current(),
    ;

    /// Attempt to obtain a view of at least `count` elements.
    ///
    /// A grant only extends the view: the elements already granted stay
    /// first in it, unchanged. When ready without error the view holds at
    /// least `count` elements, or the stream is closed; an error means the
    /// request can never be granted; pending means the view is still shorter
    /// than `count` and the stream open.
    fn poll_grant(&mut self, count: usize) -> (r: Poll<Result<(), Self::Error>>)
        requires
            old(self).inv(),
        ensures
            final(self).inv(),
            old(self).current().len() <= final(self).current().len(),
            final(self).current().subrange(0, old(self).current().len() as int)
                == old(self).current(),
            final(self).released() == old(self).released(),
            old(self).grant_effect(count as nat, *final(self), r),
            match r {
                Poll::Ready(Ok(())) => {
                    &&& !final(self).overflows(count as nat)
                    &&& (final(self).current().len() >= count || final(self).is_closed())
                },
                Poll::Ready(Err(_)) => final(self).overflows(count as nat),
                Poll::Pending => {
                    &&& !final(self).overflows(count as nat)
                    &&& final(self).current().len() < count
                    &&& !final(self).is_closed()
                },
            },
    ;

    /// Advance past the first `count` elements of the current view.
    fn release(&mut self, count: usize)
        requires
            old(self).inv(),
            count <= old(self).current().len(),
        ensures
            final(self).inv(),
            final(self).current() == old(self).current().subrange(
                count as int,
                old(self).current().len() as int,
            ),
            final(self).released() == old(self).released() + old(self).current().subrange(0, count as int),
            final(self).is_closed() == old(self).is_closed(),
    ;
}

/// Obtain mutable views into streams of contiguous data.
pub trait ViewMut: View {
    /// Replace element `index` of the current view with `value`.
    fn set(&mut self, index: usize, value: Self::Item)
        requires
            old(self).inv(),
            index < old(self).current().len(),
        ensures
            final(self).inv(),
            final(self).current() == old(self).current().update(index as int, value),
            final(self).released() == old(self).released(),
            final(self).is_closed() == old(self).is_closed(),
    ;
}

/// A request for a view of at least `count` elements, completed by polling;
/// produced by [`grant`].
pub struct Grant<'a, T> {
    handle: &'a mut T,
    count: usize,
}

/// Create a request for a view of at least `count` elements.
pub fn grant<'a, T: View>(handle: &'a mut T, count: usize) -> (r: Grant<'a, T>)
    ensures
        r.spec_handle() == *old(handle),
        r.spec_count() == count,
{
    Grant { handle, count }
}

impl<'a, T: View> Grant<'a, T> {
    /// The view the request is for.
    pub closed spec fn spec_handle(&self) -> T {
        *self.handle
    }

    /// The number of elements requested.
    pub closed spec fn spec_count(&self) -> nat {
        self.count as nat
    }

    /// Poll the request once: [`View::poll_grant`] on the view.
    pub fn poll(&mut self) -> (r: Poll<Result<(), T::Error>>)
        requires
            old(self).spec_handle().inv(),
        ensures
            final(self).spec_handle().inv(),
            final(self).spec_count() == old(self).spec_count(),
            old(self).spec_handle().current().len() <= final(self).spec_handle().current().len(),
            final(self).spec_handle().current().subrange(
                0,
                old(self).spec_handle().current().len() as int,
            ) == old(self).spec_handle().current(),
            match r {
                Poll::Ready(Ok(())) => {
                    &&& !final(self).spec_handle().overflows(old(self).spec_count())
                    &&& (final(self).spec_handle().current().len() >= old(self).spec_count()
                        || final(self).spec_handle().is_closed())
                },
                Poll::Ready(Err(_)) => final(self).spec_handle().overflows(old(self).spec_count()),
                Poll::Pending => {
                    &&& !final(self).spec_handle().overflows(old(self).spec_count())
                    &&& final(self).spec_handle().current().len() < old(self).spec_count()
                    &&& !final(self).spec_handle().is_closed()
                },
            },
    {
        self.handle.poll_grant(self.count)
    }
}

/// A view whose grant errors are mapped by `F`; produced by [`map_error`].
pub struct MapError<V, E, F> {
    view: V,
    map: F,
    _error: core::marker::PhantomData<E>,
}

/// Maps the errors of `view` with `f`.
pub fn map_error<V: View, E, F: Fn(V::Error) -> E>(view: V, f: F) -> (r: MapError<V, E, F>)
    ensures
        r.inner() == view,
        r.mapping() == f,
{
    MapError { view, map: f, _error: core::marker::PhantomData }
}

impl<V, E, F> MapError<V, E, F> {
    /// The wrapped view.
    pub closed spec fn inner(&self) -> V {
        self.view
    }

    /// The error mapping.
    pub closed spec fn mapping(&self) -> F {
        self.map
    }

    /// Return the wrapped view.
    pub fn into_inner(self) -> (r: V)
        ensures
            r == self.inner(),
    {
        self.view
    }
}

impl<V: View, E, F: Fn(V::Error) -> E> View for MapError<V, E, F> {
    type Item = V::Item;

    type Error = E;

    open spec fn inv(&self) -> bool {
        &&& self.inner().inv()
        &&& forall|e: V::Error| #[trigger] call_requires(self.mapping(), (e,))
    }

    open spec fn current(&self) -> Seq<V::Item> {
        self.inner().current()
    }

    open spec fn is_closed(&self) -> bool {
        self.inner().is_closed()
    }

    open spec fn released(&self) -> Seq<V::Item> {
        self.inner().released()
    }

    /// The grant of the wrapped view, its error mapped.
    open spec fn grant_effect(&self, count: nat, after: Self, r: Poll<Result<(), E>>) -> bool {
        &&& after.mapping() == self.mapping()
        &&& match r {
            Poll::Ready(Ok(())) => self.inner().grant_effect(count, after.inner(), Poll::Ready(Ok(()))),
            Poll::Ready(Err(e)) => exists|inner_error: V::Error|
                #[trigger] self.inner().grant_effect(count, after.inner(), Poll::Ready(Err(inner_error)))
                    && call_ensures(self.mapping(), (inner_error,), e),
            Poll::Pending => self.inner().grant_effect(count, after.inner(), Poll::Pending),
        }
    }

    open spec fn overflows(&self, count: nat) -> bool {
        self.inner().overflows(count)
    }

    fn view(&self) -> (r: &[V::Item]) {
        self.view.view()
    }

    fn poll_grant(&mut self, count: usize) -> (r: Poll<Result<(), E>>)
        ensures
            final(self).mapping() == old(self).mapping(),
            r is Ready && r->0 is Err ==> exists|inner: V::Error|
                #[trigger] call_ensures(old(self).mapping(), (inner,), r->0->Err_0),
    {
        let polled = self.view.poll_grant(count);
        proof {
            assert forall|e: V::Error| #[trigger] call_requires(self.mapping(), (e,)) by {
                assert(call_requires(old(self).mapping(), (e,)));
            }
        }
        let ghost before = old(self).inner();
        let ghost after = self.inner();
        let ghost answer = polled;
        match polled {
            Poll::Ready(Ok(u)) => {
                assert(answer == Poll::Ready(Ok::<(), V::Error>(u)));
                assert(before.grant_effect(count as nat, after, Poll::Ready(Ok(()))));
                Poll::Ready(Ok(()))
            },
            Poll::Ready(Err(e)) => {
                assert(call_requires(self.mapping(), (e,)));
                assert(before.grant_effect(count as nat, after, Poll::Ready(Err(e))));
                let mapped = (self.map)(e);
                let res: Poll<Result<(), E>> = Poll::Ready(Err(mapped));
                assert(call_ensures(old(self).mapping(), (e,), res->0->Err_0));
                res
            },
            Poll::Pending => {
                assert(before.grant_effect(count as nat, after, Poll::Pending));
                Poll::Pending
            },
        }
    }

    fn release(&mut self, count: usize) {
        self.view.release(count);
        proof {
            assert forall|e: V::Error| #[trigger] call_requires(self.mapping(), (e,)) by {
                assert(call_requires(old(self).mapping(), (e,)));
            }
        }
    }
}

impl<V: ViewMut, E, F: Fn(V::Error) -> E> ViewMut for MapError<V, E, F> {
    fn set(&mut self, index: usize, value: V::Item) {
        self.view.set(index, value);
        proof {
            assert forall|e: V::Error| #[trigger] call_requires(self.mapping(), (e,)) by {
                assert(call_requires(old(self).mapping(), (e,)));
            }
        }
    }
}

} // verus!
