//! Lazily initialized views.

use crate::view::{Poll, View, ViewMut};
use vstd::prelude::*;
#[allow(unused_imports)]
use vstd::view::View as _;

verus! {

/// A lazily initialized view.
///
/// The inner view is only created, by calling `init`, when a grant of at
/// least one element is first requested.
pub struct Lazy<V, F> {
    view: Option<V>,
    init: Option<F>,
}

impl<V, F> Lazy<V, F> {
    /// The inner view, once initialized.
    pub closed spec fn inner(&self) -> Option<V> {
        self.view
    }

    /// The initialization function, until it has been called.
    pub closed spec fn initializer(&self) -> Option<F> {
        self.init
    }

    /// Return the inner view, if it has been initialized.
    pub fn into_inner(self) -> (r: Option<V>)
        ensures
            r == self.inner(),
    {
        self.view
    }
}

impl<V: View, F: FnOnce() -> V> Lazy<V, F> {
    /// `init` can be called, and creates a usable view that has released
    /// nothing yet.
    pub open spec fn valid_init(init: F) -> bool {
        &&& call_requires(init, ())
        &&& forall|v: V| #[trigger] call_ensures(init, (), v) ==> v.inv() && v.released().len() == 0
    }

    /// Create a new lazy view.
    pub fn new(init: F) -> (r: Self)
        requires
            Self::valid_init(init),
        ensures
            r.inner() is None,
            r.initializer() == Some(init),
    {
        Lazy { view: None, init: Some(init) }
    }
}

impl<V: View, F: FnOnce() -> V> View for Lazy<V, F> {
    type Item = V::Item;

    type Error = V::Error;

    /// Before the view is created the initializer is there to create it;
    /// after, it has been used up.
    open spec fn inv(&self) -> bool {
        match self.inner() {
            Some(v) => v.inv() && self.initializer() is None,
            None => self.initializer() matches Some(f) && Self::valid_init(f),
        }
    }

    open spec fn current(&self) -> Seq<V::Item> {
        match self.inner() {
            Some(v) => v.current(),
            None => Seq::empty(),
        }
    }

    open spec fn is_closed(&self) -> bool {
        match self.inner() {
            Some(v) => v.is_closed(),
            None => false,
        }
    }

    open spec fn released(&self) -> Seq<V::Item> {
        match self.inner() {
            Some(v) => v.released(),
            None => Seq::empty(),
        }
    }

    /// A grant of nothing changes nothing. Any other grant is the grant of
    /// the inner view, which the initializer first creates if need be.
    open spec fn grant_effect(&self, count: nat, after: Self, r: Poll<Result<(), V::Error>>) -> bool {
        if count == 0 {
            r matches Poll::Ready(Ok(())) && after == *self
        } else {
            &&& after.initializer() is None
            &&& after.inner() is Some
            &&& match self.inner() {
                Some(v) => v.grant_effect(count, after.inner()->0, r),
                None => exists|created: V|
                    #[trigger] call_ensures(self.initializer()->0, (), created)
                        && created.grant_effect(count, after.inner()->0, r),
            }
        }
    }

    /// A grant of nothing always succeeds, without creating the view.
    open spec fn overflows(&self, count: nat) -> bool {
        count > 0 && match self.inner() {
            Some(v) => v.overflows(count),
            None => false,
        }
    }

    fn view(&self) -> (r: &[V::Item]) {
        match &self.view {
            Some(v) => v.view(),
            None => {
                let empty: &[V::Item] = &[];
                assert(empty@ =~= Seq::<V::Item>::empty());
                empty
            },
        }
    }

    fn poll_grant(&mut self, count: usize) -> (r: Poll<Result<(), V::Error>>)
        ensures
            count == 0 ==> (r matches Poll::Ready(Ok(()))) && *final(self) == *old(self),
            count > 0 ==> final(self).inner() is Some && final(self).initializer() is None,
            count > 0 ==> match old(self).inner() {
                Some(v) => v.grant_effect(count as nat, final(self).inner()->0, r),
                None => exists|created: V|
                    #[trigger] call_ensures(old(self).initializer()->0, (), created)
                        && created.grant_effect(count as nat, final(self).inner()->0, r),
            },
    {
        if count > 0 {
            let mut v = match self.view.take() {
                Some(v) => v,
                None => {
                    let init = self.init.take().unwrap();
                    init()
                },
            };
            let r = v.poll_grant(count);
            self.view = Some(v);
            r
        } else {
            Poll::Ready(Ok(()))
        }
    }

    fn release(&mut self, count: usize)
        ensures
            count == 0 ==> *final(self) == *old(self),
            final(self).inner() is Some == old(self).inner() is Some,
            final(self).initializer() == old(self).initializer(),
    {
        if count > 0 {
            let mut v = self.view.take().unwrap();
            v.release(count);
            self.view = Some(v);
        }
    }
}

impl<V: ViewMut, F: FnOnce() -> V> ViewMut for Lazy<V, F> {
    fn set(&mut self, index: usize, value: V::Item) {
        let mut v = self.view.take().unwrap();
        v.set(index, value);
        self.view = Some(v);
    }
}

/// The state shared by the two ends of a lazily created channel: the
/// function that creates the channel, until the writer's end calls it, and
/// then the reader's end, until the reader takes it.
pub struct LazyChannelImpl<Sink, Source, F> {
    ready: bool,
    source: Option<Source>,
    init: Option<F>,
    _sink: core::marker::PhantomData<Sink>,
}

impl<Sink: View, Source: View, F: FnOnce() -> (Sink, Source)> LazyChannelImpl<Sink, Source, F> {
    /// The channel has been created.
    pub closed spec fn spec_ready(&self) -> bool {
        self.ready
    }

    /// The reader's end, created and not yet taken.
    pub closed spec fn spec_source(&self) -> Option<Source> {
        self.source
    }

    /// The function that creates the channel, until it is called.
    pub closed spec fn spec_init(&self) -> Option<F> {
        self.init
    }

    /// `init` can be called, and creates two usable ends.
    pub open spec fn valid_init(init: F) -> bool {
        &&& call_requires(init, ())
        &&& forall|ends: (Sink, Source)| #[trigger] call_ensures(init, (), ends) ==> {
            &&& ends.0.inv()
            &&& ends.1.inv()
        }
    }

    /// The shared state is usable: before the channel is created the
    /// function is there to create it; after, the reader's end, until taken,
    /// is usable.
    pub open spec fn inv(&self) -> bool {
        &&& !self.spec_ready() ==> (self.spec_init() matches Some(f) && Self::valid_init(f)) && self.spec_source() is None
        &&& self.spec_ready() ==> self.spec_init() is None && (self.spec_source() matches Some(s) ==> s.inv())
    }

    fn new(f: F) -> (r: Self)
        requires
            Self::valid_init(f),
        ensures
            r.inv(),
            !r.spec_ready(),
    {
        LazyChannelImpl { ready: false, source: None, init: Some(f), _sink: core::marker::PhantomData }
    }

    /// Creates the channel, keeps the reader's end and returns the writer's.
    fn take_sink(&mut self) -> (r: Sink)
        requires
            old(self).inv(),
            !old(self).spec_ready(),
        ensures
            final(self).inv(),
            final(self).spec_ready(),
            final(self).spec_source() is Some,
            r.inv(),
    {
        let init = self.init.take().unwrap();
        let (sink, source) = init();
        self.source = Some(source);
        self.ready = true;
        sink
    }

    /// Takes the reader's end, once the channel has been created.
    fn try_take_source(&mut self) -> (r: Option<Source>)
        requires
            old(self).inv(),
        ensures
            final(self).inv(),
            final(self).spec_ready() == old(self).spec_ready(),
            !old(self).spec_ready() ==> r is None && *final(self) == *old(self),
            old(self).spec_ready() ==> r == old(self).spec_source() && final(self).spec_source() is None,
            r matches Some(s) ==> s.inv(),
    {
        if self.ready {
            self.source.take()
        } else {
            None
        }
    }
}

/// The writer's end of a lazily created channel: the channel is created
/// when it first asks for a grant of at least one element.
pub struct LazyChannelSink<Sink> {
    view: Option<Sink>,
}

/// The reader's end of a lazily created channel.
pub struct LazyChannelSource<Source> {
    view: Option<Source>,
}

/// Creates the two ends of a channel that `f` creates once the writer first
/// asks for a grant.
pub fn lazy_channel<Sink: View, Source: View, F: FnOnce() -> (Sink, Source)>(f: F) -> (r: (
    LazyChannelSink<Sink>,
    LazyChannelSource<Source>,
    LazyChannelImpl<Sink, Source, F>,
))
    requires
        LazyChannelImpl::<Sink, Source, F>::valid_init(f),
    ensures
        r.0.inner() is None,
        r.1.inner() is None,
        r.2.inv(),
        !r.2.spec_ready(),
{
    (LazyChannelSink { view: None }, LazyChannelSource { view: None }, LazyChannelImpl::new(f))
}

impl<Sink: View> LazyChannelSink<Sink> {
    /// The writer's view, once the channel exists.
    pub closed spec fn inner(&self) -> Option<Sink> {
        self.view
    }

    /// The writer's end is consistent with the shared state: it holds a
    /// view exactly when the channel has been created.
    pub open spec fn wf_for<Source: View, F: FnOnce() -> (Sink, Source)>(
        &self,
        shared: &LazyChannelImpl<Sink, Source, F>,
    ) -> bool {
        &&& shared.inv()
        &&& (self.inner() is Some <==> shared.spec_ready())
        &&& self.inner() matches Some(v) ==> (v.inv())
    }

    /// The elements currently granted.
    pub open spec fn current(&self) -> Seq<Sink::Item> {
        match self.inner() {
            Some(v) => v.current(),
            None => Seq::empty(),
        }
    }

    /// No more elements will be granted than the stream now holds.
    pub open spec fn is_closed(&self) -> bool {
        match self.inner() {
            Some(v) => v.is_closed(),
            None => false,
        }
    }

    /// A grant of `count` elements can never be met; a grant of nothing
    /// always succeeds.
    pub open spec fn overflows(&self, count: nat) -> bool {
        count > 0 && match self.inner() {
            Some(v) => v.overflows(count),
            None => false,
        }
    }

    /// Obtain the current view of the stream.
    pub fn view(&self) -> (r: &[Sink::Item])
        requires
            self.inner() matches Some(v) ==> v.inv(),
        ensures
            r@ == self.current(),
    {
        match &self.view {
            Some(v) => v.view(),
            None => {
                let empty: &[Sink::Item] = &[];
                assert(empty@ =~= Seq::<Sink::Item>::empty());
                empty
            },
        }
    }

    /// Attempt to obtain a view of at least `count` elements, creating the
    /// channel first if `count` is positive and it does not exist yet.
    pub fn poll_grant<Source: View, F: FnOnce() -> (Sink, Source)>(
        &mut self,
        shared: &mut LazyChannelImpl<Sink, Source, F>,
        count: usize,
    ) -> (r: Poll<Result<(), Sink::Error>>)
        requires
            old(self).wf_for(old(shared)),
        ensures
            final(self).wf_for(final(shared)),
            count == 0 ==> (r matches Poll::Ready(Ok(()))) && *final(self) == *old(self) && *final(shared)
                == *old(shared),
            count > 0 ==> final(shared).spec_ready(),
            old(shared).spec_ready() ==> *final(shared) == *old(shared),
            old(self).current().len() <= final(self).current().len(),
            final(self).current().subrange(0, old(self).current().len() as int) == old(self).current(),
            match r {
                Poll::Ready(Ok(())) => {
                    &&& !final(self).overflows(count as nat)
                    &&& (final(self).current().len() >= count || final(self).is_closed())
                },
                Poll::Ready(Err(_)) => final(self).overflows(count as nat),
                Poll::Pending => {
                    &&& !final(self).overflows(count as nat)
                    &&& final(self).current().len() < count
                    &&& !final(self).is_closed()
                },
            },
    {
        if count > 0 {
            let mut v = match self.view.take() {
                Some(v) => v,
                None => shared.take_sink(),
            };
            let r = v.poll_grant(count);
            self.view = Some(v);
            r
        } else {
            Poll::Ready(Ok(()))
        }
    }

    /// Advance past the first `count` elements of the current view.
    pub fn release(&mut self, count: usize)
        requires
            old(self).inner() matches Some(v) ==> v.inv(),
            count <= old(self).current().len(),
        ensures
            final(self).inner() is Some == old(self).inner() is Some,
            final(self).inner() matches Some(v) ==> v.inv(),
            final(self).current() == old(self).current().subrange(count as int, old(self).current().len() as int),
    {
        if count > 0 {
            let mut v = self.view.take().unwrap();
            v.release(count);
            self.view = Some(v);
        } else {
            assert(self.current() =~= old(self).current().subrange(0, old(self).current().len() as int));
        }
    }
}

impl<Sink: ViewMut> LazyChannelSink<Sink> {
    /// Replace element `index` of the current view with `value`.
    pub fn set(&mut self, index: usize, value: Sink::Item)
        requires
            old(self).inner() matches Some(v) ==> v.inv(),
            index < old(self).current().len(),
        ensures
            final(self).inner() is Some,
            final(self).inner() matches Some(v) ==> v.inv(),
            final(self).current() == old(self).current().update(index as int, value),
    {
        let mut v = self.view.take().unwrap();
        v.set(index, value);
        self.view = Some(v);
    }
}

impl<Source: View> LazyChannelSource<Source> {
    /// The reader's view, once taken from the channel.
    pub closed spec fn inner(&self) -> Option<Source> {
        self.view
    }

    /// The reader's end is consistent with the shared state: until it has
    /// taken its view, the view waits in the shared state once the channel
    /// exists.
    pub open spec fn wf_for<Sink: View, F: FnOnce() -> (Sink, Source)>(
        &self,
        shared: &LazyChannelImpl<Sink, Source, F>,
    ) -> bool {
        &&& shared.inv()
        &&& self.inner() matches Some(v) ==> (v.inv() && shared.spec_source() is None)
        &&& self.inner() is None && shared.spec_ready() ==> shared.spec_source() is Some
    }

    /// The elements currently granted.
    pub open spec fn current(&self) -> Seq<Source::Item> {
        match self.inner() {
            Some(v) => v.current(),
            None => Seq::empty(),
        }
    }

    /// No more elements will be granted than the stream now holds.
    pub open spec fn is_closed(&self) -> bool {
        match self.inner() {
            Some(v) => v.is_closed(),
            None => false,
        }
    }

    /// A grant of `count` elements can never be met; a grant of nothing
    /// always succeeds.
    pub open spec fn overflows(&self, count: nat) -> bool {
        count > 0 && match self.inner() {
            Some(v) => v.overflows(count),
            None => false,
        }
    }

    /// Obtain the current view of the stream.
    pub fn view(&self) -> (r: &[Source::Item])
        requires
            self.inner() matches Some(v) ==> v.inv(),
        ensures
            r@ == self.current(),
    {
        match &self.view {
            Some(v) => v.view(),
            None => {
                let empty: &[Source::Item] = &[];
                assert(empty@ =~= Seq::<Source::Item>::empty());
                empty
            },
        }
    }

    /// Attempt to obtain a view of at least `count` elements, taking the
    /// reader's end from the channel first if need be; pending while the
    /// writer has not yet created the channel.
    pub fn poll_grant<Sink: View, F: FnOnce() -> (Sink, Source)>(
        &mut self,
        shared: &mut LazyChannelImpl<Sink, Source, F>,
        count: usize,
    ) -> (r: Poll<Result<(), Source::Error>>)
        requires
            old(self).wf_for(old(shared)),
        ensures
            final(self).wf_for(final(shared)),
            count == 0 ==> (r matches Poll::Ready(Ok(()))) && *final(self) == *old(self) && *final(shared)
                == *old(shared),
            count > 0 && old(self).inner() is None && !old(shared).spec_ready() ==> {
                &&& r is Pending
                &&& *final(self) == *old(self)
                &&& *final(shared) == *old(shared)
            },
            count > 0 && (old(self).inner() is Some || old(shared).spec_ready()) ==> final(self).inner() is Some,
            final(shared).spec_ready() == old(shared).spec_ready(),
            old(self).current().len() <= final(self).current().len(),
            final(self).current().subrange(0, old(self).current().len() as int) == old(self).current(),
            match r {
                Poll::Ready(Ok(())) => {
                    &&& !final(self).overflows(count as nat)
                    &&& (final(self).current().len() >= count || final(self).is_closed())
                },
                Poll::Ready(Err(_)) => final(self).overflows(count as nat),
                Poll::Pending => {
                    &&& !final(self).overflows(count as nat)
                    &&& final(self).current().len() < count
                    &&& !final(self).is_closed()
                },
            },
    {
        if count > 0 {
            let mut v = match self.view.take() {
                Some(v) => v,
                None => match shared.try_take_source() {
                    Some(v) => v,
                    None => return Poll::Pending,
                },
            };
            let r = v.poll_grant(count);
            self.view = Some(v);
            r
        } else {
            Poll::Ready(Ok(()))
        }
    }

    /// Advance past the first `count` elements of the current view.
    pub fn release(&mut self, count: usize)
        requires
            old(self).inner() matches Some(v) ==> v.inv(),
            count <= old(self).current().len(),
        ensures
            final(self).inner() is Some == old(self).inner() is Some,
            final(self).inner() matches Some(v) ==> v.inv(),
            final(self).current() == old(self).current().subrange(count as int, old(self).current().len() as int),
    {
        if count > 0 {
            let mut v = self.view.take().unwrap();
            v.release(count);
            self.view = Some(v);
        } else {
            assert(self.current() =~= old(self).current().subrange(0, old(self).current().len() as int));
        }
    }
}

impl<Source: ViewMut> LazyChannelSource<Source> {
    /// Replace element `index` of the current view with `value`.
    pub fn set(&mut self, index: usize, value: Source::Item)
        requires
            old(self).inner() matches Some(v) ==> v.inv(),
            index < old(self).current().len(),
        ensures
            final(self).inner() is Some,
            final(self).inner() matches Some(v) ==> v.inv(),
            final(self).current() == old(self).current().update(index as int, value),
    {
        let mut v = self.view.take().unwrap();
        v.set(index, value);
        self.view = Some(v);
    }
}

} // verus!
