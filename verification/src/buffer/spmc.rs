//! A single-producer, multiple-consumer circular buffer.
//!
//! Readers are added with [`SourceImpl::clone`] and removed with
//! [`SourceImpl::drop`]; the writer never overwrites what an attached reader
//! has yet to consume.

pub use crate::buffer::BoundSink;
use crate::buffer::{SinkImpl, SourceImpl, State};
use crate::stream::{Error, Source};
use crate::unsafe_circular_buffer::smallest_fitting;
use crate::view::Poll;
use vstd::prelude::*;

verus! {

/// Writes values to the associated [`BufferSource`]s.
pub type BufferSink = SinkImpl;

/// Reads values from the associated [`BufferSink`].
pub type BufferSource = SourceImpl;

/// Creates a single-producer, multiple-consumer circular buffer that holds at
/// least `min_size` elements: its writer, its first reader and their shared state.
pub fn buffer<T: Copy + Default>(min_size: usize) -> (r: Option<(BufferSink, BufferSource, State<T>)>)
    requires
        min_size > 0,
        (min_size + 1) * vstd::layout::size_of::<T>() <= usize::MAX,
        vstd::layout::size_of::<T>() > 0,
    ensures
        r matches Some((sink, source, state)) ==> {
            &&& sink.wf_for(&state)
            &&& source.wf_for(&state)
            &&& sink.spec_available() == 0
            &&& source.spec_available() == 0
            &&& state.max_len() >= min_size
            &&& exists|a: int| a >= 4096 && #[trigger] smallest_fitting(state.spec_len() as int, min_size + 1, a, vstd::layout::size_of::<T>() as int)
            &&& !state.spec_closed()
            &&& state.stream() == Seq::<T>::empty()
            &&& state.reader_count() == 1
        },
{
    crate::buffer::buffer(min_size)
}

/// A reader together with the state of its buffer, used as a [`Source`].
pub struct BoundSource<T> {
    source: SourceImpl,
    state: State<T>,
}

impl<T> BoundSource<T> {
    /// The reader.
    pub closed spec fn spec_source(&self) -> SourceImpl {
        self.source
    }

    /// The state of the buffer.
    pub closed spec fn spec_state(&self) -> State<T> {
        self.state
    }

    /// Binds a reader to the state of its buffer.
    pub fn new(source: SourceImpl, state: State<T>) -> (r: Self)
        ensures
            r.spec_source() == source,
            r.spec_state() == state,
    {
        BoundSource { source, state }
    }

    /// Returns the reader and the state.
    pub fn into_parts(self) -> (r: (SourceImpl, State<T>))
        ensures
            r.0 == self.spec_source(),
            r.1 == self.spec_state(),
    {
        (self.source, self.state)
    }
}

impl<T> Source for BoundSource<T> {
    type Item = T;

    open spec fn inv(&self) -> bool {
        self.spec_source().wf_for(&self.spec_state())
    }

    open spec fn requested(&self) -> Seq<T> {
        self.spec_source().spec_view(&self.spec_state())
    }

    open spec fn is_closed(&self) -> bool {
        self.spec_state().spec_closed()
    }

    open spec fn overflows(&self, count: nat) -> bool {
        count > self.spec_state().max_len()
    }

    fn source(&self) -> (r: &[T]) {
        self.source.source_impl(&self.state)
    }

    fn poll_request(&mut self, count: usize) -> (r: Poll<Result<(), Error>>)
        ensures
            final(self).spec_state() == old(self).spec_state(),
            final(self).spec_source().spec_reader() == old(self).spec_source().spec_reader(),
            final(self).spec_source().spec_head() == old(self).spec_source().spec_head(),
            match r {
                Poll::Ready(Err(Error::Overflow)) => *final(self) == *old(self),
                Poll::Ready(Ok(())) if old(self).spec_source().spec_available() >= count => *final(self) == *old(self),
                _ => final(self).spec_source().spec_available() == old(self).spec_state().tail_pos()
                    - old(self).spec_state().reader_pos(old(self).spec_source().spec_reader()),
            },
    {
        self.source.poll_request_impl(&self.state, count)
    }

    fn poll_consume(&mut self, count: usize) -> (r: Poll<Result<(), Error>>)
        ensures
            final(self).spec_state().stream() == old(self).spec_state().stream(),
            final(self).spec_state().spec_closed() == old(self).spec_state().spec_closed(),
            final(self).spec_source().spec_reader() == old(self).spec_source().spec_reader(),
            match r {
                Poll::Ready(Ok(())) => final(self).spec_state().reader_pos(old(self).spec_source().spec_reader())
                    == old(self).spec_state().reader_pos(old(self).spec_source().spec_reader()) + count,
                _ => *final(self) == *old(self),
            },
    {
        self.source.poll_consume_impl(&mut self.state, count)
    }
}

} // verus!
