//! Circular buffers.
//!
//! A circular buffer is a stream with one writer, the [`Sink`], and any
//! number of readers that view its [`State`] through
//! [`splittable::View`](crate::splittable::View). Every window that the
//! writer or a reader is granted is one contiguous slice.
//!
//! Positions in the stream count every element ever written: the buffer
//! retains the elements from `head` (the earliest position a reader still
//! needs) to `tail` (the end of what the writer has released), and the
//! writer may fill the free slots after `tail`.

use crate::arith::lemma_ring_distinct;
use crate::error::GrantOverflow;
use crate::splittable::{SplittableViewImpl, SplittableViewImplMut};
use crate::unsafe_circular_buffer::{no_storage, smallest_fitting, system_allocation_size, UnsafeCircularBuffer};
use crate::view::Poll;
use vstd::prelude::*;

verus! {

/// The state shared by the writer and the readers of a circular buffer.
pub struct State<T> {
    buffer: UnsafeCircularBuffer<T>,
    closed: bool,
    head: u64,
    tail: u64,
    stream: Ghost<Seq<T>>,
}

impl<T> State<T> {
    /// The number of elements the buffer can hold.
    pub closed spec fn capacity(&self) -> nat {
        self.buffer.spec_len()
    }

    /// The earliest position retained.
    pub closed spec fn head_pos(&self) -> int {
        self.head as int
    }

    /// The position just past the last element released by the writer.
    pub closed spec fn tail_pos(&self) -> int {
        self.tail as int
    }

    /// The stream has been closed by its writer or its reader.
    pub closed spec fn spec_closed(&self) -> bool {
        self.closed
    }

    /// Every element the writer has released, by position.
    pub closed spec fn stream(&self) -> Seq<T> {
        self.stream@
    }

    /// The contents of the `len` slots from stream position `start`.
    pub closed spec fn slots(&self, start: int, len: nat) -> Seq<T> {
        Seq::new(len, |i: int| self.buffer.at(start + i))
    }

    /// The number of free slots after the tail.
    pub open spec fn free_len(&self) -> int {
        self.capacity() - (self.tail_pos() - self.head_pos())
    }

    /// The state is well formed: the retained elements, from head to tail,
    /// fit in the buffer and are the ones that were released.
    pub closed spec fn wf(&self) -> bool {
        &&& self.buffer.wf()
        &&& self.buffer.spec_len() > 0
        &&& self.head <= self.tail
        &&& self.tail - self.head <= self.buffer.spec_len()
        &&& self.stream@.len() == self.tail
        &&& forall|p: int| self.head <= p < self.tail ==> #[trigger] self.buffer.at(p) == self.stream@[p]
    }

    /// What a well-formed state keeps.
    pub proof fn lemma_wf(&self)
        requires
            self.wf(),
        ensures
            self.capacity() > 0,
            self.capacity() <= usize::MAX,
            0 <= self.head_pos() <= self.tail_pos() <= u64::MAX,
            self.tail_pos() - self.head_pos() <= self.capacity(),
            self.stream().len() == self.tail_pos(),
    {
        self.buffer.lemma_wf();
    }

    /// A run of slots holds as many elements as it is long.
    pub proof fn lemma_slots_len(&self, start: int, len: nat)
        ensures
            self.slots(start, len).len() == len,
    {
    }

    /// Returns the number of released elements from `start` on.
    fn readable_len(&self, start: u64) -> (r: usize)
        requires
            self.wf(),
            start <= self.tail,
            self.tail - start <= usize::MAX,
        ensures
            r == self.tail - start,
    {
        proof {
            self.lemma_wf();
        }
        (self.tail - start) as usize
    }

    /// Returns the number of slots the writer may fill.
    fn writeable_len(&self) -> (r: usize)
        requires
            self.wf(),
        ensures
            r == self.free_len(),
    {
        self.buffer.len() - self.readable_len(self.head)
    }

    /// Returns the number of elements the buffer can hold.
    pub fn capacity_len(&self) -> (r: usize)
        requires
            self.wf(),
        ensures
            r == self.capacity(),
    {
        self.buffer.len()
    }

    /// Returns the earliest position retained.
    pub fn head(&self) -> (r: u64)
        ensures
            r == self.head_pos(),
    {
        self.head
    }

    /// Returns the position just past the last element released.
    pub fn tail(&self) -> (r: u64)
        ensures
            r == self.tail_pos(),
    {
        self.tail
    }

    /// Returns whether the stream has been closed.
    pub fn is_closed(&self) -> (r: bool)
        ensures
            r == self.spec_closed(),
    {
        self.closed
    }

    /// Marks the stream closed, as when its writer or its reader goes away.
    pub fn close(&mut self)
        requires
            old(self).wf(),
        ensures
            final(self).wf(),
            final(self).spec_closed(),
            final(self).capacity() == old(self).capacity(),
            final(self).head_pos() == old(self).head_pos(),
            final(self).tail_pos() == old(self).tail_pos(),
            final(self).stream() == old(self).stream(),
            forall|start: int, len: nat| #[trigger] final(self).slots(start, len) == old(self).slots(start, len),
    {
        self.closed = true;
    }
}

impl<T: Copy + Default> State<T> {
    /// Creates the state of an empty, open buffer that holds at least
    /// `minimum_size` elements, in allocation units of `allocation_size`
    /// bytes: the smallest such capacity above `minimum_size` (one slot
    /// marks the difference between empty and full).
    pub fn with_allocation_size(minimum_size: usize, allocation_size: usize) -> (r: Option<Self>)
        requires
            vstd::layout::size_of::<T>() > 0,
            (minimum_size + 1) * vstd::layout::size_of::<T>() <= usize::MAX,
        ensures
            r is None <==> no_storage(minimum_size + 1, allocation_size as int, vstd::layout::size_of::<T>() as int),
            r matches Some(s) ==> {
                &&& s.wf()
                &&& smallest_fitting(s.capacity() as int, minimum_size + 1, allocation_size as int, vstd::layout::size_of::<T>() as int)
                &&& s.head_pos() == 0
                &&& s.tail_pos() == 0
                &&& !s.spec_closed()
                &&& s.stream() == Seq::<T>::empty()
            },
    {
        assert(minimum_size + 1 <= usize::MAX) by (nonlinear_arith)
            requires
                (minimum_size + 1) * vstd::layout::size_of::<T>() <= usize::MAX,
                vstd::layout::size_of::<T>() > 0,
        ;
        let buffer = match UnsafeCircularBuffer::with_allocation_size(minimum_size + 1, allocation_size) {
            Some(b) => b,
            None => return None,
        };
        Some(State { buffer, closed: false, head: 0, tail: 0, stream: Ghost(Seq::empty()) })
    }

    /// Creates the state of an empty, open buffer that holds at least
    /// `minimum_size` elements, in the system's allocation units (see
    /// [`with_allocation_size`](Self::with_allocation_size)).
    ///
    /// Returns `None` where the system gives no usable size.
    pub fn new(minimum_size: usize) -> (r: Option<Self>)
        requires
            vstd::layout::size_of::<T>() > 0,
            (minimum_size + 1) * vstd::layout::size_of::<T>() <= usize::MAX,
        ensures
            r matches Some(s) ==> {
                &&& s.wf()
                &&& s.capacity() > minimum_size
                &&& exists|a: int| a >= 4096 && #[trigger] smallest_fitting(s.capacity() as int, minimum_size + 1, a, vstd::layout::size_of::<T>() as int)
                &&& s.head_pos() == 0
                &&& s.tail_pos() == 0
                &&& !s.spec_closed()
                &&& s.stream() == Seq::<T>::empty()
            },
    {
        Self::with_allocation_size(minimum_size, system_allocation_size())
    }
}

/// The writer of a circular buffer: it may fill the `available` slots from
/// position `tail`.
pub struct Sink {
    tail: u64,
    available: usize,
}

impl Sink {
    /// The position of the first slot the writer may fill.
    pub closed spec fn spec_tail(&self) -> int {
        self.tail as int
    }

    /// The number of slots granted to the writer.
    pub closed spec fn spec_available(&self) -> nat {
        self.available as nat
    }

    /// The writer is consistent with the shared state: it writes at the
    /// tail and only into free slots.
    pub open spec fn wf_for<T>(&self, state: &State<T>) -> bool {
        &&& state.wf()
        &&& self.spec_tail() == state.tail_pos()
        &&& self.spec_available() <= state.free_len()
    }

    /// The slots granted to the writer.
    pub open spec fn spec_view<T>(&self, state: &State<T>) -> Seq<T> {
        state.slots(self.spec_tail(), self.spec_available())
    }

    /// Creates the writer of an empty buffer.
    pub fn new() -> (r: Self)
        ensures
            r.spec_tail() == 0,
            r.spec_available() == 0,
    {
        Sink { tail: 0, available: 0 }
    }

    /// Returns the position of the first granted slot.
    pub fn tail(&self) -> (r: u64)
        ensures
            r == self.spec_tail(),
    {
        self.tail
    }

    /// Returns the number of granted slots.
    pub fn available(&self) -> (r: usize)
        ensures
            r == self.spec_available(),
    {
        self.available
    }

    /// Obtain the slots currently granted to the writer.
    pub fn view<'a, T>(&self, state: &'a State<T>) -> (r: &'a [T])
        requires
            self.wf_for(state),
        ensures
            r@ == self.spec_view(state),
    {
        let r = state.buffer.range(self.tail, self.available);
        assert(r@ =~= self.spec_view(state));
        r
    }

    /// Attempt to obtain at least `count` free slots.
    ///
    /// When ready without error, the writer is granted every free slot:
    /// at least `count` of them unless the stream is closed.
    pub fn poll_grant<T>(&mut self, state: &State<T>, count: usize) -> (r: Poll<Result<(), GrantOverflow>>)
        requires
            old(self).wf_for(state),
        ensures
            final(self).wf_for(state),
            final(self).spec_tail() == old(self).spec_tail(),
            match r {
                Poll::Ready(Err(e)) => {
                    &&& count > state.capacity()
                    &&& e == GrantOverflow(state.capacity() as usize)
                    &&& *final(self) == *old(self)
                },
                Poll::Ready(Ok(())) => {
                    &&& count <= state.capacity()
                    &&& if old(self).spec_available() >= count {
                        *final(self) == *old(self)
                    } else {
                        &&& final(self).spec_available() == state.free_len()
                        &&& (state.free_len() >= count || state.spec_closed())
                    }
                },
                Poll::Pending => {
                    &&& count <= state.capacity()
                    &&& old(self).spec_available() < count
                    &&& state.free_len() < count
                    &&& !state.spec_closed()
                    &&& *final(self) == *old(self)
                },
            },
    {
        let size = state.buffer.len();
        if count > size {
            return Poll::Ready(Err(GrantOverflow(size)));
        }
        if self.available >= count {
            return Poll::Ready(Ok(()));
        }
        let writeable = state.writeable_len();
        if writeable >= count || state.closed {
            self.available = writeable;
            Poll::Ready(Ok(()))
        } else {
            Poll::Pending
        }
    }

    /// Commit the first `count` granted slots to the stream, where readers
    /// can see them.
    pub fn release<T>(&mut self, state: &mut State<T>, count: usize)
        requires
            old(self).wf_for(old(state)),
            count <= old(self).spec_available(),
            old(state).tail_pos() + count <= u64::MAX,
        ensures
            final(self).wf_for(final(state)),
            final(self).spec_tail() == old(self).spec_tail() + count,
            final(self).spec_available() == old(self).spec_available() - count,
            final(state).stream() == old(state).stream() + old(self).spec_view(old(state)).subrange(0, count as int),
            final(self).spec_view(final(state)) == old(self).spec_view(old(state)).subrange(
                count as int,
                old(self).spec_available() as int,
            ),
            final(state).head_pos() == old(state).head_pos(),
            final(state).tail_pos() == old(state).tail_pos() + count,
            final(state).capacity() == old(state).capacity(),
            final(state).spec_closed() == old(state).spec_closed(),
    {
        if count == 0 {
            assert(state.stream() =~= old(state).stream() + old(self).spec_view(old(state)).subrange(0, 0));
            assert(self.spec_view(state) =~= old(self).spec_view(old(state)).subrange(0, self.available as int));
            return;
        }
        let ghost released = self.spec_view(state).subrange(0, count as int);
        self.available = self.available - count;
        self.tail = self.tail + count as u64;
        state.tail = self.tail;
        proof {
            state.stream@ = state.stream@ + released;
            assert forall|p: int| state.head <= p < state.tail implies #[trigger] state.buffer.at(p) == state.stream@[p] by {
                if p >= old(state).tail {
                    assert(released[p - old(state).tail] == old(state).slots(old(state).tail as int, old(self).available as nat)[p - old(state).tail]);
                }
            }
            assert(self.spec_view(state) =~= old(self).spec_view(old(state)).subrange(count as int, old(self).spec_available() as int));
        }
    }
}

impl Sink {
    /// Write `value` to granted slot `index`.
    pub fn set<T: Copy>(&self, state: &mut State<T>, index: usize, value: T)
        requires
            self.wf_for(old(state)),
            index < self.spec_available(),
            self.spec_tail() + index <= u64::MAX,
        ensures
            self.wf_for(final(state)),
            self.spec_view(final(state)) == self.spec_view(old(state)).update(index as int, value),
            final(state).stream() == old(state).stream(),
            final(state).head_pos() == old(state).head_pos(),
            final(state).tail_pos() == old(state).tail_pos(),
            final(state).capacity() == old(state).capacity(),
            final(state).spec_closed() == old(state).spec_closed(),
    {
        proof {
            state.lemma_wf();
        }
        let pos = self.tail + index as u64;
        state.buffer.write(pos, value);
        proof {
            let n = state.buffer.spec_len() as int;
            assert forall|p: int| state.head <= p < state.tail implies #[trigger] state.buffer.at(p) == state.stream@[p] by {
                lemma_ring_distinct(p, pos as int, n);
                assert(old(state).buffer.at(p) == old(state).stream@[p]);
            }
            assert forall|j: int| 0 <= j < self.available implies #[trigger] self.spec_view(state)[j]
                == self.spec_view(old(state)).update(index as int, value)[j] by {
                if j != index {
                    lemma_ring_distinct(self.tail + j, pos as int, n);
                }
            }
            assert(self.spec_view(state) =~= self.spec_view(old(state)).update(index as int, value));
        }
    }
}

impl<T> SplittableViewImpl for State<T> {
    type Item = T;

    type Error = GrantOverflow;

    open spec fn inv(&self) -> bool {
        self.wf()
    }

    open spec fn first(&self) -> int {
        self.head_pos()
    }

    open spec fn end(&self) -> int {
        self.tail_pos()
    }

    open spec fn is_closed(&self) -> bool {
        self.spec_closed()
    }

    open spec fn contents(&self) -> Seq<T> {
        self.stream()
    }

    open spec fn overflows(&self, len: nat) -> bool {
        len > self.capacity()
    }

    /// Any position up to the tail, whose distance to it fits in a `usize`.
    open spec fn answers(&self, index: int) -> bool {
        index <= self.tail_pos() && self.tail_pos() - index <= usize::MAX
    }

    proof fn lemma_inv(&self) {
        self.lemma_wf();
    }

    fn set_head(&mut self, index: u64)
        ensures
            final(self).head_pos() == index,
            final(self).tail_pos() == old(self).tail_pos(),
            final(self).capacity() == old(self).capacity(),
            forall|start: int, len: nat| #[trigger] final(self).slots(start, len) == old(self).slots(start, len),
    {
        self.head = index;
    }

    fn compare_set_head(&mut self, index: u64)
        ensures
            final(self).head_pos() == if index > old(self).head_pos() { index as int } else { old(self).head_pos() },
            final(self).tail_pos() == old(self).tail_pos(),
            final(self).capacity() == old(self).capacity(),
            forall|start: int, len: nat| #[trigger] final(self).slots(start, len) == old(self).slots(start, len),
    {
        if index > self.head {
            self.head = index;
        }
    }

    fn poll_available(&self, index: u64, len: usize) -> (r: Poll<Result<usize, GrantOverflow>>)
        ensures
            r matches Poll::Ready(Err(e)) ==> e == GrantOverflow(self.capacity() as usize),
    {
        let max_len = self.buffer.len();
        if len > max_len {
            return Poll::Ready(Err(GrantOverflow(max_len)));
        }
        let available = self.readable_len(index);
        if available >= len || self.closed {
            Poll::Ready(Ok(available))
        } else {
            Poll::Pending
        }
    }

    fn view(&self, index: u64, len: usize) -> (r: &[T]) {
        let r = self.buffer.range(index, len);
        assert(r@ =~= self.stream@.subrange(index as int, index + len));
        r
    }
}

impl<T: Copy> SplittableViewImplMut for State<T> {
    fn set(&mut self, index: u64, value: T)
        ensures
            final(self).capacity() == old(self).capacity(),
            final(self).slots(old(self).tail_pos(), old(self).free_len() as nat) == old(self).slots(
                old(self).tail_pos(),
                old(self).free_len() as nat,
            ),
    {
        proof {
            self.lemma_wf();
        }
        self.buffer.write(index, value);
        proof {
            let n = self.buffer.spec_len() as int;
            self.stream@ = self.stream@.update(index as int, value);
            assert forall|p: int| self.head <= p < self.tail implies #[trigger] self.buffer.at(p) == self.stream@[p] by {
                if p != index {
                    lemma_ring_distinct(p, index as int, n);
                    assert(old(self).buffer.at(p) == old(self).stream@[p]);
                }
            }
            assert forall|p: int| self.tail <= p < self.head + n implies #[trigger] self.buffer.at(p) == old(self).buffer.at(p) by {
                lemma_ring_distinct(p, index as int, n);
            }
            let k = old(self).free_len() as nat;
            assert(self.slots(self.tail as int, k) =~= old(self).slots(self.tail as int, k));
        }
    }
}

/// A writer together with the state of its buffer, used as a
/// [`View`](crate::view::View) and [`ViewMut`](crate::view::ViewMut).
pub struct BoundSink<T> {
    sink: Sink,
    state: State<T>,
}

impl<T> BoundSink<T> {
    /// The writer.
    pub closed spec fn spec_sink(&self) -> Sink {
        self.sink
    }

    /// The state of the buffer.
    pub closed spec fn spec_state(&self) -> State<T> {
        self.state
    }

    /// Binds a writer to the state of its buffer.
    pub fn new(sink: Sink, state: State<T>) -> (r: Self)
        ensures
            r.spec_sink() == sink,
            r.spec_state() == state,
    {
        BoundSink { sink, state }
    }

    /// Returns the writer and the state.
    pub fn into_parts(self) -> (r: (Sink, State<T>))
        ensures
            r.0 == self.spec_sink(),
            r.1 == self.spec_state(),
    {
        (self.sink, self.state)
    }
}

impl<T> crate::view::View for BoundSink<T> {
    type Item = T;

    type Error = GrantOverflow;

    /// The writer is consistent with the state, and every position it can
    /// be granted fits in a `u64`.
    open spec fn inv(&self) -> bool {
        &&& self.spec_sink().wf_for(&self.spec_state())
        &&& self.spec_state().head_pos() + self.spec_state().capacity() <= u64::MAX
    }

    open spec fn current(&self) -> Seq<T> {
        self.spec_sink().spec_view(&self.spec_state())
    }

    open spec fn is_closed(&self) -> bool {
        self.spec_state().spec_closed()
    }

    /// Everything the writer has committed to the stream.
    open spec fn released(&self) -> Seq<T> {
        self.spec_state().stream()
    }

    /// An overflow beyond the capacity; otherwise the writer keeps its
    /// grant when it is enough, and else is granted every free slot once
    /// that is enough or the stream is closed.
    open spec fn grant_effect(&self, count: nat, after: Self, r: Poll<Result<(), GrantOverflow>>) -> bool {
        &&& after.spec_state() == self.spec_state()
        &&& after.spec_sink().spec_tail() == self.spec_sink().spec_tail()
        &&& match r {
            Poll::Ready(Err(e)) => {
                &&& count > self.spec_state().capacity()
                &&& e == GrantOverflow(self.spec_state().capacity() as usize)
                &&& after == *self
            },
            Poll::Ready(Ok(())) => {
                &&& count <= self.spec_state().capacity()
                &&& if self.spec_sink().spec_available() >= count {
                    after == *self
                } else {
                    &&& after.spec_sink().spec_available() == self.spec_state().free_len()
                    &&& (self.spec_state().free_len() >= count || self.spec_state().spec_closed())
                }
            },
            Poll::Pending => {
                &&& count <= self.spec_state().capacity()
                &&& self.spec_sink().spec_available() < count
                &&& self.spec_state().free_len() < count
                &&& !self.spec_state().spec_closed()
                &&& after == *self
            },
        }
    }

    open spec fn overflows(&self, count: nat) -> bool {
        count > self.spec_state().capacity()
    }

    fn view(&self) -> (r: &[T]) {
        self.sink.view(&self.state)
    }

    fn poll_grant(&mut self, count: usize) -> (r: Poll<Result<(), GrantOverflow>>)
        ensures
            final(self).spec_state() == old(self).spec_state(),
            final(self).spec_sink().spec_tail() == old(self).spec_sink().spec_tail(),
            match r {
                Poll::Ready(Err(e)) => {
                    &&& count > old(self).spec_state().capacity()
                    &&& e == GrantOverflow(old(self).spec_state().capacity() as usize)
                    &&& *final(self) == *old(self)
                },
                Poll::Ready(Ok(())) => {
                    &&& count <= old(self).spec_state().capacity()
                    &&& if old(self).spec_sink().spec_available() >= count {
                        *final(self) == *old(self)
                    } else {
                        &&& final(self).spec_sink().spec_available() == old(self).spec_state().free_len()
                        &&& (old(self).spec_state().free_len() >= count || old(self).spec_state().spec_closed())
                    }
                },
                Poll::Pending => {
                    &&& count <= old(self).spec_state().capacity()
                    &&& old(self).spec_sink().spec_available() < count
                    &&& old(self).spec_state().free_len() < count
                    &&& !old(self).spec_state().spec_closed()
                    &&& *final(self) == *old(self)
                },
            },
    {
        let r = self.sink.poll_grant(&self.state, count);
        assert(self.sink.spec_view(&self.state).subrange(0, old(self).sink.spec_available() as int)
            =~= old(self).sink.spec_view(&old(self).state));
        r
    }

    fn release(&mut self, count: usize) {
        self.sink.release(&mut self.state, count);
    }
}

impl<T: Copy> crate::view::ViewMut for BoundSink<T> {
    fn set(&mut self, index: usize, value: T) {
        self.sink.set(&mut self.state, index, value);
    }
}

/// Creates a circular buffer that holds at least `min_size` elements: its
/// writer and the shared state that readers view.
///
/// Returns `None` where the system gives no usable size.
pub fn buffer<T: Copy + Default>(min_size: usize) -> (r: Option<(Sink, State<T>)>)
    requires
        min_size > 0,
        (min_size + 1) * vstd::layout::size_of::<T>() <= usize::MAX,
        vstd::layout::size_of::<T>() > 0,
    ensures
        r matches Some((sink, state)) ==> {
            &&& sink.wf_for(&state)
            &&& sink.spec_available() == 0
            &&& state.capacity() > min_size
            &&& exists|a: int| a >= 4096 && #[trigger] smallest_fitting(state.capacity() as int, min_size + 1int, a, vstd::layout::size_of::<T>() as int)
            &&& state.head_pos() == 0
            &&& state.tail_pos() == 0
            &&& !state.spec_closed()
            &&& state.stream() == Seq::<T>::empty()
        },
{
    match State::new(min_size) {
        Some(state) => Some((Sink::new(), state)),
        None => None,
    }
}

/// Readers see what the writer released: after [`Sink::release`] commits
/// the first `count` elements of the writer's view, a reader's view of any
/// of those positions shows exactly the elements the writer's view held
/// there.
pub proof fn law_released_is_viewed<T>(before: State<T>, after: State<T>, sink: Sink, count: nat, index: int, len: nat)
    requires
        sink.wf_for(&before),
        count <= sink.spec_available(),
        after.stream() == before.stream() + sink.spec_view(&before).subrange(0, count as int),
        before.tail_pos() <= index,
        index + len <= before.tail_pos() + count,
    ensures
        after.stream().subrange(index, index + len) == sink.spec_view(&before).subrange(
            index - before.tail_pos(),
            index + len - before.tail_pos(),
        ),
{
    before.lemma_wf();
    assert(after.stream().subrange(index, index + len) =~= sink.spec_view(&before).subrange(
        index - before.tail_pos(),
        index + len - before.tail_pos(),
    ));
}

/// Releasing never changes what was released before: every position a
/// reader could view before a release shows the same element after it.
pub proof fn law_release_keeps_the_past<T>(before: State<T>, after: State<T>, sink: Sink, count: nat, index: int, len: nat)
    requires
        sink.wf_for(&before),
        count <= sink.spec_available(),
        after.stream() == before.stream() + sink.spec_view(&before).subrange(0, count as int),
        before.head_pos() <= index,
        index + len <= before.tail_pos(),
    ensures
        after.stream().subrange(index, index + len) == before.stream().subrange(index, index + len),
{
    before.lemma_wf();
    assert(after.stream().subrange(index, index + len) =~= before.stream().subrange(index, index + len));
}

/// An empty buffer grants its writer every slot: at least the minimum size
/// the buffer was created with.
pub proof fn law_empty_buffer_is_all_free<T>(state: State<T>, min_size: nat)
    requires
        state.wf(),
        state.head_pos() == state.tail_pos(),
        state.capacity() > min_size,
    ensures
        state.free_len() == state.capacity(),
        state.free_len() > min_size,
{
}

/// A new buffer is sized in whole allocation units of the system, which are
/// at least 4096 bytes: its capacity, the smallest count above the minimum
/// size that fills whole units, spans at least 4096 bytes, and all of it is
/// free for the writer.
pub proof fn law_new_buffer_spans_whole_units<T>(state: State<T>, min_size: nat)
    requires
        state.wf(),
        state.head_pos() == state.tail_pos(),
        vstd::layout::size_of::<T>() > 0,
        exists|a: int| a >= 4096 && #[trigger] smallest_fitting(state.capacity() as int, min_size + 1int, a, vstd::layout::size_of::<T>() as int),
    ensures
        state.capacity() > min_size,
        state.capacity() * vstd::layout::size_of::<T>() >= 4096,
        state.free_len() == state.capacity(),
{
    let size = vstd::layout::size_of::<T>() as int;
    let a = choose|a: int| a >= 4096 && #[trigger] smallest_fitting(state.capacity() as int, min_size + 1int, a, size);
    let bytes = state.capacity() * size;
    assert(bytes % a == 0);
    assert(bytes > 0) by (nonlinear_arith)
        requires
            state.capacity() > min_size,
            size > 0,
            bytes == state.capacity() * size,
    ;
    assert(bytes >= a) by (nonlinear_arith)
        requires
            bytes > 0,
            a > 0,
            bytes % a == 0,
    ;
}

/// The retained part of the stream never exceeds the buffer: there are
/// never more than `capacity` elements between the head and the tail.
pub proof fn law_retained_fits<T>(state: State<T>)
    requires
        state.wf(),
    ensures
        0 <= state.tail_pos() - state.head_pos() <= state.capacity(),
        0 <= state.free_len() <= state.capacity(),
{
    state.lemma_wf();
}

/// A reader of a circular buffer reads what its writer released: where a
/// reader views the stream that a bound writer has released into, its view
/// holds the released elements at the same positions.
pub proof fn law_read_what_was_written<T>(writer: BoundSink<T>, reader: crate::splittable::View<State<T>>)
    requires
        reader.wf(),
        reader.source().stream() == writer.spec_state().stream(),
    ensures
        reader.spec_view() == crate::view::View::released(&writer).subrange(
            reader.spec_head(),
            reader.spec_head() + reader.spec_len(),
        ),
{
}

} // verus!
