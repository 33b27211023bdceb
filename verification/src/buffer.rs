//! Circular buffers whose writer and readers keep their positions as slot
//! indices that wrap around.
//!
//! The buffer has `len` slots and holds at most `len - 1` elements, so that a
//! full buffer and an empty one have different tails. Each position is a slot
//! index; the distance from a reader's head to the writer's tail, taken
//! around the ring, is the number of elements between them.

use crate::arith::lemma_ring_distinct;
use crate::stream::{Error, Sink};
use crate::unsafe_circular_buffer::{no_storage, smallest_fitting, system_allocation_size, UnsafeCircularBuffer};
use crate::view::Poll;
use vstd::arithmetic::div_mod::{lemma_fundamental_div_mod, lemma_fundamental_div_mod_converse_mod, lemma_mod_bound};
use vstd::prelude::*;

pub mod spmc;
pub mod spsc;

verus! {

/// Advances slot index `a` by `b` slots in a ring of `len` slots.
pub fn circular_add(a: usize, b: usize, len: usize) -> (r: usize)
    requires
        len > 0,
        a + b <= usize::MAX,
    ensures
        r == (a + b) % (len as int),
{
    (a + b) % len
}

/// The number of slots from slot index `b` forward to slot index `a` in a
/// ring of `len` slots.
pub fn circular_sub(a: usize, b: usize, len: usize) -> (r: usize)
    requires
        len > 0,
        b <= a + len,
        a + len <= usize::MAX,
    ensures
        r == (a + len - b) % (len as int),
{
    (a + len - b) % len
}

/// The slot index of stream position `pos` in a ring of `len` slots.
pub open spec fn slot_of(pos: int, len: int) -> int {
    pos % len
}

/// Where a tail and a head are the slot indices of stream positions that lie
/// less than `len` apart, the distance around the ring from the head to the
/// tail is the distance between the positions.
pub proof fn law_circular_distance(tail_pos: int, head_pos: int, len: int)
    requires
        len > 0,
        0 <= head_pos <= tail_pos,
        tail_pos - head_pos < len,
    ensures
        (slot_of(tail_pos, len) + len - slot_of(head_pos, len)) % len == tail_pos - head_pos,
{
    lemma_fundamental_div_mod(tail_pos, len);
    lemma_fundamental_div_mod(head_pos, len);
    lemma_mod_bound(tail_pos, len);
    lemma_mod_bound(head_pos, len);
    let qt = tail_pos / len;
    let qh = head_pos / len;
    let d = tail_pos - head_pos;
    if qt == qh {
        assert(slot_of(tail_pos, len) - slot_of(head_pos, len) == d) by (nonlinear_arith)
            requires
                tail_pos == len * qt + tail_pos % len,
                head_pos == len * qh + head_pos % len,
                qt == qh,
                slot_of(tail_pos, len) == tail_pos % len,
                slot_of(head_pos, len) == head_pos % len,
                d == tail_pos - head_pos,
        ;
        lemma_fundamental_div_mod_converse_mod(d + len, len, 1, d);
    } else {
        // the tail has wrapped around once more than the head
        assert(qt == qh + 1) by (nonlinear_arith)
            requires
                tail_pos == len * qt + tail_pos % len,
                head_pos == len * qh + head_pos % len,
                0 <= tail_pos % len < len,
                0 <= head_pos % len < len,
                0 <= tail_pos - head_pos < len,
                qt != qh,
                len > 0,
        ;
        assert(slot_of(tail_pos, len) + len - slot_of(head_pos, len) == d) by (nonlinear_arith)
            requires
                tail_pos == len * qt + tail_pos % len,
                head_pos == len * qh + head_pos % len,
                qt == qh + 1,
                slot_of(tail_pos, len) == tail_pos % len,
                slot_of(head_pos, len) == head_pos % len,
                d == tail_pos - head_pos,
        ;
        lemma_fundamental_div_mod_converse_mod(d, len, 0, d);
    }
}

/// Advancing the slot index of a position by `count` slots gives the slot
/// index of the position `count` further on.
pub proof fn law_circular_advance(pos: int, count: int, len: int)
    requires
        len > 0,
        pos >= 0,
        count >= 0,
    ensures
        (slot_of(pos, len) + count) % len == slot_of(pos + count, len),
{
    vstd::arithmetic::div_mod::lemma_add_mod_noop(pos, count, len);
    lemma_mod_bound(count, len);
    vstd::arithmetic::div_mod::lemma_mod_twice(count, len);
    vstd::arithmetic::div_mod::lemma_add_mod_noop(pos % len, count, len);
    vstd::arithmetic::div_mod::lemma_mod_twice(pos, len);
}

/// The distance around a ring of `len` slots from `head` to `tail`.
pub open spec fn distance(tail: int, head: int, len: int) -> int {
    (tail + len - head) % len
}

/// Returns the earliest of the readers' heads: the one farthest behind the
/// tail, going around the ring. Departed readers (`None`) are skipped.
pub fn load_head(heads: &Vec<Option<usize>>, tail: usize, len: usize) -> (r: usize)
    requires
        len > 0,
        tail < len,
        len * 2 <= usize::MAX,
        exists|i: int| 0 <= i < heads@.len() && heads@[i] is Some,
        forall|i: int| 0 <= i < heads@.len() && #[trigger] heads@[i] is Some ==> heads@[i]->0 < len,
    ensures
        exists|i: int| 0 <= i < heads@.len() && heads@[i] == Some(r),
        forall|i: int| 0 <= i < heads@.len() && #[trigger] heads@[i] is Some
            ==> distance(tail as int, heads@[i]->0 as int, len as int) <= distance(tail as int, r as int, len as int),
{
    let mut earliest_head: Option<usize> = None;
    let mut largest_distance: usize = 0;
    let mut i: usize = 0;
    while i < heads.len()
        invariant
            len > 0,
            tail < len,
            len * 2 <= usize::MAX,
            i <= heads@.len(),
            forall|k: int| 0 <= k < heads@.len() && #[trigger] heads@[k] is Some ==> heads@[k]->0 < len,
            match earliest_head {
                Some(h) => {
                    &&& exists|k: int| 0 <= k < i && heads@[k] == Some(h)
                    &&& largest_distance == distance(tail as int, h as int, len as int)
                    &&& forall|k: int| 0 <= k < i && #[trigger] heads@[k] is Some
                        ==> distance(tail as int, heads@[k]->0 as int, len as int) <= largest_distance
                },
                None => forall|k: int| 0 <= k < i ==> #[trigger] heads@[k] is None,
            },
        decreases heads@.len() - i,
    {
        match heads[i] {
            Some(head) => {
                let d = circular_sub(tail, head, len);
                if earliest_head.is_none() || d >= largest_distance {
                    earliest_head = Some(head);
                    largest_distance = d;
                }
            },
            None => {},
        }
        i = i + 1;
    }
    match earliest_head {
        Some(h) => h,
        None => {
            proof {
                let k = choose|k: int| 0 <= k < heads@.len() && heads@[k] is Some;
                assert(heads@[k] is None);
            }
            0
        },
    }
}

/// The state shared by the writer and the readers of a buffer.
pub struct State<T> {
    buffer: UnsafeCircularBuffer<T>,
    closed: bool,
    tail: usize,
    heads: Vec<Option<usize>>,
    stream: Ghost<Seq<T>>,
    positions: Ghost<Seq<int>>,
}

impl<T> State<T> {
    /// The number of slots in the ring.
    pub closed spec fn spec_len(&self) -> nat {
        self.buffer.spec_len()
    }

    /// The largest number of elements the buffer holds at once.
    pub open spec fn max_len(&self) -> int {
        self.spec_len() - 1
    }

    /// The stream has been closed.
    pub closed spec fn spec_closed(&self) -> bool {
        self.closed
    }

    /// Every element the writer has committed, by stream position.
    pub closed spec fn stream(&self) -> Seq<T> {
        self.stream@
    }

    /// The stream position just past the last committed element.
    pub open spec fn tail_pos(&self) -> int {
        self.stream().len() as int
    }

    /// The slot index of the tail.
    pub closed spec fn spec_tail(&self) -> int {
        self.tail as int
    }

    /// The number of reader entries, departed ones included.
    pub closed spec fn reader_count(&self) -> nat {
        self.heads@.len()
    }

    /// Reader `i`'s head still holds back the writer: the reader is
    /// attached, or it was the last to leave, whose head then stays as it was.
    pub closed spec fn is_reader(&self, i: int) -> bool {
        0 <= i < self.heads@.len() && self.heads@[i] is Some
    }

    /// The stream position of reader `i`'s head.
    pub closed spec fn reader_pos(&self, i: int) -> int {
        self.positions@[i]
    }

    /// The slot index of reader `i`'s head.
    pub closed spec fn reader_slot(&self, i: int) -> int {
        self.heads@[i]->0 as int
    }

    /// The contents of the `len` slots from stream position `start`.
    pub closed spec fn slots(&self, start: int, len: nat) -> Seq<T> {
        Seq::new(len, |i: int| self.buffer.at(start + i))
    }

    /// `h` is the position of the earliest attached reader.
    pub open spec fn is_earliest(&self, h: int) -> bool {
        &&& exists|i: int| #[trigger] self.is_reader(i) && self.reader_pos(i) == h
        &&& forall|j: int| #[trigger] self.is_reader(j) ==> h <= self.reader_pos(j)
    }

    /// Some reader's head holds back the writer.
    pub open spec fn has_reader(&self) -> bool {
        exists|i: int| #[trigger] self.is_reader(i)
    }

    /// The state is well formed: every attached reader is at most
    /// `max_len` elements behind the tail, and the ring holds every element
    /// from the reader's head on.
    pub closed spec fn wf(&self) -> bool {
        &&& self.buffer.wf()
        &&& self.buffer.spec_len() > 0
        &&& self.tail == (self.stream@.len() as int) % (self.buffer.spec_len() as int)
        &&& self.heads@.len() == self.positions@.len()
        &&& self.has_reader()
        &&& forall|i: int| #[trigger] self.is_reader(i) ==> {
            &&& self.heads@[i]->0 == self.positions@[i] % (self.buffer.spec_len() as int)
            &&& 0 <= self.positions@[i] <= self.stream@.len()
            &&& self.stream@.len() - self.positions@[i] < self.buffer.spec_len()
            &&& forall|p: int| self.positions@[i] <= p < self.stream@.len() ==> #[trigger] self.buffer.at(p) == self.stream@[p]
        }
    }

    /// What a well-formed state keeps.
    pub proof fn lemma_wf(&self)
        requires
            self.wf(),
        ensures
            self.spec_len() > 0,
            2 * self.spec_len() <= usize::MAX,
            0 <= self.spec_tail() < self.spec_len(),
            self.spec_tail() == slot_of(self.tail_pos(), self.spec_len() as int),
            self.has_reader(),
            forall|i: int| #[trigger] self.is_reader(i) ==> {
                &&& 0 <= i < self.reader_count()
                &&& self.reader_slot(i) == slot_of(self.reader_pos(i), self.spec_len() as int)
                &&& 0 <= self.reader_slot(i) < self.spec_len()
                &&& 0 <= self.reader_pos(i) <= self.tail_pos()
                &&& self.tail_pos() - self.reader_pos(i) <= self.max_len()
            },
    {
        self.buffer.lemma_wf();
        let n = self.buffer.spec_len() as int;
        lemma_mod_bound(self.stream@.len() as int, n);
        assert forall|i: int| #[trigger] self.is_reader(i) implies 0 <= self.reader_slot(i) < self.spec_len() by {
            lemma_mod_bound(self.positions@[i], n);
        }
    }

    /// The distance from reader `i`'s head to the tail, around the ring, is
    /// the number of elements between them.
    pub proof fn lemma_reader_distance(&self, i: int)
        requires
            self.wf(),
            self.is_reader(i),
        ensures
            distance(self.spec_tail(), self.reader_slot(i), self.spec_len() as int) == self.tail_pos() - self.reader_pos(i),
    {
        self.lemma_wf();
        law_circular_distance(self.tail_pos(), self.reader_pos(i), self.spec_len() as int);
    }

    /// A run of slots holds as many elements as it is long.
    pub proof fn lemma_slots_len(&self, start: int, len: nat)
        ensures
            self.slots(start, len).len() == len,
    {
    }

    /// Returns whether the stream has been closed.
    pub fn is_closed(&self) -> (r: bool)
        ensures
            r == self.spec_closed(),
    {
        self.closed
    }

    /// Marks the stream closed, as when the writer or the last reader goes
    /// away.
    pub fn close(&mut self)
        requires
            old(self).wf(),
        ensures
            final(self).wf(),
            final(self).spec_closed(),
            final(self).spec_len() == old(self).spec_len(),
            final(self).stream() == old(self).stream(),
            final(self).spec_tail() == old(self).spec_tail(),
            final(self).reader_count() == old(self).reader_count(),
            forall|i: int| #[trigger] final(self).is_reader(i) == old(self).is_reader(i),
            forall|i: int| #[trigger] final(self).reader_pos(i) == old(self).reader_pos(i),
            forall|i: int| #[trigger] final(self).reader_slot(i) == old(self).reader_slot(i),
            forall|start: int, len: nat| #[trigger] final(self).slots(start, len) == old(self).slots(start, len),
    {
        self.closed = true;
        proof {
            assert forall|i: int| #[trigger] self.is_reader(i) implies {
                &&& self.heads@[i]->0 == self.positions@[i] % (self.buffer.spec_len() as int)
                &&& 0 <= self.positions@[i] <= self.stream@.len()
                &&& self.stream@.len() - self.positions@[i] < self.buffer.spec_len()
                &&& forall|p: int| self.positions@[i] <= p < self.stream@.len() ==> #[trigger] self.buffer.at(p) == self.stream@[p]
            } by {
                assert(old(self).is_reader(i));
            }
            assert(self.is_reader(choose|i: int| #[trigger] old(self).is_reader(i)));
        }
    }

    /// Returns the earliest head of all attached readers.
    fn earliest_head(&self) -> (r: usize)
        requires
            self.wf(),
            self.has_reader(),
        ensures
            exists|i: int| #[trigger] self.is_reader(i) && self.reader_slot(i) == r && self.is_earliest(self.reader_pos(i)),
    {
        proof {
            self.lemma_wf();
            let i = choose|i: int| #[trigger] self.is_reader(i);
            assert(self.heads@[i] is Some);
            assert forall|k: int| 0 <= k < self.heads@.len() && #[trigger] self.heads@[k] is Some implies self.heads@[k]->0 < self.buffer.spec_len() by {
                assert(self.is_reader(k));
            }
        }
        let h = load_head(&self.heads, self.tail, self.buffer.len());
        proof {
            let n = self.spec_len() as int;
            let i = choose|i: int| 0 <= i < self.heads@.len() && self.heads@[i] == Some(h);
            assert(self.is_reader(i));
            self.lemma_reader_distance(i);
            assert forall|j: int| #[trigger] self.is_reader(j) implies self.reader_pos(i) <= self.reader_pos(j) by {
                self.lemma_reader_distance(j);
                assert(self.heads@[j] is Some);
            }
            assert(self.is_earliest(self.reader_pos(i)));
        }
        h
    }
}

/// The writer of a buffer: it may fill the `available` slots from slot index
/// `tail`.
pub struct SinkImpl {
    tail: usize,
    available: usize,
}

impl SinkImpl {
    /// The slot index the writer writes at.
    pub closed spec fn spec_tail(&self) -> int {
        self.tail as int
    }

    /// The number of slots reserved by the writer.
    pub closed spec fn spec_available(&self) -> nat {
        self.available as nat
    }

    /// The writer is consistent with the shared state: it writes at the
    /// tail, into slots that no attached reader still needs.
    pub open spec fn wf_for<T>(&self, state: &State<T>) -> bool {
        &&& state.wf()
        &&& self.spec_tail() == state.spec_tail()
        &&& self.spec_available() <= state.max_len()
        &&& forall|i: int| #[trigger] state.is_reader(i)
            ==> self.spec_available() <= state.max_len() - (state.tail_pos() - state.reader_pos(i))
    }

    /// The slots reserved by the writer.
    pub open spec fn spec_view<T>(&self, state: &State<T>) -> Seq<T> {
        state.slots(state.tail_pos(), self.spec_available())
    }

    /// Obtain the reserved slots.
    pub fn sink_impl<'a, T>(&self, state: &'a State<T>) -> (r: &'a [T])
        requires
            self.wf_for(state),
        ensures
            r@ == self.spec_view(state),
    {
        proof {
            state.lemma_wf();
            state.buffer.lemma_wf();
        }
        let r = state.buffer.range(self.tail as u64, self.available);
        proof {
            let n = state.spec_len() as int;
            assert forall|i: int| 0 <= i < self.available implies #[trigger] r@[i] == self.spec_view(state)[i] by {
                law_circular_advance(state.tail_pos(), i, n);
            }
        }
        assert(r@ =~= self.spec_view(state));
        r
    }

    /// Recomputes the free slots from the earliest reader's head, and tells
    /// whether there are at least `count`.
    fn data_available<T>(&mut self, state: &State<T>, count: usize) -> (r: bool)
        requires
            old(self).wf_for(state),
        ensures
            final(self).wf_for(state),
            final(self).spec_tail() == old(self).spec_tail(),
            exists|h: int| state.is_earliest(h) && final(self).spec_available() == state.max_len() - (state.tail_pos() - h),
            r == (final(self).spec_available() >= count),
    {
        proof {
            state.lemma_wf();
        }
        let head = state.earliest_head();
        let reserved = circular_sub(self.tail, head, state.buffer.len());
        proof {
            let i = choose|i: int| #[trigger] state.is_reader(i) && state.reader_slot(i) == head && state.is_earliest(state.reader_pos(i));
            state.lemma_reader_distance(i);
        }
        self.available = state.buffer.len() - 1 - reserved;
        self.available >= count
    }

    /// Attempt to reserve at least `count` slots.
    ///
    /// When ready without error, the writer has reserved every slot that no
    /// reader still needs. After the last reader has left, its head still
    /// bounds the free slots, and a request they cannot meet is answered
    /// with [`Error::Closed`].
    pub fn poll_reserve_impl<T>(&mut self, state: &State<T>, count: usize) -> (r: Poll<Result<(), Error>>)
        requires
            old(self).wf_for(state),
        ensures
            final(self).wf_for(state),
            final(self).spec_tail() == old(self).spec_tail(),
            match r {
                Poll::Ready(Err(Error::Overflow)) => count > state.max_len() && *final(self) == *old(self),
                Poll::Ready(Err(Error::Closed)) => {
                    &&& count <= state.max_len()
                    &&& state.spec_closed()
                    &&& old(self).spec_available() < count
                    &&& final(self).spec_available() < count
                    &&& exists|h: int| state.is_earliest(h) && final(self).spec_available() == state.max_len() - (state.tail_pos() - h)
                },
                Poll::Ready(Ok(())) => {
                    &&& count <= state.max_len()
                    &&& final(self).spec_available() >= count
                    &&& (old(self).spec_available() >= count ==> *final(self) == *old(self))
                    &&& (old(self).spec_available() < count ==> exists|h: int| state.is_earliest(h)
                        && final(self).spec_available() == state.max_len() - (state.tail_pos() - h))
                },
                Poll::Pending => {
                    &&& count <= state.max_len()
                    &&& !state.spec_closed()
                    &&& old(self).spec_available() < count
                    &&& final(self).spec_available() < count
                    &&& exists|h: int| state.is_earliest(h) && final(self).spec_available() == state.max_len() - (state.tail_pos() - h)
                },
            },
    {
        proof {
            state.lemma_wf();
        }
        if count > state.buffer.len() - 1 {
            return Poll::Ready(Err(Error::Overflow));
        }
        if self.available >= count {
            return Poll::Ready(Ok(()));
        }
        if self.data_available(state, count) {
            Poll::Ready(Ok(()))
        } else if state.closed {
            Poll::Ready(Err(Error::Closed))
        } else {
            Poll::Pending
        }
    }

    /// Write `value` to reserved slot `index`.
    pub fn set<T: Copy>(&self, state: &mut State<T>, index: usize, value: T)
        requires
            self.wf_for(old(state)),
            index < self.spec_available(),
        ensures
            self.wf_for(final(state)),
            self.spec_view(final(state)) == self.spec_view(old(state)).update(index as int, value),
            final(state).stream() == old(state).stream(),
            final(state).spec_len() == old(state).spec_len(),
            final(state).spec_closed() == old(state).spec_closed(),
            final(state).reader_count() == old(state).reader_count(),
            forall|i: int| #[trigger] final(state).is_reader(i) == old(state).is_reader(i),
            forall|i: int| #[trigger] final(state).reader_pos(i) == old(state).reader_pos(i),
            forall|i: int| #[trigger] final(state).reader_slot(i) == old(state).reader_slot(i),
    {
        proof {
            state.lemma_wf();
        }
        let pos = (self.tail + index) as u64;
        state.buffer.write(pos, value);
        proof {
            let n = state.buffer.spec_len() as int;
            let t = old(state).tail_pos();
            law_circular_advance(t, index as int, n);
            assert((pos as int) % n == (t + index) % n);
            assert forall|i: int| #[trigger] state.is_reader(i) implies {
                &&& state.heads@[i]->0 == state.positions@[i] % n
                &&& 0 <= state.positions@[i] <= state.stream@.len()
                &&& state.stream@.len() - state.positions@[i] < n
                &&& forall|p: int| state.positions@[i] <= p < state.stream@.len() ==> #[trigger] state.buffer.at(p) == state.stream@[p]
                &&& self.spec_available() <= state.max_len() - (state.tail_pos() - state.reader_pos(i))
            } by {
                assert(old(state).is_reader(i));
                assert forall|p: int| state.positions@[i] <= p < state.stream@.len() implies #[trigger] state.buffer.at(p) == state.stream@[p] by {
                    lemma_ring_distinct(p, t + index, n);
                    assert(old(state).buffer.at(p) == old(state).stream@[p]);
                }
            }
            assert forall|j: int| 0 <= j < self.available implies #[trigger] self.spec_view(state)[j]
                == self.spec_view(old(state)).update(index as int, value)[j] by {
                if j != index {
                    lemma_ring_distinct(t + j, t + index, n);
                }
            }
            assert(self.spec_view(state) =~= self.spec_view(old(state)).update(index as int, value));
            assert(state.is_reader(choose|i: int| #[trigger] old(state).is_reader(i)));
        }
    }

    /// Commit the first `count` reserved slots to the stream.
    pub fn poll_commit_impl<T>(&mut self, state: &mut State<T>, count: usize) -> (r: Poll<Result<(), Error>>)
        requires
            old(self).wf_for(old(state)),
        ensures
            final(self).wf_for(final(state)),
            final(state).spec_len() == old(state).spec_len(),
            final(state).spec_closed() == old(state).spec_closed(),
            final(state).reader_count() == old(state).reader_count(),
            forall|i: int| #[trigger] final(state).is_reader(i) == old(state).is_reader(i),
            forall|i: int| #[trigger] final(state).reader_pos(i) == old(state).reader_pos(i),
            forall|i: int| #[trigger] final(state).reader_slot(i) == old(state).reader_slot(i),
            match r {
                Poll::Ready(Ok(())) => {
                    &&& count <= old(self).spec_available()
                    &&& final(state).stream() == old(state).stream() + old(self).spec_view(old(state)).subrange(0, count as int)
                    &&& final(self).spec_available() == old(self).spec_available() - count
                    &&& final(self).spec_view(final(state)) == old(self).spec_view(old(state)).subrange(
                        count as int,
                        old(self).spec_available() as int,
                    )
                },
                Poll::Ready(Err(e)) => {
                    &&& e == Error::Overflow
                    &&& count > old(self).spec_available()
                    &&& *final(self) == *old(self)
                    &&& *final(state) == *old(state)
                },
                Poll::Pending => false,
            },
    {
        proof {
            state.lemma_wf();
        }
        if count == 0 {
            assert(state.stream() =~= old(state).stream() + old(self).spec_view(old(state)).subrange(0, 0));
            assert(self.spec_view(state) =~= old(self).spec_view(old(state)).subrange(0, self.available as int));
            return Poll::Ready(Ok(()));
        }
        if count > self.available {
            return Poll::Ready(Err(Error::Overflow));
        }
        let ghost released = self.spec_view(state).subrange(0, count as int);
        let ghost t = old(state).tail_pos();
        self.tail = circular_add(self.tail, count, state.buffer.len());
        self.available = self.available - count;
        state.tail = self.tail;
        proof {
            let n = state.buffer.spec_len() as int;
            law_circular_advance(t, count as int, n);
            state.stream@ = state.stream@ + released;
            assert forall|i: int| #[trigger] state.is_reader(i) implies {
                &&& state.heads@[i]->0 == state.positions@[i] % n
                &&& 0 <= state.positions@[i] <= state.stream@.len()
                &&& state.stream@.len() - state.positions@[i] < n
                &&& forall|p: int| state.positions@[i] <= p < state.stream@.len() ==> #[trigger] state.buffer.at(p) == state.stream@[p]
                &&& self.spec_available() <= state.max_len() - (state.tail_pos() - state.reader_pos(i))
            } by {
                assert(old(state).is_reader(i));
                assert forall|p: int| state.positions@[i] <= p < state.stream@.len() implies #[trigger] state.buffer.at(p) == state.stream@[p] by {
                    if p >= t {
                        assert(released[p - t] == old(state).slots(t, old(self).available as nat)[p - t]);
                    }
                }
            }
            assert(self.spec_view(state) =~= old(self).spec_view(old(state)).subrange(count as int, old(self).spec_available() as int));
            assert(state.is_reader(choose|i: int| #[trigger] old(state).is_reader(i)));
        }
        Poll::Ready(Ok(()))
    }
}

/// A reader of a buffer: it views the `available` elements from slot index
/// `head`, and is reader entry `reader` of the shared state.
pub struct SourceImpl {
    reader: usize,
    head: usize,
    available: usize,
}

impl SourceImpl {
    /// The reader entry of this reader.
    pub closed spec fn spec_reader(&self) -> int {
        self.reader as int
    }

    /// The slot index of this reader's head.
    pub closed spec fn spec_head(&self) -> int {
        self.head as int
    }

    /// The number of elements this reader views.
    pub closed spec fn spec_available(&self) -> nat {
        self.available as nat
    }

    /// The reader is consistent with the shared state.
    pub open spec fn wf_for<T>(&self, state: &State<T>) -> bool {
        &&& state.wf()
        &&& state.is_reader(self.spec_reader())
        &&& state.reader_slot(self.spec_reader()) == self.spec_head()
        &&& self.spec_available() <= state.tail_pos() - state.reader_pos(self.spec_reader())
    }

    /// The elements this reader views.
    pub open spec fn spec_view<T>(&self, state: &State<T>) -> Seq<T> {
        let h = state.reader_pos(self.spec_reader());
        state.stream().subrange(h, h + self.spec_available())
    }

    /// Obtain the elements this reader views.
    pub fn source_impl<'a, T>(&self, state: &'a State<T>) -> (r: &'a [T])
        requires
            self.wf_for(state),
        ensures
            r@ == self.spec_view(state),
    {
        proof {
            state.lemma_wf();
            state.buffer.lemma_wf();
        }
        let r = state.buffer.range(self.head as u64, self.available);
        proof {
            let n = state.spec_len() as int;
            let h = state.positions@[self.reader as int];
            assert(state.is_reader(self.reader as int));
            assert forall|i: int| 0 <= i < self.available implies #[trigger] r@[i] == self.spec_view(state)[i] by {
                law_circular_advance(h, i, n);
                assert(state.buffer.at(h + i) == state.stream@[h + i]);
            }
        }
        assert(r@ =~= self.spec_view(state));
        r
    }

    /// Recomputes the elements available to this reader, and tells whether
    /// there are at least `count`.
    fn data_available<T>(&mut self, state: &State<T>, count: usize) -> (r: bool)
        requires
            old(self).wf_for(state),
        ensures
            final(self).wf_for(state),
            final(self).spec_reader() == old(self).spec_reader(),
            final(self).spec_head() == old(self).spec_head(),
            final(self).spec_available() == state.tail_pos() - state.reader_pos(old(self).spec_reader()),
            r == (final(self).spec_available() >= count),
    {
        proof {
            state.lemma_wf();
            state.lemma_reader_distance(self.reader as int);
        }
        self.available = circular_sub(state.tail, self.head, state.buffer.len());
        self.available >= count
    }

    /// Attempt to view at least `count` elements.
    ///
    /// When ready without error, the reader views every element from its
    /// head to the tail.
    pub fn poll_request_impl<T>(&mut self, state: &State<T>, count: usize) -> (r: Poll<Result<(), Error>>)
        requires
            old(self).wf_for(state),
        ensures
            final(self).wf_for(state),
            final(self).spec_reader() == old(self).spec_reader(),
            final(self).spec_head() == old(self).spec_head(),
            match r {
                Poll::Ready(Err(Error::Overflow)) => count > state.max_len() && *final(self) == *old(self),
                Poll::Ready(Err(Error::Closed)) => {
                    &&& count <= state.max_len()
                    &&& state.spec_closed()
                    &&& final(self).spec_available() < count
                    &&& final(self).spec_available() == state.tail_pos() - state.reader_pos(old(self).spec_reader())
                },
                Poll::Ready(Ok(())) => {
                    &&& count <= state.max_len()
                    &&& final(self).spec_available() >= count
                    &&& (old(self).spec_available() >= count ==> *final(self) == *old(self))
                    &&& (old(self).spec_available() < count ==> final(self).spec_available() == state.tail_pos()
                        - state.reader_pos(old(self).spec_reader()))
                },
                Poll::Pending => {
                    &&& count <= state.max_len()
                    &&& !state.spec_closed()
                    &&& final(self).spec_available() < count
                    &&& final(self).spec_available() == state.tail_pos() - state.reader_pos(old(self).spec_reader())
                },
            },
    {
        proof {
            state.lemma_wf();
        }
        if count > state.buffer.len() - 1 {
            return Poll::Ready(Err(Error::Overflow));
        }
        if self.available >= count {
            return Poll::Ready(Ok(()));
        }
        if self.data_available(state, count) {
            Poll::Ready(Ok(()))
        } else if state.closed {
            Poll::Ready(Err(Error::Closed))
        } else {
            Poll::Pending
        }
    }

    /// Advance past the first `count` viewed elements, freeing their slots
    /// for the writer once every reader has passed them.
    pub fn poll_consume_impl<T>(&mut self, state: &mut State<T>, count: usize) -> (r: Poll<Result<(), Error>>)
        requires
            old(self).wf_for(old(state)),
        ensures
            final(self).wf_for(final(state)),
            final(self).spec_reader() == old(self).spec_reader(),
            final(state).stream() == old(state).stream(),
            final(state).spec_len() == old(state).spec_len(),
            final(state).spec_closed() == old(state).spec_closed(),
            final(state).spec_tail() == old(state).spec_tail(),
            final(state).reader_count() == old(state).reader_count(),
            forall|i: int| #[trigger] final(state).is_reader(i) == old(state).is_reader(i),
            forall|i: int| 0 <= i < final(state).reader_count() && i != old(self).spec_reader() ==> #[trigger] final(state).reader_pos(i) == old(state).reader_pos(i),
            forall|i: int| 0 <= i < final(state).reader_count() && i != old(self).spec_reader() ==> #[trigger] final(state).reader_slot(i) == old(state).reader_slot(i),
            forall|start: int, len: nat| #[trigger] final(state).slots(start, len) == old(state).slots(start, len),
            match r {
                Poll::Ready(Ok(())) => {
                    &&& count <= old(self).spec_available()
                    &&& final(state).reader_pos(old(self).spec_reader()) == old(state).reader_pos(old(self).spec_reader()) + count
                    &&& final(self).spec_available() == old(self).spec_available() - count
                    &&& final(self).spec_view(final(state)) == old(self).spec_view(old(state)).subrange(
                        count as int,
                        old(self).spec_available() as int,
                    )
                },
                Poll::Ready(Err(e)) => {
                    &&& e == Error::Overflow
                    &&& count > old(self).spec_available()
                    &&& *final(self) == *old(self)
                    &&& *final(state) == *old(state)
                },
                Poll::Pending => false,
            },
    {
        proof {
            state.lemma_wf();
        }
        if count > self.available {
            return Poll::Ready(Err(Error::Overflow));
        }
        let ghost h = old(state).positions@[self.reader as int];
        self.head = circular_add(self.head, count, state.buffer.len());
        self.available = self.available - count;
        state.heads.set(self.reader, Some(self.head));
        proof {
            let n = state.buffer.spec_len() as int;
            law_circular_advance(h, count as int, n);
            state.positions@ = state.positions@.update(self.reader as int, h + count);
            assert forall|i: int| #[trigger] state.is_reader(i) implies {
                &&& state.heads@[i]->0 == state.positions@[i] % n
                &&& 0 <= state.positions@[i] <= state.stream@.len()
                &&& state.stream@.len() - state.positions@[i] < n
                &&& forall|p: int| state.positions@[i] <= p < state.stream@.len() ==> #[trigger] state.buffer.at(p) == state.stream@[p]
            } by {
                assert(old(state).is_reader(i));
            }
            assert(self.spec_view(state) =~= old(self).spec_view(old(state)).subrange(count as int, old(self).spec_available() as int));
            assert(state.is_reader(self.reader as int));
        }
        Poll::Ready(Ok(()))
    }
}

impl SinkImpl {
    /// Creates the writer of an empty buffer.
    pub fn new() -> (r: Self)
        ensures
            r.spec_tail() == 0,
            r.spec_available() == 0,
    {
        SinkImpl { tail: 0, available: 0 }
    }

    /// Detaches the writer: the stream is closed, so waiting readers can
    /// finish with what was committed.
    pub fn drop<T>(self, state: &mut State<T>)
        requires
            self.wf_for(old(state)),
        ensures
            final(state).wf(),
            final(state).spec_closed(),
            final(state).stream() == old(state).stream(),
            final(state).spec_len() == old(state).spec_len(),
            final(state).reader_count() == old(state).reader_count(),
            forall|i: int| #[trigger] final(state).is_reader(i) == old(state).is_reader(i),
            forall|i: int| #[trigger] final(state).reader_pos(i) == old(state).reader_pos(i),
            forall|i: int| #[trigger] final(state).reader_slot(i) == old(state).reader_slot(i),
    {
        state.close();
    }
}

impl SourceImpl {
    /// Creates the first reader of an empty buffer.
    pub fn new() -> (r: Self)
        ensures
            r.spec_reader() == 0,
            r.spec_head() == 0,
            r.spec_available() == 0,
    {
        SourceImpl { reader: 0, head: 0, available: 0 }
    }

    /// Attaches another reader at this reader's head, viewing what this
    /// reader views.
    pub fn clone<T>(&self, state: &mut State<T>) -> (r: Self)
        requires
            self.wf_for(old(state)),
        ensures
            self.wf_for(final(state)),
            r.wf_for(final(state)),
            r.spec_reader() == old(state).reader_count(),
            final(state).reader_count() == old(state).reader_count() + 1,
            final(state).reader_pos(r.spec_reader()) == old(state).reader_pos(self.spec_reader()),
            r.spec_view(final(state)) == self.spec_view(old(state)),
            self.spec_view(final(state)) == self.spec_view(old(state)),
            final(state).stream() == old(state).stream(),
            final(state).spec_len() == old(state).spec_len(),
            final(state).spec_closed() == old(state).spec_closed(),
            final(state).spec_tail() == old(state).spec_tail(),
            forall|i: int| 0 <= i < old(state).reader_count() ==> #[trigger] final(state).is_reader(i) == old(state).is_reader(i),
            forall|i: int| 0 <= i < old(state).reader_count() ==> #[trigger] final(state).reader_pos(i) == old(state).reader_pos(i),
            forall|i: int| 0 <= i < old(state).reader_count() ==> #[trigger] final(state).reader_slot(i) == old(state).reader_slot(i),
            forall|start: int, len: nat| #[trigger] final(state).slots(start, len) == old(state).slots(start, len),
            forall|i: int| #[trigger] final(state).is_reader(i) <==> (old(state).is_reader(i) || i == r.spec_reader()),
            forall|w: SinkImpl| #[trigger] w.wf_for(old(state)) ==> w.wf_for(final(state)),
            forall|s: SourceImpl| #[trigger] s.wf_for(old(state)) ==> s.wf_for(final(state)),
    {
        let reader = state.heads.len();
        let ghost h = state.positions@[self.reader as int];
        state.heads.push(Some(self.head));
        proof {
            state.positions@ = state.positions@.push(h);
            let n = state.buffer.spec_len() as int;
            assert(old(state).is_reader(self.reader as int));
            assert forall|i: int| #[trigger] state.is_reader(i) implies {
                &&& state.heads@[i]->0 == state.positions@[i] % n
                &&& 0 <= state.positions@[i] <= state.stream@.len()
                &&& state.stream@.len() - state.positions@[i] < n
                &&& forall|p: int| state.positions@[i] <= p < state.stream@.len() ==> #[trigger] state.buffer.at(p) == state.stream@[p]
            } by {
                if i < reader {
                    assert(old(state).is_reader(i));
                }
            }
            assert(state.is_reader(self.reader as int));
            assert forall|w: SinkImpl| #[trigger] w.wf_for(old(state)) implies w.wf_for(state) by {
                assert forall|i: int| #[trigger] state.is_reader(i) implies w.spec_available() <= state.max_len()
                    - (state.tail_pos() - state.reader_pos(i)) by {
                    if i == reader {
                        assert(old(state).is_reader(self.reader as int));
                    } else {
                        assert(old(state).is_reader(i));
                    }
                }
            }
        }
        SourceImpl { reader, head: self.head, available: self.available }
    }

    /// Another reader than this one still holds back the writer.
    pub open spec fn has_other_reader<T>(&self, state: &State<T>) -> bool {
        exists|i: int| i != self.spec_reader() && #[trigger] state.is_reader(i)
    }

    /// Detaches this reader. Where it is the last, the stream is closed
    /// instead, and its head stays where it was: the writer may still fill
    /// what the reader had consumed, and is told the stream is closed once
    /// that is full.
    pub fn drop<T>(self, state: &mut State<T>)
        requires
            self.wf_for(old(state)),
        ensures
            final(state).wf(),
            final(state).stream() == old(state).stream(),
            final(state).spec_len() == old(state).spec_len(),
            final(state).spec_tail() == old(state).spec_tail(),
            final(state).reader_count() == old(state).reader_count(),
            final(state).is_reader(self.spec_reader()) == !self.has_other_reader(old(state)),
            forall|i: int| i != self.spec_reader() ==> #[trigger] final(state).is_reader(i) == old(state).is_reader(i),
            forall|i: int| #[trigger] final(state).reader_pos(i) == old(state).reader_pos(i),
            forall|i: int| #[trigger] final(state).is_reader(i) ==> final(state).reader_slot(i) == old(state).reader_slot(i),
            final(state).spec_closed() == (old(state).spec_closed() || !self.has_other_reader(old(state))),
            forall|start: int, len: nat| #[trigger] final(state).slots(start, len) == old(state).slots(start, len),
    {
        let mut remaining = false;
        let mut i: usize = 0;
        while i < state.heads.len()
            invariant
                i <= state.heads@.len(),
                remaining <==> exists|k: int| 0 <= k < i && k != self.reader && #[trigger] state.is_reader(k),
            decreases state.heads@.len() - i,
        {
            if i != self.reader && state.heads[i].is_some() {
                remaining = true;
                assert(state.is_reader(i as int));
            }
            i = i + 1;
        }
        proof {
            if self.has_other_reader(state) {
                let k = choose|k: int| k != self.reader && #[trigger] state.is_reader(k);
                assert(0 <= k < state.heads@.len());
            }
        }
        if remaining {
            let ghost w = choose|k: int| 0 <= k < state.heads@.len() && k != self.reader && #[trigger] state.is_reader(k);
            state.heads.set(self.reader, None);
            proof {
                let n = state.buffer.spec_len() as int;
                assert forall|i: int| #[trigger] state.is_reader(i) implies {
                    &&& state.heads@[i]->0 == state.positions@[i] % n
                    &&& 0 <= state.positions@[i] <= state.stream@.len()
                    &&& state.stream@.len() - state.positions@[i] < n
                    &&& forall|p: int| state.positions@[i] <= p < state.stream@.len() ==> #[trigger] state.buffer.at(p) == state.stream@[p]
                } by {
                    assert(old(state).is_reader(i));
                }
                assert(state.is_reader(w));
            }
        } else {
            state.close();
        }
    }
}

impl SourceImpl {
    /// Replace element `index` of this reader's view with `value`; only the
    /// sole reader of a buffer may do so.
    pub fn set<T: Copy>(&self, state: &mut State<T>, index: usize, value: T)
        requires
            self.wf_for(old(state)),
            index < self.spec_available(),
            forall|i: int| #[trigger] old(state).is_reader(i) ==> i == self.spec_reader(),
        ensures
            self.wf_for(final(state)),
            self.spec_view(final(state)) == self.spec_view(old(state)).update(index as int, value),
            final(state).stream() == old(state).stream().update(
                old(state).reader_pos(self.spec_reader()) + index,
                value,
            ),
            final(state).spec_len() == old(state).spec_len(),
            final(state).spec_closed() == old(state).spec_closed(),
            final(state).spec_tail() == old(state).spec_tail(),
            final(state).reader_count() == old(state).reader_count(),
            forall|i: int| #[trigger] final(state).is_reader(i) == old(state).is_reader(i),
            forall|i: int| #[trigger] final(state).reader_pos(i) == old(state).reader_pos(i),
            forall|i: int| #[trigger] final(state).reader_slot(i) == old(state).reader_slot(i),
            final(state).slots(
                old(state).tail_pos(),
                (old(state).max_len() - (old(state).tail_pos() - old(state).reader_pos(self.spec_reader()))) as nat,
            ) == old(state).slots(
                old(state).tail_pos(),
                (old(state).max_len() - (old(state).tail_pos() - old(state).reader_pos(self.spec_reader()))) as nat,
            ),
    {
        proof {
            state.lemma_wf();
            assert(state.is_reader(self.reader as int));
        }
        let pos = (self.head + index) as u64;
        state.buffer.write(pos, value);
        proof {
            let n = state.buffer.spec_len() as int;
            let h = old(state).positions@[self.reader as int];
            let q = h + index;
            law_circular_advance(h, index as int, n);
            assert((pos as int) % n == q % n);
            state.stream@ = state.stream@.update(q, value);
            assert forall|i: int| #[trigger] state.is_reader(i) implies {
                &&& state.heads@[i]->0 == state.positions@[i] % n
                &&& 0 <= state.positions@[i] <= state.stream@.len()
                &&& state.stream@.len() - state.positions@[i] < n
                &&& forall|p: int| state.positions@[i] <= p < state.stream@.len() ==> #[trigger] state.buffer.at(p) == state.stream@[p]
            } by {
                assert(old(state).is_reader(i));
                assert(i == self.reader);
                assert forall|p: int| state.positions@[i] <= p < state.stream@.len() implies #[trigger] state.buffer.at(p) == state.stream@[p] by {
                    if p != q {
                        lemma_ring_distinct(p, q, n);
                        assert(old(state).buffer.at(p) == old(state).stream@[p]);
                    }
                }
            }
            assert(self.spec_view(state) =~= self.spec_view(old(state)).update(index as int, value));
            let t = old(state).tail_pos();
            let k = (old(state).max_len() - (t - h)) as nat;
            assert forall|j: int| 0 <= j < k implies #[trigger] state.slots(t, k)[j] == old(state).slots(t, k)[j] by {
                lemma_ring_distinct(t + j, q, n);
            }
            assert(state.slots(t, k) =~= old(state).slots(t, k));
            assert(state.is_reader(self.reader as int));
        }
    }
}

impl<T: Copy + Default> State<T> {
    /// Creates the state of an empty, open buffer that holds at least
    /// `minimum_size` elements, in allocation units of `allocation_size`
    /// bytes, with one attached reader at its start: the ring is the
    /// smallest such above `minimum_size` (one slot marks the difference
    /// between empty and full).
    pub fn with_allocation_size(minimum_size: usize, allocation_size: usize) -> (r: Option<Self>)
        requires
            vstd::layout::size_of::<T>() > 0,
            (minimum_size + 1) * vstd::layout::size_of::<T>() <= usize::MAX,
        ensures
            r is None <==> no_storage(minimum_size + 1, allocation_size as int, vstd::layout::size_of::<T>() as int),
            r matches Some(s) ==> {
                &&& s.wf()
                &&& smallest_fitting(s.spec_len() as int, minimum_size + 1, allocation_size as int, vstd::layout::size_of::<T>() as int)
                &&& !s.spec_closed()
                &&& s.stream() == Seq::<T>::empty()
                &&& s.spec_tail() == 0
                &&& s.reader_count() == 1
                &&& s.is_reader(0)
                &&& s.reader_pos(0) == 0
                &&& s.reader_slot(0) == 0
            },
    {
        // One slot more than asked for, as a marker between empty and full.
        assert(minimum_size + 1 <= usize::MAX) by (nonlinear_arith)
            requires
                (minimum_size + 1) * vstd::layout::size_of::<T>() <= usize::MAX,
                vstd::layout::size_of::<T>() > 0,
        ;
        let buffer = match UnsafeCircularBuffer::with_allocation_size(minimum_size + 1, allocation_size) {
            Some(b) => b,
            None => return None,
        };
        let mut heads: Vec<Option<usize>> = Vec::new();
        heads.push(Some(0));
        let s = State {
            buffer,
            closed: false,
            tail: 0,
            heads,
            stream: Ghost(Seq::empty()),
            positions: Ghost(Seq::empty().push(0int)),
        };
        proof {
            s.buffer.lemma_wf();
            let n = s.buffer.spec_len() as int;
            vstd::arithmetic::div_mod::lemma_small_mod(0, n as nat);
            assert(s.is_reader(0));
        }
        Some(s)
    }

    /// Creates the state of an empty, open buffer that holds at least
    /// `minimum_size` elements, in the system's allocation units (see
    /// [`with_allocation_size`](Self::with_allocation_size)), with one
    /// attached reader at its start.
    ///
    /// Returns `None` where the system gives no usable size.
    pub fn new(minimum_size: usize) -> (r: Option<Self>)
        requires
            vstd::layout::size_of::<T>() > 0,
            (minimum_size + 1) * vstd::layout::size_of::<T>() <= usize::MAX,
        ensures
            r matches Some(s) ==> {
                &&& s.wf()
                &&& s.max_len() >= minimum_size
                &&& exists|a: int| a >= 4096 && #[trigger] smallest_fitting(s.spec_len() as int, minimum_size + 1, a, vstd::layout::size_of::<T>() as int)
                &&& !s.spec_closed()
                &&& s.stream() == Seq::<T>::empty()
                &&& s.spec_tail() == 0
                &&& s.reader_count() == 1
                &&& s.is_reader(0)
                &&& s.reader_pos(0) == 0
                &&& s.reader_slot(0) == 0
            },
    {
        Self::with_allocation_size(minimum_size, system_allocation_size())
    }
}

/// A writer together with the state of its buffer, used as a [`Sink`].
pub struct BoundSink<T> {
    sink: SinkImpl,
    state: State<T>,
}

impl<T> BoundSink<T> {
    /// The writer.
    pub closed spec fn spec_sink(&self) -> SinkImpl {
        self.sink
    }

    /// The state of the buffer.
    pub closed spec fn spec_state(&self) -> State<T> {
        self.state
    }

    /// Binds a writer to the state of its buffer.
    pub fn new(sink: SinkImpl, state: State<T>) -> (r: Self)
        ensures
            r.spec_sink() == sink,
            r.spec_state() == state,
    {
        BoundSink { sink, state }
    }

    /// Returns the writer and the state.
    pub fn into_parts(self) -> (r: (SinkImpl, State<T>))
        ensures
            r.0 == self.spec_sink(),
            r.1 == self.spec_state(),
    {
        (self.sink, self.state)
    }
}

impl<T: Copy> Sink for BoundSink<T> {
    type Item = T;

    open spec fn inv(&self) -> bool {
        self.spec_sink().wf_for(&self.spec_state())
    }

    open spec fn reserved(&self) -> Seq<T> {
        self.spec_sink().spec_view(&self.spec_state())
    }

    open spec fn is_closed(&self) -> bool {
        self.spec_state().spec_closed()
    }

    open spec fn overflows(&self, count: nat) -> bool {
        count > self.spec_state().max_len()
    }

    fn sink(&self) -> (r: &[T]) {
        self.sink.sink_impl(&self.state)
    }

    fn set(&mut self, index: usize, value: T) {
        self.sink.set(&mut self.state, index, value);
    }

    fn poll_reserve(&mut self, count: usize) -> (r: Poll<Result<(), Error>>)
        ensures
            final(self).spec_state() == old(self).spec_state(),
            final(self).spec_sink().spec_tail() == old(self).spec_sink().spec_tail(),
            match r {
                Poll::Ready(Err(Error::Overflow)) => *final(self) == *old(self),
                Poll::Ready(Ok(())) => {
                    &&& (old(self).spec_sink().spec_available() >= count ==> *final(self) == *old(self))
                    &&& (old(self).spec_sink().spec_available() < count ==> exists|h: int|
                        old(self).spec_state().is_earliest(h) && final(self).spec_sink().spec_available()
                            == old(self).spec_state().max_len() - (old(self).spec_state().tail_pos() - h))
                },
                _ => exists|h: int|
                    old(self).spec_state().is_earliest(h) && final(self).spec_sink().spec_available()
                        == old(self).spec_state().max_len() - (old(self).spec_state().tail_pos() - h),
            },
    {
        self.sink.poll_reserve_impl(&self.state, count)
    }

    fn poll_commit(&mut self, count: usize) -> (r: Poll<Result<(), Error>>)
        ensures
            final(self).spec_state().spec_len() == old(self).spec_state().spec_len(),
            final(self).spec_state().spec_closed() == old(self).spec_state().spec_closed(),
            forall|i: int| #[trigger] final(self).spec_state().is_reader(i) == old(self).spec_state().is_reader(i),
            forall|i: int| #[trigger] final(self).spec_state().reader_pos(i) == old(self).spec_state().reader_pos(i),
            match r {
                Poll::Ready(Ok(())) => final(self).spec_state().stream() == old(self).spec_state().stream()
                    + old(self).reserved().subrange(0, count as int),
                _ => *final(self) == *old(self),
            },
    {
        let r = self.sink.poll_commit_impl(&mut self.state, count);
        r
    }
}

/// Creates a buffer that holds at least `min_size` elements: its writer, its
/// first reader, and the state they share.
pub fn buffer<T: Copy + Default>(min_size: usize) -> (r: Option<(SinkImpl, SourceImpl, State<T>)>)
    requires
        min_size > 0,
        (min_size + 1) * vstd::layout::size_of::<T>() <= usize::MAX,
        vstd::layout::size_of::<T>() > 0,
    ensures
        r matches Some((sink, source, state)) ==> {
            &&& sink.wf_for(&state)
            &&& source.wf_for(&state)
            &&& sink.spec_available() == 0
            &&& source.spec_available() == 0
            &&& state.max_len() >= min_size
            &&& exists|a: int| a >= 4096 && #[trigger] smallest_fitting(state.spec_len() as int, min_size + 1, a, vstd::layout::size_of::<T>() as int)
            &&& !state.spec_closed()
            &&& state.stream() == Seq::<T>::empty()
            &&& state.reader_count() == 1
        },
{
    match State::new(min_size) {
        Some(state) => Some((SinkImpl::new(), SourceImpl::new(), state)),
        None => None,
    }
}

/// The distance from a slot index back to one it was advanced from is the
/// advance: `circular_sub(circular_add(a, b, len), a, len) == b` for any
/// advance shorter than the ring.
pub proof fn law_circular_roundtrip(a: int, b: int, len: int)
    requires
        len > 0,
        0 <= a < len,
        0 <= b < len,
    ensures
        (((a + b) % len) + len - a) % len == b,
{
    vstd::arithmetic::div_mod::lemma_small_mod(a as nat, len as nat);
    law_circular_distance(a + b, a, len);
}

/// A commit never changes what an attached reader views: after
/// [`SinkImpl::poll_commit_impl`] extends the stream and leaves the reader
/// where it was, the reader's view shows the same elements.
pub proof fn law_commit_keeps_reader_views<T>(before: State<T>, after: State<T>, source: SourceImpl, committed: Seq<T>)
    requires
        source.wf_for(&before),
        after.stream() == before.stream() + committed,
        after.reader_pos(source.spec_reader()) == before.reader_pos(source.spec_reader()),
    ensures
        source.spec_view(&after) == source.spec_view(&before),
{
    before.lemma_wf();
    assert(source.spec_view(&after) =~= source.spec_view(&before));
}

/// Every reader sees what the writer committed: once a commit has passed
/// the reader's head, the elements the reader views are the ones the
/// writer's view held, in order.
pub proof fn law_readers_view_what_was_committed<T>(
    before: State<T>,
    after: State<T>,
    sink: SinkImpl,
    source: SourceImpl,
    count: nat,
)
    requires
        sink.wf_for(&before),
        source.wf_for(&after),
        count <= sink.spec_available(),
        after.stream() == before.stream() + sink.spec_view(&before).subrange(0, count as int),
        before.tail_pos() <= after.reader_pos(source.spec_reader()),
    ensures
        source.spec_view(&after) == sink.spec_view(&before).subrange(
            after.reader_pos(source.spec_reader()) - before.tail_pos(),
            after.reader_pos(source.spec_reader()) + source.spec_available() - before.tail_pos(),
        ),
{
    before.lemma_wf();
    after.lemma_wf();
    assert(source.spec_view(&after) =~= sink.spec_view(&before).subrange(
        after.reader_pos(source.spec_reader()) - before.tail_pos(),
        after.reader_pos(source.spec_reader()) + source.spec_available() - before.tail_pos(),
    ));
}

} // verus!
