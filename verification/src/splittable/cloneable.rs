//! Readers of a stream that can be cloned.
//!
//! Each reader keeps its own position and is registered in a [`Readers`]
//! list shared by all of them; the stream itself is shared too and passed to
//! every operation. A clone starts with the same view as the reader it was
//! cloned from. The stream keeps every element that some registered reader
//! has not yet released: a release moves its head to the earliest of the
//! readers' heads.

use crate::splittable::SplittableViewImpl;
use crate::view::Poll;
use vstd::prelude::*;
#[allow(unused_imports)]
use vstd::view::View as _;

verus! {

/// The heads of the cloneable readers of one stream, by reader; a reader
/// that has gone away leaves an empty entry.
pub struct Readers {
    heads: Vec<Option<u64>>,
}

impl Readers {
    /// The number of reader entries, departed ones included.
    pub closed spec fn reader_count(&self) -> nat {
        self.heads@.len()
    }

    /// Reader `i` is registered.
    pub closed spec fn is_reader(&self, i: int) -> bool {
        0 <= i < self.heads@.len() && self.heads@[i] is Some
    }

    /// The head of reader `i`.
    pub closed spec fn reader_head(&self, i: int) -> int {
        self.heads@[i]->0 as int
    }

    /// Some reader is registered.
    pub open spec fn has_reader(&self) -> bool {
        exists|i: int| #[trigger] self.is_reader(i)
    }

    /// `h` is the earliest head of the registered readers.
    pub open spec fn is_earliest(&self, h: int) -> bool {
        &&& exists|i: int| #[trigger] self.is_reader(i) && self.reader_head(i) == h
        &&& forall|j: int| #[trigger] self.is_reader(j) ==> h <= self.reader_head(j)
    }

    /// The readers guard `source`: every head lies in its retained part.
    pub open spec fn guards<S: SplittableViewImpl>(&self, source: &S) -> bool {
        &&& source.inv()
        &&& forall|i: int| #[trigger] self.is_reader(i) ==> source.first() <= self.reader_head(i) <= source.end()
    }

    /// Reader indices are entries of the list.
    pub proof fn lemma_is_reader(&self, i: int)
        requires
            self.is_reader(i),
        ensures
            0 <= i < self.reader_count(),
    {
    }

    /// Returns the earliest head of the registered readers, if any.
    fn earliest_head(&self) -> (r: Option<u64>)
        ensures
            r is None <==> !self.has_reader(),
            r matches Some(h) ==> self.is_earliest(h as int),
    {
        let mut earliest: Option<u64> = None;
        let mut i: usize = 0;
        while i < self.heads.len()
            invariant
                i <= self.heads@.len(),
                earliest is None <==> forall|k: int| 0 <= k < i ==> !#[trigger] self.is_reader(k),
                earliest matches Some(h) ==> {
                    &&& exists|k: int| 0 <= k < i && #[trigger] self.is_reader(k) && self.reader_head(k) == h
                    &&& forall|k: int| 0 <= k < i && #[trigger] self.is_reader(k) ==> h <= self.reader_head(k)
                },
            decreases self.heads@.len() - i,
        {
            match self.heads[i] {
                Some(h) => {
                    assert(self.is_reader(i as int));
                    let take = match earliest {
                        Some(e) => h < e,
                        None => true,
                    };
                    if take {
                        earliest = Some(h);
                    }
                },
                None => {
                    assert(!self.is_reader(i as int));
                },
            }
            i = i + 1;
        }
        proof {
            if self.has_reader() {
                let k = choose|k: int| #[trigger] self.is_reader(k);
                assert(0 <= k < self.heads@.len());
            }
        }
        earliest
    }
}

/// A reader that can be cloned, viewing `len` elements from position
/// `head` of a shared stream; it is entry `reader` of the shared
/// [`Readers`].
pub struct Cloneable {
    reader: usize,
    head: u64,
    len: usize,
}

impl Cloneable {
    /// The reader's entry in the shared list.
    pub closed spec fn spec_reader(&self) -> int {
        self.reader as int
    }

    /// The position of the first element of the view.
    pub closed spec fn spec_head(&self) -> int {
        self.head as int
    }

    /// The number of elements in the view.
    pub closed spec fn spec_len(&self) -> nat {
        self.len as nat
    }

    /// The reader is registered, and lies within the retained and available
    /// part of `source`, which its readers guard.
    pub open spec fn wf_for<S: SplittableViewImpl>(&self, source: &S, readers: &Readers) -> bool {
        &&& readers.guards(source)
        &&& readers.is_reader(self.spec_reader())
        &&& readers.reader_head(self.spec_reader()) == self.spec_head()
        &&& source.first() <= self.spec_head()
        &&& self.spec_head() + self.spec_len() <= source.end()
    }

    /// The elements of the view.
    pub open spec fn spec_view<S: SplittableViewImpl>(&self, source: &S) -> Seq<S::Item> {
        source.contents().subrange(self.spec_head(), self.spec_head() + self.spec_len())
    }

    /// Creates the first reader of a stream, at its start, and the list that
    /// registers it.
    pub fn new() -> (r: (Self, Readers))
        ensures
            r.0.spec_reader() == 0,
            r.0.spec_head() == 0,
            r.0.spec_len() == 0,
            r.1.reader_count() == 1,
            r.1.is_reader(0),
            r.1.reader_head(0) == 0,
    {
        let mut heads: Vec<Option<u64>> = Vec::new();
        heads.push(Some(0));
        (Cloneable { reader: 0, head: 0, len: 0 }, Readers { heads })
    }

    /// Returns the position of the first element of the view.
    pub fn head(&self) -> (r: u64)
        ensures
            r == self.spec_head(),
    {
        self.head
    }

    /// Returns the number of elements in the view.
    pub fn len(&self) -> (r: usize)
        ensures
            r == self.spec_len(),
    {
        self.len
    }

    /// Registers another reader with the same view as this one.
    pub fn clone<S: SplittableViewImpl>(&self, source: &S, readers: &mut Readers) -> (r: Self)
        requires
            self.wf_for(source, old(readers)),
        ensures
            self.wf_for(source, final(readers)),
            r.wf_for(source, final(readers)),
            r.spec_reader() == old(readers).reader_count(),
            r.spec_head() == self.spec_head(),
            r.spec_len() == self.spec_len(),
            r.spec_view(source) == self.spec_view(source),
            final(readers).reader_count() == old(readers).reader_count() + 1,
            forall|i: int| #[trigger] final(readers).is_reader(i) <==> (old(readers).is_reader(i) || i == r.spec_reader()),
            forall|i: int| #[trigger] old(readers).is_reader(i) ==> final(readers).reader_head(i) == old(readers).reader_head(i),
            forall|c: Cloneable| #[trigger] c.wf_for(source, old(readers)) ==> c.wf_for(source, final(readers)),
    {
        let reader = readers.heads.len();
        readers.heads.push(Some(self.head));
        proof {
            assert forall|i: int| #[trigger] readers.is_reader(i) implies source.first() <= readers.reader_head(i)
                <= source.end() by {
                if i < reader {
                    assert(old(readers).is_reader(i));
                }
            }
            assert forall|i: int| #[trigger] readers.is_reader(i) <==> (old(readers).is_reader(i) || i == reader) by {}
            assert forall|i: int| #[trigger] old(readers).is_reader(i) implies readers.reader_head(i)
                == old(readers).reader_head(i) by {}
        }
        Cloneable { reader, head: self.head, len: self.len }
    }

    /// Unregisters this reader; what it had yet to release is released by
    /// the next release of another reader.
    pub fn drop<S: SplittableViewImpl>(self, source: &S, readers: &mut Readers)
        requires
            self.wf_for(source, old(readers)),
        ensures
            final(readers).guards(source),
            final(readers).reader_count() == old(readers).reader_count(),
            !final(readers).is_reader(self.spec_reader()),
            forall|i: int| i != self.spec_reader() ==> #[trigger] final(readers).is_reader(i) == old(readers).is_reader(i),
            forall|i: int| #[trigger] final(readers).is_reader(i) ==> final(readers).reader_head(i) == old(readers).reader_head(i),
            forall|c: Cloneable| c.spec_reader() != self.spec_reader() && #[trigger] c.wf_for(source, old(readers))
                ==> c.wf_for(source, final(readers)),
    {
        readers.heads.set(self.reader, None);
        proof {
            assert forall|i: int| #[trigger] readers.is_reader(i) implies old(readers).is_reader(i) by {}
            assert forall|c: Cloneable| c.spec_reader() != self.spec_reader() && #[trigger] c.wf_for(source, old(readers))
                implies c.wf_for(source, readers) by {
                assert(readers.is_reader(c.spec_reader()));
            }
        }
    }

    /// Obtain the current view of the stream.
    pub fn view<'a, S: SplittableViewImpl>(&self, source: &'a S, readers: &Readers) -> (r: &'a [S::Item])
        requires
            self.wf_for(source, readers),
        ensures
            r@ == self.spec_view(source),
    {
        source.view(self.head, self.len)
    }

    /// Attempt to obtain a view of at least `count` elements.
    pub fn poll_grant<S: SplittableViewImpl>(&mut self, source: &S, readers: &Readers, count: usize) -> (r: Poll<
        Result<(), S::Error>,
    >)
        requires
            old(self).wf_for(source, readers),
        ensures
            final(self).wf_for(source, readers),
            final(self).spec_reader() == old(self).spec_reader(),
            final(self).spec_head() == old(self).spec_head(),
            match r {
                Poll::Ready(Ok(())) => {
                    &&& !source.overflows(count as nat)
                    &&& final(self).spec_head() + final(self).spec_len() == source.end()
                    &&& (final(self).spec_len() >= count || source.is_closed())
                },
                Poll::Ready(Err(_)) => source.overflows(count as nat) && final(self).spec_len() == old(self).spec_len(),
                Poll::Pending => {
                    &&& !source.overflows(count as nat)
                    &&& source.end() - old(self).spec_head() < count
                    &&& !source.is_closed()
                    &&& final(self).spec_len() == old(self).spec_len()
                },
            },
    {
        proof {
            source.lemma_inv();
        }
        match source.poll_available(self.head, count) {
            Poll::Ready(Ok(len)) => {
                self.len = len;
                Poll::Ready(Ok(()))
            },
            Poll::Ready(Err(e)) => Poll::Ready(Err(e)),
            Poll::Pending => Poll::Pending,
        }
    }

    /// Advance past the first `count` elements of the view. The stream then
    /// retains from the earliest head of the registered readers on: what no
    /// reader still needs is released.
    pub fn release<S: SplittableViewImpl>(&mut self, source: &mut S, readers: &mut Readers, count: usize)
        requires
            old(self).wf_for(old(source), old(readers)),
            count <= old(self).spec_len(),
        ensures
            final(self).wf_for(final(source), final(readers)),
            final(self).spec_reader() == old(self).spec_reader(),
            final(self).spec_head() == old(self).spec_head() + count,
            final(self).spec_len() == old(self).spec_len() - count,
            final(self).spec_view(final(source)) == old(self).spec_view(old(source)).subrange(
                count as int,
                old(self).spec_len() as int,
            ),
            final(readers).reader_count() == old(readers).reader_count(),
            forall|i: int| #[trigger] final(readers).is_reader(i) == old(readers).is_reader(i),
            forall|i: int| #[trigger] final(readers).is_reader(i) && i != old(self).spec_reader()
                ==> final(readers).reader_head(i) == old(readers).reader_head(i),
            final(readers).is_earliest(final(source).first()),
            final(source).end() == old(source).end(),
            final(source).is_closed() == old(source).is_closed(),
            old(source).first() <= final(source).first(),
            forall|p: int| final(source).first() <= p < final(source).end() ==> #[trigger] final(source).contents()[p]
                == old(source).contents()[p],
            forall|c: Cloneable| c.spec_reader() != old(self).spec_reader() && #[trigger] c.wf_for(old(source), old(readers))
                ==> c.wf_for(final(source), final(readers)) && c.spec_view(final(source)) == c.spec_view(old(source)),
    {
        proof {
            source.lemma_inv();
        }
        self.len = self.len - count;
        self.head = self.head + count as u64;
        readers.heads.set(self.reader, Some(self.head));
        proof {
            assert forall|i: int| #[trigger] readers.is_reader(i) <==> old(readers).is_reader(i) by {}
            assert(readers.is_reader(self.reader as int));
        }
        let h = match readers.earliest_head() {
            Some(h) => h,
            None => {
                proof {
                    assert(false);
                }
                self.head
            },
        };
        proof {
            let k = choose|k: int| #[trigger] readers.is_reader(k) && readers.reader_head(k) == h;
            assert(old(readers).is_reader(k));
            assert(readers.is_reader(self.reader as int));
        }
        source.set_head(h);
        proof {
            source.lemma_inv();
            assert forall|i: int| #[trigger] readers.is_reader(i) implies source.first() <= readers.reader_head(i)
                <= source.end() by {
                assert(old(readers).is_reader(i));
            }
            assert forall|c: Cloneable| c.spec_reader() != old(self).spec_reader() && #[trigger] c.wf_for(
                old(source),
                old(readers),
            ) implies c.wf_for(source, readers) && c.spec_view(source) == c.spec_view(old(source)) by {
                assert(readers.is_reader(c.spec_reader()));
                assert(c.spec_view(source) =~= c.spec_view(old(source)));
            }
        }
        assert(self.spec_view(source) =~= old(self).spec_view(old(source)).subrange(count as int, old(self).spec_len() as int));
    }
}

} // verus!
