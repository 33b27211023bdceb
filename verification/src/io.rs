//! Byte streams read and written through views.
//!
//! Each read or write moves as many bytes as both the caller's buffer and
//! the current view allow, asking for a grant of one byte only when the view
//! is shorter than the caller's buffer.

use crate::splittable::SplittableViewImpl;
use crate::view::{Poll, View, ViewMut};
use vstd::prelude::*;
#[allow(unused_imports)]
use vstd::view::View as _;

verus! {

/// The number of bytes a transfer moves: all of the caller's buffer if the
/// view holds that many, otherwise as many as the view holds.
pub open spec fn transfer_len(buf_len: nat, view_len: nat) -> nat {
    if buf_len <= view_len {
        buf_len
    } else {
        view_len
    }
}

/// Reading from a view that holds `w` and has released `released`, into a
/// buffer that held `buf`: as many bytes as both hold are copied to the
/// front of the buffer, whose rest stays, and the view moves past them,
/// leaving `after` and the buffer holding `buf_after`.
pub open spec fn takes<T: View<Item = u8>>(
    w: Seq<u8>,
    released: Seq<u8>,
    after: T,
    buf: Seq<u8>,
    buf_after: Seq<u8>,
    n: nat,
) -> bool {
    &&& n == transfer_len(buf.len(), w.len())
    &&& buf_after.len() == buf.len()
    &&& buf_after.subrange(0, n as int) == w.subrange(0, n as int)
    &&& buf_after.subrange(n as int, buf.len() as int) == buf.subrange(n as int, buf.len() as int)
    &&& after.current() == w.subrange(n as int, w.len() as int)
    &&& after.released() == released + w.subrange(0, n as int)
}

/// What a read of a buffer holding `buf` from the view `before` does,
/// answering `r` and leaving the view `after` and the buffer `buf_after`.
/// Where the view holds enough, the whole buffer is filled from it. Where it
/// does not, a grant of one byte comes first: its error or its pending is
/// the answer, with nothing read; once it is granted, as many bytes as the
/// view then holds, up to the buffer's length, are read.
pub open spec fn reads<T: View<Item = u8>>(
    before: T,
    after: T,
    buf: Seq<u8>,
    buf_after: Seq<u8>,
    r: Poll<Result<usize, T::Error>>,
) -> bool {
    if buf.len() <= before.current().len() {
        &&& r == Poll::<Result<usize, T::Error>>::Ready(Ok(buf.len() as usize))
        &&& takes(before.current(), before.released(), after, buf, buf_after, buf.len())
    } else {
        exists|granted: T, g: Poll<Result<(), T::Error>>|
            #[trigger] before.grant_effect(1, granted, g) && granted.inv() && match g {
                Poll::Ready(Ok(_)) => exists|n: usize|
                    r == Poll::<Result<usize, T::Error>>::Ready(Ok(n)) && #[trigger] takes(
                        granted.current(),
                        granted.released(),
                        after,
                        buf,
                        buf_after,
                        n as nat,
                    ),
                Poll::Ready(Err(e)) => r == Poll::<Result<usize, T::Error>>::Ready(Err(e)) && after == granted
                    && buf_after == buf,
                Poll::Pending => r is Pending && after == granted && buf_after == buf,
            }
    }
}

/// Writing a buffer holding `buf` into a view that holds `w` slots and has
/// released `released`: as many bytes as both hold are written and
/// released, leaving `after` with the rest of the slots.
pub open spec fn puts<T: View<Item = u8>>(w: Seq<u8>, released: Seq<u8>, after: T, buf: Seq<u8>, n: nat) -> bool {
    &&& n == transfer_len(buf.len(), w.len())
    &&& after.current() == w.subrange(n as int, w.len() as int)
    &&& after.released() == released + buf.subrange(0, n as int)
}

/// What a write of a buffer holding `buf` into the view `before` does,
/// answering `r` and leaving the view `after`. Where the view holds enough
/// slots, the whole buffer is written. Where it does not, a grant of one
/// slot comes first: its error or its pending is the answer, with nothing
/// written; once it is granted, as many bytes as the view then holds slots,
/// up to the buffer's length, are written.
pub open spec fn writes<T: View<Item = u8>>(before: T, after: T, buf: Seq<u8>, r: Poll<Result<usize, T::Error>>) -> bool {
    if buf.len() <= before.current().len() {
        &&& r == Poll::<Result<usize, T::Error>>::Ready(Ok(buf.len() as usize))
        &&& puts(before.current(), before.released(), after, buf, buf.len())
    } else {
        exists|granted: T, g: Poll<Result<(), T::Error>>|
            #[trigger] before.grant_effect(1, granted, g) && granted.inv() && match g {
                Poll::Ready(Ok(_)) => exists|n: usize|
                    r == Poll::<Result<usize, T::Error>>::Ready(Ok(n)) && #[trigger] puts(
                        granted.current(),
                        granted.released(),
                        after,
                        buf,
                        n as nat,
                    ),
                Poll::Ready(Err(e)) => r == Poll::<Result<usize, T::Error>>::Ready(Err(e)) && after == granted,
                Poll::Pending => r is Pending && after == granted,
            }
    }
}

/// Copies the first `len` bytes of `view` into the current view of `sink`.
fn copy_into<T: ViewMut<Item = u8>>(sink: &mut T, buf: &[u8], len: usize)
    requires
        old(sink).inv(),
        len <= buf@.len(),
        len <= old(sink).current().len(),
    ensures
        final(sink).inv(),
        final(sink).released() == old(sink).released(),
        final(sink).is_closed() == old(sink).is_closed(),
        final(sink).current().len() == old(sink).current().len(),
        final(sink).current().subrange(0, len as int) == buf@.subrange(0, len as int),
        final(sink).current().subrange(len as int, old(sink).current().len() as int) == old(sink).current().subrange(
            len as int,
            old(sink).current().len() as int,
        ),
{
    let mut i: usize = 0;
    while i < len
        invariant
            sink.inv(),
            sink.released() == old(sink).released(),
            sink.is_closed() == old(sink).is_closed(),
            i <= len,
            len <= buf@.len(),
            len <= old(sink).current().len(),
            sink.current().len() == old(sink).current().len(),
            forall|k: int| 0 <= k < i ==> #[trigger] sink.current()[k] == buf@[k],
            forall|k: int| len <= k < old(sink).current().len() ==> #[trigger] sink.current()[k] == old(sink).current()[k],
        decreases len - i,
    {
        sink.set(i, buf[i]);
        i = i + 1;
    }
    assert(sink.current().subrange(0, len as int) =~= buf@.subrange(0, len as int));
    assert(sink.current().subrange(len as int, old(sink).current().len() as int) =~= old(sink).current().subrange(
        len as int,
        old(sink).current().len() as int,
    ));
}

/// Copies the first `len` bytes of `view` into `buf`.
fn copy_from(buf: &mut [u8], view: &[u8], len: usize)
    requires
        len <= old(buf)@.len(),
        len <= view@.len(),
    ensures
        final(buf)@.len() == old(buf)@.len(),
        final(buf)@.subrange(0, len as int) == view@.subrange(0, len as int),
        final(buf)@.subrange(len as int, old(buf)@.len() as int) == old(buf)@.subrange(
            len as int,
            old(buf)@.len() as int,
        ),
{
    let mut i: usize = 0;
    while i < len
        invariant
            i <= len,
            len <= view@.len(),
            len <= old(buf)@.len(),
            buf@.len() == old(buf)@.len(),
            forall|k: int| 0 <= k < i ==> #[trigger] buf@[k] == view@[k],
            forall|k: int| len <= k < old(buf)@.len() ==> #[trigger] buf@[k] == old(buf)@[k],
        decreases len - i,
    {
        buf[i] = view[i];
        i = i + 1;
    }
    assert(buf@.subrange(0, len as int) =~= view@.subrange(0, len as int));
    assert(buf@.subrange(len as int, old(buf)@.len() as int) =~= old(buf)@.subrange(len as int, old(buf)@.len() as int));
}

/// Reads bytes from a view.
pub struct Reader<T>(T);

impl<T> Reader<T> {
    /// The view read from.
    pub closed spec fn inner(&self) -> T {
        self.0
    }

    /// Create a new `Reader`.
    pub fn new(source: T) -> (r: Self)
        ensures
            r.inner() == source,
    {
        Reader(source)
    }

    /// Return the wrapped view.
    pub fn into_inner(self) -> (r: T)
        ensures
            r == self.inner(),
    {
        self.0
    }
}

impl<T: View<Item = u8>> Reader<T> {
    /// Read bytes into `buf`, advancing the view past them.
    ///
    /// Where the view holds fewer bytes than `buf`, a grant of one byte is
    /// requested first, and what the view then holds is read; pending means
    /// the view must grow before anything can be read.
    pub fn read(&mut self, buf: &mut [u8]) -> (r: Poll<Result<usize, T::Error>>)
        requires
            old(self).inner().inv(),
        ensures
            reads(old(self).inner(), final(self).inner(), old(buf)@, final(buf)@, r),
            final(self).inner().inv(),
            final(buf)@.len() == old(buf)@.len(),
            match r {
                Poll::Ready(Ok(n)) => exists|w: Seq<u8>| #![trigger transfer_len(old(buf)@.len(), w.len())] {
                    &&& n == transfer_len(old(buf)@.len(), w.len())
                    &&& final(buf)@.subrange(0, n as int) == w.subrange(0, n as int)
                    &&& final(buf)@.subrange(n as int, old(buf)@.len() as int) == old(buf)@.subrange(n as int, old(buf)@.len() as int)
                    &&& final(self).inner().current() == w.subrange(n as int, w.len() as int)
                    &&& old(self).inner().current().is_prefix_of(w)
                    &&& (old(buf)@.len() <= old(self).inner().current().len() ==> w == old(self).inner().current())
                    &&& final(self).inner().released() == old(self).inner().released() + w.subrange(0, n as int)
                    &&& (n == 0 ==> old(buf)@.len() == 0 || final(self).inner().is_closed())
                },
                _ => {
                    &&& final(buf)@ == old(buf)@
                    &&& old(buf)@.len() > old(self).inner().current().len()
                    &&& final(self).inner().released() == old(self).inner().released()
                },
            },
    {
        let available = self.0.view().len();
        if buf.len() > available {
            match self.0.poll_grant(1) {
                Poll::Ready(Ok(())) => {},
                Poll::Ready(Err(e)) => return Poll::Ready(Err(e)),
                Poll::Pending => return Poll::Pending,
            }
        }
        let view = self.0.view();
        let len = if buf.len() <= view.len() { buf.len() } else { view.len() };
        let ghost w = self.0.current();
        let ghost granted = self.0;
        copy_from(buf, view, len);
        self.0.release(len);
        proof {
            assert(takes(w, granted.released(), self.0, old(buf)@, buf@, len as nat));
        }
        assert({
            &&& len == transfer_len(old(buf)@.len(), w.len())
            &&& buf@.subrange(0, len as int) == w.subrange(0, len as int)
            &&& buf@.subrange(len as int, old(buf)@.len() as int) == old(buf)@.subrange(len as int, old(buf)@.len() as int)
            &&& self.0.current() == w.subrange(len as int, w.len() as int)
            &&& old(self).inner().current().is_prefix_of(w)
            &&& (old(buf)@.len() <= old(self).inner().current().len() ==> w == old(self).inner().current())
        });
        Poll::Ready(Ok(len))
    }

    /// Obtain at least one byte, unless the stream has ended, and return
    /// the bytes viewed.
    pub fn fill_buf(&mut self) -> (r: Poll<Result<&[u8], T::Error>>)
        requires
            old(self).inner().inv(),
        ensures
            final(self).inner().inv(),
            old(self).inner().current().is_prefix_of(final(self).inner().current()),
            match r {
                Poll::Ready(Ok(bytes)) => {
                    &&& bytes@ == final(self).inner().current()
                    &&& !final(self).inner().overflows(1)
                    &&& (bytes@.len() >= 1 || final(self).inner().is_closed())
                },
                Poll::Ready(Err(_)) => final(self).inner().overflows(1),
                Poll::Pending => {
                    &&& !final(self).inner().overflows(1)
                    &&& final(self).inner().current().len() == 0
                    &&& !final(self).inner().is_closed()
                },
            },
    {
        match self.0.poll_grant(1) {
            Poll::Ready(Ok(())) => Poll::Ready(Ok(self.0.view())),
            Poll::Ready(Err(e)) => Poll::Ready(Err(e)),
            Poll::Pending => Poll::Pending,
        }
    }

    /// Advance past the first `amt` bytes viewed.
    pub fn consume(&mut self, amt: usize)
        requires
            old(self).inner().inv(),
            amt <= old(self).inner().current().len(),
        ensures
            final(self).inner().inv(),
            final(self).inner().current() == old(self).inner().current().subrange(
                amt as int,
                old(self).inner().current().len() as int,
            ),
    {
        self.0.release(amt);
    }
}

/// Writes bytes into a mutable view.
pub struct Writer<T>(T);

impl<T> Writer<T> {
    /// The view written to.
    pub closed spec fn inner(&self) -> T {
        self.0
    }

    /// Create a new `Writer`.
    pub fn new(sink: T) -> (r: Self)
        ensures
            r.inner() == sink,
    {
        Writer(sink)
    }

    /// Return the wrapped view.
    pub fn into_inner(self) -> (r: T)
        ensures
            r == self.inner(),
    {
        self.0
    }
}

impl<T: ViewMut<Item = u8>> Writer<T> {
    /// Write bytes from `buf` into the view and release them.
    ///
    /// Where the view holds fewer slots than `buf` has bytes, a grant of one
    /// slot is requested first, and as many bytes as the view then holds are
    /// written; pending means the view must grow before anything can be
    /// written.
    pub fn write(&mut self, buf: &[u8]) -> (r: Poll<Result<usize, T::Error>>)
        requires
            old(self).inner().inv(),
        ensures
            writes(old(self).inner(), final(self).inner(), buf@, r),
            final(self).inner().inv(),
            match r {
                Poll::Ready(Ok(n)) => exists|w: Seq<u8>| #![trigger transfer_len(buf@.len(), w.len())] {
                    &&& n == transfer_len(buf@.len(), w.len())
                    &&& final(self).inner().current() == w.subrange(n as int, w.len() as int)
                    &&& old(self).inner().current().is_prefix_of(w)
                    &&& (buf@.len() <= old(self).inner().current().len() ==> w == old(self).inner().current())
                    &&& final(self).inner().released() == old(self).inner().released() + buf@.subrange(0, n as int)
                    &&& (n == 0 ==> buf@.len() == 0 || final(self).inner().is_closed())
                },
                _ => {
                    &&& buf@.len() > old(self).inner().current().len()
                    &&& final(self).inner().released() == old(self).inner().released()
                },
            },
    {
        let available = self.0.view().len();
        if buf.len() > available {
            match self.0.poll_grant(1) {
                Poll::Ready(Ok(())) => {},
                Poll::Ready(Err(e)) => return Poll::Ready(Err(e)),
                Poll::Pending => return Poll::Pending,
            }
        }
        let view_len = self.0.view().len();
        let len = if buf.len() <= view_len { buf.len() } else { view_len };
        let ghost w = self.0.current();
        let ghost granted = self.0;
        copy_into(&mut self.0, buf, len);
        let ghost written = self.0.current();
        self.0.release(len);
        assert(self.0.current() =~= w.subrange(len as int, w.len() as int));
        proof {
            assert(written.subrange(0, len as int) == buf@.subrange(0, len as int));
            assert(puts(w, granted.released(), self.0, buf@, len as nat));
        }
        assert({
            &&& len == transfer_len(buf@.len(), w.len())
            &&& self.0.current() == w.subrange(len as int, w.len() as int)
            &&& old(self).inner().current().is_prefix_of(w)
            &&& (buf@.len() <= old(self).inner().current().len() ==> w == old(self).inner().current())
        });
        Poll::Ready(Ok(len))
    }

    /// Writing has no buffer of its own to flush.
    pub fn flush(&mut self) -> (r: Result<(), T::Error>)
        ensures
            r is Ok,
            *final(self) == *old(self),
    {
        Ok(())
    }
}

/// Reads bytes from a view, polled by an asynchronous reader.
pub struct AsyncReader<T> {
    source: T,
    len: usize,
}

impl<T> AsyncReader<T> {
    /// The view read from.
    pub closed spec fn inner(&self) -> T {
        self.source
    }

    /// The number of bytes copied but not yet released.
    pub closed spec fn pending(&self) -> nat {
        self.len as nat
    }

    /// Create a new `AsyncReader`.
    pub fn new(source: T) -> (r: Self)
        ensures
            r.inner() == source,
            r.pending() == 0,
    {
        AsyncReader { source, len: 0 }
    }

    /// Return the wrapped view.
    pub fn into_inner(self) -> (r: T)
        ensures
            r == self.inner(),
    {
        self.source
    }
}

impl<T: View<Item = u8>> AsyncReader<T> {
    /// Attempt to read bytes into `buf`, advancing the view past them.
    pub fn poll_read(&mut self, buf: &mut [u8]) -> (r: Poll<Result<usize, T::Error>>)
        requires
            old(self).inner().inv(),
            old(self).pending() == 0,
        ensures
            reads(old(self).inner(), final(self).inner(), old(buf)@, final(buf)@, r),
            final(self).inner().inv(),
            final(self).pending() == 0,
            final(buf)@.len() == old(buf)@.len(),
            match r {
                Poll::Ready(Ok(n)) => exists|w: Seq<u8>| #![trigger transfer_len(old(buf)@.len(), w.len())] {
                    &&& n == transfer_len(old(buf)@.len(), w.len())
                    &&& final(buf)@.subrange(0, n as int) == w.subrange(0, n as int)
                    &&& final(buf)@.subrange(n as int, old(buf)@.len() as int) == old(buf)@.subrange(n as int, old(buf)@.len() as int)
                    &&& final(self).inner().current() == w.subrange(n as int, w.len() as int)
                    &&& old(self).inner().current().is_prefix_of(w)
                    &&& (old(buf)@.len() <= old(self).inner().current().len() ==> w == old(self).inner().current())
                    &&& final(self).inner().released() == old(self).inner().released() + w.subrange(0, n as int)
                    &&& (n == 0 ==> old(buf)@.len() == 0 || final(self).inner().is_closed())
                },
                _ => {
                    &&& final(buf)@ == old(buf)@
                    &&& old(buf)@.len() > old(self).inner().current().len()
                    &&& final(self).inner().released() == old(self).inner().released()
                },
            },
    {
        let ghost mut w = self.source.current();
        let ghost mut granted = self.source;
        if self.len == 0 {
            let available = self.source.view().len();
            if buf.len() > available {
                match self.source.poll_grant(1) {
                    Poll::Ready(Ok(())) => {},
                    Poll::Ready(Err(e)) => return Poll::Ready(Err(e)),
                    Poll::Pending => return Poll::Pending,
                }
            }
            let view = self.source.view();
            self.len = if buf.len() <= view.len() { buf.len() } else { view.len() };
            proof {
                w = self.source.current();
                granted = self.source;
            }
            copy_from(buf, view, self.len);
        }
        let len = self.len;
        self.source.release(len);
        self.len = 0;
        proof {
            assert(takes(w, granted.released(), self.source, old(buf)@, buf@, len as nat));
        }
        assert({
            &&& len == transfer_len(old(buf)@.len(), w.len())
            &&& buf@.subrange(0, len as int) == w.subrange(0, len as int)
            &&& buf@.subrange(len as int, old(buf)@.len() as int) == old(buf)@.subrange(len as int, old(buf)@.len() as int)
            &&& self.source.current() == w.subrange(len as int, w.len() as int)
            &&& old(self).inner().current().is_prefix_of(w)
            &&& (old(buf)@.len() <= old(self).inner().current().len() ==> w == old(self).inner().current())
        });
        Poll::Ready(Ok(len))
    }

    /// Attempt to obtain at least one byte, unless the stream has ended, and
    /// return the bytes viewed.
    pub fn poll_fill_buf(&mut self) -> (r: Poll<Result<&[u8], T::Error>>)
        requires
            old(self).inner().inv(),
        ensures
            final(self).inner().inv(),
            final(self).pending() == old(self).pending(),
            old(self).inner().current().is_prefix_of(final(self).inner().current()),
            match r {
                Poll::Ready(Ok(bytes)) => {
                    &&& bytes@ == final(self).inner().current()
                    &&& !final(self).inner().overflows(1)
                    &&& (bytes@.len() >= 1 || final(self).inner().is_closed())
                },
                Poll::Ready(Err(_)) => final(self).inner().overflows(1),
                Poll::Pending => {
                    &&& !final(self).inner().overflows(1)
                    &&& final(self).inner().current().len() == 0
                    &&& !final(self).inner().is_closed()
                },
            },
    {
        match self.source.poll_grant(1) {
            Poll::Ready(Ok(())) => Poll::Ready(Ok(self.source.view())),
            Poll::Ready(Err(e)) => Poll::Ready(Err(e)),
            Poll::Pending => Poll::Pending,
        }
    }

    /// Advance past the first `amt` bytes viewed.
    pub fn consume(&mut self, amt: usize)
        requires
            old(self).inner().inv(),
            amt <= old(self).inner().current().len(),
        ensures
            final(self).inner().inv(),
            final(self).pending() == old(self).pending(),
            final(self).inner().current() == old(self).inner().current().subrange(
                amt as int,
                old(self).inner().current().len() as int,
            ),
    {
        self.source.release(amt);
    }
}

/// Writes bytes into a mutable view, polled by an asynchronous writer.
pub struct AsyncWriter<T> {
    sink: T,
    len: usize,
}

impl<T> AsyncWriter<T> {
    /// The view written to.
    pub closed spec fn inner(&self) -> T {
        self.sink
    }

    /// The number of bytes copied but not yet released.
    pub closed spec fn pending(&self) -> nat {
        self.len as nat
    }

    /// Create a new `AsyncWriter`.
    pub fn new(sink: T) -> (r: Self)
        ensures
            r.inner() == sink,
            r.pending() == 0,
    {
        AsyncWriter { sink, len: 0 }
    }

    /// Return the wrapped view.
    pub fn into_inner(self) -> (r: T)
        ensures
            r == self.inner(),
    {
        self.sink
    }
}

impl<T: ViewMut<Item = u8>> AsyncWriter<T> {
    /// Attempt to write bytes from `buf` into the view and release them.
    pub fn poll_write(&mut self, buf: &[u8]) -> (r: Poll<Result<usize, T::Error>>)
        requires
            old(self).inner().inv(),
            old(self).pending() == 0,
        ensures
            writes(old(self).inner(), final(self).inner(), buf@, r),
            final(self).inner().inv(),
            final(self).pending() == 0,
            match r {
                Poll::Ready(Ok(n)) => exists|w: Seq<u8>| #![trigger transfer_len(buf@.len(), w.len())] {
                    &&& n == transfer_len(buf@.len(), w.len())
                    &&& final(self).inner().current() == w.subrange(n as int, w.len() as int)
                    &&& old(self).inner().current().is_prefix_of(w)
                    &&& (buf@.len() <= old(self).inner().current().len() ==> w == old(self).inner().current())
                    &&& final(self).inner().released() == old(self).inner().released() + buf@.subrange(0, n as int)
                    &&& (n == 0 ==> buf@.len() == 0 || final(self).inner().is_closed())
                },
                _ => {
                    &&& buf@.len() > old(self).inner().current().len()
                    &&& final(self).inner().released() == old(self).inner().released()
                },
            },
    {
        let ghost mut w = self.sink.current();
        let ghost mut granted = self.sink;
        if self.len == 0 {
            let available = self.sink.view().len();
            if buf.len() > available {
                match self.sink.poll_grant(1) {
                    Poll::Ready(Ok(())) => {},
                    Poll::Ready(Err(e)) => return Poll::Ready(Err(e)),
                    Poll::Pending => return Poll::Pending,
                }
            }
            let view_len = self.sink.view().len();
            self.len = if buf.len() <= view_len { buf.len() } else { view_len };
            proof {
                w = self.sink.current();
                granted = self.sink;
            }
            copy_into(&mut self.sink, buf, self.len);
        }
        let ghost written = self.sink.current();
        let len = self.len;
        self.sink.release(len);
        self.len = 0;
        assert(self.sink.current() =~= w.subrange(len as int, w.len() as int));
        proof {
            assert(written.subrange(0, len as int) == buf@.subrange(0, len as int));
            assert(puts(w, granted.released(), self.sink, buf@, len as nat));
        }
        assert({
            &&& len == transfer_len(buf@.len(), w.len())
            &&& self.sink.current() == w.subrange(len as int, w.len() as int)
            &&& old(self).inner().current().is_prefix_of(w)
            &&& (buf@.len() <= old(self).inner().current().len() ==> w == old(self).inner().current())
        });
        Poll::Ready(Ok(len))
    }

    /// Writing has no buffer of its own to flush.
    pub fn poll_flush(&mut self) -> (r: Poll<Result<(), T::Error>>)
        ensures
            r matches Poll::Ready(Ok(())),
            *final(self) == *old(self),
    {
        Poll::Ready(Ok(()))
    }

    /// Closing needs nothing of the view.
    pub fn poll_close(&mut self) -> (r: Poll<Result<(), T::Error>>)
        ensures
            r matches Poll::Ready(Ok(())),
            *final(self) == *old(self),
    {
        Poll::Ready(Ok(()))
    }
}

/// A read from a reader of a stream — by [`Reader::read`] or
/// [`AsyncReader::poll_read`] — takes what the stream has: it is pending only
/// while no byte is available from the reader's head and the stream is
/// open, it fails only where a grant of one byte can never be met, and
/// otherwise it reads as many bytes as both the buffer and the available part
/// of the stream hold: the stream's bytes from the reader's head on, into the
/// front of the buffer.
pub proof fn law_read_takes_what_is_available<S: SplittableViewImpl<Item = u8>>(
    before: crate::splittable::View<S>,
    after: crate::splittable::View<S>,
    buf: Seq<u8>,
    buf_after: Seq<u8>,
    r: Poll<Result<usize, S::Error>>,
)
    requires
        before.wf(),
        reads(before, after, buf, buf_after, r),
    ensures
        r is Pending ==> {
            &&& buf.len() > 0
            &&& before.source().end() == before.spec_head()
            &&& !before.source().is_closed()
        },
        r matches Poll::Ready(Err(_)) ==> before.source().overflows(1),
        r matches Poll::Ready(Ok(n)) ==> {
            let available = before.source().end() - before.spec_head();
            &&& n == if buf.len() <= available { buf.len() as int } else { available }
            &&& buf_after.len() == buf.len()
            &&& buf_after.subrange(0, n as int) == before.source().contents().subrange(
                before.spec_head(),
                before.spec_head() + n,
            )
            &&& buf_after.subrange(n as int, buf.len() as int) == buf.subrange(n as int, buf.len() as int)
        },
{
    before.source().lemma_inv();
    let head = before.spec_head();
    let end = before.source().end();
    if buf.len() <= before.current().len() {
        assert(before.current() == before.source().contents().subrange(head, head + before.spec_len()));
        before.lemma_len_fits();
        assert(buf_after.subrange(0, buf.len() as int) =~= before.source().contents().subrange(head, head + buf.len()));
    } else {
        let (granted, g) = choose|granted: crate::splittable::View<S>, g: Poll<Result<(), S::Error>>|
            #[trigger] before.grant_effect(1, granted, g) && granted.inv() && match g {
                Poll::Ready(Ok(_)) => exists|n: usize|
                    r == Poll::<Result<usize, S::Error>>::Ready(Ok(n)) && #[trigger] takes(
                        granted.current(),
                        granted.released(),
                        after,
                        buf,
                        buf_after,
                        n as nat,
                    ),
                Poll::Ready(Err(e)) => r == Poll::<Result<usize, S::Error>>::Ready(Err(e)) && after == granted
                    && buf_after == buf,
                Poll::Pending => r is Pending && after == granted && buf_after == buf,
            };
        if let Poll::Ready(Ok(_)) = g {
            let n = choose|n: usize|
                r == Poll::<Result<usize, S::Error>>::Ready(Ok(n)) && #[trigger] takes(
                    granted.current(),
                    granted.released(),
                    after,
                    buf,
                    buf_after,
                    n as nat,
                );
            assert(granted.current() == before.source().contents().subrange(head, end));
            assert(buf_after.subrange(0, n as int) =~= before.source().contents().subrange(head, head + n));
        }
    }
}

/// A write into a circular buffer's writer — by [`Writer::write`] or
/// [`AsyncWriter::poll_write`] — fills what is free: it never fails, it is
/// pending only while the writer holds no slot, no slot is free and the
/// stream is open, and otherwise it writes as many bytes as both the buffer
/// and the writer's slots hold (the slots it holds, or every free slot where
/// it held none), committing them to the stream in order.
pub proof fn law_write_fills_what_is_free(
    before: crate::circular_buffer::BoundSink<u8>,
    after: crate::circular_buffer::BoundSink<u8>,
    buf: Seq<u8>,
    r: Poll<Result<usize, crate::error::GrantOverflow>>,
)
    requires
        before.inv(),
        writes(before, after, buf, r),
    ensures
        !(r matches Poll::Ready(Err(_))),
        r is Pending ==> {
            &&& buf.len() > 0
            &&& before.spec_sink().spec_available() == 0
            &&& before.spec_state().free_len() == 0
            &&& !before.spec_state().spec_closed()
        },
        r matches Poll::Ready(Ok(n)) ==> {
            let held = if before.spec_sink().spec_available() > 0 {
                before.spec_sink().spec_available() as int
            } else {
                before.spec_state().free_len()
            };
            &&& n == if buf.len() <= held { buf.len() as int } else { held }
            &&& after.spec_state().stream() == before.spec_state().stream() + buf.subrange(0, n as int)
        },
{
    before.spec_state().lemma_wf();
    before.spec_state().lemma_slots_len(before.spec_sink().spec_tail(), before.spec_sink().spec_available());
    if buf.len() > before.current().len() {
        let (granted, g) = choose|granted: crate::circular_buffer::BoundSink<u8>, g: Poll<Result<(), crate::error::GrantOverflow>>|
            #[trigger] before.grant_effect(1, granted, g) && granted.inv() && match g {
                Poll::Ready(Ok(_)) => exists|n: usize|
                    r == Poll::<Result<usize, crate::error::GrantOverflow>>::Ready(Ok(n)) && #[trigger] puts(
                        granted.current(),
                        granted.released(),
                        after,
                        buf,
                        n as nat,
                    ),
                Poll::Ready(Err(e)) => r == Poll::<Result<usize, crate::error::GrantOverflow>>::Ready(Err(e))
                    && after == granted,
                Poll::Pending => r is Pending && after == granted,
            };
        granted.spec_state().lemma_slots_len(granted.spec_sink().spec_tail(), granted.spec_sink().spec_available());
    }
}

} // verus!
