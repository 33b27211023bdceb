use rivulet::lazy::{lazy_channel, Lazy};
use rivulet::slice::{Slice, SliceMut};
use rivulet::splittable::View;
use rivulet::view::{Poll, View as _, ViewMut as _};

#[test]
fn lazy_view_initializes_on_first_grant() {
    let storage: Vec<u8> = vec![1, 2, 3, 4];
    let mut lazy = Lazy::new(|| View::new(Slice::new(&storage)));
    // nothing is viewed, and a grant of nothing creates nothing
    assert!(lazy.view().is_empty());
    assert!(matches!(lazy.poll_grant(0), Poll::Ready(Ok(()))));
    lazy.release(0);
    // a real grant creates the view
    assert!(matches!(lazy.poll_grant(2), Poll::Ready(Ok(()))));
    assert_eq!(lazy.view(), &[1, 2, 3, 4]);
    lazy.release(3);
    assert_eq!(lazy.view(), &[4]);
    let inner = lazy.into_inner().unwrap();
    assert_eq!(inner.view(), &[4]);
}

#[test]
fn lazy_view_never_granted_stays_uninitialized() {
    let storage: Vec<u8> = vec![1];
    let lazy = Lazy::new(|| View::new(Slice::new(&storage)));
    assert!(lazy.into_inner().is_none());
}

#[test]
fn lazy_view_mut_writes_through() {
    let mut storage: Vec<u8> = vec![0, 0, 0];
    {
        let mut lazy = Lazy::new(|| View::new(SliceMut::new(&mut storage)));
        assert!(matches!(lazy.poll_grant(3), Poll::Ready(Ok(()))));
        lazy.set(1, 9);
        lazy.release(3);
    }
    assert_eq!(storage, vec![0, 9, 0]);
}

#[test]
fn lazy_channel_creates_both_ends_on_first_write() {
    let input: Vec<u8> = vec![5, 6, 7];
    let mut output: Vec<u8> = vec![0, 0];
    {
        let (mut sink, mut source, mut shared) =
            lazy_channel(|| (View::new(SliceMut::new(&mut output)), View::new(Slice::new(&input))));
        assert!(sink.view().is_empty());
        assert!(matches!(sink.poll_grant(&mut shared, 0), Poll::Ready(Ok(()))));
        assert!(matches!(sink.poll_grant(&mut shared, 1), Poll::Ready(Ok(()))));
        assert_eq!(sink.view().len(), 2);
        sink.release(2);
        assert!(matches!(source.poll_grant(&mut shared, 1), Poll::Ready(Ok(()))));
        assert_eq!(source.view(), &[5, 6, 7]);
        source.release(1);
        assert_eq!(source.view(), &[6, 7]);
    }
}

#[test]
fn lazy_channel_ends_write_through() {
    let mut output: Vec<u8> = vec![0, 0, 0];
    let mut input: Vec<u8> = vec![1, 2];
    {
        let (mut sink, mut source, mut shared) = lazy_channel(|| {
            (View::new(SliceMut::new(&mut output)), View::new(SliceMut::new(&mut input)))
        });
        assert!(matches!(sink.poll_grant(&mut shared, 3), Poll::Ready(Ok(()))));
        sink.set(0, 7);
        sink.set(2, 9);
        assert_eq!(sink.view(), &[7, 0, 9]);
        sink.release(3);
        assert!(matches!(source.poll_grant(&mut shared, 2), Poll::Ready(Ok(()))));
        source.set(1, 5);
        assert_eq!(source.view(), &[1, 5]);
    }
    assert_eq!(output, vec![7, 0, 9]);
    assert_eq!(input, vec![1, 5]);
}

#[test]
fn lazy_channel_reader_waits_for_the_writer() {
    let input: Vec<u8> = vec![1, 2];
    let mut output: Vec<u8> = vec![0];
    {
        let (mut sink, mut source, mut shared) =
            lazy_channel(|| (View::new(SliceMut::new(&mut output)), View::new(Slice::new(&input))));
        // the channel does not exist yet: the reader waits
        assert!(matches!(source.poll_grant(&mut shared, 1), Poll::Pending));
        assert!(source.view().is_empty());
        assert!(matches!(sink.poll_grant(&mut shared, 1), Poll::Ready(Ok(()))));
        assert!(matches!(source.poll_grant(&mut shared, 1), Poll::Ready(Ok(()))));
        assert_eq!(source.view(), &[1, 2]);
    }
}
