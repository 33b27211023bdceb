use rivulet::slice::{Slice, SliceMut};
use rivulet::splittable::View;
use rivulet::view::Poll;

fn grant<S: rivulet::splittable::SplittableViewImpl>(stream: &mut View<S>, count: usize) {
    match stream.poll_grant(count) {
        Poll::Ready(Ok(())) => {}
        _ => panic!("a slice grants at once"),
    }
}

#[test]
fn slice() {
    let storage: Vec<u8> = (0..100).collect();
    let mut stream = View::new(Slice::new(&storage));

    // There should be an immediate view available
    grant(&mut stream, 0);
    let view = stream.view();
    assert_eq!(view.len(), 100);
    assert_eq!(view[0], 0);

    // Request a grant, nothing should change
    grant(&mut stream, 10);
    let view = stream.view();
    assert_eq!(view.len(), 100);
    assert_eq!(view[0], 0);

    // Release a few items and change a value
    stream.release(5);
    let view = stream.view();
    assert_eq!(view.len(), 95);
    assert_eq!(view[0], 5);

    // Do a giant (but useless) grant request and release the remaining items except one
    grant(&mut stream, 1000);
    stream.release(94);
    let view = stream.view();
    assert_eq!(view.len(), 1);
    assert_eq!(view[0], 99);

    // Release the last item
    stream.release(1);
    let view = stream.view();
    assert!(view.is_empty());
}

#[test]
fn slice_mut() {
    let mut storage: Vec<u8> = (0..100).collect();
    {
        let mut stream = View::new(SliceMut::new(&mut storage));

        // There should be an immediate view available
        grant(&mut stream, 0);
        let view = stream.view();
        assert_eq!(view.len(), 100);
        assert_eq!(view[0], 0);

        // Request a grant, nothing should change
        grant(&mut stream, 10);
        let view = stream.view();
        assert_eq!(view.len(), 100);
        assert_eq!(view[0], 0);

        // Release a few items and change a value
        stream.release(5);
        let view = stream.view();
        assert_eq!(view.len(), 95);
        assert_eq!(view[0], 5);
        stream.set(0, 101);

        // Do a giant (but useless) grant request and release the remaining items except one
        grant(&mut stream, 1000);
        stream.release(94);
        let view = stream.view();
        assert_eq!(view.len(), 1);
        assert_eq!(view[0], 99);

        // Release the last item
        stream.release(1);
        let view = stream.view();
        assert!(view.is_empty());
    }

    // Check that the storage holds its first values with the modification
    let expected = {
        let mut expected: Vec<u8> = (0..100).collect();
        expected[5] = 101;
        expected
    };
    assert_eq!(storage, expected);
}

#[test]
fn slice_into_inner_returns_the_slice() {
    let storage: Vec<u8> = vec![7, 8, 9];
    let slice = Slice::new(&storage);
    assert_eq!(slice.into_inner(), &[7, 8, 9]);
}

#[test]
fn slice_grant_past_the_end_is_empty() {
    let storage: Vec<u8> = vec![1, 2, 3];
    let mut stream = View::new(Slice::new(&storage));
    grant(&mut stream, 3);
    stream.release(3);
    grant(&mut stream, 1);
    assert!(stream.view().is_empty());
}
