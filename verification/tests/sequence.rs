use rivulet::circular_buffer::buffer;
use rivulet::slice::Slice;
use rivulet::splittable::sequence::make_sequence;
use rivulet::splittable::SplittableView;
use rivulet::view::Poll;

#[test]
fn sequence_drop_first() {
    let (mut sink, state) = buffer::<i64>(4096).unwrap();
    let (first, second, mut shared) = make_sequence(state);

    // Add a bit of data.
    assert!(matches!(sink.poll_grant(shared.get_ref(), 1), Poll::Ready(Ok(()))));
    sink.set(shared.get_mut(), 0, 1);
    sink.release(shared.get_mut(), 1);

    // The first view goes away, so the second sees the stream closed, with
    // nothing passed to it: an empty view.
    first.drop(&mut shared);
    match second.poll_available(&shared, 0, 100) {
        Poll::Ready(Ok(n)) => assert_eq!(n, 0),
        _ => panic!("the stream is closed"),
    }
    assert_eq!(second.view(&shared, 0, 0), &[] as &[i64]);
}

#[test]
fn released_by_first_reaches_second() {
    let (mut sink, state) = buffer::<i64>(16).unwrap();
    let (first, second, mut shared) = make_sequence(state);
    assert!(matches!(sink.poll_grant(shared.get_ref(), 4), Poll::Ready(Ok(()))));
    for i in 0..4 {
        sink.set(shared.get_mut(), i, i as i64 + 1);
    }
    sink.release(shared.get_mut(), 4);

    // nothing passed yet: the second view waits
    assert!(matches!(second.poll_available(&shared, 0, 1), Poll::Pending));
    // the first view sees everything, and releases three
    assert!(matches!(first.poll_available(&shared, 0, 4), Poll::Ready(Ok(4))));
    assert_eq!(first.view(&shared, 0, 4), &[1, 2, 3, 4]);
    first.set_head(&mut shared, 3);
    assert_eq!(shared.boundary_pos(), 3);
    // an earlier head never moves the boundary back
    first.compare_set_head(&mut shared, 1);
    assert_eq!(shared.boundary_pos(), 3);
    assert_eq!(second.readable_len(&shared, 1), 2);
    match second.poll_available(&shared, 0, 3) {
        Poll::Ready(Ok(n)) => assert_eq!(n, 3),
        _ => panic!("three elements were passed"),
    }
    assert_eq!(second.view(&shared, 0, 3), &[1, 2, 3]);
    second.set_head(&mut shared, 2);
    assert_eq!(shared.get_ref().head(), 2);
    // the second view goes away: the stream drops what it passed
    second.drop(&mut shared);
    assert_eq!(shared.get_ref().head(), 3);
}

#[test]
fn slice_split_in_sequence() {
    let data = [9u8, 8, 7];
    let (first, second, mut shared) = Slice::new(&data).sequence();
    assert!(matches!(second.poll_available(&shared, 0, 1), Poll::Pending));
    first.set_head(&mut shared, 2);
    assert_eq!(second.view(&shared, 0, 2), &[9, 8]);
    assert!(matches!(second.poll_available(&shared, 0, 3), Poll::Pending));
    first.drop(&mut shared);
    assert!(matches!(second.poll_available(&shared, 0, 3), Poll::Ready(Ok(2))));
}

fn value(k: i64) -> i64 {
    k * 7919 % 100_003 - 50_000
}

/// A writer writes `block` values `count` times; when `process` the first
/// view negates every value before passing it on and the second view reads
/// them, otherwise the second view is dropped and the first view reads them.
fn run_sequence(block: usize, count: usize, process: bool) {
    let (mut sink, state) = buffer::<i64>(4096).unwrap();
    let (first, second, mut shared) = make_sequence(state);
    let mut second = Some(second);
    if !process {
        second.take().unwrap().drop(&mut shared);
    }
    let total = (block * count) as i64;
    let (mut written, mut first_pos, mut second_pos): (i64, u64, u64) = (0, 0, 0);
    let mut step: usize = 1;
    let mut done: i64 = 0;
    while done < total {
        if written < total {
            if let Poll::Ready(Ok(())) = sink.poll_grant(shared.get_ref(), block) {
                if sink.view(shared.get_ref()).len() >= block {
                    for i in 0..block {
                        sink.set(shared.get_mut(), i, value(written));
                        written += 1;
                    }
                    sink.release(shared.get_mut(), block);
                }
            }
        }
        step = step * 13 % 2047 + 1;
        if let Poll::Ready(Ok(n)) = first.poll_available(&shared, first_pos, step) {
            let n = n.min(step);
            if process {
                for i in 0..n as u64 {
                    let v = first.view(&shared, first_pos + i, 1)[0];
                    first.set(&mut shared, first_pos + i, -v);
                }
            } else {
                for (i, v) in first.view(&shared, first_pos, n).iter().enumerate() {
                    assert_eq!(*v, value(first_pos as i64 + i as i64));
                }
                done += n as i64;
            }
            first_pos += n as u64;
            first.set_head(&mut shared, first_pos);
        }
        if let Some(second) = &second {
            if let Poll::Ready(Ok(n)) = second.poll_available(&shared, second_pos, step) {
                let n = n.min(step);
                for (i, v) in second.view(&shared, second_pos, n).iter().enumerate() {
                    assert_eq!(*v, -value(second_pos as i64 + i as i64));
                }
                second_pos += n as u64;
                done += n as i64;
                second.set_head(&mut shared, second_pos);
            }
        }
    }
    assert_eq!(written, total);
}

#[test]
fn sequence_single_reader() {
    run_sequence(500, 400, true);
}

#[test]
fn sequence_drop_second() {
    run_sequence(500, 400, false);
}
