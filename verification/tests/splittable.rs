use rivulet::circular_buffer::buffer;
use rivulet::slice::Slice;
use rivulet::splittable::cloneable::Cloneable;
use rivulet::splittable::{SplittableView, SplittableViewImpl};
use rivulet::view::{grant, map_error, Poll, View as _};

#[test]
fn into_view_starts_at_the_beginning() {
    let storage: Vec<u8> = vec![3, 4];
    let mut view = Slice::new(&storage).into_view();
    assert!(view.view().is_empty());
    assert!(matches!(view.poll_grant(1), Poll::Ready(Ok(()))));
    assert_eq!(view.view(), &[3, 4]);
}

#[test]
fn cloneable_readers_keep_what_the_slowest_needs() {
    let (mut sink, mut state) = buffer::<i64>(16).unwrap();
    assert!(matches!(sink.poll_grant(&state, 5), Poll::Ready(Ok(()))));
    for i in 0..5 {
        sink.set(&mut state, i, 10 * i as i64);
    }
    sink.release(&mut state, 5);

    let (mut fast, mut readers) = Cloneable::new();
    assert!(matches!(fast.poll_grant(&state, &readers, 2), Poll::Ready(Ok(()))));
    let mut slow = fast.clone(&state, &mut readers);
    assert_eq!(fast.view(&state, &readers), &[0, 10, 20, 30, 40]);
    assert_eq!(slow.view(&state, &readers), &[0, 10, 20, 30, 40]);
    // the slow reader still needs everything: nothing is released
    fast.release(&mut state, &mut readers, 4);
    assert_eq!(state.head(), 0);
    assert_eq!(fast.view(&state, &readers), &[40]);
    assert_eq!(slow.view(&state, &readers), &[0, 10, 20, 30, 40]);
    // the stream now keeps from the slow reader's head on
    slow.release(&mut state, &mut readers, 1);
    assert_eq!(state.head(), 1);
    assert_eq!(slow.head(), 1);
    assert_eq!(slow.len(), 4);
    // once the slow reader leaves, the next release keeps only the fast
    // one's data
    slow.drop(&state, &mut readers);
    assert_eq!(state.head(), 1);
    fast.release(&mut state, &mut readers, 0);
    assert_eq!(state.head(), 4);
    assert_eq!(fast.view(&state, &readers), &[40]);
}

#[test]
fn compare_set_head_keeps_the_later_head() {
    let (mut sink, mut state) = buffer::<i64>(16).unwrap();
    assert!(matches!(sink.poll_grant(&state, 5), Poll::Ready(Ok(()))));
    sink.release(&mut state, 5);
    state.compare_set_head(3);
    assert_eq!(state.head(), 3);
    state.compare_set_head(2);
    assert_eq!(state.head(), 3);
    state.set_head(4);
    assert_eq!(state.head(), 4);
}

#[test]
fn grant_request_polls_the_view() {
    let storage: Vec<u8> = vec![1, 2, 3];
    let mut view = Slice::new(&storage).into_view();
    let mut request = grant(&mut view, 2);
    assert!(matches!(request.poll(), Poll::Ready(Ok(()))));
    assert_eq!(view.view(), &[1, 2, 3]);
}

#[test]
fn map_error_maps_grant_errors() {
    let (_sink, state) = buffer::<i64>(16).unwrap();
    let capacity = state.capacity_len();
    let view = state.into_view();
    let mut mapped = map_error(view, |e: rivulet::error::GrantOverflow| e.0 + 1);
    match mapped.poll_grant(capacity + 1) {
        Poll::Ready(Err(n)) => assert_eq!(n, capacity + 1),
        _ => panic!("expected a mapped overflow"),
    }
    assert!(mapped.into_inner().view().is_empty());
}

#[test]
fn cloneable_readers_each_read_every_value() {
    let (mut sink, mut state) = buffer::<i64>(4096).unwrap();
    let (first, mut readers) = Cloneable::new();
    let mut clones = vec![first];
    for _ in 1..4 {
        let clone = clones[0].clone(&state, &mut readers);
        clones.push(clone);
    }
    let total: i64 = 500 * 40;
    let mut written: i64 = 0;
    let mut read = vec![0i64; clones.len()];
    let mut step: usize = 1;
    while read.iter().any(|r| *r < total) {
        if written < total {
            if let Poll::Ready(Ok(())) = sink.poll_grant(&state, 500) {
                if sink.view(&state).len() >= 500 {
                    for i in 0..500 {
                        sink.set(&mut state, i, written * 3 + 1);
                        written += 1;
                    }
                    sink.release(&mut state, 500);
                }
            }
        }
        for (k, clone) in clones.iter_mut().enumerate() {
            step = step * 7 % 1999 + 1;
            if let Poll::Ready(Ok(())) = clone.poll_grant(&state, &readers, 1) {
                let n = clone.len().min(step * (k + 1));
                for v in &clone.view(&state, &readers)[..n] {
                    assert_eq!(*v, read[k] * 3 + 1);
                    read[k] += 1;
                }
                clone.release(&mut state, &mut readers, n);
            }
        }
    }
}
