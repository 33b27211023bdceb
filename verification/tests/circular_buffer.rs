use rivulet::circular_buffer::{buffer, BoundSink, Sink, State};
use rivulet::io::Writer;
use rivulet::lazy::Lazy;
use rivulet::error::GrantOverflow;
use rivulet::splittable::View;
use rivulet::view::{Poll, View as _, ViewMut as _};

static BUFFER_SIZE: usize = 4096;

fn sink_grant(sink: &mut Sink, state: &State<i64>, count: usize) -> usize {
    match sink.poll_grant(state, count) {
        Poll::Ready(Ok(())) => sink.view(state).len(),
        Poll::Ready(Err(e)) => panic!("unexpected overflow {:?}", e),
        Poll::Pending => 0,
    }
}

/// Writes `block` values `count` times and reads them back in reads of
/// varying sizes, interleaved, checking that every value read is the one
/// written at that position.
fn integrity(block: usize, count: usize) {
    let (mut sink, state) = buffer::<i64>(BUFFER_SIZE).unwrap();
    let mut reader = View::new(state);
    let total = (block * count) as i64;
    let mut next_write: i64 = 0;
    let mut next_read: i64 = 0;
    let mut step: usize = 1;
    while next_read < total {
        // write a block whenever there is room for one
        if next_write < total {
            let granted = sink_grant(&mut sink, reader.get_ref(), block);
            if granted >= block {
                for i in 0..block {
                    sink.set(reader.get_mut(), i, next_write * 3 + 1);
                    next_write += 1;
                }
                sink.release(reader.get_mut(), block);
            }
        }
        // read a varying amount
        step = step * 7 % (BUFFER_SIZE - 1) + 1;
        match reader.poll_grant(step) {
            Poll::Ready(Ok(())) | Poll::Pending => {}
            Poll::Ready(Err(e)) => panic!("unexpected overflow {:?}", e),
        }
        let view = reader.view();
        for value in view {
            assert_eq!(*value, next_read * 3 + 1);
            next_read += 1;
        }
        let released = view.len();
        reader.release(released);
    }
    assert_eq!(next_read, total);
}

#[test]
fn buffer_spsc_buffer_integrity() {
    integrity(500, 400);
}

#[test]
fn capacity_is_at_least_the_minimum() {
    let (_, state) = buffer::<i64>(BUFFER_SIZE).unwrap();
    assert!(state.capacity_len() > BUFFER_SIZE);
}

#[test]
fn grant_larger_than_the_buffer_overflows() {
    let (mut sink, state) = buffer::<i64>(10).unwrap();
    let capacity = state.capacity_len();
    match sink.poll_grant(&state, capacity + 1) {
        Poll::Ready(Err(e)) => assert_eq!(e, GrantOverflow(capacity)),
        _ => panic!("expected an overflow"),
    }
    let mut reader = View::new(state);
    match reader.poll_grant(capacity + 1) {
        Poll::Ready(Err(e)) => assert_eq!(e.max_grant(), capacity),
        _ => panic!("expected an overflow"),
    }
}

#[test]
fn full_buffer_makes_the_writer_wait() {
    let (mut sink, state) = buffer::<i64>(10).unwrap();
    let mut reader = View::new(state);
    let capacity = reader.get_ref().capacity_len();
    assert_eq!(sink_grant(&mut sink, reader.get_ref(), capacity), capacity);
    sink.release(reader.get_mut(), capacity);
    assert!(matches!(sink.poll_grant(reader.get_ref(), 1), Poll::Pending));
    // the reader frees two slots
    assert!(matches!(reader.poll_grant(2), Poll::Ready(Ok(()))));
    reader.release(2);
    assert_eq!(sink_grant(&mut sink, reader.get_ref(), 2), 2);
}

#[test]
fn empty_buffer_makes_the_reader_wait_until_closed() {
    let (mut sink, state) = buffer::<i64>(10).unwrap();
    let mut reader = View::new(state);
    assert!(matches!(reader.poll_grant(1), Poll::Pending));
    assert_eq!(sink_grant(&mut sink, reader.get_ref(), 1), reader.get_ref().capacity_len());
    sink.set(reader.get_mut(), 0, 42);
    sink.release(reader.get_mut(), 1);
    assert!(matches!(reader.poll_grant(5), Poll::Pending));
    // the writer goes away: what was written is all there is
    reader.get_mut().close();
    assert!(matches!(reader.poll_grant(5), Poll::Ready(Ok(()))));
    assert_eq!(reader.view(), &[42]);
}

#[test]
fn values_wrap_around_the_ring_contiguously() {
    let (mut sink, state) = buffer::<i64>(10).unwrap();
    let mut reader = View::new(state);
    let capacity = reader.get_ref().capacity_len();
    let mut written: i64 = 0;
    for round in 0..5 {
        let n = capacity - 3 + round % 2;
        assert!(sink_grant(&mut sink, reader.get_ref(), n) >= n);
        for i in 0..n {
            sink.set(reader.get_mut(), i, written + i as i64);
        }
        sink.release(reader.get_mut(), n);
        assert!(matches!(reader.poll_grant(n), Poll::Ready(Ok(()))));
        let view = reader.view();
        assert_eq!(view.len(), n);
        for (i, value) in view.iter().enumerate() {
            assert_eq!(*value, written + i as i64);
        }
        reader.release(n);
        written += n as i64;
    }
}

#[test]
fn bound_writer_is_a_view() {
    let (sink, state) = buffer::<u8>(64).unwrap();
    let mut lazy = Lazy::new(|| BoundSink::new(sink, state));
    assert!(matches!(lazy.poll_grant(3), Poll::Ready(Ok(()))));
    lazy.set(0, 4);
    lazy.set(1, 5);
    lazy.set(2, 6);
    lazy.release(3);
    let mut writer = Writer::new(lazy.into_inner().unwrap());
    assert!(matches!(writer.write(&[7, 8]), Poll::Ready(Ok(2))));
    let (_sink, state) = writer.into_inner().into_parts();
    let mut reader = View::new(state);
    assert!(matches!(reader.poll_grant(5), Poll::Ready(Ok(()))));
    assert_eq!(reader.view(), &[4, 5, 6, 7, 8]);
}
