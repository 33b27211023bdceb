use rivulet::buffer::{
    circular_add, circular_sub, load_head, spmc, spsc, SinkImpl, State,
};
use rivulet::stream::Error;
use rivulet::view::Poll;

static BUFFER_SIZE: usize = 4096;

fn reserve(sink: &mut SinkImpl, state: &State<i64>, count: usize) -> bool {
    match sink.poll_reserve_impl(state, count) {
        Poll::Ready(Ok(())) => true,
        Poll::Ready(Err(e)) => panic!("unexpected error {:?}", e),
        Poll::Pending => false,
    }
}

/// One writer writes `block` values `count` times; each reader reads them in
/// reads of varying sizes, interleaved, checking every value.
fn integrity(readers: usize, block: usize, count: usize) {
    let (mut sink, source, mut state) = spmc::buffer::<i64>(BUFFER_SIZE).unwrap();
    let mut sources = vec![source];
    for _ in 1..readers {
        let clone = sources[0].clone(&mut state);
        sources.push(clone);
    }
    let total = (block * count) as i64;
    let mut next_write: i64 = 0;
    let mut next_read = vec![0i64; readers];
    let mut step: usize = 1;
    while next_read.iter().any(|r| *r < total) {
        if next_write < total && reserve(&mut sink, &state, block) {
            for i in 0..block {
                sink.set(&mut state, i, next_write * 5 - 2);
                next_write += 1;
            }
            assert!(matches!(sink.poll_commit_impl(&mut state, block), Poll::Ready(Ok(()))));
        }
        for (k, source) in sources.iter_mut().enumerate() {
            step = step * 11 % (BUFFER_SIZE - 1) + 1;
            match source.poll_request_impl(&state, step) {
                Poll::Ready(Ok(())) | Poll::Pending => {}
                Poll::Ready(Err(e)) => panic!("unexpected error {:?}", e),
            }
            let view = source.source_impl(&state);
            for value in view {
                assert_eq!(*value, next_read[k] * 5 - 2);
                next_read[k] += 1;
            }
            let consumed = view.len();
            assert!(matches!(source.poll_consume_impl(&mut state, consumed), Poll::Ready(Ok(()))));
        }
    }
}

#[test]
fn spsc_buffer_spsc_buffer_integrity() {
    integrity(1, 500, 400);
}

#[test]
fn buffer_spmc_buffer_integrity() {
    integrity(10, 500, 400);
}

#[test]
fn circular_arithmetic() {
    assert_eq!(circular_add(5, 4, 8), 1);
    assert_eq!(circular_add(3, 4, 8), 7);
    assert_eq!(circular_sub(1, 5, 8), 4);
    assert_eq!(circular_sub(5, 1, 8), 4);
    assert_eq!(circular_sub(3, 3, 8), 0);
    // the distance undoes the advance
    assert_eq!(circular_sub(circular_add(6, 5, 8), 6, 8), 5);
}

#[test]
fn earliest_head_is_farthest_behind_the_tail() {
    // tail at 2 of 8 slots: head 3 is 7 behind, head 0 is 2 behind
    let heads = vec![Some(0), None, Some(3), Some(1)];
    assert_eq!(load_head(&heads, 2, 8), 3);
    let heads = vec![None, Some(2)];
    assert_eq!(load_head(&heads, 2, 8), 2);
}

#[test]
fn overflow_and_closed_errors() {
    let (mut sink, mut source, mut state) = spsc::buffer::<i64>(10).unwrap();
    // a commit beyond the reservation overflows
    assert!(matches!(sink.poll_commit_impl(&mut state, 1), Poll::Ready(Err(Error::Overflow))));
    assert!(reserve(&mut sink, &state, 3));
    sink.set(&mut state, 0, 7);
    sink.set(&mut state, 1, 8);
    assert!(matches!(sink.poll_commit_impl(&mut state, 2), Poll::Ready(Ok(()))));
    // a reader asking for more than was written waits, then finds the
    // stream closed once the writer is gone
    assert!(matches!(source.poll_request_impl(&state, 3), Poll::Pending));
    sink.drop(&mut state);
    assert!(matches!(source.poll_request_impl(&state, 3), Poll::Ready(Err(Error::Closed))));
    assert_eq!(source.source_impl(&state), &[7, 8]);
    // consuming beyond the view overflows
    assert!(matches!(source.poll_consume_impl(&mut state, 3), Poll::Ready(Err(Error::Overflow))));
    assert!(matches!(source.poll_consume_impl(&mut state, 2), Poll::Ready(Ok(()))));
}

#[test]
fn sole_reader_may_change_what_it_views() {
    let (mut sink, mut source, mut state) = spsc::buffer::<i64>(10).unwrap();
    assert!(reserve(&mut sink, &state, 2));
    sink.set(&mut state, 0, 1);
    sink.set(&mut state, 1, 2);
    assert!(matches!(sink.poll_commit_impl(&mut state, 2), Poll::Ready(Ok(()))));
    assert!(matches!(source.poll_request_impl(&state, 2), Poll::Ready(Ok(()))));
    source.set(&mut state, 1, -2);
    assert_eq!(source.source_impl(&state), &[1, -2]);
}

#[test]
fn last_reader_leaving_closes_the_stream() {
    let (mut sink, source, mut state) = spmc::buffer::<i64>(10).unwrap();
    let other = source.clone(&mut state);
    source.drop(&mut state);
    assert!(reserve(&mut sink, &state, 1));
    sink.set(&mut state, 0, 7);
    assert!(matches!(sink.poll_commit_impl(&mut state, 1), Poll::Ready(Ok(()))));
    assert!(!state.is_closed());
    other.drop(&mut state);
    // no reader remains: the stream is closed
    assert!(state.is_closed());
    assert!(matches!(sink.poll_commit_impl(&mut state, 0), Poll::Ready(Ok(()))));
    // the writer still answers: what the last reader left is free, and a
    // request beyond that is refused as closed
    assert!(reserve(&mut sink, &state, 1));
    let free = sink.sink_impl(&state).len();
    assert!(matches!(sink.poll_reserve_impl(&state, free + 1), Poll::Ready(Err(Error::Closed))));
}

#[test]
fn reserve_beyond_the_buffer_overflows() {
    let (mut sink, _source, state) = spsc::buffer::<i64>(10).unwrap();
    assert!(matches!(sink.poll_reserve_impl(&state, usize::MAX), Poll::Ready(Err(Error::Overflow))));
}
