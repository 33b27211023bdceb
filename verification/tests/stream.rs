use rivulet::buffer::{spmc, spsc};
use rivulet::stream::{Error, Sink, SinkExt, Source, SourceExt, SourceMut};
use rivulet::view::Poll;

#[test]
fn bound_ends_reserve_commit_request_consume() {
    let (sink, source, state) = spsc::buffer::<i64>(16).unwrap();
    let mut writer = spsc::BoundSink::new(sink, state);
    assert!(matches!(writer.reserve(4).poll(), Poll::Ready(Ok(()))));
    assert!(writer.sink().len() >= 4);
    for i in 0..4 {
        writer.set(i, i as i64 * 10);
    }
    assert!(matches!(writer.commit(4).poll(), Poll::Ready(Ok(()))));
    let before = writer.sink().len();
    assert!(matches!(writer.commit(before + 1).poll(), Poll::Ready(Err(Error::Overflow))));
    assert_eq!(writer.sink().len(), before);
    let (_sink, state) = writer.into_parts();

    let mut reader = spsc::BoundSource::new(source, state);
    assert!(matches!(reader.request(2).poll(), Poll::Ready(Ok(()))));
    assert_eq!(reader.source(), &[0, 10, 20, 30]);
    reader.set(0, 5);
    assert_eq!(reader.source(), &[5, 10, 20, 30]);
    assert!(matches!(reader.consume(1).poll(), Poll::Ready(Ok(()))));
    assert_eq!(reader.source(), &[10, 20, 30]);
    assert!(matches!(reader.consume(4).poll(), Poll::Ready(Err(Error::Overflow))));
    assert!(matches!(reader.poll_request(5), Poll::Pending));
    assert!(matches!(reader.poll_request(1usize << 40), Poll::Ready(Err(Error::Overflow))));
}

#[test]
fn bound_reader_of_many_sees_commits() {
    let (sink, source, mut state) = spmc::buffer::<u8>(8).unwrap();
    let second = source.clone(&mut state);
    let mut writer = spmc::BoundSink::new(sink, state);
    assert!(matches!(writer.poll_reserve(3), Poll::Ready(Ok(()))));
    writer.set(0, 1);
    writer.set(1, 2);
    writer.set(2, 3);
    assert!(matches!(writer.poll_commit(2), Poll::Ready(Ok(()))));
    let (_sink, state) = writer.into_parts();
    let mut reader = spmc::BoundSource::new(second, state);
    assert!(matches!(reader.poll_request(2), Poll::Ready(Ok(()))));
    assert_eq!(reader.source(), &[1, 2]);
    assert!(matches!(reader.poll_consume(2), Poll::Ready(Ok(()))));
    assert!(reader.source().is_empty());
}
