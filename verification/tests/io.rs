use rivulet::io::{AsyncReader, AsyncWriter, Reader, Writer};
use rivulet::slice::{Slice, SliceMut};
use rivulet::splittable::View;
use rivulet::view::Poll;

#[test]
fn reader_reads_what_fits() {
    let storage: Vec<u8> = (10..20).collect();
    let mut reader = Reader::new(View::new(Slice::new(&storage)));
    let mut buf = [0u8; 4];
    assert!(matches!(reader.read(&mut buf), Poll::Ready(Ok(4))));
    assert_eq!(buf, [10, 11, 12, 13]);
    let mut big = [0u8; 8];
    assert!(matches!(reader.read(&mut big), Poll::Ready(Ok(6))));
    assert_eq!(big, [14, 15, 16, 17, 18, 19, 0, 0]);
    assert!(matches!(reader.read(&mut buf), Poll::Ready(Ok(0))));
    let view = reader.into_inner();
    assert!(view.view().is_empty());
}

#[test]
fn reader_fill_buf_and_consume() {
    let storage: Vec<u8> = vec![1, 2, 3];
    let mut reader = Reader::new(View::new(Slice::new(&storage)));
    match reader.fill_buf() {
        Poll::Ready(Ok(bytes)) => assert_eq!(bytes, &[1, 2, 3]),
        _ => panic!("a slice is always ready"),
    }
    reader.consume(2);
    match reader.fill_buf() {
        Poll::Ready(Ok(bytes)) => assert_eq!(bytes, &[3]),
        _ => panic!("a slice is always ready"),
    }
}

#[test]
fn writer_writes_what_fits() {
    let mut storage: Vec<u8> = vec![0; 5];
    {
        let mut writer = Writer::new(View::new(SliceMut::new(&mut storage)));
        assert!(matches!(writer.write(&[1, 2, 3]), Poll::Ready(Ok(3))));
        assert!(matches!(writer.write(&[4, 5, 6, 7]), Poll::Ready(Ok(2))));
        assert!(matches!(writer.write(&[8]), Poll::Ready(Ok(0))));
        assert!(writer.flush().is_ok());
    }
    assert_eq!(storage, vec![1, 2, 3, 4, 5]);
}

#[test]
fn async_reader_and_writer_move_bytes() {
    let input: Vec<u8> = (0..7).collect();
    let mut output: Vec<u8> = vec![0; 7];
    {
        let mut reader = AsyncReader::new(View::new(Slice::new(&input)));
        let mut writer = AsyncWriter::new(View::new(SliceMut::new(&mut output)));
        let mut buf = [0u8; 3];
        loop {
            let n = match reader.poll_read(&mut buf) {
                Poll::Ready(Ok(n)) => n,
                _ => panic!("a slice is always ready"),
            };
            if n == 0 {
                break;
            }
            assert!(matches!(writer.poll_write(&buf[..n]), Poll::Ready(Ok(m)) if m == n));
        }
        assert!(matches!(writer.poll_flush(), Poll::Ready(Ok(()))));
        assert!(matches!(writer.poll_close(), Poll::Ready(Ok(()))));
        let _ = writer.into_inner();
        let _ = reader.into_inner();
    }
    assert_eq!(output, input);
}
