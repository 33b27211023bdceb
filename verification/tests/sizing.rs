use rivulet::circular_buffer::State as CircularState;
use rivulet::unsafe_circular_buffer::{buffer_len, UnsafeCircularBuffer};

#[test]
fn buffer_len_rounds_up_to_whole_allocation_units() {
    // 8-byte items in 4096-byte units: counts come in multiples of 512
    assert_eq!(buffer_len(4097, 4096, 8), Some(4608));
    assert_eq!(buffer_len(512, 4096, 8), Some(512));
    assert_eq!(buffer_len(1, 4096, 8), Some(512));
    // 24-byte items: 4096 and 24 meet at 12288 bytes, 512 items
    assert_eq!(buffer_len(513, 4096, 24), Some(1024));
    assert_eq!(buffer_len(0, 4096, 8), Some(0));
}

#[test]
fn buffer_len_refuses_what_does_not_fit() {
    assert_eq!(buffer_len(10, 0, 8), None);
    assert_eq!(buffer_len(usize::MAX, 4096, 8), None);
    assert_eq!(buffer_len(usize::MAX / 8, 4096 * 3, 8), None);
}

#[test]
fn storage_holds_at_least_the_minimum() {
    let storage = UnsafeCircularBuffer::<u32>::new(1000).unwrap();
    assert!(storage.len() >= 1000);
    assert_eq!(storage.range(0, 3), &[0, 0, 0]);
}

#[test]
fn storage_windows_wrap_contiguously() {
    let mut storage = UnsafeCircularBuffer::<u32>::filled(4, 0);
    for i in 0..4u64 {
        storage.write(i + 2, i as u32 + 1);
    }
    // slots 2, 3, 0, 1 hold 1, 2, 3, 4
    assert_eq!(storage.range(2, 4), &[1, 2, 3, 4]);
    assert_eq!(storage.range(5, 3), &[4, 1, 2]);
    assert_eq!(storage.len(), 4);
}

#[test]
fn storage_for_a_given_allocation_unit() {
    let b = UnsafeCircularBuffer::<u64>::with_allocation_size(100, 4096).unwrap();
    assert_eq!(b.len(), 512);
    let b = UnsafeCircularBuffer::<u64>::with_allocation_size(513, 4096).unwrap();
    assert_eq!(b.len(), 1024);
    let b = UnsafeCircularBuffer::<[u8; 3]>::with_allocation_size(1, 4).unwrap();
    assert_eq!(b.len(), 4);
    // a minimum of nothing gives empty storage
    assert_eq!(UnsafeCircularBuffer::<u64>::with_allocation_size(0, 4096).unwrap().len(), 0);
    assert!(UnsafeCircularBuffer::<u64>::with_allocation_size(100, 0).is_none());
}

#[test]
fn buffer_state_for_a_given_allocation_unit() {
    // one slot more than asked for, rounded up to whole 4096-byte units
    let state = CircularState::<u64>::with_allocation_size(10, 4096).unwrap();
    assert_eq!(state.capacity_len(), 512);
    let state = CircularState::<u64>::with_allocation_size(512, 4096).unwrap();
    assert_eq!(state.capacity_len(), 1024);
    assert!(CircularState::<u64>::with_allocation_size(10, 0).is_none());
    assert!(rivulet::buffer::State::<u64>::with_allocation_size(10, 0).is_none());
    assert!(rivulet::buffer::State::<u64>::with_allocation_size(10, 4096).is_some());
}
