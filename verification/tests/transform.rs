use rivulet::transform::{map_chunk, next_chunk};

#[test]
fn a_read_of_items_is_mapped_and_an_end_stops() {
    assert_eq!(next_chunk::<()>(Ok(3)), Some(3));
    assert_eq!(next_chunk::<()>(Ok(0)), None);
    assert_eq!(next_chunk(Err("closed")), None);
}

#[test]
fn every_item_of_a_chunk_is_mapped_in_order() {
    let doubled = map_chunk(&[1, 2, 3], &|x: &i32| x * 2);
    assert_eq!(doubled, vec![2, 4, 6]);
    assert!(map_chunk(&[] as &[i32], &|x: &i32| *x).is_empty());
}
