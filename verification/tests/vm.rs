use rivulet::vm::{
    allocation_size, map_step, mirrored_layout, page_size, shm_name, shm_open_step, MapStep,
    MirroredLayout, OpenOutcome, OpenStep,
};

#[test]
fn zero_size() {
    let layout = mirrored_layout(0, allocation_size().unwrap());
    assert!(layout == MirroredLayout::Empty);
}

#[test]
fn assorted_sizes() {
    fn test_impl(size: usize) {
        let layout = mirrored_layout(size, allocation_size().unwrap());
        assert!(layout != MirroredLayout::Empty);
    }

    test_impl(allocation_size().unwrap());
    test_impl(2 * allocation_size().unwrap());
    test_impl(100 * allocation_size().unwrap());
}

#[test]
fn mirrored_layout_doubles_the_size() {
    assert_eq!(
        mirrored_layout(8192, 4096),
        MirroredLayout::Mirrored { size: 8192, double_size: 16384 }
    );
}

#[test]
fn allocation_size_is_the_page_size() {
    assert_eq!(allocation_size(), page_size());
    assert!(page_size().unwrap() > 0);
}

#[test]
fn a_taken_name_is_retried_until_the_attempts_run_out() {
    assert_eq!(shm_open_step(0, OpenOutcome::Opened), OpenStep::Done);
    assert_eq!(shm_open_step(0, OpenOutcome::AlreadyExists), OpenStep::Retry);
    assert_eq!(shm_open_step(2, OpenOutcome::AlreadyExists), OpenStep::Retry);
    assert_eq!(shm_open_step(3, OpenOutcome::AlreadyExists), OpenStep::FailExists);
    assert_eq!(shm_open_step(1, OpenOutcome::Failed(13)), OpenStep::Fail(13));
}

#[test]
fn shared_memory_names_end_in_four_columns_of_the_clock() {
    assert_eq!(shm_name(123_456_789), b"/shm-vrb-6789".to_vec());
    assert_eq!(shm_name(42), b"/shm-vrb-  42".to_vec());
    assert_eq!(shm_name(10_007), b"/shm-vrb-   7".to_vec());
}

#[test]
fn a_failed_mapping_is_retried_five_times_in_all() {
    assert_eq!(map_step(0, true), MapStep::Done);
    assert_eq!(map_step(0, false), MapStep::Retry);
    assert_eq!(map_step(3, false), MapStep::Retry);
    assert_eq!(map_step(4, false), MapStep::Fail);
}
