use kernel_bench::{KernelObject, DATA_LEN, MASK};

#[test]
fn new_object_is_zeroed() {
    let obj = KernelObject::new(42);
    assert_eq!(obj.id, 42);
    assert_eq!(obj.data.len(), DATA_LEN);
    assert!(obj.data.iter().all(|&v| v == 0));
}

#[test]
fn perform_work_sets_id_plus_index() {
    let mut obj = KernelObject::new(5);
    obj.perform_work();
    assert_eq!(obj.id, 5);
    for i in 0..DATA_LEN {
        assert_eq!(obj.get_data(i), 5 + i as i64);
    }
}

#[test]
fn perform_work_ignores_prior_data() {
    let mut a = KernelObject::new(17);
    a.data = [-3; 64];
    a.perform_work();
    let mut b = KernelObject::new(17);
    b.perform_work();
    b.perform_work();
    assert_eq!(a.data, b.data);
}

#[test]
fn perform_work_wraps_then_masks() {
    let mut obj = KernelObject::new(i64::MAX);
    obj.perform_work();
    assert_eq!(obj.get_data(0), i64::MAX);
    assert_eq!(obj.get_data(1), 0);
    assert_eq!(obj.get_data(2), 1);
    assert_eq!(obj.get_data(63), 62);
}

#[test]
fn perform_work_masks_negative_ids() {
    let mut obj = KernelObject::new(-10);
    obj.perform_work();
    assert_eq!(obj.get_data(0), MASK - 9);
    assert_eq!(obj.get_data(9), MASK);
    assert_eq!(obj.get_data(10), 0);
    assert!(obj.data.iter().all(|&v| v >= 0));
}

#[test]
fn get_data_reads_last_index() {
    let mut obj = KernelObject::new(1000);
    obj.perform_work();
    assert_eq!(obj.get_data(DATA_LEN - 1), 1063);
}
