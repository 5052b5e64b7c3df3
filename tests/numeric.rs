use native_bridge::numeric::{add, add_count, modify_arr, sync_fn, TestClass};

#[test]
fn add_sums_or_reports_overflow() {
    assert_eq!(add(2, 3), Some(5));
    assert_eq!(add(u32::MAX, 0), Some(u32::MAX));
    assert_eq!(add(u32::MAX, 1), None);
}

#[test]
fn sync_fn_adds_offset() {
    assert_eq!(sync_fn(1), Some(101));
    assert_eq!(sync_fn(u32::MAX - 100), Some(u32::MAX));
    assert_eq!(sync_fn(u32::MAX - 99), None);
}

#[test]
fn modify_arr_offsets_each_element() {
    assert_eq!(modify_arr(&vec![1, 2, 3]), Some(vec![101, 102, 103]));
    assert_eq!(modify_arr(&vec![]), Some(vec![]));
    assert_eq!(modify_arr(&vec![(i32::MAX as u32) - 100]), Some(vec![i32::MAX]));
    assert_eq!(modify_arr(&vec![0, (i32::MAX as u32) - 99]), None);
}

#[test]
fn class_counters() {
    let mut c = TestClass::new(5).unwrap();
    assert_eq!(c.value, 105);
    assert_eq!(c.add_native_count(10), Some(115));
    assert_eq!(c.value, 115);
    assert_eq!(c.add_native_count(i32::MAX), None);
    assert_eq!(c.value, 115);
    assert_eq!(TestClass::new(i32::MAX - 99), None);
    assert_eq!(add_count(5, 3), Some(8));
    assert_eq!(add_count(i32::MIN, -1), None);
}
