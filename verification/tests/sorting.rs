use rust_lib_demo::sort::sort;

#[test]
fn sort_reference_buffer() {
    let mut xs = vec![2, -6, 3, -9];
    sort(&mut xs);
    assert_eq!(xs, vec![-9, -6, 2, 3]);
}

#[test]
fn sort_empty_and_single() {
    let mut xs: Vec<i32> = Vec::new();
    sort(&mut xs);
    assert!(xs.is_empty());
    let mut xs = vec![7];
    sort(&mut xs);
    assert_eq!(xs, vec![7]);
}

#[test]
fn sort_keeps_duplicates() {
    let mut xs = vec![3, 1, 3, 2, 1, i32::MAX, i32::MIN, 0];
    sort(&mut xs);
    assert_eq!(xs, vec![i32::MIN, 0, 1, 1, 2, 3, 3, i32::MAX]);
}

#[test]
fn sort_agrees_with_std() {
    let mut xs: Vec<i32> = (0..200).map(|k: i32| (k * 7919 + 13) % 101 - 50).collect();
    let mut expected = xs.clone();
    expected.sort();
    sort(&mut xs);
    assert_eq!(xs, expected);
}

#[test]
fn sort_of_sorted_and_reversed() {
    let mut xs = vec![1, 2, 3, 4, 5];
    sort(&mut xs);
    assert_eq!(xs, vec![1, 2, 3, 4, 5]);
    let mut xs = vec![5, 4, 3, 2, 1];
    sort(&mut xs);
    assert_eq!(xs, vec![1, 2, 3, 4, 5]);
}
