use rucene::utils::filter_vector;

#[test]
fn can_filter_vector() {
    let source = vec![0, 1, 2, 3, 4, 5];
    let to_filter = vec![2, 4, 5];

    let filtered = filter_vector(source, to_filter);

    assert_eq!(filtered, vec![0, 1, 3]);
}

#[test]
fn utils_can_filter_vector() {
    let source = vec![0, 1, 2, 3, 4, 5];
    let to_filter = vec![2, 4, 5];

    let filtered = filter_vector(source, to_filter);

    assert_eq!(filtered, vec![0, 1, 3]);
}

#[test]
fn filter_vector_empty_filter_keeps_all() {
    let filtered = filter_vector(vec![7, 8, 9], vec![]);
    assert_eq!(filtered, vec![7, 8, 9]);
}

#[test]
fn filter_vector_can_remove_everything() {
    let filtered = filter_vector(vec![7, 7, 8], vec![8, 7]);
    assert_eq!(filtered, Vec::<u32>::new());
}

#[test]
fn filter_vector_keeps_duplicates_of_survivors() {
    let filtered = filter_vector(vec![1, 2, 1, 3], vec![3]);
    assert_eq!(filtered, vec![1, 2, 1]);
}
