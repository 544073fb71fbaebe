use recurrence::iter_helpers::merge_ordered;

#[test]
fn test_interspaced() {
    let a = vec![1, 3, 5];
    let b = vec![2, 4, 6];

    let result = merge_ordered(&a, &b);

    assert_eq!(result, [1, 2, 3, 4, 5, 6]);
}

#[test]
fn test_asymmetric() {
    let a = vec![1, 3, 5, 7, 9];
    let b = vec![2, 4, 6];

    let result = merge_ordered(&a, &b);

    assert_eq!(result, [1, 2, 3, 4, 5, 6, 7, 9]);
}

#[test]
fn test_with_duplicates() {
    let a = vec![1, 3, 5, 7, 9, 9];
    let b = vec![2, 4, 5, 5, 6];

    let result = merge_ordered(&a, &b);

    assert_eq!(result, [1, 2, 3, 4, 5, 5, 5, 6, 7, 9, 9]);
}

#[test]
fn test_with_empty_a() {
    let a: Vec<i32> = vec![];
    let b = vec![2, 4, 5, 5, 6];

    let result = merge_ordered(&a, &b);

    assert_eq!(result, [2, 4, 5, 5, 6]);
}

#[test]
fn test_with_empty_b() {
    let a = vec![1, 3, 5, 7, 9, 9];
    let b: Vec<i32> = vec![];

    let result = merge_ordered(&a, &b);

    assert_eq!(result, [1, 3, 5, 7, 9, 9]);
}
