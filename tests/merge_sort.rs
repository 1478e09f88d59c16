use singleton_sort::merge_sort::merge_sort;

#[test]
fn merge_sort_test_basic_sort() {
    let mut arr = [64, 34, 25, 12, 22, 11, 90];
    let len = arr.len();
    merge_sort(&mut arr, 0, len - 1);
    assert_eq!(arr, [11, 12, 22, 25, 34, 64, 90]);
}

#[test]
fn merge_sort_test_single_element() {
    let mut arr = [42];
    let len = arr.len();
    merge_sort(&mut arr, 0, len - 1);
    assert_eq!(arr, [42]);
}

#[test]
fn merge_sort_test_two_elements() {
    let mut arr = [2, 1];
    let len = arr.len();
    merge_sort(&mut arr, 0, len - 1);
    assert_eq!(arr, [1, 2]);
}

#[test]
fn merge_sort_test_two_elements_sorted() {
    let mut arr = [1, 2];
    let len = arr.len();
    merge_sort(&mut arr, 0, len - 1);
    assert_eq!(arr, [1, 2]);
}

#[test]
fn merge_sort_test_already_sorted() {
    let mut arr = [1, 2, 3, 4, 5];  
    let len = arr.len();
    merge_sort(&mut arr, 0, len - 1);
    assert_eq!(arr, [1, 2, 3, 4, 5]);
}

#[test]
fn merge_sort_test_reverse_sorted() {
    let mut arr = [5, 4, 3, 2, 1];
    let len = arr.len();
    merge_sort(&mut arr, 0, len - 1);
    assert_eq!(arr, [1, 2, 3, 4, 5]);
}

#[test]
fn merge_sort_test_duplicate_elements() {
    let mut arr = [3, 1, 4, 1, 5, 9, 2, 6, 5];
    let len = arr.len();
    merge_sort(&mut arr, 0, len - 1);
    assert_eq!(arr, [1, 1, 2, 3, 4, 5, 5, 6, 9]);
}

#[test]
fn merge_sort_test_all_same_elements() {
    let mut arr = [7, 7, 7, 7, 7];
    let len = arr.len();
    merge_sort(&mut arr, 0, len - 1);
    assert_eq!(arr, [7, 7, 7, 7, 7]);
}

#[test]
fn merge_sort_test_negative_numbers() {
    let mut arr = [-5, 3, -2, 0, 7, -1];
    let len = arr.len();
        merge_sort(&mut arr, 0, len - 1);
    assert_eq!(arr, [-5, -2, -1, 0, 3, 7]);
}

#[test]
fn merge_sort_test_large_array() {
    let mut arr: Vec<i32> = (0..100).rev().collect();
    let len = arr.len();
    merge_sort(&mut arr, 0, len - 1);
    let expected: Vec<i32> = (0..100).collect();
    assert_eq!(arr, expected);
}

#[test]
fn merge_sort_test_three_elements() {
    let mut arr = [3, 1, 2];
    let len = arr.len();
    merge_sort(&mut arr, 0, len - 1);
    assert_eq!(arr, [1, 2, 3]);
}

#[test]
fn merge_sort_test_four_elements() {
    let mut arr = [4, 2, 3, 1];
    let len = arr.len();
    merge_sort(&mut arr, 0, len - 1);
    assert_eq!(arr, [1, 2, 3, 4]);
}

#[test]
fn merge_sort_test_generic_float() {
    let mut arr = [3.14, 1.41, 2.71, 0.5, 4.2];
    let len = arr.len();
    merge_sort(&mut arr, 0, len - 1);
    assert_eq!(arr, [0.5, 1.41, 2.71, 3.14, 4.2]);
}

#[test]
fn merge_sort_test_generic_char() {
    let mut arr = ['d', 'a', 'c', 'b', 'e'];
    let len = arr.len();
    merge_sort(&mut arr, 0, len - 1);
    assert_eq!(arr, ['a', 'b', 'c', 'd', 'e']);
}

#[test]
fn merge_sort_test_odd_length() {
    let mut arr = [9, 3, 7, 1, 5];
    let len = arr.len();
    merge_sort(&mut arr, 0, len - 1);
    assert_eq!(arr, [1, 3, 5, 7, 9]);
}

#[test]
fn merge_sort_test_even_length() {
    let mut arr = [8, 4, 6, 2];
    let len = arr.len();
    merge_sort(&mut arr, 0, len - 1);
    assert_eq!(arr, [2, 4, 6, 8]);
}

#[test]
fn merge_sort_test_partial_sort() {
    let mut arr = [5, 2, 8, 1, 9, 3, 7];
    merge_sort(&mut arr, 1, 5);
    assert_eq!(arr, [5, 1, 2, 3, 8, 9, 7]);
}
