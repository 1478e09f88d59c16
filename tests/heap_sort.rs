use singleton_sort::heap_sort::heap_sort;

#[test]
fn heap_sort_test_basic_sort() {
    let mut arr = [64, 34, 25, 12, 22, 11, 90];
    heap_sort(&mut arr);
    assert_eq!(arr, [11, 12, 22, 25, 34, 64, 90]);
}

#[test]
fn heap_sort_test_empty_array() {
    let mut arr: [i32; 0] = [];
    heap_sort(&mut arr);
    assert_eq!(arr, []);
}

#[test]
fn heap_sort_test_single_element() {
    let mut arr = [42];
    heap_sort(&mut arr);
    assert_eq!(arr, [42]);
}

#[test]
fn heap_sort_test_two_elements() {
    let mut arr = [2, 1];
    heap_sort(&mut arr);
    assert_eq!(arr, [1, 2]);
}

#[test]
fn heap_sort_test_two_elements_sorted() {
    let mut arr = [1, 2];
    heap_sort(&mut arr);
    assert_eq!(arr, [1, 2]);
}

#[test]
fn heap_sort_test_already_sorted() {
    let mut arr = [1, 2, 3, 4, 5];
    heap_sort(&mut arr);
    assert_eq!(arr, [1, 2, 3, 4, 5]);
}

#[test]
fn heap_sort_test_reverse_sorted() {
    let mut arr = [5, 4, 3, 2, 1];
    heap_sort(&mut arr);
    assert_eq!(arr, [1, 2, 3, 4, 5]);
}

#[test]
fn heap_sort_test_duplicate_elements() {
    let mut arr = [3, 1, 4, 1, 5, 9, 2, 6, 5];
    heap_sort(&mut arr);
    assert_eq!(arr, [1, 1, 2, 3, 4, 5, 5, 6, 9]);
}

#[test]
fn heap_sort_test_all_same_elements() {
    let mut arr = [7, 7, 7, 7, 7];
    heap_sort(&mut arr);
    assert_eq!(arr, [7, 7, 7, 7, 7]);
}

#[test]
fn heap_sort_test_negative_numbers() {
    let mut arr = [-5, 3, -2, 0, 7, -1];
    heap_sort(&mut arr);
    assert_eq!(arr, [-5, -2, -1, 0, 3, 7]);
}

#[test]
fn heap_sort_test_large_array() {
    let mut arr: Vec<i32> = (0..100).rev().collect();
    heap_sort(&mut arr);
    let expected: Vec<i32> = (0..100).collect();
    assert_eq!(arr, expected);
}

#[test]
fn heap_sort_test_three_elements() {
    let mut arr = [3, 1, 2];
    heap_sort(&mut arr);
    assert_eq!(arr, [1, 2, 3]);
}

#[test]
fn heap_sort_test_four_elements() {
    let mut arr = [4, 2, 3, 1];
    heap_sort(&mut arr);
    assert_eq!(arr, [1, 2, 3, 4]);
}

#[test]
fn heap_sort_test_generic_char() {
    let mut arr = ['d', 'a', 'c', 'b', 'e'];
    heap_sort(&mut arr);
    assert_eq!(arr, ['a', 'b', 'c', 'd', 'e']);
}

#[test]
fn test_generic_string() {
    let mut arr = ["zebra", "apple", "banana", "cherry"];
    heap_sort(&mut arr);
    assert_eq!(arr, ["apple", "banana", "cherry", "zebra"]);
}

#[test]
fn heap_sort_test_odd_length() {
    let mut arr = [9, 3, 7, 1, 5];
    heap_sort(&mut arr);
    assert_eq!(arr, [1, 3, 5, 7, 9]);
}

#[test]
fn heap_sort_test_even_length() {
    let mut arr = [8, 4, 6, 2];
    heap_sort(&mut arr);
    assert_eq!(arr, [2, 4, 6, 8]);
}

#[test]
fn heap_sort_test_many_duplicates() {
    let mut arr = [5, 2, 5, 2, 5, 2, 5, 2];
    heap_sort(&mut arr);
    assert_eq!(arr, [2, 2, 2, 2, 5, 5, 5, 5]);
}

#[test]
fn test_mixed_values() {
    let mut arr = [100, -100, 50, -50, 0, 25, -25];
    heap_sort(&mut arr);
    assert_eq!(arr, [-100, -50, -25, 0, 25, 50, 100]);
}

#[test]
fn test_power_of_two_size() {
    let mut arr = [8, 4, 2, 7, 1, 3, 6, 5];
    heap_sort(&mut arr);
    assert_eq!(arr, [1, 2, 3, 4, 5, 6, 7, 8]);
}

#[test]
fn test_seven_elements() {
    let mut arr = [7, 3, 9, 1, 5, 2, 8];
    heap_sort(&mut arr);
    assert_eq!(arr, [1, 2, 3, 5, 7, 8, 9]);
}
