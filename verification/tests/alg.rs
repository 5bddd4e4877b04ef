use toolbox::alg::quick_sort;
use toolbox::alg::lcs::create_and_fill_matrix;
use toolbox::alg::search::{binary, max, min};
use toolbox::alg::sort::{quick, selection};

#[test]
fn quick_sort_test() {
    let mut m = vec![1, 12, 5, 0, 4, -6, 12, 8, 9, 10];
    quick_sort(&mut m);
    println!("m = {:?}", m);
    assert_eq!(m, [-6, 0, 1, 4, 5, 8, 9, 10, 12, 12]);
}

#[test]
fn create_and_fill_matrix_ok() {
    let m = create_and_fill_matrix("XXXaXXXbXXXcXX".as_ref(), "YYaYYYYbYcYYYYY".as_ref());
    println!("{:?}", m);
}

#[test]
fn max_ok() {
    let list = [10, 12, 45, 23, 29, 100, 1000, 0, 12];
    assert_eq!(max(&list).unwrap(), 6);

    let list: &[i32] = &[];
    assert_eq!(max(list), None);
}

#[test]
fn min_ok() {
    let list = [10, 12, 45, 23, 29, 100, 1000, 0, 12];
    assert_eq!(min(&list).unwrap(), 7);

    let list: &[i32] = &[];
    assert_eq!(min(list), None);
}

#[test]
fn binary_integer_ok() {
    let list = [1, 2, 3, 4, 5, 6, 7, 8, 9, 10];
    assert_eq!(binary(&list, 7).unwrap(), 6);

    let list = [5];
    assert_eq!(binary(&list, 5).unwrap(), 0);

    let list = [5, 5, 5];
    assert_eq!(binary(&list, 5).unwrap(), 1);

    let list = [];
    assert_eq!(binary(&list, 0), None);
}

#[test]
fn binary_float_ok() {
    let list = [1.0, 2.0, 3.0, 4.0, 5.0, 6.0, 7.0, 8.0, 9.0, 10.0];
    assert_eq!(binary(&list, 7.0).unwrap(), 6);

    let list = [1.000, 1.0005, 1.001, 1.0015, 1.0016, 2.0];
    assert_eq!(binary(&list, 1.0015).unwrap(), 3);
}

#[test]
fn binary_str_ok() {
    let list = ["a", "a", "b", "e", "f"];
    assert_eq!(binary(&list, "e").unwrap(), 3);

    let list = ["aaa", "aab", "abb", "abc", "bcd"];
    assert_eq!(binary(&list, "aab").unwrap(), 1);
}

#[test]
fn binary_string_ok() {
    let list = ["a".to_string(), "a".to_string(), "b".to_string(), "e".to_string(), "f".to_string()];
    assert_eq!(binary(&list, "e".to_string()).unwrap(), 3);

    let list = [
        "aaa".to_string(),
        "aab".to_string(),
        "abb".to_string(),
        "abc".to_string(),
        "bcd".to_string(),
    ];
    assert_eq!(binary(&list, "aab".to_string()).unwrap(), 1);
}

#[test]
fn selection_ok() {
    let mut list = vec![1, 2, 12, 5, 43, 21, 0, 2, 34, 100, 3];

    selection(&mut list, true);
    assert_ascending(&list);

    selection(&mut list, false);
    assert_descending(&list);
}

#[test]
fn quick_ok() {
    let mut list = vec![1, 2, 12, 5, 43, 21, 0, 2, 34, 100, 3];
    quick(&mut list, true);
    assert_ascending(&list);

    let mut list = vec![1, 2, 12, 5, 43, 21, 0, 2, 34, 100, 3];
    quick(&mut list, false);
    assert_descending(&list);

    let mut list = vec![1, 2, 3, 4, 5, 6, 7];
    quick(&mut list, true);
    assert_ascending(&list);

    let mut list = vec![7, 6, 5, 4, 3, 2, 1];
    quick(&mut list, true);
    assert_ascending(&list);

    let mut list = vec![1, 1, 1, 4, 2, 2, 2];
    quick(&mut list, true);
    assert_ascending(&list);

    let mut list = vec![5, 5, 5, 1, 5, 5, 5];
    quick(&mut list, true);
    assert_ascending(&list);

    let mut list = vec![7];
    quick(&mut list, true);
    assert_ascending(&list);

    let mut list: Vec<i32> = vec![];
    quick(&mut list, true);
}

fn assert_ascending<T: PartialOrd>(list: &[T]) {
    for i in 0..list.len() - 1 {
        assert!(list[i] <= list[i + 1]);
    }
}

fn assert_descending<T: PartialOrd>(list: &[T]) {
    for i in 0..list.len() - 1 {
        assert!(list[i] >= list[i + 1]);
    }
}
