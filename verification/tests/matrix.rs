use std::fmt::Debug;
use toolbox::ds::matrix::Matrix;

#[test]
fn matrix_new_ok() {
    let m = Matrix::<i32>::new(100, 100);
    assert_eq_all::<i32>(&m, 0);
}

#[test]
fn fill_ok() {
    let mut m = Matrix::<i32>::new(100, 100);
    m.fill(1);
    assert_eq_all::<i32>(&m, 1);
}

#[test]
fn clear_ok() {
    let mut m = Matrix::<i32>::new(100, 100);
    m.fill(1);
    assert_eq_all::<i32>(&m, 1);
    m.clear();
    assert_eq_all::<i32>(&m, 0);
}

#[test]
fn get_set_ok() {
    let mut m = Matrix::<i32>::new(2, 3);
    m.set(1, 1, 777);
    assert_eq!(m.get(1, 1), &777);
}

#[test]
fn clone_ok() {
    // numbers
    let mut a = Matrix::<i32>::new(2, 3);
    a.fill(100);
    let b = a.clone();
    a.fill(200);
    assert_eq_all(&b, 100);
    assert_eq_all(&a, 200);

    // Strings
    let mut s1 = Matrix::<String>::new(2, 3);
    s1.fill(String::from("first"));
    let s2 = s1.clone();
    s1.fill(String::from("second"));
    assert_eq_all(&s2, String::from("first"));
    assert_eq_all(&s1, String::from("second"));
}

#[test]
fn debug_ok() {
    let mut a = Matrix::<i32>::new(3, 3);
    a.fill(2);
    println!("{:?}", a);
}

#[test]
fn iter_ok() {
    let mut m = Matrix::<i32>::new(2, 3);
    m.fill(7);
    let mut count: usize = 0;
    for e in m.iter() {
        assert_eq!(e, &7);
        count += 1;
    }
    assert_eq!(count, m.elements_number());
}

#[test]
fn matrix_integration_test() {
    let mut m = Matrix::<i32>::new(3, 5);
    m.fill(5);
    print_matrix::<i32>(&m);

    let x = m.clone();
    m.fill(3);
    print_matrix(&x);
    print_matrix(&m);

    assert_eq_all(&m, 3);
    assert_eq_all(&x, 5);
}

fn print_matrix<T: Default + Clone + Debug>(m: &Matrix<T>) {
    for i in 0..m.rows() {
        for j in 0..m.cols() {
            println!("{:?} ", m.get(i, j));
        }
        println!();
    }
    println!();
}

fn assert_eq_all<T: Default + Clone + PartialEq + Debug>(m: &Matrix<T>, value: T) {
    for i in 0..m.rows() {
        for j in 0..m.cols() {
            assert_eq!(m.get(i, j), &value);
        }
    }
}
