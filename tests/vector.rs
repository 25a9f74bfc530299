use matrixlib::error::MatError;
use matrixlib::vector_data::Vector;

#[test]
fn new_and_accessors() {
    let mut v = Vector::new(vec![1i64, 2, 3]);
    assert_eq!(v.get_size(), 3);
    assert!(!v.is_empty());
    assert_eq!(v.get_data(), &vec![1, 2, 3]);
    assert_eq!(*v.uget(1), 2);
    *v.uget_mut(1) = 20;
    v.get_mut_data()[0] = 10;
    v.as_mut_slice()[2] = 30;
    assert_eq!(v.as_slice(), &[10, 20, 30]);
    assert_eq!(v.into_vec(), vec![10, 20, 30]);
    assert_eq!(v.into_iter(), vec![10, 20, 30]);
    assert!(Vector::<i64>::new(Vec::new()).is_empty());
}

#[test]
fn from_fn_indexes() {
    let v: Vector<i64> = Vector::from_fn(|i| (i * i) as i64, 5);
    assert_eq!(v.get_data(), &vec![0, 1, 4, 9, 16]);
}

#[test]
fn apply_maps_each_element() {
    let v = Vector::new(vec![1i64, -2, 3]);
    let w = v.apply(&|x: i64| x * 10);
    assert_eq!(w.get_data(), &vec![10, -20, 30]);
}

#[test]
fn apply_twice_composes() {
    let f = |x: i64| x + 3;
    let g = |x: i64| x * 2;
    let v = Vector::new(vec![1i64, 2, 3, -4]);
    let two_steps = Vector::new(v.into_vec()).apply(&f).apply(&g);
    let one_step = v.apply(&|x: i64| g(f(x)));
    assert_eq!(two_steps.get_data(), one_step.get_data());
    assert_eq!(one_step.get_data(), &vec![8, 10, 12, -2]);
}

#[test]
fn argmax_position() {
    let v = Vector::new(vec![3i64, 1, 4, 1, 5, 9, 2, 6]);
    assert_eq!(v.argsort(), Ok(5));
    let e = Vector::<i64>::new(Vec::new());
    assert_eq!(e.argsort(), Err(MatError::EmptyInputError));
}

#[test]
fn argmax_first_of_equal_maxima() {
    let v = Vector::new(vec![2i32, 7, 1, 7]);
    assert_eq!(v.argsort(), Ok(1));
    let u = Vector::new(vec![5u64]);
    assert_eq!(u.argsort(), Ok(0));
    let n = Vector::new(vec![-5i64, -3, -9]);
    assert_eq!(n.argsort(), Ok(1));
}
