use matrixlib::data_struct::{Axes, Dim, Features, Matrix};
use matrixlib::error::MatError;
use matrixlib::util::gcd;

fn all(m: &Matrix<i64>) -> Vec<i64> {
    let mut out = Vec::new();
    for i in 0..m.nrows() {
        for j in 0..m.ncols() {
            out.push(m.get(i, j).unwrap());
        }
    }
    out
}

#[test]
fn from_vec_reads_row_by_row() {
    let data: Vec<i64> = (1..=6).collect();
    let m = Matrix::from_vec(data.clone(), 2, 3).unwrap();
    assert_eq!(m.get_shape(), (2, 3));
    for i in 0..2 {
        for j in 0..3 {
            assert_eq!(m.get(i, j), Ok(data[i * 3 + j]));
        }
    }
    assert_eq!(m.get_mode(), Axes::Row);
}

#[test]
fn from_vec_length_mismatch() {
    let r = Matrix::from_vec(vec![1i64, 2, 3], 2, 2);
    assert_eq!(r.err(), Some(MatError::DimensionMismatch));
    let r = Matrix::from_vec(Vec::<i64>::new(), usize::MAX, 2);
    assert_eq!(r.err(), Some(MatError::DimensionMismatch));
    assert!(Matrix::from_vec(Vec::<i64>::new(), 0, 7).is_ok());
}

#[test]
fn from_fn_fills_each_cell() {
    let m: Matrix<i64> = Matrix::from_fn(3, 4, |i, j| (10 * i + j) as i64);
    assert_eq!(m.get_shape(), (3, 4));
    assert_eq!(m.get(2, 3), Ok(23));
    assert_eq!(m.get(1, 0), Ok(10));
}

#[test]
fn transpose_swaps_shape_and_elements() {
    let m = Matrix::from_vec((1..=6).collect::<Vec<i64>>(), 2, 3).unwrap();
    let t = m.transpose();
    assert_eq!(t.get_shape(), (3, 2));
    assert_eq!(t.get_mode(), Axes::Column);
    for i in 0..3 {
        for j in 0..2 {
            assert_eq!(t.get(i, j), m.get(j, i));
        }
    }
    let tt = t.t();
    assert_eq!(tt.get_shape(), (2, 3));
    assert_eq!(tt.get_mode(), Axes::Row);
    assert_eq!(all(&tt), all(&m));
}

#[test]
fn transpose_of_column_and_row_vectors() {
    let c = Matrix::from_vec(vec![1i64, 2, 3, 4], 4, 1).unwrap();
    let r = c.transpose();
    assert_eq!(r.get_shape(), (1, 4));
    assert_eq!(all(&r), vec![1, 2, 3, 4]);
    assert_eq!(all(&r.transpose()), vec![1, 2, 3, 4]);
    let e: Matrix<i64> = Matrix::zero(0, 3);
    assert_eq!(e.transpose().get_shape(), (3, 0));
}

#[test]
fn transpose_through_trait() {
    let m = Matrix::from_vec(vec![1i64, 2, 3, 4, 5, 6], 3, 2).unwrap();
    let t = Features::transpose(&m);
    assert_eq!(t.shape(), (2, 3));
    assert_eq!(all(&t), vec![1, 3, 5, 2, 4, 6]);
    let back = Features::t(&t);
    assert_eq!(all(&back), all(&m));
}

#[test]
fn identity_matrices() {
    for n in [0usize, 1, 5, 10] {
        let m: Matrix<i64> = Matrix::eye(n);
        assert_eq!(m.get_shape(), (n, n));
        for i in 0..n {
            for j in 0..n {
                assert_eq!(m.get(i, j), Ok(if i == j { 1 } else { 0 }));
            }
        }
    }
}

#[test]
fn diagonal_matrix() {
    let v = vec![4i64, -2, 7];
    let m = Matrix::diag(&v);
    assert_eq!(m.get_shape(), (3, 3));
    for i in 0..3 {
        for j in 0..3 {
            assert_eq!(m.get(i, j), Ok(if i == j { v[i] } else { 0 }));
        }
    }
}

#[test]
fn zeros_and_ones() {
    let z: Matrix<i64> = Matrix::zero(2, 3);
    assert_eq!(z.size(), 6);
    assert_eq!(z.get_size(), 6);
    assert!(all(&z).iter().all(|&x| x == 0));
    let o: Matrix<i32> = Matrix::unit(4, 2);
    assert_eq!(o.size(), 8);
    for i in 0..4 {
        for j in 0..2 {
            assert_eq!(o.get(i, j), Ok(1));
        }
    }
}

#[test]
fn out_of_range_access_fails() {
    let mut m = Matrix::from_vec(vec![1i64, 2, 3, 4, 5, 6], 2, 3).unwrap();
    assert_eq!(m.get(2, 0), Err(MatError::IndexOutOfBounds));
    assert_eq!(m.get(0, 3), Err(MatError::IndexOutOfBounds));
    assert_eq!(m.set(2, 0, 9), Err(MatError::IndexOutOfBounds));
    assert_eq!(m.set(0, 3, 9), Err(MatError::IndexOutOfBounds));
    assert_eq!(all(&m), vec![1, 2, 3, 4, 5, 6]);
    assert_eq!(m.index(1, 3), Err(MatError::IndexOutOfBounds));
    assert!(m.get_elem_ref([5, 0]).is_none());
}

#[test]
fn set_writes_one_element() {
    let mut m = Matrix::from_vec(vec![1i64, 2, 3, 4, 5, 6], 2, 3).unwrap();
    assert_eq!(m.set(1, 2, 60), Ok(()));
    assert_eq!(all(&m), vec![1, 2, 3, 4, 5, 60]);
    let mut t = m.transpose();
    assert_eq!(t.set(0, 1, 40), Ok(()));
    assert_eq!(all(&t), vec![1, 40, 2, 5, 3, 60]);
    assert_eq!(t.get_elem_ref([2, 1]), Some(&60));
}

#[test]
fn index_and_tridx_in_both_orders() {
    let m = Matrix::from_vec((0..6).collect::<Vec<i64>>(), 2, 3).unwrap();
    assert_eq!(m.index(1, 2), Ok(5));
    assert_eq!(m.tridx(5), 5);
    assert_eq!(m.tridx(1), 2);
    let t = m.transpose();
    // the transpose holds the same buffer read column by column
    assert_eq!(t.get_data(), &vec![0, 1, 2, 3, 4, 5]);
    assert_eq!(t.index(2, 1), Ok(5));
    assert_eq!(t.index(1, 0), Ok(1));
    assert_eq!(t.row_stride(), 1);
    assert_eq!(m.row_stride(), 3);
}

#[test]
fn iteration_is_row_major_in_both_orders() {
    let m = Matrix::from_vec((1..=9).collect::<Vec<i64>>(), 3, 3).unwrap();
    assert_eq!(m.elements(), (1..=9).collect::<Vec<i64>>());
    let col_major = m.transpose().transpose();
    assert_eq!(col_major.get_mode(), Axes::Row);
    let t = m.transpose();
    assert_eq!(t.get_mode(), Axes::Column);
    assert_eq!(t.elements(), vec![1, 4, 7, 2, 5, 8, 3, 6, 9]);
    let mut it = m.into_iter();
    let mut seen = Vec::new();
    while let Some(x) = it.next() {
        seen.push(x);
    }
    assert_eq!(seen, (1..=9).collect::<Vec<i64>>());
    assert_eq!(it.next(), None);
}

#[test]
fn column_major_iteration_of_transposed_matrix() {
    let m = Matrix::from_vec(vec![1i64, 4, 7, 2, 5, 8, 3, 6, 9], 3, 3).unwrap().transpose();
    let mut it = m.into_iter();
    let mut seen = Vec::new();
    while let Some(x) = it.next() {
        seen.push(x);
    }
    assert_eq!(seen, (1..=9).collect::<Vec<i64>>());
}

#[test]
fn shape_queries() {
    let m: Matrix<i64> = Matrix::zero(1, 4);
    assert_eq!(m.mindim(), 1);
    assert!(m.is_rvec());
    assert!(!m.is_cvec());
    assert!(!m.is_vec());
    assert!(!m.is_empty());
    let c: Matrix<i64> = Matrix::zero(3, 1);
    assert!(c.is_cvec());
    let e: Matrix<i64> = Matrix::zero(0, 2);
    assert!(e.is_vec());
    assert!(e.is_empty());
    assert_eq!(e.mindim(), 0);
    assert_eq!(m.get_rows(), 1);
    assert_eq!(m.get_cols(), 4);
}

#[test]
fn axes_and_dims() {
    assert_eq!(Axes::Row.t(), Axes::Column);
    assert_eq!(Axes::Column.transpose(), Axes::Row);
    let d = Dim::full(3, 4);
    assert_eq!(d.nrows(), 3);
    assert_eq!(d.ncols(), 4);
    assert_eq!((d.start_row(), d.start_col()), (0, 0));
}

#[test]
fn gcd_values() {
    assert_eq!(gcd(98, 56), 14);
    assert_eq!(gcd(56, 98), 14);
    assert_eq!(gcd(0, 9), 9);
    assert_eq!(gcd(9, 0), 9);
    assert_eq!(gcd(17, 5), 1);
}

#[test]
fn buffer_access_in_place() {
    let mut m = Matrix::from_vec(vec![1i64, 2, 3, 4, 5, 6], 2, 3).unwrap().transpose();
    assert_eq!(m.data().vals(), &vec![1, 2, 3, 4, 5, 6]);
    m.get_mut_data()[1] = 20;
    // buffer position 1 holds the transpose's element (1, 0)
    assert_eq!(m.get(1, 0), Ok(20));
    assert_eq!(m.get_data().len(), 6);
}
