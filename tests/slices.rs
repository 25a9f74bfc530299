use matrixlib::data_struct::Matrix;
use matrixlib::error::MatError;
use matrixlib::slice::{Col, ColMut, MatrixMutSlice, MatrixSlice, Row, RowMut};

fn sample() -> Matrix<i64> {
    Matrix::from_vec((1..=12).collect::<Vec<i64>>(), 3, 4).unwrap()
}

#[test]
fn slice_out_of_bounds_fails() {
    let m = sample();
    assert_eq!(MatrixSlice::from_matrix(&m, [2, 0], 2, 1).err(), Some(MatError::DimensionMismatch));
    assert_eq!(MatrixSlice::from_matrix(&m, [0, 1], 1, 4).err(), Some(MatError::DimensionMismatch));
    assert_eq!(
        MatrixSlice::from_matrix(&m, [usize::MAX, 0], 2, 1).err(),
        Some(MatError::DimensionMismatch)
    );
    assert!(MatrixSlice::from_matrix(&m, [3, 4], 0, 0).is_ok());
}

#[test]
fn slice_matches_source() {
    let m = sample();
    let s = MatrixSlice::from_matrix(&m, [1, 1], 2, 3).unwrap();
    assert_eq!((s.get_rows(), s.get_cols(), s.row_stride()), (2, 3, 4));
    let mut it = s.iter();
    for i in 0..2 {
        for j in 0..3 {
            assert_eq!(it.next(), Some(m.get(1 + i, 1 + j).unwrap()));
            assert_eq!(s.get(i, j), m.get(1 + i, 1 + j));
        }
    }
    assert_eq!(it.next(), None);
    assert_eq!(s.elements(), vec![6, 7, 8, 10, 11, 12]);
    assert_eq!(s.get(2, 0), Err(MatError::IndexOutOfBounds));
}

#[test]
fn slice_of_transposed_matrix() {
    let t = sample().transpose();
    let s = MatrixSlice::from_matrix(&t, [1, 0], 2, 3).unwrap();
    assert_eq!(s.elements(), vec![2, 6, 10, 3, 7, 11]);
    assert_eq!(s.row_stride(), 1);
}

#[test]
fn rows_and_columns() {
    let m = sample();
    assert_eq!(Row::from_matrix(&m, 1).unwrap().row_slice(), vec![5, 6, 7, 8]);
    assert_eq!(Col::from_matrix(&m, 2).unwrap().col_slice(), vec![3, 7, 11]);
    assert_eq!(Row::from_matrix(&m, 3).err(), Some(MatError::IndexOutOfBounds));
    assert_eq!(Col::from_matrix(&m, 4).err(), Some(MatError::IndexOutOfBounds));
    let s = MatrixSlice::from_matrix(&m, [0, 1], 3, 2).unwrap();
    let mut rows = s.iter_rows();
    let mut got = Vec::new();
    while let Some(r) = rows.next() {
        got.push(r.row_slice());
    }
    assert_eq!(got, vec![vec![2, 3], vec![6, 7], vec![10, 11]]);
    let mut cols = s.iter_cols();
    let mut got = Vec::new();
    while let Some(c) = cols.next() {
        got.push(c.col_slice());
    }
    assert_eq!(got, vec![vec![2, 6, 10], vec![3, 7, 11]]);
}

#[test]
fn writable_views() {
    let mut m = sample();
    {
        let mut s = MatrixMutSlice::from_matrix(&mut m, [1, 2], 2, 2).unwrap();
        assert_eq!(s.get(1, 1), Ok(12));
        assert_eq!(s.set(0, 1, 80), Ok(()));
        assert_eq!(s.set(2, 0, 1), Err(MatError::IndexOutOfBounds));
        assert_eq!((s.get_rows(), s.get_cols(), s.row_stride()), (2, 2, 4));
    }
    assert_eq!(m.get(1, 3), Ok(80));
    {
        let mut r = RowMut::from_matrix(&mut m, 0).unwrap();
        assert_eq!(r.set(0, 100), Ok(()));
        assert_eq!(r.get(0), Ok(100));
        assert_eq!(r.set(4, 1), Err(MatError::IndexOutOfBounds));
    }
    {
        let mut c = ColMut::from_matrix(&mut m, 3).unwrap();
        assert_eq!(c.set(2, 120), Ok(()));
        assert_eq!(c.get(1), Ok(80));
    }
    assert_eq!(m.elements(), vec![100, 2, 3, 4, 5, 6, 7, 80, 9, 10, 11, 120]);
    assert!(MatrixMutSlice::from_matrix(&mut m, [0, 0], 4, 1).is_err());
    assert!(RowMut::from_matrix(&mut m, 3).is_err());
    assert!(ColMut::from_matrix(&mut m, 4).is_err());
}

#[test]
fn lending_iteration_writes_in_place() {
    let mut m = sample().transpose();
    {
        let s = MatrixMutSlice::from_matrix(&mut m, [1, 1], 2, 2).unwrap();
        let mut it = s.iter_mut();
        let mut k = 0;
        while let Some(x) = it.next() {
            k += 1;
            *x = *x * 100 + k;
        }
        assert_eq!(k, 4);
        assert!(it.next().is_none());
    }
    assert_eq!(m.elements(), vec![1, 5, 9, 2, 601, 1002, 3, 703, 1104, 4, 8, 12]);
}

#[test]
fn element_reference_writes_in_place() {
    let mut m = sample();
    *m.uget_mut([2, 1]) = -10;
    assert_eq!(m.get(2, 1), Ok(-10));
    assert_eq!(m.get(2, 0), Ok(9));
}
