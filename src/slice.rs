use vstd::prelude::*;

use crate::data_struct::{lemma_flat_bound, lemma_flat_unique, Matrix};
use crate::error::MatError;
use vstd::arithmetic::div_mod::{lemma_fundamental_div_mod, lemma_mod_pos_bound};

verus! {

/// Whether the `nr` by `nc` region at `begin` lies inside `m`.
pub open spec fn region_fits<T>(m: Matrix<T>, begin: [usize; 2], nr: usize, nc: usize) -> bool {
    begin[0] + nr <= m.spec_nrows() && begin[1] + nc <= m.spec_ncols()
}

/// A borrowed, read-only view of a rectangular region of a matrix.
#[derive(Clone, Copy)]
pub struct MatrixSlice<'a, T> {
    mat: &'a Matrix<T>,
    row: usize,
    col: usize,
    nr: usize,
    nc: usize,
}

impl<'a, T> MatrixSlice<'a, T> {
    pub closed spec fn source(&self) -> Matrix<T> {
        *self.mat
    }

    /// Coordinate in the source of the view's element `(0, 0)`.
    pub closed spec fn origin(&self) -> (nat, nat) {
        (self.row as nat, self.col as nat)
    }

    pub closed spec fn rows(&self) -> nat {
        self.nr as nat
    }

    pub closed spec fn cols(&self) -> nat {
        self.nc as nat
    }

    /// The region lies inside the source.
    pub closed spec fn wf(&self) -> bool {
        &&& self.mat.wf()
        &&& self.mat.spec_nrows() <= usize::MAX
        &&& self.mat.spec_ncols() <= usize::MAX
        &&& self.nr * self.nc <= usize::MAX
        &&& self.row + self.nr <= self.mat.spec_nrows()
        &&& self.col + self.nc <= self.mat.spec_ncols()
    }

    pub open spec fn in_shape(&self, i: int, j: int) -> bool {
        0 <= i < self.rows() && 0 <= j < self.cols()
    }

    /// Element `(i, j)` of the view.
    pub open spec fn at(&self, i: int, j: int) -> T {
        self.source().at(self.origin().0 + i, self.origin().1 + j)
    }

    /// The elements of the view in row-major order.
    pub open spec fn row_major(&self) -> Seq<T> {
        Seq::new(
            self.rows() * self.cols(),
            |k: int| self.at(k / self.cols() as int, k % self.cols() as int),
        )
    }

    /// The `nr` by `nc` region of `mat` whose first element is at `begin`.
    pub fn from_matrix(mat: &'a Matrix<T>, begin: [usize; 2], nr: usize, nc: usize) -> (res: Result<
        MatrixSlice<'a, T>,
        MatError,
    >)
        requires
            mat.wf(),
        ensures
            res is Ok <==> region_fits(*mat, begin, nr, nc),
            match res {
                Ok(s) => {
                    &&& s.wf()
                    &&& s.source() == *mat
                    &&& s.origin() == (begin[0] as nat, begin[1] as nat)
                    &&& s.rows() == nr
                    &&& s.cols() == nc
                },
                Err(e) => e == MatError::DimensionMismatch,
            },
    {
        let mr = mat.nrows();
        let mc = mat.ncols();
        if nr <= mr && begin[0] <= mr - nr && nc <= mc && begin[1] <= mc - nc {
            // the whole matrix's size fits in a usize, hence so does the region's
            let _size = mat.get_size();
            proof {
                vstd::arithmetic::mul::lemma_mul_upper_bound(nr as int, mr as int, nc as int, mc as int);
            }
            Ok(MatrixSlice { mat, row: begin[0], col: begin[1], nr, nc })
        } else {
            Err(MatError::DimensionMismatch)
        }
    }

    pub fn get_rows(&self) -> (n: usize)
        ensures
            n == self.rows(),
    {
        self.nr
    }

    pub fn get_cols(&self) -> (n: usize)
        ensures
            n == self.cols(),
    {
        self.nc
    }

    /// Distance in the source's buffer between an element and the one below it.
    pub fn row_stride(&self) -> (s: usize)
        ensures
            s == match self.source().mode() {
                crate::data_struct::Axes::Row => self.source().buffer_cols(),
                crate::data_struct::Axes::Column => 1,
            },
    {
        self.mat.row_stride()
    }
}

impl<'a, T: Copy> MatrixSlice<'a, T> {
    /// Element `(i, j)` of the view.
    pub fn get(&self, i: usize, j: usize) -> (res: Result<T, MatError>)
        requires
            self.wf(),
        ensures
            res is Ok <==> self.in_shape(i as int, j as int),
            match res {
                Ok(v) => v == self.at(i as int, j as int),
                Err(e) => e == MatError::IndexOutOfBounds,
            },
    {
        if i < self.nr && j < self.nc {
            self.mat.get(self.row + i, self.col + j)
        } else {
            Err(MatError::IndexOutOfBounds)
        }
    }

    /// An iterator over the view's elements in row-major order.
    pub fn iter(&self) -> (it: SliceIter<'a, T>)
        requires
            self.wf(),
        ensures
            it.wf(),
            it.view_of() == *self,
            it.position() == 0,
    {
        SliceIter { slice: *self, pos: 0 }
    }

    /// An iterator over the rows of the view, top to bottom.
    pub fn iter_rows(&self) -> (it: RowsIter<'a, T>)
        requires
            self.wf(),
        ensures
            it.wf(),
            it.view_of() == *self,
            it.position() == 0,
    {
        RowsIter { slice: *self, row_pos: 0 }
    }

    /// An iterator over the columns of the view, left to right.
    pub fn iter_cols(&self) -> (it: ColIter<'a, T>)
        requires
            self.wf(),
        ensures
            it.wf(),
            it.view_of() == *self,
            it.position() == 0,
    {
        ColIter { slice: *self, col_pos: 0 }
    }

    /// The elements of the view in row-major order.
    pub fn elements(&self) -> (v: Vec<T>)
        requires
            self.wf(),
        ensures
            v@ == self.row_major(),
    {
        let mut v: Vec<T> = Vec::new();
        let mut i: usize = 0;
        while i < self.nr
            invariant
                self.wf(),
                i <= self.rows(),
                v@.len() == i * self.cols(),
                forall|k: int| 0 <= k < v@.len() ==> #[trigger] v@[k] == self.row_major()[k],
            decreases self.rows() - i,
        {
            let mut j: usize = 0;
            while j < self.nc
                invariant
                    self.wf(),
                    i < self.rows(),
                    j <= self.cols(),
                    v@.len() == i * self.cols() + j,
                    forall|k: int| 0 <= k < v@.len() ==> #[trigger] v@[k] == self.row_major()[k],
                decreases self.cols() - j,
            {
                proof {
                    lemma_flat_in_grid(i as int, j as int, self.rows() as int, self.cols() as int);
                }
                match self.get(i, j) {
                    Ok(x) => v.push(x),
                    Err(_) => {},
                }
                j += 1;
            }
            proof {
                assert((i + 1) * self.cols() == i * self.cols() + self.cols()) by (nonlinear_arith);
            }
            i += 1;
        }
        proof {
            assert(v@ =~= self.row_major());
        }
        v
    }
}

/// The row-major position `i * n + j` of an element of an `m` by `n` grid,
/// and the coordinate it comes back to.
proof fn lemma_flat_in_grid(i: int, j: int, m: int, n: int)
    requires
        0 <= i < m,
        0 <= j < n,
    ensures
        0 <= i * n + j < m * n,
        (i * n + j) / n == i,
        (i * n + j) % n == j,
{
    lemma_flat_bound(i, j, m, n);
    lemma_flat_unique(i, j, n);
}

/// Walks a read-only view in row-major order.
pub struct SliceIter<'a, T> {
    slice: MatrixSlice<'a, T>,
    pos: usize,
}

impl<'a, T> SliceIter<'a, T> {
    pub closed spec fn view_of(&self) -> MatrixSlice<'a, T> {
        self.slice
    }

    /// Row-major position of the next element.
    pub closed spec fn position(&self) -> nat {
        self.pos as nat
    }

    pub closed spec fn wf(&self) -> bool {
        &&& self.slice.wf()
        &&& self.pos <= self.slice.rows() * self.slice.cols()
    }
}

impl<'a, T: Copy> SliceIter<'a, T> {
    /// The next element in row-major order, or `None` once all are out.
    pub fn next(&mut self) -> (r: Option<T>)
        requires
            old(self).wf(),
        ensures
            final(self).wf(),
            final(self).view_of() == old(self).view_of(),
            old(self).position() < old(self).view_of().row_major().len() ==> {
                &&& r == Some(old(self).view_of().row_major()[old(self).position() as int])
                &&& final(self).position() == old(self).position() + 1
            },
            old(self).position() >= old(self).view_of().row_major().len() ==> {
                &&& r is None
                &&& final(self).position() == old(self).position()
            },
    {
        let nr = self.slice.nr;
        let nc = self.slice.nc;
        if nc > 0 && self.pos / nc < nr {
            let i = self.pos / nc;
            let j = self.pos % nc;
            proof {
                lemma_fundamental_div_mod(self.pos as int, nc as int);
                lemma_mod_pos_bound(self.pos as int, nc as int);
                assert(self.pos == i * nc + j) by (nonlinear_arith)
                    requires
                        self.pos == nc * i + j,
                ;
                lemma_flat_in_grid(i as int, j as int, nr as int, nc as int);
            }
            let r = self.slice.get(i, j);
            proof {
                assert(self.slice.row_major()[self.pos as int] == self.slice.at(i as int, j as int));
            }
            self.pos = self.pos + 1;
            match r {
                Ok(v) => Some(v),
                Err(_) => None,
            }
        } else {
            proof {
                if nc == 0 {
                    assert(nr * nc == 0) by (nonlinear_arith)
                        requires
                            nc == 0,
                    ;
                } else {
                    lemma_fundamental_div_mod(self.pos as int, nc as int);
                    lemma_mod_pos_bound(self.pos as int, nc as int);
                    let q = self.pos as int / nc as int;
                    assert(self.pos >= nr * nc) by (nonlinear_arith)
                        requires
                            self.pos == nc * q + self.pos as int % nc as int,
                            self.pos as int % nc as int >= 0,
                            q >= nr,
                            nc > 0,
                    ;
                }
            }
            None
        }
    }
}


/// One row of a matrix, as a read-only view.
#[derive(Clone, Copy)]
pub struct Row<'a, T> {
    row: MatrixSlice<'a, T>,
}

impl<'a, T> Row<'a, T> {
    /// The one-row view underneath.
    pub closed spec fn view_of(&self) -> MatrixSlice<'a, T> {
        self.row
    }

    pub open spec fn wf(&self) -> bool {
        self.view_of().wf() && self.view_of().rows() == 1
    }
}

impl<'a, T: Copy> Row<'a, T> {
    /// Row `i` of `mat`.
    pub fn from_matrix(mat: &'a Matrix<T>, i: usize) -> (res: Result<Row<'a, T>, MatError>)
        requires
            mat.wf(),
        ensures
            res is Ok <==> i < mat.spec_nrows(),
            match res {
                Ok(r) => {
                    &&& r.wf()
                    &&& r.view_of().source() == *mat
                    &&& r.view_of().origin() == (i as nat, 0nat)
                    &&& r.view_of().cols() == mat.spec_ncols()
                },
                Err(e) => e == MatError::IndexOutOfBounds,
            },
    {
        if i < mat.nrows() {
            Ok(Row { row: MatrixSlice { mat, row: i, col: 0, nr: 1, nc: mat.ncols() } })
        } else {
            Err(MatError::IndexOutOfBounds)
        }
    }

    /// The elements of the row, left to right.
    pub fn row_slice(&self) -> (v: Vec<T>)
        requires
            self.wf(),
        ensures
            v@.len() == self.view_of().cols(),
            forall|j: int| 0 <= j < v@.len() ==> #[trigger] v@[j] == self.view_of().at(0, j),
    {
        let mut v: Vec<T> = Vec::new();
        let mut j: usize = 0;
        while j < self.row.nc
            invariant
                self.wf(),
                j <= self.view_of().cols(),
                v@.len() == j,
                forall|k: int| 0 <= k < j ==> #[trigger] v@[k] == self.view_of().at(0, k),
            decreases self.view_of().cols() - j,
        {
            match self.row.get(0, j) {
                Ok(x) => v.push(x),
                Err(_) => {},
            }
            j += 1;
        }
        v
    }
}

/// One column of a matrix, as a read-only view.
#[derive(Clone, Copy)]
pub struct Col<'a, T> {
    col: MatrixSlice<'a, T>,
}

impl<'a, T> Col<'a, T> {
    /// The one-column view underneath.
    pub closed spec fn view_of(&self) -> MatrixSlice<'a, T> {
        self.col
    }

    pub open spec fn wf(&self) -> bool {
        self.view_of().wf() && self.view_of().cols() == 1
    }
}

impl<'a, T: Copy> Col<'a, T> {
    /// Column `j` of `mat`.
    pub fn from_matrix(mat: &'a Matrix<T>, j: usize) -> (res: Result<Col<'a, T>, MatError>)
        requires
            mat.wf(),
        ensures
            res is Ok <==> j < mat.spec_ncols(),
            match res {
                Ok(c) => {
                    &&& c.wf()
                    &&& c.view_of().source() == *mat
                    &&& c.view_of().origin() == (0nat, j as nat)
                    &&& c.view_of().rows() == mat.spec_nrows()
                },
                Err(e) => e == MatError::IndexOutOfBounds,
            },
    {
        if j < mat.ncols() {
            Ok(Col { col: MatrixSlice { mat, row: 0, col: j, nr: mat.nrows(), nc: 1 } })
        } else {
            Err(MatError::IndexOutOfBounds)
        }
    }

    /// The elements of the column, top to bottom.
    pub fn col_slice(&self) -> (v: Vec<T>)
        requires
            self.wf(),
        ensures
            v@.len() == self.view_of().rows(),
            forall|i: int| 0 <= i < v@.len() ==> #[trigger] v@[i] == self.view_of().at(i, 0),
    {
        let mut v: Vec<T> = Vec::new();
        let mut i: usize = 0;
        while i < self.col.nr
            invariant
                self.wf(),
                i <= self.view_of().rows(),
                v@.len() == i,
                forall|k: int| 0 <= k < i ==> #[trigger] v@[k] == self.view_of().at(k, 0),
            decreases self.view_of().rows() - i,
        {
            match self.col.get(i, 0) {
                Ok(x) => v.push(x),
                Err(_) => {},
            }
            i += 1;
        }
        v
    }
}

/// Walks the rows of a read-only view, top to bottom.
pub struct RowsIter<'a, T> {
    slice: MatrixSlice<'a, T>,
    row_pos: usize,
}

/// The row iterator under its other name.
pub type RowIter<'a, T> = RowsIter<'a, T>;

impl<'a, T> RowsIter<'a, T> {
    pub closed spec fn view_of(&self) -> MatrixSlice<'a, T> {
        self.slice
    }

    /// Index of the next row.
    pub closed spec fn position(&self) -> nat {
        self.row_pos as nat
    }

    pub closed spec fn wf(&self) -> bool {
        self.slice.wf() && self.row_pos <= self.slice.rows()
    }

    /// The next row, or `None` after the last.
    pub fn next(&mut self) -> (r: Option<Row<'a, T>>)
        requires
            old(self).wf(),
        ensures
            final(self).wf(),
            final(self).view_of() == old(self).view_of(),
            old(self).position() < old(self).view_of().rows() ==> {
                &&& r matches Some(row) && {
                    &&& row.wf()
                    &&& row.view_of().source() == old(self).view_of().source()
                    &&& row.view_of().origin() == (
                        old(self).view_of().origin().0 + old(self).position(),
                        old(self).view_of().origin().1,
                    )
                    &&& row.view_of().cols() == old(self).view_of().cols()
                }
                &&& final(self).position() == old(self).position() + 1
            },
            old(self).position() >= old(self).view_of().rows() ==> {
                &&& r is None
                &&& final(self).position() == old(self).position()
            },
    {
        if self.row_pos < self.slice.nr {
            let s = &self.slice;
            let row = Row {
                row: MatrixSlice { mat: s.mat, row: s.row + self.row_pos, col: s.col, nr: 1, nc: s.nc },
            };
            self.row_pos = self.row_pos + 1;
            Some(row)
        } else {
            None
        }
    }
}

/// Walks the columns of a read-only view, left to right.
pub struct ColIter<'a, T> {
    slice: MatrixSlice<'a, T>,
    col_pos: usize,
}

impl<'a, T> ColIter<'a, T> {
    pub closed spec fn view_of(&self) -> MatrixSlice<'a, T> {
        self.slice
    }

    /// Index of the next column.
    pub closed spec fn position(&self) -> nat {
        self.col_pos as nat
    }

    pub closed spec fn wf(&self) -> bool {
        self.slice.wf() && self.col_pos <= self.slice.cols()
    }

    /// The next column, or `None` after the last.
    pub fn next(&mut self) -> (r: Option<Col<'a, T>>)
        requires
            old(self).wf(),
        ensures
            final(self).wf(),
            final(self).view_of() == old(self).view_of(),
            old(self).position() < old(self).view_of().cols() ==> {
                &&& r matches Some(col) && {
                    &&& col.wf()
                    &&& col.view_of().source() == old(self).view_of().source()
                    &&& col.view_of().origin() == (
                        old(self).view_of().origin().0,
                        old(self).view_of().origin().1 + old(self).position(),
                    )
                    &&& col.view_of().rows() == old(self).view_of().rows()
                }
                &&& final(self).position() == old(self).position() + 1
            },
            old(self).position() >= old(self).view_of().cols() ==> {
                &&& r is None
                &&& final(self).position() == old(self).position()
            },
    {
        if self.col_pos < self.slice.nc {
            let s = &self.slice;
            let col = Col {
                col: MatrixSlice { mat: s.mat, row: s.row, col: s.col + self.col_pos, nr: s.nr, nc: 1 },
            };
            self.col_pos = self.col_pos + 1;
            Some(col)
        } else {
            None
        }
    }
}


/// A borrowed view of a rectangular region of a matrix, through which the
/// region can be written.
pub struct MatrixMutSlice<'a, T> {
    /// The matrix the view writes into.
    pub mat: &'a mut Matrix<T>,
    /// Coordinate in `mat` of the view's element `(0, 0)`.
    pub row: usize,
    pub col: usize,
    /// Shape of the view.
    pub nr: usize,
    pub nc: usize,
}

/// The writable view under its other name.
pub type MatrixSliceMut<'a, T> = MatrixMutSlice<'a, T>;

impl<'a, T> MatrixMutSlice<'a, T> {
    pub open spec fn source(&self) -> Matrix<T> {
        *self.mat
    }

    /// Coordinate in the source of the view's element `(0, 0)`.
    pub open spec fn origin(&self) -> (nat, nat) {
        (self.row as nat, self.col as nat)
    }

    pub open spec fn rows(&self) -> nat {
        self.nr as nat
    }

    pub open spec fn cols(&self) -> nat {
        self.nc as nat
    }

    /// The region lies inside the source.
    pub open spec fn wf(&self) -> bool {
        &&& self.mat.wf()
        &&& self.mat.spec_nrows() <= usize::MAX
        &&& self.mat.spec_ncols() <= usize::MAX
        &&& self.nr * self.nc <= usize::MAX
        &&& self.row + self.nr <= self.mat.spec_nrows()
        &&& self.col + self.nc <= self.mat.spec_ncols()
    }

    pub open spec fn in_shape(&self, i: int, j: int) -> bool {
        0 <= i < self.rows() && 0 <= j < self.cols()
    }

    /// Element `(i, j)` of the view.
    pub open spec fn at(&self, i: int, j: int) -> T {
        self.source().at(self.origin().0 + i, self.origin().1 + j)
    }

    pub fn get_rows(&self) -> (n: usize)
        ensures
            n == self.rows(),
    {
        self.nr
    }

    pub fn get_cols(&self) -> (n: usize)
        ensures
            n == self.cols(),
    {
        self.nc
    }

    /// Distance in the source's buffer between an element and the one below it.
    pub fn row_stride(&self) -> (s: usize)
        ensures
            s == match self.source().mode() {
                crate::data_struct::Axes::Row => self.source().buffer_cols(),
                crate::data_struct::Axes::Column => 1,
            },
    {
        self.mat.row_stride()
    }
}

impl<'a, T: Copy> MatrixMutSlice<'a, T> {
    /// The `nr` by `nc` region of `mat` whose first element is at `begin`.
    pub fn from_matrix(mat: &'a mut Matrix<T>, begin: [usize; 2], nr: usize, nc: usize) -> (res: Result<
        MatrixMutSlice<'a, T>,
        MatError,
    >)
        requires
            old(mat).wf(),
        ensures
            res is Ok <==> region_fits(*old(mat), begin, nr, nc),
            match res {
                Ok(s) => {
                    &&& s.wf()
                    &&& s.source() == *old(mat)
                    &&& s.origin() == (begin[0] as nat, begin[1] as nat)
                    &&& s.rows() == nr
                    &&& s.cols() == nc
                    &&& *final(mat) == *final(s.mat)
                },
                Err(e) => e == MatError::DimensionMismatch && *final(mat) == *old(mat),
            },
    {
        let mr = mat.nrows();
        let mc = mat.ncols();
        if nr <= mr && begin[0] <= mr - nr && nc <= mc && begin[1] <= mc - nc {
            // the whole matrix's size fits in a usize, hence so does the region's
            let _size = mat.get_size();
            proof {
                vstd::arithmetic::mul::lemma_mul_upper_bound(nr as int, mr as int, nc as int, mc as int);
            }
            Ok(MatrixMutSlice { mat, row: begin[0], col: begin[1], nr, nc })
        } else {
            Err(MatError::DimensionMismatch)
        }
    }

    /// Element `(i, j)` of the view.
    pub fn get(&self, i: usize, j: usize) -> (res: Result<T, MatError>)
        requires
            self.wf(),
        ensures
            res is Ok <==> self.in_shape(i as int, j as int),
            match res {
                Ok(v) => v == self.at(i as int, j as int),
                Err(e) => e == MatError::IndexOutOfBounds,
            },
    {
        if i < self.nr && j < self.nc {
            self.mat.get(self.row + i, self.col + j)
        } else {
            Err(MatError::IndexOutOfBounds)
        }
    }

    /// An iterator that lends the view's elements in row-major order.
    pub fn iter_mut(self) -> (it: SliceMutIter<'a, T>)
        requires
            self.wf(),
        ensures
            it.wf(),
            it.view_of() == self,
            it.position() == 0,
            *final(it.slice.mat) == *final(self.mat),
    {
        SliceMutIter { slice: self, pos: 0 }
    }

    /// Writes `val` at `(i, j)` of the view, in the source; outside the view
    /// nothing changes.
    pub fn set(&mut self, i: usize, j: usize, val: T) -> (res: Result<(), MatError>)
        requires
            old(self).wf(),
        ensures
            final(self).wf(),
            final(self).origin() == old(self).origin(),
            final(self).rows() == old(self).rows(),
            final(self).cols() == old(self).cols(),
            final(self).source().spec_nrows() == old(self).source().spec_nrows(),
            final(self).source().spec_ncols() == old(self).source().spec_ncols(),
            *final(final(self).mat) == *final(old(self).mat),
            res is Ok <==> old(self).in_shape(i as int, j as int),
            match res {
                Ok(_) => {
                    &&& final(self).at(i as int, j as int) == val
                    &&& forall|a: int, b: int|
                        old(self).source().in_shape(a, b) && (a != old(self).origin().0 + i || b
                            != old(self).origin().1 + j) ==> #[trigger] final(self).source().at(a, b)
                            == old(self).source().at(a, b)
                },
                Err(e) => e == MatError::IndexOutOfBounds && final(self).source() == old(self).source(),
            },
    {
        if i < self.nr && j < self.nc {
            self.mat.set(self.row + i, self.col + j, val)
        } else {
            Err(MatError::IndexOutOfBounds)
        }
    }
}

/// One row of a matrix, as a writable view.
pub struct RowMut<'a, T> {
    pub row: MatrixMutSlice<'a, T>,
}

impl<'a, T> RowMut<'a, T> {
    /// The one-row view underneath.
    pub open spec fn view_of(&self) -> MatrixMutSlice<'a, T> {
        self.row
    }

    pub open spec fn wf(&self) -> bool {
        self.view_of().wf() && self.view_of().rows() == 1
    }
}

impl<'a, T: Copy> RowMut<'a, T> {
    /// Row `i` of `mat`.
    pub fn from_matrix(mat: &'a mut Matrix<T>, i: usize) -> (res: Result<RowMut<'a, T>, MatError>)
        requires
            old(mat).wf(),
        ensures
            res is Ok <==> i < old(mat).spec_nrows(),
            match res {
                Ok(r) => {
                    &&& r.wf()
                    &&& r.view_of().source() == *old(mat)
                    &&& r.view_of().origin() == (i as nat, 0nat)
                    &&& r.view_of().cols() == old(mat).spec_ncols()
                    &&& *final(mat) == *final(r.row.mat)
                },
                Err(e) => e == MatError::IndexOutOfBounds && *final(mat) == *old(mat),
            },
    {
        let nc = mat.ncols();
        if i < mat.nrows() {
            Ok(RowMut { row: MatrixMutSlice { mat, row: i, col: 0, nr: 1, nc } })
        } else {
            Err(MatError::IndexOutOfBounds)
        }
    }

    /// Element `j` of the row.
    pub fn get(&self, j: usize) -> (res: Result<T, MatError>)
        requires
            self.wf(),
        ensures
            res is Ok <==> j < self.view_of().cols(),
            match res {
                Ok(v) => v == self.view_of().at(0, j as int),
                Err(e) => e == MatError::IndexOutOfBounds,
            },
    {
        self.row.get(0, j)
    }

    /// Writes `val` at element `j` of the row.
    pub fn set(&mut self, j: usize, val: T) -> (res: Result<(), MatError>)
        requires
            old(self).wf(),
        ensures
            final(self).wf(),
            final(self).view_of().origin() == old(self).view_of().origin(),
            final(self).view_of().cols() == old(self).view_of().cols(),
            *final(final(self).row.mat) == *final(old(self).row.mat),
            final(self).view_of().source().spec_nrows() == old(self).view_of().source().spec_nrows(),
            final(self).view_of().source().spec_ncols() == old(self).view_of().source().spec_ncols(),
            res is Ok <==> j < old(self).view_of().cols(),
            match res {
                Ok(_) => {
                    &&& final(self).view_of().at(0, j as int) == val
                    &&& forall|a: int, b: int|
                        old(self).view_of().source().in_shape(a, b) && (a != old(self).view_of().origin().0
                            || b != old(self).view_of().origin().1 + j)
                            ==> #[trigger] final(self).view_of().source().at(a, b)
                            == old(self).view_of().source().at(a, b)
                },
                Err(e) => e == MatError::IndexOutOfBounds && final(self).view_of().source() == old(
                    self,
                ).view_of().source(),
            },
    {
        self.row.set(0, j, val)
    }
}

/// One column of a matrix, as a writable view.
pub struct ColMut<'a, T> {
    pub col: MatrixMutSlice<'a, T>,
}

impl<'a, T> ColMut<'a, T> {
    /// The one-column view underneath.
    pub open spec fn view_of(&self) -> MatrixMutSlice<'a, T> {
        self.col
    }

    pub open spec fn wf(&self) -> bool {
        self.view_of().wf() && self.view_of().cols() == 1
    }
}

impl<'a, T: Copy> ColMut<'a, T> {
    /// Column `j` of `mat`.
    pub fn from_matrix(mat: &'a mut Matrix<T>, j: usize) -> (res: Result<ColMut<'a, T>, MatError>)
        requires
            old(mat).wf(),
        ensures
            res is Ok <==> j < old(mat).spec_ncols(),
            match res {
                Ok(c) => {
                    &&& c.wf()
                    &&& c.view_of().source() == *old(mat)
                    &&& c.view_of().origin() == (0nat, j as nat)
                    &&& c.view_of().rows() == old(mat).spec_nrows()
                    &&& *final(mat) == *final(c.col.mat)
                },
                Err(e) => e == MatError::IndexOutOfBounds && *final(mat) == *old(mat),
            },
    {
        let nr = mat.nrows();
        if j < mat.ncols() {
            Ok(ColMut { col: MatrixMutSlice { mat, row: 0, col: j, nr, nc: 1 } })
        } else {
            Err(MatError::IndexOutOfBounds)
        }
    }

    /// Element `i` of the column.
    pub fn get(&self, i: usize) -> (res: Result<T, MatError>)
        requires
            self.wf(),
        ensures
            res is Ok <==> i < self.view_of().rows(),
            match res {
                Ok(v) => v == self.view_of().at(i as int, 0),
                Err(e) => e == MatError::IndexOutOfBounds,
            },
    {
        self.col.get(i, 0)
    }

    /// Writes `val` at element `i` of the column.
    pub fn set(&mut self, i: usize, val: T) -> (res: Result<(), MatError>)
        requires
            old(self).wf(),
        ensures
            final(self).wf(),
            final(self).view_of().origin() == old(self).view_of().origin(),
            final(self).view_of().rows() == old(self).view_of().rows(),
            *final(final(self).col.mat) == *final(old(self).col.mat),
            final(self).view_of().source().spec_nrows() == old(self).view_of().source().spec_nrows(),
            final(self).view_of().source().spec_ncols() == old(self).view_of().source().spec_ncols(),
            res is Ok <==> i < old(self).view_of().rows(),
            match res {
                Ok(_) => {
                    &&& final(self).view_of().at(i as int, 0) == val
                    &&& forall|a: int, b: int|
                        old(self).view_of().source().in_shape(a, b) && (a != old(self).view_of().origin().0 + i
                            || b != old(self).view_of().origin().1)
                            ==> #[trigger] final(self).view_of().source().at(a, b)
                            == old(self).view_of().source().at(a, b)
                },
                Err(e) => e == MatError::IndexOutOfBounds && final(self).view_of().source() == old(
                    self,
                ).view_of().source(),
            },
    {
        self.col.set(i, 0, val)
    }
}


/// Reading a view in row-major order gives, at position `i * cols + j`, the
/// source's element at the view's origin shifted by `(i, j)`.
pub proof fn lemma_slice_row_major<'a, T>(s: MatrixSlice<'a, T>)
    requires
        s.wf(),
    ensures
        s.row_major().len() == s.rows() * s.cols(),
        forall|i: int, j: int|
            s.in_shape(i, j) ==> s.row_major()[i * s.cols() + j] == #[trigger] s.source().at(
                s.origin().0 + i,
                s.origin().1 + j,
            ),
{
    assert forall|i: int, j: int| s.in_shape(i, j) implies s.row_major()[i * s.cols() + j]
        == #[trigger] s.source().at(s.origin().0 + i, s.origin().1 + j) by {
        lemma_flat_in_grid(i, j, s.rows() as int, s.cols() as int);
    }
}


/// Walks a writable view in row-major order, lending each element in turn.
pub struct SliceMutIter<'a, T> {
    /// The view being walked.
    pub slice: MatrixMutSlice<'a, T>,
    /// Row-major position of the next element.
    pub pos: usize,
}

impl<'a, T> SliceMutIter<'a, T> {
    pub open spec fn view_of(&self) -> MatrixMutSlice<'a, T> {
        self.slice
    }

    /// Row-major position of the next element.
    pub open spec fn position(&self) -> nat {
        self.pos as nat
    }

    pub open spec fn wf(&self) -> bool {
        &&& self.slice.wf()
        &&& self.pos <= self.slice.rows() * self.slice.cols()
    }
}

impl<'a, T: Copy> SliceMutIter<'a, T> {
    /// The next element in row-major order, to be written in place, or
    /// `None` once all are out.
    pub fn next(&mut self) -> (r: Option<&mut T>)
        requires
            old(self).wf(),
        ensures
            final(self).wf(),
            final(self).view_of().origin() == old(self).view_of().origin(),
            final(self).view_of().rows() == old(self).view_of().rows(),
            final(self).view_of().cols() == old(self).view_of().cols(),
            *final(final(self).slice.mat) == *final(old(self).slice.mat),
            final(self).view_of().source().spec_nrows() == old(self).view_of().source().spec_nrows(),
            final(self).view_of().source().spec_ncols() == old(self).view_of().source().spec_ncols(),
            old(self).position() < old(self).view_of().rows() * old(self).view_of().cols() ==> {
                let c = old(self).view_of().cols() as int;
                let i = old(self).position() as int / c;
                let j = old(self).position() as int % c;
                &&& r is Some
                &&& *r.unwrap() == old(self).view_of().at(i, j)
                &&& final(self).view_of().at(i, j) == *final(r.unwrap())
                &&& forall|a: int, b: int|
                    old(self).view_of().source().in_shape(a, b) && (a != old(self).view_of().origin().0 + i
                        || b != old(self).view_of().origin().1 + j)
                        ==> #[trigger] final(self).view_of().source().at(a, b)
                        == old(self).view_of().source().at(a, b)
                &&& final(self).position() == old(self).position() + 1
            },
            old(self).position() >= old(self).view_of().rows() * old(self).view_of().cols() ==> {
                &&& r is None
                &&& final(self).view_of().source() == old(self).view_of().source()
                &&& final(self).position() == old(self).position()
            },
    {
        let nr = self.slice.nr;
        let nc = self.slice.nc;
        if nc > 0 && self.pos / nc < nr {
            let i = self.pos / nc;
            let j = self.pos % nc;
            proof {
                lemma_fundamental_div_mod(self.pos as int, nc as int);
                lemma_mod_pos_bound(self.pos as int, nc as int);
                assert(self.pos == i * nc + j) by (nonlinear_arith)
                    requires
                        self.pos == nc * i + j,
                ;
                lemma_flat_in_grid(i as int, j as int, nr as int, nc as int);
            }
            self.pos = self.pos + 1;
            let row = self.slice.row + i;
            let col = self.slice.col + j;
            Some(self.slice.mat.uget_mut([row, col]))
        } else {
            proof {
                if nc == 0 {
                    assert(nr * nc == 0) by (nonlinear_arith)
                        requires
                            nc == 0,
                    ;
                } else {
                    lemma_fundamental_div_mod(self.pos as int, nc as int);
                    lemma_mod_pos_bound(self.pos as int, nc as int);
                    let q = self.pos as int / nc as int;
                    assert(self.pos >= nr * nc) by (nonlinear_arith)
                        requires
                            self.pos == nc * q + self.pos as int % nc as int,
                            self.pos as int % nc as int >= 0,
                            q >= nr,
                            nc > 0,
                    ;
                }
            }
            None
        }
    }
}

} // verus!
