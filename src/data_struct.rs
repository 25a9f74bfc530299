use vstd::prelude::*;
use vstd::arithmetic::div_mod::{
    lemma_div_pos_is_pos, lemma_fundamental_div_mod, lemma_fundamental_div_mod_converse,
    lemma_mod_pos_bound,
};

use crate::error::MatError;
use crate::scalar::Scalar;

verus! {

/// Storage order of a matrix buffer.
#[derive(Debug, Clone, Copy, PartialEq, Eq, Structural)]
pub enum Axes {
    /// Column major: the elements of one column are adjacent.
    Column,
    /// Row major: the elements of one row are adjacent.
    Row,
}

/// The storage order under its other name.
pub type Axis = Axes;

impl Axes {
    /// The other storage order.
    pub open spec fn flipped(self) -> Axes {
        match self {
            Axes::Column => Axes::Row,
            Axes::Row => Axes::Column,
        }
    }

    pub fn t(&self) -> (r: Axes)
        ensures
            r == self.flipped(),
    {
        match *self {
            Axes::Column => Axes::Row,
            Axes::Row => Axes::Column,
        }
    }

    pub fn transpose(&self) -> (r: Axes)
        ensures
            r == self.flipped(),
    {
        self.t()
    }
}

/// Position of `(i, j)` in a row-major grid with `n` columns.
pub open spec fn flat(i: int, j: int, n: int) -> int {
    i * n + j
}

pub(crate) proof fn lemma_flat_bound(i: int, j: int, m: int, n: int)
    by (nonlinear_arith)
    requires
        0 <= i < m,
        0 <= j < n,
    ensures
        0 <= i * n + j < m * n,
        0 <= i * n + j < n * m,
{
}

proof fn lemma_flat_split(k: int, m: int, n: int)
    requires
        0 <= k < m * n,
        0 <= m,
        0 <= n,
    ensures
        0 < n,
        0 <= k / n < m,
        0 <= k % n < n,
        k == (k / n) * n + k % n,
{
    assert(n > 0) by (nonlinear_arith)
        requires
            0 <= k < m * n,
            0 <= m,
            0 <= n,
    ;
    lemma_fundamental_div_mod(k, n);
    lemma_mod_pos_bound(k, n);
    lemma_div_pos_is_pos(k, n);
    let q = k / n;
    let r = k % n;
    assert(q < m) by (nonlinear_arith)
        requires
            k == n * q + r,
            r >= 0,
            k < m * n,
            n > 0,
    ;
    assert(k == q * n + r) by (nonlinear_arith)
        requires
            k == n * q + r,
    ;
}

pub(crate) proof fn lemma_flat_unique(i: int, j: int, n: int)
    requires
        0 <= j < n,
    ensures
        (i * n + j) / n == i,
        (i * n + j) % n == j,
{
    lemma_fundamental_div_mod_converse(i * n + j, n, i, j);
}

/// A half-open rectangle `[start.0, end.0) x [start.1, end.1)` of a buffer.
#[derive(Debug, Clone, Copy, PartialEq, Eq)]
pub struct Dim {
    pub start: (usize, usize),
    pub end: (usize, usize),
}

impl Dim {
    /// The start lies on or before the end on both axes.
    pub open spec fn valid(self) -> bool {
        self.start.0 <= self.end.0 && self.start.1 <= self.end.1
    }

    /// The whole of an `r` by `c` buffer.
    pub fn full(r: usize, c: usize) -> (d: Dim)
        ensures
            d.start == (0usize, 0usize),
            d.end == (r, c),
    {
        Dim { start: (0, 0), end: (r, c) }
    }

    pub fn nrows(&self) -> (n: usize)
        requires
            self.valid(),
        ensures
            n == self.end.0 - self.start.0,
    {
        self.end.0 - self.start.0
    }

    pub fn ncols(&self) -> (n: usize)
        requires
            self.valid(),
        ensures
            n == self.end.1 - self.start.1,
    {
        self.end.1 - self.start.1
    }

    pub fn start_row(&self) -> (s: usize)
        ensures
            s == self.start.0,
    {
        self.start.0
    }

    pub fn start_col(&self) -> (s: usize)
        ensures
            s == self.start.1,
    {
        self.start.1
    }
}

/// A flat buffer of `r * c` elements.
pub struct MatData<T> {
    r: usize,
    c: usize,
    d: Vec<T>,
}

impl<T> MatData<T> {
    /// The buffer holds exactly `r * c` elements.
    pub closed spec fn wf(&self) -> bool {
        self.d@.len() == self.r * self.c
    }

    pub closed spec fn contents(&self) -> Seq<T> {
        self.d@
    }

    pub closed spec fn extent(&self) -> (nat, nat) {
        (self.r as nat, self.c as nat)
    }

    /// The elements, in buffer order.
    pub fn vals(&self) -> (v: &Vec<T>)
        ensures
            v@ == self.contents(),
            self.wf() ==> v@.len() == self.extent().0 * self.extent().1,
    {
        &self.d
    }

    /// The elements, in buffer order, to be written in place.
    pub fn vals_mut(&mut self) -> (v: &mut [T])
        ensures
            v@ == old(self).contents(),
            final(self).contents() == final(v)@,
            final(self).extent() == old(self).extent(),
            old(self).wf() && final(v)@.len() == v@.len() ==> final(self).wf(),
    {
        self.d.as_mut_slice()
    }
}

/// A dense matrix: a buffer, the region of it that is shown, and the order
/// in which the buffer holds its elements.
///
/// The logical shape is that of the region. Element `(i, j)` is the one at
/// row `start.0 + i` and column `start.1 + j` of the buffer, which sits at
/// offset `row * c + col` in row-major order and `col * r + row` in
/// column-major order.
pub struct Matrix<T> {
    data: MatData<T>,
    vdim: Dim,
    axis: Axes,
}

impl<T> Matrix<T> {
    /// The buffer holds `r * c` elements and the region lies inside it.
    pub closed spec fn wf(&self) -> bool {
        &&& self.data.d.len() == self.data.r * self.data.c
        &&& self.vdim.start.0 <= self.vdim.end.0 <= self.data.r
        &&& self.vdim.start.1 <= self.vdim.end.1 <= self.data.c
    }

    pub closed spec fn spec_nrows(&self) -> nat {
        (self.vdim.end.0 - self.vdim.start.0) as nat
    }

    pub closed spec fn spec_ncols(&self) -> nat {
        (self.vdim.end.1 - self.vdim.start.1) as nat
    }

    pub closed spec fn mode(&self) -> Axes {
        self.axis
    }

    /// The buffer, in storage order.
    pub closed spec fn buffer(&self) -> Seq<T> {
        self.data.d@
    }

    /// Number of rows of the buffer.
    pub closed spec fn buffer_rows(&self) -> nat {
        self.data.r as nat
    }

    /// Number of columns of the buffer.
    pub closed spec fn buffer_cols(&self) -> nat {
        self.data.c as nat
    }

    /// Offset in the buffer of logical element `(i, j)`.
    pub closed spec fn offset(&self, i: int, j: int) -> int {
        let row = self.vdim.start.0 + i;
        let col = self.vdim.start.1 + j;
        match self.axis {
            Axes::Row => flat(row, col, self.data.c as int),
            Axes::Column => flat(col, row, self.data.r as int),
        }
    }

    /// Logical element `(i, j)`.
    pub closed spec fn at(&self, i: int, j: int) -> T {
        self.data.d@[self.offset(i, j)]
    }

    pub open spec fn in_shape(&self, i: int, j: int) -> bool {
        0 <= i < self.spec_nrows() && 0 <= j < self.spec_ncols()
    }

    /// Same shape and same element at every coordinate.
    pub open spec fn same_as(&self, m: Matrix<T>) -> bool {
        &&& self.spec_nrows() == m.spec_nrows()
        &&& self.spec_ncols() == m.spec_ncols()
        &&& forall|i: int, j: int| self.in_shape(i, j) ==> #[trigger] self.at(i, j) == m.at(i, j)
    }

    /// `self` has the shape of `m` swapped, and `self.at(i, j) == m.at(j, i)`.
    pub open spec fn is_transpose_of(&self, m: Matrix<T>) -> bool {
        &&& self.spec_nrows() == m.spec_ncols()
        &&& self.spec_ncols() == m.spec_nrows()
        &&& forall|i: int, j: int| self.in_shape(i, j) ==> #[trigger] self.at(i, j) == m.at(j, i)
    }

    /// The elements in row-major order: row by row, each from left to right.
    pub open spec fn row_major(&self) -> Seq<T> {
        Seq::new(
            self.spec_nrows() * self.spec_ncols(),
            |k: int| self.at(k / self.spec_ncols() as int, k % self.spec_ncols() as int),
        )
    }

    /// Every logical element lies in the buffer.
    pub proof fn lemma_offset_bound(&self, i: int, j: int)
        requires
            self.wf(),
            self.in_shape(i, j),
        ensures
            0 <= self.offset(i, j) < self.buffer().len(),
    {
        let row = self.vdim.start.0 + i;
        let col = self.vdim.start.1 + j;
        lemma_flat_bound(row, col, self.data.r as int, self.data.c as int);
        lemma_flat_bound(col, row, self.data.c as int, self.data.r as int);
    }

    /// Two different logical elements sit at different offsets.
    pub proof fn lemma_offset_distinct(&self, i: int, j: int, i2: int, j2: int)
        requires
            self.wf(),
            self.in_shape(i, j),
            self.in_shape(i2, j2),
            i != i2 || j != j2,
        ensures
            self.offset(i, j) != self.offset(i2, j2),
    {
        let row = self.vdim.start.0 + i;
        let col = self.vdim.start.1 + j;
        let row2 = self.vdim.start.0 + i2;
        let col2 = self.vdim.start.1 + j2;
        match self.axis {
            Axes::Row => {
                lemma_flat_unique(row, col, self.data.c as int);
                lemma_flat_unique(row2, col2, self.data.c as int);
            },
            Axes::Column => {
                lemma_flat_unique(col, row, self.data.r as int);
                lemma_flat_unique(col2, row2, self.data.r as int);
            },
        }
    }

    /// Every logical element lies in the buffer.
    proof fn lemma_all_offsets(&self)
        requires
            self.wf(),
        ensures
            forall|i: int, j: int|
                self.in_shape(i, j) ==> 0 <= #[trigger] self.offset(i, j) < self.buffer().len(),
    {
        assert forall|i: int, j: int| self.in_shape(i, j) implies 0 <= #[trigger] self.offset(
            i,
            j,
        ) < self.buffer().len() by {
            self.lemma_offset_bound(i, j);
        }
    }

    /// Converts a row-major offset of the buffer into its column-major offset.
    pub fn tridx(&self, idx: usize) -> (k: usize)
        requires
            self.wf(),
            idx < self.buffer().len(),
        ensures
            k == flat(
                idx as int % self.buffer_cols() as int,
                idx as int / self.buffer_cols() as int,
                self.buffer_rows() as int,
            ),
            k < self.buffer().len(),
    {
        proof {
            lemma_flat_split(idx as int, self.data.r as int, self.data.c as int);
            lemma_flat_bound(
                idx as int % self.data.c as int,
                idx as int / self.data.c as int,
                self.data.c as int,
                self.data.r as int,
            );
        }
        (idx % self.data.c) * self.data.r + idx / self.data.c
    }

    fn offset_of(&self, i: usize, j: usize) -> (k: usize)
        requires
            self.wf(),
            self.in_shape(i as int, j as int),
        ensures
            k == self.offset(i as int, j as int),
            k < self.buffer().len(),
    {
        proof {
            self.lemma_offset_bound(i as int, j as int);
        }
        let row = self.vdim.start.0 + i;
        let col = self.vdim.start.1 + j;
        proof {
            lemma_flat_bound(row as int, col as int, self.data.r as int, self.data.c as int);
            lemma_flat_unique(row as int, col as int, self.data.c as int);
        }
        match self.axis {
            Axes::Row => row * self.data.c + col,
            Axes::Column => self.tridx(row * self.data.c + col),
        }
    }

    /// Offset in the buffer of logical element `(r, c)`, once the coordinate
    /// has been checked against the shape.
    pub fn index(&self, r: usize, c: usize) -> (res: Result<usize, MatError>)
        requires
            self.wf(),
        ensures
            res is Ok <==> self.in_shape(r as int, c as int),
            match res {
                Ok(k) => {
                    &&& k == self.offset(r as int, c as int)
                    &&& k < self.buffer().len()
                    &&& forall|i2: int, j2: int|
                        self.in_shape(i2, j2) && (i2 != r || j2 != c) ==> #[trigger] self.offset(
                            i2,
                            j2,
                        ) != k
                },
                Err(e) => e == MatError::IndexOutOfBounds,
            },
    {
        if r < self.nrows() && c < self.ncols() {
            proof {
                assert forall|i2: int, j2: int|
                    self.in_shape(i2, j2) && (i2 != r || j2 != c) implies #[trigger] self.offset(
                        i2,
                        j2,
                    ) != self.offset(r as int, c as int) by {
                    self.lemma_offset_distinct(i2, j2, r as int, c as int);
                }
            }
            Ok(self.offset_of(r, c))
        } else {
            Err(MatError::IndexOutOfBounds)
        }
    }

    pub fn nrows(&self) -> (n: usize)
        requires
            self.wf(),
        ensures
            n == self.spec_nrows(),
    {
        self.vdim.nrows()
    }

    pub fn ncols(&self) -> (n: usize)
        requires
            self.wf(),
        ensures
            n == self.spec_ncols(),
    {
        self.vdim.ncols()
    }

    pub fn get_rows(&self) -> (n: usize)
        requires
            self.wf(),
        ensures
            n == self.spec_nrows(),
    {
        self.nrows()
    }

    pub fn get_cols(&self) -> (n: usize)
        requires
            self.wf(),
        ensures
            n == self.spec_ncols(),
    {
        self.ncols()
    }

    pub fn get_shape(&self) -> (s: (usize, usize))
        requires
            self.wf(),
        ensures
            s == (self.spec_nrows() as usize, self.spec_ncols() as usize),
    {
        (self.nrows(), self.ncols())
    }

    /// Number of logical elements.
    pub fn get_size(&self) -> (n: usize)
        requires
            self.wf(),
        ensures
            n == self.spec_nrows() * self.spec_ncols(),
    {
        let nr = self.nrows();
        let nc = self.ncols();
        proof {
            vstd::arithmetic::mul::lemma_mul_upper_bound(
                nr as int,
                self.data.r as int,
                nc as int,
                self.data.c as int,
            );
        }
        nr * nc
    }

    /// True when the matrix holds no element.
    pub fn is_empty(&self) -> (b: bool)
        requires
            self.wf(),
        ensures
            b == (self.spec_nrows() == 0 || self.spec_ncols() == 0),
    {
        self.nrows() == 0 || self.ncols() == 0
    }

    /// The buffer, in storage order.
    pub fn get_data(&self) -> (v: &Vec<T>)
        ensures
            v@ == self.buffer(),
    {
        self.data.vals()
    }

    /// The buffer with its extent.
    pub fn data(&self) -> (d: &MatData<T>)
        requires
            self.wf(),
        ensures
            d.wf(),
            d.contents().len() == d.extent().0 * d.extent().1,
            d.contents() == self.buffer(),
            d.extent() == (self.buffer_rows(), self.buffer_cols()),
    {
        &self.data
    }

    /// The buffer, in storage order, to be written in place.
    pub fn get_mut_data(&mut self) -> (d: &mut [T])
        requires
            old(self).wf(),
        ensures
            d@ == old(self).buffer(),
            final(self).buffer() == final(d)@,
            final(self).buffer_rows() == old(self).buffer_rows(),
            final(self).buffer_cols() == old(self).buffer_cols(),
            final(self).spec_nrows() == old(self).spec_nrows(),
            final(self).spec_ncols() == old(self).spec_ncols(),
            final(self).mode() == old(self).mode(),
            final(d)@.len() == d@.len() ==> final(self).wf(),
    {
        self.data.d.as_mut_slice()
    }

    pub fn get_mode(&self) -> (a: Axes)
        ensures
            a == self.mode(),
    {
        self.axis
    }

    /// Distance in the buffer between an element and the one below it.
    pub fn row_stride(&self) -> (s: usize)
        ensures
            s == match self.mode() {
                Axes::Row => self.buffer_cols(),
                Axes::Column => 1,
            },
    {
        match self.axis {
            Axes::Row => self.data.c,
            Axes::Column => 1,
        }
    }

    /// A reference to element `(id[0], id[1])`, or `None` outside the shape.
    pub fn get_elem_ref(&self, id: [usize; 2]) -> (r: Option<&T>)
        requires
            self.wf(),
        ensures
            r is Some <==> self.in_shape(id[0] as int, id[1] as int),
            r matches Some(x) ==> *x == self.at(id[0] as int, id[1] as int),
    {
        let rid = id[0];
        let cid = id[1];
        if rid >= self.nrows() || cid >= self.ncols() {
            None
        } else {
            let k = self.offset_of(rid, cid);
            Some(&self.data.d[k])
        }
    }
}

impl<T: Copy> Matrix<T> {
    /// Element `(rid, cid)`.
    pub fn get(&self, rid: usize, cid: usize) -> (res: Result<T, MatError>)
        requires
            self.wf(),
        ensures
            res is Ok <==> self.in_shape(rid as int, cid as int),
            match res {
                Ok(v) => v == self.at(rid as int, cid as int),
                Err(e) => e == MatError::IndexOutOfBounds,
            },
    {
        match self.index(rid, cid) {
            Ok(k) => Ok(self.data.d[k]),
            Err(e) => Err(e),
        }
    }

    /// A mutable reference to element `(idx[0], idx[1])`, which must lie
    /// inside the shape.
    pub fn uget_mut(&mut self, idx: [usize; 2]) -> (r: &mut T)
        requires
            old(self).wf(),
            old(self).in_shape(idx[0] as int, idx[1] as int),
        ensures
            *r == old(self).at(idx[0] as int, idx[1] as int),
            final(self).wf(),
            final(self).spec_nrows() == old(self).spec_nrows(),
            final(self).spec_ncols() == old(self).spec_ncols(),
            final(self).mode() == old(self).mode(),
            final(self).at(idx[0] as int, idx[1] as int) == *final(r),
            forall|i: int, j: int|
                old(self).in_shape(i, j) && (i != idx[0] || j != idx[1])
                    ==> #[trigger] final(self).at(i, j) == old(self).at(i, j),
    {
        let ghost pre = *self;
        let k = self.offset_of(idx[0], idx[1]);
        proof {
            assert forall|i: int, j: int|
                pre.in_shape(i, j) && (i != idx[0] || j != idx[1]) implies pre.offset(i, j) != k
                && 0 <= #[trigger] pre.offset(i, j) < pre.buffer().len() by {
                pre.lemma_offset_distinct(i, j, idx[0] as int, idx[1] as int);
                pre.lemma_offset_bound(i, j);
            }
        }
        &mut self.data.d[k]
    }

    /// Writes `val` at `(rid, cid)`; outside the shape nothing changes.
    pub fn set(&mut self, rid: usize, cid: usize, val: T) -> (res: Result<(), MatError>)
        requires
            old(self).wf(),
        ensures
            final(self).wf(),
            res is Ok <==> old(self).in_shape(rid as int, cid as int),
            final(self).spec_nrows() == old(self).spec_nrows(),
            final(self).spec_ncols() == old(self).spec_ncols(),
            final(self).mode() == old(self).mode(),
            match res {
                Ok(_) => {
                    &&& final(self).at(rid as int, cid as int) == val
                    &&& forall|i: int, j: int|
                        old(self).in_shape(i, j) && (i != rid || j != cid)
                            ==> #[trigger] final(self).at(i, j) == old(self).at(i, j)
                },
                Err(e) => e == MatError::IndexOutOfBounds && *final(self) == *old(self),
            },
    {
        match self.index(rid, cid) {
            Ok(k) => {
                let ghost pre = *self;
                self.data.d.set(k, val);
                proof {
                    assert forall|i: int, j: int|
                        pre.in_shape(i, j) && (i != rid || j != cid) implies #[trigger] self.at(
                            i,
                            j,
                        ) == pre.at(i, j) by {
                        pre.lemma_offset_distinct(i, j, rid as int, cid as int);
                        pre.lemma_offset_bound(i, j);
                    }
                }
                Ok(())
            },
            Err(e) => Err(e),
        }
    }
}


impl<T: Copy> Matrix<T> {
    /// The transpose, in a fresh buffer held in the other storage order.
    ///
    /// The new buffer is the old matrix read in its own storage order, so
    /// that the flipped order reads it back transposed.
    pub fn transpose(&self) -> (m: Matrix<T>)
        requires
            self.wf(),
        ensures
            m.wf(),
            m.is_transpose_of(*self),
            m.mode() == self.mode().flipped(),
    {
        let nr = self.nrows();
        let nc = self.ncols();
        let n = self.get_size();
        let mut d: Vec<T> = Vec::new();
        let mut k: usize = 0;
        match self.axis {
            Axes::Row => {
                while k < n
                    invariant
                        self.wf(),
                        n == nr * nc,
                        nr == self.spec_nrows(),
                        nc == self.spec_ncols(),
                        k <= n,
                        d@.len() == k,
                        forall|k2: int|
                            0 <= k2 < k ==> #[trigger] d@[k2] == self.at(
                                k2 / nc as int,
                                k2 % nc as int,
                            ),
                    decreases n - k,
                {
                    proof {
                        lemma_flat_split(k as int, nr as int, nc as int);
                    }
                    let v = self.data.d[self.offset_of(k / nc, k % nc)];
                    d.push(v);
                    k += 1;
                }
            },
            Axes::Column => {
                while k < n
                    invariant
                        self.wf(),
                        n == nr * nc,
                        nr == self.spec_nrows(),
                        nc == self.spec_ncols(),
                        k <= n,
                        d@.len() == k,
                        forall|k2: int|
                            0 <= k2 < k ==> #[trigger] d@[k2] == self.at(
                                k2 % nr as int,
                                k2 / nr as int,
                            ),
                    decreases n - k,
                {
                    proof {
                        assert(k < nc * nr) by (nonlinear_arith)
                            requires
                                k < n,
                                n == nr * nc,
                        ;
                        lemma_flat_split(k as int, nc as int, nr as int);
                    }
                    let v = self.data.d[self.offset_of(k % nr, k / nr)];
                    d.push(v);
                    k += 1;
                }
            },
        }
        proof {
            assert(n == nc * nr) by (nonlinear_arith)
                requires
                    n == nr * nc,
            ;
        }
        let m = Matrix { data: MatData { r: nc, c: nr, d }, vdim: Dim::full(nc, nr), axis: self.axis.t() };
        proof {
            assert forall|i: int, j: int| m.in_shape(i, j) implies #[trigger] m.at(i, j) == self.at(
                j,
                i,
            ) by {
                match self.axis {
                    Axes::Row => {
                        lemma_flat_unique(j, i, nc as int);
                        lemma_flat_bound(j, i, nr as int, nc as int);
                    },
                    Axes::Column => {
                        lemma_flat_unique(i, j, nr as int);
                        lemma_flat_bound(i, j, nc as int, nr as int);
                    },
                }
            }
        }
        m
    }

    /// The same transpose.
    pub fn t(&self) -> (m: Matrix<T>)
        requires
            self.wf(),
        ensures
            m.wf(),
            m.is_transpose_of(*self),
            m.mode() == self.mode().flipped(),
    {
        self.transpose()
    }

    /// A row-major `nrow` by `ncol` matrix over `data`, read row by row.
    pub fn from_vec(data: Vec<T>, nrow: usize, ncol: usize) -> (res: Result<Matrix<T>, MatError>)
        ensures
            res is Ok <==> data@.len() == nrow * ncol,
            match res {
                Ok(m) => {
                    &&& m.wf()
                    &&& m.spec_nrows() == nrow
                    &&& m.spec_ncols() == ncol
                    &&& m.mode() == Axes::Row
                    &&& forall|i: int, j: int|
                        m.in_shape(i, j) ==> #[trigger] m.at(i, j) == data@[i * ncol + j]
                },
                Err(e) => e == MatError::DimensionMismatch,
            },
    {
        let len = data.len();
        match nrow.checked_mul(ncol) {
            Some(n) => {
                if n == len {
                    Ok(Matrix { data: MatData { r: nrow, c: ncol, d: data }, vdim: Dim::full(nrow, ncol), axis: Axes::Row })
                } else {
                    Err(MatError::DimensionMismatch)
                }
            },
            None => Err(MatError::DimensionMismatch),
        }
    }

    /// A row-major `nrow` by `ncol` matrix whose element `(i, j)` is `f(i, j)`;
    /// `f` is called in row-major order.
    pub fn from_fn<F: Fn(usize, usize) -> T>(nrow: usize, ncol: usize, f: F) -> (m: Matrix<T>)
        requires
            nrow * ncol <= usize::MAX,
            forall|i: usize, j: usize| i < nrow && j < ncol ==> #[trigger] f.requires((i, j)),
        ensures
            m.wf(),
            m.spec_nrows() == nrow,
            m.spec_ncols() == ncol,
            m.mode() == Axes::Row,
            forall|i: int, j: int|
                m.in_shape(i, j) ==> f.ensures((i as usize, j as usize), #[trigger] m.at(i, j)),
    {
        let n = nrow * ncol;
        let mut d: Vec<T> = Vec::new();
        let mut k: usize = 0;
        while k < n
            invariant
                n == nrow * ncol,
                k <= n,
                d@.len() == k,
                forall|i: usize, j: usize| i < nrow && j < ncol ==> #[trigger] f.requires((i, j)),
                forall|k2: int|
                    0 <= k2 < k ==> f.ensures(
                        ((k2 / ncol as int) as usize, (k2 % ncol as int) as usize),
                        #[trigger] d@[k2],
                    ),
            decreases n - k,
        {
            proof {
                lemma_flat_split(k as int, nrow as int, ncol as int);
            }
            let v = f(k / ncol, k % ncol);
            d.push(v);
            k += 1;
        }
        let m = Matrix { data: MatData { r: nrow, c: ncol, d }, vdim: Dim::full(nrow, ncol), axis: Axes::Row };
        proof {
            assert forall|i: int, j: int| m.in_shape(i, j) implies f.ensures(
                (i as usize, j as usize),
                #[trigger] m.at(i, j),
            ) by {
                lemma_flat_unique(i, j, ncol as int);
                lemma_flat_bound(i, j, nrow as int, ncol as int);
            }
        }
        m
    }

    /// A row-major `nrow` by `ncol` matrix with `v` everywhere.
    fn filled(nrow: usize, ncol: usize, v: T) -> (m: Matrix<T>)
        requires
            nrow * ncol <= usize::MAX,
        ensures
            m.wf(),
            m.spec_nrows() == nrow,
            m.spec_ncols() == ncol,
            m.mode() == Axes::Row,
            forall|i: int, j: int| m.in_shape(i, j) ==> #[trigger] m.at(i, j) == v,
    {
        let n = nrow * ncol;
        let mut d: Vec<T> = Vec::new();
        let mut k: usize = 0;
        while k < n
            invariant
                k <= n,
                d@.len() == k,
                forall|k2: int| 0 <= k2 < k ==> #[trigger] d@[k2] == v,
            decreases n - k,
        {
            d.push(v);
            k += 1;
        }
        let m = Matrix { data: MatData { r: nrow, c: ncol, d }, vdim: Dim::full(nrow, ncol), axis: Axes::Row };
        proof {
            m.lemma_all_offsets();
        }
        m
    }
}

impl<T: Scalar> Matrix<T> {
    /// An `nrow` by `ncol` matrix of ones.
    pub fn unit(nrow: usize, ncol: usize) -> (m: Matrix<T>)
        requires
            nrow * ncol <= usize::MAX,
        ensures
            m.wf(),
            m.spec_nrows() == nrow,
            m.spec_ncols() == ncol,
            forall|i: int, j: int| m.in_shape(i, j) ==> #[trigger] m.at(i, j) == T::one_value(),
    {
        Self::filled(nrow, ncol, T::one())
    }

    /// An `nrow` by `ncol` matrix of zeros.
    pub fn zero(nrow: usize, ncol: usize) -> (m: Matrix<T>)
        requires
            nrow * ncol <= usize::MAX,
        ensures
            m.wf(),
            m.spec_nrows() == nrow,
            m.spec_ncols() == ncol,
            forall|i: int, j: int| m.in_shape(i, j) ==> #[trigger] m.at(i, j) == T::zero_value(),
    {
        Self::filled(nrow, ncol, T::zero())
    }

    /// The square matrix with `vec` on its main diagonal and zeros elsewhere.
    pub fn diag(vec: &Vec<T>) -> (m: Matrix<T>)
        requires
            vec@.len() * vec@.len() <= usize::MAX,
        ensures
            m.wf(),
            m.spec_nrows() == vec@.len(),
            m.spec_ncols() == vec@.len(),
            forall|i: int, j: int|
                m.in_shape(i, j) ==> #[trigger] m.at(i, j) == if i == j {
                    vec@[i]
                } else {
                    T::zero_value()
                },
    {
        let n = vec.len();
        let mut mat = Self::zero(n, n);
        let mut k: usize = 0;
        while k < n
            invariant
                mat.wf(),
                n == vec@.len(),
                mat.spec_nrows() == n,
                mat.spec_ncols() == n,
                k <= n,
                forall|i: int, j: int|
                    mat.in_shape(i, j) ==> #[trigger] mat.at(i, j) == if i == j && i < k {
                        vec@[i]
                    } else {
                        T::zero_value()
                    },
            decreases n - k,
        {
            let _ = mat.set(k, k, vec[k]);
            k += 1;
        }
        mat
    }

    /// The `n` by `n` identity matrix.
    pub fn eye(n: usize) -> (m: Matrix<T>)
        requires
            n * n <= usize::MAX,
        ensures
            m.wf(),
            m.spec_nrows() == n,
            m.spec_ncols() == n,
            forall|i: int, j: int|
                m.in_shape(i, j) ==> #[trigger] m.at(i, j) == if i == j {
                    T::one_value()
                } else {
                    T::zero_value()
                },
    {
        let mut ones: Vec<T> = Vec::new();
        let mut k: usize = 0;
        while k < n
            invariant
                k <= n,
                ones@.len() == k,
                forall|k2: int| 0 <= k2 < k ==> #[trigger] ones@[k2] == T::one_value(),
            decreases n - k,
        {
            ones.push(T::one());
            k += 1;
        }
        Self::diag(&ones)
    }
}

/// Shape queries and transpose, shared by the matrix types.
pub trait Features: Sized {
    spec fn well_formed(&self) -> bool;

    fn shape(&self) -> (usize, usize)
        requires
            self.well_formed(),
    ;

    fn size(&self) -> usize
        requires
            self.well_formed(),
    ;

    fn mindim(&self) -> usize
        requires
            self.well_formed(),
    ;

    fn is_vec(&self) -> bool
        requires
            self.well_formed(),
    ;

    fn is_rvec(&self) -> bool
        requires
            self.well_formed(),
    ;

    fn is_cvec(&self) -> bool
        requires
            self.well_formed(),
    ;

    fn transpose(&self) -> (r: Self)
        requires
            self.well_formed(),
        ensures
            r.well_formed(),
    ;

    fn t(&self) -> (r: Self)
        requires
            self.well_formed(),
        ensures
            r.well_formed(),
    ;
}

impl<T: Copy> Features for Matrix<T> {
    open spec fn well_formed(&self) -> bool {
        self.wf()
    }

    fn shape(&self) -> (s: (usize, usize))
        ensures
            s == (self.spec_nrows() as usize, self.spec_ncols() as usize),
    {
        self.get_shape()
    }

    fn size(&self) -> (n: usize)
        ensures
            n == self.spec_nrows() * self.spec_ncols(),
    {
        self.get_size()
    }

    fn mindim(&self) -> (n: usize)
        ensures
            n == if self.spec_nrows() <= self.spec_ncols() {
                self.spec_nrows()
            } else {
                self.spec_ncols()
            },
    {
        let nr = self.nrows();
        let nc = self.ncols();
        if nr <= nc {
            nr
        } else {
            nc
        }
    }

    /// True when one of the dimensions is zero.
    fn is_vec(&self) -> (b: bool)
        ensures
            b == (self.spec_nrows() == 0 || self.spec_ncols() == 0),
    {
        self.nrows() == 0 || self.ncols() == 0
    }

    fn is_rvec(&self) -> (b: bool)
        ensures
            b == (self.spec_nrows() == 1),
    {
        self.nrows() == 1
    }

    fn is_cvec(&self) -> (b: bool)
        ensures
            b == (self.spec_ncols() == 1),
    {
        self.ncols() == 1
    }

    fn transpose(&self) -> (m: Matrix<T>)
        ensures
            m.is_transpose_of(*self),
            m.mode() == self.mode().flipped(),
    {
        Matrix::transpose(self)
    }

    fn t(&self) -> (m: Matrix<T>)
        ensures
            m.is_transpose_of(*self),
            m.mode() == self.mode().flipped(),
    {
        Matrix::transpose(self)
    }
}


/// Walks a matrix it owns in row-major order, whatever its storage order.
pub struct MatIntoIterator<T> {
    mat: Matrix<T>,
    pos: usize,
}

impl<T> MatIntoIterator<T> {
    pub closed spec fn source(&self) -> Matrix<T> {
        self.mat
    }

    /// Row-major position of the next element.
    pub closed spec fn position(&self) -> nat {
        self.pos as nat
    }

    pub closed spec fn wf(&self) -> bool {
        &&& self.mat.wf()
        &&& self.pos <= self.mat.spec_nrows() * self.mat.spec_ncols()
    }
}

impl<T: Copy> MatIntoIterator<T> {
    /// The next element in row-major order, or `None` once all are out.
    pub fn next(&mut self) -> (r: Option<T>)
        requires
            old(self).wf(),
        ensures
            final(self).wf(),
            final(self).source() == old(self).source(),
            old(self).position() < old(self).source().row_major().len() ==> {
                &&& r == Some(old(self).source().row_major()[old(self).position() as int])
                &&& final(self).position() == old(self).position() + 1
            },
            old(self).position() >= old(self).source().row_major().len() ==> {
                &&& r is None
                &&& final(self).position() == old(self).position()
            },
    {
        let n = self.mat.get_size();
        if self.pos < n {
            let nc = self.mat.ncols();
            proof {
                lemma_flat_split(self.pos as int, self.mat.spec_nrows() as int, nc as int);
            }
            let k = self.mat.offset_of(self.pos / nc, self.pos % nc);
            let v = self.mat.data.d[k];
            self.pos = self.pos + 1;
            Some(v)
        } else {
            None
        }
    }
}

impl<T> Matrix<T> {
    /// Hands the matrix to an iterator that starts at its first element.
    pub fn into_iter(self) -> (it: MatIntoIterator<T>)
        requires
            self.wf(),
        ensures
            it.wf(),
            it.source() == self,
            it.position() == 0,
    {
        MatIntoIterator { mat: self, pos: 0 }
    }
}

impl<T: Copy> Matrix<T> {
    /// The elements in row-major order.
    pub fn elements(&self) -> (v: Vec<T>)
        requires
            self.wf(),
        ensures
            v@ == self.row_major(),
    {
        let n = self.get_size();
        let nr = self.nrows();
        let nc = self.ncols();
        let mut v: Vec<T> = Vec::new();
        let mut k: usize = 0;
        while k < n
            invariant
                self.wf(),
                n == nr * nc,
                nr == self.spec_nrows(),
                nc == self.spec_ncols(),
                k <= n,
                v@.len() == k,
                forall|k2: int| 0 <= k2 < k ==> #[trigger] v@[k2] == self.row_major()[k2],
            decreases n - k,
        {
            proof {
                lemma_flat_split(k as int, nr as int, nc as int);
            }
            let x = self.data.d[self.offset_of(k / nc, k % nc)];
            v.push(x);
            k += 1;
        }
        proof {
            assert(v@ =~= self.row_major());
        }
        v
    }
}


/// Transposing twice gives back the matrix: the shape and every element.
pub proof fn lemma_transpose_twice<T>(m: Matrix<T>, t: Matrix<T>, tt: Matrix<T>)
    requires
        t.is_transpose_of(m),
        tt.is_transpose_of(t),
    ensures
        tt.same_as(m),
{
    assert forall|i: int, j: int| tt.in_shape(i, j) implies #[trigger] tt.at(i, j) == m.at(i, j) by {
        assert(tt.at(i, j) == t.at(j, i));
        assert(t.at(j, i) == m.at(i, j));
    }
}

} // verus!
