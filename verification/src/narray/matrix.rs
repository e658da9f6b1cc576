use vstd::prelude::*;
use crate::narray::errors::NErrors;
use crate::narray::scalar::Scalar;
use crate::narray::vector::{
    dot_product, elementwise_difference, elementwise_sum, scaled, zeros, NVector,
};

verus! {

/// What a matrix is, mathematically: its two dimensions and its cells in
/// row-major order, so that row `r` occupies the positions from `r * cols`
/// up to, but not including, `r * cols + cols`.
pub struct Grid<T> {
    pub rows: nat,
    pub cols: nat,
    pub cells: Seq<T>,
}

impl<T> Grid<T> {
    /// There are exactly `rows * cols` cells.
    pub open spec fn wf(self) -> bool {
        self.cells.len() == self.rows * self.cols
    }

    /// Whether `(r, c)` names a cell.
    pub open spec fn has(self, r: int, c: int) -> bool {
        0 <= r < self.rows && 0 <= c < self.cols
    }

    /// The cell in row `r` and column `c`.
    pub open spec fn at(self, r: int, c: int) -> T {
        self.cells[r * self.cols + c]
    }

    /// Row `r`, from its first column to its last.
    pub open spec fn row(self, r: int) -> Seq<T> {
        Seq::new(self.cols, |c: int| self.at(r, c))
    }

    /// Column `c`, from its first row to its last.
    pub open spec fn col(self, c: int) -> Seq<T> {
        Seq::new(self.rows, |r: int| self.at(r, c))
    }

    /// The grid with rows and columns exchanged: its cell `(c, r)` is the
    /// cell `(r, c)` of `self`.
    pub open spec fn transpose(self) -> Grid<T> {
        Grid {
            rows: self.cols,
            cols: self.rows,
            cells: Seq::new(
                self.cols * self.rows,
                |k: int| self.at(k % (self.rows as int), k / (self.rows as int)),
            ),
        }
    }
}

impl<T: Scalar> Grid<T> {
    /// The cellwise sum with a grid of the same dimensions.
    pub open spec fn plus(self, rhs: Grid<T>) -> Grid<T> {
        Grid { rows: self.rows, cols: self.cols, cells: elementwise_sum(self.cells, rhs.cells) }
    }

    /// The cellwise difference with a grid of the same dimensions.
    pub open spec fn minus(self, rhs: Grid<T>) -> Grid<T> {
        Grid {
            rows: self.rows,
            cols: self.cols,
            cells: elementwise_difference(self.cells, rhs.cells),
        }
    }

    /// Every cell multiplied by `k`.
    pub open spec fn times(self, k: T) -> Grid<T> {
        Grid { rows: self.rows, cols: self.cols, cells: scaled(self.cells, k) }
    }

    /// The matrix product with `rhs`: the cell `(i, j)` is the dot product of
    /// row `i` of `self` with column `j` of `rhs`.
    pub open spec fn product(self, rhs: Grid<T>) -> Grid<T> {
        Grid {
            rows: self.rows,
            cols: rhs.cols,
            cells: Seq::new(
                self.rows * rhs.cols,
                |k: int|
                    dot_product(self.row(k / (rhs.cols as int)), rhs.col(k % (rhs.cols as int))),
            ),
        }
    }

    /// The product with a column vector: element `i` is the dot product of
    /// row `i` with `v`.
    pub open spec fn apply(self, v: Seq<T>) -> Seq<T> {
        Seq::new(self.rows, |r: int| dot_product(self.row(r), v))
    }
}

/// The outer product of `u` and `v`: the grid with one row per element of
/// `u` and one column per element of `v`, whose cell `(i, j)` is
/// `u[i] * v[j]`.
pub open spec fn outer_product<T: Scalar>(u: Seq<T>, v: Seq<T>) -> Grid<T> {
    Grid {
        rows: u.len(),
        cols: v.len(),
        cells: Seq::new(
            u.len() * v.len(),
            |k: int| u[k / (v.len() as int)].mul_spec(v[k % (v.len() as int)]),
        ),
    }
}

/// The position of a cell in row-major storage lies inside the storage.
pub proof fn lemma_cell_in_range(rows: nat, cols: nat, r: int, c: int)
    requires
        0 <= r < rows,
        0 <= c < cols,
    ensures
        0 <= r * cols + c < rows * cols,
        (r * cols + c) / (cols as int) == r,
        (r * cols + c) % (cols as int) == c,
{
    assert(r * cols + c < rows * cols) by (nonlinear_arith)
        requires
            0 <= r < rows,
            0 <= c < cols,
    ;
    assert(0 <= r * cols) by (nonlinear_arith)
        requires
            0 <= r,
            0 <= cols,
    ;
    vstd::arithmetic::div_mod::lemma_fundamental_div_mod_converse(
        r * cols + c,
        cols as int,
        r,
        c,
    );
}

/// A position in row-major storage names exactly one cell.
pub proof fn lemma_position_is_cell(rows: nat, cols: nat, k: int)
    requires
        0 <= k < rows * cols,
    ensures
        cols > 0,
        0 <= k / (cols as int) < rows,
        0 <= k % (cols as int) < cols,
        k == (k / (cols as int)) * cols + k % (cols as int),
{
    assert(cols > 0) by (nonlinear_arith)
        requires
            0 <= k < rows * cols,
    ;
    vstd::arithmetic::div_mod::lemma_fundamental_div_mod(k, cols as int);
    let q = k / (cols as int);
    let m = k % (cols as int);
    assert(0 <= q < rows) by (nonlinear_arith)
        requires
            k == (cols as int) * q + m,
            0 <= m < cols,
            0 <= k < rows * cols,
    ;
    assert(q * cols == (cols as int) * q) by (nonlinear_arith);
}

/// Two well-formed grids of the same dimensions with the same cell at every
/// place are the same grid.
pub proof fn lemma_grid_ext<T>(a: Grid<T>, b: Grid<T>)
    requires
        a.wf(),
        b.wf(),
        a.rows == b.rows,
        a.cols == b.cols,
        forall|r: int, c: int| a.has(r, c) ==> a.at(r, c) == b.at(r, c),
    ensures
        a == b,
{
    assert forall|k: int| 0 <= k < a.cells.len() implies a.cells[k] == b.cells[k] by {
        lemma_position_is_cell(a.rows, a.cols, k);
        let r = k / (a.cols as int);
        let c = k % (a.cols as int);
        assert(a.has(r, c));
        assert(a.at(r, c) == b.at(r, c));
    }
    assert(a.cells =~= b.cells);
}

/// A dense matrix of scalars in row-major storage. Its view is a [`Grid`].
#[derive(Debug, PartialEq)]
pub struct NMatrix<T: Scalar> {
    data: Vec<T>,
    rows: usize,
    cols: usize,
}

/// The direction in which a matrix is walked.
#[derive(Debug, Clone, Copy, PartialEq, Eq, Structural)]
pub enum NMatrixAxis {
    ROW,
    COL,
}

impl<T: Scalar> View for NMatrix<T> {
    type V = Grid<T>;

    closed spec fn view(&self) -> Grid<T> {
        Grid { rows: self.rows as nat, cols: self.cols as nat, cells: self.data@ }
    }
}

impl<T: Scalar> Clone for NMatrix<T> {
    fn clone(&self) -> (r: Self)
        ensures
            r@ == self@,
    {
        proof {
            use_type_invariant(self);
        }
        let n = self.data.len();
        let mut copy: Vec<T> = Vec::with_capacity(n);
        let mut i: usize = 0;
        while i < n
            invariant
                i <= n,
                n == self.data@.len(),
                copy@ == self.data@.take(i as int),
            decreases n - i,
        {
            copy.push(self.data[i]);
            proof {
                assert(copy@ =~= self.data@.take(i + 1));
            }
            i = i + 1;
        }
        proof {
            assert(self.data@.take(i as int) =~= self.data@);
        }
        NMatrix { data: copy, rows: self.rows, cols: self.cols }
    }
}

impl<T: Scalar> NMatrix<T> {
    #[verifier::type_invariant]
    pub(crate) open spec fn shape_matches(self) -> bool {
        self@.wf()
    }

    /// A `rows` by `cols` matrix of zeros.
    pub fn new(rows: usize, cols: usize) -> (r: NMatrix<T>)
        ensures
            r@ == (Grid {
                rows: rows as nat,
                cols: cols as nat,
                cells: zeros::<T>((rows * cols) as nat),
            }),
    {
        let mut data: Vec<T> = Vec::new();
        // Without columns there are no cells, however many rows there are.
        let mut i: usize = if cols == 0 {
            rows
        } else {
            0
        };
        proof {
            assert(cols == 0 ==> rows * cols == 0) by (nonlinear_arith);
            assert(data@ =~= zeros::<T>((i * cols) as nat));
        }
        while i < rows
            invariant
                i <= rows,
                data@ == zeros::<T>((i * cols) as nat),
            decreases rows - i,
        {
            let mut j: usize = 0;
            while j < cols
                invariant
                    j <= cols,
                    i < rows,
                    data@ == zeros::<T>((i * cols + j) as nat),
                decreases cols - j,
            {
                data.push(T::zero());
                proof {
                    assert(data@ =~= zeros::<T>((i * cols + j + 1) as nat));
                }
                j = j + 1;
            }
            proof {
                assert((i + 1) * cols == i * cols + cols) by (nonlinear_arith);
            }
            i = i + 1;
        }
        NMatrix { data, rows, cols }
    }

    /// The `rows` by `cols` matrix whose cells are `data`, read row by row.
    /// `ShapeMismatch` unless `data` holds exactly `rows * cols` elements.
    pub fn new_init(rows: usize, cols: usize, data: Vec<T>) -> (r: Result<NMatrix<T>, NErrors>)
        ensures
            data@.len() == rows * cols ==> (r matches Ok(m) && m@ == (Grid {
                rows: rows as nat,
                cols: cols as nat,
                cells: data@,
            })),
            data@.len() != rows * cols ==> r matches Err(NErrors::ShapeMismatch),
    {
        let length = data.len();
        match rows.checked_mul(cols) {
            Some(n) => {
                if length == n {
                    Ok(NMatrix { data, rows, cols })
                } else {
                    Err(NErrors::ShapeMismatch)
                }
            },
            None => Err(NErrors::ShapeMismatch),
        }
    }

    /// The number of rows.
    pub fn rows(&self) -> (r: usize)
        ensures
            r == self@.rows,
    {
        self.rows
    }

    /// The number of columns.
    pub fn cols(&self) -> (r: usize)
        ensures
            r == self@.cols,
    {
        self.cols
    }

    /// The cells in row-major order.
    pub fn data(&self) -> (r: &Vec<T>)
        ensures
            r@ == self@.cells,
            self@.wf(),
    {
        proof {
            use_type_invariant(self);
        }
        &self.data
    }

    /// Whether `self` and `rhs` have the same number of rows and the same
    /// number of columns.
    pub fn compare_dimensions(&self, rhs: &NMatrix<T>) -> (r: bool)
        ensures
            r == (self@.rows == rhs@.rows && self@.cols == rhs@.cols),
    {
        self.cols == rhs.cols && self.rows == rhs.rows
    }

    /// The cell in row `row` and column `col`, or `None` where there is no
    /// such cell.
    pub fn get(&self, row: usize, col: usize) -> (r: Option<T>)
        ensures
            r == (if self@.has(row as int, col as int) {
                Some(self@.at(row as int, col as int))
            } else {
                None
            }),
    {
        proof {
            use_type_invariant(self);
        }
        let length = self.data.len();
        if row >= self.rows || col >= self.cols {
            return None;
        }
        proof {
            assert(length == self.rows * self.cols);
            lemma_cell_in_range(self.rows as nat, self.cols as nat, row as int, col as int);
        }
        Some(self.data[row * self.cols + col])
    }

    /// Replaces the cell in row `row` and column `col` by `val`. Where there
    /// is no such cell nothing is written and `IndexError` comes back.
    pub fn set(&mut self, row: usize, col: usize, val: T) -> (r: Result<(), NErrors>)
        ensures
            final(self)@.rows == old(self)@.rows,
            final(self)@.cols == old(self)@.cols,
            old(self)@.has(row as int, col as int) ==> r == Ok::<(), NErrors>(())
                && final(self)@.cells == old(self)@.cells.update(row * old(self)@.cols + col, val),
            !old(self)@.has(row as int, col as int) ==> r == Err::<(), NErrors>(NErrors::IndexError)
                && final(self)@ == old(self)@,
    {
        proof {
            use_type_invariant(&*self);
        }
        let length = self.data.len();
        if row >= self.rows || col >= self.cols {
            return Err(NErrors::IndexError);
        }
        proof {
            assert(length == self.rows * self.cols);
            lemma_cell_in_range(self.rows as nat, self.cols as nat, row as int, col as int);
        }
        let position = row * self.cols + col;
        self.data[position] = val;
        Ok(())
    }

    /// The elements of row `r`, copied out.
    fn row_items(&self, r: usize) -> (v: Vec<T>)
        requires
            r < self@.rows,
        ensures
            v@ == self@.row(r as int),
    {
        proof {
            use_type_invariant(self);
        }
        let length = self.data.len();
        let mut v: Vec<T> = Vec::with_capacity(self.cols);
        let mut c: usize = 0;
        while c < self.cols
            invariant
                c <= self.cols,
                r < self.rows,
                length == self.data@.len(),
                length == self.rows * self.cols,
                v@ == self@.row(r as int).take(c as int),
            decreases self.cols - c,
        {
            proof {
                lemma_cell_in_range(self.rows as nat, self.cols as nat, r as int, c as int);
            }
            v.push(self.data[r * self.cols + c]);
            proof {
                assert(v@ =~= self@.row(r as int).take(c + 1));
            }
            c = c + 1;
        }
        proof {
            assert(v@ =~= self@.row(r as int));
        }
        v
    }

    /// The elements of column `c`, copied out.
    fn col_items(&self, c: usize) -> (v: Vec<T>)
        requires
            c < self@.cols,
        ensures
            v@ == self@.col(c as int),
    {
        proof {
            use_type_invariant(self);
        }
        let length = self.data.len();
        let mut v: Vec<T> = Vec::with_capacity(self.rows);
        let mut r: usize = 0;
        while r < self.rows
            invariant
                r <= self.rows,
                c < self.cols,
                length == self.data@.len(),
                length == self.rows * self.cols,
                v@ == self@.col(c as int).take(r as int),
            decreases self.rows - r,
        {
            proof {
                lemma_cell_in_range(self.rows as nat, self.cols as nat, r as int, c as int);
            }
            v.push(self.data[r * self.cols + c]);
            proof {
                assert(v@ =~= self@.col(c as int).take(r + 1));
            }
            r = r + 1;
        }
        proof {
            assert(v@ =~= self@.col(c as int));
        }
        v
    }

    /// A copy of row `i`, or `IndexError` where the matrix has no such row.
    pub fn row(&self, i: usize) -> (r: Result<Vec<T>, NErrors>)
        ensures
            i < self@.rows ==> (r matches Ok(v) && v@ == self@.row(i as int)),
            i >= self@.rows ==> r matches Err(NErrors::IndexError),
    {
        if i >= self.rows {
            return Err(NErrors::IndexError);
        }
        Ok(self.row_items(i))
    }

    /// A copy of column `j`, or `IndexError` where the matrix has no such
    /// column.
    pub fn col(&self, j: usize) -> (r: Result<Vec<T>, NErrors>)
        ensures
            j < self@.cols ==> (r matches Ok(v) && v@ == self@.col(j as int)),
            j >= self@.cols ==> r matches Err(NErrors::IndexError),
    {
        if j >= self.cols {
            return Err(NErrors::IndexError);
        }
        Ok(self.col_items(j))
    }

    /// A cursor that hands out the rows, or the columns, one after the
    /// other, starting with the first.
    pub fn by_iter<'a>(&'a self, axis: NMatrixAxis) -> (it: NMatrixAxisIter<'a, T>)
        ensures
            it.grid() == self@,
            it.along_rows() == (axis == NMatrixAxis::ROW),
            it.position() == 0,
            self@.wf(),
    {
        proof {
            use_type_invariant(self);
        }
        NMatrixAxisIter { axis, matrix: self, index: 0 }
    }
}

/// A single pass over the rows or over the columns of a matrix. Each item is
/// a fresh copy; the matrix is left as it is.
pub struct NMatrixAxisIter<'a, T: Scalar> {
    matrix: &'a NMatrix<T>,
    axis: NMatrixAxis,
    index: usize,
}

impl<'a, T: Scalar> NMatrixAxisIter<'a, T> {
    /// The matrix that is walked.
    pub closed spec fn grid(&self) -> Grid<T> {
        self.matrix@
    }

    /// Whether the items are rows (else they are columns).
    pub closed spec fn along_rows(&self) -> bool {
        self.axis == NMatrixAxis::ROW
    }

    /// How many items have been handed out.
    pub closed spec fn position(&self) -> nat {
        self.index as nat
    }

    /// How many items there are in all.
    pub open spec fn limit(&self) -> nat {
        if self.along_rows() {
            self.grid().rows
        } else {
            self.grid().cols
        }
    }

    /// The item with number `i`.
    pub open spec fn item(&self, i: int) -> Seq<T> {
        if self.along_rows() {
            self.grid().row(i)
        } else {
            self.grid().col(i)
        }
    }

    /// The next row or column, or `None` once all have been handed out.
    pub fn next(&mut self) -> (r: Option<Vec<T>>)
        ensures
            final(self).grid() == old(self).grid(),
            final(self).along_rows() == old(self).along_rows(),
            old(self).position() < old(self).limit() ==> (r matches Some(v) && v@ == old(self).item(
                old(self).position() as int,
            )) && final(self).position() == old(self).position() + 1,
            old(self).position() >= old(self).limit() ==> r.is_none() && final(self).position()
                == old(self).position(),
    {
        match self.axis {
            NMatrixAxis::COL => {
                let current = self.index;
                if self.matrix.cols <= current {
                    return None;
                }
                let curr_vec = self.matrix.col_items(current);
                self.index = current + 1;
                Some(curr_vec)
            },
            NMatrixAxis::ROW => {
                let current = self.index;
                if self.matrix.rows <= current {
                    return None;
                }
                let curr_vec = self.matrix.row_items(current);
                self.index = current + 1;
                Some(curr_vec)
            },
        }
    }
}

impl<T: Scalar> NMatrix<T> {
    /// The matrix with rows and columns exchanged, put together from the
    /// columns of `self` in their order.
    pub fn transpose(&self) -> (r: NMatrix<T>)
        ensures
            r@ == self@.transpose(),
    {
        let mut res: Vec<T> = Vec::new();
        let mut columns = self.by_iter(NMatrixAxis::COL);
        let ghost source = self@;
        let ghost target = self@.transpose();
        loop
            invariant
                source == self@,
                target == source.transpose(),
                source.wf(),
                columns.grid() == source,
                !columns.along_rows(),
                columns.position() <= source.cols,
                res@.len() == columns.position() * source.rows,
                forall|k: int| 0 <= k < res@.len() ==> res@[k] == target.cells[k],
            ensures
                columns.position() == source.cols,
            decreases source.cols - columns.position(),
        {
            let ghost j = columns.position() as int;
            let ghost before = res@;
            match columns.next() {
                Some(mut column) => {
                    res.append(&mut column);
                    proof {
                        assert((j + 1) * source.rows == j * source.rows + source.rows)
                            by (nonlinear_arith);
                        assert forall|k: int| 0 <= k < res@.len() implies res@[k]
                            == target.cells[k] by {
                            if k >= before.len() {
                                let i = k - before.len();
                                lemma_cell_in_range(source.cols, source.rows, j, i);
                                assert(res@[k] == source.col(j)[i]);
                            }
                        }
                    }
                },
                None => {
                    break ;
                },
            }
        }
        proof {
            assert(res@ =~= target.cells);
        }
        NMatrix { data: res, rows: self.cols, cols: self.rows }
    }

    /// The cellwise sum with `rhs`, or `ShapeMismatch` where the dimensions
    /// differ.
    pub fn add(&self, rhs: &NMatrix<T>) -> (r: Result<NMatrix<T>, NErrors>)
        ensures
            self@.rows == rhs@.rows && self@.cols == rhs@.cols ==> (r matches Ok(m) && m@
                == self@.plus(rhs@)),
            self@.rows != rhs@.rows || self@.cols != rhs@.cols ==> r matches Err(
                NErrors::ShapeMismatch,
            ),
    {
        proof {
            use_type_invariant(self);
            use_type_invariant(rhs);
        }
        if !self.compare_dimensions(rhs) {
            return Err(NErrors::ShapeMismatch);
        }
        let n = self.data.len();
        let mut out: Vec<T> = Vec::with_capacity(n);
        let mut i: usize = 0;
        while i < n
            invariant
                i <= n,
                n == self.data@.len(),
                n == rhs.data@.len(),
                out@ == elementwise_sum(self.data@, rhs.data@).take(i as int),
            decreases n - i,
        {
            out.push(self.data[i].add(rhs.data[i]));
            proof {
                assert(out@ =~= elementwise_sum(self.data@, rhs.data@).take(i + 1));
            }
            i = i + 1;
        }
        proof {
            assert(out@ =~= elementwise_sum(self.data@, rhs.data@));
        }
        Ok(NMatrix { data: out, rows: self.rows, cols: self.cols })
    }

    /// The cellwise difference `self - rhs`, or `ShapeMismatch` where the
    /// dimensions differ.
    pub fn sub(&self, rhs: &NMatrix<T>) -> (r: Result<NMatrix<T>, NErrors>)
        ensures
            self@.rows == rhs@.rows && self@.cols == rhs@.cols ==> (r matches Ok(m) && m@
                == self@.minus(rhs@)),
            self@.rows != rhs@.rows || self@.cols != rhs@.cols ==> r matches Err(
                NErrors::ShapeMismatch,
            ),
    {
        proof {
            use_type_invariant(self);
            use_type_invariant(rhs);
        }
        if !self.compare_dimensions(rhs) {
            return Err(NErrors::ShapeMismatch);
        }
        let n = self.data.len();
        let mut out: Vec<T> = Vec::with_capacity(n);
        let mut i: usize = 0;
        while i < n
            invariant
                i <= n,
                n == self.data@.len(),
                n == rhs.data@.len(),
                out@ == elementwise_difference(self.data@, rhs.data@).take(i as int),
            decreases n - i,
        {
            out.push(self.data[i].sub(rhs.data[i]));
            proof {
                assert(out@ =~= elementwise_difference(self.data@, rhs.data@).take(i + 1));
            }
            i = i + 1;
        }
        proof {
            assert(out@ =~= elementwise_difference(self.data@, rhs.data@));
        }
        Ok(NMatrix { data: out, rows: self.rows, cols: self.cols })
    }

    /// Every cell multiplied by `k`.
    pub fn scale(&self, k: T) -> (r: NMatrix<T>)
        ensures
            r@ == self@.times(k),
    {
        proof {
            use_type_invariant(self);
        }
        let n = self.data.len();
        let mut out: Vec<T> = Vec::with_capacity(n);
        let mut i: usize = 0;
        while i < n
            invariant
                i <= n,
                n == self.data@.len(),
                out@ == scaled(self.data@, k).take(i as int),
            decreases n - i,
        {
            out.push(self.data[i].mul(k));
            proof {
                assert(out@ =~= scaled(self.data@, k).take(i + 1));
            }
            i = i + 1;
        }
        proof {
            assert(out@ =~= scaled(self.data@, k));
        }
        NMatrix { data: out, rows: self.rows, cols: self.cols }
    }

    /// The matrix product `self * rhs`, computed by taking each row of `self`
    /// against each column of `rhs`. `ShapeMismatch` unless `self` has as
    /// many columns as `rhs` has rows.
    pub fn mul(&self, rhs: &NMatrix<T>) -> (r: Result<NMatrix<T>, NErrors>)
        ensures
            self@.cols == rhs@.rows ==> (r matches Ok(m) && m@ == self@.product(rhs@)),
            self@.cols != rhs@.rows ==> r matches Err(NErrors::ShapeMismatch),
    {
        if self.cols != rhs.rows {
            return Err(NErrors::ShapeMismatch);
        }
        let mut res: Vec<T> = Vec::new();
        let ghost left = self@;
        let ghost right = rhs@;
        let ghost target = self@.product(rhs@);
        let mut left_rows = self.by_iter(NMatrixAxis::ROW);
        loop
            invariant
                left == self@,
                right == rhs@,
                target == left.product(right),
                left.cols == right.rows,
                left_rows.grid() == left,
                left_rows.along_rows(),
                left_rows.position() <= left.rows,
                res@.len() == left_rows.position() * right.cols,
                forall|k: int| 0 <= k < res@.len() ==> res@[k] == target.cells[k],
            ensures
                left_rows.position() == left.rows,
            decreases left.rows - left_rows.position(),
        {
            let ghost i = left_rows.position() as int;
            match left_rows.next() {
                Some(m1_row) => {
                    let v1 = NVector::new_init(m1_row);
                    let mut right_cols = rhs.by_iter(NMatrixAxis::COL);
                    loop
                        invariant
                            right == rhs@,
                            target == left.product(right),
                            left.cols == right.rows,
                            0 <= i < left.rows,
                            v1@ == left.row(i),
                            right_cols.grid() == right,
                            !right_cols.along_rows(),
                            right_cols.position() <= right.cols,
                            res@.len() == i * right.cols + right_cols.position(),
                            forall|k: int| 0 <= k < res@.len() ==> res@[k] == target.cells[k],
                        ensures
                            right_cols.position() == right.cols,
                        decreases right.cols - right_cols.position(),
                    {
                        let ghost j = right_cols.position() as int;
                        match right_cols.next() {
                            Some(m2_col) => {
                                let v2 = NVector::new_init(m2_col);
                                let vdot = v1.dot(&v2).unwrap();
                                proof {
                                    lemma_cell_in_range(left.rows, right.cols, i, j);
                                }
                                res.push(vdot);
                            },
                            None => {
                                break ;
                            },
                        }
                    }
                    proof {
                        assert((i + 1) * right.cols == i * right.cols + right.cols)
                            by (nonlinear_arith);
                    }
                },
                None => {
                    break ;
                },
            }
        }
        proof {
            assert(res@ =~= target.cells);
        }
        Ok(NMatrix { data: res, rows: self.rows, cols: rhs.cols })
    }

    /// The product of `self` with the column vector `v`: one dot product per
    /// row. `ShapeMismatch` unless `v` has as many elements as `self` has
    /// columns.
    pub fn mul_vector(&self, v: &NVector<T>) -> (r: Result<NVector<T>, NErrors>)
        ensures
            self@.cols == v@.len() ==> (r matches Ok(w) && w@ == self@.apply(v@)),
            self@.cols != v@.len() ==> r matches Err(NErrors::ShapeMismatch),
    {
        if self.cols != v.len() {
            return Err(NErrors::ShapeMismatch);
        }
        let mut res: Vec<T> = Vec::new();
        let ghost source = self@;
        let mut all_rows = self.by_iter(NMatrixAxis::ROW);
        loop
            invariant
                source == self@,
                source.cols == v@.len(),
                all_rows.grid() == source,
                all_rows.along_rows(),
                all_rows.position() <= source.rows,
                res@ == source.apply(v@).take(all_rows.position() as int),
            ensures
                all_rows.position() == source.rows,
            decreases source.rows - all_rows.position(),
        {
            let ghost i = all_rows.position() as int;
            match all_rows.next() {
                Some(raw_row) => {
                    let row = NVector::new_init(raw_row);
                    let vdot = row.dot(v).unwrap();
                    res.push(vdot);
                    proof {
                        assert(res@ =~= source.apply(v@).take(i + 1));
                    }
                },
                None => {
                    break ;
                },
            }
        }
        proof {
            assert(res@ =~= source.apply(v@));
        }
        Ok(NVector::new_init(res))
    }

    /// The outer product of the vectors `u` and `v`.
    pub fn outer(u: &NVector<T>, v: &NVector<T>) -> (r: NMatrix<T>)
        ensures
            r@ == outer_product(u@, v@),
    {
        let m = u.len();
        let n = v.len();
        let ghost target = outer_product(u@, v@);
        let mut res: Vec<T> = Vec::new();
        let mut i: usize = 0;
        while i < m
            invariant
                i <= m,
                m == u@.len(),
                n == v@.len(),
                target == outer_product(u@, v@),
                res@.len() == i * n,
                forall|k: int| 0 <= k < res@.len() ==> res@[k] == target.cells[k],
            decreases m - i,
        {
            let x = u.data()[i];
            let mut j: usize = 0;
            while j < n
                invariant
                    j <= n,
                    i < m,
                    m == u@.len(),
                    n == v@.len(),
                    x == u@[i as int],
                    target == outer_product(u@, v@),
                    res@.len() == i * n + j,
                    forall|k: int| 0 <= k < res@.len() ==> res@[k] == target.cells[k],
                decreases n - j,
            {
                proof {
                    lemma_cell_in_range(m as nat, n as nat, i as int, j as int);
                }
                res.push(x.mul(v.data()[j]));
                j = j + 1;
            }
            proof {
                assert((i + 1) * n == i * n + n) by (nonlinear_arith);
            }
            i = i + 1;
        }
        proof {
            assert(res@ =~= target.cells);
        }
        NMatrix { data: res, rows: m, cols: n }
    }
}

} // verus!
