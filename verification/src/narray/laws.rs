use vstd::prelude::*;
use crate::narray::matrix::{lemma_cell_in_range, lemma_grid_ext, lemma_position_is_cell, Grid};
use crate::narray::scalar::{LawfulScalar, Scalar};
use crate::narray::vector::dot_product;

verus! {

/// The square grid of side `n` with one on the diagonal and zero elsewhere.
pub open spec fn identity_grid<T: Scalar>(n: nat) -> Grid<T> {
    Grid {
        rows: n,
        cols: n,
        cells: Seq::new(
            n * n,
            |k: int|
                if k / (n as int) == k % (n as int) {
                    T::one_spec()
                } else {
                    T::zero_spec()
                },
        ),
    }
}

/// A cell of a transposed grid is the mirrored cell of the grid it came from.
pub proof fn lemma_transpose_cell<T>(g: Grid<T>, r: int, c: int)
    requires
        g.wf(),
        g.has(r, c),
    ensures
        g.transpose().wf(),
        g.transpose().has(c, r),
        g.transpose().at(c, r) == g.at(r, c),
{
    lemma_cell_in_range(g.cols, g.rows, c, r);
}

/// Transposing twice gives the matrix back.
pub proof fn transpose_is_an_involution<T>(g: Grid<T>)
    requires
        g.wf(),
    ensures
        g.transpose().transpose() == g,
{
    let t = g.transpose();
    let tt = t.transpose();
    assert(tt.cells.len() == g.cells.len()) by (nonlinear_arith)
        requires
            tt.cells.len() == g.rows * g.cols,
            g.cells.len() == g.rows * g.cols,
    ;
    assert forall|r: int, c: int| tt.has(r, c) implies tt.at(r, c) == g.at(r, c) by {
        lemma_transpose_cell(g, r, c);
        lemma_transpose_cell(t, c, r);
    }
    lemma_grid_ext(tt, g);
}

/// Adding three matrices of one shape gives the same matrix whichever sum
/// is taken first, for scalars whose own addition is associative.
pub proof fn matrix_sum_is_associative<T: LawfulScalar>(a: Grid<T>, b: Grid<T>, c: Grid<T>)
    requires
        a.wf(),
        b.wf(),
        c.wf(),
        a.rows == b.rows && b.rows == c.rows,
        a.cols == b.cols && b.cols == c.cols,
    ensures
        a.plus(b).plus(c) == a.plus(b.plus(c)),
{
    let left = a.plus(b).plus(c);
    let right = a.plus(b.plus(c));
    assert forall|k: int| 0 <= k < left.cells.len() implies left.cells[k] == right.cells[k] by {
        T::add_associative(a.cells[k], b.cells[k], c.cells[k]);
    }
    assert(left.cells =~= right.cells);
}

/// The dot product of the first `n` elements of `v` with the first `n`
/// elements of the unit vector that has its one at `j`: the element `v[j]`
/// once `n` is past `j`, zero before.
proof fn lemma_dot_with_unit_prefix<T: LawfulScalar>(v: Seq<T>, unit: Seq<T>, j: int, n: int)
    requires
        v.len() == unit.len(),
        0 <= j < v.len(),
        0 <= n <= v.len(),
        forall|k: int|
            0 <= k < unit.len() ==> unit[k] == (if k == j {
                T::one_spec()
            } else {
                T::zero_spec()
            }),
    ensures
        dot_product(v.take(n), unit.take(n)) == (if j < n {
            v[j]
        } else {
            T::zero_spec()
        }),
    decreases n,
{
    if n > 0 {
        lemma_dot_with_unit_prefix(v, unit, j, n - 1);
        assert(v.take(n).drop_last() =~= v.take(n - 1));
        assert(unit.take(n).drop_last() =~= unit.take(n - 1));
        let last = n - 1;
        if last == j {
            T::mul_one(v[last]);
            T::add_zero(v[last]);
        } else {
            T::mul_zero(v[last]);
            if j < last {
                T::add_zero(v[j]);
            } else {
                T::add_zero(T::zero_spec());
            }
        }
    }
}

/// Multiplying a matrix from the right by the identity of matching size
/// gives the matrix back, for scalars that obey the laws of zero and one.
pub proof fn identity_is_right_neutral<T: LawfulScalar>(m: Grid<T>)
    requires
        m.wf(),
    ensures
        m.product(identity_grid::<T>(m.cols)) == m,
{
    let n = m.cols;
    let unit = identity_grid::<T>(n);
    let p = m.product(unit);
    assert forall|r: int, c: int| p.has(r, c) implies p.at(r, c) == m.at(r, c) by {
        lemma_cell_in_range(m.rows, n, r, c);
        let row = m.row(r);
        let column = unit.col(c);
        assert forall|k: int| 0 <= k < column.len() implies column[k] == (if k == c {
            T::one_spec()
        } else {
            T::zero_spec()
        }) by {
            lemma_cell_in_range(n, n, k, c);
        }
        lemma_dot_with_unit_prefix(row, column, c, n as int);
        assert(row.take(n as int) =~= row);
        assert(column.take(n as int) =~= column);
    }
    lemma_grid_ext(p, m);
}

/// A matrix made from flat data hands the element at position `k` of the
/// data back at the row and column that `k` stands for in row-major order.
pub proof fn flat_data_reads_back<T>(g: Grid<T>, k: int)
    requires
        g.wf(),
        0 <= k < g.cells.len(),
    ensures
        g.has(k / (g.cols as int), k % (g.cols as int)),
        g.at(k / (g.cols as int), k % (g.cols as int)) == g.cells[k],
{
    lemma_position_is_cell(g.rows, g.cols, k);
}

} // verus!
