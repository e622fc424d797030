//! Square grids and the lines through them.
use vstd::prelude::*;

verus! {

/// Every row has as many cells as the grid has rows.
pub open spec fn is_square<T>(m: Seq<Seq<T>>) -> bool {
    forall|i: int| 0 <= i < m.len() ==> #[trigger] m[i].len() == m.len()
}

/// Every row has as many cells as the first one.
pub open spec fn is_rectangular<T>(m: Seq<Seq<T>>) -> bool {
    forall|i: int| 0 <= i < m.len() ==> #[trigger] m[i].len() == m[0].len()
}

/// Element `c` of each row.
pub open spec fn col_of<T>(m: Seq<Seq<T>>, c: int) -> Seq<T> {
    Seq::new(m.len(), |i: int| m[i][c])
}

/// Element `i` of row `i`.
pub open spec fn diag_down<T>(m: Seq<Seq<T>>) -> Seq<T> {
    Seq::new(m.len(), |i: int| m[i][i])
}

/// Element `len - 1 - i` of row `i`.
pub open spec fn diag_up<T>(m: Seq<Seq<T>>) -> Seq<T> {
    Seq::new(m.len(), |i: int| m[i][m.len() - 1 - i])
}

/// The grid with rows and columns exchanged: as many rows as `m` has
/// columns, each as long as `m` has rows.
pub open spec fn transposed<T>(m: Seq<Seq<T>>) -> Seq<Seq<T>> {
    let cols = if m.len() == 0 { 0 } else { m[0].len() };
    Seq::new(cols, |j: int| col_of(m, j))
}

/// The mathematical content of a grid held as nested vectors.
pub open spec fn grid_view<T>(m: Seq<Vec<T>>) -> Seq<Seq<T>> {
    m.map_values(|r: Vec<T>| r@)
}

/// Rows, columns and diagonals of a square grid of numbers.
pub trait Matrix {
    /// The grid's numbers, row by row.
    spec fn cells(&self) -> Seq<Seq<usize>>;

    fn row(&self, row: usize) -> (r: Vec<usize>)
        requires
            is_square(self.cells()),
            row < self.cells().len(),
        ensures
            r@ == self.cells()[row as int],
    ;

    fn col(&self, col: usize) -> (r: Vec<usize>)
        requires
            is_square(self.cells()),
            col < self.cells().len(),
        ensures
            r@ == col_of(self.cells(), col as int),
    ;

    /// From the upper left corner to the lower right one.
    fn diagnoal_from_upper_left(&self) -> (r: Vec<usize>)
        requires
            is_square(self.cells()),
        ensures
            r@ == diag_down(self.cells()),
    ;

    /// From the upper right corner to the lower left one.
    fn diagnoal_from_upper_right(&self) -> (r: Vec<usize>)
        requires
            is_square(self.cells()),
        ensures
            r@ == diag_up(self.cells()),
    ;
}

impl Matrix for Vec<Vec<usize>> {
    open spec fn cells(&self) -> Seq<Seq<usize>> {
        grid_view(self@)
    }

    fn row(&self, row: usize) -> (r: Vec<usize>) {
        let n = self.len();
        let mut out: Vec<usize> = Vec::new();
        let mut i: usize = 0;
        while i < n
            invariant
                n == self@.len(),
                is_square(self.cells()),
                row < n,
                i <= n,
                out@ == self.cells()[row as int].take(i as int),
            decreases n - i,
        {
            assert(self.cells()[row as int].len() == n);
            out.push(self[row][i]);
            i = i + 1;
            assert(out@ =~= self.cells()[row as int].take(i as int));
        }
        assert(out@ =~= self.cells()[row as int]);
        out
    }

    fn col(&self, col: usize) -> (r: Vec<usize>) {
        let n = self.len();
        let mut out: Vec<usize> = Vec::new();
        let mut i: usize = 0;
        while i < n
            invariant
                n == self@.len(),
                is_square(self.cells()),
                col < n,
                i <= n,
                out@ == col_of(self.cells(), col as int).take(i as int),
            decreases n - i,
        {
            assert(self.cells()[i as int].len() == n);
            out.push(self[i][col]);
            i = i + 1;
            assert(out@ =~= col_of(self.cells(), col as int).take(i as int));
        }
        assert(out@ =~= col_of(self.cells(), col as int));
        out
    }

    fn diagnoal_from_upper_left(&self) -> (r: Vec<usize>) {
        let n = self.len();
        let mut out: Vec<usize> = Vec::new();
        let mut i: usize = 0;
        while i < n
            invariant
                n == self@.len(),
                is_square(self.cells()),
                i <= n,
                out@ == diag_down(self.cells()).take(i as int),
            decreases n - i,
        {
            assert(self.cells()[i as int].len() == n);
            out.push(self[i][i]);
            i = i + 1;
            assert(out@ =~= diag_down(self.cells()).take(i as int));
        }
        assert(out@ =~= diag_down(self.cells()));
        out
    }

    fn diagnoal_from_upper_right(&self) -> (r: Vec<usize>) {
        let n = self.len();
        let mut out: Vec<usize> = Vec::new();
        let mut i: usize = 0;
        while i < n
            invariant
                n == self@.len(),
                is_square(self.cells()),
                i <= n,
                out@ == diag_up(self.cells()).take(i as int),
            decreases n - i,
        {
            assert(self.cells()[i as int].len() == n);
            out.push(self[i][n - i - 1]);
            i = i + 1;
            assert(out@ =~= diag_up(self.cells()).take(i as int));
        }
        assert(out@ =~= diag_up(self.cells()));
        out
    }
}

/// Exchange of rows and columns.
pub trait Transpose<T> {
    /// The grid's entries, row by row.
    spec fn entries(&self) -> Seq<Seq<T>>;

    /// `a[i][j]` of the input is `a[j][i]` of the result.
    fn transpose(&self) -> (r: Vec<Vec<T>>)
        requires
            is_rectangular(self.entries()),
        ensures
            grid_view(r@) == transposed(self.entries()),
    ;
}

impl<T: Copy> Transpose<T> for Vec<Vec<T>> {
    open spec fn entries(&self) -> Seq<Seq<T>> {
        grid_view(self@)
    }

    fn transpose(&self) -> (r: Vec<Vec<T>>) {
        let ghost m = self.entries();
        let n = self.len();
        let mut out: Vec<Vec<T>> = Vec::new();
        if n == 0 {
            assert(grid_view(out@) =~= transposed(m));
            return out;
        }
        let cols = self[0].len();
        let mut j: usize = 0;
        while j < cols
            invariant
                m == self.entries(),
                n == m.len(),
                n > 0,
                cols == m[0].len(),
                is_rectangular(m),
                j <= cols,
                grid_view(out@) == transposed(m).take(j as int),
            decreases cols - j,
        {
            let mut line: Vec<T> = Vec::new();
            let mut i: usize = 0;
            while i < n
                invariant
                    m == self.entries(),
                    n == m.len(),
                    cols == m[0].len(),
                    is_rectangular(m),
                    j < cols,
                    i <= n,
                    line@ == col_of(m, j as int).take(i as int),
                decreases n - i,
            {
                assert(m[i as int].len() == cols);
                line.push(self[i][j]);
                i = i + 1;
                assert(line@ =~= col_of(m, j as int).take(i as int));
            }
            assert(line@ =~= col_of(m, j as int));
            let ghost before = out@;
            out.push(line);
            assert(out@ == before.push(line));
            assert(transposed(m)[j as int] == col_of(m, j as int));
            assert(grid_view(out@) =~= grid_view(before).push(col_of(m, j as int)));
            j = j + 1;
            assert(grid_view(out@) =~= transposed(m).take(j as int));
        }
        assert(grid_view(out@) =~= transposed(m));
        out
    }
}

} // verus!
