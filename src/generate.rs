//! Drawing a board's grid from a seeded random number generator.
use crate::matrix::{col_of, grid_view, is_rectangular, is_square, transposed, Transpose};
use rand::rngs::StdRng;
use rand::Rng;
use vstd::prelude::*;
use vstd::set_lib::{lemma_int_range, lemma_len_subset, set_int_range};

verus! {

#[verifier::external_type_specification]
#[verifier::external_body]
pub struct ExStdRng(StdRng);

/// How many numbers each column's range holds.
pub const BUCKET_WIDTH: usize = 15;

/// The largest board whose columns can each hold distinct numbers.
pub const MAX_BOARD_SIZE: usize = 15;

/// How many numbers are drawn for one column at most; should that not fill
/// it, the smallest numbers of its range that it lacks complete it.
pub const DRAW_ATTEMPTS: u32 = 100000;

pub const SIZE_NOT_ODD: &'static str = "Board size must be odd";

pub const SIZE_TOO_LARGE: &'static str = "Board size must be at most 15";

/// Lowest number of column `b`.
pub open spec fn bucket_low(b: int) -> int {
    b * 15 + 1
}

/// Highest number of column `b`.
pub open spec fn bucket_high(b: int) -> int {
    (b + 1) * 15
}

/// The free cell sits in the middle row of the middle column.
pub open spec fn is_free_cell(size: int, col: int, row: int) -> bool {
    col == size / 2 && row == size / 2
}

/// The cells of column `b` so far: the free cell holds 0, every other cell a
/// number of the column's range, and no number twice.
pub open spec fn column_ok(cells: Seq<usize>, b: int, size: int) -> bool {
    &&& forall|i: int|
        0 <= i < cells.len() ==> if is_free_cell(size, b, i) {
            #[trigger] cells[i] == 0
        } else {
            bucket_low(b) <= cells[i] <= bucket_high(b)
        }
    &&& forall|i: int, j: int| 0 <= i < j < cells.len() ==> cells[i] != cells[j]
}

/// A complete grid of side `size`, row-major, each column valid.
pub open spec fn is_board_grid(g: Seq<Seq<usize>>, size: int) -> bool {
    &&& g.len() == size
    &&& is_square(g)
    &&& forall|c: int| 0 <= c < size ==> column_ok(#[trigger] col_of(g, c), c, size)
}

/// The error that generation of a board of side `size` reports.
pub open spec fn generation_error(size: usize, e: Seq<char>) -> bool {
    if size % 2 == 0 {
        e == SIZE_NOT_ODD@
    } else {
        e == SIZE_TOO_LARGE@
    }
}

/// Column `b` with the free cell added, when the column has reached it.
pub open spec fn with_free_cell(col: Seq<usize>, b: int, size: int) -> Seq<usize> {
    if is_free_cell(size, b, col.len() as int) {
        col.push(0)
    } else {
        col
    }
}

/// Column `b` after the number `n` was drawn for it: the free cell first when
/// it is due, then `n`, unless the column holds `n` already or is full.
pub open spec fn after_draw(col: Seq<usize>, b: int, size: int, n: usize) -> Seq<usize> {
    let c = with_free_cell(col, b, size);
    if c.len() < size && !c.contains(n) {
        c.push(n)
    } else {
        c
    }
}

/// Column `b` built from the numbers `draws`, in order, from an empty column.
pub open spec fn drawn_column(b: int, size: int, draws: Seq<usize>) -> Seq<usize>
    decreases draws.len(),
{
    if draws.len() == 0 {
        Seq::empty()
    } else {
        after_draw(drawn_column(b, size, draws.drop_last()), b, size, draws.last())
    }
}

/// The numbers of column `b`'s range, smallest first.
pub open spec fn bucket_numbers(b: int) -> Seq<usize> {
    Seq::new(15, |i: int| (bucket_low(b) + i) as usize)
}

/// Column `b` when `draws` were drawn for it: the draws, then, should they
/// leave it short, the smallest numbers of its range that it lacks.
pub open spec fn column_of_draws(b: int, size: int, draws: Seq<usize>) -> Seq<usize> {
    drawn_column(b, size, draws + bucket_numbers(b))
}

/// The grid when `draws[b]` were drawn for column `b`: the columns, transposed
/// into rows.
pub open spec fn board_of_draws(size: int, draws: Seq<Seq<usize>>) -> Seq<Seq<usize>> {
    transposed(Seq::new(size as nat, |b: int| column_of_draws(b, size, draws[b])))
}

/// One sequence of draws per column, each number within its column's range.
pub open spec fn draws_in_range(size: int, draws: Seq<Seq<usize>>) -> bool {
    &&& draws.len() == size
    &&& forall|b: int, i: int|
        0 <= b < size && 0 <= i < draws[b].len() ==> bucket_low(b) <= #[trigger] draws[b][i]
            <= bucket_high(b)
}

/// Relies on rand's `SeedableRng::seed_from_u64`: a `StdRng` seeded from `seed`.
#[verifier::external_body]
pub(crate) fn seeded_rng(seed: u64) -> StdRng {
    rand::SeedableRng::seed_from_u64(seed)
}

/// A number in `min..=max`.
/// Relies on rand's `Rng::gen_range` over an inclusive range, which returns a
/// value of the range and panics only when the range is empty.
#[verifier::external_body]
pub fn generate_number(rng: &mut StdRng, min: usize, max: usize) -> (r: usize)
    requires
        min <= max,
    ensures
        min <= r <= max,
{
    rng.gen_range(min..=max)
}

fn column_contains(column: &Vec<usize>, x: usize) -> (r: bool)
    ensures
        r == column@.contains(x),
{
    let mut i: usize = 0;
    while i < column.len()
        invariant
            i <= column@.len(),
            forall|j: int| 0 <= j < i ==> column@[j] != x,
        decreases column@.len() - i,
    {
        if column[i] == x {
            return true;
        }
        i = i + 1;
    }
    false
}

/// Adds the number `n` drawn for column `b` of a board of side `size`.
pub fn add_draw(column: &mut Vec<usize>, b: usize, size: usize, n: usize)
    ensures
        final(column)@ == after_draw(old(column)@, b as int, size as int, n),
{
    if b == size / 2 && column.len() == size / 2 {
        column.push(0);
    }
    if column.len() < size && !column_contains(column, n) {
        column.push(n);
    }
}

/// Whether column `b` still has room once the free cell is placed.
fn needs_draw(column: &Vec<usize>, b: usize, size: usize) -> (r: bool)
    ensures
        r == (with_free_cell(column@, b as int, size as int).len() < size),
{
    if b == size / 2 && column.len() == size / 2 {
        column.len() + 1 < size
    } else {
        column.len() < size
    }
}

proof fn lemma_drawn_column_push(b: int, size: int, draws: Seq<usize>, n: usize)
    ensures
        drawn_column(b, size, draws.push(n)) == after_draw(drawn_column(b, size, draws), b, size, n),
{
    assert(draws.push(n).drop_last() =~= draws);
}

proof fn lemma_after_draw_keeps_column(col: Seq<usize>, b: int, size: int, n: usize)
    requires
        column_ok(col, b, size),
        col.len() <= size,
        size >= 1,
        b >= 0,
        bucket_low(b) <= n <= bucket_high(b),
    ensures
        column_ok(after_draw(col, b, size, n), b, size),
        after_draw(col, b, size, n).len() <= size,
        forall|y: usize| col.contains(y) ==> after_draw(col, b, size, n).contains(y),
        after_draw(col, b, size, n).len() < size ==> after_draw(col, b, size, n).contains(n),
{
    let c = with_free_cell(col, b, size);
    let a = after_draw(col, b, size, n);
    if is_free_cell(size, b, col.len() as int) {
        assert forall|i: int| 0 <= i < col.len() implies col[i] != 0 by {
            assert(!is_free_cell(size, b, i));
        }
        assert(c == col.push(0));
    }
    assert forall|y: usize| col.contains(y) implies c.contains(y) by {
        let i = choose|i: int| 0 <= i < col.len() && col[i] == y;
        assert(c[i] == y);
    }
    assert forall|y: usize| c.contains(y) implies a.contains(y) by {
        let i = choose|i: int| 0 <= i < c.len() && c[i] == y;
        assert(a[i] == y);
    }
    if c.len() < size && !c.contains(n) {
        assert(a[c.len() as int] == n);
    }
}

proof fn lemma_full_range_is_long(col: Seq<usize>, b: int)
    requires
        0 <= b < MAX_BOARD_SIZE,
        forall|y: int| bucket_low(b) <= y <= bucket_high(b) ==> #[trigger] col.contains(y as usize),
    ensures
        col.len() >= 15,
{
    let s = col.map_values(|x: usize| x as int);
    let range = set_int_range(bucket_low(b), bucket_high(b) + 1);
    lemma_int_range(bucket_low(b), bucket_high(b) + 1);
    assert forall|y: int| range.contains(y) implies s.to_set().contains(y) by {
        assert(col.contains(y as usize));
        assert((y as usize) as int == y);
        let i = choose|i: int| 0 <= i < col.len() && col[i] == y as usize;
        assert(s[i] == y);
    }
    assert(range.subset_of(s.to_set()));
    s.lemma_cardinality_of_set();
    vstd::seq_lib::seq_to_set_is_finite(s);
    lemma_len_subset(range, s.to_set());
}

/// Draws column `b`: numbers of its range until it is full, the free cell when
/// the middle column reaches the middle row, and, should the draws run out,
/// the smallest numbers of the range that it lacks. Returns the numbers drawn.
fn draw_column(rng: &mut StdRng, b: usize, size: usize) -> (r: (Vec<usize>, Ghost<Seq<usize>>))
    requires
        1 <= size <= MAX_BOARD_SIZE,
        b < size,
    ensures
        r.0@.len() == size,
        column_ok(r.0@, b as int, size as int),
        r.0@ == column_of_draws(b as int, size as int, r.1@),
        forall|i: int|
            0 <= i < r.1@.len() ==> bucket_low(b as int) <= #[trigger] r.1@[i] <= bucket_high(
                b as int,
            ),
{
    let min = b * BUCKET_WIDTH + 1;
    let max = (b + 1) * BUCKET_WIDTH;
    let mut column: Vec<usize> = Vec::new();
    let ghost mut draws: Seq<usize> = Seq::empty();
    let mut attempts: u32 = 0;
    while attempts < DRAW_ATTEMPTS && needs_draw(&column, b, size)
        invariant
            1 <= size <= MAX_BOARD_SIZE,
            b < size,
            min == bucket_low(b as int),
            max == bucket_high(b as int),
            column@.len() <= size,
            column_ok(column@, b as int, size as int),
            column@ == drawn_column(b as int, size as int, draws),
            forall|i: int| 0 <= i < draws.len() ==> min <= #[trigger] draws[i] <= max,
        decreases DRAW_ATTEMPTS - attempts,
    {
        attempts = attempts + 1;
        let n = generate_number(rng, min, max);
        proof {
            lemma_after_draw_keeps_column(column@, b as int, size as int, n);
            lemma_drawn_column_push(b as int, size as int, draws, n);
        }
        add_draw(&mut column, b, size, n);
        proof {
            draws = draws.push(n);
        }
    }
    let ghost fill = bucket_numbers(b as int);
    let mut x: usize = min;
    while x <= max
        invariant
            1 <= size <= MAX_BOARD_SIZE,
            b < size,
            min == bucket_low(b as int),
            max == bucket_high(b as int),
            min <= x <= max + 1,
            fill == bucket_numbers(b as int),
            column@.len() <= size,
            column_ok(column@, b as int, size as int),
            column@ == drawn_column(b as int, size as int, draws + fill.take(x - min)),
            column@.len() == size || forall|y: int| min <= y < x ==> #[trigger] column@.contains(y as usize),
        decreases max + 1 - x,
    {
        let ghost before = column@;
        proof {
            lemma_after_draw_keeps_column(column@, b as int, size as int, x);
            lemma_drawn_column_push(b as int, size as int, draws + fill.take(x - min), x);
            assert((draws + fill.take(x - min)).push(x) =~= draws + fill.take(x + 1 - min));
        }
        add_draw(&mut column, b, size, x);
        x = x + 1;
        proof {
            if column@.len() < size {
                assert forall|y: int| min <= y < x implies #[trigger] column@.contains(y as usize) by {
                    if y < x - 1 {
                        assert(before.contains(y as usize));
                    }
                }
            }
        }
    }
    proof {
        assert(fill.take(15) =~= fill);
        if column@.len() < size {
            lemma_full_range_is_long(column@, b as int);
        }
    }
    (column, Ghost(draws))
}

/// The grid of a board of side `size`, drawn column by column from `rng`:
/// column `b` holds distinct numbers of `b * 15 + 1 ..= (b + 1) * 15`, and the
/// centre holds the free cell 0. A size that is even, or above 15, is refused
/// before anything is drawn.
pub fn generate_board_numbers(rng: &mut StdRng, size: usize) -> (r: Result<Vec<Vec<usize>>, String>)
    ensures
        match r {
            Ok(g) => {
                &&& is_board_grid(grid_view(g@), size as int)
                &&& exists|draws: Seq<Seq<usize>>|
                    draws_in_range(size as int, draws) && grid_view(g@) == board_of_draws(
                        size as int,
                        draws,
                    )
            },
            Err(e) => generation_error(size, e@),
        },
        r is Ok <==> size % 2 == 1 && size <= MAX_BOARD_SIZE,
        r is Err ==> *final(rng) == *old(rng),
{
    if size % 2 == 0 {
        return Err(SIZE_NOT_ODD.to_owned());
    }
    if size > MAX_BOARD_SIZE {
        return Err(SIZE_TOO_LARGE.to_owned());
    }
    let mut columns: Vec<Vec<usize>> = Vec::new();
    let ghost mut draws: Seq<Seq<usize>> = Seq::empty();
    let mut b: usize = 0;
    while b < size
        invariant
            1 <= size <= MAX_BOARD_SIZE,
            size % 2 == 1,
            b <= size,
            columns@.len() == b,
            draws.len() == b,
            forall|c: int|
                0 <= c < b ==> {
                    &&& (#[trigger] columns@[c])@.len() == size
                    &&& column_ok(columns@[c]@, c, size as int)
                    &&& columns@[c]@ == column_of_draws(c, size as int, draws[c])
                },
            forall|c: int, i: int|
                0 <= c < b && 0 <= i < draws[c].len() ==> bucket_low(c) <= #[trigger] draws[c][i]
                    <= bucket_high(c),
        decreases size - b,
    {
        let (column, drawn) = draw_column(rng, b, size);
        columns.push(column);
        proof {
            draws = draws.push(drawn@);
        }
        b = b + 1;
    }
    let ghost cols = grid_view(columns@);
    assert(is_rectangular(cols));
    let grid = columns.transpose();
    let ghost g = grid_view(grid@);
    assert(g == transposed(cols));
    assert forall|c: int| 0 <= c < size implies col_of(g, c) =~= cols[c] by {}
    assert(is_board_grid(g, size as int));
    assert(cols =~= Seq::new(size as nat, |c: int| column_of_draws(c, size as int, draws[c])));
    assert(draws_in_range(size as int, draws));
    Ok(grid)
}

/// A generated grid has exactly one free cell, at the centre, and no number
/// twice anywhere in it.
pub proof fn lemma_board_grid_cells(g: Seq<Seq<usize>>, size: int)
    requires
        is_board_grid(g, size),
        size % 2 == 1,
    ensures
        g[size / 2][size / 2] == 0,
        forall|r: int, c: int|
            0 <= r < size && 0 <= c < size && !is_free_cell(size, c, r) ==> #[trigger] g[r][c] != 0,
        forall|r1: int, c1: int, r2: int, c2: int|
            0 <= r1 < size && 0 <= c1 < size && 0 <= r2 < size && 0 <= c2 < size && (r1 != r2 || c1
                != c2) ==> #[trigger] g[r1][c1] != #[trigger] g[r2][c2],
{
    let mid = size / 2;
    assert(col_of(g, mid)[mid] == g[mid][mid]);
    assert forall|r: int, c: int|
        0 <= r < size && 0 <= c < size && !is_free_cell(size, c, r) implies #[trigger] g[r][c]
        != 0 by {
        assert(col_of(g, c)[r] == g[r][c]);
    }
    assert forall|r1: int, c1: int, r2: int, c2: int|
        0 <= r1 < size && 0 <= c1 < size && 0 <= r2 < size && 0 <= c2 < size && (r1 != r2 || c1
            != c2) implies #[trigger] g[r1][c1] != #[trigger] g[r2][c2] by {
        assert(col_of(g, c1)[r1] == g[r1][c1]);
        assert(col_of(g, c2)[r2] == g[r2][c2]);
        if c1 == c2 {
            if r1 < r2 {
                assert(col_of(g, c1)[r1] != col_of(g, c1)[r2]);
            } else {
                assert(col_of(g, c1)[r2] != col_of(g, c1)[r1]);
            }
        } else if g[r1][c1] != 0 && g[r2][c2] != 0 {
            assert(!is_free_cell(size, c1, r1));
            assert(!is_free_cell(size, c2, r2));
            if c1 < c2 {
                assert(bucket_high(c1) < bucket_low(c2)) by (nonlinear_arith)
                    requires c1 < c2;
            } else {
                assert(bucket_high(c2) < bucket_low(c1)) by (nonlinear_arith)
                    requires c2 < c1;
            }
        }
    }
}

/// A grid of side 1 is the free cell alone.
pub proof fn lemma_single_cell_grid(g: Seq<Seq<usize>>)
    requires
        is_board_grid(g, 1),
    ensures
        g == seq![seq![0usize]],
{
    assert(col_of(g, 0)[0] == g[0][0]);
    assert(g[0] =~= seq![0usize]);
    assert(g =~= seq![seq![0usize]]);
}

} // verus!
