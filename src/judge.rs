//! Which lines of a board are complete, or one call short of it.
use crate::board::{Board, BoardView};
use crate::matrix::{col_of, diag_down, diag_up, grid_view, is_square, Matrix};
use vstd::prelude::*;

verus! {

/// A cell counts as matched when it is the free cell or its number was called.
pub open spec fn is_matched(opened: Seq<usize>, x: usize) -> bool {
    x == 0 || opened.contains(x)
}

/// How many cells of `line` are matched.
pub open spec fn matched_count(opened: Seq<usize>, line: Seq<usize>) -> nat
    decreases line.len(),
{
    if line.len() == 0 {
        0
    } else {
        matched_count(opened, line.drop_last()) + if is_matched(opened, line.last()) {
            1nat
        } else {
            0nat
        }
    }
}

/// All rows, then all columns, then the two diagonals.
pub open spec fn lines(m: Seq<Seq<usize>>) -> Seq<Seq<usize>> {
    m + Seq::new(m.len(), |i: int| col_of(m, i)) + seq![diag_down(m), diag_up(m)]
}

/// Holds of the lines with exactly `target` matched cells.
pub open spec fn count_is(opened: Seq<usize>, target: int) -> spec_fn(Seq<usize>) -> bool {
    |line: Seq<usize>| matched_count(opened, line) == target
}

/// The lines, in their fixed order, whose matched count is exactly `target`.
pub open spec fn matching_lines(m: Seq<Seq<usize>>, opened: Seq<usize>, target: int) -> Seq<
    Seq<usize>,
> {
    lines(m).filter(count_is(opened, target))
}

/// Fully matched lines.
pub open spec fn bingo_lines(b: BoardView) -> Seq<Seq<usize>> {
    matching_lines(b.numbers, b.opened, b.size as int)
}

/// Lines with exactly one cell left unmatched.
pub open spec fn reach_lines(b: BoardView) -> Seq<Seq<usize>> {
    matching_lines(b.numbers, b.opened, b.size - 1)
}

proof fn lemma_filter_take_step(s: Seq<Seq<usize>>, k: int, pred: spec_fn(Seq<usize>) -> bool)
    requires
        0 <= k < s.len(),
    ensures
        s.take(k + 1).filter(pred) == if pred(s[k]) {
            s.take(k).filter(pred).push(s[k])
        } else {
            s.take(k).filter(pred)
        },
{
    reveal(Seq::filter);
    assert(s.take(k + 1).drop_last() =~= s.take(k));
    assert(s.take(k + 1).last() == s[k]);
}

fn contains(opened: &[usize], x: usize) -> (r: bool)
    ensures
        r == opened@.contains(x),
{
    let mut i: usize = 0;
    while i < opened.len()
        invariant
            i <= opened@.len(),
            forall|j: int| 0 <= j < i ==> opened@[j] != x,
        decreases opened@.len() - i,
    {
        if opened[i] == x {
            return true;
        }
        i = i + 1;
    }
    false
}

/// How many numbers of `vec` are the free cell or were opened.
pub fn opened_count_in_vec(opened: &[usize], vec: Vec<usize>) -> (r: usize)
    ensures
        r == matched_count(opened@, vec@),
{
    let mut count: usize = 0;
    let mut i: usize = 0;
    while i < vec.len()
        invariant
            i <= vec@.len(),
            count == matched_count(opened@, vec@.take(i as int)),
            count <= i,
        decreases vec@.len() - i,
    {
        let x = vec[i];
        assert(vec@.take(i as int + 1).drop_last() =~= vec@.take(i as int));
        if x == 0 || contains(opened, x) {
            count = count + 1;
        }
        i = i + 1;
    }
    assert(vec@.take(i as int) =~= vec@);
    count
}

/// The lines of `numbers` whose matched count is `target`, in line order.
fn lines_with_count(numbers: &Vec<Vec<usize>>, opened: &Vec<usize>, target: usize) -> (r: Vec<
    Vec<usize>,
>)
    requires
        is_square(grid_view(numbers@)),
    ensures
        grid_view(r@) == matching_lines(grid_view(numbers@), opened@, target as int),
{
    let ghost m = grid_view(numbers@);
    let ghost all = lines(m);
    let ghost pred = count_is(opened@, target as int);
    let n = numbers.len();
    let mut found: Vec<Vec<usize>> = Vec::new();
    assert(all.take(0).filter(pred) =~= Seq::<Seq<usize>>::empty()) by {
        reveal(Seq::filter);
    }
    let mut i: usize = 0;
    while i < n
        invariant
            m == grid_view(numbers@),
            all == lines(m),
            pred == count_is(opened@, target as int),
            n == m.len(),
            is_square(m),
            i <= n,
            grid_view(found@) == all.take(i as int).filter(pred),
        decreases n - i,
    {
        let line = numbers.row(i);
        assert(all[i as int] == m[i as int]);
        proof {
            lemma_filter_take_step(all, i as int, pred);
        }
        if opened_count_in_vec(opened.as_slice(), numbers.row(i)) == target {
            found.push(line);
        }
        i = i + 1;
        assert(grid_view(found@) =~= all.take(i as int).filter(pred));
    }
    let mut j: usize = 0;
    while j < n
        invariant
            m == grid_view(numbers@),
            all == lines(m),
            pred == count_is(opened@, target as int),
            n == m.len(),
            is_square(m),
            j <= n,
            grid_view(found@) == all.take(n + j).filter(pred),
        decreases n - j,
    {
        let line = numbers.col(j);
        assert(all[n + j] == col_of(m, j as int));
        proof {
            lemma_filter_take_step(all, n + j, pred);
        }
        if opened_count_in_vec(opened.as_slice(), numbers.col(j)) == target {
            found.push(line);
        }
        j = j + 1;
        assert(grid_view(found@) =~= all.take(n + j).filter(pred));
    }
    let down = numbers.diagnoal_from_upper_left();
    assert(all[2 * n] == diag_down(m));
    proof {
        lemma_filter_take_step(all, 2 * n, pred);
    }
    if opened_count_in_vec(opened.as_slice(), numbers.diagnoal_from_upper_left()) == target {
        found.push(down);
    }
    assert(grid_view(found@) =~= all.take(2 * n + 1).filter(pred));
    let up = numbers.diagnoal_from_upper_right();
    assert(all[2 * n + 1] == diag_up(m));
    proof {
        lemma_filter_take_step(all, 2 * n + 1, pred);
    }
    if opened_count_in_vec(opened.as_slice(), numbers.diagnoal_from_upper_right()) == target {
        found.push(up);
    }
    assert(grid_view(found@) =~= all.take(2 * n + 2).filter(pred));
    assert(all.take(2 * n + 2) =~= all);
    found
}

impl Board {
    /// The fully matched lines, or `None` when there is none.
    pub fn judge_bingo(&mut self) -> (r: Option<Vec<Vec<usize>>>)
        requires
            old(self).is_wf(),
        ensures
            *final(self) == *old(self),
            match r {
                Some(v) => grid_view(v@) == bingo_lines(old(self)@) && v@.len() > 0,
                None => bingo_lines(old(self)@).len() == 0,
            },
    {
        let bingo = lines_with_count(&self.numbers, &self.opened, self.size);
        if bingo.len() > 0 {
            Some(bingo)
        } else {
            None
        }
    }

    /// The lines one call short of complete, or `None` when there is none.
    pub fn judge_reach(&mut self) -> (r: Option<Vec<Vec<usize>>>)
        requires
            old(self).is_wf(),
        ensures
            *final(self) == *old(self),
            match r {
                Some(v) => grid_view(v@) == reach_lines(old(self)@) && v@.len() > 0,
                None => reach_lines(old(self)@).len() == 0,
            },
    {
        let reach = lines_with_count(&self.numbers, &self.opened, self.size - 1);
        if reach.len() > 0 {
            Some(reach)
        } else {
            None
        }
    }

    /// How many numbers of `vec` are the free cell or were opened on this board.
    pub fn opened_count_in_vec(&self, vec: Vec<usize>) -> (r: usize)
        ensures
            r == matched_count(self.opened@, vec@),
    {
        opened_count_in_vec(self.opened.as_slice(), vec)
    }
}

} // verus!
