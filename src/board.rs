//! One participant's board: its grid and the numbers called on it.
use crate::generate::{
    board_of_draws, draws_in_range, generate_board_numbers, generation_error, is_board_grid,
    seeded_rng, MAX_BOARD_SIZE,
};
use crate::judge::{bingo_lines, reach_lines};
use crate::matrix::{grid_view, is_square};
use vstd::prelude::*;

verus! {

/// What a call reports: the complete lines, else the lines one call short.
#[derive(Debug, PartialEq)]
pub enum BoardState {
    BINGO(Vec<Vec<usize>>),
    REACH(Vec<Vec<usize>>),
    NONE,
}

#[derive(Clone, Debug, PartialEq)]
pub struct Board {
    /// Participant id plus session id; the seed the grid was drawn from.
    pub id: u64,
    /// Side length of the grid.
    pub size: usize,
    /// The grid, row by row.
    pub numbers: Vec<Vec<usize>>,
    /// The numbers called so far, in call order.
    pub opened: Vec<usize>,
}

pub struct BoardView {
    pub id: u64,
    pub size: usize,
    pub numbers: Seq<Seq<usize>>,
    pub opened: Seq<usize>,
}

impl View for Board {
    type V = BoardView;

    open spec fn view(&self) -> BoardView {
        BoardView {
            id: self.id,
            size: self.size,
            numbers: grid_view(self.numbers@),
            opened: self.opened@,
        }
    }
}

impl BoardView {
    /// A square grid of `size` rows, with at least one row.
    pub open spec fn is_wf(self) -> bool {
        &&& self.size >= 1
        &&& self.numbers.len() == self.size
        &&& is_square(self.numbers)
    }

    /// The board after `number` was called.
    pub open spec fn called(self, number: usize) -> BoardView {
        BoardView { opened: self.opened.push(number), ..self }
    }
}

fn copy_numbers(v: &Vec<usize>) -> (r: Vec<usize>)
    ensures
        r@ == v@,
{
    let mut out: Vec<usize> = Vec::new();
    let mut i: usize = 0;
    while i < v.len()
        invariant
            i <= v@.len(),
            out@ == v@.take(i as int),
        decreases v@.len() - i,
    {
        out.push(v[i]);
        i = i + 1;
        assert(out@ =~= v@.take(i as int));
    }
    assert(v@.take(i as int) =~= v@);
    out
}

/// `r` is what a call reports on board `b`, whose history already holds the call:
/// complete lines first; only when there are none, the lines one call short.
pub open spec fn reports(b: BoardView, r: BoardState) -> bool {
    match r {
        BoardState::BINGO(v) => bingo_lines(b).len() > 0 && grid_view(v@) == bingo_lines(b),
        BoardState::REACH(v) => {
            &&& bingo_lines(b).len() == 0
            &&& reach_lines(b).len() > 0
            &&& grid_view(v@) == reach_lines(b)
        },
        BoardState::NONE => bingo_lines(b).len() == 0 && reach_lines(b).len() == 0,
    }
}

/// A board as it comes out of generation: seeded from `id`, a valid grid of
/// side `size`, nothing called yet.
pub open spec fn is_fresh_board(b: BoardView, id: u64, size: usize) -> bool {
    &&& b.id == id
    &&& b.size == size
    &&& b.opened.len() == 0
    &&& is_board_grid(b.numbers, size as int)
}

impl Board {
    pub open spec fn is_wf(&self) -> bool {
        self@.is_wf()
    }

    /// A board with id `id` whose grid `generate_board_numbers` draws from a
    /// `StdRng` seeded with `id`. Sizes that are even or above 15 are refused.
    pub fn new(id: u64, size: usize) -> (r: Result<Board, String>)
        ensures
            match r {
                Ok(b) => {
                    &&& is_fresh_board(b@, id, size)
                    &&& b.is_wf()
                    &&& exists|draws: Seq<Seq<usize>>|
                        draws_in_range(size as int, draws) && b@.numbers == board_of_draws(
                            size as int,
                            draws,
                        )
                },
                Err(e) => generation_error(size, e@),
            },
            r is Ok <==> size % 2 == 1 && size <= MAX_BOARD_SIZE,
    {
        let mut rng = seeded_rng(id);
        match generate_board_numbers(&mut rng, size) {
            Ok(numbers) => {
                let b = Board { id, size, numbers, opened: Vec::new() };
                assert(b@.opened =~= Seq::<usize>::empty());
                Ok(b)
            },
            Err(e) => Err(e),
        }
    }

    /// A copy of this board, equal to it in every field.
    pub fn snapshot(&self) -> (r: Board)
        ensures
            r@ == self@,
    {
        let mut numbers: Vec<Vec<usize>> = Vec::new();
        let mut i: usize = 0;
        while i < self.numbers.len()
            invariant
                i <= self.numbers@.len(),
                grid_view(numbers@) == grid_view(self.numbers@).take(i as int),
            decreases self.numbers@.len() - i,
        {
            let row = copy_numbers(&self.numbers[i]);
            let ghost before = numbers@;
            numbers.push(row);
            assert(numbers@ == before.push(row));
            assert(grid_view(numbers@) =~= grid_view(before).push(row@));
            i = i + 1;
            assert(grid_view(numbers@) =~= grid_view(self.numbers@).take(i as int));
        }
        assert(grid_view(self.numbers@).take(i as int) =~= grid_view(self.numbers@));
        Board { id: self.id, size: self.size, numbers, opened: copy_numbers(&self.opened) }
    }

    /// Records `number` as called, then reports the complete lines or,
    /// failing those, the lines one call short.
    pub fn open(&mut self, number: usize) -> (r: BoardState)
        requires
            old(self).is_wf(),
        ensures
            final(self)@ == old(self)@.called(number),
            reports(final(self)@, r),
    {
        self.opened.push(number);
        if let Some(bingo) = self.judge_bingo() {
            return BoardState::BINGO(bingo);
        }
        if let Some(reach) = self.judge_reach() {
            return BoardState::REACH(reach);
        }
        BoardState::NONE
    }
}

/// A call that completes a line reports the complete lines, never the lines
/// one call short, even when some are.
pub proof fn lemma_bingo_takes_precedence(before: BoardView, number: usize, r: BoardState)
    requires
        reports(before.called(number), r),
        bingo_lines(before.called(number)).len() > 0,
    ensures
        r is BINGO,
        r matches BoardState::BINGO(v) && grid_view(v@) == bingo_lines(before.called(number)),
{
}

} // verus!
