use vstd::prelude::*;

use crate::cell::CellState;
use crate::game::{filled, write_cells};
use crate::rules::{
    cell_at, count_alive, in_bounds, int_pairs, iterate_cells, lemma_flat_index, lemma_index_split,
    lemma_iterate_succ, live_neighbors, neighbor_coords, neighbor_seq, next_cell, step_cells,
};

verus! {

/// The width of a grid that nothing else sizes.
pub const GAME_X: usize = 120;

/// The height of a grid that nothing else sizes.
pub const GAME_Y: usize = 80;

/// A grid held as a vector of rows, `y_max` rows of `x_max` cells each.
#[derive(Debug, PartialEq, Eq)]
pub struct GameBoardOld {
    pub space: Vec<Vec<CellState>>,
    pub x_max: usize,
    pub y_max: usize,
}

/// Every row of `space` agrees with the row-major cells `cells`.
pub open spec fn rows_match(space: Seq<Vec<CellState>>, cells: Seq<CellState>, w: int, h: int) -> bool {
    forall|y: int, x: int|
        0 <= y < h && 0 <= x < w ==> #[trigger] space[y]@[x] == cells[y * w + x]
}

impl GameBoardOld {
    /// `y_max` rows of `x_max` cells each.
    pub open spec fn wf(&self) -> bool {
        &&& self.space@.len() == self.y_max
        &&& forall|y: int| 0 <= y < self.y_max ==> (#[trigger] self.space@[y])@.len() == self.x_max
    }

    /// The cells, row-major.
    pub open spec fn flat(&self) -> Seq<CellState> {
        Seq::new(
            (self.x_max * self.y_max) as nat,
            |i: int| self.space@[i / (self.x_max as int)]@[i % (self.x_max as int)],
        )
    }

    /// Rows that agree with `cells` make the whole grid equal to `cells`.
    pub proof fn lemma_flat_from_rows(&self, cells: Seq<CellState>)
        requires
            self.wf(),
            cells.len() == self.x_max * self.y_max,
            rows_match(self.space@, cells, self.x_max as int, self.y_max as int),
        ensures
            self.flat() == cells,
    {
        let w = self.x_max as int;
        let h = self.y_max as int;
        assert forall|i: int| 0 <= i < cells.len() implies #[trigger] self.flat()[i] == cells[i] by {
            lemma_index_split(i, w, h);
            assert(self.space@[i / w]@[i % w] == cells[(i / w) * w + i % w]);
        }
        assert(self.flat() =~= cells);
    }

    /// The cell at `(x, y)` of the row-major view is the cell of row `y`.
    pub proof fn lemma_cell(&self, x: int, y: int)
        requires
            self.wf(),
            in_bounds(self.x_max as int, self.y_max as int, x, y),
        ensures
            0 <= y * self.x_max + x < self.flat().len(),
            self.flat()[y * self.x_max + x] == self.space@[y]@[x],
            cell_at(self.flat(), self.x_max as int, x, y) == self.space@[y]@[x],
    {
        lemma_flat_index(self.x_max as int, self.y_max as int, x, y);
    }

    /// The state of the cell at `(x, y)`.
    pub fn get(&self, x: usize, y: usize) -> (r: CellState)
        requires
            self.wf(),
            in_bounds(self.x_max as int, self.y_max as int, x as int, y as int),
        ensures
            r == cell_at(self.flat(), self.x_max as int, x as int, y as int),
            r == self.space@[y as int]@[x as int],
    {
        proof {
            self.lemma_cell(x as int, y as int);
        }
        self.space[y][x]
    }

    /// Writes the state of the cell at `(x, y)`.
    pub fn set(&mut self, x: usize, y: usize, value: CellState)
        requires
            old(self).wf(),
            in_bounds(old(self).x_max as int, old(self).y_max as int, x as int, y as int),
        ensures
            final(self).wf(),
            final(self).x_max == old(self).x_max,
            final(self).y_max == old(self).y_max,
            final(self).flat() == old(self).flat().update(y * old(self).x_max + x, value),
    {
        let ghost before = self.flat();
        proof {
            self.lemma_cell(x as int, y as int);
        }
        self.space[y][x] = value;
        proof {
            let w = self.x_max as int;
            let h = self.y_max as int;
            let target = before.update(y * w + x, value);
            assert forall|b: int, a: int|
                0 <= b < h && 0 <= a < w implies #[trigger] self.space@[b]@[a] == target[b * w
                + a] by {
                lemma_flat_index(w, h, a, b);
                lemma_flat_index(w, h, x as int, y as int);
                if b * w + a == y * w + x {
                    assert(b == y && a == x);
                }
            }
            self.lemma_flat_from_rows(target);
        }
    }

    /// Writes `status` into every cell of `cells`.
    pub fn set_cells(&mut self, cells: Vec<(usize, usize)>, status: CellState)
        requires
            old(self).wf(),
            forall|i: int|
                0 <= i < cells@.len() ==> in_bounds(
                    old(self).x_max as int,
                    old(self).y_max as int,
                    #[trigger] cells@[i].0 as int,
                    cells@[i].1 as int,
                ),
        ensures
            final(self).wf(),
            final(self).x_max == old(self).x_max,
            final(self).y_max == old(self).y_max,
            final(self).flat() == write_cells(
                old(self).flat(),
                old(self).x_max as int,
                cells@,
                seq![status],
            ),
    {
        let mut i: usize = 0;
        while i < cells.len()
            invariant
                i <= cells@.len(),
                self.wf(),
                self.x_max == old(self).x_max,
                self.y_max == old(self).y_max,
                forall|k: int|
                    0 <= k < cells@.len() ==> in_bounds(
                        self.x_max as int,
                        self.y_max as int,
                        #[trigger] cells@[k].0 as int,
                        cells@[k].1 as int,
                    ),
                self.flat() == write_cells(
                    old(self).flat(),
                    self.x_max as int,
                    cells@.take(i as int),
                    seq![status],
                ),
            decreases cells@.len() - i,
        {
            let (x, y) = cells[i];
            proof {
                assert(cells@.take(i + 1).drop_last() =~= cells@.take(i as int));
            }
            self.set(x, y, status);
            i = i + 1;
        }
        assert(cells@.take(i as int) =~= cells@);
    }

    /// A grid of `y` rows of `x` dead cells.
    pub fn new(x: usize, y: usize) -> (r: GameBoardOld)
        ensures
            r.wf(),
            r.x_max == x,
            r.y_max == y,
            r.flat() == Seq::new((x * y) as nat, |i: int| CellState::Dead),
    {
        let mut space: Vec<Vec<CellState>> = Vec::new();
        let mut k: usize = 0;
        while k < y
            invariant
                k <= y,
                space@.len() == k,
                forall|j: int| 0 <= j < k ==> (#[trigger] space@[j])@ == Seq::new(x as nat, |i: int| CellState::Dead),
            decreases y - k,
        {
            space.push(filled(x, CellState::Dead));
            k = k + 1;
        }
        let r = GameBoardOld { space, x_max: x, y_max: y };
        proof {
            let dead = Seq::new((x * y) as nat, |i: int| CellState::Dead);
            assert forall|b: int, a: int|
                0 <= b < y && 0 <= a < x implies #[trigger] r.space@[b]@[a] == dead[b * x + a] by {
                lemma_flat_index(x as int, y as int, a, b);
            }
            r.lemma_flat_from_rows(dead);
        }
        r
    }

    /// Whether any cell is alive.
    pub fn has_alive_cells(&self) -> (r: bool)
        requires
            self.wf(),
        ensures
            r == self.flat().contains(CellState::Alive),
    {
        let w = self.x_max;
        let h = self.y_max;
        let mut y: usize = 0;
        while y < h
            invariant
                self.wf(),
                w == self.x_max,
                h == self.y_max,
                y <= h,
                forall|b: int, a: int| 0 <= b < y && 0 <= a < w ==> #[trigger] self.space@[b]@[a] == CellState::Dead,
            decreases h - y,
        {
            let mut x: usize = 0;
            while x < w
                invariant
                    self.wf(),
                    w == self.x_max,
                    h == self.y_max,
                    y < h,
                    x <= w,
                    forall|b: int, a: int| 0 <= b < y && 0 <= a < w ==> #[trigger] self.space@[b]@[a] == CellState::Dead,
                    forall|a: int| 0 <= a < x ==> #[trigger] self.space@[y as int]@[a] == CellState::Dead,
                decreases w - x,
            {
                if self.space[y][x] == CellState::Alive {
                    proof {
                        self.lemma_cell(x as int, y as int);
                    }
                    return true;
                }
                x = x + 1;
            }
            y = y + 1;
        }
        proof {
            assert forall|i: int| 0 <= i < self.flat().len() implies #[trigger] self.flat()[i] != CellState::Alive by {
                lemma_index_split(i, w as int, h as int);
                assert(self.space@[i / (w as int)]@[i % (w as int)] == CellState::Dead);
            }
        }
        false
    }

    /// Every cell dead.
    pub fn clear(&mut self)
        requires
            old(self).wf(),
        ensures
            final(self).wf(),
            final(self).x_max == old(self).x_max,
            final(self).y_max == old(self).y_max,
            final(self).flat() == Seq::new(old(self).flat().len(), |i: int| CellState::Dead),
    {
        *self = GameBoardOld::new(self.x_max, self.y_max);
    }

    /// Writes into `other` the next generation of this grid.
    pub fn update_to(&self, other: &mut GameBoardOld)
        requires
            self.wf(),
        ensures
            final(other).wf(),
            final(other).x_max == self.x_max,
            final(other).y_max == self.y_max,
            final(other).flat() == step_cells(self.flat(), self.x_max as nat, self.y_max as nat),
    {
        *other = update_board(self);
    }

    /// Takes the dimensions from the rows: as many rows as there are, as
    /// wide as the first.
    pub fn rescale_bounds(&mut self)
        requires
            old(self).space@.len() > 0,
        ensures
            final(self).space == old(self).space,
            final(self).y_max == old(self).space@.len(),
            final(self).x_max == old(self).space@[0]@.len(),
    {
        self.y_max = self.space.len();
        self.x_max = self.space[0].len();
    }
}

/// The neighbours of `(x, y)` that lie on the board, from the top left row
/// by row. Off the board the list still holds the adjacent cells on it.
pub fn get_neighbors(board: &GameBoardOld, x: usize, y: usize) -> (r: Vec<(usize, usize)>)
    ensures
        int_pairs(r@) == neighbor_seq(board.x_max as int, board.y_max as int, x as int, y as int),
        forall|i: int| 0 <= i < r.len() ==> #[trigger] r@[i].0 < board.x_max && r@[i].1 < board.y_max,
        r.len() <= 8,
{
    neighbor_coords(board.x_max, board.y_max, x, y)
}

/// The number of live cells around `(x, y)`.
pub fn num_alive_neighbors(board: &GameBoardOld, x: usize, y: usize) -> (r: usize)
    requires
        board.wf(),
    ensures
        r == live_neighbors(board.flat(), board.x_max as int, board.y_max as int, x as int, y as int),
{
    let around = get_neighbors(board, x, y);
    let ghost ps = int_pairs(around@);
    let mut count: usize = 0;
    let mut i: usize = 0;
    while i < around.len()
        invariant
            board.wf(),
            i <= around.len(),
            around.len() <= 8,
            ps == int_pairs(around@),
            forall|k: int| 0 <= k < around.len() ==> #[trigger] around@[k].0 < board.x_max && around@[k].1 < board.y_max,
            count <= i,
            count == count_alive(board.flat(), board.x_max as int, ps.take(i as int)),
        decreases around.len() - i,
    {
        let (a, b) = around[i];
        proof {
            assert(ps.take(i + 1).drop_last() =~= ps.take(i as int));
        }
        if board.get(a, b) == CellState::Alive {
            count = count + 1;
        }
        i = i + 1;
    }
    assert(ps.take(i as int) =~= ps);
    count
}

/// The next generation of `old_board`, with the same dimensions.
fn update_board(old_board: &GameBoardOld) -> (r: GameBoardOld)
    requires
        old_board.wf(),
    ensures
        r.wf(),
        r.x_max == old_board.x_max,
        r.y_max == old_board.y_max,
        r.flat() == step_cells(old_board.flat(), old_board.x_max as nat, old_board.y_max as nat),
{
    let w = old_board.x_max;
    let h = old_board.y_max;
    let ghost next = step_cells(old_board.flat(), w as nat, h as nat);
    let mut space: Vec<Vec<CellState>> = Vec::new();
    let mut y: usize = 0;
    while y < h
        invariant
            old_board.wf(),
            w == old_board.x_max,
            h == old_board.y_max,
            next == step_cells(old_board.flat(), w as nat, h as nat),
            y <= h,
            space@.len() == y,
            forall|b: int| 0 <= b < y ==> (#[trigger] space@[b])@.len() == w,
            forall|b: int, a: int| 0 <= b < y && 0 <= a < w ==> #[trigger] space@[b]@[a] == next[b * w + a],
        decreases h - y,
    {
        let mut row: Vec<CellState> = Vec::new();
        let mut x: usize = 0;
        while x < w
            invariant
                old_board.wf(),
                w == old_board.x_max,
                h == old_board.y_max,
                next == step_cells(old_board.flat(), w as nat, h as nat),
                y < h,
                x <= w,
                row@.len() == x,
                forall|a: int| 0 <= a < x ==> #[trigger] row@[a] == next[y * w + a],
            decreases w - x,
        {
            let n = num_alive_neighbors(old_board, x, y);
            let c = next_cell(old_board.get(x, y), n);
            proof {
                lemma_flat_index(w as int, h as int, x as int, y as int);
                old_board.lemma_cell(x as int, y as int);
            }
            row.push(c);
            x = x + 1;
        }
        space.push(row);
        y = y + 1;
    }
    let r = GameBoardOld { space, x_max: w, y_max: h };
    proof {
        r.lemma_flat_from_rows(next);
    }
    r
}

/// The board after `n` generations.
pub fn run_iterations(board: &GameBoardOld, n: usize) -> (r: GameBoardOld)
    requires
        board.wf(),
    ensures
        r.wf(),
        r.x_max == board.x_max,
        r.y_max == board.y_max,
        r.flat() == iterate_cells(board.flat(), board.x_max as nat, board.y_max as nat, n as nat),
{
    let mut new_board = copy_board(board);
    let mut k: usize = 0;
    while k < n
        invariant
            board.wf(),
            k <= n,
            new_board.wf(),
            new_board.x_max == board.x_max,
            new_board.y_max == board.y_max,
            new_board.flat() == iterate_cells(board.flat(), board.x_max as nat, board.y_max as nat, k as nat),
        decreases n - k,
    {
        proof {
            lemma_iterate_succ(board.flat(), board.x_max as nat, board.y_max as nat, k as nat);
        }
        new_board = update_board(&new_board);
        k = k + 1;
    }
    new_board
}

/// A copy of `board`, row by row.
fn copy_board(board: &GameBoardOld) -> (r: GameBoardOld)
    requires
        board.wf(),
    ensures
        r.wf(),
        r.x_max == board.x_max,
        r.y_max == board.y_max,
        r.flat() == board.flat(),
{
    let mut space: Vec<Vec<CellState>> = Vec::new();
    let mut y: usize = 0;
    while y < board.y_max
        invariant
            board.wf(),
            y <= board.y_max,
            space@.len() == y,
            forall|b: int| 0 <= b < y ==> (#[trigger] space@[b])@ == board.space@[b]@,
        decreases board.y_max - y,
    {
        let row = &board.space[y];
        let mut copy: Vec<CellState> = Vec::new();
        let mut x: usize = 0;
        while x < row.len()
            invariant
                x <= row@.len(),
                copy@ == row@.take(x as int),
            decreases row@.len() - x,
        {
            copy.push(row[x]);
            x = x + 1;
            assert(copy@ =~= row@.take(x as int));
        }
        assert(copy@ =~= row@);
        space.push(copy);
        y = y + 1;
    }
    let r = GameBoardOld { space, x_max: board.x_max, y_max: board.y_max };
    assert forall|i: int| 0 <= i < r.flat().len() implies #[trigger] r.flat()[i] == board.flat()[i] by {
        lemma_index_split(i, board.x_max as int, board.y_max as int);
        assert(r.space@[i / (board.x_max as int)]@ == board.space@[i / (board.x_max as int)]@);
    }
    assert(r.flat() =~= board.flat());
    r
}

} // verus!
