use vstd::prelude::*;

use crate::board::GameBoardOld;
use crate::cell::CellState;
use crate::rules::{
    cell_at, count_live, in_bounds, iterate_cells, lemma_flat_index, lemma_index_split,
    lemma_iterate_succ, neighbor_coords, next_cell, step_cells,
};

verus! {

/// A bulk write that could not be carried out.
#[derive(Clone, Copy, Debug, PartialEq, Eq, Structural)]
pub enum GridError {
    /// The list of states is neither one state nor one per coordinate.
    LengthMismatch,
}

/// The cells after writing `states` at the coordinates `pos`, in order: a
/// single state goes to every coordinate, otherwise the states go pairwise.
pub open spec fn write_cells(
    cells: Seq<CellState>,
    w: int,
    pos: Seq<(usize, usize)>,
    states: Seq<CellState>,
) -> Seq<CellState>
    decreases pos.len(),
{
    if pos.len() == 0 {
        cells
    } else {
        let k = pos.len() - 1;
        write_cells(cells, w, pos.drop_last(), states).update(
            pos[k].1 * w + pos[k].0,
            if states.len() == 1 {
                states[0]
            } else {
                states[k]
            },
        )
    }
}

/// Writing one state at a list of coordinates leaves that state at each of
/// them.
pub proof fn lemma_write_single_state(
    cells: Seq<CellState>,
    w: int,
    h: int,
    pos: Seq<(usize, usize)>,
    state: CellState,
    i: int,
)
    requires
        cells.len() == w * h,
        0 <= i < pos.len(),
        forall|k: int| 0 <= k < pos.len() ==> in_bounds(w, h, #[trigger] pos[k].0 as int, pos[k].1 as int),
    ensures
        write_cells(cells, w, pos, seq![state]).len() == cells.len(),
        cell_at(write_cells(cells, w, pos, seq![state]), w, pos[i].0 as int, pos[i].1 as int) == state,
    decreases pos.len(),
{
    let k = pos.len() - 1;
    lemma_write_len(cells, w, h, pos.drop_last(), seq![state]);
    lemma_flat_index(w, h, pos[k].0 as int, pos[k].1 as int);
    lemma_flat_index(w, h, pos[i].0 as int, pos[i].1 as int);
    if i < k {
        lemma_write_single_state(cells, w, h, pos.drop_last(), state, i);
    }
}

proof fn lemma_write_len(
    cells: Seq<CellState>,
    w: int,
    h: int,
    pos: Seq<(usize, usize)>,
    states: Seq<CellState>,
)
    requires
        cells.len() == w * h,
        forall|k: int| 0 <= k < pos.len() ==> in_bounds(w, h, #[trigger] pos[k].0 as int, pos[k].1 as int),
    ensures
        write_cells(cells, w, pos, states).len() == cells.len(),
    decreases pos.len(),
{
    if pos.len() > 0 {
        let k = pos.len() - 1;
        lemma_write_len(cells, w, h, pos.drop_last(), states);
        lemma_flat_index(w, h, pos[k].0 as int, pos[k].1 as int);
    }
}

/// A grid of `x_max` by `y_max` cells, stored row by row. A second buffer of
/// the same size receives each new generation before the two are swapped.
#[derive(Debug, Clone)]
pub struct Game {
    x_max: usize,
    y_max: usize,
    current: Vec<CellState>,
    previous: Vec<CellState>,
}

impl Game {
    /// The number of columns.
    pub closed spec fn w(&self) -> nat {
        self.x_max as nat
    }

    /// The number of rows.
    pub closed spec fn h(&self) -> nat {
        self.y_max as nat
    }

    /// The cells, row-major.
    pub closed spec fn cells(&self) -> Seq<CellState> {
        self.current@
    }

    /// The grid holds exactly `w * h` cells.
    pub open spec fn wf(&self) -> bool {
        &&& self.cells().len() == self.w() * self.h()
        &&& self.buffers_agree()
    }

    /// The scratch buffer is as long as the cells.
    pub closed spec fn buffers_agree(&self) -> bool {
        self.previous.len() == self.current.len()
    }

    /// A grid of `x` by `y` dead cells.
    pub fn new(x: usize, y: usize) -> (r: Game)
        requires
            x * y <= usize::MAX,
        ensures
            r.wf(),
            r.w() == x,
            r.h() == y,
            r.cells() == Seq::new((x * y) as nat, |i: int| CellState::Dead),
    {
        let n: usize = x * y;
        let current = filled(n, CellState::Dead);
        let previous = filled(n, CellState::Dead);
        let r = Game { x_max: x, y_max: y, current, previous };
        assert(r.cells() =~= Seq::new((x * y) as nat, |i: int| CellState::Dead));
        r
    }

    /// The number of columns.
    pub fn width(&self) -> (r: usize)
        ensures
            r == self.w(),
    {
        self.x_max
    }

    /// The number of rows.
    pub fn height(&self) -> (r: usize)
        ensures
            r == self.h(),
    {
        self.y_max
    }

    /// The cell at `(x, y)`, or `None` off the grid.
    pub fn get(&self, x: usize, y: usize) -> (r: Option<CellState>)
        requires
            self.wf(),
        ensures
            in_bounds(self.w() as int, self.h() as int, x as int, y as int) ==> r == Some(
                cell_at(self.cells(), self.w() as int, x as int, y as int),
            ),
            !in_bounds(self.w() as int, self.h() as int, x as int, y as int) ==> r is None,
    {
        if x >= self.x_max || y >= self.y_max {
            return None;
        }
        proof {
            lemma_flat_index(self.x_max as int, self.y_max as int, x as int, y as int);
        }
        Some(self.current[y * self.x_max + x])
    }

    /// Writes one cell on the grid.
    pub fn set(&mut self, x: usize, y: usize, cell: CellState)
        requires
            old(self).wf(),
            in_bounds(old(self).w() as int, old(self).h() as int, x as int, y as int),
        ensures
            final(self).wf(),
            final(self).w() == old(self).w(),
            final(self).h() == old(self).h(),
            final(self).cells() == old(self).cells().update(y * old(self).w() + x, cell),
            cell_at(final(self).cells(), old(self).w() as int, x as int, y as int) == cell,
            forall|i: int, j: int|
                in_bounds(old(self).w() as int, old(self).h() as int, i, j) && (i, j) != (x as int, y as int)
                    ==> #[trigger] cell_at(final(self).cells(), old(self).w() as int, i, j) == cell_at(
                    old(self).cells(),
                    old(self).w() as int,
                    i,
                    j,
                ),
    {
        proof {
            lemma_flat_index(self.x_max as int, self.y_max as int, x as int, y as int);
        }
        let i: usize = y * self.x_max + x;
        self.current.set(i, cell);
        proof {
            let w = self.x_max as int;
            let h = self.y_max as int;
            assert forall|a: int, b: int|
                in_bounds(w, h, a, b) && (a, b) != (x as int, y as int) implies #[trigger] cell_at(
                self.current@,
                w,
                a,
                b,
            ) == cell_at(old(self).current@, w, a, b) by {
                lemma_flat_index(w, h, a, b);
                lemma_flat_index(w, h, x as int, y as int);
                if b * w + a == y * w + x {
                    assert(a == x && b == y);
                }
            }
        }
    }

    /// Writes `cells` at the coordinates `pos`: one state goes to every
    /// coordinate, else there must be one state per coordinate. On any other
    /// length nothing is written, wherever the coordinates lie.
    pub fn set_many(&mut self, pos: &[(usize, usize)], cells: &[CellState]) -> (r: Result<(), GridError>)
        requires
            old(self).wf(),
            cells@.len() == 1 || cells@.len() == pos@.len() ==> forall|i: int|
                0 <= i < pos@.len() ==> in_bounds(
                    old(self).w() as int,
                    old(self).h() as int,
                    #[trigger] pos@[i].0 as int,
                    pos@[i].1 as int,
                ),
        ensures
            final(self).wf(),
            final(self).w() == old(self).w(),
            final(self).h() == old(self).h(),
            r is Ok <==> (cells@.len() == 1 || cells@.len() == pos@.len()),
            r is Ok ==> final(self).cells() == write_cells(
                old(self).cells(),
                old(self).w() as int,
                pos@,
                cells@,
            ),
            r is Err ==> r == Err::<(), GridError>(GridError::LengthMismatch) && final(self).cells()
                == old(self).cells(),
    {
        if cells.len() != 1 && cells.len() != pos.len() {
            return Err(GridError::LengthMismatch);
        }
        let ghost start = self.current@;
        let mut i: usize = 0;
        while i < pos.len()
            invariant
                i <= pos@.len(),
                cells@.len() == 1 || cells@.len() == pos@.len(),
                self.current.len() == self.x_max * self.y_max,
                self.previous.len() == self.current.len(),
                self.x_max == old(self).x_max,
                self.y_max == old(self).y_max,
                start == old(self).current@,
                forall|k: int|
                    0 <= k < pos@.len() ==> in_bounds(
                        self.x_max as int,
                        self.y_max as int,
                        #[trigger] pos@[k].0 as int,
                        pos@[k].1 as int,
                    ),
                self.current@ == write_cells(start, self.x_max as int, pos@.take(i as int), cells@),
            decreases pos@.len() - i,
        {
            let (x, y) = pos[i];
            let c = if cells.len() == 1 {
                cells[0]
            } else {
                cells[i]
            };
            proof {
                lemma_flat_index(self.x_max as int, self.y_max as int, x as int, y as int);
                assert(pos@.take(i + 1).drop_last() =~= pos@.take(i as int));
            }
            self.current.set(y * self.x_max + x, c);
            i = i + 1;
        }
        assert(pos@.take(i as int) =~= pos@);
        Ok(())
    }

    /// Whether any cell is alive.
    pub fn has_alive_cells(&self) -> (r: bool)
        requires
            self.wf(),
        ensures
            r == self.cells().contains(CellState::Alive),
    {
        let mut i: usize = 0;
        while i < self.current.len()
            invariant
                i <= self.current.len(),
                forall|j: int| 0 <= j < i ==> self.current@[j] != CellState::Alive,
            decreases self.current.len() - i,
        {
            if self.current[i] == CellState::Alive {
                return true;
            }
            i = i + 1;
        }
        false
    }

    /// Every cell dead.
    pub fn clear(&mut self)
        requires
            old(self).wf(),
        ensures
            final(self).wf(),
            final(self).w() == old(self).w(),
            final(self).h() == old(self).h(),
            final(self).cells() == Seq::new(old(self).cells().len(), |i: int| CellState::Dead),
            forall|i: int, j: int|
                in_bounds(old(self).w() as int, old(self).h() as int, i, j) ==> #[trigger] cell_at(
                    final(self).cells(),
                    old(self).w() as int,
                    i,
                    j,
                ) == CellState::Dead,
    {
        fill_with(&mut self.current, CellState::Dead);
        fill_with(&mut self.previous, CellState::Dead);
        proof {
            assert forall|i: int, j: int| in_bounds(self.x_max as int, self.y_max as int, i, j) implies #[trigger] cell_at(
                self.current@,
                self.x_max as int,
                i,
                j,
            ) == CellState::Dead by {
                lemma_flat_index(self.x_max as int, self.y_max as int, i, j);
            }
        }
    }

    /// Every cell alive.
    pub fn fill(&mut self)
        requires
            old(self).wf(),
        ensures
            final(self).wf(),
            final(self).w() == old(self).w(),
            final(self).h() == old(self).h(),
            final(self).cells() == Seq::new(old(self).cells().len(), |i: int| CellState::Alive),
            forall|i: int, j: int|
                in_bounds(old(self).w() as int, old(self).h() as int, i, j) ==> #[trigger] cell_at(
                    final(self).cells(),
                    old(self).w() as int,
                    i,
                    j,
                ) == CellState::Alive,
    {
        fill_with(&mut self.current, CellState::Alive);
        fill_with(&mut self.previous, CellState::Alive);
        proof {
            assert forall|i: int, j: int| in_bounds(self.x_max as int, self.y_max as int, i, j) implies #[trigger] cell_at(
                self.current@,
                self.x_max as int,
                i,
                j,
            ) == CellState::Alive by {
                lemma_flat_index(self.x_max as int, self.y_max as int, i, j);
            }
        }
    }

    /// One generation: the scratch buffer receives the next state of every
    /// cell, read from the current buffer alone, and the two are swapped.
    fn iterate(&mut self)
        requires
            old(self).wf(),
        ensures
            final(self).wf(),
            final(self).w() == old(self).w(),
            final(self).h() == old(self).h(),
            final(self).cells() == step_cells(old(self).cells(), old(self).w(), old(self).h()),
    {
        let w = self.x_max;
        let h = self.y_max;
        let n = self.current.len();
        let mut i: usize = 0;
        while i < n
            invariant
                n == self.current.len(),
                n == w * h,
                w == self.x_max,
                h == self.y_max,
                self.previous.len() == n,
                self.current@ == old(self).current@,
                i <= n,
                forall|j: int|
                    0 <= j < i ==> #[trigger] self.previous@[j] == step_cells(
                        self.current@,
                        w as nat,
                        h as nat,
                    )[j],
            decreases n - i,
        {
            proof {
                lemma_index_split(i as int, w as int, h as int);
            }
            let x = i % w;
            let y = i / w;
            let around = neighbor_coords(w, h, x, y);
            let live = count_live(&self.current, w, h, &around);
            let c = next_cell(self.current[i], live);
            self.previous.set(i, c);
            i = i + 1;
        }
        std::mem::swap(&mut self.current, &mut self.previous);
        assert(self.current@ =~= step_cells(old(self).current@, w as nat, h as nat));
    }

    /// Runs `steps` generations.
    pub fn step(&mut self, steps: usize)
        requires
            old(self).wf(),
        ensures
            final(self).wf(),
            final(self).w() == old(self).w(),
            final(self).h() == old(self).h(),
            final(self).cells() == iterate_cells(old(self).cells(), old(self).w(), old(self).h(), steps as nat),
    {
        let mut k: usize = 0;
        while k < steps
            invariant
                k <= steps,
                self.wf(),
                self.w() == old(self).w(),
                self.h() == old(self).h(),
                self.cells() == iterate_cells(old(self).cells(), old(self).w(), old(self).h(), k as nat),
            decreases steps - k,
        {
            proof {
                lemma_iterate_succ(old(self).cells(), old(self).w(), old(self).h(), k as nat);
            }
            self.iterate();
            k = k + 1;
        }
    }

    /// The rows from top to bottom, each `w` cells long.
    pub fn rows(&self) -> (r: Vec<Vec<CellState>>)
        requires
            self.wf(),
        ensures
            r@.len() == self.h(),
            forall|y: int|
                0 <= y < self.h() ==> #[trigger] r@[y]@ == self.cells().subrange(
                    y * self.w(),
                    y * self.w() + self.w(),
                ),
            forall|y: int| 0 <= y < self.h() ==> (#[trigger] r@[y])@.len() == self.w(),
            forall|y: int, x: int|
                in_bounds(self.w() as int, self.h() as int, x, y) ==> #[trigger] r@[y]@[x] == cell_at(
                    self.cells(),
                    self.w() as int,
                    x,
                    y,
                ),
    {
        let w = self.x_max;
        let h = self.y_max;
        let mut out: Vec<Vec<CellState>> = Vec::new();
        let mut y: usize = 0;
        while y < h
            invariant
                y <= h,
                w == self.x_max,
                h == self.y_max,
                self.wf(),
                out@.len() == y,
                forall|k: int|
                    0 <= k < y ==> #[trigger] out@[k]@ == self.cells().subrange(k * w, k * w + w),
            decreases h - y,
        {
            let mut row: Vec<CellState> = Vec::new();
            let mut x: usize = 0;
            proof {
                assert(y * w + w <= w * h) by (nonlinear_arith)
                    requires
                        y < h,
                ;
                assert(row@ =~= self.cells().subrange(y * w, y * w + x));
            }
            while x < w
                invariant
                    x <= w,
                    y < h,
                    w == self.x_max,
                    h == self.y_max,
                    self.wf(),
                    y * w + w <= w * h,
                    row@ == self.cells().subrange(y * w, y * w + x),
                decreases w - x,
            {
                proof {
                    lemma_flat_index(w as int, h as int, x as int, y as int);
                }
                row.push(self.current[y * w + x]);
                x = x + 1;
                assert(row@ =~= self.cells().subrange(y * w, y * w + x));
            }
            out.push(row);
            y = y + 1;
        }
        proof {
            assert forall|b: int| 0 <= b < h implies (#[trigger] out@[b])@.len() == w by {
                assert(b * w + w <= w * h) by (nonlinear_arith)
                    requires
                        0 <= b < h,
                ;
            }
            assert forall|b: int, a: int| in_bounds(w as int, h as int, a, b) implies #[trigger] out@[b]@[a]
                == cell_at(self.cells(), w as int, a, b) by {
                assert(b * w + w <= w * h) by (nonlinear_arith)
                    requires
                        0 <= b < h,
                ;
            }
        }
        out
    }

    /// Copies the cells of `board`, which must have the same dimensions.
    pub fn clone_from_old(&mut self, board: &GameBoardOld) -> (r: Result<(), ()>)
        requires
            old(self).wf(),
            board.wf(),
        ensures
            final(self).wf(),
            final(self).w() == old(self).w(),
            final(self).h() == old(self).h(),
            r is Ok <==> (board.x_max == old(self).w() && board.y_max == old(self).h()),
            r is Ok ==> final(self).cells() == board.flat(),
            r is Err ==> final(self).cells() == old(self).cells(),
    {
        if self.x_max != board.x_max || self.y_max != board.y_max {
            return Err(());
        }
        let w = self.x_max;
        let h = self.y_max;
        let n = self.current.len();
        let mut i: usize = 0;
        while i < n
            invariant
                board.wf(),
                w == self.x_max,
                h == self.y_max,
                w == board.x_max,
                h == board.y_max,
                n == w * h,
                self.current.len() == n,
                self.previous.len() == n,
                i <= n,
                forall|j: int| 0 <= j < i ==> #[trigger] self.current@[j] == board.flat()[j],
            decreases n - i,
        {
            proof {
                lemma_index_split(i as int, w as int, h as int);
            }
            let c = board.get(i % w, i / w);
            self.current.set(i, c);
            i = i + 1;
        }
        assert(self.current@ =~= board.flat());
        Ok(())
    }

    /// Replaces the cells by `new`, which must hold exactly as many cells.
    pub fn replace_buffer(&mut self, new: Vec<CellState>) -> (r: Result<(), &'static str>)
        requires
            old(self).wf(),
        ensures
            final(self).wf(),
            final(self).w() == old(self).w(),
            final(self).h() == old(self).h(),
            r is Ok <==> new@.len() == old(self).w() * old(self).h(),
            r is Ok ==> final(self).cells() == new@,
            r is Err ==> final(self).cells() == old(self).cells(),
    {
        if new.len() != self.current.len() {
            return Err("Can't replace Game buffer: new and old buffers are not the same length");
        }
        self.current = new;
        Ok(())
    }
}

impl PartialEq for Game {
    /// Two grids are equal when they have the same dimensions and cells.
    fn eq(&self, other: &Game) -> (r: bool) {
        if self.x_max != other.x_max || self.y_max != other.y_max {
            return false;
        }
        if self.current.len() != other.current.len() {
            return false;
        }
        let mut i: usize = 0;
        while i < self.current.len()
            invariant
                i <= self.current.len(),
                self.current.len() == other.current.len(),
                forall|j: int| 0 <= j < i ==> self.current@[j] == other.current@[j],
            decreases self.current.len() - i,
        {
            if self.current[i] != other.current[i] {
                return false;
            }
            i = i + 1;
        }
        assert(self.current@ =~= other.current@);
        true
    }
}

impl vstd::std_specs::cmp::PartialEqSpecImpl for Game {
    open spec fn obeys_eq_spec() -> bool {
        true
    }

    open spec fn eq_spec(&self, other: &Game) -> bool {
        self.w() == other.w() && self.h() == other.h() && self.cells() == other.cells()
    }
}

/// A vector of `n` copies of `c`.
pub(crate) fn filled(n: usize, c: CellState) -> (r: Vec<CellState>)
    ensures
        r@ == Seq::new(n as nat, |i: int| c),
{
    let mut v: Vec<CellState> = Vec::new();
    let mut i: usize = 0;
    while i < n
        invariant
            i <= n,
            v@ == Seq::new(i as nat, |k: int| c),
        decreases n - i,
    {
        v.push(c);
        i = i + 1;
        assert(v@ =~= Seq::new(i as nat, |k: int| c));
    }
    v
}

/// Sets every element of `v` to `c`.
fn fill_with(v: &mut Vec<CellState>, c: CellState)
    ensures
        final(v)@ == Seq::new(old(v)@.len(), |i: int| c),
{
    let n = v.len();
    let mut i: usize = 0;
    while i < n
        invariant
            i <= n,
            v@.len() == n,
            forall|k: int| 0 <= k < i ==> #[trigger] v@[k] == c,
        decreases n - i,
    {
        v.set(i, c);
        i = i + 1;
    }
    assert(v@ =~= Seq::new(n as nat, |i: int| c));
}

} // verus!
