use vstd::prelude::*;

use crate::cell::CellState;

verus! {

/// Whether `(x, y)` lies on a `w` by `h` grid.
pub open spec fn in_bounds(w: int, h: int, x: int, y: int) -> bool {
    0 <= x < w && 0 <= y < h
}

/// The cell at `(x, y)` of a row-major grid `w` cells wide.
pub open spec fn cell_at(cells: Seq<CellState>, w: int, x: int, y: int) -> CellState {
    cells[y * w + x]
}

/// `(x, y)` alone if it lies on the grid, else nothing.
pub open spec fn keep_if_inside(w: int, h: int, x: int, y: int) -> Seq<(int, int)> {
    if in_bounds(w, h, x, y) {
        seq![(x, y)]
    } else {
        Seq::empty()
    }
}

/// The clipped Moore neighbourhood of `(x, y)`, row by row from the top left:
/// the eight adjacent coordinates that lie on the grid, without wraparound.
pub open spec fn neighbor_seq(w: int, h: int, x: int, y: int) -> Seq<(int, int)> {
    keep_if_inside(w, h, x - 1, y - 1) + keep_if_inside(w, h, x, y - 1) + keep_if_inside(
        w,
        h,
        x + 1,
        y - 1,
    ) + keep_if_inside(w, h, x - 1, y) + keep_if_inside(w, h, x + 1, y) + keep_if_inside(
        w,
        h,
        x - 1,
        y + 1,
    ) + keep_if_inside(w, h, x, y + 1) + keep_if_inside(w, h, x + 1, y + 1)
}

/// Coordinates as mathematical integers.
pub open spec fn int_pairs(ps: Seq<(usize, usize)>) -> Seq<(int, int)> {
    ps.map_values(|p: (usize, usize)| (p.0 as int, p.1 as int))
}

/// 1 for a live cell, 0 for a dead one.
pub open spec fn alive_value(c: CellState) -> int {
    if c == CellState::Alive {
        1
    } else {
        0
    }
}

/// How many of the coordinates `ps` hold a live cell.
pub open spec fn count_alive(cells: Seq<CellState>, w: int, ps: Seq<(int, int)>) -> int
    decreases ps.len(),
{
    if ps.len() == 0 {
        0
    } else {
        count_alive(cells, w, ps.drop_last()) + alive_value(
            cell_at(cells, w, ps.last().0, ps.last().1),
        )
    }
}

/// The number of live cells around `(x, y)`.
pub open spec fn live_neighbors(cells: Seq<CellState>, w: int, h: int, x: int, y: int) -> int {
    count_alive(cells, w, neighbor_seq(w, h, x, y))
}

/// The rule B3/S23: a live cell with two or three live neighbours survives,
/// a dead cell with exactly three is born, every other cell is dead.
pub open spec fn next_state(current: CellState, n: int) -> CellState {
    if (current == CellState::Alive && (n == 2 || n == 3)) || (current == CellState::Dead && n
        == 3) {
        CellState::Alive
    } else {
        CellState::Dead
    }
}

/// One generation of a `w` by `h` grid: every cell's next state is read from
/// the current generation alone.
pub open spec fn step_cells(cells: Seq<CellState>, w: nat, h: nat) -> Seq<CellState> {
    Seq::new(
        w * h,
        |i: int| next_state(cells[i], live_neighbors(cells, w as int, h as int, i % (w as int), i / (w as int))),
    )
}

/// `n` generations.
pub open spec fn iterate_cells(cells: Seq<CellState>, w: nat, h: nat, n: nat) -> Seq<CellState>
    decreases n,
{
    if n == 0 {
        cells
    } else {
        iterate_cells(step_cells(cells, w, h), w, h, (n - 1) as nat)
    }
}

/// Zero generations leave a grid as it is.
pub proof fn lemma_iterate_zero(cells: Seq<CellState>, w: nat, h: nat)
    ensures
        iterate_cells(cells, w, h, 0) == cells,
{
}

/// Running `a + b` generations is running `a`, then `b` more.
pub proof fn lemma_iterate_add(cells: Seq<CellState>, w: nat, h: nat, a: nat, b: nat)
    ensures
        iterate_cells(cells, w, h, a + b) == iterate_cells(iterate_cells(cells, w, h, a), w, h, b),
    decreases a,
{
    if a > 0 {
        lemma_iterate_add(step_cells(cells, w, h), w, h, (a - 1) as nat, b);
        assert((a + b - 1) as nat == ((a - 1) as nat + b) as nat);
    }
}

/// One more generation is one step of the result.
pub proof fn lemma_iterate_succ(cells: Seq<CellState>, w: nat, h: nat, n: nat)
    ensures
        iterate_cells(cells, w, h, n + 1) == step_cells(iterate_cells(cells, w, h, n), w, h),
{
    lemma_iterate_add(cells, w, h, n, 1);
    let m = iterate_cells(cells, w, h, n);
    assert(iterate_cells(m, w, h, 1) == iterate_cells(step_cells(m, w, h), w, h, 0));
}

/// A cell of a grid at least two cells wide and high has 3 neighbours in a
/// corner, 5 on any other border cell and 8 inside.
pub proof fn lemma_neighbor_counts(w: int, h: int, x: int, y: int)
    requires
        w >= 2,
        h >= 2,
        in_bounds(w, h, x, y),
    ensures
        (x == 0 || x == w - 1) && (y == 0 || y == h - 1) ==> neighbor_seq(w, h, x, y).len() == 3,
        !((x == 0 || x == w - 1) && (y == 0 || y == h - 1)) && (x == 0 || x == w - 1 || y == 0
            || y == h - 1) ==> neighbor_seq(w, h, x, y).len() == 5,
        0 < x < w - 1 && 0 < y < h - 1 ==> neighbor_seq(w, h, x, y).len() == 8,
        neighbor_seq(w, h, x, y).no_duplicates(),
        neighbor_seq(w, h, x, y).to_set().len() == neighbor_seq(w, h, x, y).len(),
{
    let s = neighbor_seq(w, h, x, y);
    assert(forall|a: int, b: int| #[trigger] keep_if_inside(w, h, a, b).len() == (if in_bounds(w, h, a, b) { 1int } else { 0int }));
    assert(s.no_duplicates());
    s.unique_seq_to_set();
}

/// Appends `(x + dx - 1, y + dy - 1)` when it lies on the grid.
fn push_if_inside(v: &mut Vec<(usize, usize)>, w: usize, h: usize, x: usize, y: usize, dx: u8, dy: u8)
    requires
        dx <= 2,
        dy <= 2,
    ensures
        int_pairs(final(v)@) == int_pairs(old(v)@) + keep_if_inside(
            w as int,
            h as int,
            x + dx - 1,
            y + dy - 1,
        ),
{
    let ghost before = v@;
    let nx: usize = if dx == 0 {
        if x == 0 {
            assert(int_pairs(v@) =~= int_pairs(before) + Seq::empty());
            return;
        }
        x - 1
    } else if dx == 1 {
        x
    } else {
        if x >= w {
            assert(int_pairs(v@) =~= int_pairs(before) + Seq::empty());
            return;
        }
        x + 1
    };
    let ny: usize = if dy == 0 {
        if y == 0 {
            assert(int_pairs(v@) =~= int_pairs(before) + Seq::empty());
            return;
        }
        y - 1
    } else if dy == 1 {
        y
    } else {
        if y >= h {
            assert(int_pairs(v@) =~= int_pairs(before) + Seq::empty());
            return;
        }
        y + 1
    };
    if nx < w && ny < h {
        v.push((nx, ny));
        assert(int_pairs(v@) =~= int_pairs(before) + seq![(nx as int, ny as int)]);
    } else {
        assert(int_pairs(v@) =~= int_pairs(before) + Seq::empty());
    }
}

/// The coordinates of the clipped neighbourhood of `(x, y)` on a `w` by `h`
/// grid, in the order of `neighbor_seq`.
pub fn neighbor_coords(w: usize, h: usize, x: usize, y: usize) -> (r: Vec<(usize, usize)>)
    ensures
        int_pairs(r@) == neighbor_seq(w as int, h as int, x as int, y as int),
        forall|i: int| 0 <= i < r.len() ==> #[trigger] r@[i].0 < w && r@[i].1 < h,
        r.len() <= 8,
{
    let mut v: Vec<(usize, usize)> = Vec::new();
    assert(int_pairs(v@) =~= Seq::empty());
    push_if_inside(&mut v, w, h, x, y, 0, 0);
    push_if_inside(&mut v, w, h, x, y, 1, 0);
    push_if_inside(&mut v, w, h, x, y, 2, 0);
    push_if_inside(&mut v, w, h, x, y, 0, 1);
    push_if_inside(&mut v, w, h, x, y, 2, 1);
    push_if_inside(&mut v, w, h, x, y, 0, 2);
    push_if_inside(&mut v, w, h, x, y, 1, 2);
    push_if_inside(&mut v, w, h, x, y, 2, 2);
    assert(int_pairs(v@) =~= neighbor_seq(w as int, h as int, x as int, y as int));
    assert(int_pairs(v@).len() == v@.len());
    assert forall|i: int| 0 <= i < v.len() implies #[trigger] v@[i].0 < w && v@[i].1 < h by {
        assert(int_pairs(v@)[i] == (v@[i].0 as int, v@[i].1 as int));
        assert(neighbor_seq(w as int, h as int, x as int, y as int).contains(int_pairs(v@)[i]));
    }
    v
}

/// How many of the coordinates `ps` hold a live cell of a row-major grid
/// `w` cells wide.
pub fn count_live(cells: &Vec<CellState>, w: usize, h: usize, ps: &Vec<(usize, usize)>) -> (r: usize)
    requires
        cells.len() == w * h,
        forall|i: int| 0 <= i < ps.len() ==> #[trigger] ps@[i].0 < w && ps@[i].1 < h,
    ensures
        r == count_alive(cells@, w as int, int_pairs(ps@)),
{
    let mut count: usize = 0;
    let mut i: usize = 0;
    while i < ps.len()
        invariant
            i <= ps.len(),
            cells.len() == w * h,
            forall|k: int| 0 <= k < ps.len() ==> #[trigger] ps@[k].0 < w && ps@[k].1 < h,
            count <= i,
            count == count_alive(cells@, w as int, int_pairs(ps@).take(i as int)),
        decreases ps.len() - i,
    {
        let (a, b) = ps[i];
        proof {
            lemma_flat_index(w as int, h as int, a as int, b as int);
            assert(int_pairs(ps@).take(i + 1).drop_last() =~= int_pairs(ps@).take(i as int));
        }
        if cells[b * w + a] == CellState::Alive {
            count = count + 1;
        }
        i = i + 1;
    }
    assert(int_pairs(ps@).take(i as int) =~= int_pairs(ps@));
    count
}

/// Row-major indexing: `(x, y)` of a `w` by `h` grid sits at `y * w + x`,
/// and that index gives back `x` and `y`.
pub proof fn lemma_flat_index(w: int, h: int, x: int, y: int)
    requires
        in_bounds(w, h, x, y),
    ensures
        0 <= y * w + x < w * h,
        (y * w + x) / w == y,
        (y * w + x) % w == x,
{
    assert(0 <= y * w + x < w * h) by (nonlinear_arith)
        requires
            0 <= x < w,
            0 <= y < h,
    ;
    vstd::arithmetic::div_mod::lemma_fundamental_div_mod_converse(y * w + x, w, y, x);
}

/// The next state of a cell in `current` state with `n` live neighbours.
pub fn next_cell(current: CellState, n: usize) -> (r: CellState)
    ensures
        r == next_state(current, n as int),
{
    match current {
        CellState::Alive => if n == 2 || n == 3 {
            CellState::Alive
        } else {
            CellState::Dead
        },
        CellState::Dead => if n == 3 {
            CellState::Alive
        } else {
            CellState::Dead
        },
    }
}

/// Index `i` of a `w` by `h` row-major grid is column `i % w` of row `i / w`.
pub proof fn lemma_index_split(i: int, w: int, h: int)
    requires
        0 <= i < w * h,
        w >= 0,
        h >= 0,
    ensures
        w > 0,
        0 <= i % w < w,
        0 <= i / w < h,
        (i / w) * w + i % w == i,
{
    if w <= 0 {
        assert(w * h == 0) by (nonlinear_arith)
            requires
                w == 0,
        ;
    }
    vstd::arithmetic::div_mod::lemma_fundamental_div_mod(i, w);
    vstd::arithmetic::div_mod::lemma_mod_bound(i, w);
    vstd::arithmetic::div_mod::lemma_div_pos_is_pos(i, w);
    assert(i / w < h) by (nonlinear_arith)
        requires
            w > 0,
            i == w * (i / w) + i % w,
            0 <= i % w,
            i < w * h,
    ;
    assert((i / w) * w == w * (i / w)) by (nonlinear_arith);
}

} // verus!
