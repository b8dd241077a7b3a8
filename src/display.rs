use vstd::prelude::*;

use crate::cell::CellState;
use crate::game::Game;
use crate::rules::{cell_at, in_bounds};

verus! {

/// Pixels on each side of a cell.
pub const PIXELS_PER_CELL: u32 = 8;

/// Pixels between two cells, and around the grid.
pub const PADDING: u32 = 2;

/// The byte of every channel of a live cell's pixels.
pub const ALIVE_SHADE: u8 = 200;

/// How a grid is laid out on a window: its size in pixels, the size of a
/// cell, and the gap between cells.
#[derive(Clone, Copy, Debug)]
pub struct DrawInformation {
    pub screen_width: u32,
    pub screen_height: u32,
    pub cell_size: (u32, u32),
    pub padding: u32,
}

/// The cell under pixel `idx` of a frame laid out by `info`, counting pixels
/// row by row; `None` on the gaps between cells.
pub open spec fn pixel_cell(info: DrawInformation, idx: int) -> Option<(int, int)> {
    let x = idx % (info.screen_width as int);
    let y = idx / (info.screen_width as int);
    let sx = info.cell_size.0 + info.padding;
    let sy = info.cell_size.1 + info.padding;
    if x % sx <= info.padding || y % sy <= info.padding {
        None
    } else {
        Some((x / sx, y / sy))
    }
}

/// The byte of every channel of pixel `idx` when `cells` (a `w` by `h`
/// grid) is drawn: live cells light, everything else black.
pub open spec fn board_byte(cells: Seq<CellState>, w: int, h: int, info: DrawInformation, idx: int) -> u8 {
    match pixel_cell(info, idx) {
        Some((x, y)) => if in_bounds(w, h, x, y) && cell_at(cells, w, x, y) == CellState::Alive {
            ALIVE_SHADE
        } else {
            0
        },
        None => 0,
    }
}

/// The colour of channel `k` of pixel `idx` of the first frame: a
/// checkerboard of cells, the gaps black.
pub open spec fn grid_byte(info: DrawInformation, idx: int, k: int) -> u8 {
    match pixel_cell(info, idx) {
        Some((x, y)) => if k == 0 {
            (x % 2 * 128) as u8
        } else if k == 1 {
            (y % 2 * 128) as u8
        } else {
            128
        },
        None => 0,
    }
}

impl DrawInformation {
    /// The layout has pixels, and cell steps that are positive and fit a `u32`.
    pub open spec fn wf(&self) -> bool {
        &&& self.screen_width > 0
        &&& self.cell_size.0 + self.padding <= u32::MAX
        &&& self.cell_size.1 + self.padding <= u32::MAX
        &&& self.cell_size.0 + self.padding > 0
        &&& self.cell_size.1 + self.padding > 0
        &&& self.screen_width * self.screen_height * 4 <= usize::MAX
    }

    /// The layout of a `w` by `h` grid with the default cell size and
    /// padding, or `None` where the window would not fit a `u32` side.
    pub fn for_grid(w: usize, h: usize) -> (r: Option<DrawInformation>)
        ensures
            w * (PIXELS_PER_CELL + PADDING) + PADDING <= u32::MAX && h * (PIXELS_PER_CELL
                + PADDING) + PADDING <= u32::MAX && w > 0 && (w * (PIXELS_PER_CELL + PADDING) + PADDING) * (h * (PIXELS_PER_CELL + PADDING) + PADDING) * 4 <= usize::MAX
                ==> r == Some(
                DrawInformation {
                    screen_width: (w * (PIXELS_PER_CELL + PADDING) + PADDING) as u32,
                    screen_height: (h * (PIXELS_PER_CELL + PADDING) + PADDING) as u32,
                    cell_size: (PIXELS_PER_CELL, PIXELS_PER_CELL),
                    padding: PADDING,
                },
            ),
            !(w * (PIXELS_PER_CELL + PADDING) + PADDING <= u32::MAX && h * (PIXELS_PER_CELL
                + PADDING) + PADDING <= u32::MAX && w > 0 && (w * (PIXELS_PER_CELL + PADDING) + PADDING) * (h * (PIXELS_PER_CELL + PADDING) + PADDING) * 4 <= usize::MAX)
                ==> r is None,
            r matches Some(info) ==> info.wf(),
    {
        let step = (PIXELS_PER_CELL + PADDING) as u64;
        if w == 0 || w as u64 > (u32::MAX as u64 - PADDING as u64) / step || h as u64 > (
        u32::MAX as u64 - PADDING as u64) / step {
            return None;
        }
        proof {
            let m: int = (u32::MAX as int - PADDING as int) / (step as int);
            assert(m * 10 + 2 <= u32::MAX);
            assert(w * 10 <= m * 10 && h * 10 <= m * 10) by (nonlinear_arith)
                requires
                    w <= m,
                    h <= m,
            ;
        }
        let sw = w as u64 * step + PADDING as u64;
        let sh = h as u64 * step + PADDING as u64;
        assert(sw <= u32::MAX && sh <= u32::MAX);
        assert(sw * sh <= u32::MAX * u32::MAX) by (nonlinear_arith)
            requires
                sw <= u32::MAX,
                sh <= u32::MAX,
        ;
        let pixels = sw as u128 * sh as u128 * 4;
        if pixels > usize::MAX as u128 {
            return None;
        }
        Some(
            DrawInformation {
                screen_width: sw as u32,
                screen_height: sh as u32,
                cell_size: (PIXELS_PER_CELL, PIXELS_PER_CELL),
                padding: PADDING,
            },
        )
    }

    /// The column and row of pixel `idx`.
    pub fn index_to_pixel(&self, idx: usize) -> (r: (u32, u32))
        requires
            self.wf(),
            idx < self.screen_width * self.screen_height,
        ensures
            r.0 == (idx as int) % (self.screen_width as int),
            r.1 == (idx as int) / (self.screen_width as int),
    {
        let w = self.screen_width as usize;
        proof {
            vstd::arithmetic::div_mod::lemma_div_is_ordered(idx as int, (w * self.screen_height) as int, w as int);
            vstd::arithmetic::div_mod::lemma_div_multiples_vanish(self.screen_height as int, w as int);
        }
        ((idx % w) as u32, (idx / w) as u32)
    }

    /// The cell under pixel `idx`, or `None` on a gap.
    pub fn index_to_cell(&self, idx: usize) -> (r: Option<(usize, usize)>)
        requires
            self.wf(),
        ensures
            match pixel_cell(*self, idx as int) {
                Some((x, y)) => r == Some((x as usize, y as usize)),
                None => r is None,
            },
    {
        let w = self.screen_width as usize;
        let x = idx % w;
        let y = idx / w;
        let sx = (self.cell_size.0 + self.padding) as usize;
        let sy = (self.cell_size.1 + self.padding) as usize;
        if x % sx <= self.padding as usize || y % sy <= self.padding as usize {
            return None;
        }
        Some((x / sx, y / sy))
    }
}

/// The RGBA bytes of a frame that shows `board`: live cells light, dead
/// cells, gaps and pixels beyond the grid black.
pub fn draw_board(board: &Game, info: &DrawInformation) -> (r: Vec<u8>)
    requires
        board.wf(),
        info.wf(),
    ensures
        r@.len() == info.screen_width * info.screen_height * 4,
        forall|b: int|
            0 <= b < r@.len() ==> #[trigger] r@[b] == board_byte(
                board.cells(),
                board.w() as int,
                board.h() as int,
                *info,
                b / 4,
            ),
{
    let n = info.screen_width as usize * info.screen_height as usize;
    let mut out: Vec<u8> = Vec::new();
    let mut i: usize = 0;
    while i < n
        invariant
            i <= n,
            n == info.screen_width * info.screen_height,
            info.wf(),
            board.wf(),
            out@.len() == 4 * i,
            forall|b: int|
                0 <= b < out@.len() ==> #[trigger] out@[b] == board_byte(
                    board.cells(),
                    board.w() as int,
                    board.h() as int,
                    *info,
                    b / 4,
                ),
        decreases n - i,
    {
        let shade: u8 = match info.index_to_cell(i) {
            Some((x, y)) => match board.get(x, y) {
                Some(CellState::Alive) => ALIVE_SHADE,
                _ => 0,
            },
            None => 0,
        };
        let ghost before = out@;
        out.push(shade);
        out.push(shade);
        out.push(shade);
        out.push(shade);
        assert forall|b: int| 0 <= b < out@.len() implies #[trigger] out@[b] == board_byte(
            board.cells(),
            board.w() as int,
            board.h() as int,
            *info,
            b / 4,
        ) by {
            if b >= 4 * i {
                assert(b / 4 == i);
            } else {
                assert(out@[b] == before[b]);
            }
        }
        i = i + 1;
    }
    out
}

/// The RGBA bytes of the first frame: a checkerboard of cells on black.
pub fn initial_gui_draw(info: &DrawInformation) -> (r: Vec<u8>)
    requires
        info.wf(),
    ensures
        r@.len() == info.screen_width * info.screen_height * 4,
        forall|b: int| 0 <= b < r@.len() ==> #[trigger] r@[b] == grid_byte(*info, b / 4, b % 4),
{
    let n = info.screen_width as usize * info.screen_height as usize;
    let mut out: Vec<u8> = Vec::new();
    let mut i: usize = 0;
    while i < n
        invariant
            i <= n,
            n == info.screen_width * info.screen_height,
            info.wf(),
            out@.len() == 4 * i,
            forall|b: int| 0 <= b < out@.len() ==> #[trigger] out@[b] == grid_byte(*info, b / 4, b % 4),
        decreases n - i,
    {
        let ghost before = out@;
        match info.index_to_cell(i) {
            Some((x, y)) => {
                out.push((x % 2) as u8 * 128);
                out.push((y % 2) as u8 * 128);
                out.push(128);
                out.push(128);
            },
            None => {
                out.push(0);
                out.push(0);
                out.push(0);
                out.push(0);
            },
        }
        assert forall|b: int| 0 <= b < out@.len() implies #[trigger] out@[b] == grid_byte(*info, b / 4, b % 4) by {
            if b >= 4 * i {
                assert(b / 4 == i);
                assert(b % 4 == b - 4 * i);
            } else {
                assert(out@[b] == before[b]);
            }
        }
        i = i + 1;
    }
    out
}

} // verus!
