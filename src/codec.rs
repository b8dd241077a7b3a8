use vstd::prelude::*;

use crate::board::{rows_match, GameBoardOld};
use crate::cell::{glyph_of, lemma_glyph_round_trip, state_of_glyph, CellState};
use crate::game::Game;

verus! {

/// Why saved text could not be turned into a grid.
#[derive(Clone, Copy, Debug, PartialEq, Eq, Structural)]
pub enum SaveLoadError {
    /// The text could not be written.
    FileWrite,
    /// The text could not be read.
    FileOpen,
    /// The text holds no cell.
    EmptyFile,
    /// The rows hold different numbers of cells.
    RaggedRows,
}

/// The glyphs of a row of cells.
pub open spec fn glyphs(row: Seq<CellState>) -> Seq<char> {
    row.map_values(|c: CellState| glyph_of(c))
}

/// Rows of glyphs joined by a newline, with none after the last row.
pub open spec fn render_rows(rows: Seq<Seq<CellState>>) -> Seq<char>
    decreases rows.len(),
{
    if rows.len() == 0 {
        Seq::empty()
    } else if rows.len() == 1 {
        glyphs(rows[0])
    } else {
        render_rows(rows.drop_last()) + seq!['\n'] + glyphs(rows.last())
    }
}

/// The rows of a row-major `w` by `h` grid.
pub open spec fn grid_rows(cells: Seq<CellState>, w: nat, h: nat) -> Seq<Seq<CellState>> {
    Seq::new(h, |y: int| cells.subrange(y * w, y * w + w))
}

/// The saved text of a `w` by `h` grid.
pub open spec fn save_text(cells: Seq<CellState>, w: nat, h: nat) -> Seq<char> {
    render_rows(grid_rows(cells, w, h))
}

/// The pieces of `s` between newlines: one more piece than there are
/// newlines, each without a newline.
pub open spec fn split_lines(s: Seq<char>) -> Seq<Seq<char>>
    decreases s.len(),
{
    if s.len() == 0 {
        seq![Seq::empty()]
    } else {
        let p = split_lines(s.drop_last());
        if s.last() == '\n' {
            p.push(Seq::empty())
        } else {
            p.update(p.len() - 1, p.last().push(s.last()))
        }
    }
}

/// The lines of `s`: no line for empty text, and a final newline ends the
/// last line instead of starting a new one.
pub open spec fn lines_of(s: Seq<char>) -> Seq<Seq<char>> {
    if s.len() == 0 {
        Seq::empty()
    } else if s.last() == '\n' {
        split_lines(s.drop_last())
    } else {
        split_lines(s)
    }
}

/// The cells of a line: each glyph gives its state, any other character is
/// skipped and takes no column.
pub open spec fn parse_row(line: Seq<char>) -> Seq<CellState>
    decreases line.len(),
{
    if line.len() == 0 {
        Seq::empty()
    } else {
        match state_of_glyph(line.last()) {
            Some(c) => parse_row(line.drop_last()).push(c),
            None => parse_row(line.drop_last()),
        }
    }
}

/// The rows of cells that text describes, one per line.
pub open spec fn load_rows(s: Seq<char>) -> Seq<Seq<CellState>> {
    lines_of(s).map_values(|l: Seq<char>| parse_row(l))
}

/// The rows laid end to end.
pub open spec fn concat_rows(rows: Seq<Seq<CellState>>) -> Seq<CellState>
    decreases rows.len(),
{
    if rows.len() == 0 {
        Seq::empty()
    } else {
        concat_rows(rows.drop_last()) + rows.last()
    }
}

/// Every row is as long as the first.
pub open spec fn rows_even(rows: Seq<Seq<CellState>>) -> bool {
    forall|i: int| 0 <= i < rows.len() ==> (#[trigger] rows[i]).len() == rows[0].len()
}

/// What loading text gives: the width, height and cells of a grid, or why
/// there is none. Width is the length of the first row, height the number
/// of lines.
pub open spec fn load_spec(s: Seq<char>) -> Result<(nat, nat, Seq<CellState>), SaveLoadError> {
    let rows = load_rows(s);
    if rows.len() == 0 || rows[0].len() == 0 {
        Err(SaveLoadError::EmptyFile)
    } else if !rows_even(rows) {
        Err(SaveLoadError::RaggedRows)
    } else {
        Ok((rows[0].len(), rows.len(), concat_rows(rows)))
    }
}

/// The views of a vector of rows.
pub open spec fn row_views(rows: Seq<Vec<CellState>>) -> Seq<Seq<CellState>> {
    rows.map_values(|r: Vec<CellState>| r@)
}

proof fn lemma_concat_len(rows: Seq<Seq<CellState>>, w: nat)
    requires
        forall|i: int| 0 <= i < rows.len() ==> (#[trigger] rows[i]).len() == w,
    ensures
        concat_rows(rows).len() == rows.len() * w,
    decreases rows.len(),
{
    if rows.len() > 0 {
        lemma_concat_len(rows.drop_last(), w);
        assert((rows.len() - 1) * w + w == rows.len() * w) by (nonlinear_arith);
    }
}

/// Cell `x` of row `y` of even rows sits at `y * w + x` of their concatenation.
proof fn lemma_concat_index(rows: Seq<Seq<CellState>>, w: nat, y: int, x: int)
    requires
        forall|i: int| 0 <= i < rows.len() ==> (#[trigger] rows[i]).len() == w,
        0 <= y < rows.len(),
        0 <= x < w,
    ensures
        concat_rows(rows)[y * w + x] == rows[y][x],
    decreases rows.len(),
{
    let k = rows.len() - 1;
    lemma_concat_len(rows.drop_last(), w);
    assert(concat_rows(rows.drop_last()).len() == k * w);
    if y < k {
        lemma_concat_index(rows.drop_last(), w, y, x);
        assert(y * w + x < k * w) by (nonlinear_arith)
            requires
                y < k,
                x < w,
        ;
    } else {
        assert(y * w + x - k * w == x) by (nonlinear_arith)
            requires
                y == k,
        ;
    }
}

/// The rows of a grid, laid end to end, give back its cells.
proof fn lemma_concat_grid_rows(cells: Seq<CellState>, w: nat, h: nat, k: nat)
    requires
        cells.len() == w * h,
        k <= h,
    ensures
        concat_rows(grid_rows(cells, w, h).take(k as int)) == cells.take((k * w) as int),
    decreases k,
{
    assert(k * w <= w * h) by (nonlinear_arith)
        requires
            k <= h,
    ;
    if k == 0 {
        assert(grid_rows(cells, w, h).take(0) =~= Seq::empty());
        assert(k * w == 0) by (nonlinear_arith)
            requires
                k == 0,
        ;
        assert(cells.take(0) =~= Seq::empty());
    } else {
        let j = (k - 1) as nat;
        lemma_concat_grid_rows(cells, w, h, j);
        assert(grid_rows(cells, w, h).take(k as int).drop_last() =~= grid_rows(cells, w, h).take(j as int));
        assert(j * w + w == k * w) by (nonlinear_arith)
            requires
                j + 1 == k,
        ;
        let part = grid_rows(cells, w, h).take(k as int);
        assert(part.last() == cells.subrange((j * w) as int, (j * w + w) as int));
        assert(concat_rows(part) == concat_rows(part.drop_last()) + part.last());
        assert(cells.take((j * w) as int) + cells.subrange((j * w) as int, (j * w + w) as int) =~= cells.take((k * w) as int));
    }
}

proof fn lemma_split_single(r: Seq<CellState>)
    ensures
        split_lines(glyphs(r)) == seq![r.map_values(|c: CellState| glyph_of(c))],
        parse_row(glyphs(r)) == r,
    decreases r.len(),
{
    if r.len() == 0 {
        assert(glyphs(r) =~= Seq::empty());
        assert(r.map_values(|c: CellState| glyph_of(c)) =~= Seq::empty());
    } else {
        let q = r.drop_last();
        lemma_split_single(q);
        lemma_glyph_round_trip(r.last());
        assert(glyphs(r).drop_last() =~= glyphs(q));
        assert(r.map_values(|c: CellState| glyph_of(c)) =~= q.map_values(|c: CellState| glyph_of(c)).push(glyph_of(r.last())));
        assert(q.push(r.last()) =~= r);
    }
}

proof fn lemma_split_after_newline(t: Seq<char>, r: Seq<CellState>)
    ensures
        split_lines(t + seq!['\n'] + glyphs(r)) == split_lines(t).push(glyphs(r)),
    decreases r.len(),
{
    if r.len() == 0 {
        assert(glyphs(r) =~= Seq::empty());
        assert((t + seq!['\n'] + glyphs(r)).drop_last() =~= t);
    } else {
        let q = r.drop_last();
        lemma_split_after_newline(t, q);
        lemma_glyph_round_trip(r.last());
        assert((t + seq!['\n'] + glyphs(r)).drop_last() =~= t + seq!['\n'] + glyphs(q));
        assert(glyphs(q).push(glyph_of(r.last())) =~= glyphs(r));
        assert(split_lines(t).push(glyphs(q)).update(split_lines(t).len() as int, glyphs(r)) =~= split_lines(t).push(glyphs(r)));
    }
}

proof fn lemma_split_render(rows: Seq<Seq<CellState>>)
    requires
        rows.len() > 0,
    ensures
        split_lines(render_rows(rows)) == rows.map_values(|r: Seq<CellState>| glyphs(r)),
    decreases rows.len(),
{
    if rows.len() == 1 {
        lemma_split_single(rows[0]);
        assert(rows.map_values(|r: Seq<CellState>| glyphs(r)) =~= seq![glyphs(rows[0])]);
    } else {
        lemma_split_render(rows.drop_last());
        lemma_split_after_newline(render_rows(rows.drop_last()), rows.last());
        assert(rows.map_values(|r: Seq<CellState>| glyphs(r)) =~= rows.drop_last().map_values(|r: Seq<CellState>| glyphs(r)).push(glyphs(rows.last())));
    }
}

/// Loading the saved text of a grid with at least one cell gives the same
/// grid back.
pub proof fn lemma_save_load_round_trip(cells: Seq<CellState>, w: nat, h: nat)
    requires
        cells.len() == w * h,
        w > 0,
        h > 0,
    ensures
        load_spec(save_text(cells, w, h)) == Ok::<(nat, nat, Seq<CellState>), SaveLoadError>((w, h, cells)),
{
    let rows = grid_rows(cells, w, h);
    assert forall|y: int| 0 <= y < h implies #[trigger] rows[y].len() == w by {
        assert(y * w + w <= w * h) by (nonlinear_arith)
            requires
                0 <= y < h,
        ;
    }
    let text = render_rows(rows);
    lemma_split_render(rows);
    // the text ends with the last glyph of the last row, not a newline
    let last = rows.last();
    assert(last.len() == w);
    lemma_glyph_round_trip(last.last());
    assert(text.len() > 0 && text.last() == glyph_of(last.last())) by {
        if rows.len() == 1 {
        } else {
            assert(text == render_rows(rows.drop_last()) + seq!['\n'] + glyphs(last));
        }
    }
    assert(lines_of(text) == rows.map_values(|r: Seq<CellState>| glyphs(r)));
    assert forall|y: int| 0 <= y < h implies #[trigger] load_rows(text)[y] == rows[y] by {
        lemma_split_single(rows[y]);
    }
    assert(load_rows(text) =~= rows);
    lemma_concat_grid_rows(cells, w, h, h);
    assert(rows.take(h as int) =~= rows);
    assert(cells.take((h * w) as int) =~= cells) by {
        assert(h * w == w * h) by (nonlinear_arith);
    }
}

/// Appends the glyph of `c`.
fn push_glyph(s: &mut String, c: CellState)
    ensures
        final(s)@ == old(s)@.push(glyph_of(c)),
{
    proof {
        reveal_strlit("\u{2713}");
        reveal_strlit("\u{2717}");
    }
    match c {
        CellState::Alive => s.append("\u{2713}"),
        CellState::Dead => s.append("\u{2717}"),
    }
}

/// The text of rows of cells: each row as glyphs, rows joined by newlines.
fn render_grid_rows(rows: &Vec<Vec<CellState>>) -> (r: String)
    ensures
        r@ == render_rows(row_views(rows@)),
{
    let mut s = String::new();
    let mut y: usize = 0;
    while y < rows.len()
        invariant
            y <= rows@.len(),
            s@ == render_rows(row_views(rows@).take(y as int)),
        decreases rows@.len() - y,
    {
        let ghost before = s@;
        if y > 0 {
            proof {
                reveal_strlit("\n");
            }
            assert("\n"@.len() == 1);
            assert("\n"@[0] == '\n');
            s.append("\n");
            assert("\n"@ =~= seq!['\n']);
        }
        let row = &rows[y];
        let mut x: usize = 0;
        assert(glyphs(row@.take(0)) =~= Seq::empty());
        assert(s@ =~= (if y > 0 { before + seq!['\n'] } else { before }) + glyphs(row@.take(0)));
        while x < row.len()
            invariant
                x <= row@.len(),
                s@ == (if y > 0 { before + seq!['\n'] } else { before }) + glyphs(row@.take(x as int)),
            decreases row@.len() - x,
        {
            push_glyph(&mut s, row[x]);
            x = x + 1;
            assert(glyphs(row@.take(x as int)) =~= glyphs(row@.take(x - 1)).push(glyph_of(row@[x - 1])));
        }
        proof {
            let views = row_views(rows@);
            assert(row@.take(x as int) =~= row@);
            assert(views.take(y + 1).drop_last() =~= views.take(y as int));
            assert(views.take(y + 1).last() == row@);
            if y == 0 {
                assert(before =~= Seq::empty());
                assert(s@ =~= glyphs(row@));
            } else {
                assert(s@ =~= before + seq!['\n'] + glyphs(row@));
            }
        }
        y = y + 1;
    }
    assert(row_views(rows@).take(y as int) =~= row_views(rows@));
    s
}

/// The saved text of a grid: one line of glyphs per row, no newline after
/// the last row.
pub fn save_game_text(game: &Game) -> (r: String)
    requires
        game.wf(),
    ensures
        r@ == save_text(game.cells(), game.w(), game.h()),
{
    let rows = game.rows();
    assert(row_views(rows@) =~= grid_rows(game.cells(), game.w(), game.h()));
    render_grid_rows(&rows)
}

/// The saved text of a grid held as rows.
pub fn save_board_text(board: &GameBoardOld) -> (r: String)
    requires
        board.wf(),
    ensures
        r@ == save_text(board.flat(), board.x_max as nat, board.y_max as nat),
{
    proof {
        let w = board.x_max as int;
        let h = board.y_max as int;
        let g = grid_rows(board.flat(), w as nat, h as nat);
        assert forall|y: int| 0 <= y < h implies #[trigger] row_views(board.space@)[y] == g[y] by {
            assert forall|x: int| 0 <= x < w implies #[trigger] board.space@[y]@[x] == g[y][x] by {
                board.lemma_cell(x, y);
                assert(y * w + w <= w * h) by (nonlinear_arith)
                    requires
                        0 <= y < h,
                        0 <= w,
                ;
            }
            assert(y * w + w <= w * h) by (nonlinear_arith)
                requires
                    0 <= y < h,
                    0 <= w,
            ;
            assert(board.space@[y]@ =~= g[y]);
        }
        assert(row_views(board.space@) =~= g);
    }
    render_grid_rows(&board.space)
}

/// Splitting always gives at least one piece.
pub proof fn lemma_split_nonempty(s: Seq<char>)
    ensures
        split_lines(s).len() >= 1,
    decreases s.len(),
{
    if s.len() > 0 {
        lemma_split_nonempty(s.drop_last());
    }
}

/// Splits text into rows of cells, one per line (see `load_rows`).
fn split_rows(text: &str) -> (r: Vec<Vec<CellState>>)
    ensures
        row_views(r@) == load_rows(text@),
{
    let ghost s = text@;
    let mut done: Vec<Vec<CellState>> = Vec::new();
    let mut row: Vec<CellState> = Vec::new();
    let mut ends_with_newline = false;
    let mut any = false;
    let ghost mut prefix: Seq<char> = Seq::empty();
    assert(row_views(done@).push(row@) =~= split_lines(prefix).map_values(|l: Seq<char>| parse_row(l)));
    for c in it: text.chars()
        invariant
            prefix == it.seq().take(it.index() as int),
            row_views(done@).push(row@) == split_lines(prefix).map_values(|l: Seq<char>| parse_row(l)),
            ends_with_newline == (prefix.len() > 0 && prefix.last() == '\n'),
            any == (prefix.len() > 0),
    {
        any = true;
        let ghost before = prefix;
        proof {
            prefix = prefix.push(c);
            assert(prefix.drop_last() =~= before);
        }
        proof {
            lemma_split_nonempty(before);
        }
        let ghost old_views = row_views(done@);
        let ghost old_row = row@;
        if c == '\n' {
            done.push(row);
            row = Vec::new();
            ends_with_newline = true;
            proof {
                assert(split_lines(prefix) == split_lines(before).push(Seq::empty()));
                assert(row_views(done@) =~= old_views.push(old_row));
                assert(row_views(done@).push(row@) =~= split_lines(prefix).map_values(|l: Seq<char>| parse_row(l)));
            }
        } else {
            ends_with_newline = false;
            match CellState::from_char(c) {
                Some(st) => {
                    row.push(st);
                },
                None => {},
            }
            proof {
                let p = split_lines(before);
                assert(split_lines(prefix) == p.update(p.len() - 1, p.last().push(c)));
                assert(p.last().push(c).drop_last() =~= p.last());
                assert(p.last().push(c).last() == c);
                let pm = p.map_values(|l: Seq<char>| parse_row(l));
                assert(old_views.push(old_row) == pm);
                assert(pm.len() == p.len());
                assert(old_views.push(old_row)[old_views.len() as int] == old_row);
                assert(pm[p.len() - 1] == parse_row(p.last()));
                assert(parse_row(p.last()) == old_row);
                assert(row_views(done@) == old_views);
                assert(row@ == parse_row(p.last().push(c)));
                assert(split_lines(prefix).map_values(|l: Seq<char>| parse_row(l)) =~= pm.update(p.len() - 1, parse_row(p.last().push(c))));
                assert(row_views(done@).push(row@) =~= split_lines(prefix).map_values(|l: Seq<char>| parse_row(l)));
            }
        }
    }
    assert(prefix =~= s);
    if ends_with_newline {
        proof {
            lemma_split_nonempty(s.drop_last());
            let m = split_lines(s.drop_last()).map_values(|l: Seq<char>| parse_row(l));
            assert(split_lines(s) == split_lines(s.drop_last()).push(Seq::empty()));
            assert(split_lines(s).map_values(|l: Seq<char>| parse_row(l)) =~= m.push(parse_row(Seq::empty())));
            assert(row_views(done@) =~= row_views(done@).push(row@).drop_last());
            assert(m =~= m.push(parse_row(Seq::empty())).drop_last());
        }
        assert(row_views(done@) =~= load_rows(s));
        done
    } else {
        done.push(row);
        if !any {
            assert(load_rows(s) =~= Seq::empty());
            return Vec::new();
        }
        assert(row_views(done@) =~= load_rows(s));
        done
    }
}

/// The rows of cells that text describes, if it describes a grid.
fn checked_rows(text: &str) -> (r: Result<Vec<Vec<CellState>>, SaveLoadError>)
    ensures
        match r {
            Ok(rows) => load_spec(text@) is Ok && row_views(rows@) == load_rows(text@),
            Err(e) => load_spec(text@) == Err::<(nat, nat, Seq<CellState>), SaveLoadError>(e),
        },
{
    let rows = split_rows(text);
    let ghost views = row_views(rows@);
    if rows.len() == 0 {
        return Err(SaveLoadError::EmptyFile);
    }
    let w = rows[0].len();
    if w == 0 {
        assert(views[0].len() == 0);
        return Err(SaveLoadError::EmptyFile);
    }
    let mut y: usize = 0;
    while y < rows.len()
        invariant
            y <= rows@.len(),
            views == row_views(rows@),
            views == load_rows(text@),
            rows@.len() > 0,
            w > 0,
            w == rows@[0]@.len(),
            forall|k: int| 0 <= k < y ==> (#[trigger] views[k]).len() == w,
        decreases rows@.len() - y,
    {
        if rows[y].len() != w {
            assert(views[y as int].len() != views[0].len());
            assert(!rows_even(views));

            return Err(SaveLoadError::RaggedRows);
        }
        y = y + 1;
    }
    assert(rows_even(views));
    Ok(rows)
}

/// Loads a grid from saved text. Each line is a row; the two glyphs give
/// the cells and any other character is skipped. Text without a cell, or
/// whose rows differ in length, gives no grid.
pub fn load_game_text(text: &str) -> (r: Result<Game, SaveLoadError>)
    ensures
        match r {
            Ok(g) => g.wf() && load_spec(text@) == Ok::<(nat, nat, Seq<CellState>), SaveLoadError>(
                (g.w(), g.h(), g.cells()),
            ),
            Err(e) => load_spec(text@) == Err::<(nat, nat, Seq<CellState>), SaveLoadError>(e),
        },
{
    let rows = match checked_rows(text) {
        Ok(rows) => rows,
        Err(e) => return Err(e),
    };
    let ghost views = row_views(rows@);
    let w = rows[0].len();
    let h = rows.len();
    let mut cells: Vec<CellState> = Vec::new();
    let mut y: usize = 0;
    while y < h
        invariant
            y <= h,
            h == rows@.len(),
            views == row_views(rows@),
            h > 0,
            w == views[0].len(),
            rows_even(views),
            cells@ == concat_rows(views.take(y as int)),
        decreases h - y,
    {
        let row = &rows[y];
        let mut x: usize = 0;
        let ghost start = cells@;
        while x < row.len()
            invariant
                x <= row@.len(),
                cells@ == start + row@.take(x as int),
            decreases row@.len() - x,
        {
            cells.push(row[x]);
            x = x + 1;
            assert(cells@ =~= start + row@.take(x as int));
        }
        assert(views.take(y + 1).drop_last() =~= views.take(y as int));
        assert(row@.take(x as int) =~= row@);
        y = y + 1;
    }
    assert(views.take(h as int) =~= views);
    proof {
        assert forall|i: int| 0 <= i < views.len() implies (#[trigger] views[i]).len() == w by {}
        lemma_concat_len(views, w as nat);
        assert(h * w == w * h) by (nonlinear_arith);
        assert(cells@.len() == w * h);
    }
    let n = cells.len();
    assert(n == w * h);
    let mut game = Game::new(w, h);
    let replaced = game.replace_buffer(cells);
    assert(replaced is Ok);
    Ok(game)
}

/// Loads a grid held as rows from saved text, as `load_game_text` does.
pub fn load_board_text(text: &str) -> (r: Result<GameBoardOld, SaveLoadError>)
    ensures
        match r {
            Ok(b) => b.wf() && load_spec(text@) == Ok::<(nat, nat, Seq<CellState>), SaveLoadError>(
                (b.x_max as nat, b.y_max as nat, b.flat()),
            ),
            Err(e) => load_spec(text@) == Err::<(nat, nat, Seq<CellState>), SaveLoadError>(e),
        },
{
    let rows = match checked_rows(text) {
        Ok(rows) => rows,
        Err(e) => return Err(e),
    };
    let ghost views = row_views(rows@);
    let w = rows[0].len();
    let h = rows.len();
    let b = GameBoardOld { space: rows, x_max: w, y_max: h };
    proof {
        assert forall|i: int| 0 <= i < views.len() implies (#[trigger] views[i]).len() == w by {}
        assert forall|y: int| 0 <= y < h implies (#[trigger] b.space@[y])@.len() == w by {
            assert(views[y] == b.space@[y]@);
        }
        lemma_concat_len(views, w as nat);
        assert(h * w == w * h) by (nonlinear_arith);
        assert forall|y: int, x: int| 0 <= y < h && 0 <= x < w implies #[trigger] b.space@[y]@[x]
            == concat_rows(views)[y * w + x] by {
            lemma_concat_index(views, w as nat, y, x);
            assert(views[y] == b.space@[y]@);
        }
        assert(rows_match(b.space@, concat_rows(views), w as int, h as int));
        b.lemma_flat_from_rows(concat_rows(views));
    }
    Ok(b)
}

} // verus!
