use vstd::prelude::*;

use crate::board::GameBoardOld;
use crate::cell::CellState;
use crate::codec::{lemma_split_nonempty, lines_of, row_views, save_board_text, save_text, split_lines};

verus! {

/// The state a character of a plaintext pattern stands for: `O` alive,
/// `.` dead, anything else nothing.
pub open spec fn wiki_cell(c: char) -> Option<CellState> {
    if c == 'O' {
        Some(CellState::Alive)
    } else if c == '.' {
        Some(CellState::Dead)
    } else {
        None
    }
}

/// The cells of a pattern line, other characters skipped.
pub open spec fn wiki_row(line: Seq<char>) -> Seq<CellState>
    decreases line.len(),
{
    if line.len() == 0 {
        Seq::empty()
    } else {
        match wiki_cell(line.last()) {
            Some(c) => wiki_row(line.drop_last()).push(c),
            None => wiki_row(line.drop_last()),
        }
    }
}

/// The rows of a pattern: one per line, without the lines that hold a `!`
/// (comments).
pub open spec fn wiki_rows(lines: Seq<Seq<char>>) -> Seq<Seq<CellState>>
    decreases lines.len(),
{
    if lines.len() == 0 {
        Seq::empty()
    } else if lines.last().contains('!') {
        wiki_rows(lines.drop_last())
    } else {
        wiki_rows(lines.drop_last()).push(wiki_row(lines.last()))
    }
}

/// The length of the longest row.
pub open spec fn max_len(rows: Seq<Seq<CellState>>) -> nat
    decreases rows.len(),
{
    if rows.len() == 0 {
        0
    } else if rows.last().len() > max_len(rows.drop_last()) {
        rows.last().len()
    } else {
        max_len(rows.drop_last())
    }
}

/// A row made `w` cells long with dead cells at its end.
pub open spec fn padded(row: Seq<CellState>, w: nat) -> Seq<CellState> {
    row + Seq::new((w - row.len()) as nat, |i: int| CellState::Dead)
}

/// The rows of the grid that a plaintext pattern describes: its rows, each
/// as long as the longest.
pub open spec fn wiki_grid(s: Seq<char>) -> Seq<Seq<CellState>> {
    let rows = wiki_rows(lines_of(s));
    rows.map_values(|r: Seq<CellState>| padded(r, max_len(rows)))
}

proof fn lemma_max_len(rows: Seq<Seq<CellState>>, i: int)
    requires
        0 <= i < rows.len(),
    ensures
        rows[i].len() <= max_len(rows),
    decreases rows.len(),
{
    if i < rows.len() - 1 {
        lemma_max_len(rows.drop_last(), i);
    }
}

/// The rows of a plaintext pattern, unpadded.
fn pattern_rows(text: &str) -> (r: Vec<Vec<CellState>>)
    ensures
        row_views(r@) == wiki_rows(lines_of(text@)),
{
    let ghost s = text@;
    let mut kept: Vec<Vec<CellState>> = Vec::new();
    let mut row: Vec<CellState> = Vec::new();
    let mut bang = false;
    let mut ends_with_newline = false;
    let mut any = false;
    let ghost mut prefix: Seq<char> = Seq::empty();
    for c in it: text.chars()
        invariant
            prefix == it.seq().take(it.index() as int),
            split_lines(prefix).len() >= 1,
            row_views(kept@) == wiki_rows(split_lines(prefix).drop_last()),
            row@ == wiki_row(split_lines(prefix).last()),
            bang == split_lines(prefix).last().contains('!'),
            ends_with_newline == (prefix.len() > 0 && prefix.last() == '\n'),
            any == (prefix.len() > 0),
    {
        let ghost before = prefix;
        let ghost p = split_lines(before);
        proof {
            prefix = prefix.push(c);
            assert(prefix.drop_last() =~= before);
            lemma_split_nonempty(prefix);
        }
        any = true;
        if c == '\n' {
            proof {
                assert(split_lines(prefix) == p.push(Seq::empty()));
                assert(split_lines(prefix).drop_last() =~= p);
                assert(p.drop_last().push(p.last()) =~= p);
            }
            if !bang {
                kept.push(row);
                assert(row_views(kept@) =~= wiki_rows(p.drop_last()).push(wiki_row(p.last())));
            }
            row = Vec::new();
            bang = false;
            ends_with_newline = true;
            proof {
                let e: Seq<char> = Seq::empty();
                assert(split_lines(prefix).last() == e);
                assert(!e.contains('!'));
                assert(wiki_row(e) =~= Seq::empty());
                assert(row@ =~= wiki_row(split_lines(prefix).last()));
            }
        } else {
            ends_with_newline = false;
            let ghost old_row = row@;
            let ghost last = p.last();
            if c == 'O' {
                row.push(CellState::Alive);
            } else if c == '.' {
                row.push(CellState::Dead);
            }
            if c == '!' {
                bang = true;
            }
            proof {
                assert(split_lines(prefix) == p.update(p.len() - 1, last.push(c)));
                assert(split_lines(prefix).drop_last() =~= p.drop_last());
                assert(split_lines(prefix).last() == last.push(c));
                assert(last.push(c).drop_last() =~= last);
                assert(last.push(c).last() == c);
                assert(row@ =~= wiki_row(last.push(c)));
                if bang {
                    if c == '!' {
                        assert(last.push(c)[last.len() as int] == '!');
                    } else {
                        let j = choose|j: int| 0 <= j < last.len() && last[j] == '!';
                        assert(last.push(c)[j] == '!');
                    }
                } else {
                    assert forall|j: int| 0 <= j < last.push(c).len() implies last.push(c)[j] != '!' by {
                        if j < last.len() {
                            assert(last.push(c)[j] == last[j]);
                        }
                    }
                }
            }
        }
    }
    assert(prefix =~= s);
    if !any {
        assert(lines_of(s) =~= Seq::<Seq<char>>::empty());
        return Vec::new();
    }
    if ends_with_newline {
        proof {
            let p = split_lines(s.drop_last());
            assert(split_lines(s) == p.push(Seq::empty()));
            assert(split_lines(s).drop_last() =~= p);
        }
        kept
    } else {
        proof {
            let p = split_lines(s);
            assert(p.drop_last().push(p.last()) =~= p);
        }
        if !bang {
            kept.push(row);
            assert(row_views(kept@) =~= wiki_rows(split_lines(s)));
        }
        kept
    }
}

/// Reads a plaintext pattern (as the Game of Life wiki writes them): each
/// line not holding a `!` is a row, `O` a live cell and `.` a dead one;
/// rows shorter than the longest end in dead cells.
pub fn convert_wiki_to_board(text: &str) -> (r: GameBoardOld)
    ensures
        r.wf(),
        r.x_max == max_len(wiki_rows(lines_of(text@))),
        r.y_max == wiki_rows(lines_of(text@)).len(),
        row_views(r.space@) == wiki_grid(text@),
{
    let rows = pattern_rows(text);
    let ghost views = row_views(rows@);
    let mut w: usize = 0;
    let mut i: usize = 0;
    while i < rows.len()
        invariant
            i <= rows@.len(),
            views == row_views(rows@),
            w == max_len(views.take(i as int)),
        decreases rows@.len() - i,
    {
        assert(views.take(i + 1).drop_last() =~= views.take(i as int));
        if rows[i].len() > w {
            w = rows[i].len();
        }
        i = i + 1;
    }
    assert(views.take(i as int) =~= views);
    let mut space: Vec<Vec<CellState>> = Vec::new();
    let mut y: usize = 0;
    while y < rows.len()
        invariant
            y <= rows@.len(),
            views == row_views(rows@),
            w == max_len(views),
            space@.len() == y,
            forall|k: int| 0 <= k < y ==> (#[trigger] space@[k])@ == padded(views[k], w as nat),
            forall|k: int| 0 <= k < y ==> (#[trigger] space@[k])@.len() == w,
        decreases rows@.len() - y,
    {
        proof {
            lemma_max_len(views, y as int);
        }
        let src = &rows[y];
        let mut out: Vec<CellState> = Vec::new();
        let mut x: usize = 0;
        while x < w
            invariant
                x <= w,
                y < views.len(),
                src@ == views[y as int],
                src@.len() <= w,
                out@ == padded(src@, w as nat).take(x as int),
            decreases w - x,
        {
            if x < src.len() {
                out.push(src[x]);
            } else {
                out.push(CellState::Dead);
            }
            x = x + 1;
            assert(out@ =~= padded(src@, w as nat).take(x as int));
        }
        assert(out@ =~= padded(src@, w as nat));
        space.push(out);
        y = y + 1;
    }
    let r = GameBoardOld { space, x_max: w, y_max: rows.len() };
    assert(row_views(r.space@) =~= wiki_grid(text@));
    r
}

/// The saved text of the grid that a plaintext pattern describes.
pub fn convert_wiki_file_to_save(text: &str) -> (r: String)
    ensures
        ({
            let b = convert_wiki_spec_board(text@);
            r@ == save_text(b.0, b.1, b.2)
        }),
{
    let board = convert_wiki_to_board(text);
    proof {
        lemma_board_matches(&board, text@);
    }
    save_board_text(&board)
}

/// The cells, width and height of the grid that a pattern describes.
pub open spec fn convert_wiki_spec_board(s: Seq<char>) -> (Seq<CellState>, nat, nat) {
    let rows = wiki_grid(s);
    let w = max_len(wiki_rows(lines_of(s)));
    let h = rows.len();
    (Seq::new(w * h, |i: int| rows[i / (w as int)][i % (w as int)]), w, h)
}

proof fn lemma_board_matches(b: &GameBoardOld, s: Seq<char>)
    requires
        b.wf(),
        b.x_max == max_len(wiki_rows(lines_of(s))),
        b.y_max == wiki_rows(lines_of(s)).len(),
        row_views(b.space@) == wiki_grid(s),
    ensures
        b.flat() == convert_wiki_spec_board(s).0,
        b.x_max == convert_wiki_spec_board(s).1,
        b.y_max == convert_wiki_spec_board(s).2,
{
    let rows = wiki_grid(s);
    assert forall|i: int| 0 <= i < b.flat().len() implies #[trigger] b.flat()[i] == convert_wiki_spec_board(s).0[i] by {
        crate::rules::lemma_index_split(i, b.x_max as int, b.y_max as int);
        assert(row_views(b.space@)[i / (b.x_max as int)] == b.space@[i / (b.x_max as int)]@);
    }
    assert(b.flat() =~= convert_wiki_spec_board(s).0);
}

} // verus!
