use vstd::prelude::*;

verus! {

/// The glyph that stands for a live cell in saved text.
pub const ALIVE_STATUS_CHARACTER: char = '\u{2713}';

/// The glyph that stands for a dead cell in saved text.
pub const DEAD_STATUS_CHARACTER: char = '\u{2717}';

/// The state of one cell.
#[derive(Clone, Copy, Debug, PartialEq, Eq, Structural)]
pub enum CellState {
    Alive,
    Dead,
}

/// The glyph of a state.
pub open spec fn glyph_of(c: CellState) -> char {
    match c {
        CellState::Alive => ALIVE_STATUS_CHARACTER,
        CellState::Dead => DEAD_STATUS_CHARACTER,
    }
}

/// The state a glyph stands for; `None` for any other character.
pub open spec fn state_of_glyph(ch: char) -> Option<CellState> {
    if ch == ALIVE_STATUS_CHARACTER {
        Some(CellState::Alive)
    } else if ch == DEAD_STATUS_CHARACTER {
        Some(CellState::Dead)
    } else {
        None
    }
}

impl CellState {
    /// The glyph that stands for this state.
    pub fn to_char(self) -> (r: char)
        ensures
            r == glyph_of(self),
    {
        match self {
            CellState::Alive => ALIVE_STATUS_CHARACTER,
            CellState::Dead => DEAD_STATUS_CHARACTER,
        }
    }

    /// The state that a glyph stands for, if it is one of the two glyphs.
    pub fn from_char(ch: char) -> (r: Option<CellState>)
        ensures
            r == state_of_glyph(ch),
    {
        if ch == ALIVE_STATUS_CHARACTER {
            Some(CellState::Alive)
        } else if ch == DEAD_STATUS_CHARACTER {
            Some(CellState::Dead)
        } else {
            None
        }
    }
}

/// Decoding a glyph gives back the state it was encoded from.
pub proof fn lemma_glyph_round_trip(c: CellState)
    ensures
        state_of_glyph(glyph_of(c)) == Some(c),
        glyph_of(c) != '\n',
{
}

} // verus!
