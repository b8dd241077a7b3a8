use vstd::prelude::*;

verus! {

/// A command of an interactive session.
#[derive(Clone, Copy, Debug, PartialEq, Eq, Structural)]
pub enum GameAction {
    Step,
    GrowCell,
    KillCell,
    PrintBoard,
    Quit,
    Play,
    Save,
    Load,
    Failed,
    Paused,
}

/// White space as Unicode's `White_Space` property lists it.
pub open spec fn is_white(c: char) -> bool {
    ('\u{9}' <= c && c <= '\u{d}') || c == ' ' || c == '\u{85}' || c == '\u{a0}' || c == '\u{1680}'
        || ('\u{2000}' <= c && c <= '\u{200a}') || c == '\u{2028}' || c == '\u{2029}' || c
        == '\u{202f}' || c == '\u{205f}' || c == '\u{3000}'
}

/// The characters of `s` that are not white space, in order.
pub open spec fn non_white(s: Seq<char>) -> Seq<char>
    decreases s.len(),
{
    if s.len() == 0 {
        Seq::empty()
    } else if is_white(s.last()) {
        non_white(s.drop_last())
    } else {
        non_white(s.drop_last()).push(s.last())
    }
}

/// The command a single letter names.
pub open spec fn action_for_letter(c: char) -> GameAction {
    if c == 's' {
        GameAction::Step
    } else if c == 'p' {
        GameAction::PrintBoard
    } else if c == 'g' {
        GameAction::GrowCell
    } else if c == 'k' {
        GameAction::KillCell
    } else if c == 'q' || c == 'c' {
        GameAction::Quit
    } else if c == 'l' {
        GameAction::Play
    } else if c == 'v' {
        GameAction::Save
    } else {
        GameAction::Failed
    }
}

/// The command of an input line: the line, trimmed of white space at both
/// ends, must be one of the command letters.
pub open spec fn action_of_line(s: Seq<char>) -> GameAction {
    let t = non_white(s);
    if t.len() == 1 {
        action_for_letter(t[0])
    } else {
        GameAction::Failed
    }
}

/// Whether `c` is white space.
pub fn is_white_char(c: char) -> (r: bool)
    ensures
        r == is_white(c),
{
    ('\u{9}' <= c && c <= '\u{d}') || c == ' ' || c == '\u{85}' || c == '\u{a0}' || c == '\u{1680}'
        || ('\u{2000}' <= c && c <= '\u{200a}') || c == '\u{2028}' || c == '\u{2029}' || c
        == '\u{202f}' || c == '\u{205f}' || c == '\u{3000}'
}

/// Reads a command from an input line. `s` steps, `g` and `k` grow and kill
/// cells, `p` prints the board, `l` lets the simulation run, `v` saves, `q`
/// or `c` quits; anything else is `Failed`.
pub fn get_user_game_action(input: &str) -> (r: GameAction)
    ensures
        r == action_of_line(input@),
{
    let mut count: usize = 0;
    let mut letter: char = ' ';
    let ghost mut prefix: Seq<char> = Seq::empty();
    for c in it: input.chars()
        invariant
            prefix == it.seq().take(it.index() as int),
            count <= 2,
            count < 2 ==> count == non_white(prefix).len(),
            count == 2 ==> non_white(prefix).len() >= 2,
            count == 1 ==> letter == non_white(prefix)[0],
    {
        let ghost before = prefix;
        proof {
            prefix = prefix.push(c);
            assert(prefix.drop_last() =~= before);
        }
        if !is_white_char(c) {
            if count == 0 {
                letter = c;
                count = 1;
            } else {
                count = 2;
            }
        }
    }
    assert(prefix =~= input@);
    if count != 1 {
        return GameAction::Failed;
    }
    if letter == 's' {
        GameAction::Step
    } else if letter == 'p' {
        GameAction::PrintBoard
    } else if letter == 'g' {
        GameAction::GrowCell
    } else if letter == 'k' {
        GameAction::KillCell
    } else if letter == 'q' || letter == 'c' {
        GameAction::Quit
    } else if letter == 'l' {
        GameAction::Play
    } else if letter == 'v' {
        GameAction::Save
    } else {
        GameAction::Failed
    }
}

} // verus!
