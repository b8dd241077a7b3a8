use life_sim::cell::CellState;
use life_sim::codec::{load_board_text, load_game_text, save_board_text, save_game_text, SaveLoadError};
use life_sim::board::GameBoardOld;
use life_sim::game::Game;

#[test]
fn save_exact_text() {
    let mut g = Game::new(2, 2);
    g.set(0, 0, CellState::Alive);
    assert_eq!(save_game_text(&g), "\u{2713}\u{2717}\n\u{2717}\u{2717}");
    let mut b = GameBoardOld::new(3, 1);
    b.set(2, 0, CellState::Alive);
    assert_eq!(save_board_text(&b), "\u{2717}\u{2717}\u{2713}");
}

#[test]
fn round_trip() {
    let mut g = Game::new(7, 3);
    g.set_many(&[(0, 0), (6, 2), (3, 1)], &[CellState::Alive]).unwrap();
    let text = save_game_text(&g);
    let back = load_game_text(&text).unwrap();
    assert!(back == g);
    assert_eq!((back.width(), back.height()), (7, 3));
}

#[test]
fn load_skips_unknown_characters() {
    let g = load_game_text("\u{2713}x\u{2717}\r\n\u{2717}\u{2713}").unwrap();
    assert_eq!((g.width(), g.height()), (2, 2));
    assert_eq!(g.get(0, 0), Some(CellState::Alive));
    assert_eq!(g.get(1, 1), Some(CellState::Alive));
}

#[test]
fn load_ignores_a_final_newline() {
    let g = load_game_text("\u{2713}\u{2717}\n").unwrap();
    assert_eq!((g.width(), g.height()), (2, 1));
}

#[test]
fn load_empty_text_fails() {
    assert_eq!(load_game_text("").err(), Some(SaveLoadError::EmptyFile));
    assert_eq!(load_game_text("abc").err(), Some(SaveLoadError::EmptyFile));
    assert_eq!(load_board_text("\n").err(), Some(SaveLoadError::EmptyFile));
}

#[test]
fn load_ragged_rows_fails() {
    assert_eq!(load_game_text("\u{2713}\u{2717}\n\u{2717}").err(), Some(SaveLoadError::RaggedRows));
    assert_eq!(load_board_text("\u{2713}\n\u{2717}\u{2717}").err(), Some(SaveLoadError::RaggedRows));
}

#[test]
fn board_round_trip() {
    let mut b = GameBoardOld::new(4, 2);
    b.set_cells(vec![(3, 1), (0, 0)], CellState::Alive);
    let back = load_board_text(&save_board_text(&b)).unwrap();
    assert!(back == b);
}
