use life_sim::board::{get_neighbors, num_alive_neighbors, run_iterations, GameBoardOld};
use life_sim::cell::CellState;
use life_sim::game::{Game, GridError};

fn alive_cells(game: &Game) -> Vec<(usize, usize)> {
    let mut out = Vec::new();
    for y in 0..game.height() {
        for x in 0..game.width() {
            if game.get(x, y) == Some(CellState::Alive) {
                out.push((x, y));
            }
        }
    }
    out
}

fn game_with(w: usize, h: usize, cells: &[(usize, usize)]) -> Game {
    let mut g = Game::new(w, h);
    g.set_many(cells, &[CellState::Alive]).unwrap();
    g
}

#[test]
fn neighbor_counts_on_five_by_five() {
    let board = GameBoardOld::new(5, 5);
    assert_eq!(get_neighbors(&board, 0, 0).len(), 3);
    assert_eq!(get_neighbors(&board, 0, 3).len(), 5);
    assert_eq!(get_neighbors(&board, 2, 3).len(), 8);
    assert_eq!(get_neighbors(&board, 0, 0), vec![(1, 0), (0, 1), (1, 1)]);
}

#[test]
fn neighbors_never_wrap() {
    let board = GameBoardOld::new(3, 2);
    assert_eq!(get_neighbors(&board, 2, 1), vec![(1, 0), (2, 0), (1, 1)]);
}

#[test]
fn counts_live_neighbors() {
    let mut board = GameBoardOld::new(4, 4);
    board.set_cells(vec![(0, 0), (1, 0), (3, 3)], CellState::Alive);
    assert_eq!(num_alive_neighbors(&board, 1, 1), 2);
    assert_eq!(num_alive_neighbors(&board, 0, 0), 1);
    assert_eq!(num_alive_neighbors(&board, 2, 2), 1);
}

#[test]
fn zero_iterations_copy_the_board() {
    let mut board = GameBoardOld::new(6, 4);
    board.set_cells(vec![(1, 1), (2, 1), (3, 1), (5, 3)], CellState::Alive);
    assert!(run_iterations(&board, 0) == board);
}

#[test]
fn iterations_compose() {
    let mut board = GameBoardOld::new(8, 8);
    // a glider
    board.set_cells(vec![(1, 0), (2, 1), (0, 2), (1, 2), (2, 2)], CellState::Alive);
    let direct = run_iterations(&board, 5);
    let split = run_iterations(&run_iterations(&board, 2), 3);
    assert!(direct == split);
    assert!(direct != board);
}

#[test]
fn isolated_cell_dies() {
    let mut g = game_with(10, 10, &[(5, 5)]);
    g.step(1);
    assert!(!g.has_alive_cells());
    assert!(g == Game::new(10, 10));
}

#[test]
fn block_is_still() {
    let block = [(1, 1), (1, 2), (2, 1), (2, 2)];
    let mut g = game_with(5, 5, &block);
    let before = g.clone();
    g.step(1);
    assert!(g == before);
}

#[test]
fn blinker_has_period_two() {
    let mut g = game_with(5, 5, &[(1, 2), (2, 2), (3, 2)]);
    g.step(1);
    assert_eq!(alive_cells(&g), vec![(2, 1), (2, 2), (2, 3)]);
    g.step(1);
    assert_eq!(alive_cells(&g), vec![(1, 2), (2, 2), (3, 2)]);
}

#[test]
fn old_board_blinker() {
    let mut board = GameBoardOld::new(5, 5);
    board.set_cells(vec![(1, 2), (2, 2), (3, 2)], CellState::Alive);
    let next = run_iterations(&board, 1);
    let mut expected = GameBoardOld::new(5, 5);
    expected.set_cells(vec![(2, 1), (2, 2), (2, 3)], CellState::Alive);
    assert!(next == expected);
    let mut other = GameBoardOld::new(1, 1);
    board.update_to(&mut other);
    assert!(other == expected);
}

#[test]
fn birth_needs_exactly_three() {
    let mut g = game_with(4, 4, &[(0, 0), (2, 0), (0, 2)]);
    g.step(1);
    assert_eq!(g.get(1, 1), Some(CellState::Alive));
    let mut g = game_with(4, 4, &[(0, 0), (2, 0), (0, 2), (2, 2)]);
    g.step(1);
    assert_eq!(g.get(1, 1), Some(CellState::Dead));
}

#[test]
fn set_many_one_state_for_all() {
    let mut g = Game::new(4, 3);
    g.set_many(&[(0, 0), (3, 2), (1, 1)], &[CellState::Alive]).unwrap();
    assert_eq!(alive_cells(&g), vec![(0, 0), (1, 1), (3, 2)]);
}

#[test]
fn set_many_pairwise() {
    let mut g = Game::new(4, 3);
    g.fill();
    g.set_many(&[(0, 0), (3, 2)], &[CellState::Dead, CellState::Alive]).unwrap();
    assert_eq!(g.get(0, 0), Some(CellState::Dead));
    assert_eq!(g.get(3, 2), Some(CellState::Alive));
}

#[test]
fn set_many_mismatch_changes_nothing() {
    let mut g = game_with(4, 3, &[(2, 2)]);
    let before = g.clone();
    let r = g.set_many(&[(0, 0), (1, 0), (2, 0)], &[CellState::Alive, CellState::Dead]);
    assert_eq!(r, Err(GridError::LengthMismatch));
    assert!(g == before);
}

#[test]
fn get_is_row_major_on_a_wide_grid() {
    let mut g = Game::new(5, 2);
    g.set(4, 1, CellState::Alive);
    assert_eq!(g.get(4, 1), Some(CellState::Alive));
    assert_eq!(g.get(1, 0), Some(CellState::Dead));
    assert_eq!(g.get(5, 0), None);
    assert_eq!(g.get(0, 2), None);
    let rows = g.rows();
    assert_eq!(rows.len(), 2);
    assert_eq!(rows[1], vec![CellState::Dead, CellState::Dead, CellState::Dead, CellState::Dead, CellState::Alive]);
}

#[test]
fn clear_and_fill() {
    let mut g = Game::new(3, 3);
    g.fill();
    assert_eq!(alive_cells(&g).len(), 9);
    g.clear();
    assert!(!g.has_alive_cells());
    let mut b = GameBoardOld::new(3, 2);
    b.set(2, 1, CellState::Alive);
    b.clear();
    assert!(!b.has_alive_cells());
}

#[test]
fn replace_buffer_checks_length() {
    let mut g = Game::new(2, 2);
    assert!(g.replace_buffer(vec![CellState::Alive; 3]).is_err());
    assert!(!g.has_alive_cells());
    assert!(g.replace_buffer(vec![CellState::Alive; 4]).is_ok());
    assert_eq!(alive_cells(&g).len(), 4);
}

#[test]
fn clone_from_old_board() {
    let mut b = GameBoardOld::new(3, 2);
    b.set(2, 1, CellState::Alive);
    let mut g = Game::new(3, 2);
    assert_eq!(g.clone_from_old(&b), Ok(()));
    assert_eq!(alive_cells(&g), vec![(2, 1)]);
    let mut small = Game::new(2, 2);
    assert_eq!(small.clone_from_old(&b), Err(()));
    assert!(!small.has_alive_cells());
}

#[test]
fn rescale_bounds_from_rows() {
    let mut b = GameBoardOld::new(2, 2);
    b.space.push(vec![CellState::Dead, CellState::Dead]);
    b.rescale_bounds();
    assert_eq!((b.x_max, b.y_max), (2, 3));
}

#[test]
fn glyphs() {
    assert_eq!(CellState::Alive.to_char(), '\u{2713}');
    assert_eq!(CellState::Dead.to_char(), '\u{2717}');
    assert_eq!(CellState::from_char('\u{2713}'), Some(CellState::Alive));
    assert_eq!(CellState::from_char('x'), None);
}

#[test]
fn set_many_mismatch_with_off_grid_coordinates() {
    let mut g = game_with(3, 3, &[(1, 1)]);
    let before = g.clone();
    let r = g.set_many(&[(9, 9), (0, 0), (1, 0)], &[CellState::Alive, CellState::Dead]);
    assert_eq!(r, Err(GridError::LengthMismatch));
    assert!(g == before);
}
