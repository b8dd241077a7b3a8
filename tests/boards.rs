use life_sim::board::{get_neighbors, GameBoardOld, GAME_X, GAME_Y};
use life_sim::cell::CellState;
use life_sim::codec::{load_board_text, save_board_text};
use life_sim::game::Game;

fn show(game: &Game) -> String {
    let mut s = format!("{} by {} board:\n", game.width(), game.height());
    for row in game.rows() {
        s += &format!("{:?}\n", row);
    }
    s
}

#[test]
fn file_io_test() {
    let mut board = GameBoardOld::new(10, 10);
    let cells = vec![
        (0, 0),
        (1, 1),
        (2, 2),
        (3, 3),
        (4, 4),
        (5, 5),
        (6, 6),
        (7, 7),
        (8, 8),
        (9, 9),
    ];
    board.set_cells(cells, CellState::Alive);
    let text = save_board_text(&board);

    let loaded_board = load_board_text(&text).unwrap();
    assert!(board == loaded_board)
}

#[test]
fn check_all_neighbor_counts() {
    let board = GameBoardOld::new(GAME_X, GAME_Y);
    let (last_x, last_y) = (board.x_max - 1, board.y_max - 1);
    for y in 0..board.y_max {
        for x in 0..board.x_max {
            let count = get_neighbors(&board, x, y).len();

            if (x == 0 || x == last_x) && (y == 0 || y == last_y) {
                assert_eq!(count, 3, "({x},{y}) failed"); // Corner cell
            } else if x == 0 || y == 0 || x == last_x || y == last_y {
                assert_eq!(count, 5, "({x},{y}) failed"); // Edge cell
            } else {
                assert_eq!(count, 8, "({x},{y}) failed"); // Center / "normal" cell
            }
        }
    }
}

#[test]
fn mini_find_neighbors_test() {
    let board = GameBoardOld::new(5, 5);
    let (last_x, last_y) = (board.x_max - 1, board.y_max - 1);
    let cells = [
        (0, 0),
        (0, last_y),
        (last_x, 0),
        (last_x, last_y),
        (2, 3),
        (0, 3),
        (3, 0),
        (1, 1),
    ];

    let answers = [3, 3, 3, 3, 8, 5, 5, 8];

    for i in 0..cells.len() {
        let cell = cells[i];
        assert_eq!(
            get_neighbors(&board, cell.0, cell.1).len(),
            answers[i],
            "{:?} failed)",
            cell
        )
    }
}

#[test]
fn dead_board_test() {
    let mut board = GameBoardOld::new(10, 10);
    assert!(!board.has_alive_cells());

    board.set(5, 5, CellState::Alive);
    assert!(board.has_alive_cells());
}

#[test]
fn new_board_updating() {
    let mut board = Game::new(10, 10);
    let cells = [(1, 1), (2, 2), (3, 3), (4, 4)];
    board.set_many(&cells, &[CellState::Alive]).unwrap();

    for _ in 0..3 {
        println!("{}", show(&board));
        board.step(1);
    }
}
