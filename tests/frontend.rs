use life_sim::cell::CellState;
use life_sim::coords::get_user_number;
use life_sim::display::{draw_board, initial_gui_draw, DrawInformation};
use life_sim::game::Game;
use life_sim::wiki::{convert_wiki_file_to_save, convert_wiki_to_board};

#[test]
fn wiki_pattern_to_board() {
    let text = "!Name: Glider\n!\n.O\n..O\nOOO\n";
    let b = convert_wiki_to_board(text);
    assert_eq!((b.x_max, b.y_max), (3, 3));
    assert_eq!(b.get(1, 0), CellState::Alive);
    assert_eq!(b.get(2, 0), CellState::Dead);
    assert_eq!(b.get(2, 1), CellState::Alive);
    assert_eq!(b.get(0, 2), CellState::Alive);
}

#[test]
fn wiki_pattern_to_save_text() {
    let text = "!comment\nO.\n.O";
    assert_eq!(
        convert_wiki_file_to_save(text),
        "\u{2713}\u{2717}\n\u{2717}\u{2713}"
    );
}

#[test]
fn user_numbers() {
    assert_eq!(get_user_number(" 42\n"), Some(42));
    assert_eq!(get_user_number("7"), Some(7));
    assert_eq!(get_user_number("4 2"), None);
    assert_eq!(get_user_number("-1"), None);
    assert_eq!(get_user_number("\n"), None);
    assert_eq!(get_user_number("99999999999999999999999"), None);
}

#[test]
fn layout_for_a_grid() {
    let info = DrawInformation::for_grid(3, 2).unwrap();
    assert_eq!((info.screen_width, info.screen_height), (32, 22));
    assert_eq!(info.index_to_pixel(33), (1, 1));
    // pixel (3, 3) is inside cell (0, 0); pixel (13, 3) inside cell (1, 0)
    assert_eq!(info.index_to_cell(3 * 32 + 3), Some((0, 0)));
    assert_eq!(info.index_to_cell(3 * 32 + 13), Some((1, 0)));
    // columns 0..=2 and 10..=12 are gaps
    assert_eq!(info.index_to_cell(3 * 32 + 2), None);
    assert_eq!(info.index_to_cell(3 * 32 + 12), None);
    assert!(DrawInformation::for_grid(0, 2).is_none());
    assert!(DrawInformation::for_grid(1_000_000_000, 1).is_none());
}

#[test]
fn frames() {
    let mut g = Game::new(3, 2);
    g.set(1, 0, CellState::Alive);
    let info = DrawInformation::for_grid(3, 2).unwrap();
    let frame = draw_board(&g, &info);
    assert_eq!(frame.len(), 32 * 22 * 4);
    let at = |x: usize, y: usize| frame[4 * (y * 32 + x)];
    assert_eq!(at(14, 4), 200);
    assert_eq!(at(4, 4), 0);
    assert_eq!(at(11, 4), 0);
    let first = initial_gui_draw(&info);
    let px = |x: usize, y: usize| &first[4 * (y * 32 + x)..4 * (y * 32 + x) + 4];
    assert_eq!(px(4, 4), &[0, 0, 128, 128]);
    assert_eq!(px(14, 14), &[128, 128, 128, 128]);
    assert_eq!(px(0, 0), &[0, 0, 0, 0]);
}
