use life_sim::action::{get_user_game_action, GameAction};
use life_sim::cell::CellState;
use life_sim::codec::SaveLoadError;
use life_sim::game::Game;
use life_sim::session::{
    GUIGameState, ProgramEvent, ProgramManager, SessionEffect, SessionError, SessionMode, StepDelay,
};

fn blinker_session(now: u64) -> GUIGameState {
    let mut g = Game::new(5, 5);
    g.set_many(&[(1, 2), (2, 2), (3, 2)], &[CellState::Alive]).unwrap();
    GUIGameState::from_game(g, now)
}

#[test]
fn add_event_refuses_a_repeat() {
    let mut m = ProgramManager::new();
    assert_eq!(m.add_event(ProgramEvent::SaveBoard), Ok(()));
    assert_eq!(m.add_event(ProgramEvent::SaveBoard), Err(()));
    assert_eq!(m.add_event(ProgramEvent::ShowHelp), Ok(()));
    m.add_event_ignore(ProgramEvent::SaveBoard);
    assert_eq!(m.pop(), Some(ProgramEvent::SaveBoard));
    assert_eq!(m.pop(), Some(ProgramEvent::ShowHelp));
    assert_eq!(m.pop(), Some(ProgramEvent::SaveBoard));
    assert_eq!(m.pop(), None);
}

#[test]
fn step_delay() {
    let d = StepDelay { prev_step: 1000, delay: 200 };
    assert!(!d.can_step(1199));
    assert!(d.can_step(1200));
    assert!(!d.can_step(500));
}

#[test]
fn parse_actions() {
    assert_eq!(get_user_game_action("s\n"), GameAction::Step);
    assert_eq!(get_user_game_action("  g  "), GameAction::GrowCell);
    assert_eq!(get_user_game_action("k"), GameAction::KillCell);
    assert_eq!(get_user_game_action("p"), GameAction::PrintBoard);
    assert_eq!(get_user_game_action("l"), GameAction::Play);
    assert_eq!(get_user_game_action("v"), GameAction::Save);
    assert_eq!(get_user_game_action("q"), GameAction::Quit);
    assert_eq!(get_user_game_action("c\r\n"), GameAction::Quit);
    assert_eq!(get_user_game_action("S"), GameAction::Failed);
    assert_eq!(get_user_game_action("s s"), GameAction::Failed);
    assert_eq!(get_user_game_action(""), GameAction::Failed);
}

#[test]
fn step_action_moves_the_grid_on() {
    let mut s = blinker_session(0);
    assert_eq!(s.handle_action(GameAction::Step, 50), SessionEffect::Redraw);
    assert_eq!(s.mode, SessionMode::Idle);
    assert_eq!(s.timing.prev_step, 50);
    assert_eq!(s.board.get(2, 1), Some(CellState::Alive));
    assert_eq!(s.board.get(1, 2), Some(CellState::Dead));
}

#[test]
fn play_steps_only_when_due() {
    let mut s = blinker_session(0);
    assert_eq!(s.handle_action(GameAction::Play, 10), SessionEffect::Nothing);
    assert_eq!(s.mode, SessionMode::Playing);
    assert_eq!(s.poll(150), SessionEffect::Nothing);
    assert_eq!(s.board.get(1, 2), Some(CellState::Alive));
    assert_eq!(s.poll(200), SessionEffect::Redraw);
    assert_eq!(s.board.get(1, 2), Some(CellState::Dead));
    assert_eq!(s.poll(300), SessionEffect::Nothing);
    assert_eq!(s.handle_action(GameAction::Paused, 400), SessionEffect::Nothing);
    assert_eq!(s.mode, SessionMode::Idle);
    assert_eq!(s.poll(1000), SessionEffect::Nothing);
}

#[test]
fn extinction_ends_play() {
    let mut g = Game::new(4, 4);
    g.set(1, 1, CellState::Alive);
    let mut s = GUIGameState::from_game(g, 0);
    s.stop_when_extinct = true;
    s.handle_action(GameAction::Play, 0);
    assert_eq!(s.poll(250), SessionEffect::Exit);
    assert_eq!(s.mode, SessionMode::Terminated);
    assert_eq!(s.handle_action(GameAction::Step, 300), SessionEffect::Nothing);
}

#[test]
fn grow_and_kill_cells() {
    let mut s = GUIGameState::new((4, 4), 0);
    assert_eq!(s.handle_action(GameAction::GrowCell, 0), SessionEffect::AskCoordinates);
    assert_eq!(s.supply_coordinates(&vec![(0, 0), (3, 3)]), SessionEffect::Redraw);
    assert_eq!(s.board.get(3, 3), Some(CellState::Alive));
    assert_eq!(s.mode, SessionMode::Idle);
    s.handle_action(GameAction::KillCell, 0);
    assert_eq!(s.supply_coordinates(&vec![(3, 3)]), SessionEffect::Redraw);
    assert_eq!(s.board.get(3, 3), Some(CellState::Dead));
    assert_eq!(s.board.get(0, 0), Some(CellState::Alive));
    assert_eq!(s.supply_coordinates(&vec![(1, 1)]), SessionEffect::Nothing);
}

#[test]
fn coordinates_off_the_grid_change_nothing() {
    let mut s = GUIGameState::new((4, 4), 0);
    s.handle_action(GameAction::GrowCell, 0);
    assert_eq!(
        s.supply_coordinates(&vec![(0, 0), (4, 0)]),
        SessionEffect::Report(SessionError::OutOfBounds)
    );
    assert!(!s.board.has_alive_cells());
    assert_eq!(s.mode, SessionMode::Idle);
}

#[test]
fn save_and_load() {
    let mut s = blinker_session(0);
    assert_eq!(s.take_save_text(), None);
    assert_eq!(s.handle_action(GameAction::Save, 0), SessionEffect::AskSavePath);
    let text = s.take_save_text().unwrap();
    assert_eq!(s.mode, SessionMode::Idle);
    let mut other = GUIGameState::new((2, 2), 0);
    assert_eq!(other.handle_action(GameAction::Load, 0), SessionEffect::AskLoadPath);
    assert_eq!(other.finish_load(Some(&text)), SessionEffect::Redraw);
    assert!(other.board == s.board);
}

#[test]
fn failed_load_keeps_the_grid() {
    let mut s = blinker_session(0);
    let before = s.board.clone();
    s.handle_action(GameAction::Load, 0);
    assert_eq!(
        s.finish_load(None),
        SessionEffect::Report(SessionError::Load(SaveLoadError::FileOpen))
    );
    s.handle_action(GameAction::Load, 0);
    assert_eq!(
        s.finish_load(Some("")),
        SessionEffect::Report(SessionError::Load(SaveLoadError::EmptyFile))
    );
    assert!(s.board == before);
    assert_eq!(s.mode, SessionMode::Idle);
}

#[test]
fn quit_and_failed() {
    let mut s = GUIGameState::new((3, 3), 0);
    assert_eq!(
        s.handle_action(GameAction::Failed, 0),
        SessionEffect::Report(SessionError::UnknownAction)
    );
    assert_eq!(s.mode, SessionMode::Idle);
    assert_eq!(s.handle_action(GameAction::PrintBoard, 0), SessionEffect::ShowBoard);
    assert_eq!(s.handle_action(GameAction::Quit, 0), SessionEffect::Exit);
    assert_eq!(s.mode, SessionMode::Terminated);
}

#[test]
fn tick_and_load_new_board() {
    let mut s = blinker_session(0);
    s.tick(70);
    assert_eq!(s.timing.prev_step, 70);
    assert_eq!(s.board.get(2, 3), Some(CellState::Alive));
    s.load_new_board(Game::new(2, 3));
    assert_eq!((s.board.width(), s.board.height()), (2, 3));
}
