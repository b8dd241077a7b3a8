use vstd::prelude::*;

use std::collections::VecDeque;

use crate::action::GameAction;
use crate::cell::CellState;
use crate::codec::{load_game_text, load_spec, save_game_text, save_text, SaveLoadError};
use crate::game::{write_cells, Game};
use crate::rules::{in_bounds, step_cells};

verus! {

/// Milliseconds between two generations while a session plays.
pub const STEP_INTERVAL_MS: u64 = 200;

/// When the last generation was computed, and how long to wait before the
/// next one, in milliseconds of a clock that the caller reads.
#[derive(Clone, Copy, Debug, PartialEq, Eq, Structural)]
pub struct StepDelay {
    pub prev_step: u64,
    pub delay: u64,
}

impl StepDelay {
    /// At least `delay` has passed since the last generation. A clock
    /// reading before that generation counts as no time passed.
    pub open spec fn due(&self, now: u64) -> bool {
        now >= self.prev_step && now - self.prev_step >= self.delay
    }

    /// Whether the next generation is due at `now`.
    pub fn can_step(&self, now: u64) -> (r: bool)
        ensures
            r == self.due(now),
    {
        now >= self.prev_step && now - self.prev_step >= self.delay
    }
}

/// Where a session stands.
#[derive(Clone, Copy, Debug, PartialEq, Eq, Structural)]
pub enum SessionMode {
    Idle,
    Playing,
    AwaitingGrow,
    AwaitingKill,
    AwaitingSave,
    AwaitingLoad,
    Terminated,
}

/// What went wrong in a session; always shown to the user.
#[derive(Clone, Copy, Debug, PartialEq, Eq, Structural)]
pub enum SessionError {
    /// The input named no command.
    UnknownAction,
    /// A coordinate lies off the grid; no cell was changed.
    OutOfBounds,
    /// Saved text could not be read or held no grid; the grid was kept.
    Load(SaveLoadError),
}

/// What the caller of a session has to do next.
#[derive(Clone, Copy, Debug, PartialEq, Eq, Structural)]
pub enum SessionEffect {
    Nothing,
    /// The grid changed: show it again.
    Redraw,
    /// Print the grid.
    ShowBoard,
    /// Read a list of coordinates and hand it to `supply_coordinates`.
    AskCoordinates,
    /// Read a path, then write the text of `take_save_text` there.
    AskSavePath,
    /// Read a path and hand its text to `finish_load`.
    AskLoadPath,
    Report(SessionError),
    /// The session is over.
    Exit,
}

/// The mode that an action leads to.
pub open spec fn action_mode(mode: SessionMode, a: GameAction) -> SessionMode {
    if mode == SessionMode::Terminated {
        SessionMode::Terminated
    } else {
        match a {
            GameAction::Step => SessionMode::Idle,
            GameAction::Play => SessionMode::Playing,
            GameAction::Paused => if mode == SessionMode::Playing {
                SessionMode::Idle
            } else {
                mode
            },
            GameAction::GrowCell => SessionMode::AwaitingGrow,
            GameAction::KillCell => SessionMode::AwaitingKill,
            GameAction::Save => SessionMode::AwaitingSave,
            GameAction::Load => SessionMode::AwaitingLoad,
            GameAction::Quit => SessionMode::Terminated,
            GameAction::PrintBoard => mode,
            GameAction::Failed => mode,
        }
    }
}

/// What the caller has to do after an action.
pub open spec fn action_effect(mode: SessionMode, a: GameAction) -> SessionEffect {
    if mode == SessionMode::Terminated {
        SessionEffect::Nothing
    } else {
        match a {
            GameAction::Step => SessionEffect::Redraw,
            GameAction::Play => SessionEffect::Nothing,
            GameAction::Paused => SessionEffect::Nothing,
            GameAction::GrowCell => SessionEffect::AskCoordinates,
            GameAction::KillCell => SessionEffect::AskCoordinates,
            GameAction::Save => SessionEffect::AskSavePath,
            GameAction::Load => SessionEffect::AskLoadPath,
            GameAction::Quit => SessionEffect::Exit,
            GameAction::PrintBoard => SessionEffect::ShowBoard,
            GameAction::Failed => SessionEffect::Report(SessionError::UnknownAction),
        }
    }
}

/// An interactive session: the grid, where the session stands, and when
/// the grid last moved on. The caller reads the clock and the input and
/// hands them in; the session never waits.
pub struct GUIGameState {
    pub board: Game,
    pub mode: SessionMode,
    pub timing: StepDelay,
    /// Whether playing ends the session once no cell is alive.
    pub stop_when_extinct: bool,
}

impl GUIGameState {
    pub open spec fn wf(&self) -> bool {
        self.board.wf()
    }

    /// An idle session on a dead grid of `size.0` by `size.1` cells.
    pub fn new(size: (usize, usize), now: u64) -> (r: GUIGameState)
        requires
            size.0 * size.1 <= usize::MAX,
        ensures
            r.wf(),
            r.board.w() == size.0,
            r.board.h() == size.1,
            r.board.cells() == Seq::new((size.0 * size.1) as nat, |i: int| CellState::Dead),
            r.mode == SessionMode::Idle,
            r.timing == (StepDelay { prev_step: now, delay: STEP_INTERVAL_MS }),
            !r.stop_when_extinct,
    {
        GUIGameState {
            board: Game::new(size.0, size.1),
            mode: SessionMode::Idle,
            timing: StepDelay { prev_step: now, delay: STEP_INTERVAL_MS },
            stop_when_extinct: false,
        }
    }

    /// An idle session on `game`.
    pub fn from_game(game: Game, now: u64) -> (r: GUIGameState)
        requires
            game.wf(),
        ensures
            r.wf(),
            r.board == game,
            r.mode == SessionMode::Idle,
            r.timing == (StepDelay { prev_step: now, delay: STEP_INTERVAL_MS }),
            !r.stop_when_extinct,
    {
        GUIGameState {
            board: game,
            mode: SessionMode::Idle,
            timing: StepDelay { prev_step: now, delay: STEP_INTERVAL_MS },
            stop_when_extinct: false,
        }
    }

    /// One generation, computed at `now`.
    pub fn tick(&mut self, now: u64)
        requires
            old(self).wf(),
        ensures
            final(self).wf(),
            final(self).board.w() == old(self).board.w(),
            final(self).board.h() == old(self).board.h(),
            final(self).board.cells() == step_cells(
                old(self).board.cells(),
                old(self).board.w(),
                old(self).board.h(),
            ),
            final(self).timing == (StepDelay { prev_step: now, delay: old(self).timing.delay }),
            final(self).mode == old(self).mode,
            final(self).stop_when_extinct == old(self).stop_when_extinct,
    {
        self.board.step(1);
        proof {
            let c = old(self).board.cells();
            let (w, h) = (old(self).board.w(), old(self).board.h());
            assert(crate::rules::iterate_cells(step_cells(c, w, h), w, h, 0) == step_cells(c, w, h));
        }
        self.timing.prev_step = now;
    }

    /// Replaces the grid.
    pub fn load_new_board(&mut self, new: Game)
        requires
            new.wf(),
        ensures
            final(self).wf(),
            final(self).board == new,
            final(self).mode == old(self).mode,
            final(self).timing == old(self).timing,
            final(self).stop_when_extinct == old(self).stop_when_extinct,
    {
        self.board = new;
    }

    /// Consumes one action. A step moves the grid on at once; the other
    /// actions change the mode, and a finished session ignores them all.
    pub fn handle_action(&mut self, action: GameAction, now: u64) -> (r: SessionEffect)
        requires
            old(self).wf(),
        ensures
            final(self).wf(),
            r == action_effect(old(self).mode, action),
            final(self).mode == action_mode(old(self).mode, action),
            final(self).stop_when_extinct == old(self).stop_when_extinct,
            final(self).board.w() == old(self).board.w(),
            final(self).board.h() == old(self).board.h(),
            old(self).mode != SessionMode::Terminated && action == GameAction::Step ==> final(self).board.cells()
                == step_cells(old(self).board.cells(), old(self).board.w(), old(self).board.h())
                && final(self).timing == (StepDelay { prev_step: now, delay: old(self).timing.delay }),
            !(old(self).mode != SessionMode::Terminated && action == GameAction::Step) ==> final(self).board
                == old(self).board && final(self).timing == old(self).timing,
    {
        if self.mode == SessionMode::Terminated {
            return SessionEffect::Nothing;
        }
        match action {
            GameAction::Step => {
                self.tick(now);
                self.mode = SessionMode::Idle;
                SessionEffect::Redraw
            },
            GameAction::Play => {
                self.mode = SessionMode::Playing;
                SessionEffect::Nothing
            },
            GameAction::Paused => {
                if self.mode == SessionMode::Playing {
                    self.mode = SessionMode::Idle;
                }
                SessionEffect::Nothing
            },
            GameAction::GrowCell => {
                self.mode = SessionMode::AwaitingGrow;
                SessionEffect::AskCoordinates
            },
            GameAction::KillCell => {
                self.mode = SessionMode::AwaitingKill;
                SessionEffect::AskCoordinates
            },
            GameAction::Save => {
                self.mode = SessionMode::AwaitingSave;
                SessionEffect::AskSavePath
            },
            GameAction::Load => {
                self.mode = SessionMode::AwaitingLoad;
                SessionEffect::AskLoadPath
            },
            GameAction::Quit => {
                self.mode = SessionMode::Terminated;
                SessionEffect::Exit
            },
            GameAction::PrintBoard => SessionEffect::ShowBoard,
            GameAction::Failed => SessionEffect::Report(SessionError::UnknownAction),
        }
    }

    /// Called on every pass of the caller's loop. While playing, computes
    /// one generation when it is due; a session that stops when extinct
    /// then ends if no cell is left alive.
    pub fn poll(&mut self, now: u64) -> (r: SessionEffect)
        requires
            old(self).wf(),
        ensures
            final(self).wf(),
            final(self).stop_when_extinct == old(self).stop_when_extinct,
            final(self).board.w() == old(self).board.w(),
            final(self).board.h() == old(self).board.h(),
            !(old(self).mode == SessionMode::Playing && old(self).timing.due(now)) ==> *final(self)
                == *old(self) && r == SessionEffect::Nothing,
            old(self).mode == SessionMode::Playing && old(self).timing.due(now) ==> {
                &&& final(self).board.cells() == step_cells(
                    old(self).board.cells(),
                    old(self).board.w(),
                    old(self).board.h(),
                )
                &&& final(self).timing == (StepDelay { prev_step: now, delay: old(self).timing.delay })
                &&& if old(self).stop_when_extinct && !final(self).board.cells().contains(
                    CellState::Alive,
                ) {
                    final(self).mode == SessionMode::Terminated && r == SessionEffect::Exit
                } else {
                    final(self).mode == SessionMode::Playing && r == SessionEffect::Redraw
                }
            },
    {
        if self.mode != SessionMode::Playing || !self.timing.can_step(now) {
            return SessionEffect::Nothing;
        }
        self.tick(now);
        if self.stop_when_extinct && !self.board.has_alive_cells() {
            self.mode = SessionMode::Terminated;
            return SessionEffect::Exit;
        }
        SessionEffect::Redraw
    }

    /// Hands in the coordinates that growing or killing cells asked for.
    /// All of them must lie on the grid, else no cell changes.
    pub fn supply_coordinates(&mut self, coords: &Vec<(usize, usize)>) -> (r: SessionEffect)
        requires
            old(self).wf(),
        ensures
            final(self).wf(),
            final(self).stop_when_extinct == old(self).stop_when_extinct,
            final(self).timing == old(self).timing,
            final(self).board.w() == old(self).board.w(),
            final(self).board.h() == old(self).board.h(),
            ({
                let m = old(self).mode;
                let inside = forall|i: int|
                    0 <= i < coords@.len() ==> in_bounds(
                        old(self).board.w() as int,
                        old(self).board.h() as int,
                        #[trigger] coords@[i].0 as int,
                        coords@[i].1 as int,
                    );
                let state = if m == SessionMode::AwaitingGrow {
                    CellState::Alive
                } else {
                    CellState::Dead
                };
                if m != SessionMode::AwaitingGrow && m != SessionMode::AwaitingKill {
                    *final(self) == *old(self) && r == SessionEffect::Nothing
                } else if inside {
                    &&& final(self).mode == SessionMode::Idle
                    &&& r == SessionEffect::Redraw
                    &&& final(self).board.cells() == write_cells(
                        old(self).board.cells(),
                        old(self).board.w() as int,
                        coords@,
                        seq![state],
                    )
                } else {
                    &&& final(self).mode == SessionMode::Idle
                    &&& r == SessionEffect::Report(SessionError::OutOfBounds)
                    &&& final(self).board == old(self).board
                }
            }),
    {
        let state = if self.mode == SessionMode::AwaitingGrow {
            CellState::Alive
        } else if self.mode == SessionMode::AwaitingKill {
            CellState::Dead
        } else {
            return SessionEffect::Nothing;
        };
        let w = self.board.width();
        let h = self.board.height();
        let mut i: usize = 0;
        while i < coords.len()
            invariant
                i <= coords@.len(),
                *self == *old(self),
                self.wf(),
                state == (if self.mode == SessionMode::AwaitingGrow {
                    CellState::Alive
                } else {
                    CellState::Dead
                }),
                self.mode == SessionMode::AwaitingGrow || self.mode == SessionMode::AwaitingKill,
                w == self.board.w(),
                h == self.board.h(),
                forall|k: int|
                    0 <= k < i ==> in_bounds(
                        w as int,
                        h as int,
                        #[trigger] coords@[k].0 as int,
                        coords@[k].1 as int,
                    ),
            decreases coords@.len() - i,
        {
            let (x, y) = coords[i];
            if x >= w || y >= h {
                self.mode = SessionMode::Idle;
                return SessionEffect::Report(SessionError::OutOfBounds);
            }
            i = i + 1;
        }
        let states = [state];
        assert(states@ =~= seq![state]);
        let written = self.board.set_many(coords.as_slice(), &states);
        assert(written is Ok);
        self.mode = SessionMode::Idle;
        SessionEffect::Redraw
    }

    /// The text to write where saving asked for a path, once.
    pub fn take_save_text(&mut self) -> (r: Option<String>)
        requires
            old(self).wf(),
        ensures
            final(self).wf(),
            final(self).board == old(self).board,
            final(self).timing == old(self).timing,
            final(self).stop_when_extinct == old(self).stop_when_extinct,
            old(self).mode == SessionMode::AwaitingSave ==> final(self).mode == SessionMode::Idle
                && r is Some && r->0@ == save_text(
                old(self).board.cells(),
                old(self).board.w(),
                old(self).board.h(),
            ),
            old(self).mode != SessionMode::AwaitingSave ==> final(self).mode == old(self).mode
                && r is None,
    {
        if self.mode != SessionMode::AwaitingSave {
            return None;
        }
        self.mode = SessionMode::Idle;
        Some(save_game_text(&self.board))
    }

    /// Hands in the text that loading asked for, or `None` where it could
    /// not be read. The grid is replaced only by a grid that loaded.
    pub fn finish_load(&mut self, text: Option<&str>) -> (r: SessionEffect)
        requires
            old(self).wf(),
        ensures
            final(self).wf(),
            final(self).timing == old(self).timing,
            final(self).stop_when_extinct == old(self).stop_when_extinct,
            old(self).mode != SessionMode::AwaitingLoad ==> *final(self) == *old(self) && r
                == SessionEffect::Nothing,
            old(self).mode == SessionMode::AwaitingLoad ==> final(self).mode == SessionMode::Idle,
            old(self).mode == SessionMode::AwaitingLoad && text is None ==> final(self).board
                == old(self).board && r == SessionEffect::Report(
                SessionError::Load(SaveLoadError::FileOpen),
            ),
            old(self).mode == SessionMode::AwaitingLoad && text is Some ==> match load_spec(
                text->0@,
            ) {
                Ok(g) => r == SessionEffect::Redraw && g == (
                    final(self).board.w(),
                    final(self).board.h(),
                    final(self).board.cells(),
                ),
                Err(e) => r == SessionEffect::Report(SessionError::Load(e)) && final(self).board
                    == old(self).board,
            },
    {
        if self.mode != SessionMode::AwaitingLoad {
            return SessionEffect::Nothing;
        }
        self.mode = SessionMode::Idle;
        match text {
            None => SessionEffect::Report(SessionError::Load(SaveLoadError::FileOpen)),
            Some(t) => match load_game_text(t) {
                Ok(g) => {
                    self.board = g;
                    SessionEffect::Redraw
                },
                Err(e) => SessionEffect::Report(SessionError::Load(e)),
            },
        }
    }
}

/// A request that the window passes on to the program.
#[derive(Clone, Copy, Debug, PartialEq, Eq, Structural)]
pub enum ProgramEvent {
    ShowHelp,
    SaveBoard,
    LoadBoard,
    ExitApplication,
}

/// Requests waiting to be handled, oldest first. A request equal to the
/// newest one waiting is refused, so that a held key counts once.
pub struct ProgramManager {
    to_process: VecDeque<ProgramEvent>,
}

impl ProgramManager {
    /// The waiting requests, oldest first.
    pub closed spec fn queue(&self) -> Seq<ProgramEvent> {
        self.to_process@
    }

    /// No request waiting.
    pub fn new() -> (r: ProgramManager)
        ensures
            r.queue() == Seq::<ProgramEvent>::empty(),
    {
        ProgramManager { to_process: VecDeque::new() }
    }

    /// Queues `event` unless it equals the newest waiting request.
    pub fn add_event(&mut self, event: ProgramEvent) -> (r: Result<(), ()>)
        ensures
            old(self).queue().len() > 0 && old(self).queue().last() == event ==> r is Err
                && final(self).queue() == old(self).queue(),
            !(old(self).queue().len() > 0 && old(self).queue().last() == event) ==> r is Ok
                && final(self).queue() == old(self).queue().push(event),
    {
        let n = self.to_process.len();
        if n > 0 {
            let newest = self.to_process[n - 1];
            if newest == event {
                return Err(());
            }
        }
        self.to_process.push_back(event);
        Ok(())
    }

    /// Queues `event` as `add_event` does, without saying whether it did.
    pub fn add_event_ignore(&mut self, event: ProgramEvent)
        ensures
            old(self).queue().len() > 0 && old(self).queue().last() == event ==> final(self).queue()
                == old(self).queue(),
            !(old(self).queue().len() > 0 && old(self).queue().last() == event) ==> final(self).queue()
                == old(self).queue().push(event),
    {
        let _ = self.add_event(event);
    }

    /// Removes and returns the oldest waiting request.
    pub fn pop(&mut self) -> (r: Option<ProgramEvent>)
        ensures
            old(self).queue().len() == 0 ==> r is None && final(self).queue() == old(self).queue(),
            old(self).queue().len() > 0 ==> r == Some(old(self).queue()[0]) && final(self).queue()
                == old(self).queue().drop_first(),
    {
        self.to_process.pop_front()
    }
}

} // verus!
