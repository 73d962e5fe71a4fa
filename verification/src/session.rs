//! The states of a game session and the keys that move between them.

use vstd::prelude::*;

verus! {

/// Whether the application is being played or is paused.
#[derive(Debug, Clone, Copy, PartialEq, Eq, Hash, Structural)]
pub enum AppState {
    InGame,
    Paused,
}

/// Whether a board is on the screen.
#[derive(Debug, Clone, Copy, PartialEq, Eq, Hash, Structural)]
pub enum BoardState {
    Active,
    Inactive,
}

/// A key that controls the session.
#[derive(Debug, Clone, Copy, PartialEq, Eq, Hash, Structural)]
pub enum StateControlKey {
    C,
    G,
    Esc,
}

/// What a key press changes: the state that the application enters, the
/// state that the board enters, and the message that tells of it. Each is
/// `None` where the key changes nothing.
#[derive(Debug, Clone, Copy, PartialEq, Eq)]
pub struct StateChange {
    pub message: Option<&'static str>,
    pub app: Option<AppState>,
    pub board: Option<BoardState>,
}

impl Default for AppState {
    /// A session starts in the game.
    fn default() -> (state: AppState)
        ensures
            state == AppState::InGame,
    {
        AppState::InGame
    }
}

impl Default for BoardState {
    /// A session starts without a board.
    fn default() -> (state: BoardState)
        ensures
            state == BoardState::Inactive,
    {
        BoardState::Inactive
    }
}

impl StateControlKey {
    /// The key that counts among those just pressed: `C` before `G` before
    /// `Esc`.
    pub fn pressed(c: bool, g: bool, esc: bool) -> (key: Option<StateControlKey>)
        ensures
            key == if c {
                Some(StateControlKey::C)
            } else if g {
                Some(StateControlKey::G)
            } else if esc {
                Some(StateControlKey::Esc)
            } else {
                None
            },
    {
        if c {
            Some(StateControlKey::C)
        } else if g {
            Some(StateControlKey::G)
        } else if esc {
            Some(StateControlKey::Esc)
        } else {
            None
        }
    }
}

impl StateChange {
    /// The change that the key `key` makes in the states `app` and `board`.
    ///
    /// In the game, `G` starts a board or starts it anew, `Esc` pauses a
    /// running board and `C` stops it. While paused, `Esc` resumes. Any
    /// other key press changes nothing.
    pub open spec fn of(app: AppState, board: BoardState, key: StateControlKey) -> StateChange {
        match (app, board, key) {
            (AppState::InGame, BoardState::Inactive, StateControlKey::G) => StateChange {
                message: Some("Starting game"),
                app: None,
                board: Some(BoardState::Active),
            },
            (AppState::InGame, BoardState::Active, StateControlKey::G) => StateChange {
                message: Some("Restarting game"),
                app: None,
                board: Some(BoardState::Active),
            },
            (AppState::InGame, BoardState::Active, StateControlKey::Esc) => StateChange {
                message: Some("Pausing game"),
                app: Some(AppState::Paused),
                board: None,
            },
            (AppState::Paused, BoardState::Active, StateControlKey::Esc) => StateChange {
                message: Some("Unpausing game"),
                app: Some(AppState::InGame),
                board: None,
            },
            (AppState::InGame, BoardState::Active, StateControlKey::C) => StateChange {
                message: Some("Stopping game"),
                app: None,
                board: Some(BoardState::Inactive),
            },
            _ => StateChange { message: None, app: None, board: None },
        }
    }
}

/// The change that the key `key` makes in the states `app` and `board`.
pub fn state_handler(app: AppState, board: BoardState, key: StateControlKey) -> (change:
    StateChange)
    ensures
        change == StateChange::of(app, board, key),
{
    match (app, board, key) {
        (AppState::InGame, BoardState::Inactive, StateControlKey::G) => StateChange {
            message: Some("Starting game"),
            app: None,
            board: Some(BoardState::Active),
        },
        (AppState::InGame, BoardState::Active, StateControlKey::G) => StateChange {
            message: Some("Restarting game"),
            app: None,
            board: Some(BoardState::Active),
        },
        (AppState::InGame, BoardState::Active, StateControlKey::Esc) => StateChange {
            message: Some("Pausing game"),
            app: Some(AppState::Paused),
            board: None,
        },
        (AppState::Paused, BoardState::Active, StateControlKey::Esc) => StateChange {
            message: Some("Unpausing game"),
            app: Some(AppState::InGame),
            board: None,
        },
        (AppState::InGame, BoardState::Active, StateControlKey::C) => StateChange {
            message: Some("Stopping game"),
            app: None,
            board: Some(BoardState::Inactive),
        },
        _ => StateChange { message: None, app: None, board: None },
    }
}

} // verus!
