//! What the block-stacking games share: their timing settings, and the names and board
//! sizes by which a game is picked.
use vstd::prelude::*;
use crate::text::str_eq;

verus! {

/// Milliseconds for every delay of a game loop.
#[derive(Clone, Copy, Debug, PartialEq, Eq, Structural)]
pub struct Tuning {
    pub das: u64,
    pub arr: u64,
    pub lock_delay: u64,
    pub freeze_delay: u64,
    pub clear_delay: u64,
    pub spawn_delay: u64,
    /// Milliseconds to wait between two steps of a falling piece.
    pub fall_speed: u64,
    /// How far a falling pair moves down at every step, in hundredths of a cell.
    pub fall_skip: u64,
}

impl Tuning {
    /// The default settings.
    pub fn new() -> (r: Tuning)
        ensures
            r == (Tuning {
                das: 133,
                arr: 5,
                lock_delay: 20,
                freeze_delay: 1000,
                clear_delay: 500,
                spawn_delay: 0,
                fall_speed: 200,
                fall_skip: 50,
            }),
    {
        Tuning {
            das: 133,
            arr: 5,
            lock_delay: 20,
            freeze_delay: 1000,
            clear_delay: 500,
            spawn_delay: 0,
            fall_speed: 200,
            fall_skip: 50,
        }
    }
}

/// The block-stacking games.
#[derive(Clone, Copy, PartialEq, Eq, Debug, Structural)]
pub enum GameKind {
    /// The falling pairs of coloured blobs.
    Buyo,
    /// The falling tetrominoes.
    Tet,
}

/// The game named `name`: `buyo` or `tet`.
pub open spec fn game_kind_named(name: Seq<char>) -> Option<GameKind> {
    if name == "buyo"@ {
        Some(GameKind::Buyo)
    } else if name == "tet"@ {
        Some(GameKind::Tet)
    } else {
        None
    }
}

impl GameKind {
    /// The game named `type_`, if there is one.
    pub fn from_name(type_: &str) -> (r: Option<GameKind>)
        ensures
            r == game_kind_named(type_@),
    {
        if str_eq(type_, "buyo") {
            Some(GameKind::Buyo)
        } else if str_eq(type_, "tet") {
            Some(GameKind::Tet)
        } else {
            None
        }
    }

    /// The width and height of the board the game is played on.
    pub fn board_size(self) -> (r: (i32, i32))
        ensures
            r == match self {
                GameKind::Buyo => (6i32, 12i32),
                GameKind::Tet => (10i32, 24i32),
            },
    {
        match self {
            GameKind::Buyo => (6, 12),
            GameKind::Tet => (10, 24),
        }
    }
}

} // verus!
