//! The basic board vocabulary: cell kinds, interaction states, game status,
//! parameters and the single error kind.

use vstd::prelude::*;

verus! {

/// What a cell conceals, fixed when the board is generated: either a mine,
/// or a clear cell labelled with the number of adjacent mines.
#[derive(Clone, Copy, Debug, PartialEq, Eq, Structural)]
pub enum CellKind {
    Mine,
    Clear(u8),
}

/// How the player has interacted with a cell so far.
#[derive(Clone, Copy, Debug, PartialEq, Eq, Structural)]
pub enum CellInteraction {
    Untouched,
    Cleared,
    Flagged,
}

/// One grid position: an immutable kind plus a mutable interaction state.
#[derive(Clone, Copy, Debug, PartialEq, Eq, Structural)]
pub struct Cell {
    pub kind: CellKind,
    pub interaction: CellInteraction,
}

/// The game's lifecycle state.
#[derive(Clone, Copy, Debug, PartialEq, Eq, Structural)]
pub enum Status {
    NotStarted,
    Playing,
    Won,
    Lost,
}

/// The only error the engine raises: board parameters that cannot describe
/// a board (zero rows or columns, too many mines, or a board too large to
/// address in memory).
#[derive(Clone, Copy, Debug, PartialEq, Eq, Structural)]
pub enum GameError {
    InvalidParameters,
}

/// Board construction parameters.
#[derive(Clone, Copy, Debug, PartialEq, Eq, Structural)]
pub struct GameParams {
    pub rows: usize,
    pub columns: usize,
    pub mine_count: usize,
}

} // verus!
