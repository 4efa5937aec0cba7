//! A verified Minesweeper game engine.
//!
//! The engine owns the full puzzle state: a rectangular board of cells, a
//! game status, and an elapsed-time counter. It is mutated only through a
//! small set of operations (construction, dig, flag toggling, timer ticks,
//! reset), each of which carries a contract describing exactly how the
//! state changes. Rendering and input capture are left to callers.

pub mod cells;
pub mod counting;
pub mod engine;
pub mod flood;
pub mod grid;
pub mod props;
pub mod rng;

pub use cells::{Cell, CellInteraction, CellKind, GameError, GameParams, Status};
pub use engine::{GameInfo, GameState};
