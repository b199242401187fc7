//! Core engine of a falling-block puzzle game: piece geometry, the 7-bag
//! randomizer queue, the board with line-clear compaction, and the session
//! state machine (gravity, lock delay, scoring, leveling, pause, game over).
//!
//! Rendering, keyboard polling and the frame loop are collaborators around
//! this library: the session is driven with plain commands and an integer
//! millisecond clock supplied from outside, and exposes queryable
//! snapshots (display grid, score, previews) for a renderer.

pub mod bag;
pub mod board;
pub mod game;
pub mod pieces;
