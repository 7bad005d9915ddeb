//! State model of a kanban board: fixed lanes, cards that move between them
//! by drag and drop, card creation and in-place editing.
pub mod board;
pub mod card;
pub mod filler;
pub mod laws;
