//! A Minesweeper engine: the grid, the placement of the mines on the first
//! click, the opening of cells with its flood fill, the marks, and the rules
//! for winning and losing.

pub mod board;
pub mod cell;
pub mod clicks;
pub mod ending;
pub mod feed;
pub mod field;
pub mod flood;
pub mod game;
pub mod grid;
pub mod laws;
pub mod layout;
pub mod marks;
pub mod neighbors;
pub mod placement;
pub mod random;
pub mod seven_segment;
pub mod uncover;

pub use crate::cell::{CellImage, Col, Count, Dim, GameState, Pos, Row};
pub use crate::game::{ConstructionError, Game};
