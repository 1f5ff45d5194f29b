//! Renders a replayed Go position as a tree of vector-drawing elements.

pub mod board;
pub mod layout;
pub mod render;
pub mod style;

use vstd::prelude::*;

verus! {

/// The colour of a stone. An empty point has no colour at all.
#[derive(Clone, Copy, Debug, PartialEq, Eq, Structural)]
pub enum StoneColor {
    Black,
    White,
}

impl StoneColor {
    pub open spec fn opposite(self) -> StoneColor {
        match self {
            StoneColor::Black => StoneColor::White,
            StoneColor::White => StoneColor::Black,
        }
    }

    /// The other colour.
    pub fn other(self) -> (r: StoneColor)
        ensures
            r == self.opposite(),
    {
        match self {
            StoneColor::Black => StoneColor::White,
            StoneColor::White => StoneColor::Black,
        }
    }
}

/// A board coordinate: column `x` and row `y`, both counted from zero.
#[derive(Clone, Copy, Debug, PartialEq, Eq, Structural)]
pub struct Point {
    pub x: usize,
    pub y: usize,
}

/// The failures that replaying or drawing a diagram can report.
#[derive(Clone, Debug, PartialEq, Eq, Structural)]
pub enum MakeSvgError {
    /// A stone on an occupied point, or a point off the board.
    InvalidMove,
    /// The extra definitions of a style are not well-formed markup.
    StyleDefError,
    /// A board side of zero, or larger than the largest supported side.
    InvalidBoardSize,
    /// A move range whose end precedes its start.
    RangeOutOfBounds,
    /// A cell size or margin outside the drawable geometry.
    InvalidLayout,
    /// A style width or radius above the largest one drawn.
    InvalidStyleWidth,
}

} // verus!
