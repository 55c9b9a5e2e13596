//! What a cell of the grid shows, and the phases of a game.

use vstd::prelude::*;

verus! {

/// A row of the grid, counted from the top.
pub type Row = u8;

/// A column of the grid, counted from the left.
pub type Col = u8;

/// A position in the grid: row first, then column.
pub type Pos = (Row, Col);

/// The width or the height of a grid.
pub type Dim = u8;

/// A number of cells.
pub type Count = u16;

/// Everything a cell can show.
#[derive(Clone, Copy, Debug, PartialEq, Eq, Structural)]
pub enum CellImage {
    Zero,
    One,
    Two,
    Three,
    Four,
    Five,
    Six,
    Seven,
    Eight,
    /// A mine that was uncovered when the game was lost.
    Mine,
    /// A flag that stood on a cell without a mine, uncovered when the game was lost.
    WronglyFlagged,
    /// The mine that was clicked.
    SelectedMine,
    Hidden,
    Flagged,
    QuestionMarked,
}

impl CellImage {
    /// The image that shows `n` mines around a cell, for `n` from 0 to 8.
    pub open spec fn numeral(n: int) -> CellImage {
        if n == 0 {
            CellImage::Zero
        } else if n == 1 {
            CellImage::One
        } else if n == 2 {
            CellImage::Two
        } else if n == 3 {
            CellImage::Three
        } else if n == 4 {
            CellImage::Four
        } else if n == 5 {
            CellImage::Five
        } else if n == 6 {
            CellImage::Six
        } else if n == 7 {
            CellImage::Seven
        } else {
            CellImage::Eight
        }
    }

    /// Whether the image is one of the numbers `Zero` to `Eight`.
    pub open spec fn is_numeral(self) -> bool {
        self is Zero || self is One || self is Two || self is Three || self is Four
            || self is Five || self is Six || self is Seven || self is Eight
    }

    /// Whether the image belongs to a cell that has been uncovered: every image
    /// but `Hidden`, `Flagged` and `QuestionMarked`.
    pub open spec fn is_shown(self) -> bool {
        !(self is Hidden || self is Flagged || self is QuestionMarked)
    }

    /// The image for a number of mines.
    pub fn from_number(num: u8) -> (image: CellImage)
        requires
            num <= 8,
        ensures
            image == CellImage::numeral(num as int),
    {
        match num {
            0 => CellImage::Zero,
            1 => CellImage::One,
            2 => CellImage::Two,
            3 => CellImage::Three,
            4 => CellImage::Four,
            5 => CellImage::Five,
            6 => CellImage::Six,
            7 => CellImage::Seven,
            _ => CellImage::Eight,
        }
    }

    /// Whether the image belongs to a cell that has been uncovered.
    pub fn shown(&self) -> (shown: bool)
        ensures
            shown == self.is_shown(),
    {
        match self {
            CellImage::Hidden => false,
            CellImage::Flagged => false,
            CellImage::QuestionMarked => false,
            _ => true,
        }
    }
}

/// The phase of a game.
#[derive(Clone, Copy, Debug, PartialEq, Eq, Structural)]
pub enum GameState {
    /// No mine has been placed yet. The first left click places them and is safe.
    BeforeGame,
    /// The game is under way.
    DuringGame,
    /// The game is won or lost; clicks change nothing until it is reset.
    AfterGame,
}

} // verus!
