//! The store of the cells.

use vstd::prelude::*;
use crate::cell::{CellImage, Dim, Pos};

verus! {

/// One cell: what it shows, and whether it holds a mine.
#[derive(Clone, Copy, Debug)]
pub struct Cell {
    pub image: CellImage,
    pub mine: bool,
}

/// The cells of a game, row by row. All rows have the same length, and neither
/// the number of rows nor their length exceeds 255.
#[derive(Debug)]
pub struct GameGrid {
    data: Vec<Vec<Cell>>,
}

impl GameGrid {
    /// The number of rows.
    pub closed spec fn spec_height(&self) -> Dim {
        self.data@.len() as u8
    }

    /// The length of the rows; 0 where there is no row.
    pub closed spec fn spec_width(&self) -> Dim {
        if self.data@.len() == 0 {
            0
        } else {
            self.data@[0]@.len() as u8
        }
    }

    /// The cell at `pos`.
    pub closed spec fn cell(&self, pos: Pos) -> Cell {
        self.data@[pos.0 as int]@[pos.1 as int]
    }

    /// The grid is a rectangle of at most 255 by 255 cells.
    pub closed spec fn wf(&self) -> bool {
        &&& self.data@.len() <= 255
        &&& self.data@.len() > 0 ==> self.data@[0]@.len() <= 255
        &&& forall|r: int|
            0 <= r < self.data@.len() ==> (#[trigger] self.data@[r])@.len() == self.data@[0]@.len()
    }

    /// Whether `pos` lies in the grid.
    pub open spec fn holds(&self, pos: Pos) -> bool {
        pos.0 < self.spec_height() && pos.1 < self.spec_width()
    }

    /// Whether every cell is hidden and without a mine.
    pub open spec fn blank(&self) -> bool {
        forall|pos: Pos|
            self.holds(pos) ==> #[trigger] self.cell(pos) == (Cell {
                image: CellImage::Hidden,
                mine: false,
            })
    }

    /// A grid without cells.
    pub fn new() -> (grid: GameGrid)
        ensures
            grid.wf(),
            grid.spec_height() == 0,
            grid.spec_width() == 0,
    {
        GameGrid { data: Vec::new() }
    }

    /// Gives the grid `height` rows of `width` cells and makes every cell hidden
    /// and without a mine, whatever the grid held before.
    pub fn resize(&mut self, width: Dim, height: Dim)
        ensures
            final(self).wf(),
            final(self).spec_height() == height,
            final(self).spec_width() == if height == 0 {
                0
            } else {
                width
            },
            final(self).blank(),
    {
        let cell = Cell { image: CellImage::Hidden, mine: false };
        let mut data: Vec<Vec<Cell>> = Vec::new();
        let mut r: u8 = 0;
        while r < height
            invariant
                r <= height,
                data@.len() == r,
                cell == (Cell { image: CellImage::Hidden, mine: false }),
                forall|i: int| 0 <= i < r ==> (#[trigger] data@[i])@.len() == width,
                forall|i: int, j: int|
                    0 <= i < r && 0 <= j < width ==> (#[trigger] data@[i]@[j]) == cell,
            decreases height - r,
        {
            let mut row: Vec<Cell> = Vec::new();
            let mut c: u8 = 0;
            while c < width
                invariant
                    c <= width,
                    row@.len() == c,
                    forall|j: int| 0 <= j < c ==> (#[trigger] row@[j]) == cell,
                decreases width - c,
            {
                row.push(cell);
                c += 1;
            }
            data.push(row);
            r += 1;
        }
        self.data = data;
    }

    /// The length of the rows; 0 where there is no row.
    #[verifier::when_used_as_spec(spec_width)]
    pub fn width(&self) -> (width: Dim)
        requires
            self.wf(),
        ensures
            width == self.spec_width(),
    {
        if self.height() == 0 {
            0
        } else {
            self.data[0].len() as u8
        }
    }

    /// The number of rows.
    #[verifier::when_used_as_spec(spec_height)]
    pub fn height(&self) -> (height: Dim)
        requires
            self.wf(),
        ensures
            height == self.spec_height(),
    {
        self.data.len() as u8
    }

    /// The cell at `pos`.
    pub fn get(&self, pos: Pos) -> (cell: &Cell)
        requires
            self.wf(),
            self.holds(pos),
        ensures
            *cell == self.cell(pos),
    {
        &self.data[pos.0 as usize][pos.1 as usize]
    }

    /// The cell at `pos`, to be changed. No other cell changes with it.
    pub fn get_mut(&mut self, pos: Pos) -> (cell: &mut Cell)
        requires
            old(self).wf(),
            old(self).holds(pos),
        ensures
            *cell == old(self).cell(pos),
            final(self).wf(),
            final(self).spec_height() == old(self).spec_height(),
            final(self).spec_width() == old(self).spec_width(),
            final(self).cell(pos) == *final(cell),
            forall|other: Pos|
                old(self).holds(other) && other != pos ==> #[trigger] final(self).cell(other)
                    == old(self).cell(other),
    {
        &mut self.data[pos.0 as usize][pos.1 as usize]
    }
}

} // verus!
