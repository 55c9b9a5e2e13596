//! The cells around a cell.

use vstd::prelude::*;
use crate::cell::{CellImage, Col, Pos, Row};
use crate::field::{block, block_cols, block_rows, block_seq, lemma_block_seq, neighbors_seq};
use crate::game::Game;

verus! {

impl Game {
    /// The positions of the square of three by three around `pos` that lie in the
    /// grid, row by row; `pos` is among them.
    pub fn get_3x3(&self, pos: Pos) -> (cells: Vec<Pos>)
        requires
            self@.holds(pos),
        ensures
            cells@ == block_seq(pos, self@.width, self@.height),
    {
        let mut result: Vec<Pos> = Vec::with_capacity(8);
        let row = pos.0 as i16;
        let col = pos.1 as i16;
        let height = self.height as i16;
        let width = self.width as i16;
        let mut row_difference: i16 = -1;
        while row_difference <= 1
            invariant
                -1 <= row_difference <= 2,
                row == pos.0,
                col == pos.1,
                height == self.height,
                width == self.width,
                result@ == block_rows(pos, self@.width, self@.height, row_difference + 1),
            decreases 2 - row_difference,
        {
            let neighbor_row = row + row_difference;
            let ghost above = result@;
            proof {
                reveal_with_fuel(block_cols, 4);
            }
            if neighbor_row >= 0 && neighbor_row < height {
                let mut col_difference: i16 = -1;
                while col_difference <= 1
                    invariant
                        -1 <= col_difference <= 2,
                        -1 <= row_difference <= 1,
                        row == pos.0,
                        col == pos.1,
                        width == self.width,
                        neighbor_row == row + row_difference,
                        0 <= neighbor_row < self.height,
                        result@ == above + block_cols(
                            pos,
                            self@.width,
                            self@.height,
                            row_difference as int,
                            col_difference + 1,
                        ),
                    decreases 2 - col_difference,
                {
                    let neighbor_col = col + col_difference;
                    if neighbor_col >= 0 && neighbor_col < width {
                        result.push((neighbor_row as Row, neighbor_col as Col));
                    }
                    col_difference += 1;
                }
            } else {
                assert(block_cols(pos, self@.width, self@.height, row_difference as int, 3)
                    =~= Seq::empty());
            }
            row_difference += 1;
        }
        result
    }

    /// The positions next to `pos` that lie in the grid.
    pub fn get_neighbors(&self, pos: Pos) -> (cells: Vec<Pos>)
        requires
            self@.holds(pos),
        ensures
            cells@ == neighbors_seq(pos, self@.width, self@.height),
    {
        let mut result = self.get_3x3(pos);
        let ghost square = result@;
        proof {
            lemma_block_seq(pos, self@.width, self@.height);
        }
        let mut index: usize = 0;
        while index < result.len()
            invariant_except_break
                result@ == square,
                square.no_duplicates(),
                square.contains(pos),
                index <= square.len(),
                forall|i: int| 0 <= i < index ==> square[i] != pos,
            ensures
                result@ == square.update(square.index_of(pos), square.last()).drop_last(),
            decreases square.len() - index,
        {
            if result[index].0 == pos.0 && result[index].1 == pos.1 {
                result.swap_remove(index);
                break ;
            }
            index += 1;
        }
        result
    }

    /// The positions next to `pos` whose cells show `Hidden`.
    pub fn get_hidden_neighbors(&self, pos: Pos) -> (cells: Vec<Pos>)
        requires
            self.laid_out(),
            self@.holds(pos),
        ensures
            cells@ == self@.hidden_around(pos),
    {
        let around = self.get_neighbors(pos);
        let mut result: Vec<Pos> = Vec::new();
        proof {
            crate::field::lemma_neighbors_seq(pos, self@.width, self@.height);
            assert forall|i: int| 0 <= i < around@.len() implies self@.holds(
                #[trigger] around@[i],
            ) by {
                assert(around@.contains(around@[i]));
            }
            assert(around@.take(0) =~= Seq::empty());
            reveal(Seq::filter);
        }
        let mut index: usize = 0;
        while index < around.len()
            invariant
                self.laid_out(),
                index <= around@.len(),
                forall|i: int| 0 <= i < around@.len() ==> self@.holds(#[trigger] around@[i]),
                result@ == around@.take(index as int).filter(self@.shows_hidden()),
            decreases around@.len() - index,
        {
            let cell = around[index];
            proof {
                assert(around@.take(index + 1) =~= around@.take(index as int).push(cell));
                around@.take(index as int).lemma_filter_push(cell, self@.shows_hidden());
            }
            if self.grid.get(cell).image == CellImage::Hidden {
                result.push(cell);
            }
            index += 1;
        }
        assert(around@.take(index as int) =~= around@);
        result
    }

    /// The number of mines in the square around `pos`. The cell at `pos` is
    /// counted too, so the number is that of the mines next to `pos` where `pos`
    /// holds none.
    pub fn get_mines_around(&self, pos: Pos) -> (num_mines: u8)
        requires
            self.laid_out(),
            self@.holds(pos),
        ensures
            num_mines == self@.mines_around(pos),
    {
        let square = self.get_3x3(pos);
        let mut num_mines: u8 = 0;
        proof {
            lemma_block_seq(pos, self@.width, self@.height);
            assert forall|i: int| 0 <= i < square@.len() implies block(
                pos,
                self@.width,
                self@.height,
            ).contains(#[trigger] square@[i]) by {
                assert(square@.contains(square@[i]));
            }
            assert(self@.mines.intersect(square@.take(0).to_set()) =~= Set::empty());
        }
        let mut index: usize = 0;
        while index < square.len()
            invariant
                self.laid_out(),
                square@ == block_seq(pos, self@.width, self@.height),
                square@.no_duplicates(),
                square@.len() <= 9,
                forall|i: int|
                    0 <= i < square@.len() ==> block(pos, self@.width, self@.height).contains(
                        #[trigger] square@[i],
                    ),
                index <= square@.len(),
                num_mines <= index,
                self@.mines.intersect(square@.take(index as int).to_set()).finite(),
                num_mines == self@.mines.intersect(square@.take(index as int).to_set()).len(),
            decreases square@.len() - index,
        {
            let cell = square[index];
            proof {
                let seen = square@.take(index as int);
                assert(square@.take(index + 1) =~= seen.push(cell));
                seen.lemma_push_to_set_commute(cell);
                assert(!seen.to_set().contains(cell));
                assert(square@.contains(cell));
                if self@.mines.contains(cell) {
                    assert(self@.mines.intersect(seen.to_set().insert(cell))
                        =~= self@.mines.intersect(seen.to_set()).insert(cell));
                } else {
                    assert(self@.mines.intersect(seen.to_set().insert(cell))
                        =~= self@.mines.intersect(seen.to_set()));
                }
            }
            if self.grid.get(cell).mine {
                num_mines += 1;
            }
            index += 1;
        }
        assert(square@.take(index as int) =~= square@);
        num_mines
    }
}

} // verus!
