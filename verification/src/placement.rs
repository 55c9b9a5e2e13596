//! Laying the mines on the first click.

use vstd::prelude::*;
use vstd::set_lib::{lemma_len_subset, lemma_set_difference_len, lemma_subset_equality};
use crate::board::Board;
use crate::cell::{CellImage, Count, GameState, Pos};
use crate::feed::passed;
use crate::field::{block, block_seq, field, in_field, lemma_block_seq, lemma_field_size, touches};
use crate::game::Game;
use crate::grid::Cell;
use crate::laws::lemma_started_wf;
use crate::random::RandomSource;

verus! {

/// The positions of a grid outside the square around `click` that come before
/// column `col` of row `row`.
pub open spec fn outside_passed(click: Pos, width: nat, height: nat, row: int, col: int) -> Set<
    Pos,
> {
    Set::new(|p: Pos| in_field(p, width, height) && !touches(click, p) && passed(p, row, col))
}

/// Taking the element at `at` out of a sequence without duplicates by putting
/// the last in its place leaves the other elements, without duplicates.
pub proof fn lemma_swap_remove(cells: Seq<Pos>, at: int)
    requires
        cells.no_duplicates(),
        0 <= at < cells.len(),
    ensures
        cells.update(at, cells.last()).drop_last().no_duplicates(),
        forall|p: Pos|
            cells.update(at, cells.last()).drop_last().contains(p) <==> cells.contains(p) && p
                != cells[at],
{
    let rest = cells.update(at, cells.last()).drop_last();
    assert forall|p: Pos| rest.contains(p) <==> cells.contains(p) && p != cells[at] by {
        if rest.contains(p) {
            let i = choose|i: int| 0 <= i < rest.len() && rest[i] == p;
            if i == at {
                assert(cells[cells.len() - 1] == p);
            } else {
                assert(cells[i] == p);
            }
        }
        if cells.contains(p) && p != cells[at] {
            let i = choose|i: int| 0 <= i < cells.len() && cells[i] == p;
            if i == cells.len() - 1 {
                assert(rest[at] == p);
            } else {
                assert(rest[i] == p);
            }
        }
    }
}

/// Whether `other` lies in the square around `pos`.
pub fn is_near(pos: Pos, other: Pos) -> (near: bool)
    ensures
        near == touches(pos, other),
{
    let row_apart = if pos.0 > other.0 {
        pos.0 - other.0
    } else {
        other.0 - pos.0
    };
    let col_apart = if pos.1 > other.1 {
        pos.1 - other.1
    } else {
        other.1 - pos.1
    };
    row_apart <= 1 && col_apart <= 1
}

/// The cells outside the square around `click` that come before `p` when the
/// grid is read row by row.
pub open spec fn outside_before(click: Pos, width: nat, height: nat, p: Pos) -> Set<Pos> {
    outside_passed(click, width, height, p.0 as int, p.1 as int)
}

/// Which of the cells listed in `safe` is given up for the number `draw`: the
/// one at that place in the list, or the last of the list where the one at
/// that place is the cell that was clicked.
pub open spec fn pick(safe: Seq<Pos>, click: Pos, draw: int) -> int {
    if safe[draw] == click {
        safe.len() - 1
    } else {
        draw
    }
}

/// The cells of `safe` that are given up for the numbers `draws`, one for each
/// number in turn. After each, the last cell of the list takes the place of the
/// one given up.
pub open spec fn given_up(safe: Seq<Pos>, click: Pos, draws: Seq<Count>) -> Set<Pos>
    decreases draws.len(),
{
    if draws.len() == 0 {
        Set::empty()
    } else {
        let at = pick(safe, click, draws[0] as int);
        given_up(safe.update(at, safe.last()).drop_last(), click, draws.skip(1)).insert(safe[at])
    }
}

impl Board {
    /// The number of cells outside the square around `click`.
    pub open spec fn room(self, click: Pos) -> int {
        self.width * self.height - block_seq(click, self.width, self.height).len()
    }

    /// The number of mines that go into the square around `click` because the
    /// rest of the board has no room for them.
    pub open spec fn to_give_up(self, click: Pos) -> int {
        if self.total_mines > self.room(click) {
            self.total_mines - self.room(click)
        } else {
            0
        }
    }

    /// Whether `draws` are numbers enough to lay the mines for a first click at
    /// `click`: one for each cell to give up, each below the number of cells
    /// that may still be given up, and then one for each cell outside the
    /// square around the click, each below the number of those cells that are
    /// still to come.
    pub open spec fn draws_fit(self, click: Pos, draws: Seq<Count>) -> bool {
        &&& draws.len() >= self.to_give_up(click) + self.room(click)
        &&& forall|j: int|
            0 <= j < self.to_give_up(click) ==> (#[trigger] draws[j]) < block_seq(
                click,
                self.width,
                self.height,
            ).len() - 1 - j
        &&& forall|i: int|
            0 <= i < self.room(click) ==> (#[trigger] draws[self.to_give_up(click) + i])
                < self.room(click) - i
    }

    /// Whether the cell at `p`, outside the square around `click`, holds a mine
    /// in `layout` as its number of `draws` says: it does if and only if that
    /// number is below the number of mines still to lay when its turn comes.
    /// The cells take the numbers in turn, row by row, after the numbers for
    /// the cells given up.
    pub open spec fn decided(self, click: Pos, draws: Seq<Count>, layout: Set<Pos>, p: Pos) -> bool {
        let earlier = outside_before(click, self.width, self.height, p);
        layout.contains(p) <==> draws[self.to_give_up(click) + earlier.len()] < self.total_mines
            - self.to_give_up(click) - layout.intersect(earlier).len()
    }

    /// Whether `layout` is where the numbers `draws` lay the mines for a first
    /// click at `click`: in the square around the click the cells given up for
    /// the first numbers, and outside it the cells that their numbers decide.
    pub open spec fn laid_by(self, click: Pos, draws: Seq<Count>, layout: Set<Pos>) -> bool {
        &&& layout.intersect(block(click, self.width, self.height)) == given_up(
            block_seq(click, self.width, self.height),
            click,
            draws.take(self.to_give_up(click)),
        )
        &&& forall|p: Pos|
            self.holds(p) && !touches(click, p) ==> #[trigger] self.decided(click, draws, layout, p)
    }
}

/// Whether a cell gets a mine: it does if the number drawn for it is below the
/// number of mines that are still to lay.
pub fn takes_mine(draw: Count, mines_remaining: Count) -> (mine: bool)
    ensures
        mine == (draw < mines_remaining),
{
    draw < mines_remaining
}

/// The place in `safe_cells` of the cell that is given up for the number
/// `draw`: that place, or the last place where the cell there is `pos`.
pub fn pick_to_give_up(safe_cells: &Vec<Pos>, pos: Pos, draw: usize) -> (index: usize)
    requires
        draw < safe_cells@.len(),
    ensures
        index == pick(safe_cells@, pos, draw as int),
{
    let drawn = safe_cells[draw];
    if drawn.0 == pos.0 && drawn.1 == pos.1 {
        safe_cells.len() - 1
    } else {
        draw
    }
}

impl Game {
    /// Whether this game differs from `other` in its cells alone.
    pub open(crate) spec fn same_frame(&self, other: &Game) -> bool {
        &&& self.laid_out()
        &&& self.game_state == other.game_state
        &&& self.width == other.width
        &&& self.height == other.height
        &&& self.total_mines == other.total_mines
        &&& self.flags == other.flags
        &&& self.hidden == other.hidden
    }

    /// The cells outside the square around `click` that hold a mine.
    pub open(crate) spec fn mines_outside(&self, click: Pos) -> Set<Pos> {
        Set::new(|p: Pos| self@.holds(p) && !touches(click, p) && self.grid.cell(p).mine)
    }

    /// Makes each of `cells` show `Hidden`.
    pub(crate) fn cover(&mut self, cells: &Vec<Pos>)
        requires
            old(self).laid_out(),
            forall|i: int| 0 <= i < cells@.len() ==> old(self)@.holds(#[trigger] cells@[i]),
        ensures
            final(self).same_frame(old(self)),
            forall|p: Pos|
                final(self)@.holds(p) ==> #[trigger] final(self).grid.cell(p) == if cells@.contains(
                    p,
                ) {
                    Cell { image: CellImage::Hidden, mine: old(self).grid.cell(p).mine }
                } else {
                    old(self).grid.cell(p)
                },
    {
        let mut index: usize = 0;
        while index < cells.len()
            invariant
                index <= cells@.len(),
                self.same_frame(old(self)),
                forall|i: int| 0 <= i < cells@.len() ==> self@.holds(#[trigger] cells@[i]),
                forall|p: Pos|
                    self@.holds(p) ==> #[trigger] self.grid.cell(p) == if cells@.take(
                        index as int,
                    ).contains(p) {
                        Cell { image: CellImage::Hidden, mine: old(self).grid.cell(p).mine }
                    } else {
                        old(self).grid.cell(p)
                    },
            decreases cells@.len() - index,
        {
            let pos = cells[index];
            proof {
                assert(cells@.take(index + 1) =~= cells@.take(index as int).push(pos));
                assert forall|p: Pos|
                    cells@.take(index + 1).contains(p) <==> cells@.take(index as int).contains(p)
                        || p == pos by {
                    if cells@.take(index as int).contains(p) {
                        let i = choose|i: int|
                            0 <= i < index && cells@.take(index as int)[i] == p;
                        assert(cells@.take(index + 1)[i] == p);
                    }
                    if p == pos {
                        assert(cells@.take(index + 1)[index as int] == p);
                    }
                }
            }
            self.grid.get_mut(pos).image = CellImage::Hidden;
            index += 1;
        }
        assert(cells@.take(index as int) =~= cells@);
    }

    /// Takes the mine off each of `cells`.
    pub(crate) fn clear_mines(&mut self, cells: &Vec<Pos>)
        requires
            old(self).laid_out(),
            forall|i: int| 0 <= i < cells@.len() ==> old(self)@.holds(#[trigger] cells@[i]),
        ensures
            final(self).same_frame(old(self)),
            forall|p: Pos|
                final(self)@.holds(p) ==> #[trigger] final(self).grid.cell(p) == if cells@.contains(
                    p,
                ) {
                    Cell { image: old(self).grid.cell(p).image, mine: false }
                } else {
                    old(self).grid.cell(p)
                },
    {
        let mut index: usize = 0;
        while index < cells.len()
            invariant
                index <= cells@.len(),
                self.same_frame(old(self)),
                forall|i: int| 0 <= i < cells@.len() ==> self@.holds(#[trigger] cells@[i]),
                forall|p: Pos|
                    self@.holds(p) ==> #[trigger] self.grid.cell(p) == if cells@.take(
                        index as int,
                    ).contains(p) {
                        Cell { image: old(self).grid.cell(p).image, mine: false }
                    } else {
                        old(self).grid.cell(p)
                    },
            decreases cells@.len() - index,
        {
            let pos = cells[index];
            proof {
                assert(cells@.take(index + 1) =~= cells@.take(index as int).push(pos));
                assert forall|p: Pos|
                    cells@.take(index + 1).contains(p) <==> cells@.take(index as int).contains(p)
                        || p == pos by {
                    if cells@.take(index as int).contains(p) {
                        let i = choose|i: int|
                            0 <= i < index && cells@.take(index as int)[i] == p;
                        assert(cells@.take(index + 1)[i] == p);
                    }
                    if p == pos {
                        assert(cells@.take(index + 1)[index as int] == p);
                    }
                }
            }
            self.grid.get_mut(pos).mine = false;
            index += 1;
        }
        assert(cells@.take(index as int) =~= cells@);
    }

    /// Gives up `count` cells of `safe_cells` to mines, one for each of the first
    /// `count` numbers of `draws`, and takes them out of `safe_cells`. The cell at
    /// `pos` is never given up.
    pub(crate) fn sacrifice(
        &mut self,
        pos: Pos,
        safe_cells: &mut Vec<Pos>,
        count: Count,
        draws: &Vec<Count>,
    )
        requires
            old(self).laid_out(),
            old(safe_cells)@.no_duplicates(),
            old(safe_cells)@.contains(pos),
            old(safe_cells)@.len() <= 9,
            forall|i: int|
                0 <= i < old(safe_cells)@.len() ==> old(self)@.holds(#[trigger] old(safe_cells)@[i]),
            count < old(safe_cells)@.len(),
            draws@.len() >= count,
            forall|j: int|
                0 <= j < count ==> (#[trigger] draws@[j]) < old(safe_cells)@.len() - 1 - j,
        ensures
            final(self).same_frame(old(self)),
            final(safe_cells)@.no_duplicates(),
            final(safe_cells)@.contains(pos),
            final(safe_cells)@.len() == old(safe_cells)@.len() - count,
            forall|p: Pos| final(safe_cells)@.contains(p) ==> old(safe_cells)@.contains(p),
            forall|p: Pos|
                old(safe_cells)@.contains(p) && !final(safe_cells)@.contains(p) <==> given_up(
                    old(safe_cells)@,
                    pos,
                    draws@.take(count as int),
                ).contains(p),
            forall|p: Pos|
                final(self)@.holds(p) ==> #[trigger] final(self).grid.cell(p) == if old(
                    safe_cells,
                )@.contains(p) && !final(safe_cells)@.contains(p) {
                    Cell { image: old(self).grid.cell(p).image, mine: true }
                } else {
                    old(self).grid.cell(p)
                },
    {
        let ghost numbers = draws@.take(count as int);
        let ghost gone = Set::<Pos>::empty();
        proof {
            assert(numbers.skip(0) =~= numbers);
            assert(gone + given_up(safe_cells@, pos, numbers.skip(0)) =~= given_up(
                old(safe_cells)@,
                pos,
                numbers,
            ));
        }
        let mut given: Count = 0;
        while given < count
            invariant
                given <= count,
                count < old(safe_cells)@.len(),
                old(safe_cells)@.len() <= 9,
                draws@.len() >= count,
                numbers == draws@.take(count as int),
                forall|j: int|
                    0 <= j < count ==> (#[trigger] draws@[j]) < old(safe_cells)@.len() - 1 - j,
                self.same_frame(old(self)),
                safe_cells@.no_duplicates(),
                safe_cells@.contains(pos),
                safe_cells@.len() == old(safe_cells)@.len() - given,
                forall|p: Pos| safe_cells@.contains(p) ==> old(safe_cells)@.contains(p),
                forall|p: Pos|
                    gone.contains(p) <==> old(safe_cells)@.contains(p) && !safe_cells@.contains(p),
                given_up(old(safe_cells)@, pos, numbers) == gone + given_up(
                    safe_cells@,
                    pos,
                    numbers.skip(given as int),
                ),
                forall|i: int|
                    0 <= i < old(safe_cells)@.len() ==> self@.holds(#[trigger] old(safe_cells)@[i]),
                forall|p: Pos|
                    self@.holds(p) ==> #[trigger] self.grid.cell(p) == if old(
                        safe_cells,
                    )@.contains(p) && !safe_cells@.contains(p) {
                        Cell { image: old(self).grid.cell(p).image, mine: true }
                    } else {
                        old(self).grid.cell(p)
                    },
            decreases count - given,
        {
            let ghost before = safe_cells@;
            let index = draws[given as usize] as usize;
            let index_to_be_mine = pick_to_give_up(safe_cells, pos, index);
            proof {
                lemma_swap_remove(before, index_to_be_mine as int);
                assert(before.contains(before[index_to_be_mine as int]));
                let rest = numbers.skip(given as int);
                assert(rest.len() > 0 && rest[0] == draws@[given as int]);
                assert(rest.skip(1) =~= numbers.skip(given + 1));
                let after = before.update(index_to_be_mine as int, before.last()).drop_last();
                assert(given_up(before, pos, rest) == given_up(
                    after,
                    pos,
                    numbers.skip(given + 1),
                ).insert(before[index_to_be_mine as int]));
                assert(gone + given_up(before, pos, rest) =~= gone.insert(
                    before[index_to_be_mine as int],
                ) + given_up(after, pos, numbers.skip(given + 1)));
                gone = gone.insert(before[index_to_be_mine as int]);
            }
            let cell = safe_cells.swap_remove(index_to_be_mine);
            self.grid.get_mut(cell).mine = true;
            given += 1;
        }
        proof {
            assert(numbers.skip(count as int).len() == 0);
            assert(gone + Set::<Pos>::empty() =~= gone);
        }
    }

    /// Whether the cell at `p`, outside the square around `click`, holds a mine
    /// as its number of `draws` says, where the numbers for these cells begin at
    /// `first`, `to_lay` mines are to lay in all, and `laid` holds the mines laid.
    pub open(crate) spec fn fill_decided(
        &self,
        click: Pos,
        draws: Seq<Count>,
        first: int,
        to_lay: int,
        laid: Set<Pos>,
        p: Pos,
    ) -> bool {
        let earlier = outside_before(click, self@.width, self@.height, p);
        self.grid.cell(p).mine <==> draws[first + earlier.len()] < to_lay - laid.intersect(
            earlier,
        ).len()
    }

    /// Lays `mines_remaining` mines on the cells outside the square around
    /// `pos`, of which there are `cells_remaining`, and makes each of those cells
    /// show `Hidden`. Each cell in turn, row by row, takes the next number of
    /// `draws` from `first` on and gets a mine if that number is below the number
    /// of mines still to lay.
    pub(crate) fn fill_with_mines(
        &mut self,
        pos: Pos,
        cells_remaining: Count,
        mines_remaining: Count,
        draws: &Vec<Count>,
        first: usize,
    )
        requires
            old(self).laid_out(),
            old(self)@.holds(pos),
            mines_remaining <= cells_remaining,
            cells_remaining == field(old(self)@.width, old(self)@.height).difference(
                block(pos, old(self)@.width, old(self)@.height),
            ).len(),
            first <= 9,
            draws@.len() >= first + cells_remaining,
            forall|i: int|
                0 <= i < cells_remaining ==> (#[trigger] draws@[first + i]) < cells_remaining - i,
        ensures
            final(self).same_frame(old(self)),
            forall|p: Pos|
                final(self)@.holds(p) && touches(pos, p) ==> #[trigger] final(self).grid.cell(p)
                    == old(self).grid.cell(p),
            forall|p: Pos|
                final(self)@.holds(p) && !touches(pos, p) ==> (#[trigger] final(self).grid.cell(
                    p,
                )).image == CellImage::Hidden,
            final(self).mines_outside(pos).finite(),
            final(self).mines_outside(pos).len() == mines_remaining,
            forall|p: Pos|
                final(self)@.holds(p) && !touches(pos, p) ==> #[trigger] final(self).fill_decided(
                    pos,
                    draws@,
                    first as int,
                    mines_remaining as int,
                    final(self).mines_outside(pos),
                    p,
                ),
    {
        let ghost width = self@.width;
        let ghost height = self@.height;
        let ghost room = field(width, height).difference(block(pos, width, height));
        let cells_in_all = cells_remaining;
        let mut cells_remaining = cells_remaining;
        let mut mines_remaining = mines_remaining;
        let ghost to_lay = mines_remaining;
        let ghost laid = Set::<Pos>::empty();
        proof {
            lemma_field_size(width, height);
            assert(outside_passed(pos, width, height, 0, 0) =~= Set::empty());
        }
        let mut row: u8 = 0;
        while row < self.height
            invariant
                row <= self.height,
                width == self@.width,
                height == self@.height,
                self@.holds(pos),
                room == field(width, height).difference(block(pos, width, height)),
                room.finite(),
                room.len() == cells_in_all,
                first <= 9,
                draws@.len() >= first + cells_in_all,
                forall|i: int|
                    0 <= i < cells_in_all ==> (#[trigger] draws@[first + i]) < cells_in_all - i,
                self.same_frame(old(self)),
                mines_remaining <= cells_remaining,
                outside_passed(pos, width, height, row as int, 0).finite(),
                cells_remaining + outside_passed(pos, width, height, row as int, 0).len()
                    == room.len(),
                laid.finite(),
                mines_remaining + laid.len() == to_lay,
                forall|p: Pos|
                    laid.contains(p) <==> outside_passed(pos, width, height, row as int, 0).contains(
                        p,
                    ) && self.grid.cell(p).mine,
                forall|p: Pos|
                    outside_passed(pos, width, height, row as int, 0).contains(p)
                        ==> #[trigger] self.fill_decided(
                        pos,
                        draws@,
                        first as int,
                        to_lay as int,
                        laid,
                        p,
                    ),
                forall|p: Pos|
                    self@.holds(p) ==> #[trigger] self.grid.cell(p) == if passed(p, row as int, 0)
                        && !touches(pos, p) {
                        Cell { image: CellImage::Hidden, mine: self.grid.cell(p).mine }
                    } else {
                        old(self).grid.cell(p)
                    },
            decreases self.height - row,
        {
            let mut col: u8 = 0;
            while col < self.width
                invariant
                    row < self.height,
                    col <= self.width,
                    width == self@.width,
                    height == self@.height,
                    self@.holds(pos),
                    room == field(width, height).difference(block(pos, width, height)),
                    room.finite(),
                    room.len() == cells_in_all,
                    first <= 9,
                    draws@.len() >= first + cells_in_all,
                    forall|i: int|
                        0 <= i < cells_in_all ==> (#[trigger] draws@[first + i]) < cells_in_all
                            - i,
                    self.same_frame(old(self)),
                    mines_remaining <= cells_remaining,
                    outside_passed(pos, width, height, row as int, col as int).finite(),
                    cells_remaining + outside_passed(
                        pos,
                        width,
                        height,
                        row as int,
                        col as int,
                    ).len() == room.len(),
                    laid.finite(),
                    mines_remaining + laid.len() == to_lay,
                    forall|p: Pos|
                        laid.contains(p) <==> outside_passed(
                            pos,
                            width,
                            height,
                            row as int,
                            col as int,
                        ).contains(p) && self.grid.cell(p).mine,
                    forall|p: Pos|
                        outside_passed(pos, width, height, row as int, col as int).contains(p)
                            ==> #[trigger] self.fill_decided(
                            pos,
                            draws@,
                            first as int,
                            to_lay as int,
                            laid,
                            p,
                        ),
                    forall|p: Pos|
                        self@.holds(p) ==> #[trigger] self.grid.cell(p) == if passed(
                            p,
                            row as int,
                            col as int,
                        ) && !touches(pos, p) {
                            Cell { image: CellImage::Hidden, mine: self.grid.cell(p).mine }
                        } else {
                            old(self).grid.cell(p)
                        },
                decreases self.width - col,
            {
                let here = (row, col);
                let ghost seen = outside_passed(pos, width, height, row as int, col as int);
                let ghost before = *self;
                let ghost laid_before = laid;
                if !is_near(pos, here) {
                    proof {
                        assert(outside_passed(pos, width, height, row as int, col + 1)
                            =~= seen.insert(here));
                        assert(seen.insert(here).subset_of(room));
                        lemma_len_subset(seen.insert(here), room);
                        assert(outside_before(pos, width, height, here) =~= seen);
                        assert(laid.intersect(seen) =~= laid);
                    }
                    let turn = first + (cells_in_all - cells_remaining) as usize;
                    let is_mine = takes_mine(draws[turn], mines_remaining);
                    let cell = self.grid.get_mut(here);
                    cell.image = CellImage::Hidden;
                    cell.mine = is_mine;
                    cells_remaining -= 1;
                    if is_mine {
                        mines_remaining -= 1;
                        proof {
                            laid = laid.insert(here);
                        }
                    }
                    proof {
                        assert forall|p: Pos|
                            seen.insert(here).contains(p) implies #[trigger] self.fill_decided(
                            pos,
                            draws@,
                            first as int,
                            to_lay as int,
                            laid,
                            p,
                        ) by {
                            let earlier = outside_before(pos, width, height, p);
                            assert(!earlier.contains(here));
                            assert(laid.intersect(earlier) =~= laid_before.intersect(earlier));
                            if p != here {
                                assert(before.fill_decided(
                                    pos,
                                    draws@,
                                    first as int,
                                    to_lay as int,
                                    laid_before,
                                    p,
                                ));
                                assert(self.grid.cell(p) == before.grid.cell(p));
                            }
                        }
                    }
                } else {
                    assert(outside_passed(pos, width, height, row as int, col + 1) =~= seen);
                }
                col += 1;
            }
            assert(outside_passed(pos, width, height, row + 1, 0) =~= outside_passed(
                pos,
                width,
                height,
                row as int,
                col as int,
            ));
            row += 1;
        }
        proof {
            assert(outside_passed(pos, width, height, row as int, 0) =~= room);
            assert(self.mines_outside(pos) =~= laid);
        }
    }

    /// Starts the game on the first click, at `pos`, with the numbers `draws` in
    /// the place of chance: gives the grid its size, covers every cell and lays
    /// the mines. No mine is laid under the click, and none in the square around
    /// it unless the rest of the grid is too small for them all; then the rest of
    /// the grid is filled with mines, and for each of the others one cell of the
    /// square is given up, chosen by the next of the first numbers. The cells
    /// outside the square take the numbers after those in turn, row by row, and
    /// each gets a mine if its number is below the number of mines still to lay.
    pub fn place_mines(&mut self, pos: Pos, draws: &Vec<Count>)
        requires
            old(self).wf(),
            old(self)@.state == GameState::BeforeGame,
            old(self)@.holds(pos),
            old(self)@.draws_fit(pos, draws@),
        ensures
            final(self).wf(),
            final(self)@ == old(self)@.started(final(self)@.mines),
            old(self)@.fair_layout(pos, final(self)@.mines),
            old(self)@.laid_by(pos, draws@, final(self)@.mines),
    {
        let ghost width = self@.width;
        let ghost height = self@.height;
        let ghost square = block(pos, width, height);
        let ghost start = self@;
        proof {
            lemma_block_seq(pos, width, height);
            lemma_field_size(width, height);
            lemma_set_difference_len(field(width, height), square);
            assert(field(width, height).intersect(square) =~= square);
            assert(self.height * self.width <= 65025 && self.height * self.width == width
                * height) by (nonlinear_arith)
                requires
                    self.width <= 255,
                    self.height <= 255,
                    width == self.width,
                    height == self.height,
            ;
        }
        self.game_state = GameState::DuringGame;
        self.hidden = self.height as u16 * self.width as u16;
        self.flags = 0;
        let width_now = self.width;
        let height_now = self.height;
        self.grid.resize(width_now, height_now);
        let mut safe_cells = self.get_3x3(pos);
        proof {
            assert forall|i: int| 0 <= i < safe_cells@.len() implies self@.holds(
                #[trigger] safe_cells@[i],
            ) by {
                assert(safe_cells@.contains(safe_cells@[i]));
            }
        }
        self.cover(&safe_cells);
        let mut cells_remaining = self.hidden - safe_cells.len() as u16;
        let mut mines_remaining = self.total_mines;
        let mut first: usize = 0;
        let ghost given = 0nat;
        proof {
            assert(cells_remaining == start.room(pos));
            assert(draws@.take(0) =~= Seq::<Count>::empty());
        }
        if cells_remaining < mines_remaining {
            let cells_to_make_unsafe = mines_remaining - cells_remaining;
            mines_remaining = cells_remaining;
            first = cells_to_make_unsafe as usize;
            proof {
                given = cells_to_make_unsafe as nat;
            }
            self.sacrifice(pos, &mut safe_cells, cells_to_make_unsafe, draws);
        }
        proof {
            assert(given == start.to_give_up(pos));
            assert forall|i: int| 0 <= i < safe_cells@.len() implies self@.holds(
                #[trigger] safe_cells@[i],
            ) by {
                assert(safe_cells@.contains(safe_cells@[i]));
                assert(block_seq(pos, width, height).contains(safe_cells@[i]));
            }
        }
        self.clear_mines(&safe_cells);
        let ghost kept_safe = safe_cells@;
        let ghost lost_safe = square.difference(kept_safe.to_set());
        proof {
            kept_safe.unique_seq_to_set();
            vstd::seq_lib::seq_to_set_is_finite(kept_safe);
            lemma_set_difference_len(square, kept_safe.to_set());
            assert(square.intersect(kept_safe.to_set()) =~= kept_safe.to_set());
            assert(lost_safe.len() == given);
            assert(lost_safe =~= given_up(
                block_seq(pos, width, height),
                pos,
                draws@.take(given as int),
            ));
        }
        self.fill_with_mines(pos, cells_remaining, mines_remaining, draws, first);
        proof {
            let layout = self@.mines;
            let outside = self.mines_outside(pos);
            assert(layout =~= lost_safe + outside) by {
                assert forall|p: Pos| layout.contains(p) <==> (lost_safe + outside).contains(p) by {
                    if self@.holds(p) && touches(pos, p) {
                        assert(square.contains(p));
                    }
                }
            }
            assert(lost_safe.disjoint(outside));
            vstd::set_lib::lemma_set_disjoint_lens(lost_safe, outside);
            assert(self@ =~= old(self)@.started(layout));
            assert(self@.unopened() =~= field(width, height));
            if old(self)@.total_mines + square.len() <= width * height {
                assert(lost_safe =~= Set::empty());
                assert(layout.disjoint(square));
            } else {
                let room = field(width, height).difference(square);
                assert(outside.subset_of(room));
                lemma_subset_equality(outside, room);
            }
            assert(old(self)@.fair_layout(pos, layout));
            lemma_started_wf(old(self)@, pos, layout);
            assert(layout.intersect(square) =~= lost_safe);
            assert forall|p: Pos| start.holds(p) && !touches(pos, p) implies #[trigger] start.decided(
                pos,
                draws@,
                layout,
                p,
            ) by {
                let earlier = outside_before(pos, width, height, p);
                assert(self.fill_decided(
                    pos,
                    draws@,
                    first as int,
                    mines_remaining as int,
                    outside,
                    p,
                ));
                assert(layout.intersect(earlier) =~= outside.intersect(earlier));
            }
        }
    }

    /// Starts the game on the first click, at `pos`: draws from `rng` the numbers
    /// that decide where the mines go, and lays the mines by them as
    /// [`Game::place_mines`] does.
    pub fn start_game<R: RandomSource>(&mut self, pos: Pos, rng: &mut R)
        requires
            old(self).wf(),
            old(self)@.state == GameState::BeforeGame,
            old(self)@.holds(pos),
        ensures
            final(self).wf(),
            final(self)@ == old(self)@.started(final(self)@.mines),
            old(self)@.fair_layout(pos, final(self)@.mines),
            exists|draws: Seq<Count>|
                old(self)@.draws_fit(pos, draws) && old(self)@.laid_by(
                    pos,
                    draws,
                    final(self)@.mines,
                ),
    {
        let ghost start = self@;
        proof {
            lemma_block_seq(pos, start.width, start.height);
            lemma_field_size(start.width, start.height);
            lemma_len_subset(
                block(pos, start.width, start.height),
                field(start.width, start.height),
            );
            assert(self.height * self.width <= 65025 && self.height * self.width == start.width
                * start.height) by (nonlinear_arith)
                requires
                    self.width <= 255,
                    self.height <= 255,
                    start.width == self.width,
                    start.height == self.height,
            ;
        }
        let safe_cells = self.get_3x3(pos);
        let in_square = safe_cells.len() as Count;
        let room = self.height as Count * self.width as Count - in_square;
        let to_give_up = if room < self.total_mines {
            self.total_mines - room
        } else {
            0
        };
        let mut draws: Vec<Count> = Vec::new();
        let mut given: Count = 0;
        while given < to_give_up
            invariant
                given <= to_give_up,
                to_give_up < in_square,
                draws@.len() == given,
                forall|j: int| 0 <= j < given ==> (#[trigger] draws@[j]) < in_square - 1 - j,
            decreases to_give_up - given,
        {
            let draw = rng.below(in_square - 1 - given);
            draws.push(draw);
            given += 1;
        }
        let mut passed_by: Count = 0;
        while passed_by < room
            invariant
                passed_by <= room,
                draws@.len() == to_give_up + passed_by,
                forall|j: int| 0 <= j < to_give_up ==> (#[trigger] draws@[j]) < in_square - 1 - j,
                forall|i: int|
                    0 <= i < passed_by ==> (#[trigger] draws@[to_give_up + i]) < room - i,
            decreases room - passed_by,
        {
            let draw = rng.below(room - passed_by);
            draws.push(draw);
            passed_by += 1;
        }
        assert(start.draws_fit(pos, draws@));
        self.place_mines(pos, &draws);
    }
}

} // verus!
