//! How a game ends.

use vstd::prelude::*;
use crate::cell::{CellImage, GameState, Pos};
use crate::board::Board;
use crate::feed::{
    in_feed_order, leads, lemma_named_cells, lemma_scan_done, lemma_scan_push, lemma_scan_row,
    lemma_scan_skip, names, passed, scanned,
};
use crate::game::Game;
use crate::laws::{lemma_counts, lemma_lost_wf, lemma_mines_unopened, lemma_settled_wf};

verus! {

impl Game {
    /// Ends a game in which only the mines are left unopened: the game is won,
    /// and every mine gets a flag. Returns the mines that had none, row by row,
    /// each with its flag.
    pub(crate) fn handle_win(&mut self) -> (changes: Vec<(Pos, CellImage)>)
        requires
            old(self).playing(),
            old(self)@.unopened().len() == old(self)@.total_mines,
        ensures
            final(self).wf(),
            final(self)@ == old(self)@.won(),
            old(self)@.updates_to(final(self)@, changes@),
            scanned(changes@, 0, old(self)@.changed(final(self)@), final(self)@.height as int, 0),
            forall|i: int| 0 <= i < changes@.len() ==> (#[trigger] changes@[i]).1 == CellImage::Flagged,
    {
        self.game_state = GameState::AfterGame;
        let mut result: Vec<(Pos, CellImage)> = Vec::new();
        let ghost wanted = Set::new(
            |p: Pos|
                old(self)@.holds(p) && old(self)@.mines.contains(p) && old(self)@.images[p]
                    != CellImage::Flagged,
        );
        let mut row: u8 = 0;
        while row < self.height
            invariant
                row <= self.height,
                self.grid.wf(),
                old(self).playing(),
                self.grid.spec_height() == self.height == old(self).height,
                self.grid.spec_width() == self.width == old(self).width,
                self.total_mines == old(self).total_mines,
                self.hidden == old(self).hidden,
                self.game_state == GameState::AfterGame,
                wanted == Set::new(
                    |p: Pos|
                        old(self)@.holds(p) && old(self)@.mines.contains(p) && old(
                            self,
                        )@.images[p] != CellImage::Flagged,
                ),
                forall|p: Pos|
                    old(self)@.holds(p) ==> (#[trigger] self.grid.cell(p)).mine == old(
                        self,
                    ).grid.cell(p).mine && self.grid.cell(p).image == if p.0 < row
                        && self.grid.cell(p).mine {
                        CellImage::Flagged
                    } else {
                        old(self).grid.cell(p).image
                    },
                scanned(result@, 0, wanted, row as int, 0),
                forall|i: int| 0 <= i < result@.len() ==> (#[trigger] result@[i]).1 == CellImage::Flagged,
            decreases self.height - row,
        {
            let mut col: u8 = 0;
            while col < self.width
                invariant
                    row < self.height,
                    col <= self.width,
                    self.grid.wf(),
                    old(self).playing(),
                    self.grid.spec_height() == self.height == old(self).height,
                    self.grid.spec_width() == self.width == old(self).width,
                    self.total_mines == old(self).total_mines,
                    self.hidden == old(self).hidden,
                    self.game_state == GameState::AfterGame,
                    wanted == Set::new(
                        |p: Pos|
                            old(self)@.holds(p) && old(self)@.mines.contains(p) && old(
                                self,
                            )@.images[p] != CellImage::Flagged,
                    ),
                    forall|p: Pos|
                        old(self)@.holds(p) ==> (#[trigger] self.grid.cell(p)).mine == old(
                            self,
                        ).grid.cell(p).mine && self.grid.cell(p).image == if (p.0 < row || (p.0
                            == row && p.1 < col)) && self.grid.cell(p).mine {
                            CellImage::Flagged
                        } else {
                            old(self).grid.cell(p).image
                        },
                    scanned(result@, 0, wanted, row as int, col as int),
                    forall|i: int|
                        0 <= i < result@.len() ==> (#[trigger] result@[i]).1 == CellImage::Flagged,
                decreases self.width - col,
            {
                let pos = (row, col);
                let cell = self.grid.get(pos);
                if cell.mine && cell.image != CellImage::Flagged {
                    proof {
                        lemma_scan_push(result@, 0, wanted, row, col, CellImage::Flagged);
                    }
                    self.grid.get_mut(pos).image = CellImage::Flagged;
                    result.push((pos, CellImage::Flagged));
                } else {
                    proof {
                        lemma_scan_skip(result@, 0, wanted, row, col);
                    }
                }
                col += 1;
            }
            proof {
                lemma_scan_row(result@, 0, wanted, row, self.width);
            }
            row += 1;
        }
        self.flags = self.total_mines;
        proof {
            assert(self@ =~= old(self)@.won());
            lemma_settled_wf(old(self)@);
            lemma_mines_unopened(old(self)@);
            assert(self@.unopened() =~= old(self)@.unopened());
            assert(old(self)@.changed(self@) =~= wanted);
            lemma_scan_done(result@, 0, wanted, self.height);
            lemma_named_cells(result@, wanted);
        }
        result
    }
}

impl Game {
    /// Ends a game by the click on the mine at `hit`: the game is lost, the mine
    /// shows as the one clicked, every other mine is uncovered whatever it
    /// showed, every flag on a cell without a mine is shown to be wrong, and no
    /// flag is left to count. Returns the mine that was clicked, then the other cells
    /// that changed, row by row, each with what it shows now.
    pub fn handle_loss(&mut self, hit: Pos) -> (changes: Vec<(Pos, CellImage)>)
        requires
            old(self).wf(),
            old(self)@.state == GameState::DuringGame,
            old(self)@.holds(hit),
            old(self)@.mines.contains(hit),
            old(self)@.images[hit] == CellImage::Hidden,
        ensures
            final(self).wf(),
            final(self)@ == old(self)@.lost(hit),
            final(self)@.unopened() == old(self)@.unopened(),
            old(self)@.updates_to(final(self)@, changes@),
            in_feed_order(changes@),
            changes@.len() > 0,
            changes@[0] == (hit, CellImage::SelectedMine),
            scanned(
                changes@,
                1,
                old(self)@.changed(final(self)@).remove(hit),
                final(self)@.height as int,
                0,
            ),
    {
        proof {
            lemma_counts(self@);
            lemma_lost_wf(self@, hit);
        }
        self.game_state = GameState::AfterGame;
        self.grid.get_mut(hit).image = CellImage::SelectedMine;
        let mut result: Vec<(Pos, CellImage)> = Vec::new();
        result.push((hit, CellImage::SelectedMine));
        let ghost wanted = Set::new(
            |p: Pos|
                old(self)@.holds(p) && p != hit && (old(self)@.mines.contains(p) || old(
                    self,
                )@.images[p] == CellImage::Flagged),
        );
        assert(self@.flagged() =~= old(self)@.flagged());
        let mut row: u8 = 0;
        while row < self.height
            invariant
                row <= self.height,
                old(self).wf(),
                old(self)@.state == GameState::DuringGame,
                old(self)@.holds(hit),
                self.laid_out(),
                self.same_mines(old(self)),
                self.hidden == old(self).hidden,
                self.game_state == GameState::AfterGame,
                self.flags == self@.flagged().len(),
                wanted == Set::new(
                    |p: Pos|
                        old(self)@.holds(p) && p != hit && (old(self)@.mines.contains(p) || old(
                            self,
                        )@.images[p] == CellImage::Flagged),
                ),
                forall|p: Pos|
                    old(self)@.holds(p) ==> (#[trigger] self.grid.cell(p)).image == if p == hit {
                        CellImage::SelectedMine
                    } else if p.0 < row && wanted.contains(p) {
                        if self.grid.cell(p).mine {
                            CellImage::Mine
                        } else {
                            CellImage::WronglyFlagged
                        }
                    } else {
                        old(self).grid.cell(p).image
                    },
                result@.len() > 0,
                result@[0] == (hit, CellImage::SelectedMine),
                scanned(result@, 1, wanted, row as int, 0),
                forall|i: int|
                    1 <= i < result@.len() ==> (#[trigger] result@[i]).1 == self@.images[result@[i].0]
                        && !leads(result@[i].1),
            decreases self.height - row,
        {
            let mut col: u8 = 0;
            while col < self.width
                invariant
                    row < self.height,
                    col <= self.width,
                    old(self).wf(),
                    old(self)@.state == GameState::DuringGame,
                    old(self)@.holds(hit),
                    self.laid_out(),
                    self.same_mines(old(self)),
                    self.hidden == old(self).hidden,
                    self.game_state == GameState::AfterGame,
                    self.flags == self@.flagged().len(),
                    wanted == Set::new(
                        |p: Pos|
                            old(self)@.holds(p) && p != hit && (old(self)@.mines.contains(
                                p,
                            ) || old(self)@.images[p] == CellImage::Flagged),
                    ),
                    forall|p: Pos|
                        old(self)@.holds(p) ==> (#[trigger] self.grid.cell(p)).image == if p
                            == hit {
                            CellImage::SelectedMine
                        } else if passed(p, row as int, col as int) && wanted.contains(p) {
                            if self.grid.cell(p).mine {
                                CellImage::Mine
                            } else {
                                CellImage::WronglyFlagged
                            }
                        } else {
                            old(self).grid.cell(p).image
                        },
                    result@.len() > 0,
                    result@[0] == (hit, CellImage::SelectedMine),
                    scanned(result@, 1, wanted, row as int, col as int),
                    forall|i: int|
                        1 <= i < result@.len() ==> (#[trigger] result@[i]).1
                            == self@.images[result@[i].0] && !leads(result@[i].1),
                decreases self.width - col,
            {
                let pos = (row, col);
                let cell = self.grid.get(pos);
                let ghost earlier = self@;
                proof {
                    lemma_counts(earlier);
                    assert(old(self)@.cell_in_play(pos));
                }
                if cell.mine && !cell.image.shown() {
                    proof {
                        lemma_scan_push(result@, 1, wanted, row, col, CellImage::Mine);
                    }
                    if cell.image == CellImage::Flagged {
                        assert(earlier.flagged().contains(pos));
                        self.flags -= 1;
                    }
                    self.grid.get_mut(pos).image = CellImage::Mine;
                    result.push((pos, CellImage::Mine));
                    assert(self@.flagged() =~= earlier.flagged().remove(pos));
                } else if !cell.mine && cell.image == CellImage::Flagged {
                    proof {
                        lemma_scan_push(result@, 1, wanted, row, col, CellImage::WronglyFlagged);
                        assert(earlier.flagged().contains(pos));
                    }
                    self.grid.get_mut(pos).image = CellImage::WronglyFlagged;
                    self.flags -= 1;
                    result.push((pos, CellImage::WronglyFlagged));
                    assert(self@.flagged() =~= earlier.flagged().remove(pos));
                } else {
                    proof {
                        lemma_scan_skip(result@, 1, wanted, row, col);
                    }
                }
                col += 1;
            }
            proof {
                lemma_scan_row(result@, 1, wanted, row, self.width);
            }
            row += 1;
        }
        proof {
            let after = old(self)@.lost(hit);
            let uncovered = Board { flags: old(self)@.flags, ..after };
            assert(self@.images =~= after.images);
            assert(self@.flagged() =~= uncovered.flagged());
            assert(self@ =~= after);
            assert(old(self)@.changed(self@).remove(hit) =~= wanted) by {
                assert forall|p: Pos| wanted.contains(p) implies old(self)@.changed(
                    self@,
                ).contains(p) by {
                    assert(old(self)@.cell_in_play(p));
                }
            }
            lemma_scan_done(result@, 1, wanted, self.height);
            assert forall|p: Pos| names(result@, 0, p) <==> old(self)@.changed(self@).contains(
                p,
            ) by {
                if names(result@, 0, p) {
                    let i = choose|i: int| 0 <= i < result@.len() && (#[trigger] result@[i]).0 == p;
                    if i >= 1 {
                        assert(names(result@, 1, p));
                    }
                }
                if old(self)@.changed(self@).contains(p) {
                    if p == hit {
                        assert(result@[0].0 == p);
                    } else {
                        assert(wanted.contains(p));
                        assert(names(result@, 1, p));
                    }
                }
            }
            assert forall|i: int, j: int| 0 <= i < j < result@.len() implies (
            #[trigger] result@[i]).0 != (#[trigger] result@[j]).0 by {
                if i == 0 {
                    assert(wanted.contains(result@[j].0));
                }
            }
            lemma_named_cells(result@, old(self)@.changed(self@));
        }
        result
    }
}

} // verus!
