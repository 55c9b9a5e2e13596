//! Uncovering cells.

use vstd::prelude::*;
use crate::cell::{CellImage, GameState, Pos};
use crate::feed::{cells_of, in_feed_order, leads};
use crate::game::Game;
use crate::flood::{
    flooding, lemma_flood_begin, lemma_flood_end, lemma_flood_open, lemma_flood_skip,
    lemma_flood_top,
};
use crate::laws::{lemma_counts, lemma_first_struck, lemma_mines_around};

verus! {

impl Game {
    /// Uncovers the cells `cells`; one of them that holds a mine must be hidden.
    /// Where one of them holds a mine, the game is lost on the first that does,
    /// and nothing is opened. Where none does, each that is hidden is opened and
    /// shows the number of mines around it, and so is every hidden cell next to
    /// an opened cell that has no mine around it; a cell that is not hidden is
    /// passed over. Returns the cells that changed, each once, with what they
    /// show now.
    pub(crate) fn show(&mut self, cells: Vec<Pos>) -> (changes: Vec<(Pos, CellImage)>)
        requires
            old(self).wf(),
            old(self)@.state == GameState::DuringGame,
            forall|i: int|
                0 <= i < cells@.len() ==> old(self)@.holds(#[trigger] cells@[i]) && (old(
                    self,
                )@.mines.contains(cells@[i]) ==> old(self)@.images[cells@[i]]
                    == CellImage::Hidden),
        ensures
            final(self)@ == old(self)@.revealed(cells@),
            old(self)@.updates_to(final(self)@, changes@),
            in_feed_order(changes@),
            final(self)@.state == GameState::AfterGame ==> final(self).wf()
                && final(self)@.unopened() == old(self)@.unopened(),
            final(self)@.state != GameState::AfterGame ==> final(self).playing() && forall|i: int|
                0 <= i < changes@.len() ==> leads((#[trigger] changes@[i]).1),
            final(self)@.state != GameState::AfterGame ==> old(self)@.changed(final(self)@)
                == old(self)@.reach(cells@) && final(self)@.unopened() == old(
                self,
            )@.unopened().difference(old(self)@.reach(cells@)) && changes@.len() == old(
                self,
            )@.reach(cells@).len(),
            final(self)@.state == GameState::AfterGame ==> changes@.len() > 0 && changes@[0] == (
                cells@[old(self)@.first_struck(cells@)],
                CellImage::SelectedMine,
            ),
            final(self)@.state != GameState::AfterGame && cells@.len() > 0 && old(
                self,
            )@.images[cells@.last()] == CellImage::Hidden ==> changes@.len() > 0
                && changes@[0].0 == cells@.last(),
    {
        let ghost seeds = cells@;
        let ghost start = self@;
        let mut index: usize = 0;
        while index < cells.len()
            invariant
                index <= cells@.len(),
                cells@ == seeds,
                *self == *old(self),
                self.wf(),
                self@.state == GameState::DuringGame,
                forall|i: int|
                    0 <= i < seeds.len() ==> self@.holds(#[trigger] seeds[i]) && (
                    self@.mines.contains(seeds[i]) ==> self@.images[seeds[i]] == CellImage::Hidden),
                forall|j: int| 0 <= j < index ==> !self@.struck(seeds, j),
            decreases cells@.len() - index,
        {
            let pos = cells[index];
            if self.grid.get(pos).mine {
                proof {
                    assert(self@.struck(seeds, index as int));
                    lemma_first_struck(self@, seeds, index as int);
                    if self@.first_struck(seeds) < index {
                        assert(!self@.struck(seeds, self@.first_struck(seeds)));
                    }
                    assert(self@.first_struck(seeds) == index);
                    assert(seeds[self@.first_struck(seeds)] == pos);
                    assert(exists|i: int| self@.struck(seeds, i));
                    assert(self@.revealed(seeds) == self@.lost(pos));
                }
                return self.handle_loss(pos);
            }
            index += 1;
        }
        proof {
            lemma_counts(start);
            lemma_flood_begin(start, seeds);
        }
        let mut stack = cells;
        let mut result: Vec<(Pos, CellImage)> = Vec::new();
        let ghost done = Set::<Pos>::empty();
        assert(cells_of(result@) =~= Seq::empty());
        assert(cells_of(result@).to_set() =~= done);
        while !stack.is_empty()
            invariant
                flooding(start, seeds, self@, done, stack@),
                self.kept(),
                self.game_state == GameState::DuringGame,
                cells_of(result@).no_duplicates(),
                cells_of(result@).to_set() == done,
                forall|i: int|
                    0 <= i < result@.len() ==> (#[trigger] result@[i]).1 == start.numeral_at(
                        result@[i].0,
                    ),
                seeds.len() > 0 && start.images[seeds.last()] == CellImage::Hidden ==> (
                result@.len() == 0 && stack@ == seeds) || (result@.len() > 0 && result@[0].0
                    == seeds.last()),
            decreases self.hidden, stack@.len(),
        {
            let ghost pile = stack@;
            let ghost earlier = self@;
            proof {
                lemma_flood_top(start, seeds, earlier, done, pile);
                if result@.len() == 0 {
                    assert(cells_of(result@) =~= Seq::empty());
                    assert(done =~= Set::empty());
                }
            }
            let pos = stack.pop().unwrap();
            assert(stack@ =~= pile.drop_last());
            if self.grid.get(pos).image == CellImage::Hidden {
                proof {
                    lemma_flood_open(start, seeds, earlier, done, pile);
                }
                let ghost listed = cells_of(result@);
                self.hidden -= 1;
                let mines_around = self.get_mines_around(pos);
                let image = CellImage::from_number(mines_around);
                self.grid.get_mut(pos).image = image;
                result.push((pos, image));
                proof {
                    assert(self@.mines =~= earlier.mines);
                    assert(self@ =~= earlier.opened(set![pos]));
                    assert(cells_of(result@) =~= listed.push(pos));
                    assert(!listed.to_set().contains(pos));
                    listed.lemma_push_to_set_commute(pos);
                    done = done.insert(pos);
                }
                if mines_around == 0 {
                    let mut around = self.get_hidden_neighbors(pos);
                    stack.append(&mut around);
                }
            } else {
                proof {
                    lemma_flood_skip(start, seeds, earlier, done, pile);
                }
            }
        }
        proof {
            assert(stack@ =~= Seq::empty());
            lemma_flood_end(start, seeds, self@, done);
            cells_of(result@).unique_seq_to_set();
            assert forall|i: int| 0 <= i < result@.len() implies (#[trigger] result@[i]).1
                == self@.images[result@[i].0] && leads(result@[i].1) by {
                let p = result@[i].0;
                assert(cells_of(result@)[i] == p);
                assert(cells_of(result@).contains(p));
                assert(done.contains(p));
                lemma_mines_around(start, p);
            }
        }
        result
    }
}

} // verus!
