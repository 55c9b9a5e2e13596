//! The left click.

use vstd::prelude::*;
use crate::cell::{CellImage, Count, GameState, Pos};
use crate::feed::{cells_of, in_feed_order, lemma_feed_chain};
use crate::game::Game;
use crate::laws::{
    lemma_first_struck, lemma_hidden_around, lemma_mines_unopened, lemma_updates_chain,
};
use crate::random::{RandomSource, ThreadRandom};

verus! {

impl Game {
    /// A left click at `pos`, which must lie in the grid. Where the click is
    /// the first of the game, the mines are laid with the random number
    /// generator of the current thread.
    ///
    /// Before the game, the mines are laid first as [`Game::start_game`] lays
    /// them, none of them under the click, and the game begins. Then, while the game is under way: a hidden cell is
    /// uncovered, and the game is lost if it holds a mine; a cell with a flag or
    /// a question mark switches between the two; a cell that shows its number
    /// has the hidden cells around it uncovered. When only the mines are left
    /// unopened the game is won, and every mine gets a flag. After the game
    /// nothing changes.
    ///
    /// Returns the cells that show something else than before, each once, with
    /// what they show now: first what the click opened, beginning with the cell
    /// that was clicked if it was hidden, then what the end of the game
    /// uncovered, row by row.
    pub fn left_click(&mut self, pos: Pos) -> (changes: Vec<(Pos, CellImage)>)
        requires
            old(self).wf(),
            old(self)@.holds(pos),
        ensures
            final(self).wf(),
            final(self)@ == old(self)@.left_clicked_from(pos, final(self)@.mines),
            old(self)@.state == GameState::BeforeGame ==> old(self)@.fair_layout(
                pos,
                final(self)@.mines,
            ) && exists|draws: Seq<Count>|
                old(self)@.draws_fit(pos, draws) && old(self)@.laid_by(
                    pos,
                    draws,
                    final(self)@.mines,
                ),
            old(self)@.updates_to(final(self)@, changes@),
            in_feed_order(changes@),
            old(self)@.state != GameState::AfterGame && old(self)@.images[pos] == CellImage::Hidden
                ==> changes@.len() > 0 && changes@[0].0 == pos,
    {
        if self.game_state == GameState::BeforeGame {
            let mut rng = ThreadRandom::new();
            self.start_game(pos, &mut rng);
        }
        let ghost begun = self@;
        let changes = self.click_begun(pos);
        proof {
            assert(old(self)@.changed(self@) =~= begun.changed(self@));
        }
        changes
    }

    /// A left click at `pos`, which must lie in the grid, as [`Game::left_click`]
    /// but for the random numbers, which come from `rng`.
    pub fn left_click_with<R: RandomSource>(&mut self, pos: Pos, rng: &mut R) -> (changes: Vec<
        (Pos, CellImage),
    >)
        requires
            old(self).wf(),
            old(self)@.holds(pos),
        ensures
            final(self).wf(),
            final(self)@ == old(self)@.left_clicked_from(pos, final(self)@.mines),
            old(self)@.state == GameState::BeforeGame ==> old(self)@.fair_layout(
                pos,
                final(self)@.mines,
            ) && exists|draws: Seq<Count>|
                old(self)@.draws_fit(pos, draws) && old(self)@.laid_by(
                    pos,
                    draws,
                    final(self)@.mines,
                ),
            old(self)@.updates_to(final(self)@, changes@),
            in_feed_order(changes@),
            old(self)@.state != GameState::AfterGame && old(self)@.images[pos] == CellImage::Hidden
                ==> changes@.len() > 0 && changes@[0].0 == pos,
    {
        if self.game_state == GameState::BeforeGame {
            self.start_game(pos, rng);
        }
        let ghost begun = self@;
        let changes = self.click_begun(pos);
        proof {
            assert(old(self)@.changed(self@) =~= begun.changed(self@));
        }
        changes
    }

    /// A left click at `pos` on a game whose mines are laid.
    fn click_begun(&mut self, pos: Pos) -> (changes: Vec<(Pos, CellImage)>)
        requires
            old(self).wf(),
            old(self)@.state != GameState::BeforeGame,
            old(self)@.holds(pos),
        ensures
            final(self).wf(),
            final(self)@ == old(self)@.left_clicked(pos),
            old(self)@.updates_to(final(self)@, changes@),
            in_feed_order(changes@),
            old(self)@.state == GameState::DuringGame && old(self)@.images[pos]
                == CellImage::Hidden ==> changes@.len() > 0 && changes@[0].0 == pos,
    {
        let mut result: Vec<(Pos, CellImage)> = Vec::new();
        let ghost begun = self@;
        assert(cells_of(result@) =~= Seq::empty());
        assert(cells_of(result@).to_set() =~= Set::empty());
        if self.game_state == GameState::DuringGame {
            let image = self.grid.get(pos).image;
            if image == CellImage::Hidden {
                let mut seeds: Vec<Pos> = Vec::new();
                seeds.push(pos);
                assert(seeds@ =~= seq![pos]);
                result = self.show(seeds);
                proof {
                    if self@.state == GameState::AfterGame {
                        let struck = choose|i: int| begun.struck(seeds@, i);
                        lemma_first_struck(begun, seeds@, struck);
                    }
                }
            } else if !image.shown() {
                let change = self.toggle_tofrom_question_marked(pos);
                result.push(change);
                proof {
                    assert(cells_of(result@) =~= seq![pos]);
                    assert(seq![pos][0] == pos);
                    assert(cells_of(result@).to_set() =~= begun.changed(self@));
                }
            } else {
                let around = self.get_hidden_neighbors(pos);
                proof {
                    lemma_hidden_around(begun, pos);
                }
                result = self.show(around);
            }
            let ghost opened = self@;
            let ghost early = result@;
            proof {
                if opened.state == GameState::DuringGame {
                    lemma_mines_unopened(opened);
                }
            }
            if self.hidden == self.total_mines {
                let mut flagged = self.handle_win();
                proof {
                    assert(begun.changed(opened).disjoint(opened.changed(self@))) by {
                        assert forall|p: Pos|
                            begun.changed(opened).contains(p) implies !opened.changed(
                            self@,
                        ).contains(p) by {
                            assert(cells_of(early).to_set().contains(p));
                            let i = choose|i: int|
                                0 <= i < cells_of(early).len() && cells_of(early)[i] == p;
                            assert(early[i].0 == p);
                        }
                    }
                    lemma_updates_chain(begun, opened, self@, early, flagged@);
                    lemma_feed_chain(early, flagged@);
                }
                result.append(&mut flagged);
            }
        } else {
            assert(begun.changed(self@) =~= Set::empty());
        }
        result
    }
}

} // verus!
