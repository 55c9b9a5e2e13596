//! Flags and question marks.

use vstd::prelude::*;
use crate::feed::{cells_of, in_feed_order};
use crate::cell::{CellImage, GameState, Pos};
use crate::game::Game;
use crate::laws::{lemma_counts, lemma_marked_wf, lemma_right_clicked_wf};

verus! {

impl Game {
    /// Switches the mark of a covered cell between a flag and `Hidden`, and
    /// tells what the cell shows now.
    pub fn toggle_tofrom_hidden(&mut self, pos: Pos) -> (change: (Pos, CellImage))
        requires
            old(self).wf(),
            old(self)@.state == GameState::DuringGame,
            old(self)@.holds(pos),
            !old(self)@.images[pos].is_shown(),
        ensures
            final(self).wf(),
            final(self)@ == old(self)@.marked(pos, CellImage::Hidden),
            change == (pos, final(self)@.images[pos]),
    {
        self.toggle_tofrom_given(pos, CellImage::Hidden)
    }

    /// Switches the mark of a covered cell between a flag and a question mark,
    /// and tells what the cell shows now.
    pub fn toggle_tofrom_question_marked(&mut self, pos: Pos) -> (change: (Pos, CellImage))
        requires
            old(self).wf(),
            old(self)@.state == GameState::DuringGame,
            old(self)@.holds(pos),
            !old(self)@.images[pos].is_shown(),
        ensures
            final(self).wf(),
            final(self)@ == old(self)@.marked(pos, CellImage::QuestionMarked),
            change == (pos, final(self)@.images[pos]),
    {
        self.toggle_tofrom_given(pos, CellImage::QuestionMarked)
    }

    /// Switches the mark of a covered cell between a flag and `given`, which is
    /// `Hidden` or `QuestionMarked`: a cell that shows `given` gets a flag, any
    /// other shows `given`. Tells what the cell shows now.
    pub fn toggle_tofrom_given(&mut self, pos: Pos, given: CellImage) -> (change: (
        Pos,
        CellImage,
    ))
        requires
            old(self).wf(),
            old(self)@.state == GameState::DuringGame,
            old(self)@.holds(pos),
            !old(self)@.images[pos].is_shown(),
            given == CellImage::Hidden || given == CellImage::QuestionMarked,
        ensures
            final(self).wf(),
            final(self)@ == old(self)@.marked(pos, given),
            change == (pos, final(self)@.images[pos]),
            final(self)@.images[pos] != old(self)@.images[pos],
    {
        proof {
            lemma_counts(self@);
            lemma_marked_wf(self@, pos, given);
        }
        let image = self.grid.get(pos).image;
        let shown = if image == given {
            self.grid.get_mut(pos).image = CellImage::Flagged;
            self.flags += 1;
            CellImage::Flagged
        } else {
            if image == CellImage::Flagged {
                assert(old(self)@.flagged().contains(pos));
                self.flags -= 1;
            }
            self.grid.get_mut(pos).image = given;
            given
        };
        assert(self@ =~= old(self)@.marked(pos, given));
        (pos, shown)
    }

    /// A right click at `pos`, which must lie in the grid. While the game is
    /// under way it puts a flag on a cell that shows `Hidden` or a question mark
    /// and takes the flag off a cell that has one; otherwise it changes nothing.
    /// Returns the cell with what it shows now, if it changed.
    pub fn right_click(&mut self, pos: Pos) -> (changes: Vec<(Pos, CellImage)>)
        requires
            old(self).wf(),
            old(self)@.holds(pos),
        ensures
            final(self).wf(),
            final(self)@ == old(self)@.right_clicked(pos),
            changes@ == if final(self)@.images[pos] == old(self)@.images[pos] {
                Seq::<(Pos, CellImage)>::empty()
            } else {
                seq![(pos, final(self)@.images[pos])]
            },
            old(self)@.updates_to(final(self)@, changes@),
            in_feed_order(changes@),
    {
        proof {
            lemma_right_clicked_wf(self@, pos);
        }
        let mut result: Vec<(Pos, CellImage)> = Vec::new();
        if self.game_state == GameState::BeforeGame || self.game_state == GameState::AfterGame
            || self.grid.get(pos).image.shown() {
            assert(cells_of(result@) =~= Seq::empty());
            assert(cells_of(result@).to_set() =~= old(self)@.changed(self@));
        } else {
            let change = if self.grid.get(pos).image == CellImage::QuestionMarked {
                self.toggle_tofrom_question_marked(pos)
            } else {
                self.toggle_tofrom_hidden(pos)
            };
            result.push(change);
            assert(cells_of(result@) =~= seq![pos]);
            assert(cells_of(result@).to_set() =~= old(self)@.changed(self@)) by {
                assert(seq![pos][0] == pos);
            }
        }
        result
    }
}

} // verus!
