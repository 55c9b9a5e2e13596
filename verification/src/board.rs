//! The game as a mathematical value, and the rules as functions on it.
//!
//! A [`Board`] is what a player and the rules can tell of a game: its size, its
//! phase, what every cell shows and where the mines lie. Each operation of the
//! engine is described here as a function from the board before it to the board
//! after it.

use vstd::prelude::*;
use crate::cell::{CellImage, GameState, Pos};
use crate::feed::{cells_of, Changes};
use crate::field::{block, field, in_field, neighbors_seq, touches};

verus! {

/// A game as the rules see it.
#[verifier::ext_equal]
pub struct Board {
    pub width: nat,
    pub height: nat,
    /// The number of mines of a game of this board.
    pub total_mines: nat,
    pub state: GameState,
    /// The number of flags that the player is told of.
    pub flags: nat,
    /// What each cell shows. Before the game every cell shows `Hidden`.
    pub images: Map<Pos, CellImage>,
    /// Where the mines lie. Before the game there is none.
    pub mines: Set<Pos>,
}

impl Board {
    /// Whether `p` lies on the board.
    pub open spec fn holds(self, p: Pos) -> bool {
        in_field(p, self.width, self.height)
    }

    /// The cells that show a flag.
    pub open spec fn flagged(self) -> Set<Pos> {
        Set::new(|p: Pos| self.holds(p) && self.images[p] == CellImage::Flagged)
    }

    /// The cells that do not show their number yet. A game is won when these are
    /// the mines and nothing else.
    pub open spec fn unopened(self) -> Set<Pos> {
        Set::new(|p: Pos| self.holds(p) && !self.images[p].is_numeral())
    }

    /// The number of mines in the square around `p`.
    pub open spec fn mines_around(self, p: Pos) -> nat {
        self.mines.intersect(block(p, self.width, self.height)).len()
    }

    /// The number that `p` shows once it is opened.
    pub open spec fn numeral_at(self, p: Pos) -> CellImage {
        CellImage::numeral(self.mines_around(p) as int)
    }

    /// What the cell at `p` may show while the game is under way: a covered
    /// cell, or, where there is no mine, its number.
    pub open spec fn cell_in_play(self, p: Pos) -> bool {
        !self.images[p].is_shown() || (!self.mines.contains(p) && self.images[p]
            == self.numeral_at(p))
    }

    /// Every mine shows a flag and every other cell its number.
    pub open spec fn is_won(self) -> bool {
        forall|p: Pos|
            self.holds(p) ==> #[trigger] self.images[p] == if self.mines.contains(p) {
                CellImage::Flagged
            } else {
                self.numeral_at(p)
            }
    }

    /// What the cell at `p` may show after the mine at `hit` was clicked.
    pub open spec fn cell_after_loss(self, hit: Pos, p: Pos) -> bool {
        let image = self.images[p];
        if p == hit {
            image is SelectedMine
        } else if self.mines.contains(p) {
            image is Mine
        } else {
            image is Hidden || image is QuestionMarked || image is WronglyFlagged || image
                == self.numeral_at(p)
        }
    }

    /// A mine was clicked, and some cell without a mine was still unopened.
    pub open spec fn is_lost(self) -> bool {
        &&& self.unopened().len() > self.total_mines
        &&& exists|hit: Pos|
            self.holds(hit) && self.mines.contains(hit) && forall|p: Pos|
                self.holds(p) ==> #[trigger] self.cell_after_loss(hit, p)
    }

    /// The size and the number of mines are valid, every cell of the board shows
    /// something, and the mines lie on the board.
    pub open spec fn framed(self) -> bool {
        &&& 0 < self.width <= 255
        &&& 0 < self.height <= 255
        &&& 0 < self.total_mines < self.width * self.height
        &&& self.images.dom() == field(self.width, self.height)
        &&& self.mines.subset_of(field(self.width, self.height))
    }

    /// The game is under way, though it may be as good as won: the mines are as
    /// many as were asked for, the flags are counted, and no cell shows anything
    /// but a mark or its number.
    pub open spec fn in_play(self) -> bool {
        &&& self.framed()
        &&& self.state == GameState::DuringGame
        &&& self.flags == self.flagged().len()
        &&& self.mines.len() == self.total_mines
        &&& forall|p: Pos| self.holds(p) ==> #[trigger] self.cell_in_play(p)
    }

    /// What holds of every game: the size and the number of mines are valid, every
    /// cell of the board shows something that fits the phase of the game, the
    /// number of flags is the number of cells that show one, and once the game
    /// has begun the mines are as many as were asked for. While the game is under
    /// way some cell without a mine is unopened.
    pub open spec fn wf(self) -> bool {
        &&& self.framed()
        &&& self.flags == self.flagged().len()
        &&& match self.state {
            GameState::BeforeGame => {
                &&& self.mines == Set::<Pos>::empty()
                &&& forall|p: Pos| self.holds(p) ==> #[trigger] self.images[p] == CellImage::Hidden
            },
            GameState::DuringGame => {
                &&& self.in_play()
                &&& self.unopened().len() > self.total_mines
            },
            GameState::AfterGame => {
                &&& self.mines.len() == self.total_mines
                &&& self.is_won() || self.is_lost()
            },
        }
    }

    /// A board on which every cell shows `image`.
    pub open spec fn all_showing(width: nat, height: nat, image: CellImage) -> Map<Pos, CellImage> {
        Map::new(|p: Pos| in_field(p, width, height), |p: Pos| image)
    }

    /// The board of a new game.
    pub open spec fn fresh(width: nat, height: nat, total_mines: nat) -> Board {
        Board {
            width,
            height,
            total_mines,
            state: GameState::BeforeGame,
            flags: 0,
            images: Board::all_showing(width, height, CellImage::Hidden),
            mines: Set::empty(),
        }
    }

    /// The board after a reset: that of a new game of the same size.
    pub open spec fn reset(self) -> Board {
        Board::fresh(self.width, self.height, self.total_mines)
    }

    /// Whether the first click, at `click`, may lay the mines as `layout`: as many
    /// as the game asks for, none of them under the click, and none in the square
    /// around the click unless the rest of the board is too small for them all,
    /// in which case the rest of the board is all mines.
    pub open spec fn fair_layout(self, click: Pos, layout: Set<Pos>) -> bool {
        let safe = block(click, self.width, self.height);
        &&& layout.subset_of(field(self.width, self.height))
        &&& layout.len() == self.total_mines
        &&& !layout.contains(click)
        &&& if self.total_mines + safe.len() <= self.width * self.height {
            layout.disjoint(safe)
        } else {
            field(self.width, self.height).difference(safe).subset_of(layout)
        }
    }

    /// The board at the start of play, with the mines at `layout`.
    pub open spec fn started(self, layout: Set<Pos>) -> Board {
        Board {
            state: GameState::DuringGame,
            flags: 0,
            images: Board::all_showing(self.width, self.height, CellImage::Hidden),
            mines: layout,
            ..self
        }
    }

    /// The board with the cells of `region` showing their numbers.
    pub open spec fn opened(self, region: Set<Pos>) -> Board {
        Board {
            images: Map::new(
                |p: Pos| self.holds(p),
                |p: Pos|
                    if region.contains(p) {
                        self.numeral_at(p)
                    } else {
                        self.images[p]
                    },
            ),
            ..self
        }
    }

    /// The board after the mine at `hit` was clicked: that cell shows
    /// `SelectedMine`, every other mine shows `Mine` whatever it showed, every
    /// flag on a cell without a mine shows `WronglyFlagged`, nothing else
    /// changes, and the flags are counted anew: none is left.
    pub open spec fn lost(self, hit: Pos) -> Board {
        let uncovered = Board {
            state: GameState::AfterGame,
            images: Map::new(
                |p: Pos| self.holds(p),
                |p: Pos|
                    if p == hit {
                        CellImage::SelectedMine
                    } else if self.mines.contains(p) {
                        CellImage::Mine
                    } else if !self.mines.contains(p) && self.images[p] == CellImage::Flagged {
                        CellImage::WronglyFlagged
                    } else {
                        self.images[p]
                    },
            ),
            ..self
        };
        Board { flags: uncovered.flagged().len(), ..uncovered }
    }

    /// The board of a won game: every mine shows a flag.
    pub open spec fn won(self) -> Board {
        Board {
            state: GameState::AfterGame,
            flags: self.total_mines,
            images: Map::new(
                |p: Pos| self.holds(p),
                |p: Pos|
                    if self.mines.contains(p) {
                        CellImage::Flagged
                    } else {
                        self.images[p]
                    },
            ),
            ..self
        }
    }

    /// The board after the win is looked for: won, where the game is under way
    /// and only the mines are left unopened.
    pub open spec fn settled(self) -> Board {
        if self.state == GameState::DuringGame && self.unopened().len() == self.total_mines {
            self.won()
        } else {
            self
        }
    }

    /// The board after the mark at `p` is switched between a flag and `plain`:
    /// a cell that shows `plain` gets a flag, any other cell shows `plain`.
    pub open spec fn marked(self, p: Pos, plain: CellImage) -> Board {
        if self.images[p] == plain {
            Board { images: self.images.insert(p, CellImage::Flagged), flags: self.flags + 1, ..self }
        } else {
            Board {
                images: self.images.insert(p, plain),
                flags: if self.images[p] == CellImage::Flagged {
                    (self.flags - 1) as nat
                } else {
                    self.flags
                },
                ..self
            }
        }
    }

    /// Whether opening `p` opens `q` too: `p` has no mine around it, and `q` is a
    /// hidden cell in the square around `p`.
    pub open spec fn spreads(self, p: Pos, q: Pos) -> bool {
        &&& self.holds(p)
        &&& self.holds(q)
        &&& touches(p, q)
        &&& self.mines_around(p) == 0
        &&& self.images[q] == CellImage::Hidden
    }

    /// Whether `path` leads from a hidden cell of `seeds` from cell to cell, each
    /// opening the next.
    pub open spec fn trail(self, seeds: Seq<Pos>, path: Seq<Pos>) -> bool {
        &&& path.len() > 0
        &&& seeds.contains(path[0])
        &&& self.holds(path[0])
        &&& self.images[path[0]] == CellImage::Hidden
        &&& forall|i: int| 0 <= i < path.len() - 1 ==> self.spreads(#[trigger] path[i], path[i + 1])
    }

    /// The cells that open when the cells of `seeds` are opened: the hidden cells
    /// among the seeds, and every hidden cell next to an opened cell that has no
    /// mine around it.
    pub open spec fn reach(self, seeds: Seq<Pos>) -> Set<Pos> {
        Set::new(|q: Pos| exists|path: Seq<Pos>| self.trail(seeds, path) && path.last() == q)
    }

    /// Whether `seeds[i]` holds a mine.
    pub open spec fn struck(self, seeds: Seq<Pos>, i: int) -> bool {
        0 <= i < seeds.len() && self.mines.contains(seeds[i])
    }

    /// The index of the first of `seeds` that holds a mine.
    pub open spec fn first_struck(self, seeds: Seq<Pos>) -> int {
        choose|i: int| self.struck(seeds, i) && forall|j: int| 0 <= j < i ==> !self.struck(seeds, j)
    }

    /// The board after the cells of `seeds` are uncovered: lost on the first of
    /// them that holds a mine; where none does, all that they reach is opened.
    pub open spec fn revealed(self, seeds: Seq<Pos>) -> Board {
        if exists|i: int| self.struck(seeds, i) {
            self.lost(seeds[self.first_struck(seeds)])
        } else {
            self.opened(self.reach(seeds))
        }
    }

    /// Which cells show `Hidden`.
    pub open spec fn shows_hidden(self) -> spec_fn(Pos) -> bool {
        |q: Pos| self.images[q] == CellImage::Hidden
    }

    /// The hidden cells next to `p`, in the order in which they are uncovered.
    pub open spec fn hidden_around(self, p: Pos) -> Seq<Pos> {
        neighbors_seq(p, self.width, self.height).filter(self.shows_hidden())
    }

    /// The board after a left click at `p` once the mines are laid. While the
    /// game is under way, a hidden cell is uncovered, a marked cell switches
    /// between a flag and a question mark, and a cell that shows its number has
    /// the hidden cells around it uncovered; then the win is looked for. In any
    /// other phase nothing changes.
    pub open spec fn left_clicked(self, p: Pos) -> Board {
        if self.state != GameState::DuringGame {
            self
        } else if self.images[p] == CellImage::Hidden {
            self.revealed(seq![p]).settled()
        } else if !self.images[p].is_shown() {
            self.marked(p, CellImage::QuestionMarked).settled()
        } else {
            self.revealed(self.hidden_around(p)).settled()
        }
    }

    /// The board after a left click at `p` in any phase. Before the game the
    /// mines are laid as `layout` first.
    pub open spec fn left_clicked_from(self, p: Pos, layout: Set<Pos>) -> Board {
        if self.state == GameState::BeforeGame {
            self.started(layout).left_clicked(p)
        } else {
            self.left_clicked(p)
        }
    }

    /// The board after a right click at `p`. While the game is under way, a flag
    /// is taken off and the cell shows `Hidden`; a hidden or question-marked cell
    /// gets a flag; an opened cell stays as it is. In any other phase nothing
    /// changes.
    pub open spec fn right_clicked(self, p: Pos) -> Board {
        if self.state != GameState::DuringGame || self.images[p].is_shown() {
            self
        } else if self.images[p] == CellImage::QuestionMarked {
            self.marked(p, CellImage::QuestionMarked)
        } else {
            self.marked(p, CellImage::Hidden)
        }
    }

    /// The cells that show something else on `after` than on this board.
    pub open spec fn changed(self, after: Board) -> Set<Pos> {
        Set::new(|p: Pos| self.holds(p) && self.images[p] != after.images[p])
    }

    /// Whether `changes` tells how to get from what this board shows to what
    /// `after` shows: it names each cell that shows something else, once, with
    /// what it shows on `after`, and no other cell.
    pub open spec fn updates_to(self, after: Board, changes: Changes) -> bool {
        &&& cells_of(changes).no_duplicates()
        &&& cells_of(changes).to_set() == self.changed(after)
        &&& forall|i: int|
            0 <= i < changes.len() ==> (#[trigger] changes[i]).1 == after.images[changes[i].0]
    }
}

} // verus!
