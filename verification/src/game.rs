//! The game itself: its state, how it is made and reset, and what it shows.

use vstd::prelude::*;
use crate::board::Board;
use crate::cell::{CellImage, Count, Dim, GameState, Pos};
use crate::field::in_field;
use crate::grid::GameGrid;
use crate::laws::lemma_fresh_wf;

verus! {

/// Why a game of some size and number of mines cannot be made.
#[derive(Clone, Copy, Debug, PartialEq, Eq, Structural)]
pub enum ConstructionError {
    /// The width or the height is 0.
    EmptyGrid,
    /// There is no mine.
    NoMines,
    /// There are at least as many mines as cells.
    TooManyMines,
}

/// What is wrong with a size and a number of mines, if anything.
pub open spec fn setup_error(width: Dim, height: Dim, mines: Count) -> Option<ConstructionError> {
    if width == 0 || height == 0 {
        Some(ConstructionError::EmptyGrid)
    } else if mines == 0 {
        Some(ConstructionError::NoMines)
    } else if mines >= width * height {
        Some(ConstructionError::TooManyMines)
    } else {
        None
    }
}

/// A game of Minesweeper.
#[derive(Debug)]
pub struct Game {
    pub(crate) grid: GameGrid,
    pub(crate) game_state: GameState,
    pub(crate) width: Dim,
    pub(crate) height: Dim,
    pub(crate) flags: Count,
    /// The number of cells that do not show their number yet. It is kept only
    /// once the game has begun.
    pub(crate) hidden: Count,
    pub(crate) total_mines: Count,
}

/// Checks a size and a number of mines.
fn check_setup(width: Dim, height: Dim, mines: Count) -> (found: Option<ConstructionError>)
    ensures
        found == setup_error(width, height, mines),
{
    assert(width * height <= 65025) by (nonlinear_arith)
        requires
            width <= 255,
            height <= 255,
    ;
    if width == 0 || height == 0 {
        Some(ConstructionError::EmptyGrid)
    } else if mines == 0 {
        Some(ConstructionError::NoMines)
    } else if mines >= width as u16 * height as u16 {
        Some(ConstructionError::TooManyMines)
    } else {
        None
    }
}

impl Game {
    /// The game as the rules see it. Before the game every cell shows `Hidden`
    /// and there is no mine, whatever an earlier game has left in the grid.
    pub open(crate) spec fn view(&self) -> Board {
        Board {
            width: self.width as nat,
            height: self.height as nat,
            total_mines: self.total_mines as nat,
            state: self.game_state,
            flags: self.flags as nat,
            images: Map::new(
                |p: Pos| in_field(p, self.width as nat, self.height as nat),
                |p: Pos|
                    if self.game_state == GameState::BeforeGame {
                        CellImage::Hidden
                    } else {
                        self.grid.cell(p).image
                    },
            ),
            mines: if self.game_state == GameState::BeforeGame {
                Set::empty()
            } else {
                Set::new(
                    |p: Pos|
                        in_field(p, self.width as nat, self.height as nat) && self.grid.cell(
                            p,
                        ).mine,
                )
            },
        }
    }

    /// The mines are laid: the game has begun and the grid has its size.
    pub open(crate) spec fn laid_out(&self) -> bool {
        &&& self.game_state != GameState::BeforeGame
        &&& self.grid.wf()
        &&& self.grid.spec_height() == self.height
        &&& self.grid.spec_width() == self.width
    }

    /// The mines are laid, and the count of unopened cells is right.
    pub open(crate) spec fn kept(&self) -> bool {
        &&& self.laid_out()
        &&& self.hidden == self@.unopened().len()
    }

    /// Whether this game differs from `other` at most in what its cells show, in
    /// the number of flags and in the count of unopened cells.
    pub open(crate) spec fn same_mines(&self, other: &Game) -> bool {
        &&& self.width == other.width
        &&& self.height == other.height
        &&& self.total_mines == other.total_mines
        &&& forall|p: Pos|
            self@.holds(p) ==> (#[trigger] self.grid.cell(p)).mine == other.grid.cell(p).mine
    }

    /// The game is well formed as the rules see it, and once it has begun its
    /// grid has its size and its count of unopened cells is right.
    pub open(crate) spec fn wf(&self) -> bool {
        &&& self@.wf()
        &&& self.grid.wf()
        &&& self.game_state != GameState::BeforeGame ==> self.kept()
    }

    /// The game is under way, though it may be as good as won.
    pub open(crate) spec fn playing(&self) -> bool {
        self@.in_play() && self.kept()
    }

    /// The count that the game keeps of the cells that do not show their number
    /// yet. A new game has it at the number of its cells; once the game has
    /// begun it follows the board.
    pub closed spec fn hidden_count(&self) -> nat {
        self.hidden as nat
    }

    /// A well-formed game is well formed as the rules see it, so that every
    /// law of the rules holds of it; and once it has begun, its mines are laid
    /// and its count of unopened cells is that of the board.
    pub proof fn lemma_wf(&self)
        requires
            self.wf(),
        ensures
            self@.wf(),
            self@.state != GameState::BeforeGame ==> self.laid_out() && self.hidden_count()
                == self@.unopened().len(),
    {
    }

    /// A new game with the given size and number of mines. There must be a cell
    /// and a mine, and fewer mines than cells.
    pub fn new(width: Dim, height: Dim, mines: Count) -> (made: Result<Game, ConstructionError>)
        ensures
            match setup_error(width, height, mines) {
                Some(error) => made == Err::<Game, ConstructionError>(error),
                None => made is Ok && made->Ok_0.wf() && made->Ok_0@ == Board::fresh(
                    width as nat,
                    height as nat,
                    mines as nat,
                ) && made->Ok_0.hidden_count() == width * height,
            },
    {
        match check_setup(width, height, mines) {
            Some(error) => Err(error),
            None => {
                assert(width * height <= 65025) by (nonlinear_arith)
                    requires
                        width <= 255,
                        height <= 255,
                ;
                let game = Game {
                    grid: GameGrid::new(),
                    game_state: GameState::BeforeGame,
                    width,
                    height,
                    flags: 0,
                    hidden: width as Count * height as Count,
                    total_mines: mines,
                };
                proof {
                    lemma_fresh_wf(width as nat, height as nat, mines as nat);
                    assert(game@ =~= Board::fresh(width as nat, height as nat, mines as nat));
                }
                Ok(game)
            },
        }
    }

    /// Resets the game and gives it another size and number of mines, which
    /// must be valid as for a new game; if they are not, nothing changes.
    pub fn resize(&mut self, width: Dim, height: Dim, num_mines: Count) -> (done: Result<
        (),
        ConstructionError,
    >)
        requires
            old(self).wf(),
        ensures
            final(self).wf(),
            match setup_error(width, height, num_mines) {
                Some(error) => done == Err::<(), ConstructionError>(error) && *final(self) == *old(
                    self,
                ),
                None => done is Ok && final(self)@ == Board::fresh(
                    width as nat,
                    height as nat,
                    num_mines as nat,
                ),
            },
    {
        match check_setup(width, height, num_mines) {
            Some(error) => Err(error),
            None => {
                self.reset();
                self.width = width;
                self.height = height;
                self.total_mines = num_mines;
                proof {
                    lemma_fresh_wf(width as nat, height as nat, num_mines as nat);
                    assert(self@ =~= Board::fresh(width as nat, height as nat, num_mines as nat));
                }
                Ok(())
            },
        }
    }

    /// Resets the game: it is as a new game of the same size and number of mines.
    pub fn reset(&mut self)
        requires
            old(self).wf(),
        ensures
            final(self).wf(),
            final(self)@ == old(self)@.reset(),
    {
        self.flags = 0;
        self.game_state = GameState::BeforeGame;
        proof {
            lemma_fresh_wf(self.width as nat, self.height as nat, self.total_mines as nat);
            assert(self@ =~= old(self)@.reset());
        }
    }

    /// The width of the grid.
    pub fn width(&self) -> (width: Dim)
        ensures
            width == self@.width,
    {
        self.width
    }

    /// The height of the grid.
    pub fn height(&self) -> (height: Dim)
        ensures
            height == self@.height,
    {
        self.height
    }

    /// The number of mines of the game.
    pub fn total_mines(&self) -> (mines: Count)
        ensures
            mines == self@.total_mines,
    {
        self.total_mines
    }

    /// The number of cells that show a flag.
    pub fn flags(&self) -> (flags: Count)
        ensures
            flags == self@.flags,
    {
        self.flags
    }

    /// The phase of the game.
    pub fn game_state(&self) -> (state: GameState)
        ensures
            state == self@.state,
    {
        self.game_state
    }

    /// What every cell shows, row by row.
    pub fn get_all_images(&self) -> (images: Vec<Vec<CellImage>>)
        requires
            self.wf(),
        ensures
            images@.len() == self@.height,
            forall|r: int| 0 <= r < images@.len() ==> (#[trigger] images@[r])@.len() == self@.width,
            forall|p: Pos| self@.holds(p) ==> images@[p.0 as int]@[p.1 as int] == #[trigger] self@.images[p],
    {
        let mut result: Vec<Vec<CellImage>> = Vec::with_capacity(self.height as usize);
        let mut r: u8 = 0;
        while r < self.height
            invariant
                self.wf(),
                r <= self.height,
                result@.len() == r,
                forall|i: int| 0 <= i < r ==> (#[trigger] result@[i])@.len() == self.width,
                forall|p: Pos|
                    p.0 < r && p.1 < self.width ==> result@[p.0 as int]@[p.1 as int]
                        == #[trigger] self@.images[p],
            decreases self.height - r,
        {
            let mut row: Vec<CellImage> = Vec::with_capacity(self.width as usize);
            let mut c: u8 = 0;
            while c < self.width
                invariant
                    self.wf(),
                    r < self.height,
                    c <= self.width,
                    row@.len() == c,
                    forall|j: u8| j < c ==> row@[j as int] == #[trigger] self@.images[(r, j)],
                decreases self.width - c,
            {
                if self.game_state == GameState::BeforeGame {
                    row.push(CellImage::Hidden);
                } else {
                    row.push(self.grid.get((r, c)).image);
                }
                c += 1;
            }
            result.push(row);
            r += 1;
        }
        result
    }
}

} // verus!
