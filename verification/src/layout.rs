//! The measures of the picture of a game, in pixels: the frame around the
//! grid, the cells, and where the image of a cell lies in the picture that
//! holds them all.

use vstd::prelude::*;
use crate::cell::{CellImage, Count, Dim, Pos};
use crate::seven_segment::{
    get_texture_coords, shown, Display, DIGITS_PER_DISPLAY, DIGIT_HEIGHT, DIGIT_WIDTH,
};

verus! {

/// The length of the side of a cell.
pub const CELL_LENGTH: u16 = 16;

/// The width of the frame left of the grid.
pub const FRAME_LEFT: u16 = 12;

/// The width of the frame right of the grid.
pub const FRAME_RIGHT: u16 = 8;

/// The height of the frame below the grid.
pub const FRAME_BELOW: u16 = 8;

/// The height of the frame between the grid and the displays.
pub const FRAME_BETWEEN: u16 = 11;

/// The height of the band that holds the displays.
pub const FRAME_DISPLAYS: u16 = 33;

/// The height of the frame above the displays.
pub const FRAME_ABOVE: u16 = 12;

/// The place of a cell image in the picture of all cell images, which holds
/// them in rows of four: the numbers in their order, the mine, the wrong flag
/// and the clicked mine, and then, each at the start of a row of its own, the
/// hidden cell, the flag and the question mark.
pub open spec fn cell_slot(image: CellImage) -> nat {
    match image {
        CellImage::Zero => 0,
        CellImage::One => 1,
        CellImage::Two => 2,
        CellImage::Three => 3,
        CellImage::Four => 4,
        CellImage::Five => 5,
        CellImage::Six => 6,
        CellImage::Seven => 7,
        CellImage::Eight => 8,
        CellImage::Mine => 9,
        CellImage::WronglyFlagged => 10,
        CellImage::SelectedMine => 11,
        CellImage::Hidden => 12,
        CellImage::Flagged => 16,
        CellImage::QuestionMarked => 20,
    }
}

/// The width of the picture of a game whose grid is `width` cells wide.
pub fn get_total_pixel_width(width: Dim) -> (pixels: u16)
    ensures
        pixels == width * CELL_LENGTH + FRAME_LEFT + FRAME_RIGHT,
{
    width as u16 * CELL_LENGTH + (FRAME_LEFT + FRAME_RIGHT)
}

/// The height of the picture of a game whose grid is `height` cells high.
pub fn get_total_pixel_height(height: Dim) -> (pixels: u16)
    ensures
        pixels == height * CELL_LENGTH + FRAME_BELOW + FRAME_BETWEEN + FRAME_DISPLAYS
            + FRAME_ABOVE,
{
    height as u16 * CELL_LENGTH + (FRAME_BELOW + FRAME_BETWEEN + FRAME_DISPLAYS + FRAME_ABOVE)
}

/// Where the image of a cell lies in the picture of all cell images: the pixel
/// column and row of its upper left corner.
pub fn get_cell_tex_coords_new(image: &CellImage) -> (coords: [u16; 2])
    ensures
        coords@[0] == (cell_slot(*image) % 4) * CELL_LENGTH,
        coords@[1] == (cell_slot(*image) / 4) * CELL_LENGTH,
{
    match image {
        CellImage::Zero => [0 * CELL_LENGTH, 0 * CELL_LENGTH],
        CellImage::One => [1 * CELL_LENGTH, 0 * CELL_LENGTH],
        CellImage::Two => [2 * CELL_LENGTH, 0 * CELL_LENGTH],
        CellImage::Three => [3 * CELL_LENGTH, 0 * CELL_LENGTH],
        CellImage::Four => [0 * CELL_LENGTH, 1 * CELL_LENGTH],
        CellImage::Five => [1 * CELL_LENGTH, 1 * CELL_LENGTH],
        CellImage::Six => [2 * CELL_LENGTH, 1 * CELL_LENGTH],
        CellImage::Seven => [3 * CELL_LENGTH, 1 * CELL_LENGTH],
        CellImage::Eight => [0 * CELL_LENGTH, 2 * CELL_LENGTH],
        CellImage::Mine => [1 * CELL_LENGTH, 2 * CELL_LENGTH],
        CellImage::WronglyFlagged => [2 * CELL_LENGTH, 2 * CELL_LENGTH],
        CellImage::SelectedMine => [3 * CELL_LENGTH, 2 * CELL_LENGTH],
        CellImage::Hidden => [0, 3 * CELL_LENGTH],
        CellImage::Flagged => [0, 4 * CELL_LENGTH],
        CellImage::QuestionMarked => [0, 5 * CELL_LENGTH],
    }
}

/// How far the displays stand from the band that holds them, above and below.
pub const DISPLAY_OFFSET_Y: u16 = 5;

/// How far the displays stand from the sides of the frame.
pub const DISPLAY_OFFSET_X: u16 = 4;

/// The number of pieces that the frame is drawn with: five rows of three.
pub const FRAME_PIECES: usize = 15;

/// One rectangle of the picture of a game: where it stands in the picture and
/// how large it is there, and which rectangle of the picture of all images it
/// shows. The picture of a game is measured from its lower left corner, in
/// pixels.
#[derive(Clone, Copy, Debug, PartialEq, Eq, Structural)]
pub struct Piece {
    pub x: u16,
    pub y: u16,
    pub width: u16,
    pub height: u16,
    pub tex_x: u16,
    pub tex_y: u16,
    pub tex_width: u16,
    pub tex_height: u16,
    /// How far the images of this kind of piece lie from the left edge of the
    /// picture of all images.
    pub x_offset: u16,
    /// How far they lie from its upper edge.
    pub y_offset: u16,
}

/// The piece in column `col` of row `row` of the frame, rows counted from the
/// top, around a grid of `width` by `height` cells. The middle column is as
/// wide as the grid and the fourth row as high; their images are one pixel
/// wide or high and are stretched.
pub open spec fn frame_piece(row: int, col: int, width: int, height: int) -> Piece {
    let across = CELL_LENGTH * width;
    let up = CELL_LENGTH * height;
    Piece {
        x: (if col == 0 {
            0
        } else if col == 1 {
            FRAME_LEFT as int
        } else {
            FRAME_LEFT + across
        }) as u16,
        y: (if row == 0 {
            FRAME_BELOW + up + FRAME_BETWEEN + FRAME_DISPLAYS
        } else if row == 1 {
            FRAME_BELOW + up + FRAME_BETWEEN
        } else if row == 2 {
            FRAME_BELOW + up
        } else if row == 3 {
            FRAME_BELOW as int
        } else {
            0
        }) as u16,
        width: (if col == 0 {
            FRAME_LEFT as int
        } else if col == 1 {
            across
        } else {
            FRAME_RIGHT as int
        }) as u16,
        height: (if row == 0 {
            FRAME_ABOVE as int
        } else if row == 1 {
            FRAME_DISPLAYS as int
        } else if row == 2 {
            FRAME_BETWEEN as int
        } else if row == 3 {
            up
        } else {
            FRAME_BELOW as int
        }) as u16,
        tex_x: (if col == 0 {
            0
        } else if col == 1 {
            FRAME_LEFT as int
        } else {
            FRAME_LEFT + 1
        }) as u16,
        tex_y: (if row == 0 {
            0
        } else if row == 1 {
            FRAME_ABOVE as int
        } else if row == 2 {
            FRAME_ABOVE + 1
        } else if row == 3 {
            FRAME_ABOVE + 1 + FRAME_BETWEEN
        } else {
            FRAME_ABOVE + 1 + FRAME_BETWEEN + 1
        }) as u16,
        tex_width: (if col == 0 {
            FRAME_LEFT as int
        } else if col == 1 {
            1
        } else {
            FRAME_RIGHT as int
        }) as u16,
        tex_height: (if row == 0 {
            FRAME_ABOVE as int
        } else if row == 1 {
            1
        } else if row == 2 {
            FRAME_BETWEEN as int
        } else if row == 3 {
            1
        } else {
            FRAME_BELOW as int
        }) as u16,
        x_offset: 95,
        y_offset: 69,
    }
}

/// The piece of place `place`, from the left, of a display that shows `val`.
/// The display of the mines stands at the left of the band above the grid, the
/// timer at the right.
pub open spec fn display_piece(display: Display, place: int, val: int, width: int, height: int) -> Piece {
    let left = match display {
        Display::MinesUnflagged => FRAME_LEFT + DISPLAY_OFFSET_X,
        Display::Timer => FRAME_LEFT + CELL_LENGTH * width - DISPLAY_OFFSET_X - DIGITS_PER_DISPLAY
            * DIGIT_WIDTH,
    };
    Piece {
        x: (left + DIGIT_WIDTH * place) as u16,
        y: (FRAME_BELOW + CELL_LENGTH * height + FRAME_BETWEEN + DISPLAY_OFFSET_Y) as u16,
        width: DIGIT_WIDTH,
        height: DIGIT_HEIGHT,
        tex_x: ((shown(val)[place].slot() % 4) * DIGIT_WIDTH) as u16,
        tex_y: ((shown(val)[place].slot() / 4) * DIGIT_HEIGHT) as u16,
        tex_width: DIGIT_WIDTH,
        tex_height: DIGIT_HEIGHT,
        x_offset: 64,
        y_offset: 0,
    }
}

/// The piece of the cell at `pos`, which shows `image`. Row 0 is the lowest row
/// of the picture.
pub open spec fn cell_piece(pos: Pos, image: CellImage) -> Piece {
    Piece {
        x: (FRAME_LEFT + pos.1 * CELL_LENGTH) as u16,
        y: (FRAME_BELOW + pos.0 * CELL_LENGTH) as u16,
        width: CELL_LENGTH,
        height: CELL_LENGTH,
        tex_x: ((cell_slot(image) % 4) * CELL_LENGTH) as u16,
        tex_y: ((cell_slot(image) / 4) * CELL_LENGTH) as u16,
        tex_width: CELL_LENGTH,
        tex_height: CELL_LENGTH,
        x_offset: 0,
        y_offset: 0,
    }
}

/// Where the piece of place `place` of a display stands in the list of pieces.
pub open spec fn display_index(display: Display, place: int) -> int {
    FRAME_PIECES + place + match display {
        Display::MinesUnflagged => 0,
        Display::Timer => DIGITS_PER_DISPLAY as int,
    }
}

/// Where the piece of the cell at `pos` stands in the list of pieces of a game
/// whose grid is `width` cells wide.
pub open spec fn cell_index(pos: Pos, width: int) -> int {
    FRAME_PIECES + 2 * DIGITS_PER_DISPLAY + pos.1 + pos.0 * width
}

/// Where the piece of place `place` of a display stands in the list of pieces.
pub fn get_display_index(display: Display, place: usize) -> (index: usize)
    requires
        place < DIGITS_PER_DISPLAY,
    ensures
        index == display_index(display, place as int),
{
    let offset = match display {
        Display::MinesUnflagged => 0,
        Display::Timer => DIGITS_PER_DISPLAY,
    };
    FRAME_PIECES + place + offset
}

/// Where the piece of the cell at `pos` stands in the list of pieces of a game
/// whose grid is `grid_width` cells wide.
pub fn get_cell_index(pos: Pos, grid_width: Dim) -> (index: usize)
    ensures
        index == cell_index(pos, grid_width as int),
{
    assert(pos.0 * grid_width <= 65025) by (nonlinear_arith)
        requires
            pos.0 <= 255,
            grid_width <= 255,
    ;
    6 + 15 + (pos.1 as usize + pos.0 as usize * grid_width as usize)
}

/// The pieces of the frame around a grid of `grid_width` by `grid_height`
/// cells, row by row from the top.
pub fn get_frame_pieces(grid_width: Dim, grid_height: Dim) -> (pieces: Vec<Piece>)
    ensures
        pieces@.len() == FRAME_PIECES,
        forall|row: int, col: int|
            0 <= row < 5 && 0 <= col < 3 ==> #[trigger] pieces@[3 * row + col] == frame_piece(
                row,
                col,
                grid_width as int,
                grid_height as int,
            ),
{
    let across = CELL_LENGTH * grid_width as u16;
    let up = CELL_LENGTH * grid_height as u16;
    let vtx: [u16; 3] = [0, FRAME_LEFT, FRAME_LEFT + across];
    let vty: [u16; 5] = [
        FRAME_BELOW + up + FRAME_BETWEEN + FRAME_DISPLAYS,
        FRAME_BELOW + up + FRAME_BETWEEN,
        FRAME_BELOW + up,
        FRAME_BELOW,
        0,
    ];
    let vsx: [u16; 3] = [FRAME_LEFT, across, FRAME_RIGHT];
    let vsy: [u16; 5] = [FRAME_ABOVE, FRAME_DISPLAYS, FRAME_BETWEEN, up, FRAME_BELOW];
    let ttx: [u16; 3] = [0, FRAME_LEFT, FRAME_LEFT + 1];
    let tty: [u16; 5] = [
        0,
        FRAME_ABOVE,
        FRAME_ABOVE + 1,
        FRAME_ABOVE + 1 + FRAME_BETWEEN,
        FRAME_ABOVE + 1 + FRAME_BETWEEN + 1,
    ];
    let tsx: [u16; 3] = [FRAME_LEFT, 1, FRAME_RIGHT];
    let tsy: [u16; 5] = [FRAME_ABOVE, 1, FRAME_BETWEEN, 1, FRAME_BELOW];
    let mut pieces: Vec<Piece> = Vec::with_capacity(FRAME_PIECES);
    let mut row: usize = 0;
    while row < 5
        invariant
            row <= 5,
            pieces@.len() == 3 * row,
            forall|r: int, c: int|
                0 <= r < 5 && 0 <= c < 3 ==> frame_piece(r, c, grid_width as int, grid_height as int)
                    == (Piece {
                    x: vtx@[c],
                    y: vty@[r],
                    width: vsx@[c],
                    height: vsy@[r],
                    tex_x: ttx@[c],
                    tex_y: tty@[r],
                    tex_width: tsx@[c],
                    tex_height: tsy@[r],
                    x_offset: 95,
                    y_offset: 69,
                }),
            forall|r: int, c: int|
                0 <= r < row && 0 <= c < 3 ==> #[trigger] pieces@[3 * r + c] == frame_piece(
                    r,
                    c,
                    grid_width as int,
                    grid_height as int,
                ),
        decreases 5 - row,
    {
        let mut col: usize = 0;
        while col < 3
            invariant
                row < 5,
                col <= 3,
                pieces@.len() == 3 * row + col,
                forall|r: int, c: int|
                    0 <= r < 5 && 0 <= c < 3 ==> frame_piece(
                        r,
                        c,
                        grid_width as int,
                        grid_height as int,
                    ) == (Piece {
                        x: vtx@[c],
                        y: vty@[r],
                        width: vsx@[c],
                        height: vsy@[r],
                        tex_x: ttx@[c],
                        tex_y: tty@[r],
                        tex_width: tsx@[c],
                        tex_height: tsy@[r],
                        x_offset: 95,
                        y_offset: 69,
                    }),
                forall|r: int, c: int|
                    (0 <= r < row && 0 <= c < 3) || (r == row && 0 <= c < col)
                        ==> #[trigger] pieces@[3 * r + c] == frame_piece(
                        r,
                        c,
                        grid_width as int,
                        grid_height as int,
                    ),
            decreases 3 - col,
        {
            pieces.push(
                Piece {
                    x: vtx[col],
                    y: vty[row],
                    width: vsx[col],
                    height: vsy[row],
                    tex_x: ttx[col],
                    tex_y: tty[row],
                    tex_width: tsx[col],
                    tex_height: tsy[row],
                    x_offset: 95,
                    y_offset: 69,
                },
            );
            col += 1;
        }
        row += 1;
    }
    pieces
}

/// The pieces of the two displays on a grid of `grid_width` by `grid_height`
/// cells, the grid at least two cells wide: first the display of the mines,
/// which shows `mines`, then the timer, which shows 0.
pub fn get_display_pieces(grid_width: Dim, grid_height: Dim, mines: Count) -> (pieces: Vec<Piece>)
    requires
        grid_width >= 2,
    ensures
        pieces@.len() == 2 * DIGITS_PER_DISPLAY,
        forall|place: int|
            0 <= place < 3 ==> #[trigger] pieces@[place] == display_piece(
                Display::MinesUnflagged,
                place,
                mines as int,
                grid_width as int,
                grid_height as int,
            ),
        forall|place: int|
            0 <= place < 3 ==> #[trigger] pieces@[3 + place] == display_piece(
                Display::Timer,
                place,
                0,
                grid_width as int,
                grid_height as int,
            ),
{
    let mines_left_digits = get_texture_coords(mines as i32);
    let timer_digits = get_texture_coords(0);
    let y = FRAME_BELOW + CELL_LENGTH * grid_height as u16 + FRAME_BETWEEN + DISPLAY_OFFSET_Y;
    let left_side_xs: [u16; 2] = [
        FRAME_LEFT + DISPLAY_OFFSET_X,
        FRAME_LEFT + CELL_LENGTH * grid_width as u16 - DISPLAY_OFFSET_X - 3 * DIGIT_WIDTH,
    ];
    let mut pieces: Vec<Piece> = Vec::with_capacity(DIGITS_PER_DISPLAY * 2);
    let mut side: usize = 0;
    while side < 2
        invariant
            side <= 2,
            grid_width >= 2,
            pieces@.len() == 3 * side,
            y == FRAME_BELOW + CELL_LENGTH * grid_height + FRAME_BETWEEN + DISPLAY_OFFSET_Y,
            left_side_xs@[0] == FRAME_LEFT + DISPLAY_OFFSET_X,
            left_side_xs@[1] == FRAME_LEFT + CELL_LENGTH * grid_width - DISPLAY_OFFSET_X - 3
                * DIGIT_WIDTH,
            forall|place: int|
                0 <= place < 3 ==> (#[trigger] mines_left_digits@[place])@[0] == (shown(
                    mines as int,
                )[place].slot() % 4) * DIGIT_WIDTH && mines_left_digits@[place]@[1] == (shown(
                    mines as int,
                )[place].slot() / 4) * DIGIT_HEIGHT,
            forall|place: int|
                0 <= place < 3 ==> (#[trigger] timer_digits@[place])@[0] == (shown(0)[place].slot()
                    % 4) * DIGIT_WIDTH && timer_digits@[place]@[1] == (shown(0)[place].slot() / 4)
                    * DIGIT_HEIGHT,
            forall|place: int|
                0 <= place < 3 && side >= 1 ==> #[trigger] pieces@[place] == display_piece(
                    Display::MinesUnflagged,
                    place,
                    mines as int,
                    grid_width as int,
                    grid_height as int,
                ),
            forall|place: int|
                0 <= place < 3 && side >= 2 ==> #[trigger] pieces@[3 + place] == display_piece(
                    Display::Timer,
                    place,
                    0,
                    grid_width as int,
                    grid_height as int,
                ),
        decreases 2 - side,
    {
        let left_side_x = left_side_xs[side];
        let mut digit: usize = 0;
        while digit < DIGITS_PER_DISPLAY
            invariant
                side < 2,
                digit <= 3,
                grid_width >= 2,
                pieces@.len() == 3 * side + digit,
                left_side_x == left_side_xs@[side as int],
                y == FRAME_BELOW + CELL_LENGTH * grid_height + FRAME_BETWEEN + DISPLAY_OFFSET_Y,
                left_side_xs@[0] == FRAME_LEFT + DISPLAY_OFFSET_X,
                left_side_xs@[1] == FRAME_LEFT + CELL_LENGTH * grid_width - DISPLAY_OFFSET_X - 3
                    * DIGIT_WIDTH,
                forall|place: int|
                    0 <= place < 3 ==> (#[trigger] mines_left_digits@[place])@[0] == (shown(
                        mines as int,
                    )[place].slot() % 4) * DIGIT_WIDTH && mines_left_digits@[place]@[1] == (shown(
                        mines as int,
                    )[place].slot() / 4) * DIGIT_HEIGHT,
                forall|place: int|
                    0 <= place < 3 ==> (#[trigger] timer_digits@[place])@[0] == (shown(
                        0,
                    )[place].slot() % 4) * DIGIT_WIDTH && timer_digits@[place]@[1] == (shown(
                        0,
                    )[place].slot() / 4) * DIGIT_HEIGHT,
                forall|place: int|
                    0 <= place < 3 && (side >= 1 || place < digit) ==> #[trigger] pieces@[place]
                        == display_piece(
                        Display::MinesUnflagged,
                        place,
                        mines as int,
                        grid_width as int,
                        grid_height as int,
                    ),
                forall|place: int|
                    0 <= place < 3 && side == 1 && place < digit ==> #[trigger] pieces@[3 + place]
                        == display_piece(
                        Display::Timer,
                        place,
                        0,
                        grid_width as int,
                        grid_height as int,
                    ),
            decreases 3 - digit,
        {
            let coords = if side == 0 {
                mines_left_digits[digit]
            } else {
                timer_digits[digit]
            };
            pieces.push(
                Piece {
                    x: left_side_x + DIGIT_WIDTH * digit as u16,
                    y,
                    width: DIGIT_WIDTH,
                    height: DIGIT_HEIGHT,
                    tex_x: coords[0],
                    tex_y: coords[1],
                    tex_width: 13,
                    tex_height: 23,
                    x_offset: 64,
                    y_offset: 0,
                },
            );
            digit += 1;
        }
        side += 1;
    }
    pieces
}

/// The pieces of the cells of a grid of `grid_width` by `grid_height` cells, row
/// by row, each showing `Hidden`.
pub fn get_grid_pieces(grid_width: Dim, grid_height: Dim) -> (pieces: Vec<Piece>)
    ensures
        pieces@.len() == grid_width * grid_height,
        forall|pos: Pos|
            pos.0 < grid_height && pos.1 < grid_width ==> pieces@[pos.1 + pos.0 * grid_width]
                == #[trigger] cell_piece(pos, CellImage::Hidden),
{
    let tex_coord_translation = get_cell_tex_coords_new(&CellImage::Hidden);
    let mut pieces: Vec<Piece> = Vec::new();
    let mut row: u8 = 0;
    while row < grid_height
        invariant
            row <= grid_height,
            pieces@.len() == row * grid_width,
            tex_coord_translation@[0] == (cell_slot(CellImage::Hidden) % 4) * CELL_LENGTH,
            tex_coord_translation@[1] == (cell_slot(CellImage::Hidden) / 4) * CELL_LENGTH,
            forall|pos: Pos|
                pos.0 < row && pos.1 < grid_width ==> pieces@[pos.1 + pos.0 * grid_width]
                    == #[trigger] cell_piece(pos, CellImage::Hidden),
        decreases grid_height - row,
    {
        let mut col: u8 = 0;
        while col < grid_width
            invariant
                row < grid_height,
                col <= grid_width,
                pieces@.len() == row * grid_width + col,
                tex_coord_translation@[0] == (cell_slot(CellImage::Hidden) % 4) * CELL_LENGTH,
                tex_coord_translation@[1] == (cell_slot(CellImage::Hidden) / 4) * CELL_LENGTH,
                forall|pos: Pos|
                    (pos.0 < row && pos.1 < grid_width) || (pos.0 == row && pos.1 < col)
                        ==> pieces@[pos.1 + pos.0 * grid_width] == #[trigger] cell_piece(
                        pos,
                        CellImage::Hidden,
                    ),
            decreases grid_width - col,
        {
            proof {
                lemma_cell_order(row as int, col as int, grid_width as int);
            }
            pieces.push(
                Piece {
                    x: FRAME_LEFT + col as u16 * CELL_LENGTH,
                    y: FRAME_BELOW + row as u16 * CELL_LENGTH,
                    width: CELL_LENGTH,
                    height: CELL_LENGTH,
                    tex_x: tex_coord_translation[0],
                    tex_y: tex_coord_translation[1],
                    tex_width: CELL_LENGTH,
                    tex_height: CELL_LENGTH,
                    x_offset: 0,
                    y_offset: 0,
                },
            );
            col += 1;
        }
        proof {
            assert(row * grid_width + grid_width == (row + 1) * grid_width) by (nonlinear_arith);
        }
        row += 1;
    }
    pieces
}

/// Cells read row by row stand in the list in that order: a cell of an earlier
/// row, or of the same row and an earlier column, stands before the cell in
/// column `col` of row `row`.
proof fn lemma_cell_order(row: int, col: int, width: int)
    requires
        0 <= row,
        0 <= col < width,
    ensures
        forall|r: int, c: int|
            (0 <= r < row && 0 <= c < width) || (r == row && 0 <= c < col) ==> 0 <= #[trigger] (c
                + r * width) < col + row * width,
{
    assert forall|r: int, c: int|
        (0 <= r < row && 0 <= c < width) || (r == row && 0 <= c < col) implies 0 <= #[trigger] (c
        + r * width) < col + row * width by {
        if r < row {
            assert(r * width + width <= row * width) by (nonlinear_arith)
                requires
                    r + 1 <= row,
                    width >= 0,
            ;
            assert(r * width >= 0) by (nonlinear_arith)
                requires
                    r >= 0,
                    width >= 0,
            ;
        }
    }
}

/// All the pieces of the picture of a new game on a grid of `grid_width` by
/// `grid_height` cells, at least two cells wide, with `mines` mines: the frame,
/// the two displays, and the cells.
pub fn get_main_window_pieces(grid_width: Dim, grid_height: Dim, mines: Count) -> (pieces: Vec<
    Piece,
>)
    requires
        grid_width >= 2,
    ensures
        pieces@.len() == FRAME_PIECES + 2 * DIGITS_PER_DISPLAY + grid_width * grid_height,
        forall|row: int, col: int|
            0 <= row < 5 && 0 <= col < 3 ==> #[trigger] pieces@[3 * row + col] == frame_piece(
                row,
                col,
                grid_width as int,
                grid_height as int,
            ),
        forall|place: int|
            0 <= place < 3 ==> pieces@[display_index(Display::MinesUnflagged, place)]
                == #[trigger] display_piece(
                Display::MinesUnflagged,
                place,
                mines as int,
                grid_width as int,
                grid_height as int,
            ),
        forall|place: int|
            0 <= place < 3 ==> pieces@[display_index(Display::Timer, place)]
                == #[trigger] display_piece(
                Display::Timer,
                place,
                0,
                grid_width as int,
                grid_height as int,
            ),
        forall|pos: Pos|
            pos.0 < grid_height && pos.1 < grid_width ==> pieces@[cell_index(
                pos,
                grid_width as int,
            )] == #[trigger] cell_piece(pos, CellImage::Hidden),
{
    let mut pieces = get_frame_pieces(grid_width, grid_height);
    let ghost frame = pieces@;
    let mut displays = get_display_pieces(grid_width, grid_height, mines);
    let ghost digits = displays@;
    let mut cells = get_grid_pieces(grid_width, grid_height);
    let ghost grid = cells@;
    pieces.append(&mut displays);
    pieces.append(&mut cells);
    proof {
        assert(pieces@ =~= frame + digits + grid);
        assert forall|row: int, col: int| 0 <= row < 5 && 0 <= col < 3 implies #[trigger] pieces@[3
            * row + col] == frame_piece(row, col, grid_width as int, grid_height as int) by {
            assert(pieces@[3 * row + col] == frame[3 * row + col]);
        }
        assert forall|place: int| 0 <= place < 3 implies pieces@[display_index(
            Display::MinesUnflagged,
            place,
        )] == #[trigger] display_piece(
            Display::MinesUnflagged,
            place,
            mines as int,
            grid_width as int,
            grid_height as int,
        ) by {
            assert(pieces@[15 + place] == digits[place]);
        }
        assert forall|place: int| 0 <= place < 3 implies pieces@[display_index(
            Display::Timer,
            place,
        )] == #[trigger] display_piece(
            Display::Timer,
            place,
            0,
            grid_width as int,
            grid_height as int,
        ) by {
            assert(pieces@[18 + place] == digits[3 + place]);
        }
        assert forall|pos: Pos| pos.0 < grid_height && pos.1 < grid_width implies pieces@[cell_index(
            pos,
            grid_width as int,
        )] == #[trigger] cell_piece(pos, CellImage::Hidden) by {
            lemma_cell_order(grid_height as int - 1, grid_width as int - 1, grid_width as int);
            let at = pos.1 + pos.0 * grid_width;
            assert(0 <= at <= (grid_width - 1) + (grid_height - 1) * grid_width);
            assert((grid_width - 1) + (grid_height - 1) * grid_width < grid_width * grid_height)
                by (nonlinear_arith);
            assert(pieces@[21 + at] == grid[at]);
        }
    }
    pieces
}

} // verus!
