use minesweeper::layout::{
    get_cell_index, get_display_index, get_display_pieces, get_frame_pieces, get_grid_pieces,
    get_main_window_pieces, Piece, FRAME_PIECES,
};
use minesweeper::seven_segment::Display;

fn frame(x: u16, y: u16, width: u16, height: u16, tex: [u16; 4]) -> Piece {
    Piece {
        x,
        y,
        width,
        height,
        tex_x: tex[0],
        tex_y: tex[1],
        tex_width: tex[2],
        tex_height: tex[3],
        x_offset: 95,
        y_offset: 69,
    }
}

fn digit(x: u16, y: u16, tex_x: u16, tex_y: u16) -> Piece {
    Piece {
        x,
        y,
        width: 13,
        height: 23,
        tex_x,
        tex_y,
        tex_width: 13,
        tex_height: 23,
        x_offset: 64,
        y_offset: 0,
    }
}

#[test]
fn frame_of_ten_by_ten() {
    assert_eq!(
        get_frame_pieces(10, 10),
        vec![
            frame(0, 212, 12, 12, [0, 0, 12, 12]),
            frame(12, 212, 160, 12, [12, 0, 1, 12]),
            frame(172, 212, 8, 12, [13, 0, 8, 12]),
            frame(0, 179, 12, 33, [0, 12, 12, 1]),
            frame(12, 179, 160, 33, [12, 12, 1, 1]),
            frame(172, 179, 8, 33, [13, 12, 8, 1]),
            frame(0, 168, 12, 11, [0, 13, 12, 11]),
            frame(12, 168, 160, 11, [12, 13, 1, 11]),
            frame(172, 168, 8, 11, [13, 13, 8, 11]),
            frame(0, 8, 12, 160, [0, 24, 12, 1]),
            frame(12, 8, 160, 160, [12, 24, 1, 1]),
            frame(172, 8, 8, 160, [13, 24, 8, 1]),
            frame(0, 0, 12, 8, [0, 25, 12, 8]),
            frame(12, 0, 160, 8, [12, 25, 1, 8]),
            frame(172, 0, 8, 8, [13, 25, 8, 8]),
        ]
    );
}

#[test]
fn frame_follows_the_size_of_the_grid() {
    let pieces = get_frame_pieces(30, 16);
    assert_eq!(pieces.len(), FRAME_PIECES);
    assert_eq!(pieces[1], frame(12, 308, 480, 12, [12, 0, 1, 12]));
    assert_eq!(pieces[2], frame(492, 308, 8, 12, [13, 0, 8, 12]));
    assert_eq!(pieces[9], frame(0, 8, 12, 256, [0, 24, 12, 1]));
    assert_eq!(pieces[14], frame(492, 0, 8, 8, [13, 25, 8, 8]));
    let pieces = get_frame_pieces(255, 255);
    assert_eq!(pieces[2], frame(4092, 4132, 8, 12, [13, 0, 8, 12]));
    assert_eq!(pieces[10], frame(12, 8, 4080, 4080, [12, 24, 1, 1]));
}

#[test]
fn displays_of_ten_by_ten() {
    assert_eq!(
        get_display_pieces(10, 10, 20),
        vec![
            digit(16, 184, 26, 46),
            digit(29, 184, 26, 0),
            digit(42, 184, 0, 0),
            digit(129, 184, 26, 46),
            digit(142, 184, 26, 46),
            digit(155, 184, 0, 0),
        ]
    );
}

#[test]
fn displays_show_the_number_of_mines() {
    let pieces = get_display_pieces(30, 16, 345);
    assert_eq!(pieces[0], digit(16, 280, 39, 0));
    assert_eq!(pieces[1], digit(29, 280, 0, 23));
    assert_eq!(pieces[2], digit(42, 280, 13, 23));
    assert_eq!(pieces[3], digit(449, 280, 26, 46));
    assert_eq!(pieces[5], digit(475, 280, 0, 0));
    let pieces = get_display_pieces(2, 1, 65535);
    assert_eq!(pieces[0], digit(16, 40, 13, 46));
    assert_eq!(pieces[3], digit(1, 40, 26, 46));
}

#[test]
fn cells_of_a_small_grid() {
    let pieces = get_grid_pieces(3, 2);
    assert_eq!(pieces.len(), 6);
    for row in 0..2u16 {
        for col in 0..3u16 {
            assert_eq!(
                pieces[(col + row * 3) as usize],
                Piece {
                    x: 12 + 16 * col,
                    y: 8 + 16 * row,
                    width: 16,
                    height: 16,
                    tex_x: 0,
                    tex_y: 48,
                    tex_width: 16,
                    tex_height: 16,
                    x_offset: 0,
                    y_offset: 0,
                }
            );
        }
    }
    assert_eq!(get_grid_pieces(0, 5), vec![]);
    assert_eq!(get_grid_pieces(5, 0), vec![]);
    assert_eq!(get_grid_pieces(255, 255).len(), 65025);
}

#[test]
fn all_pieces_in_their_order() {
    let pieces = get_main_window_pieces(10, 10, 20);
    assert_eq!(pieces.len(), 121);
    assert_eq!(pieces[..15].to_vec(), get_frame_pieces(10, 10));
    assert_eq!(pieces[15..21].to_vec(), get_display_pieces(10, 10, 20));
    assert_eq!(pieces[21..].to_vec(), get_grid_pieces(10, 10));
    assert_eq!(pieces[get_display_index(Display::MinesUnflagged, 1)], digit(29, 184, 26, 0));
    assert_eq!(pieces[get_display_index(Display::Timer, 2)], digit(155, 184, 0, 0));
    let cell = pieces[get_cell_index((7, 3), 10)];
    assert_eq!((cell.x, cell.y), (60, 120));
}

#[test]
fn places_in_the_list_of_pieces() {
    assert_eq!(get_display_index(Display::MinesUnflagged, 0), 15);
    assert_eq!(get_display_index(Display::MinesUnflagged, 2), 17);
    assert_eq!(get_display_index(Display::Timer, 0), 18);
    assert_eq!(get_display_index(Display::Timer, 2), 20);
    assert_eq!(get_cell_index((0, 0), 10), 21);
    assert_eq!(get_cell_index((0, 9), 10), 30);
    assert_eq!(get_cell_index((1, 0), 10), 31);
    assert_eq!(get_cell_index((9, 9), 10), 120);
    assert_eq!(get_cell_index((2, 1), 3), 28);
    assert_eq!(get_cell_index((254, 254), 255), 21 + 65024);
}
