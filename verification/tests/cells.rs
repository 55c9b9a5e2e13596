use minesweeper::grid::{Cell, GameGrid};
use minesweeper::layout::{
    get_cell_tex_coords_new, get_total_pixel_height, get_total_pixel_width, CELL_LENGTH,
};
use minesweeper::CellImage;

#[test]
fn from_number_gives_each_numeral() {
    assert_eq!(CellImage::from_number(0), CellImage::Zero);
    assert_eq!(CellImage::from_number(1), CellImage::One);
    assert_eq!(CellImage::from_number(2), CellImage::Two);
    assert_eq!(CellImage::from_number(3), CellImage::Three);
    assert_eq!(CellImage::from_number(4), CellImage::Four);
    assert_eq!(CellImage::from_number(5), CellImage::Five);
    assert_eq!(CellImage::from_number(6), CellImage::Six);
    assert_eq!(CellImage::from_number(7), CellImage::Seven);
    assert_eq!(CellImage::from_number(8), CellImage::Eight);
}

#[test]
fn covered_images_are_not_shown() {
    assert!(!CellImage::Hidden.shown());
    assert!(!CellImage::Flagged.shown());
    assert!(!CellImage::QuestionMarked.shown());
}

#[test]
fn uncovered_images_are_shown() {
    for number in 0..=8u8 {
        assert!(CellImage::from_number(number).shown());
    }
    assert!(CellImage::Mine.shown());
    assert!(CellImage::SelectedMine.shown());
    assert!(CellImage::WronglyFlagged.shown());
}

#[test]
fn new_grid_has_no_cells() {
    let grid = GameGrid::new();
    assert_eq!(grid.height(), 0);
    assert_eq!(grid.width(), 0);
}

#[test]
fn resized_grid_is_blank() {
    let mut grid = GameGrid::new();
    grid.resize(4, 3);
    assert_eq!(grid.width(), 4);
    assert_eq!(grid.height(), 3);
    for row in 0..3u8 {
        for col in 0..4u8 {
            let cell = grid.get((row, col));
            assert_eq!(cell.image, CellImage::Hidden);
            assert!(!cell.mine);
        }
    }
}

#[test]
fn resize_to_the_same_size_clears_the_cells() {
    let mut grid = GameGrid::new();
    grid.resize(4, 3);
    *grid.get_mut((2, 1)) = Cell { image: CellImage::Flagged, mine: true };
    *grid.get_mut((0, 0)) = Cell { image: CellImage::Three, mine: true };
    grid.resize(4, 3);
    assert_eq!(grid.width(), 4);
    assert_eq!(grid.height(), 3);
    for row in 0..3u8 {
        for col in 0..4u8 {
            assert_eq!(grid.get((row, col)).image, CellImage::Hidden);
            assert!(!grid.get((row, col)).mine);
        }
    }
}

#[test]
fn resize_to_another_size_clears_the_cells() {
    let mut grid = GameGrid::new();
    grid.resize(4, 3);
    *grid.get_mut((2, 1)) = Cell { image: CellImage::Flagged, mine: true };
    grid.resize(3, 4);
    assert_eq!(grid.width(), 3);
    assert_eq!(grid.height(), 4);
    assert_eq!(grid.get((2, 1)).image, CellImage::Hidden);
    assert!(!grid.get((2, 1)).mine);
    grid.get_mut((3, 2)).mine = true;
    grid.resize(3, 5);
    assert!(!grid.get((3, 2)).mine);
}

#[test]
fn grid_without_rows_has_no_width() {
    let mut grid = GameGrid::new();
    grid.resize(5, 0);
    assert_eq!(grid.height(), 0);
    assert_eq!(grid.width(), 0);
}

#[test]
fn get_mut_changes_one_cell_only() {
    let mut grid = GameGrid::new();
    grid.resize(3, 3);
    grid.get_mut((1, 2)).image = CellImage::Five;
    grid.get_mut((1, 2)).mine = true;
    for row in 0..3u8 {
        for col in 0..3u8 {
            let cell = grid.get((row, col));
            if (row, col) == (1, 2) {
                assert_eq!(cell.image, CellImage::Five);
                assert!(cell.mine);
            } else {
                assert_eq!(cell.image, CellImage::Hidden);
                assert!(!cell.mine);
            }
        }
    }
}

#[test]
fn picture_measures() {
    assert_eq!(get_total_pixel_width(10), 180);
    assert_eq!(get_total_pixel_height(10), 224);
    assert_eq!(get_total_pixel_width(0), 20);
    assert_eq!(get_total_pixel_height(0), 64);
    assert_eq!(get_total_pixel_width(255), 4100);
    assert_eq!(get_total_pixel_height(255), 4144);
    assert_eq!(CELL_LENGTH, 16);
}

#[test]
fn cell_images_in_the_picture() {
    assert_eq!(get_cell_tex_coords_new(&CellImage::Zero), [0, 0]);
    assert_eq!(get_cell_tex_coords_new(&CellImage::One), [16, 0]);
    assert_eq!(get_cell_tex_coords_new(&CellImage::Two), [32, 0]);
    assert_eq!(get_cell_tex_coords_new(&CellImage::Three), [48, 0]);
    assert_eq!(get_cell_tex_coords_new(&CellImage::Four), [0, 16]);
    assert_eq!(get_cell_tex_coords_new(&CellImage::Five), [16, 16]);
    assert_eq!(get_cell_tex_coords_new(&CellImage::Six), [32, 16]);
    assert_eq!(get_cell_tex_coords_new(&CellImage::Seven), [48, 16]);
    assert_eq!(get_cell_tex_coords_new(&CellImage::Eight), [0, 32]);
    assert_eq!(get_cell_tex_coords_new(&CellImage::Mine), [16, 32]);
    assert_eq!(get_cell_tex_coords_new(&CellImage::WronglyFlagged), [32, 32]);
    assert_eq!(get_cell_tex_coords_new(&CellImage::SelectedMine), [48, 32]);
    assert_eq!(get_cell_tex_coords_new(&CellImage::Hidden), [0, 48]);
    assert_eq!(get_cell_tex_coords_new(&CellImage::Flagged), [0, 64]);
    assert_eq!(get_cell_tex_coords_new(&CellImage::QuestionMarked), [0, 80]);
}
