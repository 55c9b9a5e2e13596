use minesweeper::placement::is_near;
use minesweeper::random::Scripted;
use minesweeper::{CellImage, Game, GameState, Pos};

fn near(a: Pos, b: Pos) -> bool {
    (a.0 as i16 - b.0 as i16).abs() <= 1 && (a.1 as i16 - b.1 as i16).abs() <= 1
}

/// A game of five by five under way, with mines at (0, 4), (2, 2), (4, 0) and
/// (4, 4), begun by a left click at (0, 0).
fn board() -> Game {
    let mines = [(0u8, 4u8), (2, 2), (4, 0), (4, 4)];
    let mut draws = Vec::new();
    let mut cells_remaining = 21u16;
    for row in 0..5u8 {
        for col in 0..5u8 {
            if !near((0, 0), (row, col)) {
                if mines.contains(&(row, col)) {
                    draws.push(0);
                } else {
                    draws.push(cells_remaining - 1);
                }
                cells_remaining -= 1;
            }
        }
    }
    let mut game = Game::new(5, 5, 4).unwrap();
    let mut source = Scripted::new(draws);
    game.left_click_with((0, 0), &mut source);
    assert_eq!(game.game_state(), GameState::DuringGame);
    game
}

#[test]
fn square_in_the_middle() {
    let game = Game::new(5, 5, 4).unwrap();
    assert_eq!(
        game.get_3x3((2, 2)),
        vec![(1, 1), (1, 2), (1, 3), (2, 1), (2, 2), (2, 3), (3, 1), (3, 2), (3, 3)]
    );
}

#[test]
fn square_at_the_corners() {
    let game = Game::new(5, 4, 4).unwrap();
    assert_eq!(game.get_3x3((0, 0)), vec![(0, 0), (0, 1), (1, 0), (1, 1)]);
    assert_eq!(game.get_3x3((0, 4)), vec![(0, 3), (0, 4), (1, 3), (1, 4)]);
    assert_eq!(game.get_3x3((3, 0)), vec![(2, 0), (2, 1), (3, 0), (3, 1)]);
    assert_eq!(game.get_3x3((3, 4)), vec![(2, 3), (2, 4), (3, 3), (3, 4)]);
}

#[test]
fn square_at_the_edges() {
    let game = Game::new(5, 4, 4).unwrap();
    assert_eq!(game.get_3x3((0, 2)), vec![(0, 1), (0, 2), (0, 3), (1, 1), (1, 2), (1, 3)]);
    assert_eq!(game.get_3x3((2, 0)), vec![(1, 0), (1, 1), (2, 0), (2, 1), (3, 0), (3, 1)]);
    assert_eq!(game.get_3x3((2, 4)), vec![(1, 3), (1, 4), (2, 3), (2, 4), (3, 3), (3, 4)]);
    assert_eq!(game.get_3x3((3, 2)), vec![(2, 1), (2, 2), (2, 3), (3, 1), (3, 2), (3, 3)]);
}

#[test]
fn square_on_narrow_grids() {
    let game = Game::new(1, 4, 2).unwrap();
    assert_eq!(game.get_3x3((0, 0)), vec![(0, 0), (1, 0)]);
    assert_eq!(game.get_3x3((2, 0)), vec![(1, 0), (2, 0), (3, 0)]);
    let game = Game::new(2, 1, 1).unwrap();
    assert_eq!(game.get_3x3((0, 1)), vec![(0, 0), (0, 1)]);
}

#[test]
fn square_on_the_largest_grid() {
    let game = Game::new(255, 255, 100).unwrap();
    assert_eq!(game.get_3x3((254, 254)), vec![(253, 253), (253, 254), (254, 253), (254, 254)]);
    assert_eq!(
        game.get_3x3((254, 0)),
        vec![(253, 0), (253, 1), (254, 0), (254, 1)]
    );
}

#[test]
fn neighbors_are_the_square_with_the_last_in_place_of_the_cell() {
    let game = Game::new(5, 5, 4).unwrap();
    assert_eq!(
        game.get_neighbors((2, 2)),
        vec![(1, 1), (1, 2), (1, 3), (2, 1), (3, 3), (2, 3), (3, 1), (3, 2)]
    );
    assert_eq!(game.get_neighbors((0, 0)), vec![(1, 1), (0, 1), (1, 0)]);
    assert_eq!(game.get_neighbors((4, 4)), vec![(3, 3), (3, 4), (4, 3)]);
    assert_eq!(game.get_neighbors((0, 2)), vec![(0, 1), (1, 3), (0, 3), (1, 1), (1, 2)]);
    assert_eq!(game.get_neighbors((4, 2)), vec![(3, 1), (3, 2), (3, 3), (4, 1), (4, 3)]);
}

#[test]
fn neighbors_on_a_grid_of_one_row() {
    let game = Game::new(3, 1, 1).unwrap();
    assert_eq!(game.get_neighbors((0, 0)), vec![(0, 1)]);
    assert_eq!(game.get_neighbors((0, 1)), vec![(0, 0), (0, 2)]);
    assert_eq!(game.get_neighbors((0, 2)), vec![(0, 1)]);
}

#[test]
fn hidden_neighbors_leave_out_open_and_marked_cells() {
    let mut game = board();
    assert_eq!(game.get_hidden_neighbors((0, 0)), vec![]);
    assert_eq!(game.get_hidden_neighbors((1, 1)), vec![(2, 2)]);
    assert_eq!(game.get_hidden_neighbors((3, 1)), vec![(2, 2), (4, 2), (3, 2), (4, 0), (4, 1)]);
    game.right_click((2, 2));
    game.right_click((4, 1));
    game.left_click((4, 1));
    assert_eq!(game.get_hidden_neighbors((1, 1)), vec![]);
    assert_eq!(game.get_hidden_neighbors((3, 1)), vec![(4, 2), (3, 2), (4, 0)]);
    assert_eq!(
        game.get_hidden_neighbors((3, 3)),
        vec![(2, 3), (2, 4), (3, 2), (4, 4), (3, 4), (4, 2), (4, 3)]
    );
}

#[test]
fn mines_around_each_cell() {
    let game = board();
    let expected = [
        [0, 0, 0, 1, 1],
        [0, 1, 1, 2, 1],
        [0, 1, 1, 1, 0],
        [1, 2, 1, 2, 1],
        [1, 1, 0, 1, 1],
    ];
    for row in 0..5u8 {
        for col in 0..5u8 {
            assert_eq!(
                game.get_mines_around((row, col)),
                expected[row as usize][col as usize],
                "at {:?}",
                (row, col)
            );
        }
    }
}

#[test]
fn mines_around_count_the_cell_itself() {
    let mut game = Game::new(3, 3, 8).unwrap();
    game.left_click((1, 1));
    assert_eq!(game.get_mines_around((1, 1)), 8);
    assert_eq!(game.get_mines_around((0, 0)), 3);
    assert_eq!(game.get_mines_around((0, 1)), 5);
    assert_eq!(game.get_mines_around((2, 2)), 3);
}

#[test]
fn near_means_within_one_step() {
    assert!(is_near((3, 3), (3, 3)));
    assert!(is_near((3, 3), (2, 2)));
    assert!(is_near((3, 3), (4, 4)));
    assert!(is_near((3, 3), (2, 4)));
    assert!(is_near((3, 3), (3, 4)));
    assert!(!is_near((3, 3), (5, 3)));
    assert!(!is_near((3, 3), (3, 1)));
    assert!(!is_near((3, 3), (1, 1)));
    assert!(is_near((0, 0), (1, 1)));
    assert!(!is_near((0, 0), (0, 2)));
    assert!(is_near((255, 255), (254, 255)));
    assert!(!is_near((255, 0), (0, 0)));
}

#[test]
fn handle_loss_uncovers_the_mines() {
    let mut game = board();
    game.right_click((1, 4));
    let changes = game.handle_loss((0, 4));
    assert_eq!(
        changes,
        vec![
            ((0, 4), CellImage::SelectedMine),
            ((1, 4), CellImage::WronglyFlagged),
            ((2, 2), CellImage::Mine),
            ((4, 0), CellImage::Mine),
            ((4, 4), CellImage::Mine),
        ]
    );
    assert_eq!(game.flags(), 0);
    assert_eq!(game.game_state(), GameState::AfterGame);
}
