use minesweeper::random::Scripted;
use minesweeper::{CellImage, Game, GameState, Pos};

fn near(a: Pos, b: Pos) -> bool {
    (a.0 as i16 - b.0 as i16).abs() <= 1 && (a.1 as i16 - b.1 as i16).abs() <= 1
}

/// A game of five by five under way, with mines at (0, 4), (2, 2), (4, 0) and
/// (4, 4), begun by a left click at (0, 0).
fn board() -> Game {
    let mines = [(0u8, 4u8), (2, 2), (4, 0), (4, 4)];
    let mut draws = Vec::new();
    let mut cells_remaining = 21u16;
    for row in 0..5u8 {
        for col in 0..5u8 {
            if !near((0, 0), (row, col)) {
                if mines.contains(&(row, col)) {
                    draws.push(0);
                } else {
                    draws.push(cells_remaining - 1);
                }
                cells_remaining -= 1;
            }
        }
    }
    let mut game = Game::new(5, 5, 4).unwrap();
    let mut source = Scripted::new(draws);
    game.left_click_with((0, 0), &mut source);
    assert_eq!(game.game_state(), GameState::DuringGame);
    game
}

fn image(game: &Game, pos: Pos) -> CellImage {
    game.get_all_images()[pos.0 as usize][pos.1 as usize]
}

#[test]
fn right_click_puts_a_flag_on_a_hidden_cell() {
    let mut game = board();
    assert_eq!(game.right_click((4, 4)), vec![((4, 4), CellImage::Flagged)]);
    assert_eq!(image(&game, (4, 4)), CellImage::Flagged);
    assert_eq!(game.flags(), 1);
    assert_eq!(game.right_click((3, 3)), vec![((3, 3), CellImage::Flagged)]);
    assert_eq!(game.flags(), 2);
    assert_eq!(game.game_state(), GameState::DuringGame);
}

#[test]
fn right_click_takes_a_flag_off() {
    let mut game = board();
    game.right_click((4, 4));
    assert_eq!(game.right_click((4, 4)), vec![((4, 4), CellImage::Hidden)]);
    assert_eq!(image(&game, (4, 4)), CellImage::Hidden);
    assert_eq!(game.flags(), 0);
}

#[test]
fn two_right_clicks_leave_a_hidden_cell_as_it_was() {
    let mut game = board();
    game.right_click((1, 4));
    let images = game.get_all_images();
    let flags = game.flags();
    for row in 0..5u8 {
        for col in 0..5u8 {
            if images[row as usize][col as usize] == CellImage::Hidden {
                game.right_click((row, col));
                assert_eq!(game.flags(), flags + 1);
                game.right_click((row, col));
                assert_eq!(image(&game, (row, col)), CellImage::Hidden);
                assert_eq!(game.flags(), flags);
                assert_eq!(game.get_all_images(), images);
            }
        }
    }
}

#[test]
fn two_right_clicks_leave_a_question_marked_cell_hidden() {
    let mut game = board();
    game.right_click((3, 3));
    game.left_click((3, 3));
    assert_eq!(image(&game, (3, 3)), CellImage::QuestionMarked);
    assert_eq!(game.flags(), 0);
    assert_eq!(game.right_click((3, 3)), vec![((3, 3), CellImage::Flagged)]);
    assert_eq!(game.flags(), 1);
    assert_eq!(game.right_click((3, 3)), vec![((3, 3), CellImage::Hidden)]);
    assert_eq!(game.flags(), 0);
}

#[test]
fn left_click_on_a_flag_makes_a_question_mark() {
    let mut game = board();
    game.right_click((2, 2));
    assert_eq!(game.left_click((2, 2)), vec![((2, 2), CellImage::QuestionMarked)]);
    assert_eq!(image(&game, (2, 2)), CellImage::QuestionMarked);
    assert_eq!(game.flags(), 0);
    assert_eq!(game.game_state(), GameState::DuringGame);
}

#[test]
fn left_click_on_a_question_mark_makes_a_flag() {
    let mut game = board();
    game.right_click((2, 2));
    game.left_click((2, 2));
    assert_eq!(game.left_click((2, 2)), vec![((2, 2), CellImage::Flagged)]);
    assert_eq!(game.flags(), 1);
    assert_eq!(game.left_click((2, 2)), vec![((2, 2), CellImage::QuestionMarked)]);
    assert_eq!(game.flags(), 0);
    assert_eq!(game.game_state(), GameState::DuringGame);
}

#[test]
fn left_click_never_uncovers_a_marked_cell() {
    let mut game = board();
    game.right_click((2, 2));
    for _ in 0..6 {
        game.left_click((2, 2));
        assert!(!image(&game, (2, 2)).shown());
        assert_eq!(game.game_state(), GameState::DuringGame);
    }
}

#[test]
fn right_click_on_an_open_cell_changes_nothing() {
    let mut game = board();
    let images = game.get_all_images();
    assert_eq!(game.right_click((0, 0)), vec![]);
    assert_eq!(game.right_click((1, 1)), vec![]);
    assert_eq!(game.get_all_images(), images);
    assert_eq!(game.flags(), 0);
}

#[test]
fn right_click_before_the_game_changes_nothing() {
    let mut game = Game::new(5, 5, 4).unwrap();
    assert_eq!(game.right_click((2, 2)), vec![]);
    assert_eq!(game.right_click((2, 2)), vec![]);
    assert_eq!(game.flags(), 0);
    assert_eq!(game.game_state(), GameState::BeforeGame);
    assert_eq!(image(&game, (2, 2)), CellImage::Hidden);
}

#[test]
fn right_click_works_on_grids_that_are_not_square() {
    let mut game = Game::new(12, 3, 5).unwrap();
    game.left_click((0, 0));
    if game.game_state() == GameState::DuringGame {
        for col in 0..12u8 {
            let before = image(&game, (2, col));
            if before == CellImage::Hidden {
                assert_eq!(game.right_click((2, col)), vec![((2, col), CellImage::Flagged)]);
            }
        }
    }
    let mut game = Game::new(3, 12, 5).unwrap();
    game.left_click((0, 0));
    if game.game_state() == GameState::DuringGame {
        for row in 0..12u8 {
            if image(&game, (row, 2)) == CellImage::Hidden {
                assert_eq!(game.right_click((row, 2)), vec![((row, 2), CellImage::Flagged)]);
            }
        }
    }
}

#[test]
fn toggles_switch_the_mark() {
    let mut game = board();
    assert_eq!(game.toggle_tofrom_hidden((4, 4)), ((4, 4), CellImage::Flagged));
    assert_eq!(game.flags(), 1);
    assert_eq!(game.toggle_tofrom_question_marked((4, 4)), ((4, 4), CellImage::QuestionMarked));
    assert_eq!(game.flags(), 0);
    assert_eq!(game.toggle_tofrom_hidden((4, 4)), ((4, 4), CellImage::Hidden));
    assert_eq!(game.flags(), 0);
    assert_eq!(
        game.toggle_tofrom_given((4, 4), CellImage::QuestionMarked),
        ((4, 4), CellImage::QuestionMarked)
    );
    assert_eq!(
        game.toggle_tofrom_given((4, 4), CellImage::QuestionMarked),
        ((4, 4), CellImage::Flagged)
    );
    assert_eq!(game.flags(), 1);
    assert_eq!(game.toggle_tofrom_given((4, 4), CellImage::Hidden), ((4, 4), CellImage::Hidden));
    assert_eq!(game.flags(), 0);
}
