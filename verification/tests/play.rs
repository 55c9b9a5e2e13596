use minesweeper::random::Scripted;
use minesweeper::{CellImage, Game, GameState, Pos};

fn near(a: Pos, b: Pos) -> bool {
    (a.0 as i16 - b.0 as i16).abs() <= 1 && (a.1 as i16 - b.1 as i16).abs() <= 1
}

/// A game under way with the mines at `mines`, none of which lies in the
/// square around `click`, begun by a left click at `click`.
fn begun(width: u8, height: u8, click: Pos, mines: &[Pos]) -> (Game, Vec<(Pos, CellImage)>) {
    let mut draws = Vec::new();
    let mut cells_remaining = 0u16;
    for row in 0..height {
        for col in 0..width {
            if !near(click, (row, col)) {
                cells_remaining += 1;
            }
        }
    }
    for row in 0..height {
        for col in 0..width {
            if !near(click, (row, col)) {
                if mines.contains(&(row, col)) {
                    draws.push(0);
                } else {
                    draws.push(cells_remaining - 1);
                }
                cells_remaining -= 1;
            }
        }
    }
    let mut game = Game::new(width, height, mines.len() as u16).unwrap();
    let mut source = Scripted::new(draws);
    let changes = game.left_click_with(click, &mut source);
    (game, changes)
}

fn sorted(mut changes: Vec<(Pos, CellImage)>) -> Vec<(Pos, CellImage)> {
    changes.sort_by_key(|change| change.0);
    changes
}

fn count(game: &Game, wanted: CellImage) -> usize {
    game.get_all_images().iter().flatten().filter(|image| **image == wanted).count()
}

fn image(game: &Game, pos: Pos) -> CellImage {
    game.get_all_images()[pos.0 as usize][pos.1 as usize]
}

/// The board of these tests, with the mines marked `*` and the first click `c`:
///
/// ```text
///   0 1 2 3 4
/// 0 c . . . *
/// 1 . . . . .
/// 2 . . * . .
/// 3 . . . . .
/// 4 * . . . *
/// ```
fn board() -> (Game, Vec<(Pos, CellImage)>) {
    begun(5, 5, (0, 0), &[(0, 4), (2, 2), (4, 0), (4, 4)])
}

#[test]
fn flood_opens_the_region_and_its_border() {
    let (game, changes) = board();
    assert_eq!(game.game_state(), GameState::DuringGame);
    assert_eq!(changes[0], ((0, 0), CellImage::Zero));
    assert_eq!(
        sorted(changes),
        vec![
            ((0, 0), CellImage::Zero),
            ((0, 1), CellImage::Zero),
            ((0, 2), CellImage::Zero),
            ((0, 3), CellImage::One),
            ((1, 0), CellImage::Zero),
            ((1, 1), CellImage::One),
            ((1, 2), CellImage::One),
            ((1, 3), CellImage::Two),
            ((2, 0), CellImage::Zero),
            ((2, 1), CellImage::One),
            ((3, 0), CellImage::One),
            ((3, 1), CellImage::Two),
        ]
    );
    assert_eq!(count(&game, CellImage::Hidden), 13);
    assert_eq!(game.flags(), 0);
}

#[test]
fn flood_names_each_cell_once() {
    let (_, changes) = board();
    let mut cells: Vec<Pos> = changes.iter().map(|change| change.0).collect();
    cells.sort();
    let before = cells.len();
    cells.dedup();
    assert_eq!(cells.len(), before);
}

#[test]
fn click_on_a_number_cell_next_to_nothing_hidden_changes_nothing() {
    let (mut game, _) = board();
    let images = game.get_all_images();
    assert_eq!(game.left_click((0, 0)), vec![]);
    assert_eq!(game.left_click((1, 0)), vec![]);
    assert_eq!(game.get_all_images(), images);
    assert_eq!(game.game_state(), GameState::DuringGame);
}

#[test]
fn click_on_a_hidden_cell_with_mines_around_opens_that_cell_only() {
    let (mut game, _) = board();
    assert_eq!(game.left_click((2, 3)), vec![((2, 3), CellImage::One)]);
    assert_eq!(game.left_click((3, 2)), vec![((3, 2), CellImage::One)]);
    assert_eq!(game.left_click((1, 4)), vec![((1, 4), CellImage::One)]);
    assert_eq!(game.left_click((3, 3)), vec![((3, 3), CellImage::Two)]);
    assert_eq!(game.game_state(), GameState::DuringGame);
    assert_eq!(count(&game, CellImage::Hidden), 9);
}

#[test]
fn flood_stops_at_flags_and_question_marks() {
    // A wall of mines in column 3 and one mine at the right edge:
    //   0 1 2 3 4 5 6 7
    // 0 0 0 2 * 2 0 1 1
    // 1 c 0 3 * 3 0 1 *
    // 2 0 0 2 * 2 0 1 1
    let (mut game, changes) = begun(8, 3, (1, 0), &[(0, 3), (1, 3), (2, 3), (1, 7)]);
    assert_eq!(game.game_state(), GameState::DuringGame);
    assert_eq!(changes.len(), 9);
    assert_eq!(count(&game, CellImage::Hidden), 15);
    game.right_click((1, 5));
    game.right_click((0, 6));
    game.left_click((0, 6));
    assert_eq!(image(&game, (1, 5)), CellImage::Flagged);
    assert_eq!(image(&game, (0, 6)), CellImage::QuestionMarked);
    let changes = game.left_click((0, 5));
    assert_eq!(changes[0], ((0, 5), CellImage::Zero));
    assert_eq!(
        sorted(changes),
        vec![
            ((0, 4), CellImage::Two),
            ((0, 5), CellImage::Zero),
            ((1, 4), CellImage::Three),
            ((1, 6), CellImage::One)
        ]
    );
    assert_eq!(image(&game, (1, 5)), CellImage::Flagged);
    assert_eq!(image(&game, (0, 6)), CellImage::QuestionMarked);
    assert_eq!(image(&game, (2, 5)), CellImage::Hidden);
    assert_eq!(game.flags(), 1);
    assert_eq!(game.game_state(), GameState::DuringGame);
}

#[test]
fn click_on_a_mine_loses() {
    let (mut game, _) = board();
    game.right_click((0, 4));
    game.right_click((3, 3));
    game.right_click((4, 4));
    game.left_click((4, 4));
    game.right_click((1, 4));
    game.left_click((1, 4));
    assert_eq!(game.flags(), 2);
    assert_eq!(image(&game, (4, 4)), CellImage::QuestionMarked);
    assert_eq!(image(&game, (1, 4)), CellImage::QuestionMarked);
    let before = game.get_all_images();
    let changes = game.left_click((2, 2));
    assert_eq!(
        changes,
        vec![
            ((2, 2), CellImage::SelectedMine),
            ((0, 4), CellImage::Mine),
            ((3, 3), CellImage::WronglyFlagged),
            ((4, 0), CellImage::Mine),
            ((4, 4), CellImage::Mine),
        ]
    );
    assert_eq!(game.game_state(), GameState::AfterGame);
    let after = game.get_all_images();
    for row in 0..5usize {
        for col in 0..5usize {
            let pos = (row as u8, col as u8);
            if let Some(change) = changes.iter().find(|change| change.0 == pos) {
                assert_eq!(after[row][col], change.1);
            } else {
                assert_eq!(after[row][col], before[row][col]);
            }
        }
    }
    assert_eq!(image(&game, (0, 4)), CellImage::Mine);
    assert_eq!(image(&game, (4, 4)), CellImage::Mine);
    assert_eq!(image(&game, (1, 4)), CellImage::QuestionMarked);
    assert_eq!(game.flags(), 0);
    assert_eq!(count(&game, CellImage::Flagged), 0);
}

#[test]
fn nothing_changes_after_a_loss() {
    let (mut game, _) = board();
    game.left_click((2, 2));
    assert_eq!(game.game_state(), GameState::AfterGame);
    let images = game.get_all_images();
    for row in 0..5u8 {
        for col in 0..5u8 {
            assert_eq!(game.left_click((row, col)), vec![]);
            assert_eq!(game.right_click((row, col)), vec![]);
        }
    }
    assert_eq!(game.get_all_images(), images);
    assert_eq!(game.game_state(), GameState::AfterGame);
    assert_eq!(game.flags(), 0);
}

#[test]
fn opening_the_last_cell_wins() {
    let (mut game, _) = board();
    game.right_click((0, 4));
    game.right_click((2, 2));
    game.left_click((2, 2));
    let safe = [(1, 4), (2, 3), (2, 4), (3, 2), (3, 3), (3, 4), (4, 1), (4, 3)];
    for pos in safe {
        if image(&game, pos) == CellImage::Hidden {
            assert_eq!(game.game_state(), GameState::DuringGame);
            game.left_click(pos);
        }
    }
    assert_eq!(game.game_state(), GameState::DuringGame);
    assert_eq!(count(&game, CellImage::Hidden), 3);
    let changes = game.left_click((4, 2));
    assert_eq!(
        changes,
        vec![
            ((4, 2), CellImage::Zero),
            ((2, 2), CellImage::Flagged),
            ((4, 0), CellImage::Flagged),
            ((4, 4), CellImage::Flagged),
        ]
    );
    assert_eq!(game.game_state(), GameState::AfterGame);
    assert_eq!(game.flags(), 4);
    assert_eq!(count(&game, CellImage::Flagged), 4);
    assert_eq!(count(&game, CellImage::Hidden), 0);
    assert_eq!(count(&game, CellImage::QuestionMarked), 0);
    for mine in [(0, 4), (2, 2), (4, 0), (4, 4)] {
        assert_eq!(image(&game, mine), CellImage::Flagged);
    }
}

#[test]
fn nothing_changes_after_a_win() {
    let (mut game, _) = begun(3, 3, (0, 0), &[(2, 2)]);
    assert_eq!(game.game_state(), GameState::AfterGame);
    let images = game.get_all_images();
    for row in 0..3u8 {
        for col in 0..3u8 {
            assert_eq!(game.left_click((row, col)), vec![]);
            assert_eq!(game.right_click((row, col)), vec![]);
        }
    }
    assert_eq!(game.get_all_images(), images);
    assert_eq!(game.flags(), 1);
}

#[test]
fn flags_on_every_mine_do_not_win() {
    let (mut game, _) = board();
    for mine in [(0, 4), (2, 2), (4, 0), (4, 4)] {
        game.right_click(mine);
    }
    assert_eq!(game.flags(), 4);
    assert_eq!(game.game_state(), GameState::DuringGame);
}

#[test]
fn click_on_a_number_opens_the_hidden_cells_around_it() {
    let (mut game, _) = board();
    game.right_click((2, 2));
    // (1, 1) shows One and the only mine around it has a flag.
    let changes = game.left_click((1, 1));
    assert_eq!(changes, vec![]);
    // (1, 2) shows One; around it (2, 3) is hidden besides the flag.
    let changes = game.left_click((1, 2));
    assert_eq!(changes, vec![((2, 3), CellImage::One)]);
    // (3, 1) shows Two; around it (3, 2), (4, 1), (4, 2) and the mine (4, 0) are
    // hidden, and the mine is met last among them.
    let changes = game.left_click((3, 1));
    assert_eq!(changes[0], ((4, 0), CellImage::SelectedMine));
    assert_eq!(game.game_state(), GameState::AfterGame);
    assert_eq!(image(&game, (3, 2)), CellImage::Hidden);
    assert_eq!(image(&game, (4, 1)), CellImage::Hidden);
    assert_eq!(image(&game, (2, 2)), CellImage::Mine);
    assert_eq!(
        changes,
        vec![
            ((4, 0), CellImage::SelectedMine),
            ((0, 4), CellImage::Mine),
            ((2, 2), CellImage::Mine),
            ((4, 4), CellImage::Mine),
        ]
    );
    assert_eq!(game.flags(), 0);
}

#[test]
fn click_on_a_number_floods_from_the_cells_around_it() {
    //   0 1 2 3 4 5
    // 0 c 1 * 1 0 0
    // 1 0 1 1 1 1 1
    // 2 0 0 0 0 1 *
    let (mut game, changes) = begun(6, 3, (0, 0), &[(0, 2), (2, 5)]);
    assert_eq!(game.game_state(), GameState::DuringGame);
    assert_eq!(changes.len(), 12);
    assert_eq!(image(&game, (1, 4)), CellImage::One);
    assert_eq!(image(&game, (0, 3)), CellImage::Hidden);
    assert_eq!(image(&game, (0, 4)), CellImage::Hidden);
    game.right_click((2, 5));
    // Around (1, 4) the cells (0, 3), (0, 4), (0, 5) and (1, 5) are hidden and
    // hold no mine; with them every cell without a mine is open.
    let changes = game.left_click((1, 4));
    assert_eq!(changes.len(), 5);
    assert_eq!(
        sorted(changes[..4].to_vec()),
        vec![
            ((0, 3), CellImage::One),
            ((0, 4), CellImage::Zero),
            ((0, 5), CellImage::Zero),
            ((1, 5), CellImage::One)
        ]
    );
    assert_eq!(changes[4], ((0, 2), CellImage::Flagged));
    assert_eq!(game.game_state(), GameState::AfterGame);
    assert_eq!(game.flags(), 2);
}

#[test]
fn click_on_a_number_next_to_a_hidden_mine_loses() {
    let (mut game, _) = begun(6, 3, (0, 0), &[(0, 2), (2, 5)]);
    let changes = game.left_click((1, 5 - 1));
    assert_eq!(changes, vec![((2, 5), CellImage::SelectedMine), ((0, 2), CellImage::Mine)]);
    assert_eq!(game.game_state(), GameState::AfterGame);
    assert_eq!(image(&game, (0, 3)), CellImage::Hidden);
    assert_eq!(image(&game, (1, 5)), CellImage::Hidden);
}

#[test]
fn change_lists_tell_what_the_snapshots_show() {
    for trial in 0..40u16 {
        let mut game = Game::new(9, 7, 10 + trial % 5).unwrap();
        let mut step = 0u32;
        while game.game_state() != GameState::AfterGame && step < 400 {
            let seed = trial as u32 * 7919 + step * 104729;
            let pos = ((seed / 9 % 7) as u8, (seed % 9) as u8);
            let before = game.get_all_images();
            let changes = if step % 3 == 1 {
                game.right_click(pos)
            } else {
                game.left_click(pos)
            };
            let after = game.get_all_images();
            let mut named = Vec::new();
            for (cell, shown) in &changes {
                assert!(!named.contains(cell));
                named.push(*cell);
                assert_eq!(after[cell.0 as usize][cell.1 as usize], *shown);
                assert_ne!(before[cell.0 as usize][cell.1 as usize], *shown);
            }
            for row in 0..7u8 {
                for col in 0..9u8 {
                    if before[row as usize][col as usize] != after[row as usize][col as usize] {
                        assert!(named.contains(&(row, col)));
                    }
                }
            }
            assert_eq!(game.flags() as usize, count(&game, CellImage::Flagged));
            step += 1;
        }
    }
}
