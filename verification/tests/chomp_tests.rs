use rusty_mine_sweeper::ChompGame;
use rusty_mine_sweeper::ChompOutcome;
use rusty_mine_sweeper::MoveKind;

fn playable(game: &ChompGame, x: usize, y: usize) -> bool {
    game.cell(x, y).unwrap()
}

#[test]
fn new_game_is_fully_playable() {
    let game = ChompGame::new(3, 2);
    for y in 0..2 {
        for x in 0..3 {
            assert!(playable(&game, x, y));
        }
    }
    assert!(game.cell(3, 0).is_none());
    assert!(game.cell(0, 2).is_none());
}

#[test]
fn chomp_removes_an_l_shape() {
    // A chomp in the middle removes the column below and the row to the
    // right, nothing else.
    let mut game = ChompGame::new(5, 5);
    assert!(game.chomp(2, 1));
    for y in 0..5 {
        for x in 0..5 {
            let removed = (x == 2 && y >= 1) || (y == 1 && x >= 2);
            assert_eq!(playable(&game, x, y), !removed);
        }
    }
}

#[test]
fn chomp_corner_removes_only_that_cell() {
    let mut game = ChompGame::new(5, 5);
    assert!(game.chomp(4, 4));
    assert!(!playable(&game, 4, 4));
    for y in 0..5 {
        for x in 0..5 {
            if x < 4 || y < 4 {
                assert!(playable(&game, x, y));
            }
        }
    }
}

#[test]
fn chomp_origin_clears_first_row_and_column() {
    let mut game = ChompGame::new(5, 5);
    assert!(game.chomp(0, 0));
    for y in 0..5 {
        for x in 0..5 {
            let removed = x == 0 || y == 0;
            assert_eq!(playable(&game, x, y), !removed);
        }
    }
    // The origin itself is gone, so the position is not reported lost.
    assert!(!game.is_lost());
}

#[test]
fn chomp_origin_empties_a_single_row_board() {
    let mut game = ChompGame::new(5, 1);
    assert!(game.chomp(0, 0));
    for x in 0..5 {
        assert!(!playable(&game, x, 0));
    }
    assert!(!game.is_lost());
}

#[test]
fn chomp_origin_empties_a_single_column_board() {
    let mut game = ChompGame::new(1, 5);
    assert!(game.chomp(0, 0));
    for y in 0..5 {
        assert!(!playable(&game, 0, y));
    }
    assert!(!game.is_lost());
}

#[test]
fn chomp_out_of_bounds_is_rejected() {
    let mut game = ChompGame::new(3, 3);
    assert!(!game.chomp(3, 0));
    assert!(!game.chomp(0, 3));
    for y in 0..3 {
        for x in 0..3 {
            assert!(playable(&game, x, y));
        }
    }
}

#[test]
fn single_cell_board_is_lost() {
    let game = ChompGame::new(1, 1);
    assert!(game.is_lost());
    assert!(game.winning_move().is_none());
}

#[test]
fn origin_only_position_is_lost() {
    // Leave (0, 0) as the only playable cell of a 2 by 2 board.
    let mut game = ChompGame::new(2, 2);
    assert!(game.chomp(0, 1));
    assert!(game.chomp(1, 0));
    assert!(playable(&game, 0, 0));
    assert!(!playable(&game, 1, 0));
    assert!(!playable(&game, 0, 1));
    assert!(!playable(&game, 1, 1));
    assert!(game.is_lost());
    assert!(game.winning_move().is_none());
    let outcome = game.ai_move();
    assert_eq!(outcome, ChompOutcome::Defeated);
    // Conceding changes nothing.
    assert!(playable(&game, 0, 0));
}

#[test]
fn fresh_position_is_not_lost() {
    let game = ChompGame::new(2, 2);
    assert!(!game.is_lost());
}

#[test]
fn winning_move_on_two_by_two() {
    // Taking the far corner leaves the opponent a three-cell L from
    // which every answer loses.
    let game = ChompGame::new(2, 2);
    assert_eq!(game.winning_move(), Some((1, 1)));
}

#[test]
fn winning_move_knows_a_lost_l_position() {
    let mut game = ChompGame::new(2, 2);
    assert!(game.chomp(1, 1));
    assert!(game.winning_move().is_none());
}

#[test]
fn find_smallest_chomp_picks_fewest_removed() {
    // On a fresh 3 by 3 board the far corner removes a single cell and
    // every other cell removes more.
    let game = ChompGame::new(3, 3);
    assert_eq!(game.find_smallest_chomp(), Some((2, 2)));
}

#[test]
fn find_smallest_chomp_returns_a_playable_cell() {
    let mut game = ChompGame::new(4, 4);
    assert!(game.chomp(1, 1));
    assert!(game.chomp(0, 2));
    let chosen = game.find_smallest_chomp().unwrap();
    assert!(playable(&game, chosen.0, chosen.1));
}

#[test]
fn find_smallest_chomp_on_an_empty_board_is_none() {
    let mut game = ChompGame::new(1, 1);
    assert!(game.chomp(0, 0));
    assert!(game.find_smallest_chomp().is_none());
}

#[test]
fn ai_move_plays_the_forced_win() {
    let mut game = ChompGame::new(2, 2);
    let outcome = game.ai_move();
    assert_eq!(outcome, ChompOutcome::Moved(1, 1, MoveKind::Forced));
    assert!(!playable(&game, 1, 1));
    assert!(playable(&game, 0, 0));
    assert!(playable(&game, 1, 0));
    assert!(playable(&game, 0, 1));
}

#[test]
fn ai_move_falls_back_to_the_greedy_move() {
    // The three-cell L on a 2 by 2 board is lost under optimal play, so
    // the machine plays the greedy move: the first cell in row-major
    // order whose chomp removes the fewest cells.
    let mut game = ChompGame::new(2, 2);
    assert!(game.chomp(1, 1));
    let outcome = game.ai_move();
    assert_eq!(outcome, ChompOutcome::Moved(1, 0, MoveKind::Heuristic));
    assert!(!playable(&game, 1, 0));
    assert!(playable(&game, 0, 0));
    assert!(playable(&game, 0, 1));
}
