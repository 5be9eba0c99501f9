use rusty_mine_sweeper::GameError;
use rusty_mine_sweeper::MineField;
use rusty_mine_sweeper::MinesweeperSquare;
use rusty_mine_sweeper::RevealOutcome;
use rusty_mine_sweeper::SquareState;

fn mine_square() -> MinesweeperSquare {
    MinesweeperSquare { state: SquareState::Hidden, value: -1, is_mine: true }
}

fn count_mines(field: &MineField) -> usize {
    let mut count = 0;
    for y in 0..field.board.height {
        for x in 0..field.board.width {
            if field.board.get(x, y).unwrap().is_mine {
                count += 1;
            }
        }
    }
    count
}

#[test]
fn square_new_defaults() {
    let square: MinesweeperSquare = MinesweeperSquare::new();
    assert_eq!(square.get_value(), -1);
    assert_eq!(square.get_is_mine(), false);
}

#[test]
fn isize_board_starts_hidden_and_mine_free() {
    let field = MineField::isize_board(5, 4);
    assert_eq!(field.board.width, 5);
    assert_eq!(field.board.height, 4);
    for y in 0..4 {
        for x in 0..5 {
            let square = field.board.get(x, y).unwrap();
            assert_eq!(square.get_value(), -1);
            assert_eq!(square.get_is_mine(), false);
            assert_eq!(square.state, SquareState::Hidden);
        }
    }
}

#[test]
fn increase_difficulty_places_a_tenth() {
    let mut field = MineField::isize_board(10, 10);
    field.increase_difficulty();
    assert_eq!(count_mines(&field), 10);
}

#[test]
fn place_mines_places_exactly_that_many() {
    let mut field = MineField::isize_board(4, 4);
    field.place_mines(7);
    assert_eq!(count_mines(&field), 7);
    field.place_mines(9);
    assert_eq!(count_mines(&field), 16);
}

#[test]
fn place_mines_leaves_states_and_values_alone() {
    let mut field = MineField::isize_board(3, 3);
    field.mark_square(1, 1).unwrap();
    field.place_mines(4);
    for y in 0..3 {
        for x in 0..3 {
            let square = field.board.get(x, y).unwrap();
            assert_eq!(square.value, -1);
            if x == 1 && y == 1 {
                assert_eq!(square.state, SquareState::Flagged);
            } else {
                assert_eq!(square.state, SquareState::Hidden);
            }
        }
    }
}

#[test]
fn proximity_of_a_single_mine() {
    let mut field = MineField::isize_board(5, 5);
    field.board.set(2, 2, mine_square());
    for y in 0..5i64 {
        for x in 0..5i64 {
            let expected = if (x - 2).abs() <= 1 && (y - 2).abs() <= 1 { 1 } else { 0 };
            assert_eq!(field.compute_proximity(x as usize, y as usize), expected);
        }
    }
}

#[test]
fn proximity_of_a_corner_mine() {
    let mut field = MineField::isize_board(3, 3);
    field.board.set(0, 0, mine_square());
    assert_eq!(field.compute_proximity(0, 0), 1);
    assert_eq!(field.compute_proximity(1, 0), 1);
    assert_eq!(field.compute_proximity(0, 1), 1);
    assert_eq!(field.compute_proximity(1, 1), 1);
    assert_eq!(field.compute_proximity(2, 0), 0);
    assert_eq!(field.compute_proximity(2, 2), 0);
}

#[test]
fn reveal_square_uncovers_one_square() {
    let mut field = MineField::isize_board(3, 3);
    field.board.set(1, 1, mine_square());
    let outcome = field.reveal_square(0, 0);
    assert_eq!(outcome, Ok(RevealOutcome::Revealed(1)));
    let revealed = field.board.get(0, 0).unwrap();
    assert_eq!(revealed.state, SquareState::Revealed);
    assert_eq!(revealed.value, field.compute_proximity(0, 0));
    // Only the revealed square changed; its neighbours keep their value.
    let neighbour = field.board.get(0, 1).unwrap();
    assert_eq!(neighbour.state, SquareState::Hidden);
    assert_eq!(neighbour.value, -1);
}

#[test]
fn reveal_square_on_a_mine_explodes() {
    let mut field = MineField::isize_board(3, 3);
    field.board.set(1, 1, mine_square());
    assert_eq!(field.reveal_square(1, 1), Ok(RevealOutcome::Exploded));
    // The board is untouched by the explosion report.
    assert_eq!(field.board.get(1, 1).unwrap().state, SquareState::Hidden);
}

#[test]
fn reveal_square_rejects_flagged_and_revealed_squares() {
    let mut field = MineField::isize_board(3, 3);
    field.mark_square(0, 0).unwrap();
    // A flagged square cannot be revealed, and stays flagged.
    assert_eq!(field.reveal_square(0, 0), Err(GameError::InvalidCellState));
    assert_eq!(field.board.get(0, 0).unwrap().state, SquareState::Flagged);
    // A revealed square is terminal: its value is never recomputed.
    field.reveal_square(2, 2).unwrap();
    assert_eq!(field.reveal_square(2, 2), Err(GameError::InvalidCellState));
    assert_eq!(field.board.get(2, 2).unwrap().state, SquareState::Revealed);
}

#[test]
fn reveal_square_rejects_a_flagged_mine_without_exploding() {
    let mut field = MineField::isize_board(3, 3);
    field.board.set(1, 1, mine_square());
    field.mark_square(1, 1).unwrap();
    assert_eq!(field.reveal_square(1, 1), Err(GameError::InvalidCellState));
    assert_eq!(field.board.get(1, 1).unwrap().state, SquareState::Flagged);
}

#[test]
fn reveal_square_out_of_bounds_is_rejected() {
    let mut field = MineField::isize_board(3, 3);
    assert_eq!(field.reveal_square(3, 0), Err(GameError::OutOfBounds));
    assert_eq!(field.reveal_square(0, 3), Err(GameError::OutOfBounds));
}

#[test]
fn mark_square_flags_only_hidden_squares() {
    let mut field = MineField::isize_board(3, 3);
    assert_eq!(field.mark_square(0, 1), Ok(()));
    assert_eq!(field.board.get(0, 1).unwrap().state, SquareState::Flagged);
    // A flagged square cannot be marked again.
    assert_eq!(field.mark_square(0, 1), Err(GameError::InvalidCellState));
    // A revealed square cannot be marked.
    field.reveal_square(2, 2).unwrap();
    assert_eq!(field.mark_square(2, 2), Err(GameError::InvalidCellState));
    // Marking outside the board is rejected.
    assert_eq!(field.mark_square(9, 9), Err(GameError::OutOfBounds));
}

#[test]
fn is_won_needs_every_mine_flagged() {
    let mut field = MineField::isize_board(3, 3);
    let mines = [(0usize, 0usize), (2, 1), (1, 2)];
    for &(x, y) in mines.iter() {
        field.board.set(x, y, mine_square());
    }
    assert!(!field.is_won());
    field.mark_square(0, 0).unwrap();
    field.mark_square(2, 1).unwrap();
    assert!(!field.is_won());
    field.mark_square(1, 2).unwrap();
    assert!(field.is_won());
}

#[test]
fn is_won_ignores_mine_free_squares() {
    let mut field = MineField::isize_board(2, 2);
    let mut armed = mine_square();
    armed.state = SquareState::Flagged;
    field.board.set(1, 1, armed);
    // No mine is unflagged, so the game is won whatever the rest shows.
    assert!(field.is_won());
    let empty = MineField::isize_board(2, 2);
    assert!(empty.is_won());
}
