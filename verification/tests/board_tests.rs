use rusty_mine_sweeper::Board;
use rusty_mine_sweeper::SquareState;

#[test]
fn test_board_initialization() {
    let board: Board<SquareState> = Board::new(10, 10);
    assert_eq!(board.width, 10);
    assert_eq!(board.height, 10);
}

#[test]
fn board_new_fills_with_default() {
    let width = 4;
    let height = 3;
    let board: Board<i32> = Board::new(width, height);
    for y in 0..height {
        for x in 0..width {
            assert_eq!(*board.get(x, y).unwrap(), 0);
        }
    }
}

#[test]
fn board_get_out_of_bounds_is_none() {
    let width = 4;
    let height = 3;
    let board: Board<i32> = Board::new(width, height);
    assert!(board.get(width, height).is_none());
    assert!(board.get(width, 0).is_none());
    assert!(board.get(0, height).is_none());
    assert!(board.get(width + 1, 0).is_none());
    assert!(board.get(0, height + 1).is_none());
    assert!(board.get(usize::MAX, usize::MAX).is_none());
}

#[test]
fn board_set_then_get() {
    let mut board: Board<usize> = Board::new(4, 3);
    board.set(0, 0, 1);
    assert_eq!(board.get(0, 0), Some(&1));
    board.set(2, 2, 3);
    assert_eq!(board.get(2, 2), Some(&3));
    board.set(1, 1, 5);
    assert_eq!(board.get(1, 1), Some(&5));
}

#[test]
fn board_set_out_of_bounds_is_ignored() {
    let mut board: Board<u8> = Board::new(2, 2);
    board.set(2, 0, 7);
    board.set(0, 2, 7);
    board.set(9, 9, 7);
    for y in 0..2 {
        for x in 0..2 {
            assert_eq!(*board.get(x, y).unwrap(), 0);
        }
    }
}

#[test]
fn board_clone_is_equal_and_independent() {
    let mut original: Board<u32> = Board::new(3, 3);
    original.set(1, 2, 42);
    let mut copy = original.clone();
    for y in 0..3 {
        for x in 0..3 {
            assert_eq!(copy.get(x, y), original.get(x, y));
        }
    }
    copy.set(0, 0, 99);
    copy.set(1, 2, 7);
    assert_eq!(*original.get(0, 0).unwrap(), 0);
    assert_eq!(*original.get(1, 2).unwrap(), 42);
    assert_eq!(*copy.get(0, 0).unwrap(), 99);
    assert_eq!(*copy.get(1, 2).unwrap(), 7);
}

#[test]
fn board_filled_sets_every_cell() {
    let board: Board<bool> = Board::filled(3, 2, true);
    for y in 0..2 {
        for x in 0..3 {
            assert_eq!(*board.get(x, y).unwrap(), true);
        }
    }
}
