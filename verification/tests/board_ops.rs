use connect_four::board::{Board, DropError};
use connect_four::player::Player;

fn must_drop(board: &mut Board, column: isize, player: Player) -> usize {
    match board.drop_piece(column, player) {
        Ok(row) => row,
        Err(e) => panic!("drop into column {} failed: {:?}", column, e),
    }
}

#[test]
fn new_board_is_empty() {
    let board = Board::new(6, 7);
    assert_eq!(board.rows(), 6);
    assert_eq!(board.cols(), 7);
    for r in 0..6 {
        for c in 0..7 {
            assert_eq!(board.get(r, c), None);
        }
    }
    assert!(!board.is_full());
    assert_eq!(board.check_winner(), None);
}

#[test]
fn drop_fills_column_bottom_up() {
    let mut board = Board::new(6, 7);
    // the first drop lands on the bottom row, later drops stack upwards
    assert_eq!(must_drop(&mut board, 2, Player::Red), 5);
    assert_eq!(must_drop(&mut board, 2, Player::Yellow), 4);
    assert_eq!(must_drop(&mut board, 2, Player::Red), 3);
    assert_eq!(must_drop(&mut board, 2, Player::Yellow), 2);
    assert_eq!(must_drop(&mut board, 2, Player::Red), 1);
    assert_eq!(must_drop(&mut board, 2, Player::Yellow), 0);
    // a seventh drop reports a full column and changes nothing
    assert_eq!(board.drop_piece(2, Player::Red), Err(DropError::ColumnFull));
    let expected = [
        Some(Player::Yellow),
        Some(Player::Red),
        Some(Player::Yellow),
        Some(Player::Red),
        Some(Player::Yellow),
        Some(Player::Red),
    ];
    for r in 0..6 {
        for c in 0..7 {
            if c == 2 {
                assert_eq!(board.get(r, c), expected[r]);
            } else {
                assert_eq!(board.get(r, c), None);
            }
        }
    }
}

#[test]
fn drop_out_of_range() {
    let mut board = Board::new(6, 7);
    assert_eq!(board.drop_piece(-1, Player::Red), Err(DropError::ColumnOutOfRange));
    assert_eq!(board.drop_piece(7, Player::Red), Err(DropError::ColumnOutOfRange));
    for r in 0..6 {
        for c in 0..7 {
            assert_eq!(board.get(r, c), None);
        }
    }
}

#[test]
fn gravity_holds_after_scattered_drops() {
    let mut board = Board::new(6, 7);
    let moves: [(isize, Player); 9] = [
        (3, Player::Red),
        (3, Player::Yellow),
        (0, Player::Red),
        (6, Player::Yellow),
        (3, Player::Red),
        (0, Player::Yellow),
        (5, Player::Red),
        (3, Player::Yellow),
        (3, Player::Red),
    ];
    for (col, p) in moves {
        must_drop(&mut board, col, p);
    }
    // every occupied cell has every cell below it occupied
    for c in 0..7 {
        for r in 0..5 {
            if board.get(r, c).is_some() {
                assert!(board.get(r + 1, c).is_some());
            }
        }
    }
}

#[test]
fn reset_clears_every_cell() {
    let mut board = Board::new(6, 7);
    for col in 0..4 {
        must_drop(&mut board, col, Player::Red);
    }
    assert_eq!(board.check_winner(), Some(Player::Red));
    board.reset();
    assert_eq!(board.rows(), 6);
    assert_eq!(board.cols(), 7);
    for r in 0..6 {
        for c in 0..7 {
            assert_eq!(board.get(r, c), None);
        }
    }
    assert!(!board.is_full());
    assert_eq!(board.check_winner(), None);
}

#[test]
fn one_by_one_board() {
    let mut board = Board::new(1, 1);
    assert!(!board.is_full());
    assert_eq!(must_drop(&mut board, 0, Player::Yellow), 0);
    assert!(board.is_full());
    assert_eq!(board.check_winner(), None);
    assert_eq!(board.drop_piece(0, Player::Red), Err(DropError::ColumnFull));
}

#[test]
fn player_other_toggles() {
    assert_eq!(Player::Red.other(), Player::Yellow);
    assert_eq!(Player::Yellow.other(), Player::Red);
    assert_eq!(Player::Red.other().other(), Player::Red);
}
