use connect_four::board::Board;
use connect_four::player::Player;

fn must_drop(board: &mut Board, column: isize, player: Player) -> usize {
    match board.drop_piece(column, player) {
        Ok(row) => row,
        Err(e) => panic!("drop into column {} failed: {:?}", column, e),
    }
}

/// Fills each column from the bottom up: one letter per piece, `A` for Red
/// and `B` for Yellow, the first letter landing on the bottom row.
fn build(board: &mut Board, columns: &[&str]) {
    for (c, stack) in columns.iter().enumerate() {
        for ch in stack.chars() {
            let p = if ch == 'A' { Player::Red } else { Player::Yellow };
            must_drop(board, c as isize, p);
        }
    }
}

#[test]
fn horizontal_win() {
    let mut board = Board::new(6, 7);
    for col in 0..4 {
        assert_eq!(must_drop(&mut board, col, Player::Red), 5);
    }
    assert_eq!(board.check_winner(), Some(Player::Red));
}

#[test]
fn horizontal_win_in_last_columns() {
    // a win flush against the right edge: the scan bounds must come from
    // the dimensions, not from constants tuned to one board size
    let mut board = Board::new(6, 8);
    for col in 4..8 {
        must_drop(&mut board, col, Player::Yellow);
    }
    assert_eq!(board.check_winner(), Some(Player::Yellow));
}

#[test]
fn vertical_win() {
    let mut board = Board::new(6, 7);
    for _ in 0..4 {
        must_drop(&mut board, 3, Player::Red);
    }
    assert_eq!(board.check_winner(), Some(Player::Red));
}

#[test]
fn vertical_win_on_top_of_filler() {
    let mut board = Board::new(6, 7);
    build(&mut board, &["BBAAAA"]);
    assert_eq!(board.check_winner(), Some(Player::Red));
}

#[test]
fn ascending_diagonal_win() {
    // Red staircase at (5,0), (4,1), (3,2), (2,3), seeded with Yellow filler
    let mut board = Board::new(6, 7);
    build(&mut board, &["A", "BA", "BBA", "BBBA"]);
    assert_eq!(board.check_winner(), Some(Player::Red));
}

#[test]
fn descending_diagonal_win() {
    // Red staircase at (2,3), (3,4), (4,5), (5,6), mirroring the ascending case
    let mut board = Board::new(6, 7);
    build(&mut board, &["", "", "", "BBBA", "BBA", "BA", "A"]);
    assert_eq!(board.check_winner(), Some(Player::Red));
}

#[test]
fn three_in_a_row_is_no_win() {
    let mut board = Board::new(6, 7);
    for col in 0..3 {
        must_drop(&mut board, col, Player::Red);
    }
    assert_eq!(board.check_winner(), None);
    let mut tall = Board::new(6, 7);
    for _ in 0..3 {
        must_drop(&mut tall, 0, Player::Yellow);
    }
    assert_eq!(tall.check_winner(), None);
}

#[test]
fn full_board_without_line_is_a_draw() {
    let mut board = Board::new(6, 7);
    build(
        &mut board,
        &["AABAAB", "BBAAAB", "BBABBA", "ABAABB", "BABABB", "AABAAA", "ABABAB"],
    );
    assert!(board.is_full());
    assert_eq!(board.check_winner(), None);
}

#[test]
fn last_match_in_scan_order_wins() {
    // both players hold a vertical line; the scan reports the one its
    // column-by-column sweep meets last
    let mut board = Board::new(6, 7);
    for _ in 0..4 {
        must_drop(&mut board, 0, Player::Red);
    }
    for _ in 0..4 {
        must_drop(&mut board, 1, Player::Yellow);
    }
    assert_eq!(board.check_winner(), Some(Player::Yellow));
}

#[test]
fn queries_are_idempotent() {
    let mut board = Board::new(6, 7);
    build(&mut board, &["A", "BA", "BBA", "BBBA"]);
    let w1 = board.check_winner();
    let w2 = board.check_winner();
    assert_eq!(w1, w2);
    let f1 = board.is_full();
    let f2 = board.is_full();
    assert_eq!(f1, f2);
}

#[test]
fn win_on_minimal_board() {
    let mut board = Board::new(4, 4);
    build(&mut board, &["A", "BA", "BBA", "BBBA"]);
    assert_eq!(board.check_winner(), Some(Player::Red));
}
