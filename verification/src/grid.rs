//! The mathematical model of a board: a grid of cells, row 0 on top,
//! and the shape and gravity facts the contracts are stated over.

use vstd::prelude::*;

use crate::player::Player;

verus! {

/// A grid as a mathematical value: a sequence of rows (row 0 the top row),
/// each row a sequence of cells, a cell either empty or held by a player.
pub type Grid = Seq<Seq<Option<Player>>>;

/// A well-shaped grid: at least one row and one column, and every row of
/// the same length.
pub open spec fn rect(v: Grid) -> bool {
    &&& v.len() >= 1
    &&& v[0].len() >= 1
    &&& forall|r: int| 0 <= r < v.len() ==> #[trigger] v[r].len() == v[0].len()
}

/// The number of rows of a grid.
pub open spec fn rows_of(v: Grid) -> int {
    v.len() as int
}

/// The number of columns of a grid.
pub open spec fn cols_of(v: Grid) -> int {
    v[0].len() as int
}

/// Gravity: no occupied cell sits above an empty one in the same column,
/// so the occupied cells of every column form a contiguous run that starts
/// at the bottom row.
pub open spec fn gravity_ok(v: Grid) -> bool {
    forall|r: int, c: int|
        0 <= r && r + 1 < rows_of(v) && 0 <= c < cols_of(v) && #[trigger] v[r][c] is Some
            ==> v[r + 1][c] is Some
}

/// Every cell of the top row is occupied.
pub open spec fn top_row_full(v: Grid) -> bool {
    forall|c: int| 0 <= c < cols_of(v) ==> #[trigger] v[0][c] is Some
}

/// Every cell of the grid is occupied.
pub open spec fn board_full(v: Grid) -> bool {
    forall|r: int, c: int| 0 <= r < rows_of(v) && 0 <= c < cols_of(v) ==> #[trigger] v[r][c] is Some
}

/// The grid of the given shape with every cell empty.
pub open spec fn empty_grid(rows: nat, cols: nat) -> Grid {
    Seq::new(rows, |r: int| Seq::new(cols, |c: int| None::<Player>))
}

/// Under gravity, an occupied top cell means the whole column below it is
/// occupied.
pub proof fn lemma_column_filled_down(v: Grid, r: int, c: int)
    requires
        rect(v),
        gravity_ok(v),
        0 <= r < rows_of(v),
        0 <= c < cols_of(v),
        v[0][c] is Some,
    ensures
        v[r][c] is Some,
    decreases r,
{
    if r > 0 {
        lemma_column_filled_down(v, r - 1, c);
    }
}

/// The full-board shortcut: under gravity, the top row is full exactly when
/// the whole grid is full.
pub proof fn lemma_full_top_row(v: Grid)
    requires
        rect(v),
        gravity_ok(v),
    ensures
        top_row_full(v) <==> board_full(v),
{
    if top_row_full(v) {
        assert forall|r: int, c: int|
            0 <= r < rows_of(v) && 0 <= c < cols_of(v) implies #[trigger] v[r][c] is Some by {
            lemma_column_filled_down(v, r, c);
        }
    }
}

} // verus!
