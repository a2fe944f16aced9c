//! The board: grid state, gravity drops, and the terminal-state queries.

use vstd::prelude::*;

use crate::grid::{
    board_full, cols_of, empty_grid, gravity_ok, lemma_full_top_row, rect, rows_of, top_row_full,
    Grid,
};
use crate::outcome::{
    a_step, a_win_value, d_step, d_win_value, h_step, h_win_value, lemma_scan_outer_empty,
    scan_inner, scan_outer, span, v_step, v_win_value, winner_spec,
};
use crate::player::Player;

verus! {

/// Why a drop was rejected. Neither error mutates the board.
#[derive(Clone, Copy, PartialEq, Eq, Structural, Debug)]
pub enum DropError {
    /// The column index lies outside `[0, cols)`: a caller bug.
    ColumnOutOfRange,
    /// Every cell of the column is already occupied: a normal play outcome.
    ColumnFull,
}

/// A Connect-Four board: a fixed `rows x cols` grid of cells, row 0 the top
/// row, mutated only by gravity drops and by a full reset.
///
/// Its view is a [`Grid`]: a sequence of rows, each a sequence of cells.
pub struct Board {
    rows: usize,
    cols: usize,
    cells: Vec<Option<Player>>,
}

impl View for Board {
    type V = Grid;

    closed spec fn view(&self) -> Grid {
        Seq::new(
            self.rows as nat,
            |r: int| Seq::new(self.cols as nat, |c: int| self.cells@[r * (self.cols as int) + c]),
        )
    }
}

proof fn lemma_row_major_index(rows: int, cols: int, r: int, c: int)
    requires
        0 <= r < rows,
        0 <= c < cols,
    ensures
        0 <= r * cols + c < rows * cols,
{
    assert(0 <= r * cols + c < rows * cols) by (nonlinear_arith)
        requires
            0 <= r < rows,
            0 <= c < cols,
    ;
}

proof fn lemma_row_major_injective(cols: int, r1: int, c1: int, r2: int, c2: int)
    requires
        0 <= r1,
        0 <= r2,
        0 <= c1 < cols,
        0 <= c2 < cols,
        r1 * cols + c1 == r2 * cols + c2,
    ensures
        r1 == r2,
        c1 == c2,
{
    assert(r1 == r2 && c1 == c2) by (nonlinear_arith)
        requires
            0 <= r1,
            0 <= r2,
            0 <= c1 < cols,
            0 <= c2 < cols,
            r1 * cols + c1 == r2 * cols + c2,
    ;
}

/// True when `cell` holds exactly player `p`.
fn cell_is(cell: Option<Player>, p: Player) -> (r: bool)
    ensures
        r == (cell == Some(p)),
{
    match cell {
        Some(q) => q == p,
        None => false,
    }
}

impl Board {
    /// The representation is sound: at least one row and one column, and one
    /// stored cell per grid position.
    pub closed spec fn wf(self) -> bool {
        &&& 1 <= self.rows
        &&& 1 <= self.cols
        &&& self.cells.len() == self.rows * self.cols
    }

    /// The board invariant: a well-shaped grid obeying gravity. Construction
    /// establishes it and every operation preserves it, so over any sequence
    /// of drops no occupied cell ever sits above an empty one in its column.
    pub open spec fn inv(self) -> bool {
        &&& self.wf()
        &&& rect(self@)
        &&& gravity_ok(self@)
    }

    proof fn lemma_view_shape(self)
        requires
            self.wf(),
        ensures
            self@.len() == self.rows,
            rect(self@),
            cols_of(self@) == self.cols,
            forall|r: int| 0 <= r < self.rows ==> #[trigger] self@[r].len() == self.cols,
            forall|r: int, c: int|
                0 <= r < self.rows && 0 <= c < self.cols ==> #[trigger] self@[r][c] == self.cells@[r
                    * (self.cols as int) + c],
    {
        assert forall|r: int| 0 <= r < self.rows implies #[trigger] self@[r].len()
            == self.cols by {
            assert(self@[r] == Seq::new(
                self.cols as nat,
                |c: int| self.cells@[r * (self.cols as int) + c],
            ));
        }
    }

    fn empty_cells(n: usize) -> (cells: Vec<Option<Player>>)
        ensures
            cells.len() == n,
            forall|i: int| 0 <= i < n ==> cells@[i] is None,
    {
        let mut cells: Vec<Option<Player>> = Vec::new();
        let mut k: usize = 0;
        while k < n
            invariant
                k <= n,
                cells.len() == k,
                forall|i: int| 0 <= i < k ==> cells@[i] is None,
            decreases n - k,
        {
            cells.push(None);
            k = k + 1;
        }
        cells
    }

    /// Creates a board of the given dimensions with every cell empty.
    ///
    /// The canonical game is 6 rows by 7 columns, but any dimensions of at
    /// least one row and one column are accepted; the win scan derives its
    /// bounds from the dimensions.
    pub fn new(rows: usize, cols: usize) -> (board: Board)
        requires
            1 <= rows,
            1 <= cols,
            rows * cols <= usize::MAX,
        ensures
            board.inv(),
            board@ == empty_grid(rows as nat, cols as nat),
    {
        let cells = Self::empty_cells(rows * cols);
        let board = Board { rows, cols, cells };
        proof {
            board.lemma_view_shape();
            assert forall|r: int, c: int| 0 <= r < rows && 0 <= c < cols implies #[trigger] board@[r][c]
                is None by {
                lemma_row_major_index(rows as int, cols as int, r, c);
            }
            assert(board@ =~~= empty_grid(rows as nat, cols as nat));
        }
        board
    }

    /// Clears every cell in place, keeping the dimensions: the board is as
    /// newly created.
    pub fn reset(&mut self)
        requires
            old(self).inv(),
        ensures
            final(self).inv(),
            final(self)@ == empty_grid(old(self)@.len(), cols_of(old(self)@) as nat),
    {
        proof {
            old(self).lemma_view_shape();
        }
        let n: usize = self.cells.len();
        self.cells = Self::empty_cells(n);
        proof {
            self.lemma_view_shape();
            let rows: int = self.rows as int;
            let cols: int = self.cols as int;
            assert forall|r: int, c: int| 0 <= r < rows && 0 <= c < cols implies #[trigger] self@[r][c]
                is None by {
                lemma_row_major_index(rows, cols, r, c);
            }
            assert(self@ =~~= empty_grid(self.rows as nat, self.cols as nat));
        }
    }

    /// The number of rows.
    pub fn rows(&self) -> (rows: usize)
        requires
            self.inv(),
        ensures
            rows == rows_of(self@),
    {
        proof {
            self.lemma_view_shape();
        }
        self.rows
    }

    /// The number of columns.
    pub fn cols(&self) -> (cols: usize)
        requires
            self.inv(),
        ensures
            cols == cols_of(self@),
    {
        proof {
            self.lemma_view_shape();
        }
        self.cols
    }

    fn at(&self, r: usize, c: usize) -> (cell: Option<Player>)
        requires
            self.wf(),
            r < self.rows,
            c < self.cols,
        ensures
            cell == self@[r as int][c as int],
    {
        proof {
            self.lemma_view_shape();
            lemma_row_major_index(self.rows as int, self.cols as int, r as int, c as int);
        }
        self.cells[r * self.cols + c]
    }

    /// The cell at `row`, `col`: `None` when empty, the occupying player
    /// otherwise. Read-only; presentation layers render from this.
    pub fn get(&self, row: usize, col: usize) -> (cell: Option<Player>)
        requires
            self.inv(),
            row < rows_of(self@),
            col < cols_of(self@),
        ensures
            cell == self@[row as int][col as int],
    {
        proof {
            self.lemma_view_shape();
        }
        self.at(row, col)
    }

    fn lowest_empty(&self, col: usize) -> (row: usize)
        requires
            self.wf(),
            col < self.cols,
            self@[0][col as int] is None,
        ensures
            row < self@.len(),
            self@[row as int][col as int] is None,
            forall|r: int| row < r < self@.len() ==> self@[r][col as int] is Some,
    {
        proof {
            self.lemma_view_shape();
        }
        let mut row: usize = self.rows - 1;
        while self.at(row, col).is_some()
            invariant
                self.wf(),
                col < self.cols,
                row < self.rows,
                self@.len() == self.rows,
                self@[0][col as int] is None,
                forall|r: int| row < r < self@.len() ==> self@[r][col as int] is Some,
            decreases row,
        {
            assert(row >= 1);
            row = row - 1;
        }
        row
    }

    /// Drops `player` into `column`: the piece falls to the lowest empty cell
    /// of the column and the row it lands in is returned. A column outside
    /// `[0, cols)` or a full column is reported as an error, and neither
    /// error mutates the board.
    pub fn drop_piece(&mut self, column: isize, player: Player) -> (result: Result<
        usize,
        DropError,
    >)
        requires
            old(self).inv(),
        ensures
            final(self).inv(),
            rows_of(final(self)@) == rows_of(old(self)@),
            cols_of(final(self)@) == cols_of(old(self)@),
            match result {
                Ok(row) => {
                    &&& 0 <= column < cols_of(old(self)@)
                    &&& old(self)@[0][column as int] is None
                    &&& 0 <= row < rows_of(old(self)@)
                    &&& old(self)@[row as int][column as int] is None
                    &&& forall|r: int|
                        row < r < rows_of(old(self)@) ==> old(self)@[r][column as int] is Some
                    &&& final(self)@ == old(self)@.update(
                        row as int,
                        old(self)@[row as int].update(column as int, Some(player)),
                    )
                },
                Err(e) => {
                    &&& final(self)@ == old(self)@
                    &&& match e {
                        DropError::ColumnOutOfRange => !(0 <= column < cols_of(old(self)@)),
                        DropError::ColumnFull => 0 <= column < cols_of(old(self)@) && old(
                            self,
                        )@[0][column as int] is Some,
                    }
                },
            },
    {
        proof {
            old(self).lemma_view_shape();
        }
        if column < 0 || column as usize >= self.cols {
            return Err(DropError::ColumnOutOfRange);
        }
        let col: usize = column as usize;
        if self.at(0, col).is_some() {
            return Err(DropError::ColumnFull);
        }
        let row: usize = self.lowest_empty(col);
        let ghost vold = self@;
        proof {
            lemma_row_major_index(self.rows as int, self.cols as int, row as int, col as int);
        }
        let k: usize = row * self.cols + col;
        self.cells.set(k, Some(player));
        proof {
            self.lemma_view_shape();
            let rows: int = self.rows as int;
            let cols: int = self.cols as int;
            let target = vold.update(
                row as int,
                vold[row as int].update(col as int, Some(player)),
            );
            assert forall|r: int, c: int| 0 <= r < rows && 0 <= c < cols implies #[trigger] self@[r][c]
                == target[r][c] by {
                lemma_row_major_index(rows, cols, r, c);
                if r * cols + c == row as int * cols + col as int {
                    lemma_row_major_injective(cols, r, c, row as int, col as int);
                } else {
                    assert(self@[r][c] == vold[r][c]);
                    assert(!(r == row as int && c == col as int));
                }
            }
            assert(self@ =~~= target);
            assert forall|r: int, c: int|
                0 <= r && r + 1 < rows && 0 <= c < cols && #[trigger] self@[r][c]
                    is Some implies self@[r + 1][c] is Some by {
                if r == row as int && c == col as int {
                    assert(vold[r + 1][c] is Some);
                    assert(!(r + 1 == row as int && c == col as int));
                } else {
                    assert(vold[r][c] is Some);
                    assert(vold[r + 1][c] is Some);
                    assert(!(r + 1 == row as int && c == col as int));
                }
            }
            assert(gravity_ok(self@));
        }
        Ok(row)
    }

    /// True exactly when the board is full. By the gravity invariant it is
    /// enough to inspect the top row: a filled top row means a filled board.
    pub fn is_full(&self) -> (full: bool)
        requires
            self.inv(),
        ensures
            full == top_row_full(self@),
            full == board_full(self@),
    {
        proof {
            self.lemma_view_shape();
        }
        let mut c: usize = 0;
        while c < self.cols
            invariant
                self.inv(),
                c <= self.cols,
                self@.len() == self.rows,
                cols_of(self@) == self.cols,
                forall|cc: int| 0 <= cc < c ==> self@[0][cc] is Some,
            decreases self.cols - c,
        {
            if self.at(0, c).is_none() {
                assert(!top_row_full(self@));
                assert(!board_full(self@));
                return false;
            }
            c = c + 1;
        }
        proof {
            assert(top_row_full(self@));
            lemma_full_top_row(self@);
        }
        true
    }

    fn h_win_at(&self, r: usize, c: usize) -> (w: Option<Player>)
        requires
            self.wf(),
            r < self.rows,
            c + 3 < self.cols,
        ensures
            w == h_win_value(self@, r as int, c as int),
    {
        match self.at(r, c) {
            None => None,
            Some(p) => {
                if cell_is(self.at(r, c + 1), p) && cell_is(self.at(r, c + 2), p) && cell_is(
                    self.at(r, c + 3),
                    p,
                ) {
                    Some(p)
                } else {
                    None
                }
            },
        }
    }

    fn v_win_at(&self, r: usize, c: usize) -> (w: Option<Player>)
        requires
            self.wf(),
            r + 3 < self.rows,
            c < self.cols,
        ensures
            w == v_win_value(self@, r as int, c as int),
    {
        match self.at(r, c) {
            None => None,
            Some(p) => {
                if cell_is(self.at(r + 1, c), p) && cell_is(self.at(r + 2, c), p) && cell_is(
                    self.at(r + 3, c),
                    p,
                ) {
                    Some(p)
                } else {
                    None
                }
            },
        }
    }

    fn a_win_at(&self, r: usize, c: usize) -> (w: Option<Player>)
        requires
            self.wf(),
            3 <= r < self.rows,
            c + 3 < self.cols,
        ensures
            w == a_win_value(self@, r as int, c as int),
    {
        match self.at(r, c) {
            None => None,
            Some(p) => {
                if cell_is(self.at(r - 1, c + 1), p) && cell_is(self.at(r - 2, c + 2), p)
                    && cell_is(self.at(r - 3, c + 3), p) {
                    Some(p)
                } else {
                    None
                }
            },
        }
    }

    fn d_win_at(&self, r: usize, c: usize) -> (w: Option<Player>)
        requires
            self.wf(),
            3 <= r < self.rows,
            3 <= c < self.cols,
        ensures
            w == d_win_value(self@, r as int, c as int),
    {
        match self.at(r, c) {
            None => None,
            Some(p) => {
                if cell_is(self.at(r - 1, c - 1), p) && cell_is(self.at(r - 2, c - 2), p)
                    && cell_is(self.at(r - 3, c - 3), p) {
                    Some(p)
                } else {
                    None
                }
            },
        }
    }

    /// Scans for a line of four in all four orientations and returns its
    /// player; of several lines the one matched last in scan order is
    /// reported, and `None` means no line of four exists anywhere.
    pub fn check_winner(&self) -> (winner: Option<Player>)
        requires
            self.inv(),
        ensures
            winner == winner_spec(self@),
    {
        proof {
            self.lemma_view_shape();
        }
        let ghost v = self@;
        let rows: usize = self.rows;
        let cols: usize = self.cols;
        let mut winner: Option<Player> = None;

        // horizontal windows: start column i, sliding over rows j
        if cols >= 4 {
            let hi: usize = cols - 3;
            let mut i: usize = 0;
            while i < hi
                invariant
                    self.inv(),
                    v == self@,
                    rows == self.rows,
                    cols == self.cols,
                    self@.len() == rows,
                    cols_of(self@) == cols,
                    cols >= 4,
                    hi == cols - 3,
                    i <= hi,
                    winner == scan_outer(h_step(v), rows as nat, i as nat, None::<Player>),
                decreases hi - i,
            {
                let ghost acc0 = winner;
                let mut j: usize = 0;
                while j < rows
                    invariant
                        self.inv(),
                        v == self@,
                        rows == self.rows,
                        cols == self.cols,
                        self@.len() == rows,
                        cols_of(self@) == cols,
                        cols >= 4,
                        hi == cols - 3,
                        i < hi,
                        j <= rows,
                        acc0 == scan_outer(h_step(v), rows as nat, i as nat, None::<Player>),
                        winner == scan_inner(h_step(v), i as int, j as nat, acc0),
                    decreases rows - j,
                {
                    let w = self.h_win_at(j, i);
                    if w.is_some() {
                        winner = w;
                    }
                    proof {
                        assert(h_step(v)(i as int, j as int) == h_win_value(v, j as int, i as int));
                        assert(winner == scan_inner(h_step(v), i as int, (j + 1) as nat, acc0));
                    }
                    j = j + 1;
                }
                proof {
                    assert(scan_outer(h_step(v), rows as nat, (i + 1) as nat, None::<Player>)
                        == scan_inner(h_step(v), i as int, rows as nat, acc0));
                }
                i = i + 1;
            }
        }
        assert(winner == scan_outer(h_step(v), rows as nat, span(cols as int), None::<Player>));
        let ghost after_h = winner;

        // vertical windows: start row i, sliding over columns j
        if rows >= 4 {
            let hi: usize = rows - 3;
            let mut i: usize = 0;
            while i < hi
                invariant
                    self.inv(),
                    v == self@,
                    rows == self.rows,
                    cols == self.cols,
                    self@.len() == rows,
                    cols_of(self@) == cols,
                    rows >= 4,
                    hi == rows - 3,
                    i <= hi,
                    winner == scan_outer(v_step(v), cols as nat, i as nat, after_h),
                decreases hi - i,
            {
                let ghost acc0 = winner;
                let mut j: usize = 0;
                while j < cols
                    invariant
                        self.inv(),
                        v == self@,
                        rows == self.rows,
                        cols == self.cols,
                        self@.len() == rows,
                        cols_of(self@) == cols,
                        rows >= 4,
                        hi == rows - 3,
                        i < hi,
                        j <= cols,
                        acc0 == scan_outer(v_step(v), cols as nat, i as nat, after_h),
                        winner == scan_inner(v_step(v), i as int, j as nat, acc0),
                    decreases cols - j,
                {
                    let w = self.v_win_at(i, j);
                    if w.is_some() {
                        winner = w;
                    }
                    proof {
                        assert(v_step(v)(i as int, j as int) == v_win_value(v, i as int, j as int));
                        assert(winner == scan_inner(v_step(v), i as int, (j + 1) as nat, acc0));
                    }
                    j = j + 1;
                }
                proof {
                    assert(scan_outer(v_step(v), cols as nat, (i + 1) as nat, after_h)
                        == scan_inner(v_step(v), i as int, cols as nat, acc0));
                }
                i = i + 1;
            }
        }
        assert(winner == scan_outer(v_step(v), cols as nat, span(rows as int), after_h));
        let ghost after_v = winner;

        // ascending diagonals: anchor row i + 3, anchor column j
        if rows >= 4 && cols >= 4 {
            let hi: usize = rows - 3;
            let wide: usize = cols - 3;
            let mut i: usize = 0;
            while i < hi
                invariant
                    self.inv(),
                    v == self@,
                    rows == self.rows,
                    cols == self.cols,
                    self@.len() == rows,
                    cols_of(self@) == cols,
                    rows >= 4,
                    cols >= 4,
                    hi == rows - 3,
                    wide == cols - 3,
                    i <= hi,
                    winner == scan_outer(a_step(v), wide as nat, i as nat, after_v),
                decreases hi - i,
            {
                let ghost acc0 = winner;
                let mut j: usize = 0;
                while j < wide
                    invariant
                        self.inv(),
                        v == self@,
                        rows == self.rows,
                        cols == self.cols,
                        self@.len() == rows,
                        cols_of(self@) == cols,
                        rows >= 4,
                        cols >= 4,
                        hi == rows - 3,
                        wide == cols - 3,
                        i < hi,
                        j <= wide,
                        acc0 == scan_outer(a_step(v), wide as nat, i as nat, after_v),
                        winner == scan_inner(a_step(v), i as int, j as nat, acc0),
                    decreases wide - j,
                {
                    let w = self.a_win_at(i + 3, j);
                    if w.is_some() {
                        winner = w;
                    }
                    proof {
                        assert(a_step(v)(i as int, j as int) == a_win_value(
                            v,
                            i as int + 3,
                            j as int,
                        ));
                        assert(winner == scan_inner(a_step(v), i as int, (j + 1) as nat, acc0));
                    }
                    j = j + 1;
                }
                proof {
                    assert(scan_outer(a_step(v), wide as nat, (i + 1) as nat, after_v)
                        == scan_inner(a_step(v), i as int, wide as nat, acc0));
                }
                i = i + 1;
            }
        } else {
            proof {
                if rows >= 4 {
                    lemma_scan_outer_empty(a_step(v), span(rows as int), after_v);
                }
            }
        }
        assert(winner == scan_outer(a_step(v), span(cols as int), span(rows as int), after_v));
        let ghost after_a = winner;

        // descending diagonals: anchor row i + 3, anchor column j + 3
        if rows >= 4 && cols >= 4 {
            let hi: usize = rows - 3;
            let wide: usize = cols - 3;
            let mut i: usize = 0;
            while i < hi
                invariant
                    self.inv(),
                    v == self@,
                    rows == self.rows,
                    cols == self.cols,
                    self@.len() == rows,
                    cols_of(self@) == cols,
                    rows >= 4,
                    cols >= 4,
                    hi == rows - 3,
                    wide == cols - 3,
                    i <= hi,
                    winner == scan_outer(d_step(v), wide as nat, i as nat, after_a),
                decreases hi - i,
            {
                let ghost acc0 = winner;
                let mut j: usize = 0;
                while j < wide
                    invariant
                        self.inv(),
                        v == self@,
                        rows == self.rows,
                        cols == self.cols,
                        self@.len() == rows,
                        cols_of(self@) == cols,
                        rows >= 4,
                        cols >= 4,
                        hi == rows - 3,
                        wide == cols - 3,
                        i < hi,
                        j <= wide,
                        acc0 == scan_outer(d_step(v), wide as nat, i as nat, after_a),
                        winner == scan_inner(d_step(v), i as int, j as nat, acc0),
                    decreases wide - j,
                {
                    let w = self.d_win_at(i + 3, j + 3);
                    if w.is_some() {
                        winner = w;
                    }
                    proof {
                        assert(d_step(v)(i as int, j as int) == d_win_value(
                            v,
                            i as int + 3,
                            j as int + 3,
                        ));
                        assert(winner == scan_inner(d_step(v), i as int, (j + 1) as nat, acc0));
                    }
                    j = j + 1;
                }
                proof {
                    assert(scan_outer(d_step(v), wide as nat, (i + 1) as nat, after_a)
                        == scan_inner(d_step(v), i as int, wide as nat, acc0));
                }
                i = i + 1;
            }
        } else {
            proof {
                if rows >= 4 {
                    lemma_scan_outer_empty(d_step(v), span(rows as int), after_a);
                }
            }
        }
        assert(winner == scan_outer(d_step(v), span(cols as int), span(rows as int), after_a));
        assert(winner == winner_spec(v));
        winner
    }
}

} // verus!
