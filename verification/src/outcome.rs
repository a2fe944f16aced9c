//! Win detection: what a line of four is, and the exact left-to-right scan
//! the winner query performs.
//!
//! The winner query slides a four-cell window across the grid in four
//! orientations — horizontal, vertical, ascending diagonal, descending
//! diagonal — in that order, and the last window matched by the scan wins.
//! [`winner_spec`] pins that scan down as a fold; [`has_line`] is the
//! order-free statement, and the lemmas below prove the two agree on
//! whether anybody has won.

use vstd::prelude::*;

use crate::grid::{cols_of, rect, rows_of, top_row_full, Grid};
use crate::player::Player;

verus! {

/// The winner of the horizontal window in row `r` at start column `c`:
/// the player holding all four cells, `None` otherwise.
pub open spec fn h_win_value(v: Grid, r: int, c: int) -> Option<Player> {
    if v[r][c] is Some && v[r][c + 1] == v[r][c] && v[r][c + 2] == v[r][c] && v[r][c + 3]
        == v[r][c] {
        v[r][c]
    } else {
        None
    }
}

/// The winner of the vertical window in column `c` at start row `r`.
pub open spec fn v_win_value(v: Grid, r: int, c: int) -> Option<Player> {
    if v[r][c] is Some && v[r + 1][c] == v[r][c] && v[r + 2][c] == v[r][c] && v[r + 3][c]
        == v[r][c] {
        v[r][c]
    } else {
        None
    }
}

/// The winner of the ascending-diagonal window anchored at `(r, c)`:
/// the cells `(r, c)`, `(r-1, c+1)`, `(r-2, c+2)`, `(r-3, c+3)`.
pub open spec fn a_win_value(v: Grid, r: int, c: int) -> Option<Player> {
    if v[r][c] is Some && v[r - 1][c + 1] == v[r][c] && v[r - 2][c + 2] == v[r][c] && v[r - 3][c
        + 3] == v[r][c] {
        v[r][c]
    } else {
        None
    }
}

/// The winner of the descending-diagonal window anchored at `(r, c)`:
/// the cells `(r, c)`, `(r-1, c-1)`, `(r-2, c-2)`, `(r-3, c-3)`.
pub open spec fn d_win_value(v: Grid, r: int, c: int) -> Option<Player> {
    if v[r][c] is Some && v[r - 1][c - 1] == v[r][c] && v[r - 2][c - 2] == v[r][c] && v[r - 3][c
        - 3] == v[r][c] {
        v[r][c]
    } else {
        None
    }
}

/// The horizontal scan as a step function: outer index `i` is the start
/// column, inner index `j` the row.
pub open spec fn h_step(v: Grid) -> spec_fn(int, int) -> Option<Player> {
    |i: int, j: int| h_win_value(v, j, i)
}

/// The vertical scan as a step function: outer index `i` is the start row,
/// inner index `j` the column.
pub open spec fn v_step(v: Grid) -> spec_fn(int, int) -> Option<Player> {
    |i: int, j: int| v_win_value(v, i, j)
}

/// The ascending-diagonal scan as a step function: outer index `i` names
/// anchor row `i + 3`, inner index `j` the anchor column.
pub open spec fn a_step(v: Grid) -> spec_fn(int, int) -> Option<Player> {
    |i: int, j: int| a_win_value(v, i + 3, j)
}

/// The descending-diagonal scan as a step function: outer index `i` names
/// anchor row `i + 3`, inner index `j` anchor column `j + 3`.
pub open spec fn d_step(v: Grid) -> spec_fn(int, int) -> Option<Player> {
    |i: int, j: int| d_win_value(v, i + 3, j + 3)
}

/// The accumulator after the first `j` inner steps of outer iteration `i`:
/// a step that finds a window overwrites the accumulator, so the last match
/// wins.
pub open spec fn scan_inner(
    step: spec_fn(int, int) -> Option<Player>,
    i: int,
    j: nat,
    acc: Option<Player>,
) -> Option<Player>
    decreases j,
{
    if j == 0 {
        acc
    } else {
        match step(i, j - 1) {
            Some(p) => Some(p),
            None => scan_inner(step, i, (j - 1) as nat, acc),
        }
    }
}

/// The accumulator after the first `i` complete outer iterations, each
/// running `inner_len` inner steps.
pub open spec fn scan_outer(
    step: spec_fn(int, int) -> Option<Player>,
    inner_len: nat,
    i: nat,
    acc: Option<Player>,
) -> Option<Player>
    decreases i,
{
    if i == 0 {
        acc
    } else {
        scan_inner(step, i - 1, inner_len, scan_outer(step, inner_len, (i - 1) as nat, acc))
    }
}

/// How many four-cell windows fit along an axis of length `n`.
pub open spec fn span(n: int) -> nat {
    if n <= 3 {
        0
    } else {
        (n - 3) as nat
    }
}

/// The exact result of the winner query: the four orientations scanned in
/// order, each window overwriting the accumulator, so of several lines the
/// one matched last in scan order is reported.
pub open spec fn winner_spec(v: Grid) -> Option<Player> {
    let rows: int = rows_of(v);
    let cols: int = cols_of(v);
    let after_h = scan_outer(h_step(v), v.len(), span(cols), None);
    let after_v = scan_outer(v_step(v), v[0].len(), span(rows), after_h);
    let after_a = scan_outer(a_step(v), span(cols), span(rows), after_v);
    scan_outer(d_step(v), span(cols), span(rows), after_a)
}

/// Player `p` holds the horizontal line of four starting at `(r, c)`.
pub open spec fn line_h(v: Grid, p: Player, r: int, c: int) -> bool {
    &&& 0 <= r < rows_of(v)
    &&& 0 <= c
    &&& c + 3 < cols_of(v)
    &&& v[r][c] == Some(p)
    &&& v[r][c + 1] == Some(p)
    &&& v[r][c + 2] == Some(p)
    &&& v[r][c + 3] == Some(p)
}

/// Player `p` holds the vertical line of four starting at `(r, c)`.
pub open spec fn line_v(v: Grid, p: Player, r: int, c: int) -> bool {
    &&& 0 <= r
    &&& r + 3 < rows_of(v)
    &&& 0 <= c < cols_of(v)
    &&& v[r][c] == Some(p)
    &&& v[r + 1][c] == Some(p)
    &&& v[r + 2][c] == Some(p)
    &&& v[r + 3][c] == Some(p)
}

/// Player `p` holds the ascending-diagonal line of four anchored at `(r, c)`.
pub open spec fn line_a(v: Grid, p: Player, r: int, c: int) -> bool {
    &&& 3 <= r < rows_of(v)
    &&& 0 <= c
    &&& c + 3 < cols_of(v)
    &&& v[r][c] == Some(p)
    &&& v[r - 1][c + 1] == Some(p)
    &&& v[r - 2][c + 2] == Some(p)
    &&& v[r - 3][c + 3] == Some(p)
}

/// Player `p` holds the descending-diagonal line of four anchored at `(r, c)`.
pub open spec fn line_d(v: Grid, p: Player, r: int, c: int) -> bool {
    &&& 3 <= r < rows_of(v)
    &&& 3 <= c < cols_of(v)
    &&& v[r][c] == Some(p)
    &&& v[r - 1][c - 1] == Some(p)
    &&& v[r - 2][c - 2] == Some(p)
    &&& v[r - 3][c - 3] == Some(p)
}

/// Player `p` holds some line of four, in any of the four orientations.
pub open spec fn has_line(v: Grid, p: Player) -> bool {
    ||| exists|r: int, c: int| line_h(v, p, r, c)
    ||| exists|r: int, c: int| line_v(v, p, r, c)
    ||| exists|r: int, c: int| line_a(v, p, r, c)
    ||| exists|r: int, c: int| line_d(v, p, r, c)
}

/// A scan over no inner steps leaves the accumulator as it was.
pub proof fn lemma_scan_outer_empty(
    step: spec_fn(int, int) -> Option<Player>,
    i: nat,
    acc: Option<Player>,
)
    ensures
        scan_outer(step, 0, i, acc) == acc,
    decreases i,
{
    if i > 0 {
        lemma_scan_outer_empty(step, (i - 1) as nat, acc);
    }
}

proof fn lemma_scan_inner_sound(
    step: spec_fn(int, int) -> Option<Player>,
    i: int,
    j: nat,
    acc: Option<Player>,
    p: Player,
)
    requires
        scan_inner(step, i, j, acc) == Some(p),
    ensures
        acc == Some(p) || exists|b: int| 0 <= b < j && #[trigger] step(i, b) == Some(p),
    decreases j,
{
    if j > 0 {
        if step(i, j - 1) is Some {
            assert(step(i, j - 1) == Some(p));
        } else {
            lemma_scan_inner_sound(step, i, (j - 1) as nat, acc, p);
        }
    }
}

proof fn lemma_scan_outer_sound(
    step: spec_fn(int, int) -> Option<Player>,
    inner_len: nat,
    i: nat,
    acc: Option<Player>,
    p: Player,
)
    requires
        scan_outer(step, inner_len, i, acc) == Some(p),
    ensures
        acc == Some(p) || exists|a: int, b: int|
            0 <= a < i && 0 <= b < inner_len && #[trigger] step(a, b) == Some(p),
    decreases i,
{
    if i > 0 {
        let prev = scan_outer(step, inner_len, (i - 1) as nat, acc);
        lemma_scan_inner_sound(step, i - 1, inner_len, prev, p);
        if prev == Some(p) {
            lemma_scan_outer_sound(step, inner_len, (i - 1) as nat, acc, p);
        } else {
            let b: int = choose|b: int| 0 <= b < inner_len && #[trigger] step(i - 1, b) == Some(p);
            assert(step(i - 1, b) == Some(p));
        }
    }
}

proof fn lemma_scan_inner_finds(
    step: spec_fn(int, int) -> Option<Player>,
    i: int,
    j: nat,
    acc: Option<Player>,
)
    requires
        acc is Some || exists|b: int| 0 <= b < j && #[trigger] step(i, b) is Some,
    ensures
        scan_inner(step, i, j, acc) is Some,
    decreases j,
{
    if j > 0 {
        if step(i, j - 1) is Some {
        } else {
            if !(acc is Some) {
                let b: int = choose|b: int| 0 <= b < j && #[trigger] step(i, b) is Some;
                assert(0 <= b < j - 1 && step(i, b) is Some);
            }
            lemma_scan_inner_finds(step, i, (j - 1) as nat, acc);
        }
    }
}

proof fn lemma_scan_outer_finds(
    step: spec_fn(int, int) -> Option<Player>,
    inner_len: nat,
    i: nat,
    acc: Option<Player>,
)
    requires
        acc is Some || exists|a: int, b: int|
            0 <= a < i && 0 <= b < inner_len && #[trigger] step(a, b) is Some,
    ensures
        scan_outer(step, inner_len, i, acc) is Some,
    decreases i,
{
    if i > 0 {
        let prev = scan_outer(step, inner_len, (i - 1) as nat, acc);
        if acc is Some {
            lemma_scan_outer_finds(step, inner_len, (i - 1) as nat, acc);
            lemma_scan_inner_finds(step, i - 1, inner_len, prev);
        } else {
            let (a, b): (int, int) = choose|a: int, b: int|
                0 <= a < i && 0 <= b < inner_len && #[trigger] step(a, b) is Some;
            if a < i - 1 {
                assert(0 <= a < i - 1 && 0 <= b < inner_len && step(a, b) is Some);
                lemma_scan_outer_finds(step, inner_len, (i - 1) as nat, acc);
                lemma_scan_inner_finds(step, i - 1, inner_len, prev);
            } else {
                assert(step(i - 1, b) is Some);
                lemma_scan_inner_finds(step, i - 1, inner_len, prev);
            }
        }
    }
}

/// The scan never invents a winner: when it reports `p`, player `p` really
/// holds a line of four on the grid.
pub proof fn lemma_winner_sound(v: Grid, p: Player)
    requires
        rect(v),
        winner_spec(v) == Some(p),
    ensures
        has_line(v, p),
{
    let rows: int = rows_of(v);
    let cols: int = cols_of(v);
    let after_h = scan_outer(h_step(v), v.len(), span(cols), None);
    let after_v = scan_outer(v_step(v), v[0].len(), span(rows), after_h);
    let after_a = scan_outer(a_step(v), span(cols), span(rows), after_v);
    lemma_scan_outer_sound(d_step(v), span(cols), span(rows), after_a, p);
    if after_a == Some(p) {
        lemma_scan_outer_sound(a_step(v), span(cols), span(rows), after_v, p);
        if after_v == Some(p) {
            lemma_scan_outer_sound(v_step(v), v[0].len(), span(rows), after_h, p);
            if after_h == Some(p) {
                lemma_scan_outer_sound(h_step(v), v.len(), span(cols), None, p);
                let (a, b): (int, int) = choose|a: int, b: int|
                    0 <= a < span(cols) && 0 <= b < v.len() && #[trigger] h_step(v)(a, b) == Some(
                        p,
                    );
                assert(line_h(v, p, b, a));
            } else {
                let (a, b): (int, int) = choose|a: int, b: int|
                    0 <= a < span(rows) && 0 <= b < v[0].len() && #[trigger] v_step(v)(a, b)
                        == Some(p);
                assert(line_v(v, p, a, b));
            }
        } else {
            let (a, b): (int, int) = choose|a: int, b: int|
                0 <= a < span(rows) && 0 <= b < span(cols) && #[trigger] a_step(v)(a, b) == Some(
                    p,
                );
            assert(line_a(v, p, a + 3, b));
        }
    } else {
        let (a, b): (int, int) = choose|a: int, b: int|
            0 <= a < span(rows) && 0 <= b < span(cols) && #[trigger] d_step(v)(a, b) == Some(p);
        assert(line_d(v, p, a + 3, b + 3));
    }
}

/// The scan never misses a winner: when some player holds a line of four,
/// the scan reports a winner (of several lines, the one matched last).
pub proof fn lemma_winner_finds(v: Grid, p: Player)
    requires
        rect(v),
        has_line(v, p),
    ensures
        winner_spec(v) is Some,
{
    let rows: int = rows_of(v);
    let cols: int = cols_of(v);
    let after_h = scan_outer(h_step(v), v.len(), span(cols), None);
    let after_v = scan_outer(v_step(v), v[0].len(), span(rows), after_h);
    let after_a = scan_outer(a_step(v), span(cols), span(rows), after_v);
    if exists|r: int, c: int| line_h(v, p, r, c) {
        let (r, c): (int, int) = choose|r: int, c: int| line_h(v, p, r, c);
        assert(h_step(v)(c, r) == Some(p));
        assert(0 <= c < span(cols) && 0 <= r < v.len());
        lemma_scan_outer_finds(h_step(v), v.len(), span(cols), None);
    } else if exists|r: int, c: int| line_v(v, p, r, c) {
        let (r, c): (int, int) = choose|r: int, c: int| line_v(v, p, r, c);
        assert(v_step(v)(r, c) == Some(p));
        assert(0 <= r < span(rows) && 0 <= c < v[0].len());
        lemma_scan_outer_finds(v_step(v), v[0].len(), span(rows), after_h);
    } else if exists|r: int, c: int| line_a(v, p, r, c) {
        let (r, c): (int, int) = choose|r: int, c: int| line_a(v, p, r, c);
        assert(a_step(v)(r - 3, c) == Some(p));
        assert(0 <= r - 3 < span(rows) && 0 <= c < span(cols));
        lemma_scan_outer_finds(a_step(v), span(cols), span(rows), after_v);
    } else {
        let (r, c): (int, int) = choose|r: int, c: int| line_d(v, p, r, c);
        assert(d_step(v)(r - 3, c - 3) == Some(p));
        assert(0 <= r - 3 < span(rows) && 0 <= c - 3 < span(cols));
        lemma_scan_outer_finds(d_step(v), span(cols), span(rows), after_a);
    }
    if after_h is Some {
        lemma_scan_outer_finds(v_step(v), v[0].len(), span(rows), after_h);
    }
    if after_v is Some {
        lemma_scan_outer_finds(a_step(v), span(cols), span(rows), after_v);
    }
    if after_a is Some {
        lemma_scan_outer_finds(d_step(v), span(cols), span(rows), after_a);
    }
}

/// No false positive and no missed win: the scan reports no winner exactly
/// when no player holds a line of four.
pub proof fn lemma_winner_none_iff_no_line(v: Grid)
    requires
        rect(v),
    ensures
        (winner_spec(v) is None) <==> (forall|p: Player| !has_line(v, p)),
{
    if winner_spec(v) is None {
        assert forall|p: Player| !has_line(v, p) by {
            if has_line(v, p) {
                lemma_winner_finds(v, p);
            }
        }
    } else {
        let p = winner_spec(v)->Some_0;
        lemma_winner_sound(v, p);
    }
}

/// Queries are idempotent: the winner and the fullness answers are functions
/// of the grid alone, so repeated queries without an intervening drop agree.
pub proof fn lemma_queries_idempotent(
    v: Grid,
    w1: Option<Player>,
    w2: Option<Player>,
    f1: bool,
    f2: bool,
)
    requires
        w1 == winner_spec(v),
        w2 == winner_spec(v),
        f1 == top_row_full(v),
        f2 == top_row_full(v),
    ensures
        w1 == w2,
        f1 == f2,
{
}

} // verus!
