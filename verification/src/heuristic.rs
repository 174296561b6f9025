//! Pattern-window scoring: every five-cell window on the board is
//! scored for a player by the number of that player's stones in it and
//! by how many of the two cells just outside the window are empty.

use vstd::prelude::*;

verus! {

use crate::game::{Stone, BoardSeq, cell_at, in_bounds};

/// Value of a full five-in-a-row window.
pub const FIVE_SCORE: i32 = 1_000_000;

/// Value of four stones with both window ends open.
pub const OPEN_FOUR_SCORE: i32 = 10_000;

/// Value of four stones with one open end.
pub const HALF_FOUR_SCORE: i32 = 1_000;

/// Value of three stones with both ends open.
pub const OPEN_THREE_SCORE: i32 = 1_000;

/// Value of three stones with one open end.
pub const HALF_THREE_SCORE: i32 = 100;

/// Value of two stones with both ends open.
pub const OPEN_TWO_SCORE: i32 = 50;

/// Value of two stones with one open end.
pub const HALF_TWO_SCORE: i32 = 10;

/// Weight of the centrality bonus per stone.
pub const POSITIONAL_WEIGHT: i32 = 1;

/// A bound on the absolute value of a full board evaluation:
/// 900 windows of at most `FIVE_SCORE` per perspective, plus a
/// centrality bonus of at most 7 for each of the 225 cells.
pub const EVAL_BOUND: i32 = 900_001_575;

/// 1 when the cell holds `s`, else 0.
pub open spec fn stone_ind(cell: Option<Stone>, s: Stone) -> int {
    if cell == Some(s) {
        1
    } else {
        0
    }
}

/// How many of the five window cells starting at `(r, c)` along
/// `(dr, dc)` hold `s`.
pub open spec fn window_count(b: BoardSeq, r: int, c: int, dr: int, dc: int, s: Stone) -> int {
    stone_ind(cell_at(b, r, c), s) + stone_ind(cell_at(b, r + dr, c + dc), s) + stone_ind(
        cell_at(b, r + 2 * dr, c + 2 * dc),
        s,
    ) + stone_ind(cell_at(b, r + 3 * dr, c + 3 * dc), s) + stone_ind(
        cell_at(b, r + 4 * dr, c + 4 * dc),
        s,
    )
}

/// An end cell counts as open when it lies on the board and is empty.
pub open spec fn end_open(b: BoardSeq, r: int, c: int) -> bool {
    in_bounds(r, c) && cell_at(b, r, c) is None
}

/// Number of open cells just outside the two ends of the window
/// (0, 1, or 2).
pub open spec fn open_ends(b: BoardSeq, r: int, c: int, dr: int, dc: int) -> int {
    (if end_open(b, r - dr, c - dc) {
        1int
    } else {
        0int
    }) + (if end_open(b, r + 5 * dr, c + 5 * dc) {
        1int
    } else {
        0int
    })
}

/// Table value of a window with `count` own stones and `ends` open
/// ends; a blocked window (zero open ends) is worth nothing below
/// five stones.
pub open spec fn pattern_value(count: int, ends: int) -> int {
    if count == 5 {
        FIVE_SCORE as int
    } else if count == 4 {
        if ends == 2 {
            OPEN_FOUR_SCORE as int
        } else if ends == 1 {
            HALF_FOUR_SCORE as int
        } else {
            0
        }
    } else if count == 3 {
        if ends == 2 {
            OPEN_THREE_SCORE as int
        } else if ends == 1 {
            HALF_THREE_SCORE as int
        } else {
            0
        }
    } else if count == 2 {
        if ends == 2 {
            OPEN_TWO_SCORE as int
        } else if ends == 1 {
            HALF_TWO_SCORE as int
        } else {
            0
        }
    } else {
        0
    }
}

/// Score of one window for player `s`: worthless when any opponent
/// stone sits in it, else the table value.
pub open spec fn pattern_score(b: BoardSeq, r: int, c: int, dr: int, dc: int, s: Stone) -> int {
    if window_count(b, r, c, dr, dc, s.flipped()) > 0 {
        0
    } else {
        pattern_value(window_count(b, r, c, dr, dc, s), open_ends(b, r, c, dr, dc))
    }
}

/// The window starting at `(r, c)` along `(dr, dc)` lies entirely on
/// the board.
pub open spec fn window_fits(r: int, c: int, dr: int, dc: int) -> bool {
    in_bounds(r, c) && in_bounds(r + 4 * dr, c + 4 * dc)
}

/// Combined score of the four windows that start at `(r, c)`, one per
/// scan direction, counting only those that fit on the board.
pub open spec fn cell_pattern_total(b: BoardSeq, r: int, c: int, s: Stone) -> int {
    (if window_fits(r, c, 0, 1) {
        pattern_score(b, r, c, 0, 1, s)
    } else {
        0
    }) + (if window_fits(r, c, 1, 0) {
        pattern_score(b, r, c, 1, 0, s)
    } else {
        0
    }) + (if window_fits(r, c, 1, 1) {
        pattern_score(b, r, c, 1, 1, s)
    } else {
        0
    }) + (if window_fits(r, c, 1, -1) {
        pattern_score(b, r, c, 1, -1, s)
    } else {
        0
    })
}

/// Sum of `cell_pattern_total` over the first `i` cells in row-major
/// order.
pub open spec fn pattern_prefix(b: BoardSeq, i: nat, s: Stone) -> int
    decreases i,
{
    if i == 0 {
        0
    } else {
        pattern_prefix(b, (i - 1) as nat, s) + cell_pattern_total(
            b,
            (i - 1) as int / 15,
            (i - 1) as int % 15,
            s,
        )
    }
}

/// Pattern score of the whole board for player `s`.
pub open spec fn pattern_total(b: BoardSeq, s: Stone) -> int {
    pattern_prefix(b, 225, s)
}

/// Absolute difference of two integers.
pub open spec fn abs_diff(a: int, b: int) -> int {
    if a >= b {
        a - b
    } else {
        b - a
    }
}

/// Centrality bonus of a cell: higher the closer the cell is to the
/// board centre, never negative.
pub open spec fn center_bonus(r: int, c: int) -> int {
    let d = abs_diff(r, 7) + abs_diff(c, 7);
    if (POSITIONAL_WEIGHT as int) * 7 - d > 0 {
        (POSITIONAL_WEIGHT as int) * 7 - d
    } else {
        0
    }
}

/// Positional contribution of one cell from the agent's perspective.
pub open spec fn cell_positional(cell: Option<Stone>, r: int, c: int, agent: Stone) -> int {
    if cell == Some(agent) {
        center_bonus(r, c)
    } else if cell == Some(agent.flipped()) {
        -center_bonus(r, c)
    } else {
        0
    }
}

/// Sum of `cell_positional` over the first `i` cells in row-major
/// order.
pub open spec fn positional_prefix(b: BoardSeq, i: nat, agent: Stone) -> int
    decreases i,
{
    if i == 0 {
        0
    } else {
        positional_prefix(b, (i - 1) as nat, agent) + cell_positional(
            b[(i - 1) as int],
            (i - 1) as int / 15,
            (i - 1) as int % 15,
            agent,
        )
    }
}

/// Positional score of the whole board from the agent's perspective.
pub open spec fn positional_total(b: BoardSeq, agent: Stone) -> int {
    positional_prefix(b, 225, agent)
}

/// Full static evaluation from the agent's perspective: own pattern
/// score minus the opponent's, plus the centrality balance.
pub open spec fn eval_spec(b: BoardSeq, agent: Stone) -> int {
    pattern_total(b, agent) - pattern_total(b, agent.flipped()) + positional_total(b, agent)
}

/// The table never leaves `[0, FIVE_SCORE]`.
pub proof fn lemma_pattern_score_range(b: BoardSeq, r: int, c: int, dr: int, dc: int, s: Stone)
    ensures
        0 <= pattern_score(b, r, c, dr, dc, s) <= 1_000_000,
{
}

/// The four windows of one cell together never leave
/// `[0, 4 * FIVE_SCORE]`.
pub proof fn lemma_cell_pattern_range(b: BoardSeq, r: int, c: int, s: Stone)
    ensures
        0 <= cell_pattern_total(b, r, c, s) <= 4_000_000,
{
    lemma_pattern_score_range(b, r, c, 0, 1, s);
    lemma_pattern_score_range(b, r, c, 1, 0, s);
    lemma_pattern_score_range(b, r, c, 1, 1, s);
    lemma_pattern_score_range(b, r, c, 1, -1, s);
}

/// A pattern prefix sum grows by at most `4 * FIVE_SCORE` per cell.
pub proof fn lemma_pattern_prefix_range(b: BoardSeq, i: nat, s: Stone)
    ensures
        0 <= pattern_prefix(b, i, s) <= 4_000_000 * i,
    decreases i,
{
    if i > 0 {
        lemma_pattern_prefix_range(b, (i - 1) as nat, s);
        lemma_cell_pattern_range(b, (i - 1) as int / 15, (i - 1) as int % 15, s);
    }
}

/// A positional prefix sum stays within `[-7i, 7i]`.
pub proof fn lemma_positional_prefix_range(b: BoardSeq, i: nat, agent: Stone)
    ensures
        -7 * i <= positional_prefix(b, i, agent) <= 7 * i,
    decreases i,
{
    if i > 0 {
        lemma_positional_prefix_range(b, (i - 1) as nat, agent);
    }
}

/// Every cell of a window that fits on the board lies on the board.
pub proof fn lemma_window_cells_in_bounds(r: int, c: int, dr: int, dc: int)
    requires
        window_fits(r, c, dr, dc),
        -1 <= dr <= 1,
        -1 <= dc <= 1,
    ensures
        in_bounds(r + dr, c + dc),
        in_bounds(r + 2 * dr, c + 2 * dc),
        in_bounds(r + 3 * dr, c + 3 * dc),
{
}

/// Whether `(rr, cc)` lies on the board and holds `s`.
fn cell_eq(board: &Vec<Option<Stone>>, rr: isize, cc: isize, s: Stone) -> (res: bool)
    requires
        board@.len() == 225,
        in_bounds(rr as int, cc as int),
    ensures
        res == (cell_at(board@, rr as int, cc as int) == Some(s)),
{
    let idx = (rr as usize) * 15 + (cc as usize);
    match board[idx] {
        Some(x) => x == s,
        None => false,
    }
}

/// Whether `(rr, cc)` lies on the board and is empty.
fn cell_open(board: &Vec<Option<Stone>>, rr: isize, cc: isize) -> (res: bool)
    requires
        board@.len() == 225,
    ensures
        res == end_open(board@, rr as int, cc as int),
{
    if rr < 0 || rr > 14 || cc < 0 || cc > 14 {
        false
    } else {
        let idx = (rr as usize) * 15 + (cc as usize);
        board[idx].is_none()
    }
}

/// How many of the five window cells hold `s`.
pub fn window_stones(
    board: &Vec<Option<Stone>>,
    r: usize,
    c: usize,
    dr: isize,
    dc: isize,
    s: Stone,
) -> (n: usize)
    requires
        board@.len() == 225,
        window_fits(r as int, c as int, dr as int, dc as int),
        -1 <= dr <= 1,
        -1 <= dc <= 1,
    ensures
        n as int == window_count(board@, r as int, c as int, dr as int, dc as int, s),
        n <= 5,
{
    proof {
        lemma_window_cells_in_bounds(r as int, c as int, dr as int, dc as int);
    }
    let r0 = r as isize;
    let c0 = c as isize;
    let mut n: usize = 0;
    if cell_eq(board, r0, c0, s) {
        n = n + 1;
    }
    if cell_eq(board, r0 + dr, c0 + dc, s) {
        n = n + 1;
    }
    if cell_eq(board, r0 + 2 * dr, c0 + 2 * dc, s) {
        n = n + 1;
    }
    if cell_eq(board, r0 + 3 * dr, c0 + 3 * dc, s) {
        n = n + 1;
    }
    if cell_eq(board, r0 + 4 * dr, c0 + 4 * dc, s) {
        n = n + 1;
    }
    n
}

/// How many of the two cells just outside the window are open.
pub fn window_open_ends(board: &Vec<Option<Stone>>, r: usize, c: usize, dr: isize, dc: isize) -> (n:
    u32)
    requires
        board@.len() == 225,
        r <= 14,
        c <= 14,
        -1 <= dr <= 1,
        -1 <= dc <= 1,
    ensures
        n as int == open_ends(board@, r as int, c as int, dr as int, dc as int),
        n <= 2,
{
    let r0 = r as isize;
    let c0 = c as isize;
    let mut n: u32 = 0;
    if cell_open(board, r0 - dr, c0 - dc) {
        n = n + 1;
    }
    if cell_open(board, r0 + 5 * dr, c0 + 5 * dc) {
        n = n + 1;
    }
    n
}

/// The full evaluation fits well inside `i32`.
pub proof fn lemma_eval_bound(b: BoardSeq, agent: Stone)
    ensures
        -(EVAL_BOUND as int) <= eval_spec(b, agent) <= EVAL_BOUND as int,
{
    lemma_pattern_prefix_range(b, 225, agent);
    lemma_pattern_prefix_range(b, 225, agent.flipped());
    lemma_positional_prefix_range(b, 225, agent);
}

} // verus!
