//! Move-quality scoring used to rate a placed stone: counts the run
//! of consecutive own stones through a cell in each direction, with
//! open-end bonuses, for the player and for the opponent placing
//! there instead.

use vstd::prelude::*;

verus! {

use crate::game::{
    GameState, Stone, BoardSeq, board_wf, board_put, cell_at, in_bounds, move_legal,
};

/// Stones of colour `s` on consecutive cells, walking from `(r, c)`
/// in steps of `(dr, dc)` for at most `fuel` steps; stops at the edge
/// of the board, at an empty cell, or at an opponent stone.
pub open spec fn run_count(
    b: BoardSeq,
    r: int,
    c: int,
    dr: int,
    dc: int,
    s: Stone,
    fuel: nat,
) -> int
    decreases fuel,
{
    if fuel == 0 {
        0
    } else {
        let rr = r + dr;
        let cc = c + dc;
        if !in_bounds(rr, cc) {
            0
        } else {
            match cell_at(b, rr, cc) {
                Some(x) => if x == s {
                    1 + run_count(b, rr, cc, dr, dc, s, (fuel - 1) as nat)
                } else {
                    0
                },
                None => 0,
            }
        }
    }
}

/// Whether the walk from `(r, c)` in steps of `(dr, dc)` reaches an
/// empty cell before the edge of the board, an opponent stone, or the
/// end of its fuel.
pub open spec fn run_open(
    b: BoardSeq,
    r: int,
    c: int,
    dr: int,
    dc: int,
    s: Stone,
    fuel: nat,
) -> bool
    decreases fuel,
{
    if fuel == 0 {
        false
    } else {
        let rr = r + dr;
        let cc = c + dc;
        if !in_bounds(rr, cc) {
            false
        } else {
            match cell_at(b, rr, cc) {
                Some(x) => if x == s {
                    run_open(b, rr, cc, dr, dc, s, (fuel - 1) as nat)
                } else {
                    false
                },
                None => true,
            }
        }
    }
}

/// Table value of a run of `count` stones through a cell, by which of
/// its two ends are open.
pub open spec fn direction_value(count: int, left_open: bool, right_open: bool) -> int {
    if count == 5 {
        100000
    } else if count == 4 {
        if left_open && right_open {
            10000
        } else if left_open || right_open {
            1000
        } else {
            0
        }
    } else if count == 3 {
        if left_open && right_open {
            1500
        } else if left_open || right_open {
            100
        } else {
            0
        }
    } else if count == 2 {
        if left_open && right_open {
            100
        } else if left_open || right_open {
            10
        } else {
            0
        }
    } else {
        0
    }
}

/// Score of the run through `(r, c)` along one direction for `s`,
/// assuming `(r, c)` itself holds `s`.
pub open spec fn eval_direction_spec(
    b: BoardSeq,
    r: int,
    c: int,
    dr: int,
    dc: int,
    s: Stone,
) -> int {
    direction_value(
        1 + run_count(b, r, c, -dr, -dc, s, 4) + run_count(b, r, c, dr, dc, s, 4),
        run_open(b, r, c, -dr, -dc, s, 4),
        run_open(b, r, c, dr, dc, s, 4),
    )
}

/// Combined score of a stone of `s` at `(r, c)` on a board that
/// already holds it: the four own directions, plus the four
/// directions the opponent would get by playing there instead.
pub open spec fn eval_position_spec(b: BoardSeq, r: int, c: int, s: Stone) -> int {
    let ob = board_put(b, r, c, Some(s.flipped()));
    eval_direction_spec(b, r, c, 1, 0, s) + eval_direction_spec(b, r, c, 0, 1, s)
        + eval_direction_spec(b, r, c, 1, 1, s) + eval_direction_spec(b, r, c, 1, -1, s)
        + eval_direction_spec(ob, r, c, 1, 0, s.flipped()) + eval_direction_spec(
        ob,
        r,
        c,
        0,
        1,
        s.flipped(),
    ) + eval_direction_spec(ob, r, c, 1, 1, s.flipped()) + eval_direction_spec(
        ob,
        r,
        c,
        1,
        -1,
        s.flipped(),
    )
}

/// Value of playing `s` at `(row, col)`: zero for an illegal cell,
/// else the position score after the stone is placed.
pub open spec fn evaluate_move_spec(b: BoardSeq, row: int, col: int, s: Stone) -> int {
    if !move_legal(b, row, col) {
        0
    } else {
        eval_position_spec(board_put(b, row, col, Some(s)), row, col, s)
    }
}

/// Row-major scan for the highest-scoring empty cell, keeping the
/// first cell that strictly beats the best seen so far.
pub open spec fn best_scan(
    b: BoardSeq,
    s: Stone,
    i: nat,
    cur: Option<((usize, usize), i32)>,
    cur_score: int,
) -> Option<((usize, usize), i32)>
    decreases 225 - i,
{
    if i >= 225 {
        cur
    } else {
        let r = i as int / 15;
        let c = i as int % 15;
        if b[i as int] is None {
            let sc = evaluate_move_spec(b, r, c, s);
            if sc > cur_score {
                best_scan(b, s, i + 1, Some((((r as usize), (c as usize)), sc as i32)), sc)
            } else {
                best_scan(b, s, i + 1, cur, cur_score)
            }
        } else {
            best_scan(b, s, i + 1, cur, cur_score)
        }
    }
}

/// The best move and score that the row-major scan reports.
pub open spec fn find_best_spec(b: BoardSeq, s: Stone) -> Option<((usize, usize), i32)> {
    best_scan(b, s, 0, None, -1)
}

/// A direction score lies in the table's range.
pub proof fn lemma_eval_direction_range(b: BoardSeq, r: int, c: int, dr: int, dc: int, s: Stone)
    ensures
        0 <= eval_direction_spec(b, r, c, dr, dc, s) <= 100000,
{
}

/// A position score is the sum of eight direction scores.
pub proof fn lemma_eval_position_range(b: BoardSeq, r: int, c: int, s: Stone)
    ensures
        0 <= eval_position_spec(b, r, c, s) <= 800000,
{
    let ob = board_put(b, r, c, Some(s.flipped()));
    lemma_eval_direction_range(b, r, c, 1, 0, s);
    lemma_eval_direction_range(b, r, c, 0, 1, s);
    lemma_eval_direction_range(b, r, c, 1, 1, s);
    lemma_eval_direction_range(b, r, c, 1, -1, s);
    lemma_eval_direction_range(ob, r, c, 1, 0, s.flipped());
    lemma_eval_direction_range(ob, r, c, 0, 1, s.flipped());
    lemma_eval_direction_range(ob, r, c, 1, 1, s.flipped());
    lemma_eval_direction_range(ob, r, c, 1, -1, s.flipped());
}

/// A move score lies in the position-score range.
pub proof fn lemma_evaluate_move_range(b: BoardSeq, row: int, col: int, s: Stone)
    ensures
        0 <= evaluate_move_spec(b, row, col, s) <= 800000,
{
    if move_legal(b, row, col) {
        lemma_eval_position_range(board_put(b, row, col, Some(s)), row, col, s);
    }
}

/// Walks one side of a run: how many consecutive own stones it meets
/// and whether it ends at an empty cell.
fn scan_run(
    board: &Vec<Option<Stone>>,
    r: isize,
    c: isize,
    dr: isize,
    dc: isize,
    stone: Stone,
    fuel: u32,
) -> (res: (usize, bool))
    requires
        board@.len() == 225,
        -20 <= r <= 20,
        -20 <= c <= 20,
        -1 <= dr <= 1,
        -1 <= dc <= 1,
        fuel <= 4,
    ensures
        res.0 as int == run_count(board@, r as int, c as int, dr as int, dc as int, stone,
            fuel as nat),
        res.1 == run_open(board@, r as int, c as int, dr as int, dc as int, stone, fuel as nat),
        res.0 <= fuel,
    decreases fuel,
{
    if fuel == 0 {
        return (0, false);
    }
    let rr = r + dr;
    let cc = c + dc;
    if rr < 0 || rr > 14 || cc < 0 || cc > 14 {
        return (0, false);
    }
    let idx = (rr as usize) * 15 + (cc as usize);
    match board[idx] {
        Some(x) => {
            if x == stone {
                let (n, o) = scan_run(board, rr, cc, dr, dc, stone, fuel - 1);
                (n + 1, o)
            } else {
                (0, false)
            }
        },
        None => (0, true),
    }
}

/// Rates positions and single moves with a run-based table; the same
/// scoring serves to compare a player's move against the best move
/// available.
pub struct BoardEvaluator;

impl BoardEvaluator {
    /// Score of the run through `(row, col)` along one direction for
    /// `stone`, with open-end bonuses.
    fn evaluate_direction(
        board: &Vec<Option<Stone>>,
        row: usize,
        col: usize,
        delta_row: isize,
        delta_col: isize,
        stone: Stone,
    ) -> (score: i32)
        requires
            board@.len() == 225,
            row <= 14,
            col <= 14,
            -1 <= delta_row <= 1,
            -1 <= delta_col <= 1,
        ensures
            score as int == eval_direction_spec(
                board@,
                row as int,
                col as int,
                delta_row as int,
                delta_col as int,
                stone,
            ),
            0 <= score <= 100000,
    {
        let (left_count, left_open) = scan_run(
            board,
            row as isize,
            col as isize,
            -delta_row,
            -delta_col,
            stone,
            4,
        );
        let (right_count, right_open) = scan_run(
            board,
            row as isize,
            col as isize,
            delta_row,
            delta_col,
            stone,
            4,
        );
        let count = 1 + left_count + right_count;
        if count == 5 {
            100000
        } else if count == 4 {
            if left_open && right_open {
                10000
            } else if left_open || right_open {
                1000
            } else {
                0
            }
        } else if count == 3 {
            if left_open && right_open {
                1500
            } else if left_open || right_open {
                100
            } else {
                0
            }
        } else if count == 2 {
            if left_open && right_open {
                100
            } else if left_open || right_open {
                10
            } else {
                0
            }
        } else {
            0
        }
    }

    /// Combined score of the stone at `(row, col)`: its own four
    /// directions plus the four the opponent would get by playing
    /// there instead.
    fn evaluate_position(game_state: &GameState, row: usize, col: usize, stone: Stone) -> (score:
        i32)
        requires
            game_state.wf(),
            row <= 14,
            col <= 14,
        ensures
            score as int == eval_position_spec(game_state.board@, row as int, col as int, stone),
            0 <= score <= 800000,
    {
        let own = Self::evaluate_direction(&game_state.board, row, col, 1, 0, stone)
            + Self::evaluate_direction(&game_state.board, row, col, 0, 1, stone)
            + Self::evaluate_direction(&game_state.board, row, col, 1, 1, stone)
            + Self::evaluate_direction(&game_state.board, row, col, 1, -1, stone);
        let opponent_stone = stone.opponent();
        let mut opponent_state = game_state.clone();
        opponent_state.board[row * 15 + col] = Some(opponent_stone);
        let defence = Self::evaluate_direction(&opponent_state.board, row, col, 1, 0, opponent_stone)
            + Self::evaluate_direction(&opponent_state.board, row, col, 0, 1, opponent_stone)
            + Self::evaluate_direction(&opponent_state.board, row, col, 1, 1, opponent_stone)
            + Self::evaluate_direction(&opponent_state.board, row, col, 1, -1, opponent_stone);
        own + defence
    }

    /// Value of playing `stone` at `(row, col)`: zero for an illegal
    /// cell, else the position score after the stone is placed.
    pub fn evaluate_move(game_state: &GameState, row: usize, col: usize, stone: Stone) -> (score:
        i32)
        requires
            game_state.wf(),
        ensures
            score as int == evaluate_move_spec(game_state.board@, row as int, col as int, stone),
            0 <= score <= 800000,
    {
        if row > 14 || col > 14 {
            return 0;
        }
        if game_state.board[row * 15 + col].is_some() {
            return 0;
        }
        let mut simulated_state = game_state.clone();
        simulated_state.board[row * 15 + col] = Some(stone);
        Self::evaluate_position(&simulated_state, row, col, stone)
    }

    /// The first empty cell, in row-major order, whose move score
    /// strictly beats every earlier cell's, with that score; `None`
    /// only when the board is full.
    pub fn find_best_move(game_state: &GameState, stone: Stone) -> (res: Option<
        ((usize, usize), i32),
    >)
        requires
            game_state.wf(),
        ensures
            res == find_best_spec(game_state.board@, stone),
    {
        let ghost b = game_state.board@;
        let mut best_move: Option<((usize, usize), i32)> = None;
        let mut best_score: i32 = -1;
        let mut row: usize = 0;
        while row < 15
            invariant
                game_state.wf(),
                b == game_state.board@,
                row <= 15,
                best_score >= -1,
                find_best_spec(b, stone) == best_scan(
                    b,
                    stone,
                    (row * 15) as nat,
                    best_move,
                    best_score as int,
                ),
            decreases 15 - row,
        {
            let mut col: usize = 0;
            while col < 15
                invariant
                    game_state.wf(),
                    b == game_state.board@,
                    row < 15,
                    col <= 15,
                    best_score >= -1,
                    find_best_spec(b, stone) == best_scan(
                        b,
                        stone,
                        (row * 15 + col) as nat,
                        best_move,
                        best_score as int,
                    ),
                decreases 15 - col,
            {
                let ghost i = (row * 15 + col) as nat;
                proof {
                    assert(i < 225);
                    assert(i as int / 15 == row as int && i as int % 15 == col as int)
                        by (nonlinear_arith)
                        requires
                            i == row * 15 + col,
                            row < 15,
                            col < 15,
                    ;
                }
                if game_state.board[row * 15 + col].is_none() {
                    let score = Self::evaluate_move(game_state, row, col, stone);
                    proof {
                        lemma_evaluate_move_range(b, row as int, col as int, stone);
                    }
                    if score > best_score {
                        best_score = score;
                        best_move = Some(((row, col), score));
                    }
                } else {
                    proof {
                        assert(best_scan(b, stone, i, best_move, best_score as int) == best_scan(
                            b,
                            stone,
                            i + 1,
                            best_move,
                            best_score as int,
                        ));
                    }
                }
                col = col + 1;
            }
            row = row + 1;
        }
        best_move
    }
}

} // verus!
