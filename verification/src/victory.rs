//! Victory detection: five co-linear same-owner stones in any of the
//! four axis directions (horizontal, vertical, both diagonals).

use vstd::prelude::*;

verus! {

use crate::game::{
    GameState, Stone, BoardSeq, board_wf, cell_at, cell_index, in_bounds,
};

/// Five consecutive cells starting at `(r, c)` along `(dr, dc)` all lie
/// on the board and all hold `s`.
pub open spec fn wins_dir(b: BoardSeq, r: int, c: int, dr: int, dc: int, s: Stone) -> bool {
    &&& in_bounds(r, c)
    &&& in_bounds(r + dr, c + dc)
    &&& in_bounds(r + 2 * dr, c + 2 * dc)
    &&& in_bounds(r + 3 * dr, c + 3 * dc)
    &&& in_bounds(r + 4 * dr, c + 4 * dc)
    &&& cell_at(b, r, c) == Some(s)
    &&& cell_at(b, r + dr, c + dc) == Some(s)
    &&& cell_at(b, r + 2 * dr, c + 2 * dc) == Some(s)
    &&& cell_at(b, r + 3 * dr, c + 3 * dc) == Some(s)
    &&& cell_at(b, r + 4 * dr, c + 4 * dc) == Some(s)
}

/// A run of five stones of colour `s` starts at `(r, c)` in one of the
/// four scan directions.
pub open spec fn wins_from(b: BoardSeq, r: int, c: int, s: Stone) -> bool {
    ||| wins_dir(b, r, c, 0, 1, s)
    ||| wins_dir(b, r, c, 1, 0, s)
    ||| wins_dir(b, r, c, 1, 1, s)
    ||| wins_dir(b, r, c, 1, -1, s)
}

/// Player `s` has five in a row somewhere on the board.
pub open spec fn is_winner(b: BoardSeq, s: Stone) -> bool {
    exists|r: int, c: int| #[trigger] wins_from(b, r, c, s)
}

/// Row-major scan for the first cell that starts a winning run,
/// beginning at cell index `i`.
pub open spec fn scan_winner(b: BoardSeq, i: nat) -> Option<Stone>
    decreases 225 - i,
{
    if i >= 225 {
        None
    } else {
        let r = i as int / 15;
        let c = i as int % 15;
        match b[i as int] {
            Some(s) => if wins_from(b, r, c, s) {
                Some(s)
            } else {
                scan_winner(b, i + 1)
            },
            None => scan_winner(b, i + 1),
        }
    }
}

/// The winner that a row-major scan reports first, if any.
pub open spec fn winner_of(b: BoardSeq) -> Option<Stone> {
    scan_winner(b, 0)
}

/// A reported winner really has five in a row.
pub proof fn lemma_scan_winner_sound(b: BoardSeq, i: nat)
    ensures
        scan_winner(b, i) matches Some(s) ==> is_winner(b, s),
    decreases 225 - i,
{
    if i < 225 {
        let r = i as int / 15;
        let c = i as int % 15;
        match b[i as int] {
            Some(s) => {
                if wins_from(b, r, c, s) {
                    assert(is_winner(b, s));
                } else {
                    lemma_scan_winner_sound(b, i + 1);
                }
            },
            None => {
                lemma_scan_winner_sound(b, i + 1);
            },
        }
    }
}

/// When the scan from `i` finds nothing, no run starts at any cell
/// with index `i` or later.
pub proof fn lemma_scan_winner_none(b: BoardSeq, i: nat)
    requires
        board_wf(b),
        scan_winner(b, i) is None,
    ensures
        forall|r: int, c: int, s: Stone|
            in_bounds(r, c) && cell_index(r, c) >= i ==> !#[trigger] wins_from(b, r, c, s),
    decreases 225 - i,
{
    if i < 225 {
        lemma_scan_winner_none(b, i + 1);
        assert forall|r: int, c: int, s: Stone|
            in_bounds(r, c) && cell_index(r, c) >= i implies !wins_from(b, r, c, s) by {
            if cell_index(r, c) == i {
                assert(r == i as int / 15 && c == i as int % 15) by (nonlinear_arith)
                    requires
                        0 <= r <= 14,
                        0 <= c <= 14,
                        r * 15 + c == i,
                ;
                if wins_from(b, r, c, s) {
                    assert(cell_at(b, r, c) == Some(s));
                }
            }
        }
    }
}

/// When the scan reports no winner, nobody has five in a row.
pub proof fn lemma_winner_of_none(b: BoardSeq)
    requires
        board_wf(b),
        winner_of(b) is None,
    ensures
        forall|s: Stone| !is_winner(b, s),
{
    lemma_scan_winner_none(b, 0);
    assert forall|s: Stone| !is_winner(b, s) by {
        if is_winner(b, s) {
            let (r, c) = choose|r: int, c: int| #[trigger] wins_from(b, r, c, s);
            assert(in_bounds(r, c) && cell_index(r, c) >= 0);
        }
    }
}

/// When somebody has five in a row, the scan reports a winner.
pub proof fn lemma_winner_of_finds(b: BoardSeq, s: Stone)
    requires
        board_wf(b),
        is_winner(b, s),
    ensures
        winner_of(b) is Some,
{
    if winner_of(b) is None {
        lemma_winner_of_none(b);
    }
}

/// When exactly one player has five in a row, the scan names that
/// player.
pub proof fn lemma_winner_of_only(b: BoardSeq, s: Stone)
    requires
        board_wf(b),
        is_winner(b, s),
        !is_winner(b, s.flipped()),
    ensures
        winner_of(b) == Some(s),
{
    lemma_winner_of_finds(b, s);
    lemma_scan_winner_sound(b, 0);
    let w = winner_of(b)->Some_0;
    if w != s {
        assert(w == s.flipped());
    }
}

/// Whether five cells starting at `(row, col)` along the given
/// direction all lie on the board and all hold `stone`.
pub fn check_direction(
    board: &Vec<Option<Stone>>,
    row: usize,
    col: usize,
    delta_row: isize,
    delta_col: isize,
    stone: Stone,
) -> (res: bool)
    requires
        board@.len() == 225,
        row <= 14,
        col <= 14,
        -1 <= delta_row <= 1,
        -1 <= delta_col <= 1,
    ensures
        res == wins_dir(board@, row as int, col as int, delta_row as int, delta_col as int, stone),
{
    let r0 = row as isize;
    let c0 = col as isize;
    probe_is(board, r0, c0, stone) && probe_is(board, r0 + delta_row, c0 + delta_col, stone)
        && probe_is(board, r0 + 2 * delta_row, c0 + 2 * delta_col, stone) && probe_is(
        board,
        r0 + 3 * delta_row,
        c0 + 3 * delta_col,
        stone,
    ) && probe_is(board, r0 + 4 * delta_row, c0 + 4 * delta_col, stone)
}

/// Reports a player with five in a row, or `None` when there is none.
/// The scan visits cells in row-major order and returns the first
/// winner it sees.
pub fn check_victory(game_state: &GameState) -> (res: Option<Stone>)
    requires
        game_state.wf(),
    ensures
        res == winner_of(game_state.board@),
        res matches Some(s) ==> is_winner(game_state.board@, s),
        res is None ==> forall|s: Stone| !is_winner(game_state.board@, s),
{
    let ghost b = game_state.board@;
    let mut r: usize = 0;
    while r < 15
        invariant
            game_state.wf(),
            b == game_state.board@,
            r <= 15,
            winner_of(b) == scan_winner(b, (r * 15) as nat),
        decreases 15 - r,
    {
        let mut c: usize = 0;
        while c < 15
            invariant
                game_state.wf(),
                b == game_state.board@,
                r < 15,
                c <= 15,
                winner_of(b) == scan_winner(b, (r * 15 + c) as nat),
            decreases 15 - c,
        {
            let ghost i = (r * 15 + c) as nat;
            proof {
                assert(i < 225);
                assert(i as int / 15 == r as int && i as int % 15 == c as int) by (nonlinear_arith)
                    requires
                        i == r * 15 + c,
                        r < 15,
                        c < 15,
                ;
            }
            match game_state.board[r * 15 + c] {
                Some(stone) => {
                    if check_direction(&game_state.board, r, c, 1, 0, stone) || check_direction(
                        &game_state.board,
                        r,
                        c,
                        0,
                        1,
                        stone,
                    ) || check_direction(&game_state.board, r, c, 1, 1, stone) || check_direction(
                        &game_state.board,
                        r,
                        c,
                        1,
                        -1,
                        stone,
                    ) {
                        proof {
                            assert(wins_from(b, r as int, c as int, stone));
                            assert(scan_winner(b, i) == Some(stone));
                            lemma_scan_winner_sound(b, 0);
                        }
                        return Some(stone);
                    }
                    proof {
                        assert(scan_winner(b, i) == scan_winner(b, i + 1));
                    }
                },
                None => {
                    proof {
                        assert(scan_winner(b, i) == scan_winner(b, i + 1));
                    }
                },
            }
            c = c + 1;
        }
        r = r + 1;
    }
    proof {
        assert(scan_winner(b, 225) is None);
        lemma_winner_of_none(b);
    }
    None
}

/// Marks a running game as over when a winner exists, or as a draw
/// when the board has filled up; an already finished game is left
/// untouched.
pub fn refresh_terminal_state(game_state: &mut GameState)
    requires
        old(game_state).wf(),
    ensures
        final(game_state).wf(),
        final(game_state).board@ == old(game_state).board@,
        final(game_state).current_turn == old(game_state).current_turn,
        old(game_state).is_game_over ==> final(game_state).is_game_over && final(game_state).winner
            == old(game_state).winner,
        !old(game_state).is_game_over ==> {
            &&& winner_of(old(game_state).board@) matches Some(w) ==> final(game_state).is_game_over
                && final(game_state).winner == Some(w)
            &&& winner_of(old(game_state).board@) is None && crate::game::valid_moves(
                old(game_state).board@,
            ).len() == 0 ==> final(game_state).is_game_over && final(game_state).winner is None
            &&& winner_of(old(game_state).board@) is None && crate::game::valid_moves(
                old(game_state).board@,
            ).len() != 0 ==> !final(game_state).is_game_over && final(game_state).winner == old(
                game_state,
            ).winner
        },
{
    if game_state.is_game_over {
        return ;
    }
    match check_victory(game_state) {
        Some(winner) => {
            game_state.is_game_over = true;
            game_state.winner = Some(winner);
        },
        None => {
            let moves = game_state.get_valid_moves();
            if moves.len() == 0 {
                game_state.is_game_over = true;
                game_state.winner = None;
            }
        },
    }
}

/// Whether `(rr, cc)` lies on the board and holds `stone`.
fn probe_is(board: &Vec<Option<Stone>>, rr: isize, cc: isize, stone: Stone) -> (res: bool)
    requires
        board@.len() == 225,
    ensures
        res == (in_bounds(rr as int, cc as int) && cell_at(board@, rr as int, cc as int) == Some(
            stone,
        )),
{
    if rr < 0 || rr > 14 || cc < 0 || cc > 14 {
        false
    } else {
        let idx = (rr as usize) * 15 + (cc as usize);
        match board[idx] {
            Some(x) => x == stone,
            None => false,
        }
    }
}

} // verus!
