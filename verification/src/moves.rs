//! Relevance-pruned move generation: candidate moves are the empty
//! cells within a small radius of an existing stone; an empty board
//! offers only the centre cell.

use vstd::prelude::*;

verus! {

use crate::game::{
    Stone, BoardSeq, board_wf, cell_at, in_bounds, move_legal,
};

/// Radius (in rows and columns) around existing stones within which
/// empty cells count as candidate moves.
pub const MOVE_RADIUS: usize = 2;

/// A stone sits at `(r2, c2)`, within `MOVE_RADIUS` of `(r, c)`.
pub open spec fn stone_near(b: BoardSeq, r: int, c: int, r2: int, c2: int) -> bool {
    &&& in_bounds(r2, c2)
    &&& cell_at(b, r2, c2) is Some
    &&& -2 <= r2 - r <= 2
    &&& -2 <= c2 - c <= 2
}

/// An empty on-board cell with a stone within `MOVE_RADIUS`.
pub open spec fn is_relevant(b: BoardSeq, r: int, c: int) -> bool {
    move_legal(b, r, c) && exists|r2: int, c2: int| #[trigger] stone_near(b, r, c, r2, c2)
}

/// At least one cell of the board holds a stone.
pub open spec fn board_has_stone(b: BoardSeq) -> bool {
    exists|i: int| 0 <= i < 225 && b[i] is Some
}

/// Row-major list of all relevant cells from cell index `i` onward.
pub open spec fn relevant_scan(b: BoardSeq, i: nat) -> Seq<(usize, usize)>
    decreases 225 - i,
{
    if i >= 225 {
        Seq::empty()
    } else {
        let r = i as int / 15;
        let c = i as int % 15;
        if is_relevant(b, r, c) {
            seq![(r as usize, c as usize)] + relevant_scan(b, i + 1)
        } else {
            relevant_scan(b, i + 1)
        }
    }
}

/// The candidate moves of a position, in row-major order: the relevant
/// cells, or just the centre cell while the board is empty.
pub open spec fn candidate_moves(b: BoardSeq) -> Seq<(usize, usize)> {
    if board_has_stone(b) {
        relevant_scan(b, 0)
    } else {
        seq![(7usize, 7usize)]
    }
}

/// Every entry of a relevant-cell scan is a relevant cell.
pub proof fn lemma_relevant_scan_elements(b: BoardSeq, i: nat)
    ensures
        forall|k: int|
            0 <= k < relevant_scan(b, i).len() ==> {
                let m = #[trigger] relevant_scan(b, i)[k];
                m.0 <= 14 && m.1 <= 14 && is_relevant(b, m.0 as int, m.1 as int)
            },
    decreases 225 - i,
{
    if i < 225 {
        lemma_relevant_scan_elements(b, i + 1);
        let r = i as int / 15;
        let c = i as int % 15;
        assert forall|k: int| 0 <= k < relevant_scan(b, i).len() implies {
            let m = #[trigger] relevant_scan(b, i)[k];
            m.0 <= 14 && m.1 <= 14 && is_relevant(b, m.0 as int, m.1 as int)
        } by {
            if is_relevant(b, r, c) {
                assert(in_bounds(r, c));
                if k > 0 {
                    assert(relevant_scan(b, i)[k] == relevant_scan(b, i + 1)[k - 1]);
                }
            } else {
                assert(relevant_scan(b, i)[k] == relevant_scan(b, i + 1)[k]);
            }
        }
    }
}

/// Every candidate move is a legal move onto an empty on-board cell.
pub proof fn lemma_candidates_legal(b: BoardSeq)
    requires
        board_wf(b),
    ensures
        forall|k: int|
            0 <= k < candidate_moves(b).len() ==> {
                let m = #[trigger] candidate_moves(b)[k];
                m.0 <= 14 && m.1 <= 14 && move_legal(b, m.0 as int, m.1 as int)
            },
{
    if board_has_stone(b) {
        lemma_relevant_scan_elements(b, 0);
    } else {
        assert(candidate_moves(b) == seq![(7usize, 7usize)]);
        if cell_at(b, 7, 7) is Some {
            assert(board_has_stone(b)) by {
                assert(0 <= 112 < 225 && b[112] is Some);
            }
        }
    }
}

/// Whether any cell of the board holds a stone.
pub fn scan_for_stone(board: &Vec<Option<Stone>>) -> (res: bool)
    requires
        board@.len() == 225,
    ensures
        res == board_has_stone(board@),
{
    let mut i: usize = 0;
    while i < 225
        invariant
            board@.len() == 225,
            i <= 225,
            forall|j: int| 0 <= j < i ==> !(board@[j] is Some),
        decreases 225 - i,
    {
        if board[i].is_some() {
            return true;
        }
        i = i + 1;
    }
    false
}

/// Whether `(r, c)` is an empty cell with a stone within
/// `MOVE_RADIUS`.
pub fn cell_is_relevant(board: &Vec<Option<Stone>>, r: usize, c: usize) -> (res: bool)
    requires
        board@.len() == 225,
        r <= 14,
        c <= 14,
    ensures
        res == is_relevant(board@, r as int, c as int),
{
    if board[r * 15 + c].is_some() {
        return false;
    }
    let lo_r: usize = if r >= 2 {
        r - 2
    } else {
        0
    };
    let hi_r: usize = if r + 2 <= 14 {
        r + 2
    } else {
        14
    };
    let lo_c: usize = if c >= 2 {
        c - 2
    } else {
        0
    };
    let hi_c: usize = if c + 2 <= 14 {
        c + 2
    } else {
        14
    };
    let mut r2: usize = lo_r;
    while r2 < hi_r + 1
        invariant
            board@.len() == 225,
            r <= 14,
            c <= 14,
            lo_r <= r2 <= hi_r + 1,
            cell_at(board@, r as int, c as int) is None,
            lo_r == (if r >= 2 { r - 2 } else { 0 }) && hi_r == (if r + 2 <= 14 { r + 2 } else { 14 }),
            lo_c == (if c >= 2 { c - 2 } else { 0 }) && hi_c == (if c + 2 <= 14 { c + 2 } else { 14 }),
            forall|rr: int, cc: int|
                lo_r <= rr < r2 && lo_c <= cc <= hi_c ==> !(cell_at(board@, rr, cc) is Some),
        decreases hi_r + 1 - r2,
    {
        let mut c2: usize = lo_c;
        while c2 < hi_c + 1
            invariant
                board@.len() == 225,
                r <= 14,
                c <= 14,
                lo_r <= r2 <= hi_r,
                lo_c <= c2 <= hi_c + 1,
                cell_at(board@, r as int, c as int) is None,
                lo_r == (if r >= 2 { r - 2 } else { 0 }) && hi_r == (if r + 2 <= 14 { r + 2 } else { 14 }),
                lo_c == (if c >= 2 { c - 2 } else { 0 }) && hi_c == (if c + 2 <= 14 { c + 2 } else { 14 }),
                forall|rr: int, cc: int|
                    lo_r <= rr < r2 && lo_c <= cc <= hi_c ==> !(cell_at(board@, rr, cc) is Some),
                forall|cc: int| lo_c <= cc < c2 ==> !(cell_at(board@, r2 as int, cc) is Some),
            decreases hi_c + 1 - c2,
        {
            if board[r2 * 15 + c2].is_some() {
                proof {
                    assert(stone_near(board@, r as int, c as int, r2 as int, c2 as int));
                }
                return true;
            }
            c2 = c2 + 1;
        }
        r2 = r2 + 1;
    }
    proof {
        assert forall|rr: int, cc: int| !stone_near(board@, r as int, c as int, rr, cc) by {
            if stone_near(board@, r as int, c as int, rr, cc) {
                assert(lo_r <= rr <= hi_r && lo_c <= cc <= hi_c);
            }
        }
    }
    false
}

/// All candidate moves of the position, in row-major order.
pub fn collect_candidates(board: &Vec<Option<Stone>>) -> (moves: Vec<(usize, usize)>)
    requires
        board@.len() == 225,
    ensures
        moves@ == candidate_moves(board@),
{
    let mut moves: Vec<(usize, usize)> = Vec::new();
    if !scan_for_stone(board) {
        moves.push((7, 7));
        proof {
            assert(moves@ =~= seq![(7usize, 7usize)]);
        }
        return moves;
    }
    let ghost b = board@;
    let mut r: usize = 0;
    while r < 15
        invariant
            board@.len() == 225,
            b == board@,
            board_has_stone(b),
            r <= 15,
            relevant_scan(b, 0) == moves@ + relevant_scan(b, (r * 15) as nat),
        decreases 15 - r,
    {
        let mut c: usize = 0;
        while c < 15
            invariant
                board@.len() == 225,
                b == board@,
                board_has_stone(b),
                r < 15,
                c <= 15,
                relevant_scan(b, 0) == moves@ + relevant_scan(b, (r * 15 + c) as nat),
            decreases 15 - c,
        {
            let ghost i = (r * 15 + c) as nat;
            proof {
                assert(i < 225);
                assert(i as int / 15 == r as int && i as int % 15 == c as int) by (nonlinear_arith)
                    requires
                        i == r * 15 + c,
                        r < 15,
                        c < 15,
                ;
            }
            if cell_is_relevant(board, r, c) {
                let ghost m0 = moves@;
                moves.push((r, c));
                proof {
                    assert(relevant_scan(b, i) == seq![(r, c)] + relevant_scan(b, i + 1));
                    assert(m0 + relevant_scan(b, i) =~= moves@ + relevant_scan(b, i + 1));
                }
            } else {
                proof {
                    assert(relevant_scan(b, i) == relevant_scan(b, i + 1));
                }
            }
            c = c + 1;
        }
        r = r + 1;
    }
    proof {
        assert(relevant_scan(b, 225) == Seq::<(usize, usize)>::empty());
        assert(moves@ + Seq::<(usize, usize)>::empty() =~= moves@);
    }
    moves
}

} // verus!
