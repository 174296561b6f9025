//! The search model: an exhaustive depth-bounded minimax value, the
//! alpha-beta-pruned and move-ordered value that the engine actually
//! computes, and the root scan that picks a move.  The laws proved
//! here show that pruning and ordering do not change the search
//! result, and that an immediately winning move is always taken.

use vstd::prelude::*;

verus! {

use crate::game::{Stone, BoardSeq, board_wf, board_put, cell_at, in_bounds, move_legal, valid_moves};
use crate::victory::{winner_of, is_winner, wins_from, wins_dir, lemma_winner_of_none, lemma_winner_of_only};
use crate::heuristic::{eval_spec, lemma_eval_bound};
use crate::moves::{candidate_moves, lemma_candidates_legal, board_has_stone, stone_near, is_relevant, relevant_scan};
use crate::ordering::{ScoredMove, sort_moves, lemma_sort_moves_len, lemma_sort_moves_contains};

/// Base value of a forced win; the remaining depth is added so that
/// faster wins score higher.
pub const WIN_SCORE: i32 = 100_000_000;

/// Upper bound on the configured search depth; it keeps every score
/// the search can produce well inside `i32`.
pub const MAX_SEARCH_DEPTH: u32 = 1_000_000;

/// Bound on the absolute value of any score the search returns: the
/// largest of a win value (`WIN_SCORE + MAX_SEARCH_DEPTH`), a static
/// evaluation (`EVAL_BOUND`), and the draw value 0.
pub const VALUE_BOUND: i32 = 900_001_575;

/// The player who moves at a node: the agent at maximizing nodes, the
/// opponent at minimizing nodes.
pub open spec fn stone_to_move(maximizing: bool, agent: Stone) -> Stone {
    if maximizing {
        agent
    } else {
        agent.flipped()
    }
}

/// The board after `mover` plays `m`.
pub open spec fn child_board(b: BoardSeq, m: (usize, usize), mover: Stone) -> BoardSeq {
    board_put(b, m.0 as int, m.1 as int, Some(mover))
}

/// Score of a decided position: a win for the agent counts positive,
/// one for the opponent negative, and faster outcomes count more.
pub open spec fn win_value(w: Stone, agent: Stone, depth: nat) -> int {
    if w == agent {
        WIN_SCORE as int + depth
    } else {
        -(WIN_SCORE as int + depth)
    }
}

/// Every listed move is legal on `b`.
pub open spec fn moves_ok(b: BoardSeq, moves: Seq<(usize, usize)>) -> bool {
    forall|k: int|
        0 <= k < moves.len() ==> move_legal(
            b,
            (#[trigger] moves[k]).0 as int,
            moves[k].1 as int,
        )
}

/// Every listed scored move is legal on `b`.
pub open spec fn scored_ok(b: BoardSeq, moves: Seq<ScoredMove>) -> bool {
    forall|k: int|
        0 <= k < moves.len() ==> move_legal(
            b,
            (#[trigger] moves[k]).0.0 as int,
            moves[k].0.1 as int,
        )
}

/// Exhaustive depth-bounded minimax value of a position, folding over
/// the candidate moves in row-major order with no pruning.
pub open spec fn minimax_spec(b: BoardSeq, depth: nat, maximizing: bool, agent: Stone) -> int
    decreases depth, candidate_moves(b).len() + 1,
{
    match winner_of(b) {
        Some(w) => win_value(w, agent, depth),
        None => {
            let moves = candidate_moves(b);
            if moves.len() == 0 {
                if valid_moves(b).len() == 0 {
                    0
                } else {
                    eval_spec(b, agent)
                }
            } else if depth == 0 {
                eval_spec(b, agent)
            } else if maximizing {
                plain_best(b, moves, 0, depth, true, agent, i32::MIN as int)
            } else {
                plain_best(b, moves, 0, depth, false, agent, i32::MAX as int)
            }
        },
    }
}

/// Running maximum (or minimum) of the child values of `moves[i..]`,
/// starting from `acc`.
pub open spec fn plain_best(
    b: BoardSeq,
    moves: Seq<(usize, usize)>,
    i: nat,
    depth: nat,
    maximizing: bool,
    agent: Stone,
    acc: int,
) -> int
    decreases depth, moves.len() - i,
{
    if i >= moves.len() || depth == 0 {
        acc
    } else {
        let e = minimax_spec(
            child_board(b, moves[i as int], stone_to_move(maximizing, agent)),
            (depth - 1) as nat,
            !maximizing,
            agent,
        );
        let acc2 = if maximizing {
            if e > acc {
                e
            } else {
                acc
            }
        } else {
            if e < acc {
                e
            } else {
                acc
            }
        };
        plain_best(b, moves, i + 1, depth, maximizing, agent, acc2)
    }
}

/// The candidate moves tagged with the one-ply evaluation used for
/// move ordering: the board after `mover` plays the move, scored from
/// the agent's perspective.
pub open spec fn scored_moves(
    b: BoardSeq,
    moves: Seq<(usize, usize)>,
    mover: Stone,
    agent: Stone,
) -> Seq<ScoredMove> {
    Seq::new(
        moves.len(),
        |i: int| (moves[i], eval_spec(child_board(b, moves[i], mover), agent) as i32),
    )
}

/// The candidates in the order the search visits them: best first for
/// the maximizing side, worst first for the minimizing side.
pub open spec fn ordered_moves(
    b: BoardSeq,
    moves: Seq<(usize, usize)>,
    maximizing: bool,
    agent: Stone,
) -> Seq<ScoredMove> {
    sort_moves(scored_moves(b, moves, stone_to_move(maximizing, agent), agent), maximizing)
}

/// Alpha-beta value of a position: the pruned, move-ordered fold the
/// engine computes.
pub open spec fn ab_spec(
    b: BoardSeq,
    depth: nat,
    maximizing: bool,
    alpha: int,
    beta: int,
    agent: Stone,
) -> int
    decreases depth, ordered_moves(b, candidate_moves(b), maximizing, agent).len() + 1,
{
    match winner_of(b) {
        Some(w) => win_value(w, agent, depth),
        None => {
            let moves = candidate_moves(b);
            if moves.len() == 0 {
                if valid_moves(b).len() == 0 {
                    0
                } else {
                    eval_spec(b, agent)
                }
            } else if depth == 0 {
                eval_spec(b, agent)
            } else if maximizing {
                ab_best(
                    b,
                    ordered_moves(b, moves, true, agent),
                    0,
                    depth,
                    true,
                    agent,
                    alpha,
                    beta,
                    i32::MIN as int,
                )
            } else {
                ab_best(
                    b,
                    ordered_moves(b, moves, false, agent),
                    0,
                    depth,
                    false,
                    agent,
                    alpha,
                    beta,
                    i32::MAX as int,
                )
            }
        },
    }
}

/// Pruned running maximum (or minimum) over `moves[i..]`: the window
/// narrows as values arrive, and the fold stops once it closes.
pub open spec fn ab_best(
    b: BoardSeq,
    moves: Seq<ScoredMove>,
    i: nat,
    depth: nat,
    maximizing: bool,
    agent: Stone,
    alpha: int,
    beta: int,
    acc: int,
) -> int
    decreases depth, moves.len() - i,
{
    if i >= moves.len() || depth == 0 {
        acc
    } else {
        let e = ab_spec(
            child_board(b, moves[i as int].0, stone_to_move(maximizing, agent)),
            (depth - 1) as nat,
            !maximizing,
            alpha,
            beta,
            agent,
        );
        if maximizing {
            let acc2 = if e > acc {
                e
            } else {
                acc
            };
            let alpha2 = if e > alpha {
                e
            } else {
                alpha
            };
            if beta <= alpha2 {
                acc2
            } else {
                ab_best(b, moves, i + 1, depth, true, agent, alpha2, beta, acc2)
            }
        } else {
            let acc2 = if e < acc {
                e
            } else {
                acc
            };
            let beta2 = if e < beta {
                e
            } else {
                beta
            };
            if beta2 <= alpha {
                acc2
            } else {
                ab_best(b, moves, i + 1, depth, false, agent, alpha, beta2, acc2)
            }
        }
    }
}

/// Root scan over the ordered candidates: returns the first move that
/// wins outright, else tracks the best-scoring candidate.
pub open spec fn root_scan(
    b: BoardSeq,
    moves: Seq<ScoredMove>,
    i: nat,
    depth: nat,
    agent: Stone,
    best: (usize, usize),
    best_score: int,
    alpha: int,
) -> Option<(usize, usize)>
    decreases moves.len() - i,
{
    if i >= moves.len() {
        Some(best)
    } else {
        let m = moves[i as int].0;
        let nb = child_board(b, m, agent);
        if winner_of(nb) == Some(agent) {
            Some(m)
        } else {
            let e = ab_spec(nb, (depth - 1) as nat, false, alpha, i32::MAX as int, agent);
            let best2 = if e > best_score {
                m
            } else {
                best
            };
            let bs2 = if e > best_score {
                e
            } else {
                best_score
            };
            let alpha2 = if e > alpha {
                e
            } else {
                alpha
            };
            if i32::MAX as int <= alpha2 {
                Some(best2)
            } else {
                root_scan(b, moves, i + 1, depth, agent, best2, bs2, alpha2)
            }
        }
    }
}

/// The move the agent chooses on `b` with the given search depth:
/// `None` when the game is over or no candidate exists, the lone
/// candidate when there is only one, else the result of the root scan.
pub open spec fn make_move_spec(
    b: BoardSeq,
    game_over: bool,
    search_depth: nat,
    agent: Stone,
) -> Option<(usize, usize)> {
    if game_over {
        None
    } else {
        let moves = candidate_moves(b);
        if moves.len() == 0 {
            None
        } else if moves.len() == 1 {
            Some(moves[0])
        } else {
            root_scan(
                b,
                sort_moves(scored_moves(b, moves, agent, agent), true),
                0,
                search_depth,
                agent,
                moves[0],
                i32::MIN as int,
                i32::MIN as int,
            )
        }
    }
}

/// A value lies within the score bound.
pub open spec fn within_bound(v: int) -> bool {
    -(VALUE_BOUND as int) <= v <= VALUE_BOUND as int
}

/// Every minimax value stays within `VALUE_BOUND`.
pub proof fn lemma_minimax_bound(b: BoardSeq, depth: nat, maximizing: bool, agent: Stone)
    requires
        board_wf(b),
        depth <= MAX_SEARCH_DEPTH,
    ensures
        within_bound(minimax_spec(b, depth, maximizing, agent)),
    decreases depth, candidate_moves(b).len() + 1,
{
    match winner_of(b) {
        Some(w) => {},
        None => {
            let moves = candidate_moves(b);
            if moves.len() == 0 || depth == 0 {
                lemma_eval_bound(b, agent);
            } else {
                lemma_candidates_legal(b);
                let init = if maximizing {
                    i32::MIN as int
                } else {
                    i32::MAX as int
                };
                lemma_plain_best_bound(b, moves, 0, depth, maximizing, agent, init);
            }
        },
    }
}

/// The running fold stays within `VALUE_BOUND` once it has absorbed a
/// first child value.
proof fn lemma_plain_best_bound(
    b: BoardSeq,
    moves: Seq<(usize, usize)>,
    i: nat,
    depth: nat,
    maximizing: bool,
    agent: Stone,
    acc: int,
)
    requires
        board_wf(b),
        1 <= depth <= MAX_SEARCH_DEPTH,
        moves_ok(b, moves),
        i <= moves.len(),
        within_bound(acc) || (i < moves.len() && acc == (if maximizing {
            i32::MIN as int
        } else {
            i32::MAX as int
        })),
    ensures
        within_bound(plain_best(b, moves, i, depth, maximizing, agent, acc)),
    decreases depth, moves.len() - i,
{
    if i < moves.len() {
        let m = moves[i as int];
        let nb = child_board(b, m, stone_to_move(maximizing, agent));
        assert(move_legal(b, m.0 as int, m.1 as int));
        assert(board_wf(nb));
        lemma_minimax_bound(nb, (depth - 1) as nat, !maximizing, agent);
        let e = minimax_spec(nb, (depth - 1) as nat, !maximizing, agent);
        let acc2 = if maximizing {
            if e > acc {
                e
            } else {
                acc
            }
        } else {
            if e < acc {
                e
            } else {
                acc
            }
        };
        lemma_plain_best_bound(b, moves, i + 1, depth, maximizing, agent, acc2);
    }
}

/// Every alpha-beta value stays within `VALUE_BOUND`, whatever the
/// window.
pub proof fn lemma_ab_bound(
    b: BoardSeq,
    depth: nat,
    maximizing: bool,
    alpha: int,
    beta: int,
    agent: Stone,
)
    requires
        board_wf(b),
        depth <= MAX_SEARCH_DEPTH,
    ensures
        within_bound(ab_spec(b, depth, maximizing, alpha, beta, agent)),
    decreases depth, ordered_moves(b, candidate_moves(b), maximizing, agent).len() + 1,
{
    match winner_of(b) {
        Some(w) => {},
        None => {
            let moves = candidate_moves(b);
            if moves.len() == 0 || depth == 0 {
                lemma_eval_bound(b, agent);
            } else {
                let ordered = ordered_moves(b, moves, maximizing, agent);
                lemma_candidates_legal(b);
                lemma_ordered_moves_ok(b, moves, maximizing, agent);
                lemma_sort_moves_len(
                    scored_moves(b, moves, stone_to_move(maximizing, agent), agent),
                    maximizing,
                );
                let init = if maximizing {
                    i32::MIN as int
                } else {
                    i32::MAX as int
                };
                lemma_ab_best_bound(b, ordered, 0, depth, maximizing, agent, alpha, beta, init);
            }
        },
    }
}

/// The pruned fold stays within `VALUE_BOUND` once it has absorbed a
/// first child value.
proof fn lemma_ab_best_bound(
    b: BoardSeq,
    moves: Seq<ScoredMove>,
    i: nat,
    depth: nat,
    maximizing: bool,
    agent: Stone,
    alpha: int,
    beta: int,
    acc: int,
)
    requires
        board_wf(b),
        1 <= depth <= MAX_SEARCH_DEPTH,
        scored_ok(b, moves),
        i <= moves.len(),
        within_bound(acc) || (i < moves.len() && acc == (if maximizing {
            i32::MIN as int
        } else {
            i32::MAX as int
        })),
    ensures
        within_bound(ab_best(b, moves, i, depth, maximizing, agent, alpha, beta, acc)),
    decreases depth, moves.len() - i,
{
    if i < moves.len() {
        let m = moves[i as int].0;
        let nb = child_board(b, m, stone_to_move(maximizing, agent));
        assert(move_legal(b, m.0 as int, m.1 as int));
        lemma_ab_bound(nb, (depth - 1) as nat, !maximizing, alpha, beta, agent);
        let e = ab_spec(nb, (depth - 1) as nat, !maximizing, alpha, beta, agent);
        if maximizing {
            let acc2 = if e > acc {
                e
            } else {
                acc
            };
            let alpha2 = if e > alpha {
                e
            } else {
                alpha
            };
            if !(beta <= alpha2) {
                lemma_ab_best_bound(b, moves, i + 1, depth, maximizing, agent, alpha2, beta, acc2);
            }
        } else {
            let acc2 = if e < acc {
                e
            } else {
                acc
            };
            let beta2 = if e < beta {
                e
            } else {
                beta
            };
            if !(beta2 <= alpha) {
                lemma_ab_best_bound(b, moves, i + 1, depth, maximizing, agent, alpha, beta2, acc2);
            }
        }
    }
}

/// The minimax value of the position reached by playing `m` at a node
/// with the given side to move and remaining depth.
pub open spec fn child_value(
    b: BoardSeq,
    m: (usize, usize),
    depth: nat,
    maximizing: bool,
    agent: Stone,
) -> int {
    minimax_spec(
        child_board(b, m, stone_to_move(maximizing, agent)),
        (depth - 1) as nat,
        !maximizing,
        agent,
    )
}

/// The moves of a scored sequence, without their scores.
pub open spec fn firsts(s: Seq<ScoredMove>) -> Seq<(usize, usize)> {
    Seq::new(s.len(), |i: int| s[i].0)
}

/// The running fold computes exactly the best of `acc` and the child
/// values of the remaining moves: it dominates them all and equals one
/// of them.
proof fn lemma_plain_best_char(
    b: BoardSeq,
    moves: Seq<(usize, usize)>,
    i: nat,
    depth: nat,
    maximizing: bool,
    agent: Stone,
    acc: int,
)
    requires
        depth >= 1,
        i <= moves.len(),
    ensures
        maximizing ==> plain_best(b, moves, i, depth, true, agent, acc) >= acc,
        maximizing ==> forall|j: int|
            i <= j < moves.len() ==> plain_best(b, moves, i, depth, true, agent, acc)
                >= #[trigger] child_value(b, moves[j], depth, true, agent),
        maximizing ==> (plain_best(b, moves, i, depth, true, agent, acc) == acc || exists|j: int|
            i <= j < moves.len() && plain_best(b, moves, i, depth, true, agent, acc)
                == #[trigger] child_value(b, moves[j], depth, true, agent)),
        !maximizing ==> plain_best(b, moves, i, depth, false, agent, acc) <= acc,
        !maximizing ==> forall|j: int|
            i <= j < moves.len() ==> plain_best(b, moves, i, depth, false, agent, acc)
                <= #[trigger] child_value(b, moves[j], depth, false, agent),
        !maximizing ==> (plain_best(b, moves, i, depth, false, agent, acc) == acc || exists|j: int|
            i <= j < moves.len() && plain_best(b, moves, i, depth, false, agent, acc)
                == #[trigger] child_value(b, moves[j], depth, false, agent)),
    decreases moves.len() - i,
{
    if i < moves.len() {
        let e = child_value(b, moves[i as int], depth, maximizing, agent);
        let acc2 = if maximizing {
            if e > acc {
                e
            } else {
                acc
            }
        } else {
            if e < acc {
                e
            } else {
                acc
            }
        };
        lemma_plain_best_char(b, moves, i + 1, depth, maximizing, agent, acc2);
    }
}

/// The fold value over a nonempty move list does not depend on the
/// order of the moves, only on which moves occur.
proof fn lemma_plain_best_permutation(
    b: BoardSeq,
    moves1: Seq<(usize, usize)>,
    moves2: Seq<(usize, usize)>,
    depth: nat,
    maximizing: bool,
    agent: Stone,
)
    requires
        depth >= 1,
        forall|y: (usize, usize)| #[trigger] moves1.contains(y) <==> moves2.contains(y),
    ensures
        plain_best(
            b,
            moves1,
            0,
            depth,
            maximizing,
            agent,
            if maximizing {
                i32::MIN as int
            } else {
                i32::MAX as int
            },
        ) == plain_best(
            b,
            moves2,
            0,
            depth,
            maximizing,
            agent,
            if maximizing {
                i32::MIN as int
            } else {
                i32::MAX as int
            },
        ),
{
    let init = if maximizing {
        i32::MIN as int
    } else {
        i32::MAX as int
    };
    let r1 = plain_best(b, moves1, 0, depth, maximizing, agent, init);
    let r2 = plain_best(b, moves2, 0, depth, maximizing, agent, init);
    lemma_plain_best_char(b, moves1, 0, depth, maximizing, agent, init);
    lemma_plain_best_char(b, moves2, 0, depth, maximizing, agent, init);
    if maximizing {
        assert(r1 >= r2) by {
            if r2 != init {
                let j = choose|j: int|
                    0 <= j < moves2.len() && r2 == #[trigger] child_value(
                        b,
                        moves2[j],
                        depth,
                        true,
                        agent,
                    );
                assert(moves2.contains(moves2[j]));
                assert(moves1.contains(moves2[j]));
                let k = choose|k: int| 0 <= k < moves1.len() && moves1[k] == moves2[j];
                assert(r1 >= child_value(b, moves1[k], depth, true, agent));
            }
        }
        assert(r2 >= r1) by {
            if r1 != init {
                let j = choose|j: int|
                    0 <= j < moves1.len() && r1 == #[trigger] child_value(
                        b,
                        moves1[j],
                        depth,
                        true,
                        agent,
                    );
                assert(moves1.contains(moves1[j]));
                assert(moves2.contains(moves1[j]));
                let k = choose|k: int| 0 <= k < moves2.len() && moves2[k] == moves1[j];
                assert(r2 >= child_value(b, moves2[k], depth, true, agent));
            }
        }
    } else {
        assert(r1 <= r2) by {
            if r2 != init {
                let j = choose|j: int|
                    0 <= j < moves2.len() && r2 == #[trigger] child_value(
                        b,
                        moves2[j],
                        depth,
                        false,
                        agent,
                    );
                assert(moves2.contains(moves2[j]));
                assert(moves1.contains(moves2[j]));
                let k = choose|k: int| 0 <= k < moves1.len() && moves1[k] == moves2[j];
                assert(r1 <= child_value(b, moves1[k], depth, false, agent));
            }
        }
        assert(r2 <= r1) by {
            if r1 != init {
                let j = choose|j: int|
                    0 <= j < moves1.len() && r1 == #[trigger] child_value(
                        b,
                        moves1[j],
                        depth,
                        false,
                        agent,
                    );
                assert(moves1.contains(moves1[j]));
                assert(moves2.contains(moves1[j]));
                let k = choose|k: int| 0 <= k < moves2.len() && moves2[k] == moves1[j];
                assert(r2 <= child_value(b, moves2[k], depth, false, agent));
            }
        }
    }
}

/// Ordering the candidates keeps exactly the same set of moves.
proof fn lemma_ordered_firsts_permutation(
    b: BoardSeq,
    moves: Seq<(usize, usize)>,
    maximizing: bool,
    agent: Stone,
)
    ensures
        forall|y: (usize, usize)|
            #[trigger] firsts(ordered_moves(b, moves, maximizing, agent)).contains(y)
                <==> moves.contains(y),
{
    let mover = stone_to_move(maximizing, agent);
    let scored = scored_moves(b, moves, mover, agent);
    let ordered = ordered_moves(b, moves, maximizing, agent);
    lemma_sort_moves_len(scored, maximizing);
    lemma_sort_moves_contains(scored, maximizing);
    let f = firsts(ordered);
    assert forall|y: (usize, usize)| #[trigger] f.contains(y) <==> moves.contains(y) by {
        if f.contains(y) {
            let k = choose|k: int| 0 <= k < f.len() && f[k] == y;
            assert(ordered.contains(ordered[k]));
            assert(scored.contains(ordered[k]));
            let j = choose|j: int| 0 <= j < scored.len() && scored[j] == ordered[k];
            assert(moves[j] == y);
            assert(moves.contains(moves[j]));
        }
        if moves.contains(y) {
            let j = choose|j: int| 0 <= j < moves.len() && moves[j] == y;
            assert(scored[j].0 == y);
            assert(scored.contains(scored[j]));
            assert(ordered.contains(scored[j]));
            let k = choose|k: int| 0 <= k < ordered.len() && ordered[k] == scored[j];
            assert(f[k] == y);
            assert(f.contains(f[k]));
        }
    }
}

/// The Knuth-Moore fail-soft relation between the pruned fold and the
/// plain fold: inside the window they agree; outside it the pruned
/// fold still brackets the true value against the window edge.
proof fn lemma_ab_best_fail_soft(
    b: BoardSeq,
    moves: Seq<ScoredMove>,
    i: nat,
    depth: nat,
    maximizing: bool,
    agent: Stone,
    alpha: int,
    beta: int,
    acc: int,
)
    requires
        board_wf(b),
        1 <= depth <= MAX_SEARCH_DEPTH,
        scored_ok(b, moves),
        i <= moves.len(),
        i32::MIN as int <= alpha < beta <= i32::MAX as int,
        maximizing ==> acc <= alpha,
        !maximizing ==> acc >= beta,
    ensures
        ({
            let w = plain_best(b, firsts(moves), i, depth, maximizing, agent, acc);
            let l = ab_best(b, moves, i, depth, maximizing, agent, alpha, beta, acc);
            &&& (alpha < w < beta ==> l == w)
            &&& (w <= alpha ==> w <= l && l <= alpha)
            &&& (w >= beta ==> beta <= l && l <= w)
        }),
    decreases depth, moves.len() - i,
{
    let fm = firsts(moves);
    if i < moves.len() {
        let m = moves[i as int].0;
        assert(fm[i as int] == m);
        assert(move_legal(b, m.0 as int, m.1 as int));
        let nb = child_board(b, m, stone_to_move(maximizing, agent));
        assert(board_wf(nb));
        let vi = minimax_spec(nb, (depth - 1) as nat, !maximizing, agent);
        let e = ab_spec(nb, (depth - 1) as nat, !maximizing, alpha, beta, agent);
        lemma_ab_matches_minimax(nb, (depth - 1) as nat, !maximizing, alpha, beta, agent);
        assert(vi == child_value(b, m, depth, maximizing, agent));
        if maximizing {
            let acc2 = if e > acc {
                e
            } else {
                acc
            };
            let alpha2 = if e > alpha {
                e
            } else {
                alpha
            };
            let accp = if vi > acc {
                vi
            } else {
                acc
            };
            let w = plain_best(b, fm, i, depth, true, agent, acc);
            let l = ab_best(b, moves, i, depth, true, agent, alpha, beta, acc);
            assert(w == plain_best(b, fm, i + 1, depth, true, agent, accp));
            lemma_plain_best_char(b, fm, i + 1, depth, true, agent, accp);
            assert(w >= accp >= vi);
            if beta <= alpha2 {
                // the child failed high: its true value is at least beta
                assert(e >= beta);
                assert(vi >= beta && e <= vi);
                assert(l == acc2 == e);
            } else {
                lemma_ab_best_fail_soft(b, moves, i + 1, depth, true, agent, alpha2, beta, acc2);
                let w2 = plain_best(b, fm, i + 1, depth, true, agent, acc2);
                lemma_plain_best_char(b, fm, i + 1, depth, true, agent, acc2);
                assert(l == ab_best(b, moves, i + 1, depth, true, agent, alpha2, beta, acc2));
                if vi >= beta {
                    assert(e >= beta);
                    assert(false);
                } else if alpha < vi {
                    assert(e == vi);
                    assert(acc2 == accp && alpha2 == vi);
                    assert(w == w2);
                    if alpha < w < beta {
                        if w > alpha2 {
                            assert(l == w);
                        } else {
                            assert(w <= alpha2);
                            assert(w2 <= l && l <= alpha2);
                            assert(w >= vi == alpha2);
                            assert(l == w);
                        }
                    }
                    if w >= beta {
                        assert(beta <= l && l <= w2);
                    }
                    assert(!(w <= alpha));
                } else {
                    // the child failed low: vi <= e <= alpha
                    assert(vi <= e <= alpha);
                    assert(alpha2 == alpha);
                    assert(acc2 <= alpha);
                    // relate the two plain folds with accumulators accp <= acc2
                    assert(accp <= acc2);
                    assert(w <= w2) by {
                        if w == accp {
                            assert(w2 >= acc2);
                        } else {
                            let j = choose|j: int|
                                i + 1 <= j < fm.len() && w == #[trigger] child_value(
                                    b,
                                    fm[j],
                                    depth,
                                    true,
                                    agent,
                                );
                            assert(w2 >= child_value(b, fm[j], depth, true, agent));
                        }
                    }
                    assert(w2 <= (if w > acc2 {
                        w
                    } else {
                        acc2
                    })) by {
                        if w2 == acc2 {
                        } else {
                            let j = choose|j: int|
                                i + 1 <= j < fm.len() && w2 == #[trigger] child_value(
                                    b,
                                    fm[j],
                                    depth,
                                    true,
                                    agent,
                                );
                            assert(w >= child_value(b, fm[j], depth, true, agent));
                        }
                    }
                    if alpha < w < beta {
                        assert(w2 == w);
                        assert(l == w);
                    }
                    if w <= alpha {
                        assert(w2 <= alpha);
                        assert(w2 <= l && l <= alpha);
                    }
                    if w >= beta {
                        assert(w2 == w);
                        assert(beta <= l && l <= w);
                    }
                }
            }
        } else {
            let acc2 = if e < acc {
                e
            } else {
                acc
            };
            let beta2 = if e < beta {
                e
            } else {
                beta
            };
            let accp = if vi < acc {
                vi
            } else {
                acc
            };
            let w = plain_best(b, fm, i, depth, false, agent, acc);
            let l = ab_best(b, moves, i, depth, false, agent, alpha, beta, acc);
            assert(w == plain_best(b, fm, i + 1, depth, false, agent, accp));
            lemma_plain_best_char(b, fm, i + 1, depth, false, agent, accp);
            assert(w <= accp <= vi);
            if beta2 <= alpha {
                // the child failed low: its true value is at most alpha
                assert(e <= alpha);
                assert(vi <= alpha && e >= vi);
                assert(l == acc2 == e);
            } else {
                lemma_ab_best_fail_soft(b, moves, i + 1, depth, false, agent, alpha, beta2, acc2);
                let w2 = plain_best(b, fm, i + 1, depth, false, agent, acc2);
                lemma_plain_best_char(b, fm, i + 1, depth, false, agent, acc2);
                assert(l == ab_best(b, moves, i + 1, depth, false, agent, alpha, beta2, acc2));
                if vi <= alpha {
                    assert(e <= alpha);
                    assert(false);
                } else if vi < beta {
                    assert(e == vi);
                    assert(acc2 == accp && beta2 == vi);
                    assert(w == w2);
                    if alpha < w < beta {
                        if w < beta2 {
                            assert(l == w);
                        } else {
                            assert(w >= beta2);
                            assert(w2 >= l && l >= beta2);
                            assert(w <= vi == beta2);
                            assert(l == w);
                        }
                    }
                    if w <= alpha {
                        assert(w2 >= l && l >= alpha ==> true);
                        assert(w <= l && l <= alpha) by {
                            assert(w2 <= beta2);
                            assert(w2 <= alpha ==> w2 <= l && l <= alpha);
                            assert(w2 == w);
                        }
                    }
                    assert(!(w >= beta));
                } else {
                    // the child failed high: beta <= e <= vi
                    assert(beta <= e <= vi);
                    assert(beta2 == beta);
                    assert(acc2 >= beta);
                    assert(accp >= acc2);
                    assert(w >= w2) by {
                        if w == accp {
                            assert(w2 <= acc2);
                        } else {
                            let j = choose|j: int|
                                i + 1 <= j < fm.len() && w == #[trigger] child_value(
                                    b,
                                    fm[j],
                                    depth,
                                    false,
                                    agent,
                                );
                            assert(w2 <= child_value(b, fm[j], depth, false, agent));
                        }
                    }
                    assert(w2 >= (if w < acc2 {
                        w
                    } else {
                        acc2
                    })) by {
                        if w2 == acc2 {
                        } else {
                            let j = choose|j: int|
                                i + 1 <= j < fm.len() && w2 == #[trigger] child_value(
                                    b,
                                    fm[j],
                                    depth,
                                    false,
                                    agent,
                                );
                            assert(w <= child_value(b, fm[j], depth, false, agent));
                        }
                    }
                    if alpha < w < beta {
                        assert(w2 == w);
                        assert(l == w);
                    }
                    if w >= beta {
                        assert(w2 >= beta);
                        assert(w2 >= l && l >= beta);
                    }
                    if w <= alpha {
                        assert(w2 == w);
                        assert(alpha >= l && l >= w);
                    }
                }
            }
        }
    }
}

/// Fail-soft correctness of the pruned, ordered search against the
/// exhaustive minimax value: within the window the two agree; outside
/// it the pruned value still brackets the true value against the
/// window edge it crossed.
pub proof fn lemma_ab_matches_minimax(
    b: BoardSeq,
    depth: nat,
    maximizing: bool,
    alpha: int,
    beta: int,
    agent: Stone,
)
    requires
        board_wf(b),
        depth <= MAX_SEARCH_DEPTH,
        i32::MIN as int <= alpha < beta <= i32::MAX as int,
    ensures
        ({
            let v = minimax_spec(b, depth, maximizing, agent);
            let r = ab_spec(b, depth, maximizing, alpha, beta, agent);
            &&& (alpha < v < beta ==> r == v)
            &&& (v <= alpha ==> v <= r && r <= alpha)
            &&& (v >= beta ==> beta <= r && r <= v)
        }),
    decreases depth, ordered_moves(b, candidate_moves(b), maximizing, agent).len() + 1,
{
    match winner_of(b) {
        Some(w) => {},
        None => {
            let moves = candidate_moves(b);
            if moves.len() == 0 || depth == 0 {
            } else {
                let ordered = ordered_moves(b, moves, maximizing, agent);
                lemma_candidates_legal(b);
                lemma_ordered_moves_ok(b, moves, maximizing, agent);
                lemma_ordered_firsts_permutation(b, moves, maximizing, agent);
                lemma_plain_best_permutation(b, moves, firsts(ordered), depth, maximizing, agent);
                let init = if maximizing {
                    i32::MIN as int
                } else {
                    i32::MAX as int
                };
                lemma_ab_best_fail_soft(
                    b,
                    ordered,
                    0,
                    depth,
                    maximizing,
                    agent,
                    alpha,
                    beta,
                    init,
                );
            }
        },
    }
}

/// Alpha-beta pruning and move ordering do not change the search
/// result: with the full window, the pruned value equals the value of
/// exhaustive minimax over the same candidates and depth.
pub proof fn lemma_alphabeta_equals_minimax(b: BoardSeq, depth: nat, maximizing: bool, agent: Stone)
    requires
        board_wf(b),
        depth <= MAX_SEARCH_DEPTH,
    ensures
        ab_spec(b, depth, maximizing, i32::MIN as int, i32::MAX as int, agent) == minimax_spec(
            b,
            depth,
            maximizing,
            agent,
        ),
{
    lemma_minimax_bound(b, depth, maximizing, agent);
    lemma_ab_matches_minimax(b, depth, maximizing, i32::MIN as int, i32::MAX as int, agent);
}

/// Every relevant cell occurs in the scan that starts at or before
/// its index.
proof fn lemma_relevant_scan_complete(b: BoardSeq, i: nat, r: int, c: int)
    requires
        in_bounds(r, c),
        is_relevant(b, r, c),
        crate::game::cell_index(r, c) >= i,
    ensures
        relevant_scan(b, i).contains(((r as usize), (c as usize))),
    decreases 225 - i,
{
    let ri = i as int / 15;
    let ci = i as int % 15;
    if crate::game::cell_index(r, c) == i {
        assert(i as int / 15 == r && i as int % 15 == c) by (nonlinear_arith)
            requires
                0 <= r <= 14,
                0 <= c <= 14,
                r * 15 + c == i,
        ;
        assert(relevant_scan(b, i)[0] == ((r as usize), (c as usize)));
    } else {
        lemma_relevant_scan_complete(b, i + 1, r, c);
        let k = choose|k: int|
            0 <= k < relevant_scan(b, i + 1).len() && #[trigger] relevant_scan(b, i + 1)[k] == ((
            r as usize), (c as usize));
        if is_relevant(b, ri, ci) {
            assert(relevant_scan(b, i)[k + 1] == ((r as usize), (c as usize)));
        } else {
            assert(relevant_scan(b, i)[k] == ((r as usize), (c as usize)));
        }
    }
}

/// A winning line of the mover, after the move, that did not already
/// win before the move must pass through the move; the move then has
/// an occupied neighbour and is a relevant cell.
proof fn lemma_line_hits_move(
    b: BoardSeq,
    agent: Stone,
    m: (usize, usize),
    r: int,
    c: int,
    dr: int,
    dc: int,
)
    requires
        board_wf(b),
        move_legal(b, m.0 as int, m.1 as int),
        wins_dir(child_board(b, m, agent), r, c, dr, dc, agent),
        -1 <= dr <= 1,
        -1 <= dc <= 1,
        !(dr == 0 && dc == 0),
        !wins_dir(b, r, c, dr, dc, agent),
    ensures
        is_relevant(b, m.0 as int, m.1 as int),
        board_has_stone(b),
{
    let nb = child_board(b, m, agent);
    let mr = m.0 as int;
    let mc = m.1 as int;
    crate::game::lemma_put_preserves_others(b, mr, mc, Some(agent));
    let hit0 = r == mr && c == mc;
    let hit1 = r + dr == mr && c + dc == mc;
    let hit2 = r + 2 * dr == mr && c + 2 * dc == mc;
    let hit3 = r + 3 * dr == mr && c + 3 * dc == mc;
    let hit4 = r + 4 * dr == mr && c + 4 * dc == mc;
    let nr: int;
    let nc: int;
    if hit0 {
        nr = r + dr;
        nc = c + dc;
    } else if hit1 {
        nr = r;
        nc = c;
    } else if hit2 {
        nr = r + dr;
        nc = c + dc;
    } else if hit3 {
        nr = r + 2 * dr;
        nc = c + 2 * dc;
    } else if hit4 {
        nr = r + 3 * dr;
        nc = c + 3 * dc;
    } else {
        assert(cell_at(b, r, c) == cell_at(nb, r, c));
        assert(cell_at(b, r + dr, c + dc) == cell_at(nb, r + dr, c + dc));
        assert(cell_at(b, r + 2 * dr, c + 2 * dc) == cell_at(nb, r + 2 * dr, c + 2 * dc));
        assert(cell_at(b, r + 3 * dr, c + 3 * dc) == cell_at(nb, r + 3 * dr, c + 3 * dc));
        assert(cell_at(b, r + 4 * dr, c + 4 * dc) == cell_at(nb, r + 4 * dr, c + 4 * dc));
        assert(wins_dir(b, r, c, dr, dc, agent));
        assert(false);
        nr = r;
        nc = c;
    }
    assert(in_bounds(nr, nc) && cell_at(nb, nr, nc) == Some(agent));
    assert(!(nr == mr && nc == mc));
    assert(cell_at(b, nr, nc) == Some(agent));
    assert(-2 <= nr - mr <= 2 && -2 <= nc - mc <= 2);
    assert(stone_near(b, mr, mc, nr, nc));
    assert(board_has_stone(b)) by {
        assert(0 <= crate::game::cell_index(nr, nc) < 225 && b[crate::game::cell_index(nr, nc)]
            is Some);
    }
}

/// After the agent moves on a board with no winner, the opponent
/// still has no five in a row.
proof fn lemma_opponent_keeps_no_win(b: BoardSeq, agent: Stone, m: (usize, usize))
    requires
        board_wf(b),
        move_legal(b, m.0 as int, m.1 as int),
        forall|s: Stone| !is_winner(b, s),
    ensures
        !is_winner(child_board(b, m, agent), agent.flipped()),
{
    let nb = child_board(b, m, agent);
    let opp = agent.flipped();
    let mr = m.0 as int;
    let mc = m.1 as int;
    crate::game::lemma_put_preserves_others(b, mr, mc, Some(agent));
    if is_winner(nb, opp) {
        let (r, c) = choose|r: int, c: int| #[trigger] wins_from(nb, r, c, opp);
        assert forall|x: int, y: int|
            in_bounds(x, y) && cell_at(nb, x, y) == Some(opp) implies cell_at(b, x, y) == Some(opp)
        by {
            if x == mr && y == mc {
                assert(cell_at(nb, x, y) == Some(agent));
            }
        }
        if wins_dir(nb, r, c, 0, 1, opp) {
            assert(wins_dir(b, r, c, 0, 1, opp));
        } else if wins_dir(nb, r, c, 1, 0, opp) {
            assert(wins_dir(b, r, c, 1, 0, opp));
        } else if wins_dir(nb, r, c, 1, 1, opp) {
            assert(wins_dir(b, r, c, 1, 1, opp));
        } else {
            assert(wins_dir(b, r, c, 1, -1, opp));
        }
        assert(wins_from(b, r, c, opp));
        assert(is_winner(b, opp));
        assert(false);
    }
}

/// A move of the agent that creates five in a row, on a board with no
/// winner yet, is always among the candidate moves.
proof fn lemma_win_move_is_candidate(b: BoardSeq, agent: Stone, m: (usize, usize))
    requires
        board_wf(b),
        winner_of(b) is None,
        move_legal(b, m.0 as int, m.1 as int),
        is_winner(child_board(b, m, agent), agent),
    ensures
        candidate_moves(b).contains(m),
        board_has_stone(b),
{
    let nb = child_board(b, m, agent);
    lemma_winner_of_none(b);
    let (r, c) = choose|r: int, c: int| #[trigger] wins_from(nb, r, c, agent);
    assert(!wins_from(b, r, c, agent)) by {
        if wins_from(b, r, c, agent) {
            assert(is_winner(b, agent));
        }
    }
    if wins_dir(nb, r, c, 0, 1, agent) {
        lemma_line_hits_move(b, agent, m, r, c, 0, 1);
    } else if wins_dir(nb, r, c, 1, 0, agent) {
        lemma_line_hits_move(b, agent, m, r, c, 1, 0);
    } else if wins_dir(nb, r, c, 1, 1, agent) {
        lemma_line_hits_move(b, agent, m, r, c, 1, 1);
    } else {
        lemma_line_hits_move(b, agent, m, r, c, 1, -1);
    }
    lemma_relevant_scan_complete(b, 0, m.0 as int, m.1 as int);
    assert(relevant_scan(b, 0).contains(((m.0 as int as usize), (m.1 as int as usize))));
    assert((m.0 as int as usize) == m.0 && (m.1 as int as usize) == m.1);
    assert(candidate_moves(b).contains(m));
}

/// Once some remaining candidate wins outright, the root scan stops
/// at an immediately winning candidate and returns it.
proof fn lemma_root_scan_win(
    b: BoardSeq,
    moves: Seq<ScoredMove>,
    i: nat,
    depth: nat,
    agent: Stone,
    best: (usize, usize),
    best_score: int,
    alpha: int,
    kw: int,
)
    requires
        board_wf(b),
        1 <= depth <= MAX_SEARCH_DEPTH,
        scored_ok(b, moves),
        i <= kw < moves.len(),
        winner_of(child_board(b, moves[kw].0, agent)) == Some(agent),
        alpha < i32::MAX as int,
    ensures
        ({
            let res = root_scan(b, moves, i, depth, agent, best, best_score, alpha);
            res matches Some(w) && is_winner(child_board(b, w, agent), agent)
        }),
    decreases moves.len() - i,
{
    let m = moves[i as int].0;
    let nb = child_board(b, m, agent);
    if winner_of(nb) == Some(agent) {
        crate::victory::lemma_scan_winner_sound(nb, 0);
    } else {
        assert(i != kw);
        assert(move_legal(b, m.0 as int, m.1 as int));
        let e = ab_spec(nb, (depth - 1) as nat, false, alpha, i32::MAX as int, agent);
        lemma_ab_bound(nb, (depth - 1) as nat, false, alpha, i32::MAX as int, agent);
        let alpha2 = if e > alpha {
            e
        } else {
            alpha
        };
        assert(alpha2 < i32::MAX as int);
        let best2 = if e > best_score {
            m
        } else {
            best
        };
        let bs2 = if e > best_score {
            e
        } else {
            best_score
        };
        lemma_root_scan_win(b, moves, i + 1, depth, agent, best2, bs2, alpha2, kw);
    }
}

/// When some single move gives the searching agent five in a row on a
/// board that has no winner yet, the agent plays an immediately
/// winning move, whatever the configured depth.
pub proof fn lemma_immediate_win_taken(
    b: BoardSeq,
    search_depth: nat,
    agent: Stone,
    m: (usize, usize),
)
    requires
        board_wf(b),
        1 <= search_depth <= MAX_SEARCH_DEPTH,
        winner_of(b) is None,
        move_legal(b, m.0 as int, m.1 as int),
        is_winner(child_board(b, m, agent), agent),
    ensures
        ({
            let res = make_move_spec(b, false, search_depth, agent);
            res matches Some(w) && is_winner(child_board(b, w, agent), agent)
        }),
{
    lemma_win_move_is_candidate(b, agent, m);
    lemma_winner_of_none(b);
    let moves = candidate_moves(b);
    lemma_candidates_legal(b);
    let j = choose|j: int| 0 <= j < moves.len() && moves[j] == m;
    if moves.len() == 1 {
        assert(moves[0] == m);
    } else {
        let scored = scored_moves(b, moves, agent, agent);
        let ordered = sort_moves(scored, true);
        lemma_sort_moves_len(scored, true);
        lemma_sort_moves_contains(scored, true);
        lemma_ordered_moves_ok(b, moves, true, agent);
        assert(ordered == ordered_moves(b, moves, true, agent));
        assert(scored[j].0 == m);
        assert(scored.contains(scored[j]));
        assert(ordered.contains(scored[j]));
        let kw = choose|kw: int| 0 <= kw < ordered.len() && ordered[kw] == scored[j];
        assert(winner_of(child_board(b, m, agent)) == Some(agent)) by {
            lemma_opponent_keeps_no_win(b, agent, m);
            lemma_winner_of_only(child_board(b, m, agent), agent);
        }
        lemma_root_scan_win(
            b,
            ordered,
            0,
            search_depth,
            agent,
            moves[0],
            i32::MIN as int,
            i32::MIN as int,
            kw,
        );
    }
}

/// Choosing a move is deterministic: on equal positions, with the
/// same colour and the same configured depth, the same move comes
/// out.
pub proof fn lemma_make_move_deterministic(
    b1: BoardSeq,
    b2: BoardSeq,
    over1: bool,
    over2: bool,
    search_depth: nat,
    agent: Stone,
)
    requires
        b1 == b2,
        over1 == over2,
    ensures
        make_move_spec(b1, over1, search_depth, agent) == make_move_spec(
            b2,
            over2,
            search_depth,
            agent,
        ),
{
}

/// The ordered candidate list only holds legal moves.
pub proof fn lemma_ordered_moves_ok(
    b: BoardSeq,
    moves: Seq<(usize, usize)>,
    maximizing: bool,
    agent: Stone,
)
    requires
        moves_ok(b, moves),
    ensures
        scored_ok(b, ordered_moves(b, moves, maximizing, agent)),
        ordered_moves(b, moves, maximizing, agent).len() == moves.len(),
{
    let mover = stone_to_move(maximizing, agent);
    let scored = scored_moves(b, moves, mover, agent);
    let ordered = ordered_moves(b, moves, maximizing, agent);
    lemma_sort_moves_len(scored, maximizing);
    lemma_sort_moves_contains(scored, maximizing);
    assert forall|k: int| 0 <= k < ordered.len() implies move_legal(
        b,
        (#[trigger] ordered[k]).0.0 as int,
        ordered[k].0.1 as int,
    ) by {
        assert(ordered.contains(ordered[k]));
        assert(scored.contains(ordered[k]));
        let j = choose|j: int| 0 <= j < scored.len() && scored[j] == ordered[k];
        assert(scored[j].0 == moves[j]);
        assert(move_legal(b, moves[j].0 as int, moves[j].1 as int));
    }
}

} // verus!
