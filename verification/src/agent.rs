//! The search agent: picks a move by depth-bounded minimax with
//! alpha-beta pruning, move ordering, relevance-pruned candidates, and
//! an immediate-win short circuit.

use vstd::prelude::*;

verus! {

use crate::game::{GameState, Stone, cell_at, move_legal, lemma_apply_then_undo};
use crate::victory::check_victory;
use crate::heuristic::{
    eval_spec, pattern_prefix, positional_prefix, cell_pattern_total, cell_positional,
    pattern_score, window_fits, lemma_pattern_prefix_range, lemma_cell_pattern_range,
    lemma_positional_prefix_range, window_stones, window_open_ends,
    FIVE_SCORE, OPEN_FOUR_SCORE, HALF_FOUR_SCORE, OPEN_THREE_SCORE, HALF_THREE_SCORE,
    OPEN_TWO_SCORE, HALF_TWO_SCORE, POSITIONAL_WEIGHT,
};
use crate::moves::{candidate_moves, collect_candidates, lemma_candidates_legal};
use crate::ordering::{ScoredMove, sort_moves, sort_scored};
use crate::search::{
    ab_spec, ab_best, root_scan, make_move_spec, scored_moves, ordered_moves, stone_to_move,
    child_board, moves_ok, scored_ok, lemma_ordered_moves_ok, WIN_SCORE, MAX_SEARCH_DEPTH,
};
use crate::game::GRID_SIZE;

/// The configured search depth, clamped into the supported range.
pub open spec fn depth_clamped(depth: u32) -> u32 {
    if depth < 1 {
        1
    } else if depth > MAX_SEARCH_DEPTH {
        MAX_SEARCH_DEPTH
    } else {
        depth
    }
}

/// A stateless search agent: the colour it plays and how deep it
/// searches.
pub struct SmartAgent {
    /// The colour this agent plays.
    pub stone: Stone,
    /// Minimax search depth; higher is stronger and slower.
    pub search_depth: u32,
}

impl SmartAgent {
    /// The depth lies in the supported range.
    pub open spec fn wf(&self) -> bool {
        1 <= self.search_depth <= MAX_SEARCH_DEPTH
    }

    /// A new agent for `stone` searching `depth` plies deep; the depth
    /// is clamped into the supported range.
    pub fn new(stone: Stone, depth: u32) -> (r: SmartAgent)
        ensures
            r.stone == stone,
            r.search_depth == depth_clamped(depth),
            r.wf(),
    {
        let d = if depth < 1 {
            1
        } else if depth > MAX_SEARCH_DEPTH {
            MAX_SEARCH_DEPTH
        } else {
            depth
        };
        SmartAgent { stone, search_depth: d }
    }

    /// The colour this agent plays.
    pub fn get_stone(&self) -> (r: Stone)
        ensures
            r == self.stone,
    {
        self.stone
    }

    /// Changes the colour this agent plays.
    pub fn set_stone(&mut self, stone: Stone)
        ensures
            final(self).stone == stone,
            final(self).search_depth == old(self).search_depth,
    {
        self.stone = stone;
    }

    /// Changes the search depth, clamped into the supported range.
    pub fn set_depth(&mut self, depth: u32)
        ensures
            final(self).stone == old(self).stone,
            final(self).search_depth == depth_clamped(depth),
            final(self).wf(),
    {
        self.search_depth = if depth < 1 {
            1
        } else if depth > MAX_SEARCH_DEPTH {
            MAX_SEARCH_DEPTH
        } else {
            depth
        };
    }

    /// The configured search depth.
    pub fn get_difficulty(&self) -> (r: u32)
        ensures
            r == self.search_depth,
    {
        self.search_depth
    }

    /// Candidate moves of the position: empty cells near existing
    /// stones, or the centre cell on an empty board.
    pub fn get_relevant_moves(&self, game_state: &GameState) -> (moves: Vec<(usize, usize)>)
        requires
            game_state.wf(),
        ensures
            moves@ == candidate_moves(game_state.board@),
    {
        collect_candidates(&game_state.board)
    }

    /// Score of the five-cell window starting at `(r, c)` along
    /// `(dr, dc)` for `player_stone`.
    pub fn evaluate_pattern(
        &self,
        game_state: &GameState,
        r: usize,
        c: usize,
        dr: isize,
        dc: isize,
        player_stone: Stone,
    ) -> (score: i32)
        requires
            game_state.wf(),
            window_fits(r as int, c as int, dr as int, dc as int),
            -1 <= dr <= 1,
            -1 <= dc <= 1,
        ensures
            score as int == pattern_score(
                game_state.board@,
                r as int,
                c as int,
                dr as int,
                dc as int,
                player_stone,
            ),
            0 <= score <= FIVE_SCORE,
    {
        let opponent_stone = player_stone.opponent();
        let own = window_stones(&game_state.board, r, c, dr, dc, player_stone);
        let opp = window_stones(&game_state.board, r, c, dr, dc, opponent_stone);
        if opp > 0 {
            return 0;
        }
        if own == 0 {
            return 0;
        }
        let ends = window_open_ends(&game_state.board, r, c, dr, dc);
        if own == 5 {
            FIVE_SCORE
        } else if own == 4 {
            if ends == 2 {
                OPEN_FOUR_SCORE
            } else if ends == 1 {
                HALF_FOUR_SCORE
            } else {
                0
            }
        } else if own == 3 {
            if ends == 2 {
                OPEN_THREE_SCORE
            } else if ends == 1 {
                HALF_THREE_SCORE
            } else {
                0
            }
        } else if own == 2 {
            if ends == 2 {
                OPEN_TWO_SCORE
            } else if ends == 1 {
                HALF_TWO_SCORE
            } else {
                0
            }
        } else {
            0
        }
    }

    /// Static evaluation of the whole board from this agent's
    /// perspective: own pattern score minus the opponent's, plus a
    /// centrality balance.
    pub fn evaluate_board(&self, game_state: &GameState) -> (score: i32)
        requires
            game_state.wf(),
        ensures
            score as int == eval_spec(game_state.board@, self.stone),
    {
        let ghost b = game_state.board@;
        let opponent_stone = self.stone.opponent();
        let mut ai_score: i32 = 0;
        let mut opponent_score: i32 = 0;
        let mut r: usize = 0;
        while r < 15
            invariant
                game_state.wf(),
                b == game_state.board@,
                opponent_stone == self.stone.flipped(),
                r <= 15,
                ai_score as int == pattern_prefix(b, (r * 15) as nat, self.stone),
                opponent_score as int == pattern_prefix(b, (r * 15) as nat, opponent_stone),
            decreases 15 - r,
        {
            let mut c: usize = 0;
            while c < 15
                invariant
                    game_state.wf(),
                    b == game_state.board@,
                    opponent_stone == self.stone.flipped(),
                    r < 15,
                    c <= 15,
                    ai_score as int == pattern_prefix(b, (r * 15 + c) as nat, self.stone),
                    opponent_score as int == pattern_prefix(b, (r * 15 + c) as nat, opponent_stone),
                decreases 15 - c,
            {
                let ghost i = (r * 15 + c) as nat;
                proof {
                    assert(i < 225);
                    assert(i as int / 15 == r as int && i as int % 15 == c as int)
                        by (nonlinear_arith)
                        requires
                            i == r * 15 + c,
                            r < 15,
                            c < 15,
                    ;
                    lemma_pattern_prefix_range(b, i, self.stone);
                    lemma_pattern_prefix_range(b, i, opponent_stone);
                    lemma_cell_pattern_range(b, r as int, c as int, self.stone);
                    lemma_cell_pattern_range(b, r as int, c as int, opponent_stone);
                }
                let mut own_cell: i32 = 0;
                let mut opp_cell: i32 = 0;
                if c + 4 <= 14 {
                    own_cell = own_cell + self.evaluate_pattern(game_state, r, c, 0, 1, self.stone);
                    opp_cell = opp_cell + self.evaluate_pattern(
                        game_state,
                        r,
                        c,
                        0,
                        1,
                        opponent_stone,
                    );
                }
                if r + 4 <= 14 {
                    own_cell = own_cell + self.evaluate_pattern(game_state, r, c, 1, 0, self.stone);
                    opp_cell = opp_cell + self.evaluate_pattern(
                        game_state,
                        r,
                        c,
                        1,
                        0,
                        opponent_stone,
                    );
                }
                if r + 4 <= 14 && c + 4 <= 14 {
                    own_cell = own_cell + self.evaluate_pattern(game_state, r, c, 1, 1, self.stone);
                    opp_cell = opp_cell + self.evaluate_pattern(
                        game_state,
                        r,
                        c,
                        1,
                        1,
                        opponent_stone,
                    );
                }
                if r + 4 <= 14 && c >= 4 {
                    own_cell = own_cell + self.evaluate_pattern(game_state, r, c, 1, -1, self.stone);
                    opp_cell = opp_cell + self.evaluate_pattern(
                        game_state,
                        r,
                        c,
                        1,
                        -1,
                        opponent_stone,
                    );
                }
                proof {
                    assert(own_cell as int == cell_pattern_total(b, r as int, c as int, self.stone));
                    assert(opp_cell as int == cell_pattern_total(
                        b,
                        r as int,
                        c as int,
                        opponent_stone,
                    ));
                    assert(pattern_prefix(b, i + 1, self.stone) == pattern_prefix(b, i, self.stone)
                        + cell_pattern_total(b, r as int, c as int, self.stone));
                    assert(pattern_prefix(b, i + 1, opponent_stone) == pattern_prefix(
                        b,
                        i,
                        opponent_stone,
                    ) + cell_pattern_total(b, r as int, c as int, opponent_stone));
                }
                ai_score = ai_score + own_cell;
                opponent_score = opponent_score + opp_cell;
                c = c + 1;
            }
            r = r + 1;
        }
        let mut positional_score: i32 = 0;
        if POSITIONAL_WEIGHT > 0 {
            let center = (GRID_SIZE as i32) / 2;
            let mut r: usize = 0;
            while r < 15
                invariant
                    game_state.wf(),
                    b == game_state.board@,
                    opponent_stone == self.stone.flipped(),
                    center == 7,
                    r <= 15,
                    positional_score as int == positional_prefix(b, (r * 15) as nat, self.stone),
                decreases 15 - r,
            {
                let mut c: usize = 0;
                while c < 15
                    invariant
                        game_state.wf(),
                        b == game_state.board@,
                        opponent_stone == self.stone.flipped(),
                        center == 7,
                        r < 15,
                        c <= 15,
                        positional_score as int == positional_prefix(
                            b,
                            (r * 15 + c) as nat,
                            self.stone,
                        ),
                    decreases 15 - c,
                {
                    let ghost i = (r * 15 + c) as nat;
                    proof {
                        assert(i < 225);
                        assert(i as int / 15 == r as int && i as int % 15 == c as int)
                            by (nonlinear_arith)
                            requires
                                i == r * 15 + c,
                                r < 15,
                                c < 15,
                        ;
                        lemma_positional_prefix_range(b, i, self.stone);
                    }
                    let r_i32 = r as i32;
                    let c_i32 = c as i32;
                    let dist_from_center = (if r_i32 >= center {
                        r_i32 - center
                    } else {
                        center - r_i32
                    }) + (if c_i32 >= center {
                        c_i32 - center
                    } else {
                        center - c_i32
                    });
                    let raw = POSITIONAL_WEIGHT * ((GRID_SIZE as i32) / 2) - dist_from_center;
                    let bonus = if raw > 0 {
                        raw
                    } else {
                        0
                    };
                    match game_state.board[r * 15 + c] {
                        Some(st) => {
                            if st == self.stone {
                                positional_score = positional_score + bonus;
                            } else {
                                positional_score = positional_score - bonus;
                            }
                        },
                        None => {},
                    }
                    proof {
                        assert(positional_prefix(b, i + 1, self.stone) == positional_prefix(
                            b,
                            i,
                            self.stone,
                        ) + cell_positional(b[i as int], r as int, c as int, self.stone));
                    }
                    c = c + 1;
                }
                r = r + 1;
            }
        }
        proof {
            lemma_pattern_prefix_range(b, 225, self.stone);
            lemma_pattern_prefix_range(b, 225, opponent_stone);
            lemma_positional_prefix_range(b, 225, self.stone);
        }
        ai_score - opponent_score + positional_score
    }

    /// Depth-bounded alpha-beta minimax value of the position; the
    /// board is mutated in place during the search and fully restored
    /// before returning.
    pub fn minimax(
        &self,
        game_state: &mut GameState,
        depth: u32,
        maximizing_player: bool,
        alpha: i32,
        beta: i32,
    ) -> (score: i32)
        requires
            old(game_state).wf(),
            depth <= MAX_SEARCH_DEPTH,
        ensures
            final(game_state).wf(),
            final(game_state).board@ == old(game_state).board@,
            final(game_state).current_turn == old(game_state).current_turn,
            final(game_state).is_game_over == old(game_state).is_game_over,
            final(game_state).winner == old(game_state).winner,
            score as int == ab_spec(
                old(game_state).board@,
                depth as nat,
                maximizing_player,
                alpha as int,
                beta as int,
                self.stone,
            ),
        decreases depth,
    {
        let ghost b = game_state.board@;
        match check_victory(game_state) {
            Some(winner) => {
                if winner == self.stone {
                    return WIN_SCORE + depth as i32;
                } else {
                    return -(WIN_SCORE + depth as i32);
                }
            },
            None => {},
        }
        let relevant = self.get_relevant_moves(game_state);
        if relevant.len() == 0 {
            let all_moves = game_state.get_valid_moves();
            if all_moves.len() == 0 {
                return 0;
            }
            return self.evaluate_board(game_state);
        }
        if depth == 0 {
            return self.evaluate_board(game_state);
        }
        let current_player_stone = if maximizing_player {
            self.stone
        } else {
            self.stone.opponent()
        };
        proof {
            lemma_candidates_legal(b);
        }
        let mut scored: Vec<ScoredMove> = Vec::new();
        let mut k: usize = 0;
        while k < relevant.len()
            invariant
                game_state.wf(),
                game_state.board@ == b,
                game_state.current_turn == old(game_state).current_turn,
                game_state.is_game_over == old(game_state).is_game_over,
                game_state.winner == old(game_state).winner,
                relevant@ == candidate_moves(b),
                moves_ok(b, relevant@),
                current_player_stone == stone_to_move(maximizing_player, self.stone),
                k <= relevant@.len(),
                scored@.len() == k,
                forall|j: int|
                    0 <= j < k ==> #[trigger] scored@[j] == (
                        relevant@[j],
                        eval_spec(
                            child_board(b, relevant@[j], current_player_stone),
                            self.stone,
                        ) as i32,
                    ),
            decreases relevant@.len() - k,
        {
            let (mr, mc) = relevant[k];
            proof {
                assert(relevant@[k as int] == (mr, mc));
                assert(move_legal(b, mr as int, mc as int));
            }
            let _applied = game_state.apply_move(mr, mc, current_player_stone);
            let sc = self.evaluate_board(game_state);
            let _undone = game_state.undo_move(mr, mc);
            proof {
                lemma_apply_then_undo(b, mr as int, mc as int, current_player_stone);
            }
            scored.push(((mr, mc), sc));
            k = k + 1;
        }
        proof {
            assert(scored@ =~= scored_moves(b, relevant@, current_player_stone, self.stone));
        }
        let ordered = sort_scored(&scored, maximizing_player);
        proof {
            lemma_ordered_moves_ok(b, relevant@, maximizing_player, self.stone);
            assert(ordered@ == ordered_moves(b, relevant@, maximizing_player, self.stone));
        }
        let ghost ord = ordered@;
        let mut a = alpha;
        let mut bt = beta;
        let mut best: i32 = if maximizing_player {
            i32::MIN
        } else {
            i32::MAX
        };
        let ghost target = ab_best(
            b,
            ord,
            0,
            depth as nat,
            maximizing_player,
            self.stone,
            alpha as int,
            beta as int,
            best as int,
        );
        let mut i: usize = 0;
        while i < ordered.len()
            invariant_except_break
                game_state.wf(),
                game_state.board@ == b,
                game_state.current_turn == old(game_state).current_turn,
                game_state.is_game_over == old(game_state).is_game_over,
                game_state.winner == old(game_state).winner,
                ord == ordered@,
                scored_ok(b, ord),
                1 <= depth <= MAX_SEARCH_DEPTH,
                current_player_stone == stone_to_move(maximizing_player, self.stone),
                i <= ord.len(),
                target == ab_best(
                    b,
                    ord,
                    i as nat,
                    depth as nat,
                    maximizing_player,
                    self.stone,
                    a as int,
                    bt as int,
                    best as int,
                ),
            ensures
                game_state.wf(),
                game_state.board@ == b,
                game_state.current_turn == old(game_state).current_turn,
                game_state.is_game_over == old(game_state).is_game_over,
                game_state.winner == old(game_state).winner,
                target == best as int,
            decreases ord.len() - i,
        {
            let (m, _ordering_score) = ordered[i];
            proof {
                assert(ord[i as int].0 == m);
                assert(move_legal(b, m.0 as int, m.1 as int));
            }
            let ghost a0 = a as int;
            let ghost bt0 = bt as int;
            let ghost best0 = best as int;
            let _applied = game_state.apply_move(m.0, m.1, current_player_stone);
            let eval = self.minimax(game_state, depth - 1, !maximizing_player, a, bt);
            let _undone = game_state.undo_move(m.0, m.1);
            proof {
                lemma_apply_then_undo(b, m.0 as int, m.1 as int, current_player_stone);
            }
            if maximizing_player {
                if eval > best {
                    best = eval;
                }
                if eval > a {
                    a = eval;
                }
                if bt <= a {
                    proof {
                        assert(ab_best(
                            b,
                            ord,
                            i as nat,
                            depth as nat,
                            maximizing_player,
                            self.stone,
                            a0,
                            bt0,
                            best0,
                        ) == best as int);
                    }
                    break ;
                }
            } else {
                if eval < best {
                    best = eval;
                }
                if eval < bt {
                    bt = eval;
                }
                if bt <= a {
                    proof {
                        assert(ab_best(
                            b,
                            ord,
                            i as nat,
                            depth as nat,
                            maximizing_player,
                            self.stone,
                            a0,
                            bt0,
                            best0,
                        ) == best as int);
                    }
                    break ;
                }
            }
            proof {
                assert(ab_best(
                    b,
                    ord,
                    i as nat,
                    depth as nat,
                    maximizing_player,
                    self.stone,
                    a0,
                    bt0,
                    best0,
                ) == ab_best(
                    b,
                    ord,
                    (i + 1) as nat,
                    depth as nat,
                    maximizing_player,
                    self.stone,
                    a as int,
                    bt as int,
                    best as int,
                ));
            }
            i = i + 1;
        }
        best
    }

    /// Chooses a move for the agent: `None` when the game is over or
    /// no candidate move exists; the lone candidate when there is only
    /// one; otherwise the first immediately winning candidate in
    /// ordering, or the candidate with the best alpha-beta score.
    /// The returned cell is always an empty on-board cell.
    pub fn make_move(&self, game_state: &GameState) -> (mv: Option<(usize, usize)>)
        requires
            game_state.wf(),
            self.wf(),
        ensures
            mv == make_move_spec(
                game_state.board@,
                game_state.is_game_over,
                self.search_depth as nat,
                self.stone,
            ),
            mv matches Some(m) ==> m.0 <= 14 && m.1 <= 14 && cell_at(
                game_state.board@,
                m.0 as int,
                m.1 as int,
            ) is None,
            mv is Some <==> !game_state.is_game_over && candidate_moves(game_state.board@).len()
                != 0,
    {
        let ghost b = game_state.board@;
        if game_state.is_game_over {
            return None;
        }
        let relevant = self.get_relevant_moves(game_state);
        if relevant.len() == 0 {
            return None;
        }
        proof {
            lemma_candidates_legal(b);
        }
        if relevant.len() == 1 {
            let m = relevant[0];
            proof {
                assert(candidate_moves(b)[0] == m);
            }
            return Some(m);
        }
        let mut scored: Vec<ScoredMove> = Vec::new();
        let mut k: usize = 0;
        while k < relevant.len()
            invariant
                game_state.wf(),
                game_state.board@ == b,
                relevant@ == candidate_moves(b),
                moves_ok(b, relevant@),
                k <= relevant@.len(),
                scored@.len() == k,
                forall|j: int|
                    0 <= j < k ==> #[trigger] scored@[j] == (
                        relevant@[j],
                        eval_spec(child_board(b, relevant@[j], self.stone), self.stone) as i32,
                    ),
            decreases relevant@.len() - k,
        {
            let (mr, mc) = relevant[k];
            proof {
                assert(relevant@[k as int] == (mr, mc));
                assert(move_legal(b, mr as int, mc as int));
            }
            match game_state.make_move_simulated(mr, mc, self.stone) {
                Some(temp_state) => {
                    let sc = self.evaluate_board(&temp_state);
                    scored.push(((mr, mc), sc));
                },
                None => {
                    proof {
                        assert(false);
                    }
                },
            }
            k = k + 1;
        }
        proof {
            assert(scored@ =~= scored_moves(b, relevant@, self.stone, self.stone));
        }
        let ordered = sort_scored(&scored, true);
        proof {
            lemma_ordered_moves_ok(b, relevant@, true, self.stone);
            assert(ordered@ == ordered_moves(b, relevant@, true, self.stone));
        }
        let ghost ord = ordered@;
        let mut best_move = relevant[0];
        let mut best_score = i32::MIN;
        let mut alpha = i32::MIN;
        let beta = i32::MAX;
        let ghost target = root_scan(
            b,
            ord,
            0,
            self.search_depth as nat,
            self.stone,
            relevant@[0],
            i32::MIN as int,
            i32::MIN as int,
        );
        proof {
            assert(candidate_moves(b)[0] == relevant@[0]);
            assert(move_legal(b, best_move.0 as int, best_move.1 as int));
        }
        let mut i: usize = 0;
        while i < ordered.len()
            invariant_except_break
                game_state.wf(),
                game_state.board@ == b,
                !game_state.is_game_over,
                self.wf(),
                ord == ordered@,
                scored_ok(b, ord),
                relevant@ == candidate_moves(b),
                relevant@.len() >= 2,
                ord == sort_moves(scored_moves(b, relevant@, self.stone, self.stone), true),
                beta == i32::MAX,
                i <= ord.len(),
                move_legal(b, best_move.0 as int, best_move.1 as int),
                make_move_spec(b, false, self.search_depth as nat, self.stone) == target,
                target == root_scan(
                    b,
                    ord,
                    i as nat,
                    self.search_depth as nat,
                    self.stone,
                    best_move,
                    best_score as int,
                    alpha as int,
                ),
            ensures
                target == Some(best_move),
                move_legal(b, best_move.0 as int, best_move.1 as int),
            decreases ord.len() - i,
        {
            let (m, _ordering_score) = ordered[i];
            proof {
                assert(ord[i as int].0 == m);
                assert(move_legal(b, m.0 as int, m.1 as int));
            }
            let ghost alpha0 = alpha as int;
            let ghost best_score0 = best_score as int;
            let ghost best_move0 = best_move;
            match game_state.make_move_simulated(m.0, m.1, self.stone) {
                Some(mut next_state) => {
                    let won = match check_victory(&next_state) {
                        Some(w) => w == self.stone,
                        None => false,
                    };
                    if won {
                        proof {
                            assert(root_scan(
                                b,
                                ord,
                                i as nat,
                                self.search_depth as nat,
                                self.stone,
                                best_move0,
                                best_score0,
                                alpha0,
                            ) == Some(m));
                        }
                        return Some(m);
                    }
                    let eval = self.minimax(
                        &mut next_state,
                        self.search_depth - 1,
                        false,
                        alpha,
                        beta,
                    );
                    if eval > best_score {
                        best_score = eval;
                        best_move = m;
                    }
                    if eval > alpha {
                        alpha = eval;
                    }
                    if beta <= alpha {
                        proof {
                            assert(root_scan(
                                b,
                                ord,
                                i as nat,
                                self.search_depth as nat,
                                self.stone,
                                best_move0,
                                best_score0,
                                alpha0,
                            ) == Some(best_move));
                        }
                        break ;
                    }
                    proof {
                        assert(root_scan(
                            b,
                            ord,
                            i as nat,
                            self.search_depth as nat,
                            self.stone,
                            best_move0,
                            best_score0,
                            alpha0,
                        ) == root_scan(
                            b,
                            ord,
                            (i + 1) as nat,
                            self.search_depth as nat,
                            self.stone,
                            best_move,
                            best_score as int,
                            alpha as int,
                        ));
                    }
                },
                None => {
                    proof {
                        assert(false);
                    }
                },
            }
            i = i + 1;
        }
        Some(best_move)
    }
}

} // verus!
