use gomoku_engine::agent::SmartAgent;
use gomoku_engine::evaluator::BoardEvaluator;
use gomoku_engine::game::{GameState, Stone};

fn position_with(stones: &[(usize, usize, Stone)]) -> GameState {
    let mut gs = GameState::new();
    for &(r, c, s) in stones {
        assert!(gs.apply_move(r, c, s).is_ok());
    }
    gs
}

#[test]
fn empty_board_evaluates_to_zero() {
    let agent = SmartAgent::new(Stone::Black, 1);
    let gs = GameState::new();
    assert_eq!(agent.evaluate_board(&gs), 0);
}

#[test]
fn single_centre_stone_scores_its_centrality_bonus() {
    // one stone at the centre forms no window of two or more, so only
    // the centrality bonus of 7 remains
    let gs = position_with(&[(7, 7, Stone::Black)]);
    let own = SmartAgent::new(Stone::Black, 1);
    let other = SmartAgent::new(Stone::White, 1);
    assert_eq!(own.evaluate_board(&gs), 7);
    assert_eq!(other.evaluate_board(&gs), -7);
}

#[test]
fn two_adjacent_stones_score_four_open_twos_plus_centrality() {
    // four horizontal windows hold both stones with both ends open
    // (4 * 50), and the centrality bonuses are 7 and 6
    let gs = position_with(&[(7, 7, Stone::Black), (7, 8, Stone::Black)]);
    let agent = SmartAgent::new(Stone::Black, 1);
    assert_eq!(agent.evaluate_board(&gs), 4 * 50 + 7 + 6);
}

#[test]
fn evaluation_is_antisymmetric_between_the_players() {
    let gs = position_with(&[
        (7, 7, Stone::Black),
        (7, 8, Stone::Black),
        (3, 3, Stone::White),
        (4, 3, Stone::White),
        (5, 3, Stone::White),
    ]);
    let black = SmartAgent::new(Stone::Black, 1);
    let white = SmartAgent::new(Stone::White, 1);
    assert_eq!(black.evaluate_board(&gs), -white.evaluate_board(&gs));
}

#[test]
fn evaluate_move_is_zero_for_illegal_cells() {
    let gs = position_with(&[(7, 7, Stone::Black)]);
    assert_eq!(BoardEvaluator::evaluate_move(&gs, 7, 7, Stone::White), 0);
    assert_eq!(BoardEvaluator::evaluate_move(&gs, 15, 0, Stone::White), 0);
}

#[test]
fn evaluate_move_scores_a_lone_first_stone_as_zero() {
    let gs = GameState::new();
    assert_eq!(BoardEvaluator::evaluate_move(&gs, 7, 7, Stone::Black), 0);
}

#[test]
fn evaluate_move_scores_a_completed_five() {
    let gs = position_with(&[
        (5, 5, Stone::Black),
        (5, 6, Stone::Black),
        (5, 7, Stone::Black),
        (5, 8, Stone::Black),
    ]);
    assert_eq!(BoardEvaluator::evaluate_move(&gs, 5, 9, Stone::Black), 100000);
}

#[test]
fn find_best_move_completes_a_five() {
    let gs = position_with(&[
        (5, 5, Stone::Black),
        (5, 6, Stone::Black),
        (5, 7, Stone::Black),
        (5, 8, Stone::Black),
    ]);
    // both (5, 4) and (5, 9) complete the five; the row-major scan
    // keeps the first cell reaching the top score
    assert_eq!(BoardEvaluator::find_best_move(&gs, Stone::Black), Some(((5, 4), 100000)));
}

#[test]
fn find_best_move_returns_none_only_on_a_full_board() {
    let mut gs = GameState::new();
    for r in 0..15 {
        for c in 0..15 {
            let k = (r + 3 * c) % 5;
            let s = if k < 2 { Stone::Black } else { Stone::White };
            assert!(gs.apply_move(r, c, s).is_ok());
        }
    }
    assert!(BoardEvaluator::find_best_move(&gs, Stone::Black).is_none());
    let open = position_with(&[(7, 7, Stone::Black)]);
    assert!(BoardEvaluator::find_best_move(&open, Stone::White).is_some());
}
