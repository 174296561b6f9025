use gomoku_engine::agent::SmartAgent;
use gomoku_engine::game::{GameState, Stone};
use gomoku_engine::victory::check_victory;

fn board_with(stones: &[(usize, usize, Stone)]) -> GameState {
    let mut gs = GameState::new();
    for &(r, c, s) in stones {
        assert!(gs.apply_move(r, c, s).is_ok());
    }
    gs
}

#[test]
fn first_move_on_empty_board_is_the_centre() {
    // the agent plays second, but the board is still empty on its
    // first turn: the only candidate is the centre cell
    let gs = GameState::new();
    for depth in [1, 2, 4, 7] {
        let agent = SmartAgent::new(Stone::White, depth);
        assert_eq!(agent.make_move(&gs), Some((7, 7)));
    }
}

#[test]
fn make_move_returns_a_legal_empty_cell() {
    let gs = board_with(&[
        (7, 7, Stone::Black),
        (7, 8, Stone::White),
        (8, 7, Stone::Black),
        (6, 6, Stone::White),
    ]);
    let agent = SmartAgent::new(Stone::Black, 1);
    let (r, c) = agent.make_move(&gs).expect("a move must exist");
    assert!(r <= 14 && c <= 14);
    assert!(gs.stone_at(r, c).is_none());
}

#[test]
fn make_move_returns_none_once_the_game_is_over() {
    let mut gs = board_with(&[(7, 7, Stone::Black)]);
    gs.is_game_over = true;
    let agent = SmartAgent::new(Stone::White, 3);
    assert_eq!(agent.make_move(&gs), None);
}

#[test]
fn immediate_win_is_taken_at_any_depth() {
    let gs = board_with(&[
        (5, 5, Stone::Black),
        (5, 6, Stone::Black),
        (5, 7, Stone::Black),
        (5, 8, Stone::Black),
        (6, 5, Stone::White),
        (6, 6, Stone::White),
        (6, 7, Stone::White),
    ]);
    for depth in [1, 2, 4] {
        let agent = SmartAgent::new(Stone::Black, depth);
        let (r, c) = agent.make_move(&gs).expect("a move must exist");
        let won = gs.make_move_simulated(r, c, Stone::Black).expect("move must be legal");
        assert_eq!(check_victory(&won), Some(Stone::Black));
    }
}

#[test]
fn open_four_of_the_opponent_is_blocked() {
    let gs = board_with(&[
        (5, 5, Stone::White),
        (5, 6, Stone::White),
        (5, 7, Stone::White),
        (5, 8, Stone::White),
        (0, 0, Stone::Black),
        (0, 2, Stone::Black),
    ]);
    for depth in [1, 2] {
        let agent = SmartAgent::new(Stone::Black, depth);
        let mv = agent.make_move(&gs).expect("a move must exist");
        assert!(
            mv == (5, 4) || mv == (5, 9),
            "expected a blocking cell, got {:?} at depth {}",
            mv,
            depth
        );
    }
}

#[test]
fn pruned_search_equals_exhaustive_search_at_depth_one() {
    // at depth one the minimax value is the best one-ply evaluation
    // over all candidate moves; the pruned, move-ordered search must
    // reach exactly that value
    let gs = board_with(&[
        (7, 7, Stone::Black),
        (7, 8, Stone::White),
        (8, 8, Stone::Black),
        (6, 7, Stone::White),
    ]);
    let agent = SmartAgent::new(Stone::Black, 1);
    let mut exhaustive = i32::MIN;
    for (r, c) in agent.get_relevant_moves(&gs) {
        let child = gs.make_move_simulated(r, c, Stone::Black).expect("candidate must be legal");
        assert_eq!(check_victory(&child), None);
        let e = agent.evaluate_board(&child);
        if e > exhaustive {
            exhaustive = e;
        }
    }
    let mut working = gs.clone();
    let pruned = agent.minimax(&mut working, 1, true, i32::MIN, i32::MAX);
    assert_eq!(pruned, exhaustive);
}

#[test]
fn make_move_is_deterministic() {
    let gs = board_with(&[
        (7, 7, Stone::Black),
        (7, 8, Stone::White),
        (8, 7, Stone::Black),
        (9, 9, Stone::White),
    ]);
    let agent = SmartAgent::new(Stone::White, 2);
    let first = agent.make_move(&gs);
    let second = agent.make_move(&gs);
    assert_eq!(first, second);
    let copy = gs.clone();
    let again = agent.make_move(&copy);
    assert_eq!(first, again);
}

#[test]
fn relevant_moves_surround_existing_stones() {
    let agent = SmartAgent::new(Stone::Black, 1);
    let empty = GameState::new();
    assert_eq!(agent.get_relevant_moves(&empty), vec![(7, 7)]);
    let corner = board_with(&[(0, 0, Stone::Black)]);
    let moves = agent.get_relevant_moves(&corner);
    // the 3 x 3 corner block within radius two, minus the stone itself
    assert_eq!(moves.len(), 8);
    for &(r, c) in &moves {
        assert!(r <= 2 && c <= 2);
        assert!(!(r == 0 && c == 0));
    }
}

#[test]
fn depth_is_clamped_to_at_least_one() {
    let agent = SmartAgent::new(Stone::Black, 0);
    assert_eq!(agent.get_difficulty(), 1);
    let mut other = SmartAgent::new(Stone::White, 3);
    assert_eq!(other.get_difficulty(), 3);
    other.set_depth(0);
    assert_eq!(other.get_difficulty(), 1);
    other.set_depth(5);
    assert_eq!(other.get_difficulty(), 5);
}

#[test]
fn agent_colour_can_be_switched() {
    let mut agent = SmartAgent::new(Stone::Black, 2);
    assert_eq!(agent.get_stone(), Stone::Black);
    agent.set_stone(Stone::White);
    assert_eq!(agent.get_stone(), Stone::White);
    assert_eq!(agent.get_difficulty(), 2);
}
