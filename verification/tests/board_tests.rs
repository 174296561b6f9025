use gomoku_engine::game::{GameState, InvalidMove, Stone};

#[test]
fn new_game_is_empty_and_black_to_move() {
    let gs = GameState::new();
    assert_eq!(gs.current_turn, Stone::Black);
    assert!(!gs.is_game_over);
    assert!(gs.winner.is_none());
    for r in 0..15 {
        for c in 0..15 {
            assert!(gs.stone_at(r, c).is_none());
        }
    }
}

#[test]
fn apply_move_places_a_stone() {
    let mut gs = GameState::new();
    assert!(gs.apply_move(3, 4, Stone::Black).is_ok());
    assert_eq!(gs.stone_at(3, 4), Some(Stone::Black));
    assert!(gs.stone_at(4, 3).is_none());
}

#[test]
fn apply_move_rejects_out_of_bounds() {
    let mut gs = GameState::new();
    assert_eq!(gs.apply_move(15, 0, Stone::Black), Err(InvalidMove::OutOfBounds));
    assert_eq!(gs.apply_move(0, 15, Stone::White), Err(InvalidMove::OutOfBounds));
    assert_eq!(gs.apply_move(100, 100, Stone::Black), Err(InvalidMove::OutOfBounds));
    for r in 0..15 {
        for c in 0..15 {
            assert!(gs.stone_at(r, c).is_none());
        }
    }
}

#[test]
fn apply_move_rejects_occupied_cell() {
    let mut gs = GameState::new();
    assert!(gs.apply_move(7, 7, Stone::Black).is_ok());
    assert_eq!(gs.apply_move(7, 7, Stone::White), Err(InvalidMove::CellOccupied));
    assert_eq!(gs.stone_at(7, 7), Some(Stone::Black));
}

#[test]
fn undo_move_rejects_empty_and_out_of_range_cells() {
    let mut gs = GameState::new();
    assert_eq!(gs.undo_move(4, 4), Err(InvalidMove::InvalidUndo));
    assert_eq!(gs.undo_move(15, 2), Err(InvalidMove::InvalidUndo));
}

#[test]
fn apply_then_undo_restores_board_exactly() {
    let mut gs = GameState::new();
    assert!(gs.apply_move(2, 3, Stone::Black).is_ok());
    assert!(gs.apply_move(9, 11, Stone::White).is_ok());
    let before: Vec<Option<Stone>> = (0..15)
        .flat_map(|r| (0..15).map(move |c| (r, c)))
        .map(|(r, c)| gs.stone_at(r, c))
        .collect();
    let turn_before = gs.current_turn;
    assert!(gs.apply_move(6, 6, Stone::White).is_ok());
    assert!(gs.undo_move(6, 6).is_ok());
    let after: Vec<Option<Stone>> = (0..15)
        .flat_map(|r| (0..15).map(move |c| (r, c)))
        .map(|(r, c)| gs.stone_at(r, c))
        .collect();
    assert_eq!(before, after);
    assert_eq!(gs.current_turn, turn_before);
}

#[test]
fn make_move_simulated_leaves_original_untouched() {
    let gs = GameState::new();
    let sim = gs.make_move_simulated(5, 5, Stone::Black);
    assert!(sim.is_some());
    let sim = sim.unwrap();
    assert_eq!(sim.stone_at(5, 5), Some(Stone::Black));
    assert!(gs.stone_at(5, 5).is_none());
}

#[test]
fn make_move_simulated_rejects_illegal_moves() {
    let mut gs = GameState::new();
    assert!(gs.apply_move(1, 1, Stone::White).is_ok());
    assert!(gs.make_move_simulated(1, 1, Stone::Black).is_none());
    assert!(gs.make_move_simulated(20, 1, Stone::Black).is_none());
}

#[test]
fn get_valid_moves_lists_all_empty_cells_row_major() {
    let mut gs = GameState::new();
    let all = gs.get_valid_moves();
    assert_eq!(all.len(), 225);
    assert_eq!(all[0], (0, 0));
    assert_eq!(all[224], (14, 14));
    assert!(gs.apply_move(0, 0, Stone::Black).is_ok());
    let rest = gs.get_valid_moves();
    assert_eq!(rest.len(), 224);
    assert_eq!(rest[0], (0, 1));
}

#[test]
fn reset_clears_board_and_flags() {
    let mut gs = GameState::new();
    assert!(gs.apply_move(4, 4, Stone::Black).is_ok());
    gs.is_game_over = true;
    gs.winner = Some(Stone::Black);
    gs.current_turn = Stone::White;
    gs.reset();
    assert!(gs.stone_at(4, 4).is_none());
    assert_eq!(gs.current_turn, Stone::Black);
    assert!(!gs.is_game_over);
    assert!(gs.winner.is_none());
}

#[test]
fn opponent_is_an_involution() {
    assert_eq!(Stone::Black.opponent(), Stone::White);
    assert_eq!(Stone::White.opponent(), Stone::Black);
    assert_eq!(Stone::Black.opponent().opponent(), Stone::Black);
    assert_eq!(Stone::White.opponent().opponent(), Stone::White);
}
