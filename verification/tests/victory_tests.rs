use gomoku_engine::game::{GameState, Stone};
use gomoku_engine::victory::{check_victory, refresh_terminal_state};

fn state_with(stones: &[(usize, usize, Stone)]) -> GameState {
    let mut gs = GameState::new();
    for &(r, c, s) in stones {
        assert!(gs.apply_move(r, c, s).is_ok());
    }
    gs
}

#[test]
fn horizontal_five_is_a_win() {
    let gs = state_with(&[
        (5, 5, Stone::Black),
        (5, 6, Stone::Black),
        (5, 7, Stone::Black),
        (5, 8, Stone::Black),
        (5, 9, Stone::Black),
    ]);
    assert_eq!(check_victory(&gs), Some(Stone::Black));
}

#[test]
fn vertical_five_is_a_win() {
    let gs = state_with(&[
        (3, 10, Stone::White),
        (4, 10, Stone::White),
        (5, 10, Stone::White),
        (6, 10, Stone::White),
        (7, 10, Stone::White),
    ]);
    assert_eq!(check_victory(&gs), Some(Stone::White));
}

#[test]
fn diagonal_five_is_a_win() {
    let gs = state_with(&[
        (2, 2, Stone::Black),
        (3, 3, Stone::Black),
        (4, 4, Stone::Black),
        (5, 5, Stone::Black),
        (6, 6, Stone::Black),
    ]);
    assert_eq!(check_victory(&gs), Some(Stone::Black));
}

#[test]
fn anti_diagonal_five_is_a_win() {
    let gs = state_with(&[
        (2, 12, Stone::White),
        (3, 11, Stone::White),
        (4, 10, Stone::White),
        (5, 9, Stone::White),
        (6, 8, Stone::White),
    ]);
    assert_eq!(check_victory(&gs), Some(Stone::White));
}

#[test]
fn four_in_a_row_is_not_a_win() {
    let gs = state_with(&[
        (5, 5, Stone::Black),
        (5, 6, Stone::Black),
        (5, 7, Stone::Black),
        (5, 8, Stone::Black),
    ]);
    assert_eq!(check_victory(&gs), None);
}

#[test]
fn interrupted_run_is_not_a_win() {
    let gs = state_with(&[
        (5, 5, Stone::Black),
        (5, 6, Stone::Black),
        (5, 7, Stone::White),
        (5, 8, Stone::Black),
        (5, 9, Stone::Black),
        (5, 10, Stone::Black),
    ]);
    assert_eq!(check_victory(&gs), None);
}

#[test]
fn victory_survives_quarter_turn_of_the_board() {
    let winning = [(5usize, 5usize), (5, 6), (5, 7), (5, 8), (5, 9)];
    let gs = state_with(&winning.map(|(r, c)| (r, c, Stone::Black)));
    assert_eq!(check_victory(&gs), Some(Stone::Black));
    // turn every stone a quarter-turn clockwise: (r, c) -> (c, 14 - r)
    let rotated = state_with(&winning.map(|(r, c)| (c, 14 - r, Stone::Black)));
    assert_eq!(check_victory(&rotated), Some(Stone::Black));
}

#[test]
fn victory_survives_horizontal_mirror_of_the_board() {
    let winning = [(2usize, 12usize), (3, 11), (4, 10), (5, 9), (6, 8)];
    let gs = state_with(&winning.map(|(r, c)| (r, c, Stone::White)));
    assert_eq!(check_victory(&gs), Some(Stone::White));
    // mirror every stone horizontally: (r, c) -> (r, 14 - c)
    let mirrored = state_with(&winning.map(|(r, c)| (r, 14 - c, Stone::White)));
    assert_eq!(check_victory(&mirrored), Some(Stone::White));
}

#[test]
fn refresh_terminal_state_marks_a_winner() {
    let mut gs = state_with(&[
        (5, 5, Stone::Black),
        (5, 6, Stone::Black),
        (5, 7, Stone::Black),
        (5, 8, Stone::Black),
        (5, 9, Stone::Black),
    ]);
    refresh_terminal_state(&mut gs);
    assert!(gs.is_game_over);
    assert_eq!(gs.winner, Some(Stone::Black));
}

#[test]
fn refresh_terminal_state_keeps_a_running_game_running() {
    let mut gs = state_with(&[(5, 5, Stone::Black), (6, 6, Stone::White)]);
    refresh_terminal_state(&mut gs);
    assert!(!gs.is_game_over);
    assert!(gs.winner.is_none());
}

#[test]
fn refresh_terminal_state_marks_a_full_board_as_draw() {
    // fill the board so that no five in a row forms: along every scan
    // direction the residue (r + 3 * c) mod 5 takes all five values over
    // five consecutive cells, so both colours occur in every window
    let mut gs = GameState::new();
    for r in 0..15 {
        for c in 0..15 {
            let k = (r + 3 * c) % 5;
            let s = if k < 2 { Stone::Black } else { Stone::White };
            assert!(gs.apply_move(r, c, s).is_ok());
        }
    }
    assert_eq!(check_victory(&gs), None);
    refresh_terminal_state(&mut gs);
    assert!(gs.is_game_over);
    assert!(gs.winner.is_none());
}
