//! Symmetry laws for victory detection: whether a player has five in
//! a row is unchanged by a quarter-turn of the board and by a
//! horizontal mirror.

use vstd::prelude::*;

verus! {

use crate::game::{Stone, BoardSeq, board_wf, cell_at, in_bounds};
use crate::victory::{
    is_winner, wins_from, wins_dir, winner_of, lemma_winner_of_none, lemma_winner_of_finds,
    lemma_scan_winner_sound,
};

/// The board turned a quarter-turn clockwise: the stone at `(r, c)`
/// moves to `(c, 14 - r)`.
pub open spec fn rotated(b: BoardSeq) -> BoardSeq {
    Seq::new(225, |i: int| cell_at(b, 14 - (i % 15), i / 15))
}

/// The board mirrored horizontally: the stone at `(r, c)` moves to
/// `(r, 14 - c)`.
pub open spec fn mirrored(b: BoardSeq) -> BoardSeq {
    Seq::new(225, |i: int| cell_at(b, i / 15, 14 - (i % 15)))
}

/// Reading a cell of the rotated board reads the matching cell of the
/// original.
pub proof fn lemma_rotated_cell(b: BoardSeq, r: int, c: int)
    requires
        in_bounds(r, c),
    ensures
        board_wf(rotated(b)),
        cell_at(rotated(b), r, c) == cell_at(b, 14 - c, r),
{
    let i = r * 15 + c;
    assert(0 <= i < 225);
    assert(i / 15 == r && i % 15 == c) by (nonlinear_arith)
        requires
            0 <= r <= 14,
            0 <= c <= 14,
            i == r * 15 + c,
    ;
}

/// Reading a cell of the mirrored board reads the matching cell of
/// the original.
pub proof fn lemma_mirrored_cell(b: BoardSeq, r: int, c: int)
    requires
        in_bounds(r, c),
    ensures
        board_wf(mirrored(b)),
        cell_at(mirrored(b), r, c) == cell_at(b, r, 14 - c),
{
    let i = r * 15 + c;
    assert(0 <= i < 225);
    assert(i / 15 == r && i % 15 == c) by (nonlinear_arith)
        requires
            0 <= r <= 14,
            0 <= c <= 14,
            i == r * 15 + c,
    ;
}

/// All cell reads of a rotated board, for use in line arguments.
proof fn lemma_rotated_cells_all(b: BoardSeq)
    ensures
        board_wf(rotated(b)),
        forall|r: int, c: int|
            in_bounds(r, c) ==> #[trigger] cell_at(rotated(b), r, c) == cell_at(b, 14 - c, r),
{
    assert forall|r: int, c: int|
        in_bounds(r, c) implies #[trigger] cell_at(rotated(b), r, c) == cell_at(b, 14 - c, r) by {
        lemma_rotated_cell(b, r, c);
    }
    assert(rotated(b).len() == 225);
}

/// All cell reads of a mirrored board.
proof fn lemma_mirrored_cells_all(b: BoardSeq)
    ensures
        board_wf(mirrored(b)),
        forall|r: int, c: int|
            in_bounds(r, c) ==> #[trigger] cell_at(mirrored(b), r, c) == cell_at(b, r, 14 - c),
{
    assert forall|r: int, c: int|
        in_bounds(r, c) implies #[trigger] cell_at(mirrored(b), r, c) == cell_at(b, r, 14 - c) by {
        lemma_mirrored_cell(b, r, c);
    }
    assert(mirrored(b).len() == 225);
}

/// A winning line survives a quarter-turn.
proof fn lemma_rotation_preserves_win(b: BoardSeq, s: Stone)
    requires
        is_winner(b, s),
    ensures
        is_winner(rotated(b), s),
{
    let rb = rotated(b);
    lemma_rotated_cells_all(b);
    let (r, c) = choose|r: int, c: int| #[trigger] wins_from(b, r, c, s);
    if wins_dir(b, r, c, 0, 1, s) {
        assert(wins_dir(rb, c, 14 - r, 1, 0, s));
        assert(wins_from(rb, c, 14 - r, s));
    } else if wins_dir(b, r, c, 1, 0, s) {
        assert(wins_dir(rb, c, 14 - r - 4, 0, 1, s));
        assert(wins_from(rb, c, 14 - r - 4, s));
    } else if wins_dir(b, r, c, 1, 1, s) {
        assert(wins_dir(rb, c, 14 - r, 1, -1, s));
        assert(wins_from(rb, c, 14 - r, s));
    } else {
        assert(wins_dir(b, r, c, 1, -1, s));
        assert(wins_dir(rb, c - 4, 14 - r - 4, 1, 1, s));
        assert(wins_from(rb, c - 4, 14 - r - 4, s));
    }
}

/// A winning line survives a horizontal mirror.
proof fn lemma_mirror_preserves_win(b: BoardSeq, s: Stone)
    requires
        is_winner(b, s),
    ensures
        is_winner(mirrored(b), s),
{
    let mb = mirrored(b);
    lemma_mirrored_cells_all(b);
    let (r, c) = choose|r: int, c: int| #[trigger] wins_from(b, r, c, s);
    if wins_dir(b, r, c, 0, 1, s) {
        assert(wins_dir(mb, r, 14 - c - 4, 0, 1, s));
        assert(wins_from(mb, r, 14 - c - 4, s));
    } else if wins_dir(b, r, c, 1, 0, s) {
        assert(wins_dir(mb, r, 14 - c, 1, 0, s));
        assert(wins_from(mb, r, 14 - c, s));
    } else if wins_dir(b, r, c, 1, 1, s) {
        assert(wins_dir(mb, r, 14 - c, 1, -1, s));
        assert(wins_from(mb, r, 14 - c, s));
    } else {
        assert(wins_dir(b, r, c, 1, -1, s));
        assert(wins_dir(mb, r, 14 - c, 1, 1, s));
        assert(wins_from(mb, r, 14 - c, s));
    }
}

/// Four quarter-turns bring the board back.
proof fn lemma_rotated_four(b: BoardSeq)
    requires
        board_wf(b),
    ensures
        rotated(rotated(rotated(rotated(b)))) == b,
{
    let b4 = rotated(rotated(rotated(rotated(b))));
    assert forall|i: int| 0 <= i < 225 implies b4[i] == b[i] by {
        let r = i / 15;
        let c = i % 15;
        assert(0 <= r <= 14 && 0 <= c <= 14) by (nonlinear_arith)
            requires
                0 <= i < 225,
                r == i / 15,
                c == i % 15,
        ;
        assert(r * 15 + c == i) by (nonlinear_arith)
            requires
                0 <= i < 225,
                r == i / 15,
                c == i % 15,
        ;
        lemma_rotated_cell(rotated(rotated(rotated(b))), r, c);
        lemma_rotated_cell(rotated(rotated(b)), 14 - c, r);
        lemma_rotated_cell(rotated(b), 14 - r, 14 - c);
        lemma_rotated_cell(b, c, 14 - r);
        assert(cell_at(b4, r, c) == cell_at(b, r, c));
    }
    assert(b4 =~= b);
}

/// Two mirrors bring the board back.
proof fn lemma_mirrored_twice(b: BoardSeq)
    requires
        board_wf(b),
    ensures
        mirrored(mirrored(b)) == b,
{
    let b2 = mirrored(mirrored(b));
    assert forall|i: int| 0 <= i < 225 implies b2[i] == b[i] by {
        let r = i / 15;
        let c = i % 15;
        assert(0 <= r <= 14 && 0 <= c <= 14) by (nonlinear_arith)
            requires
                0 <= i < 225,
                r == i / 15,
                c == i % 15,
        ;
        assert(r * 15 + c == i) by (nonlinear_arith)
            requires
                0 <= i < 225,
                r == i / 15,
                c == i % 15,
        ;
        lemma_mirrored_cell(mirrored(b), r, c);
        lemma_mirrored_cell(b, r, 14 - c);
        assert(cell_at(b2, r, c) == cell_at(b, r, c));
    }
    assert(b2 =~= b);
}

/// Victory detection is invariant under a quarter-turn of the board:
/// a player has five in a row on the rotated board exactly when they
/// have five in a row on the original.
pub proof fn lemma_victory_rotation_invariant(b: BoardSeq, s: Stone)
    requires
        board_wf(b),
    ensures
        is_winner(rotated(b), s) <==> is_winner(b, s),
{
    if is_winner(b, s) {
        lemma_rotation_preserves_win(b, s);
    }
    if is_winner(rotated(b), s) {
        lemma_rotated_cells_all(b);
        lemma_rotation_preserves_win(rotated(b), s);
        lemma_rotated_cells_all(rotated(b));
        lemma_rotation_preserves_win(rotated(rotated(b)), s);
        lemma_rotated_cells_all(rotated(rotated(b)));
        lemma_rotation_preserves_win(rotated(rotated(rotated(b))), s);
        lemma_rotated_four(b);
    }
}

/// Victory detection is invariant under a horizontal mirror of the
/// board.
pub proof fn lemma_victory_mirror_invariant(b: BoardSeq, s: Stone)
    requires
        board_wf(b),
    ensures
        is_winner(mirrored(b), s) <==> is_winner(b, s),
{
    if is_winner(b, s) {
        lemma_mirror_preserves_win(b, s);
    }
    if is_winner(mirrored(b), s) {
        lemma_mirrored_cells_all(b);
        lemma_mirror_preserves_win(mirrored(b), s);
        lemma_mirrored_twice(b);
    }
}

/// The victory scan finds a winner on the rotated board exactly when
/// it finds one on the original.
pub proof fn lemma_winner_found_rotation_invariant(b: BoardSeq)
    requires
        board_wf(b),
    ensures
        winner_of(rotated(b)) is Some <==> winner_of(b) is Some,
{
    lemma_rotated_cells_all(b);
    if winner_of(b) is Some {
        lemma_scan_winner_sound(b, 0);
        let w = winner_of(b)->Some_0;
        lemma_victory_rotation_invariant(b, w);
        lemma_winner_of_finds(rotated(b), w);
    }
    if winner_of(rotated(b)) is Some {
        lemma_scan_winner_sound(rotated(b), 0);
        let w = winner_of(rotated(b))->Some_0;
        lemma_victory_rotation_invariant(b, w);
        lemma_winner_of_finds(b, w);
    }
}

/// The victory scan finds a winner on the mirrored board exactly when
/// it finds one on the original.
pub proof fn lemma_winner_found_mirror_invariant(b: BoardSeq)
    requires
        board_wf(b),
    ensures
        winner_of(mirrored(b)) is Some <==> winner_of(b) is Some,
{
    lemma_mirrored_cells_all(b);
    if winner_of(b) is Some {
        lemma_scan_winner_sound(b, 0);
        let w = winner_of(b)->Some_0;
        lemma_victory_mirror_invariant(b, w);
        lemma_winner_of_finds(mirrored(b), w);
    }
    if winner_of(mirrored(b)) is Some {
        lemma_scan_winner_sound(mirrored(b), 0);
        let w = winner_of(mirrored(b))->Some_0;
        lemma_victory_mirror_invariant(b, w);
        lemma_winner_of_finds(b, w);
    }
}

} // verus!
