//! Board state for a Gomoku game: a square grid of tri-state cells,
//! whose turn it is, and whether the game has ended.

use vstd::prelude::*;

verus! {

/// Highest playable row or column index.  The board offers
/// `GRID_SIZE + 1` intersections along each axis, indexed `0..=GRID_SIZE`.
pub const GRID_SIZE: usize = 14;

/// Number of intersections along one axis.
pub const BOARD_DIM: usize = 15;

/// Total number of intersections on the board.
pub const BOARD_CELLS: usize = 225;

/// The stone colour of one of the two players.
#[derive(Clone, Copy, PartialEq, Eq, Structural, Debug)]
pub enum Stone {
    Black,
    White,
}

impl Stone {
    /// The colour of the other player.
    pub open spec fn flipped(&self) -> Stone {
        match self {
            Stone::Black => Stone::White,
            Stone::White => Stone::Black,
        }
    }

    /// Returns the other player's colour; applying it twice gives the
    /// original colour back.
    #[verifier::when_used_as_spec(flipped)]
    pub fn opponent(&self) -> (r: Stone)
        ensures
            r == self.flipped(),
            r.flipped() == *self,
    {
        match self {
            Stone::Black => Stone::White,
            Stone::White => Stone::Black,
        }
    }
}

/// Why a requested board mutation was rejected.
#[derive(Clone, Copy, PartialEq, Eq, Structural, Debug)]
pub enum InvalidMove {
    /// The coordinate lies outside the grid.
    OutOfBounds,
    /// The target cell already holds a stone.
    CellOccupied,
    /// An undo was requested for an empty or out-of-range cell.
    InvalidUndo,
}

/// The mathematical view of a board: one entry per intersection, in
/// row-major order.
pub type BoardSeq = Seq<Option<Stone>>;

/// A row/column pair lies on the board.
pub open spec fn in_bounds(r: int, c: int) -> bool {
    0 <= r <= 14 && 0 <= c <= 14
}

/// Row-major index of an intersection.
pub open spec fn cell_index(r: int, c: int) -> int {
    r * 15 + c
}

/// A board view has exactly one entry per intersection.
pub open spec fn board_wf(b: BoardSeq) -> bool {
    b.len() == 225
}

/// Contents of the cell at `(r, c)`.
pub open spec fn cell_at(b: BoardSeq, r: int, c: int) -> Option<Stone> {
    b[cell_index(r, c)]
}

/// The board with the cell at `(r, c)` replaced by `v`.
pub open spec fn board_put(b: BoardSeq, r: int, c: int, v: Option<Stone>) -> BoardSeq {
    b.update(cell_index(r, c), v)
}

/// The board with no stones on it.
pub open spec fn empty_board() -> BoardSeq {
    Seq::new(225, |i: int| None)
}

/// A move is legal when its target is an empty cell on the board.
pub open spec fn move_legal(b: BoardSeq, r: int, c: int) -> bool {
    in_bounds(r, c) && cell_at(b, r, c) is None
}

/// Distinct on-board coordinates have distinct row-major indices.
pub proof fn lemma_cell_index_injective(r1: int, c1: int, r2: int, c2: int)
    requires
        in_bounds(r1, c1),
        in_bounds(r2, c2),
        !(r1 == r2 && c1 == c2),
    ensures
        cell_index(r1, c1) != cell_index(r2, c2),
{
}

/// Writing one cell leaves every other cell unchanged.
pub proof fn lemma_put_preserves_others(b: BoardSeq, r: int, c: int, v: Option<Stone>)
    requires
        board_wf(b),
        in_bounds(r, c),
    ensures
        board_wf(board_put(b, r, c, v)),
        cell_at(board_put(b, r, c, v), r, c) == v,
        forall|r2: int, c2: int|
            in_bounds(r2, c2) && !(r2 == r && c2 == c) ==> cell_at(
                board_put(b, r, c, v),
                r2,
                c2,
            ) == cell_at(b, r2, c2),
{
    assert forall|r2: int, c2: int|
        in_bounds(r2, c2) && !(r2 == r && c2 == c) implies cell_at(board_put(b, r, c, v), r2, c2)
        == cell_at(b, r2, c2) by {
        lemma_cell_index_injective(r, c, r2, c2);
    }
}

/// Applying a move and then undoing that exact move restores the board
/// bit for bit.
pub proof fn lemma_apply_then_undo(b: BoardSeq, r: int, c: int, s: Stone)
    requires
        board_wf(b),
        move_legal(b, r, c),
    ensures
        board_put(board_put(b, r, c, Some(s)), r, c, None) == b,
{
    assert(board_put(board_put(b, r, c, Some(s)), r, c, None) =~= b);
}

/// Row-major list of all empty cells from cell index `i` onward.
pub open spec fn valid_scan(b: BoardSeq, i: nat) -> Seq<(usize, usize)>
    decreases 225 - i,
{
    if i >= 225 {
        Seq::empty()
    } else {
        let r = i as int / 15;
        let c = i as int % 15;
        if b[i as int] is None {
            seq![(r as usize, c as usize)] + valid_scan(b, i + 1)
        } else {
            valid_scan(b, i + 1)
        }
    }
}

/// All empty cells of the board, in row-major order.
pub open spec fn valid_moves(b: BoardSeq) -> Seq<(usize, usize)> {
    valid_scan(b, 0)
}

/// The whole game position: the board, whose turn it is, and whether
/// the game has ended (and for whom).
pub struct GameState {
    /// Row-major cell contents; entry `r * 15 + c` is intersection `(r, c)`.
    pub board: Vec<Option<Stone>>,
    /// The player whose move it is.
    pub current_turn: Stone,
    /// True once a winner was found or the board filled up.
    pub is_game_over: bool,
    /// The winning player, or `None` while running or after a draw.
    pub winner: Option<Stone>,
}

impl GameState {
    /// The board vector covers exactly the grid.
    pub open spec fn wf(&self) -> bool {
        self.board@.len() == 225
    }

    /// A fresh game: empty board, first player to move, not over.
    pub fn new() -> (r: GameState)
        ensures
            r.wf(),
            r.board@ == empty_board(),
            r.current_turn == Stone::Black,
            !r.is_game_over,
            r.winner is None,
    {
        let board = new_empty_cells();
        GameState { board, current_turn: Stone::Black, is_game_over: false, winner: None }
    }

    /// Clears the board and the terminal flags and hands the move back
    /// to the starting player.
    pub fn reset(&mut self)
        ensures
            final(self).wf(),
            final(self).board@ == empty_board(),
            final(self).current_turn == Stone::Black,
            !final(self).is_game_over,
            final(self).winner is None,
    {
        self.board = new_empty_cells();
        self.current_turn = Stone::Black;
        self.is_game_over = false;
        self.winner = None;
    }

    /// The stone at `(r, c)`, which must lie on the board.
    pub fn stone_at(&self, r: usize, c: usize) -> (res: Option<Stone>)
        requires
            self.wf(),
            r <= 14,
            c <= 14,
        ensures
            res == cell_at(self.board@, r as int, c as int),
    {
        self.board[r * 15 + c]
    }

    /// Places `stone` at `(r, c)`.  Fails without touching the state
    /// when the coordinate is off the board or the cell is occupied.
    pub fn apply_move(&mut self, r: usize, c: usize, stone: Stone) -> (res: Result<
        (),
        InvalidMove,
    >)
        requires
            old(self).wf(),
        ensures
            final(self).wf(),
            final(self).current_turn == old(self).current_turn,
            final(self).is_game_over == old(self).is_game_over,
            final(self).winner == old(self).winner,
            res is Ok <==> move_legal(old(self).board@, r as int, c as int),
            res is Ok ==> final(self).board@ == board_put(
                old(self).board@,
                r as int,
                c as int,
                Some(stone),
            ),
            res is Err ==> final(self).board@ == old(self).board@,
            r > 14 || c > 14 ==> res == Err::<(), InvalidMove>(InvalidMove::OutOfBounds),
            r <= 14 && c <= 14 && cell_at(old(self).board@, r as int, c as int) is Some ==> res
                == Err::<(), InvalidMove>(InvalidMove::CellOccupied),
    {
        if r > 14 || c > 14 {
            return Err(InvalidMove::OutOfBounds);
        }
        let idx = r * 15 + c;
        match self.board[idx] {
            Some(_) => Err(InvalidMove::CellOccupied),
            None => {
                self.board[idx] = Some(stone);
                Ok(())
            },
        }
    }

    /// Clears the cell at `(r, c)`, which is expected to hold a stone
    /// that the caller just placed.  Fails without touching the state
    /// when the coordinate is off the board or the cell is empty.
    pub fn undo_move(&mut self, r: usize, c: usize) -> (res: Result<(), InvalidMove>)
        requires
            old(self).wf(),
        ensures
            final(self).wf(),
            final(self).current_turn == old(self).current_turn,
            final(self).is_game_over == old(self).is_game_over,
            final(self).winner == old(self).winner,
            res is Ok <==> in_bounds(r as int, c as int) && cell_at(
                old(self).board@,
                r as int,
                c as int,
            ) is Some,
            res is Ok ==> final(self).board@ == board_put(old(self).board@, r as int, c as int, None),
            res is Err ==> final(self).board@ == old(self).board@ && res == Err::<(), InvalidMove>(
                InvalidMove::InvalidUndo,
            ),
    {
        if r > 14 || c > 14 {
            return Err(InvalidMove::InvalidUndo);
        }
        let idx = r * 15 + c;
        match self.board[idx] {
            None => Err(InvalidMove::InvalidUndo),
            Some(_) => {
                self.board[idx] = None;
                Ok(())
            },
        }
    }

    /// An independent copy of the state with `stone` placed at `(r, c)`,
    /// or `None` when that move is illegal.
    pub fn make_move_simulated(&self, r: usize, c: usize, stone: Stone) -> (res: Option<GameState>)
        requires
            self.wf(),
        ensures
            res is Some <==> move_legal(self.board@, r as int, c as int),
            res matches Some(st) ==> st.wf() && st.board@ == board_put(
                self.board@,
                r as int,
                c as int,
                Some(stone),
            ) && st.current_turn == self.current_turn && st.is_game_over == self.is_game_over
                && st.winner == self.winner,
    {
        if r > 14 || c > 14 {
            return None;
        }
        let idx = r * 15 + c;
        match self.board[idx] {
            Some(_) => None,
            None => {
                let mut board = copy_cells(&self.board);
                board[idx] = Some(stone);
                Some(
                    GameState {
                        board,
                        current_turn: self.current_turn,
                        is_game_over: self.is_game_over,
                        winner: self.winner,
                    },
                )
            },
        }
    }

    /// All empty cells, in row-major order.
    pub fn get_valid_moves(&self) -> (moves: Vec<(usize, usize)>)
        requires
            self.wf(),
        ensures
            moves@ == valid_moves(self.board@),
    {
        let mut moves: Vec<(usize, usize)> = Vec::new();
        let mut r: usize = 0;
        while r < 15
            invariant
                self.wf(),
                r <= 15,
                valid_moves(self.board@) == moves@ + valid_scan(self.board@, (r * 15) as nat),
            decreases 15 - r,
        {
            let mut c: usize = 0;
            while c < 15
                invariant
                    self.wf(),
                    r < 15,
                    c <= 15,
                    valid_moves(self.board@) == moves@ + valid_scan(
                        self.board@,
                        (r * 15 + c) as nat,
                    ),
                decreases 15 - c,
            {
                let ghost i = (r * 15 + c) as nat;
                proof {
                    assert(i < 225);
                    assert(i as int / 15 == r as int && i as int % 15 == c as int) by (nonlinear_arith)
                        requires
                            i == r * 15 + c,
                            r < 15,
                            c < 15,
                    ;
                }
                if self.board[r * 15 + c].is_none() {
                    let ghost m0 = moves@;
                    moves.push((r, c));
                    proof {
                        assert(valid_scan(self.board@, i) == seq![(r, c)] + valid_scan(
                            self.board@,
                            i + 1,
                        ));
                        assert(m0 + valid_scan(self.board@, i) =~= moves@ + valid_scan(
                            self.board@,
                            i + 1,
                        ));
                    }
                } else {
                    proof {
                        assert(valid_scan(self.board@, i) == valid_scan(self.board@, i + 1));
                    }
                }
                c = c + 1;
            }
            r = r + 1;
        }
        proof {
            assert(valid_scan(self.board@, 225) == Seq::<(usize, usize)>::empty());
            assert(moves@ + Seq::<(usize, usize)>::empty() =~= moves@);
        }
        moves
    }
}

impl Clone for GameState {
    /// A deep copy with an identical board and flags.
    fn clone(&self) -> (res: GameState)
        ensures
            res.board@ == self.board@,
            res.current_turn == self.current_turn,
            res.is_game_over == self.is_game_over,
            res.winner == self.winner,
    {
        GameState {
            board: copy_cells(&self.board),
            current_turn: self.current_turn,
            is_game_over: self.is_game_over,
            winner: self.winner,
        }
    }
}

/// A board vector with every cell empty.
fn new_empty_cells() -> (v: Vec<Option<Stone>>)
    ensures
        v@ == empty_board(),
{
    let mut v: Vec<Option<Stone>> = Vec::new();
    let mut i: usize = 0;
    while i < 225
        invariant
            i <= 225,
            v@.len() == i,
            forall|j: int| 0 <= j < i ==> v@[j] is None,
        decreases 225 - i,
    {
        v.push(None);
        i = i + 1;
    }
    proof {
        assert(v@ =~= empty_board());
    }
    v
}

/// An element-wise copy of a board vector.
fn copy_cells(src: &Vec<Option<Stone>>) -> (v: Vec<Option<Stone>>)
    ensures
        v@ == src@,
{
    let mut v: Vec<Option<Stone>> = Vec::new();
    let mut i: usize = 0;
    while i < src.len()
        invariant
            i <= src@.len(),
            v@ =~= src@.subrange(0, i as int),
        decreases src@.len() - i,
    {
        v.push(src[i]);
        i = i + 1;
    }
    proof {
        assert(v@ =~= src@);
    }
    v
}

} // verus!
