//! The board: an 8x8 grid of optional pieces plus side to move, castling
//! rights, en-passant target, clocks, move history, and cached king squares.
//!
//! Rank 0 is the top rank in FEN's rank-major order (Black's back rank), so
//! White pawns advance toward lower rank indices.

use vstd::prelude::*;

use crate::fen::CastleFlags;
use crate::moves::Move;
use crate::piece::Color;
use crate::piece::Piece;
use crate::piece::PieceKind;

verus! {

/// A square as a (rank, file) pair, each in [0, 8).
pub type Square = (usize, usize);

/// How the game stands for the side to move.
#[derive(Debug, Copy, Clone, PartialEq, Eq, Structural)]
pub enum GameStatus {
    WhiteWin,
    BlackWin,
    Draw,
    Ongoing,
}

/// The mathematical value of a board: the grid as a sequence of 64 squares in
/// rank-major order, together with all bookkeeping fields.
#[verifier::ext_equal]
pub ghost struct BoardModel {
    pub grid: Seq<Option<Piece>>,
    pub active_turn: Color,
    pub castle_flags: CastleFlags,
    pub en_passant_square: Option<Square>,
    pub halfmove_clock: u64,
    pub fullmove_number: u64,
    pub history: Seq<Move>,
    pub white_king_position: Square,
    pub black_king_position: Square,
}

/// A full chess position.
#[derive(Debug, PartialEq)]
pub struct Board {
    /// The grid, 64 squares in rank-major order: rank r, file f is at 8*r + f.
    pub state: Vec<Option<Piece>>,
    pub active_turn: Color,
    pub castle_flags: CastleFlags,
    pub en_passant_square: Option<Square>,
    pub halfmove_clock: u64,
    pub fullmove_number: u64,
    pub history: Vec<Move>,
    pub white_king_position: Square,
    pub black_king_position: Square,
}

impl View for Board {
    type V = BoardModel;

    open spec fn view(&self) -> BoardModel {
        BoardModel {
            grid: self.state@,
            active_turn: self.active_turn,
            castle_flags: self.castle_flags,
            en_passant_square: self.en_passant_square,
            halfmove_clock: self.halfmove_clock,
            fullmove_number: self.fullmove_number,
            history: self.history@,
            white_king_position: self.white_king_position,
            black_king_position: self.black_king_position,
        }
    }
}

/// Whether (r, f) is a square of the 8x8 grid.
pub open spec fn on_board(r: int, f: int) -> bool {
    0 <= r < 8 && 0 <= f < 8
}

/// The rank-major linear index of a square.
pub open spec fn sq_idx(r: int, f: int) -> int {
    8 * r + f
}

/// The linear index of the square at rank `x`, file `y`.
pub fn bb_pos_from_2d(x: u8, y: u8) -> (r: u8)
    requires
        x < 8,
        y < 8,
    ensures
        r == sq_idx(x as int, y as int),
{
    x * 8 + y
}

impl BoardModel {
    /// The piece standing on (r, f), if any.
    pub open spec fn at(self, r: int, f: int) -> Option<Piece> {
        self.grid[sq_idx(r, f)]
    }

    /// The cached square of `color`'s king.
    pub open spec fn king_position(self, color: Color) -> Square {
        match color {
            Color::White => self.white_king_position,
            Color::Black => self.black_king_position,
        }
    }

    /// Whether (r, f) holds the king of `color`.
    pub open spec fn is_king_of(self, color: Color, r: int, f: int) -> bool {
        self.at(r, f) == Some(Piece { piece_kind: PieceKind::King, color })
    }

    /// Well-formedness: the grid has 64 squares, each side has exactly one
    /// king, the cached king squares point at those kings, and the en-passant
    /// target, when set, is on the board.
    pub open spec fn wf(self) -> bool {
        &&& self.grid.len() == 64
        &&& on_board(self.white_king_position.0 as int, self.white_king_position.1 as int)
        &&& on_board(self.black_king_position.0 as int, self.black_king_position.1 as int)
        &&& self.is_king_of(
            Color::White,
            self.white_king_position.0 as int,
            self.white_king_position.1 as int,
        )
        &&& self.is_king_of(
            Color::Black,
            self.black_king_position.0 as int,
            self.black_king_position.1 as int,
        )
        &&& forall|r: int, f: int|
            on_board(r, f) && self.is_king_of(Color::White, r, f) ==> (r, f) == (
            self.white_king_position.0 as int,
            self.white_king_position.1 as int,
            )
        &&& forall|r: int, f: int|
            on_board(r, f) && self.is_king_of(Color::Black, r, f) ==> (r, f) == (
            self.black_king_position.0 as int,
            self.black_king_position.1 as int,
            )
        &&& match self.en_passant_square {
            Some(sq) => on_board(sq.0 as int, sq.1 as int),
            None => true,
        }
    }
}

impl Board {
    /// Whether the board is well-formed; see [`BoardModel::wf`].
    pub open spec fn wf(self) -> bool {
        self@.wf()
    }

    /// The piece standing on `square`, or `None` for an empty or off-board
    /// square.
    pub fn piece_at(&self, square: Square) -> (r: Option<Piece>)
        requires
            self@.grid.len() == 64,
        ensures
            r == (if on_board(square.0 as int, square.1 as int) {
                self@.at(square.0 as int, square.1 as int)
            } else {
                None::<Piece>
            }),
    {
        let (rank, file) = square;
        if rank < 8 && file < 8 {
            self.state[rank * 8 + file]
        } else {
            None
        }
    }

    /// An exact duplicate of the board, used for try-on-a-copy legality
    /// testing.
    pub(crate) fn duplicate(&self) -> (r: Board)
        ensures
            r@ =~= self@,
    {
        let mut grid: Vec<Option<Piece>> = Vec::new();
        let mut i: usize = 0;
        while i < self.state.len()
            invariant
                i <= self.state@.len(),
                grid@ =~= self.state@.subrange(0, i as int),
            decreases self.state@.len() - i,
        {
            grid.push(self.state[i]);
            i = i + 1;
        }
        let mut history: Vec<Move> = Vec::new();
        let mut j: usize = 0;
        while j < self.history.len()
            invariant
                j <= self.history@.len(),
                history@ =~= self.history@.subrange(0, j as int),
            decreases self.history@.len() - j,
        {
            history.push(self.history[j]);
            j = j + 1;
        }
        proof {
            assert(grid@ =~= self.state@);
            assert(history@ =~= self.history@);
        }
        Board {
            state: grid,
            active_turn: self.active_turn,
            castle_flags: self.castle_flags,
            en_passant_square: self.en_passant_square,
            halfmove_clock: self.halfmove_clock,
            fullmove_number: self.fullmove_number,
            history,
            white_king_position: self.white_king_position,
            black_king_position: self.black_king_position,
        }
    }
}

} // verus!
