//! The move representation: two castle variants and one generic piece move,
//! with long-algebraic notation in both directions.

use vstd::prelude::*;

use crate::board::on_board;
use crate::board::Board;
use crate::board::Square;
use crate::codec::file_char;
use crate::piece::char_of_piece;
use crate::piece::Color;
use crate::piece::Piece;
use crate::piece::PieceKind;
use crate::text::digit_char;
use crate::text::push_char;

verus! {

/// A move: castling on either wing, or a piece relocation with the moving
/// piece and the captured piece (if any) recorded.
#[derive(Debug, Copy, Clone, PartialEq)]
pub enum Move {
    CastleKingside,
    CastleQueenside,
    PieceMove {
        origin_square: Square,
        target_square: Square,
        origin_piece: Piece,
        target_piece: Option<Piece>,
    },
}

/// Why a move was refused: the notation could not be decoded, or the move
/// failed the legality filter.
#[derive(Debug, Clone, PartialEq)]
pub enum MoveError {
    MalformedMoveNotation(String),
    IllegalMove,
}

/// Whether `s` is the kingside-castle token, in either letter case.
pub open spec fn is_castle_kingside_token(s: Seq<char>) -> bool {
    s.len() == 3 && (s[0] == 'O' || s[0] == 'o') && s[1] == '-' && (s[2] == 'O' || s[2] == 'o')
}

/// Whether `s` is the queenside-castle token, in either letter case.
pub open spec fn is_castle_queenside_token(s: Seq<char>) -> bool {
    s.len() == 5 && (s[0] == 'O' || s[0] == 'o') && s[1] == '-' && (s[2] == 'O' || s[2] == 'o')
        && s[3] == '-' && (s[4] == 'O' || s[4] == 'o')
}

/// Whether `s` is four long-algebraic square letters: file a-h, rank 1-8,
/// twice.
pub open spec fn lan_chars_ok(s: Seq<char>) -> bool {
    s.len() == 4 && 97 <= s[0] as u32 <= 104 && 49 <= s[1] as u32 <= 56 && 97 <= s[2] as u32 <= 104
        && 49 <= s[3] as u32 <= 56
}

/// The square named by a file letter and a rank digit.
pub open spec fn lan_square(c_file: char, c_rank: char) -> Square {
    (((56 - c_rank as u32) as usize), ((c_file as u32 - 97) as usize))
}

/// The long-algebraic text of a move: castle tokens for the castles; for a
/// pawn capture the origin file, 'x', and the target square; for a quiet
/// pawn move the target square; for any other piece its uppercase letter,
/// 'x' on a capture, and the target square.
pub open spec fn move_str(mv: Move) -> Seq<char> {
    match mv {
        Move::CastleKingside => seq!['O', '-', 'O'],
        Move::CastleQueenside => seq!['O', '-', 'O', '-', 'O'],
        Move::PieceMove { origin_square: o, target_square: t, origin_piece: p, target_piece: tp } => {
            let tfc = file_char(t.1 as int);
            let trc = digit_char(8 - t.0);
            if p.piece_kind == PieceKind::Pawn {
                if (t.0 + 1 == o.0 || o.0 + 1 == t.0) && (t.1 + 1 == o.1 || o.1 + 1 == t.1) {
                    seq![file_char(o.1 as int), 'x', tfc, trc]
                } else {
                    seq![tfc, trc]
                }
            } else {
                let pc = char_of_piece(Piece { piece_kind: p.piece_kind, color: Color::White });
                if tp is Some {
                    seq![pc, 'x', tfc, trc]
                } else {
                    seq![pc, tfc, trc]
                }
            }
        },
    }
}

impl Move {
    /// Decodes a move from long-algebraic notation against `board`: a castle
    /// token in either case, or four square letters naming origin and
    /// target; the recorded pieces are read off the board. A wrong length or
    /// bad square letters give `MalformedMoveNotation`; an empty origin
    /// square gives `IllegalMove`.
    pub fn from_lan(board: &Board, lan: &str) -> (r: Result<Move, MoveError>)
        requires
            board@.grid.len() == 64,
        ensures
            is_castle_kingside_token(lan@) ==> r == Ok::<Move, MoveError>(Move::CastleKingside),
            is_castle_queenside_token(lan@) ==> r == Ok::<Move, MoveError>(Move::CastleQueenside),
            !is_castle_kingside_token(lan@) && !is_castle_queenside_token(lan@) && !lan_chars_ok(
                lan@,
            ) ==> (r matches Err(e) && (e matches MoveError::MalformedMoveNotation(t) && t@
                == lan@)),
            !is_castle_kingside_token(lan@) && !is_castle_queenside_token(lan@) && lan_chars_ok(
                lan@,
            ) ==> ({
                let o = lan_square(lan@[0], lan@[1]);
                let t = lan_square(lan@[2], lan@[3]);
                match board@.at(o.0 as int, o.1 as int) {
                    None => r == Err::<Move, MoveError>(MoveError::IllegalMove),
                    Some(p) => r == Ok::<Move, MoveError>(
                        Move::PieceMove {
                            origin_square: o,
                            target_square: t,
                            origin_piece: p,
                            target_piece: board@.at(t.0 as int, t.1 as int),
                        },
                    ),
                }
            }),
    {
        let n = lan.unicode_len();
        if n == 3 {
            let c0 = lan.get_char(0);
            let c1 = lan.get_char(1);
            let c2 = lan.get_char(2);
            if (c0 == 'O' || c0 == 'o') && c1 == '-' && (c2 == 'O' || c2 == 'o') {
                return Ok(Move::CastleKingside);
            }
        }
        if n == 5 {
            let c0 = lan.get_char(0);
            let c1 = lan.get_char(1);
            let c2 = lan.get_char(2);
            let c3 = lan.get_char(3);
            let c4 = lan.get_char(4);
            if (c0 == 'O' || c0 == 'o') && c1 == '-' && (c2 == 'O' || c2 == 'o') && c3 == '-' && (c4
                == 'O' || c4 == 'o') {
                return Ok(Move::CastleQueenside);
            }
        }
        if n != 4 {
            return Err(MoveError::MalformedMoveNotation(lan.to_owned()));
        }
        let f0 = lan.get_char(0) as u32;
        let r0 = lan.get_char(1) as u32;
        let f1 = lan.get_char(2) as u32;
        let r1 = lan.get_char(3) as u32;
        if !(97 <= f0 && f0 <= 104 && 49 <= r0 && r0 <= 56 && 97 <= f1 && f1 <= 104 && 49 <= r1
            && r1 <= 56) {
            return Err(MoveError::MalformedMoveNotation(lan.to_owned()));
        }
        let origin_square: Square = ((56 - r0) as usize, (f0 - 97) as usize);
        let target_square: Square = ((56 - r1) as usize, (f1 - 97) as usize);
        let origin_piece = match board.state[origin_square.0 * 8 + origin_square.1] {
            Some(p) => p,
            None => {
                return Err(MoveError::IllegalMove);
            },
        };
        let target_piece = board.state[target_square.0 * 8 + target_square.1];
        Ok(Move::PieceMove { origin_square, target_square, origin_piece, target_piece })
    }

    /// Encodes the move in long-algebraic text; see [`move_str`].
    pub fn to_str(self) -> (r: String)
        requires
            self matches Move::PieceMove { origin_square: o, target_square: t, .. } ==> on_board(
                o.0 as int,
                o.1 as int,
            ) && on_board(t.0 as int, t.1 as int),
        ensures
            r@ == move_str(self),
    {
        let mut out = String::new();
        match self {
            Move::CastleKingside => {
                push_char(&mut out, 'O');
                push_char(&mut out, '-');
                push_char(&mut out, 'O');
                proof {
                    assert(out@ =~= move_str(self));
                }
            },
            Move::CastleQueenside => {
                push_char(&mut out, 'O');
                push_char(&mut out, '-');
                push_char(&mut out, 'O');
                push_char(&mut out, '-');
                push_char(&mut out, 'O');
                proof {
                    assert(out@ =~= move_str(self));
                }
            },
            Move::PieceMove { origin_square, target_square, origin_piece, target_piece } => {
                let tfc = match target_square.1 {
                    0 => 'a',
                    1 => 'b',
                    2 => 'c',
                    3 => 'd',
                    4 => 'e',
                    5 => 'f',
                    6 => 'g',
                    _ => 'h',
                };
                let trc = crate::text::digit_char_from((8 - target_square.0) as u64);
                proof {
                    assert(tfc == file_char(target_square.1 as int));
                }
                if origin_piece.piece_kind == PieceKind::Pawn {
                    let rank_diag = target_square.0 + 1 == origin_square.0 || origin_square.0 + 1
                        == target_square.0;
                    let file_diag = target_square.1 + 1 == origin_square.1 || origin_square.1 + 1
                        == target_square.1;
                    if rank_diag && file_diag {
                        let ofc = match origin_square.1 {
                            0 => 'a',
                            1 => 'b',
                            2 => 'c',
                            3 => 'd',
                            4 => 'e',
                            5 => 'f',
                            6 => 'g',
                            _ => 'h',
                        };
                        proof {
                            assert(ofc == file_char(origin_square.1 as int));
                        }
                        push_char(&mut out, ofc);
                        push_char(&mut out, 'x');
                        push_char(&mut out, tfc);
                        push_char(&mut out, trc);
                    } else {
                        push_char(&mut out, tfc);
                        push_char(&mut out, trc);
                    }
                } else {
                    let pc = Piece { piece_kind: origin_piece.piece_kind, color: Color::White }
                        .to_char();
                    push_char(&mut out, pc);
                    if target_piece.is_some() {
                        push_char(&mut out, 'x');
                    }
                    push_char(&mut out, tfc);
                    push_char(&mut out, trc);
                }
                proof {
                    assert(out@ =~= move_str(self));
                }
            },
        }
        out
    }
}

} // verus!
