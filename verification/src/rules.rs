//! Move semantics: pseudo-legal move shapes, the legality filter (a move is
//! legal iff it is pseudo-legal and leaves the mover's king unattacked on the
//! board that results from applying it; castling additionally requires the
//! king's origin, transit, and destination squares to be unattacked on the
//! current board), and move application with all derived bookkeeping.
//!
//! Clock convention, kept deliberately: both counters advance only when the
//! side that is moving is Black, and the halfmove clock is then reset to 0
//! by any pawn move or capture. The halfmove clock therefore counts move
//! pairs rather than single halfmoves.

use vstd::prelude::*;

use crate::attacks::pawn_dir;
use crate::attacks::piece_attacks;
use crate::attacks::square_attacked;
use crate::board::on_board;
use crate::board::sq_idx;
use crate::board::Board;
use crate::board::BoardModel;
use crate::board::Square;
use crate::fen::CastleFlags;
use crate::moves::Move;
use crate::moves::MoveError;
use crate::piece::Color;
use crate::piece::Piece;
use crate::piece::PieceKind;

verus! {

/// The back rank of `c`: where its king and rooks start.
pub open spec fn back_rank(c: Color) -> int {
    match c {
        Color::White => 7,
        Color::Black => 0,
    }
}

/// The rank `c`'s pawns start on.
pub open spec fn pawn_home_rank(c: Color) -> int {
    match c {
        Color::White => 6,
        Color::Black => 1,
    }
}

/// The farthest rank for `c`'s pawns: reaching it promotes.
pub open spec fn promotion_rank(c: Color) -> int {
    match c {
        Color::White => 0,
        Color::Black => 7,
    }
}

/// `x + 1`, capped at the largest representable value.
pub open spec fn sat_inc(x: u64) -> u64 {
    if x == u64::MAX {
        x
    } else {
        (x + 1) as u64
    }
}

/// The castle right of `c` on the given wing.
pub open spec fn castle_right(fl: CastleFlags, c: Color, kingside: bool) -> bool {
    match c {
        Color::White => if kingside {
            fl.white_kingside
        } else {
            fl.white_queenside
        },
        Color::Black => if kingside {
            fl.black_kingside
        } else {
            fl.black_queenside
        },
    }
}

/// `fl` with both rights of `c` cleared.
pub open spec fn rights_cleared(fl: CastleFlags, c: Color) -> CastleFlags {
    match c {
        Color::White => CastleFlags { white_kingside: false, white_queenside: false, ..fl },
        Color::Black => CastleFlags { black_kingside: false, black_queenside: false, ..fl },
    }
}

/// `fl` with the single right of `c` on the given wing cleared.
pub open spec fn right_cleared(fl: CastleFlags, c: Color, kingside: bool) -> CastleFlags {
    match c {
        Color::White => if kingside {
            CastleFlags { white_kingside: false, ..fl }
        } else {
            CastleFlags { white_queenside: false, ..fl }
        },
        Color::Black => if kingside {
            CastleFlags { black_kingside: false, ..fl }
        } else {
            CastleFlags { black_queenside: false, ..fl }
        },
    }
}

impl BoardModel {
    /// The model with square (r, f) replaced by `v`.
    pub open spec fn with_square(self, r: int, f: int, v: Option<Piece>) -> BoardModel {
        BoardModel { grid: self.grid.update(sq_idx(r, f), v), ..self }
    }
}

/// A pawn move from `o` to `t` obeying the pawn's movement pattern: one
/// square forward onto an empty square; two squares forward from the home
/// rank across an empty square onto an empty square; or one square
/// diagonally forward onto an occupied square or onto the en-passant target
/// (behind which the bypassed enemy pawn stands).
pub open spec fn pawn_move_ok(m: BoardModel, o: Square, t: Square, c: Color) -> bool {
    let or = o.0 as int;
    let of = o.1 as int;
    let tr = t.0 as int;
    let tf = t.1 as int;
    let d = pawn_dir(c);
    ||| (tr == or + d && tf == of && m.at(tr, tf) is None)
    ||| (or == pawn_home_rank(c) && tr == or + 2 * d && tf == of && m.at(or + d, of) is None
        && m.at(tr, tf) is None)
    ||| (tr == or + d && (tf == of + 1 || tf == of - 1) && (m.at(tr, tf) is Some || (
    m.en_passant_square == Some(t) && m.at(tr, tf) is None && m.at(or, tf) == Some(
        Piece { piece_kind: PieceKind::Pawn, color: c.opposite() },
    ))))
}

/// A piece move is pseudo-legal when the origin holds the recorded piece of
/// the side to move, the recorded captured piece is what stands on the
/// target, the target holds neither a friendly piece nor a king, and the
/// move obeys the moving piece's pattern.
pub open spec fn piece_move_ok(
    m: BoardModel,
    o: Square,
    t: Square,
    p: Piece,
    tp: Option<Piece>,
) -> bool {
    let or = o.0 as int;
    let of = o.1 as int;
    let tr = t.0 as int;
    let tf = t.1 as int;
    &&& on_board(or, of)
    &&& on_board(tr, tf)
    &&& !(or == tr && of == tf)
    &&& m.at(or, of) == Some(p)
    &&& p.color == m.active_turn
    &&& tp == m.at(tr, tf)
    &&& match tp {
        Some(q) => q.color != m.active_turn && q.piece_kind != PieceKind::King,
        None => true,
    }
    &&& if p.piece_kind == PieceKind::Pawn {
        pawn_move_ok(m, o, t, p.color)
    } else {
        piece_attacks(m, or, of, tr, tf)
    }
}

/// The gating for a castle: the right is set, the king stands on its origin
/// square, the rook of the side to move stands on its origin square, and
/// every square strictly between them is empty.
pub open spec fn castle_pre(m: BoardModel, kingside: bool) -> bool {
    let c = m.active_turn;
    let r = back_rank(c);
    &&& castle_right(m.castle_flags, c, kingside)
    &&& m.king_position(c) == ((r as usize, 4usize))
    &&& m.at(r, if kingside {
        7
    } else {
        0
    }) == Some(Piece { piece_kind: PieceKind::Rook, color: c })
    &&& if kingside {
        m.at(r, 5) is None && m.at(r, 6) is None
    } else {
        m.at(r, 1) is None && m.at(r, 2) is None && m.at(r, 3) is None
    }
}

/// Whether a move is pseudo-legal: its shape and gating alone, before any
/// check-safety test.
pub open spec fn pseudo_legal(m: BoardModel, mv: Move) -> bool {
    match mv {
        Move::CastleKingside => castle_pre(m, true),
        Move::CastleQueenside => castle_pre(m, false),
        Move::PieceMove { origin_square, target_square, origin_piece, target_piece } => piece_move_ok(
            m,
            origin_square,
            target_square,
            origin_piece,
            target_piece,
        ),
    }
}

/// The board after a castle of the side to move: the king moves two files
/// toward the rook, the rook lands beside it, both of the side's rights are
/// cleared, the en-passant target is cleared, the clocks advance as for any
/// move, and the move is appended to the history.
pub open spec fn apply_castle(m: BoardModel, kingside: bool) -> BoardModel {
    let c = m.active_turn;
    let r = back_rank(c);
    let rook_from: int = if kingside {
        7
    } else {
        0
    };
    let king_to: int = if kingside {
        6
    } else {
        2
    };
    let rook_to: int = if kingside {
        5
    } else {
        3
    };
    let king = m.at(r, 4);
    let rook = m.at(r, rook_from);
    let grid = m.grid.update(sq_idx(r, 4), None).update(sq_idx(r, rook_from), None).update(
        sq_idx(r, king_to),
        king,
    ).update(sq_idx(r, rook_to), rook);
    BoardModel {
        grid,
        active_turn: c.opposite(),
        castle_flags: rights_cleared(m.castle_flags, c),
        en_passant_square: None,
        halfmove_clock: if c == Color::Black {
            sat_inc(m.halfmove_clock)
        } else {
            m.halfmove_clock
        },
        fullmove_number: if c == Color::Black {
            sat_inc(m.fullmove_number)
        } else {
            m.fullmove_number
        },
        history: m.history.push(
            if kingside {
                Move::CastleKingside
            } else {
                Move::CastleQueenside
            },
        ),
        white_king_position: if c == Color::White {
            (7usize, king_to as usize)
        } else {
            m.white_king_position
        },
        black_king_position: if c == Color::Black {
            (0usize, king_to as usize)
        } else {
            m.black_king_position
        },
    }
}

/// The board after the piece move (o, t, p, tp) of the side to move, with
/// every bookkeeping effect: clock updates, en-passant target setting and
/// clearing, the relocation itself, the en-passant capture, promotion to a
/// queen on the farthest rank, castle-right and king-cache maintenance (a
/// king move clears both of the mover's rights, a rook leaving its origin
/// square clears that right, and capturing a rook on its origin square
/// clears the opponent's right for that wing), the turn flip, and the
/// history append.
pub open spec fn apply_piece_move(
    m: BoardModel,
    o: Square,
    t: Square,
    p: Piece,
    tp: Option<Piece>,
) -> BoardModel {
    let c = m.active_turn;
    let or = o.0 as int;
    let of = o.1 as int;
    let tr = t.0 as int;
    let tf = t.1 as int;
    let is_pawn = p.piece_kind == PieceKind::Pawn;
    let double_push = is_pawn && (tr == or + 2 || tr == or - 2);
    let is_ep_capture = is_pawn && tf != of && m.en_passant_square == Some(t) && m.at(
        tr,
        tf,
    ) is None;
    let captured = m.at(tr, tf) is Some;
    let moved = m.at(or, of);
    let g1 = m.grid.update(sq_idx(or, of), None).update(sq_idx(tr, tf), moved);
    let g2 = if is_pawn && tr == promotion_rank(c) {
        g1.update(sq_idx(tr, tf), Some(Piece { piece_kind: PieceKind::Queen, color: c }))
    } else {
        g1
    };
    let g3 = if is_ep_capture {
        g2.update(sq_idx(or, tf), None)
    } else {
        g2
    };
    let f1 = if p.piece_kind == PieceKind::King {
        rights_cleared(m.castle_flags, c)
    } else {
        m.castle_flags
    };
    let f2 = if p.piece_kind == PieceKind::Rook && or == back_rank(c) && of == 7 {
        right_cleared(f1, c, true)
    } else {
        f1
    };
    let f3 = if p.piece_kind == PieceKind::Rook && or == back_rank(c) && of == 0 {
        right_cleared(f2, c, false)
    } else {
        f2
    };
    let f4 = if tr == back_rank(c.opposite()) && tf == 7 && m.at(tr, tf) == Some(
        Piece { piece_kind: PieceKind::Rook, color: c.opposite() },
    ) {
        right_cleared(f3, c.opposite(), true)
    } else {
        f3
    };
    let f5 = if tr == back_rank(c.opposite()) && tf == 0 && m.at(tr, tf) == Some(
        Piece { piece_kind: PieceKind::Rook, color: c.opposite() },
    ) {
        right_cleared(f4, c.opposite(), false)
    } else {
        f4
    };
    BoardModel {
        grid: g3,
        active_turn: c.opposite(),
        castle_flags: f5,
        en_passant_square: if double_push {
            Some((((or + pawn_dir(c)) as usize), t.1))
        } else {
            None
        },
        halfmove_clock: if is_pawn || captured {
            0
        } else if c == Color::Black {
            sat_inc(m.halfmove_clock)
        } else {
            m.halfmove_clock
        },
        fullmove_number: if c == Color::Black {
            sat_inc(m.fullmove_number)
        } else {
            m.fullmove_number
        },
        history: m.history.push(
            Move::PieceMove {
                origin_square: o,
                target_square: t,
                origin_piece: p,
                target_piece: tp,
            },
        ),
        white_king_position: if c == Color::White && p.piece_kind == PieceKind::King {
            t
        } else {
            m.white_king_position
        },
        black_king_position: if c == Color::Black && p.piece_kind == PieceKind::King {
            t
        } else {
            m.black_king_position
        },
    }
}

/// The board after any move of the side to move.
pub open spec fn apply_move(m: BoardModel, mv: Move) -> BoardModel {
    match mv {
        Move::CastleKingside => apply_castle(m, true),
        Move::CastleQueenside => apply_castle(m, false),
        Move::PieceMove { origin_square, target_square, origin_piece, target_piece } => apply_piece_move(
            m,
            origin_square,
            target_square,
            origin_piece,
            target_piece,
        ),
    }
}

/// Whether the mover's king is unattacked by the opponent on the board that
/// results from applying `mv`.
pub open spec fn king_safe_after(m: BoardModel, mv: Move) -> bool {
    let m2 = apply_move(m, mv);
    let k = m2.king_position(m.active_turn);
    !square_attacked(m2, k.0 as int, k.1 as int, m.active_turn.opposite())
}

/// Full castle legality: the gating, and the king's origin, transit, and
/// destination squares all unattacked by the opponent on the current board
/// (and hence the king also stands safe after the move).
pub open spec fn castle_legal(m: BoardModel, kingside: bool) -> bool {
    let r = back_rank(m.active_turn);
    let opp = m.active_turn.opposite();
    &&& castle_pre(m, kingside)
    &&& !square_attacked(m, r, 4, opp)
    &&& !square_attacked(
        m,
        r,
        if kingside {
            5
        } else {
            3
        },
        opp,
    )
    &&& !square_attacked(
        m,
        r,
        if kingside {
            6
        } else {
            2
        },
        opp,
    )
    &&& king_safe_after(
        m,
        if kingside {
            Move::CastleKingside
        } else {
            Move::CastleQueenside
        },
    )
}

/// Whether a move is fully legal on `m`.
pub open spec fn legal(m: BoardModel, mv: Move) -> bool {
    match mv {
        Move::CastleKingside => castle_legal(m, true),
        Move::CastleQueenside => castle_legal(m, false),
        Move::PieceMove { .. } => pseudo_legal(m, mv) && king_safe_after(m, mv),
    }
}

/// Applying a pseudo-legal move to a well-formed board yields a well-formed
/// board: each side keeps exactly one king, and the cached king squares
/// follow the kings.
pub proof fn lemma_apply_preserves_wf(m: BoardModel, mv: Move)
    requires
        m.wf(),
        pseudo_legal(m, mv),
    ensures
        apply_move(m, mv).wf(),
{
    let m2 = apply_move(m, mv);
    let wk = m.white_king_position;
    let bk = m.black_king_position;
    assert(m.at(wk.0 as int, wk.1 as int) == Some(
        Piece { piece_kind: PieceKind::King, color: Color::White },
    ));
    assert(m.at(bk.0 as int, bk.1 as int) == Some(
        Piece { piece_kind: PieceKind::King, color: Color::Black },
    ));
    match mv {
        Move::CastleKingside | Move::CastleQueenside => {
            let kingside = mv is CastleKingside;
            let c = m.active_turn;
            let r = back_rank(c);
            assert(m.king_position(c) == ((r as usize, 4usize)));
            assert(m2.grid.len() == 64);
            assert forall|r2: int, f2: int|
                on_board(r2, f2) && m2.is_king_of(Color::White, r2, f2) implies (r2, f2) == (
                m2.white_king_position.0 as int,
                m2.white_king_position.1 as int,
            ) by {
                assert(m.at(r2, f2) == m.grid[sq_idx(r2, f2)]);
            }
            assert forall|r2: int, f2: int|
                on_board(r2, f2) && m2.is_king_of(Color::Black, r2, f2) implies (r2, f2) == (
                m2.black_king_position.0 as int,
                m2.black_king_position.1 as int,
            ) by {
                assert(m.at(r2, f2) == m.grid[sq_idx(r2, f2)]);
            }
        },
        Move::PieceMove { origin_square: o, target_square: t, origin_piece: p, target_piece: tp } => {
            assert(m2.grid.len() == 64);
            assert forall|r2: int, f2: int|
                on_board(r2, f2) && m2.is_king_of(Color::White, r2, f2) implies (r2, f2) == (
                m2.white_king_position.0 as int,
                m2.white_king_position.1 as int,
            ) by {
                assert(m.at(r2, f2) == m.grid[sq_idx(r2, f2)]);
            }
            assert forall|r2: int, f2: int|
                on_board(r2, f2) && m2.is_king_of(Color::Black, r2, f2) implies (r2, f2) == (
                m2.black_king_position.0 as int,
                m2.black_king_position.1 as int,
            ) by {
                assert(m.at(r2, f2) == m.grid[sq_idx(r2, f2)]);
            }
            assert(m2.is_king_of(Color::White, m2.white_king_position.0 as int, m2.white_king_position.1 as int));
            assert(m2.is_king_of(Color::Black, m2.black_king_position.0 as int, m2.black_king_position.1 as int));
        },
    }
}

impl Board {
    /// Advances both clocks by one when Black is the side that is moving;
    /// saturates instead of overflowing.
    fn advance_clocks(&mut self)
        ensures
            *final(self) == (Board {
                halfmove_clock: if old(self).active_turn == Color::Black {
                    sat_inc(old(self).halfmove_clock)
                } else {
                    old(self).halfmove_clock
                },
                fullmove_number: if old(self).active_turn == Color::Black {
                    sat_inc(old(self).fullmove_number)
                } else {
                    old(self).fullmove_number
                },
                ..*old(self)
            }),
    {
        if self.active_turn == Color::Black {
            self.halfmove_clock = if self.halfmove_clock < u64::MAX {
                self.halfmove_clock + 1
            } else {
                self.halfmove_clock
            };
            self.fullmove_number = if self.fullmove_number < u64::MAX {
                self.fullmove_number + 1
            } else {
                self.fullmove_number
            };
        }
    }

    /// Applies the piece move (o, t, p, tp) with all of its bookkeeping; the
    /// move must be pseudo-legal.
    fn apply_piece_move_exec(&mut self, o: Square, t: Square, p: Piece, tp: Option<Piece>)
        requires
            old(self).wf(),
            piece_move_ok(old(self)@, o, t, p, tp),
        ensures
            final(self)@ =~= apply_piece_move(old(self)@, o, t, p, tp),
            final(self).wf(),
    {
        let or = o.0;
        let of = o.1;
        let tr = t.0;
        let tf = t.1;
        let c = self.active_turn;
        let is_pawn = p.piece_kind == PieceKind::Pawn;
        self.advance_clocks();
        let is_ep_capture = is_pawn && tf != of && (match self.en_passant_square {
            Some(sq) => sq.0 == tr && sq.1 == tf,
            None => false,
        }) && self.state[tr * 8 + tf].is_none();
        let captured = self.state[tr * 8 + tf].is_some();
        let opp_back: usize = if c == Color::White {
            0
        } else {
            7
        };
        let captured_origin_rook = match self.state[tr * 8 + tf] {
            Some(q) => q.piece_kind == PieceKind::Rook && q.color == c.invert(),
            None => false,
        };
        let captured_rook_kingside = tr == opp_back && tf == 7 && captured_origin_rook;
        let captured_rook_queenside = tr == opp_back && tf == 0 && captured_origin_rook;
        let double_push = is_pawn && (tr == or + 2 || or == tr + 2);
        if double_push {
            let skipped_rank: usize = if c == Color::White {
                or - 1
            } else {
                or + 1
            };
            self.en_passant_square = Some((skipped_rank, tf));
        } else {
            self.en_passant_square = None;
        }
        if is_pawn || captured {
            self.halfmove_clock = 0;
        }
        let moved = self.state[or * 8 + of];
        self.state[or * 8 + of] = None;
        self.state[tr * 8 + tf] = moved;
        if is_pawn && tr == (if c == Color::White {
            0
        } else {
            7
        }) {
            self.state[tr * 8 + tf] = Some(Piece { piece_kind: PieceKind::Queen, color: c });
        }
        if is_ep_capture {
            self.state[or * 8 + tf] = None;
        }
        if p.piece_kind == PieceKind::King {
            match c {
                Color::White => {
                    self.castle_flags.white_kingside = false;
                    self.castle_flags.white_queenside = false;
                    self.white_king_position = t;
                },
                Color::Black => {
                    self.castle_flags.black_kingside = false;
                    self.castle_flags.black_queenside = false;
                    self.black_king_position = t;
                },
            }
        }
        if p.piece_kind == PieceKind::Rook && or == (if c == Color::White {
            7
        } else {
            0
        }) {
            if of == 7 {
                match c {
                    Color::White => self.castle_flags.white_kingside = false,
                    Color::Black => self.castle_flags.black_kingside = false,
                }
            }
            if of == 0 {
                match c {
                    Color::White => self.castle_flags.white_queenside = false,
                    Color::Black => self.castle_flags.black_queenside = false,
                }
            }
        }
        if captured_rook_kingside {
            match c {
                Color::White => self.castle_flags.black_kingside = false,
                Color::Black => self.castle_flags.white_kingside = false,
            }
        }
        if captured_rook_queenside {
            match c {
                Color::White => self.castle_flags.black_queenside = false,
                Color::Black => self.castle_flags.white_queenside = false,
            }
        }
        self.active_turn = self.active_turn.invert();
        self.history.push(
            Move::PieceMove {
                origin_square: o,
                target_square: t,
                origin_piece: p,
                target_piece: tp,
            },
        );
        proof {
            let mv = Move::PieceMove {
                origin_square: o,
                target_square: t,
                origin_piece: p,
                target_piece: tp,
            };
            assert(self@ =~= apply_piece_move(old(self)@, o, t, p, tp));
            lemma_apply_preserves_wf(old(self)@, mv);
        }
    }

    /// Castles the side to move on the kingside, as a complete move: the king
    /// and rook relocate, both rights are cleared, the en-passant target is
    /// cleared, the clocks advance, the turn flips, and the move is appended
    /// to the history. The gating of [`castle_pre`] must hold.
    pub fn castle_kingside(&mut self)
        requires
            old(self).wf(),
            castle_pre(old(self)@, true),
        ensures
            final(self)@ =~= apply_move(old(self)@, Move::CastleKingside),
            final(self).wf(),
    {
        let c = self.active_turn;
        let r: usize = if c == Color::White {
            7
        } else {
            0
        };
        self.advance_clocks();
        self.en_passant_square = None;
        let king = self.state[r * 8 + 4];
        let rook = self.state[r * 8 + 7];
        self.state[r * 8 + 4] = None;
        self.state[r * 8 + 7] = None;
        self.state[r * 8 + 6] = king;
        self.state[r * 8 + 5] = rook;
        match c {
            Color::White => {
                self.castle_flags.white_kingside = false;
                self.castle_flags.white_queenside = false;
                self.white_king_position = (7, 6);
            },
            Color::Black => {
                self.castle_flags.black_kingside = false;
                self.castle_flags.black_queenside = false;
                self.black_king_position = (0, 6);
            },
        }
        self.active_turn = self.active_turn.invert();
        self.history.push(Move::CastleKingside);
        proof {
            assert(self@ =~= apply_move(old(self)@, Move::CastleKingside));
            lemma_apply_preserves_wf(old(self)@, Move::CastleKingside);
        }
    }

    /// Castles the side to move on the queenside, as a complete move; see
    /// [`Board::castle_kingside`].
    pub fn castle_queenside(&mut self)
        requires
            old(self).wf(),
            castle_pre(old(self)@, false),
        ensures
            final(self)@ =~= apply_move(old(self)@, Move::CastleQueenside),
            final(self).wf(),
    {
        let c = self.active_turn;
        let r: usize = if c == Color::White {
            7
        } else {
            0
        };
        self.advance_clocks();
        self.en_passant_square = None;
        let king = self.state[r * 8 + 4];
        let rook = self.state[r * 8];
        self.state[r * 8 + 4] = None;
        self.state[r * 8] = None;
        self.state[r * 8 + 2] = king;
        self.state[r * 8 + 3] = rook;
        match c {
            Color::White => {
                self.castle_flags.white_kingside = false;
                self.castle_flags.white_queenside = false;
                self.white_king_position = (7, 2);
            },
            Color::Black => {
                self.castle_flags.black_kingside = false;
                self.castle_flags.black_queenside = false;
                self.black_king_position = (0, 2);
            },
        }
        self.active_turn = self.active_turn.invert();
        self.history.push(Move::CastleQueenside);
        proof {
            assert(self@ =~= apply_move(old(self)@, Move::CastleQueenside));
            lemma_apply_preserves_wf(old(self)@, Move::CastleQueenside);
        }
    }

    /// Whether castling on the given wing is fully legal, including the
    /// attack-safety of the king's origin, transit, and destination squares.
    fn castle_legal_exec(&self, kingside: bool) -> (r: bool)
        requires
            self.wf(),
        ensures
            r == castle_legal(self@, kingside),
    {
        let c = self.active_turn;
        let opp = c.invert();
        let rk: usize = if c == Color::White {
            7
        } else {
            0
        };
        let flag = match c {
            Color::White => if kingside {
                self.castle_flags.white_kingside
            } else {
                self.castle_flags.white_queenside
            },
            Color::Black => if kingside {
                self.castle_flags.black_kingside
            } else {
                self.castle_flags.black_queenside
            },
        };
        if !flag {
            return false;
        }
        let kp = match c {
            Color::White => self.white_king_position,
            Color::Black => self.black_king_position,
        };
        if !(kp.0 == rk && kp.1 == 4) {
            return false;
        }
        let rook_file: usize = if kingside {
            7
        } else {
            0
        };
        let rook_ok = match self.state[rk * 8 + rook_file] {
            Some(q) => q.piece_kind == PieceKind::Rook && q.color == c,
            None => false,
        };
        if !rook_ok {
            return false;
        }
        let path_clear = if kingside {
            self.state[rk * 8 + 5].is_none() && self.state[rk * 8 + 6].is_none()
        } else {
            self.state[rk * 8 + 1].is_none() && self.state[rk * 8 + 2].is_none() && self.state[rk
                * 8 + 3].is_none()
        };
        if !path_clear {
            return false;
        }
        if self.is_attacked((rk, 4), opp) {
            return false;
        }
        let transit: usize = if kingside {
            5
        } else {
            3
        };
        if self.is_attacked((rk, transit), opp) {
            return false;
        }
        let dest: usize = if kingside {
            6
        } else {
            2
        };
        if self.is_attacked((rk, dest), opp) {
            return false;
        }
        let mut copy = self.duplicate();
        if kingside {
            copy.castle_kingside();
        } else {
            copy.castle_queenside();
        }
        let kp2 = match c {
            Color::White => copy.white_king_position,
            Color::Black => copy.black_king_position,
        };
        let attacked_after = copy.is_attacked(kp2, opp);
        !attacked_after
    }

    /// Whether `m` passes the legality filter: a pseudo-legal move that does
    /// not leave the mover's king attacked on the resulting board, with
    /// castling additionally gated on the attack-safety of the king's path.
    pub fn is_legal_move(&self, m: Move) -> (r: bool)
        requires
            self.wf(),
        ensures
            r == legal(self@, m),
    {
        match m {
            Move::CastleKingside => self.castle_legal_exec(true),
            Move::CastleQueenside => self.castle_legal_exec(false),
            Move::PieceMove { origin_square, target_square, origin_piece, target_piece } => {
                let o = origin_square;
                let t = target_square;
                let p = origin_piece;
                if !(o.0 < 8 && o.1 < 8 && t.0 < 8 && t.1 < 8) {
                    return false;
                }
                if o.0 == t.0 && o.1 == t.1 {
                    return false;
                }
                let origin_ok = match self.state[o.0 * 8 + o.1] {
                    Some(q) => q == p && q.color == self.active_turn,
                    None => false,
                };
                if !origin_ok {
                    return false;
                }
                let target_matches = match (self.state[t.0 * 8 + t.1], target_piece) {
                    (Some(a), Some(b)) => a == b,
                    (None, None) => true,
                    _ => false,
                };
                if !target_matches {
                    return false;
                }
                let target_ok = match self.state[t.0 * 8 + t.1] {
                    Some(q) => q.color != self.active_turn && q.piece_kind != PieceKind::King,
                    None => true,
                };
                if !target_ok {
                    return false;
                }
                let pattern_ok = if p.piece_kind == PieceKind::Pawn {
                    self.pawn_move_exec(o, t, p.color)
                } else {
                    self.attacks_square(o.0, o.1, t.0, t.1)
                };
                if !pattern_ok {
                    return false;
                }
                let mut copy = self.duplicate();
                copy.apply_piece_move_exec(o, t, p, target_piece);
                let kp2 = match self.active_turn {
                    Color::White => copy.white_king_position,
                    Color::Black => copy.black_king_position,
                };
                let attacked_after = copy.is_attacked(kp2, self.active_turn.invert());
                !attacked_after
            },
        }
    }

    /// Whether a pawn of `c` may move from `o` to `t` by the pawn pattern.
    fn pawn_move_exec(&self, o: Square, t: Square, c: Color) -> (r: bool)
        requires
            self@.grid.len() == 64,
            o.0 < 8,
            o.1 < 8,
            t.0 < 8,
            t.1 < 8,
        ensures
            r == pawn_move_ok(self@, o, t, c),
    {
        let dri: i32 = t.0 as i32 - o.0 as i32;
        let dfi: i32 = t.1 as i32 - o.1 as i32;
        let d: i32 = if c == Color::White {
            -1
        } else {
            1
        };
        let home: usize = if c == Color::White {
            6
        } else {
            1
        };
        let target_none = self.state[t.0 * 8 + t.1].is_none();
        if dri == d && dfi == 0 && target_none {
            return true;
        }
        if o.0 == home && dri == 2 * d && dfi == 0 && target_none {
            let mid: usize = ((o.0 as i32 + d) as usize) * 8 + o.1;
            if self.state[mid].is_none() {
                return true;
            }
        }
        if dri == d && (dfi == 1 || dfi == -1) {
            if !target_none {
                return true;
            }
            let ep_match = match self.en_passant_square {
                Some(sq) => sq.0 == t.0 && sq.1 == t.1,
                None => false,
            };
            if ep_match {
                let victim_ok = match self.state[o.0 * 8 + t.1] {
                    Some(q) => q.piece_kind == PieceKind::Pawn && q.color == c.invert(),
                    None => false,
                };
                if victim_ok {
                    return true;
                }
            }
        }
        false
    }

    /// Re-validates `m` and, only when it is legal, applies it to the board
    /// with every bookkeeping effect of [`apply_move`]; an illegal move
    /// leaves the board untouched and reports `IllegalMove`.
    pub fn move_piece(&mut self, m: Move) -> (r: Result<(), MoveError>)
        requires
            old(self).wf(),
        ensures
            final(self).wf(),
            legal(old(self)@, m) ==> r is Ok && final(self)@ =~= apply_move(old(self)@, m),
            !legal(old(self)@, m) ==> r == Err::<(), MoveError>(MoveError::IllegalMove)
                && *final(self) == *old(self),
    {
        if !self.is_legal_move(m) {
            return Err(MoveError::IllegalMove);
        }
        match m {
            Move::CastleKingside => self.castle_kingside(),
            Move::CastleQueenside => self.castle_queenside(),
            Move::PieceMove { origin_square, target_square, origin_piece, target_piece } => self
                .apply_piece_move_exec(origin_square, target_square, origin_piece, target_piece),
        }
        Ok(())
    }
}

} // verus!
