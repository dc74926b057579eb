//! Legal-move enumeration and game-status classification.

use vstd::prelude::*;

use crate::attacks::square_attacked;
use crate::board::on_board;
use crate::board::Board;
use crate::board::BoardModel;
use crate::board::GameStatus;
use crate::moves::Move;
use crate::piece::Color;
use crate::rules::legal;

verus! {

/// The position of a piece move in the fixed rank-major scan: origins in
/// rank-major order, and for each origin its targets in rank-major order.
pub open spec fn scan_order(mv: Move) -> int {
    match mv {
        Move::PieceMove { origin_square: o, target_square: t, .. } => (o.0 * 8 + o.1) * 64 + (t.0
            * 8 + t.1),
        _ => 0,
    }
}

/// The position of any move in the fixed emission order: the kingside
/// castle first, then the queenside castle, then piece moves by
/// [`scan_order`].
pub open spec fn emit_order(mv: Move) -> int {
    match mv {
        Move::CastleKingside => 0,
        Move::CastleQueenside => 1,
        Move::PieceMove { .. } => 2 + scan_order(mv),
    }
}

/// Whether any legal move exists for the side to move.
pub open spec fn exists_legal_move(m: BoardModel) -> bool {
    exists|mv: Move| legal(m, mv)
}

/// The game won by `c`.
pub open spec fn winner(c: Color) -> GameStatus {
    match c {
        Color::White => GameStatus::WhiteWin,
        Color::Black => GameStatus::BlackWin,
    }
}

/// The status of a position: ongoing while any legal move exists; otherwise
/// a draw once the halfmove clock has reached 100, a win for the opponent if
/// the side to move stands in check, and a draw (stalemate) if not.
pub open spec fn status(m: BoardModel) -> GameStatus {
    if exists_legal_move(m) {
        GameStatus::Ongoing
    } else if m.halfmove_clock >= 100 {
        GameStatus::Draw
    } else {
        let k = m.king_position(m.active_turn);
        if square_attacked(m, k.0 as int, k.1 as int, m.active_turn.opposite()) {
            winner(m.active_turn.opposite())
        } else {
            GameStatus::Draw
        }
    }
}

/// After `s.push(x)`, the sequence holds exactly the old elements and `x`.
proof fn lemma_push_contains<T>(s: Seq<T>, x: T)
    ensures
        forall|y: T| #[trigger] s.push(x).contains(y) <==> s.contains(y) || y == x,
{
    assert forall|y: T| #[trigger] s.push(x).contains(y) implies s.contains(y) || y == x by {
        let i = choose|i: int| 0 <= i < s.push(x).len() && s.push(x)[i] == y;
        if i < s.len() {
            assert(s[i] == y);
        }
    }
    assert forall|y: T| s.contains(y) implies s.push(x).contains(y) by {
        let i = choose|i: int| 0 <= i < s.len() && s[i] == y;
        assert(s.push(x)[i] == y);
    }
    assert(s.push(x)[s.len() as int] == x);
}

/// Pushing an element larger in the emission order than everything present
/// keeps a sequence strictly increasing in that order.
proof fn lemma_push_ordered(s: Seq<Move>, x: Move)
    requires
        forall|i: int, j: int| 0 <= i < j < s.len() ==> emit_order(s[i]) < emit_order(s[j]),
        forall|i: int| 0 <= i < s.len() ==> #[trigger] emit_order(s[i]) < emit_order(x),
    ensures
        forall|i: int, j: int|
            0 <= i < j < s.push(x).len() ==> emit_order(s.push(x)[i]) < emit_order(s.push(x)[j]),
{
    assert forall|i: int, j: int|
        0 <= i < j < s.push(x).len() implies emit_order(s.push(x)[i]) < emit_order(
        s.push(x)[j],
    ) by {
        if j < s.len() {
            assert(s.push(x)[i] == s[i] && s.push(x)[j] == s[j]);
        } else {
            assert(s.push(x)[j] == x);
            assert(s.push(x)[i] == s[i]);
        }
    }
}

/// Pushing a fresh element keeps a sequence duplicate-free.
proof fn lemma_push_no_dup<T>(s: Seq<T>, x: T)
    requires
        s.no_duplicates(),
        !s.contains(x),
    ensures
        s.push(x).no_duplicates(),
{
    assert forall|i: int, j: int|
        0 <= i < s.push(x).len() && 0 <= j < s.push(x).len() && i != j implies s.push(x)[i]
        != s.push(x)[j] by {
        if i < s.len() && j < s.len() {
            assert(s.push(x)[i] == s[i] && s.push(x)[j] == s[j]);
        } else if i < s.len() {
            assert(s.push(x)[j] == x);
            if s.push(x)[i] == x {
                assert(s.contains(x)) by {
                    assert(s[i] == x);
                }
            }
        } else {
            assert(s.push(x)[i] == x);
            if s.push(x)[j] == x {
                assert(s.contains(x)) by {
                    assert(s[j] == x);
                }
            }
        }
    }
}

impl Board {
    /// Every legal move of the side to move, exactly once, in a fixed
    /// deterministic order: strictly increasing in [`emit_order`], so the
    /// kingside castle comes first, then the queenside castle, then piece
    /// moves by origin square and target square in rank-major scan order.
    pub fn get_legal_moves(&self) -> (r: Vec<Move>)
        requires
            self.wf(),
        ensures
            forall|mv: Move| #[trigger] r@.contains(mv) <==> legal(self@, mv),
            r@.no_duplicates(),
            forall|i: int, j: int|
                0 <= i < j < r@.len() ==> emit_order(r@[i]) < emit_order(r@[j]),
    {
        let mut res: Vec<Move> = Vec::new();
        proof {
            assert(res@.no_duplicates());
        }
        if self.is_legal_move(Move::CastleKingside) {
            proof {
                lemma_push_contains(res@, Move::CastleKingside);
                lemma_push_no_dup(res@, Move::CastleKingside);
                lemma_push_ordered(res@, Move::CastleKingside);
            }
            res.push(Move::CastleKingside);
        }
        if self.is_legal_move(Move::CastleQueenside) {
            proof {
                lemma_push_contains(res@, Move::CastleQueenside);
                lemma_push_no_dup(res@, Move::CastleQueenside);
                assert(forall|i: int|
                    0 <= i < res@.len() ==> #[trigger] emit_order(res@[i]) < emit_order(
                        Move::CastleQueenside,
                    ));
                lemma_push_ordered(res@, Move::CastleQueenside);
            }
            res.push(Move::CastleQueenside);
        }
        let mut oi: usize = 0;
        while oi < 64
            invariant
                self.wf(),
                oi <= 64,
                forall|mv: Move| #[trigger] res@.contains(mv) ==> legal(self@, mv),
                res@.contains(Move::CastleKingside) == legal(self@, Move::CastleKingside),
                res@.contains(Move::CastleQueenside) == legal(self@, Move::CastleQueenside),
                forall|mv: Move|
                    legal(self@, mv) && (mv matches Move::PieceMove { .. }) && scan_order(mv) < oi
                        * 64 ==> #[trigger] res@.contains(mv),
                res@.no_duplicates(),
                forall|mv: Move|
                    #[trigger] res@.contains(mv) && (mv matches Move::PieceMove { .. })
                        ==> scan_order(mv) < oi * 64,
                forall|i: int| 0 <= i < res@.len() ==> #[trigger] emit_order(res@[i]) < 2 + oi * 64,
                forall|i: int, j: int|
                    0 <= i < j < res@.len() ==> emit_order(res@[i]) < emit_order(res@[j]),
            decreases 64 - oi,
        {
            let or = oi / 8;
            let of = oi % 8;
            proof {
                assert(8 * (or as int) + (of as int) == oi as int);
            }
            let origin_ok = match self.state[oi] {
                Some(p) => p.color == self.active_turn,
                None => false,
            };
            if origin_ok {
                let p = self.state[oi].unwrap();
                let mut ti: usize = 0;
                while ti < 64
                    invariant
                        self.wf(),
                        oi < 64,
                        ti <= 64,
                        or == oi / 8,
                        of == oi % 8,
                        self@.at(or as int, of as int) == Some(p),
                        p.color == self@.active_turn,
                        forall|mv: Move| #[trigger] res@.contains(mv) ==> legal(self@, mv),
                        res@.contains(Move::CastleKingside) == legal(self@, Move::CastleKingside),
                        res@.contains(Move::CastleQueenside) == legal(self@, Move::CastleQueenside),
                        forall|mv: Move|
                            legal(self@, mv) && (mv matches Move::PieceMove { .. }) && scan_order(
                                mv,
                            ) < oi * 64 + ti ==> #[trigger] res@.contains(mv),
                        res@.no_duplicates(),
                        forall|mv: Move|
                            #[trigger] res@.contains(mv) && (mv matches Move::PieceMove { .. })
                                ==> scan_order(mv) < oi * 64 + ti,
                        forall|i: int|
                            0 <= i < res@.len() ==> #[trigger] emit_order(res@[i]) < 2 + oi * 64
                                + ti,
                        forall|i: int, j: int|
                            0 <= i < j < res@.len() ==> emit_order(res@[i]) < emit_order(res@[j]),
                    decreases 64 - ti,
                {
                    let tr = ti / 8;
                    let tf = ti % 8;
                    proof {
                        assert(8 * (tr as int) + (tf as int) == ti as int);
                    }
                    let tp = self.state[ti];
                    let mv = Move::PieceMove {
                        origin_square: (or, of),
                        target_square: (tr, tf),
                        origin_piece: p,
                        target_piece: tp,
                    };
                    if self.is_legal_move(mv) {
                        proof {
                            assert(scan_order(mv) == oi * 64 + ti);
                            assert(!res@.contains(mv));
                            lemma_push_contains(res@, mv);
                            lemma_push_no_dup(res@, mv);
                            assert(emit_order(mv) == 2 + oi * 64 + ti);
                            lemma_push_ordered(res@, mv);
                        }
                        res.push(mv);
                    }
                    proof {
                        assert(scan_order(mv) == oi * 64 + ti);
                        assert forall|m2: Move|
                            legal(self@, m2) && (m2 matches Move::PieceMove { .. }) && scan_order(
                                m2,
                            ) < oi * 64 + (ti + 1) implies #[trigger] res@.contains(m2) by {
                            if scan_order(m2) < oi * 64 + ti {
                            } else {
                                match m2 {
                                    Move::PieceMove {
                                        origin_square: o2,
                                        target_square: t2,
                                        origin_piece: p2,
                                        target_piece: tp2,
                                    } => {
                                        let a = o2.0 * 8 + o2.1;
                                        let b = t2.0 * 8 + t2.1;
                                        assert(on_board(o2.0 as int, o2.1 as int) && on_board(
                                            t2.0 as int,
                                            t2.1 as int,
                                        ));
                                        assert(a * 64 + b == oi * 64 + ti);
                                        assert(0 <= b < 64 && 0 <= ti < 64);
                                        assert(a == oi && b == ti) by {
                                            assert(64 * (a as int - oi as int) == ti as int
                                                - b as int);
                                        }
                                        assert(o2.0 == or && o2.1 == of) by {
                                            assert(8 * (o2.0 as int - or as int) == of as int
                                                - o2.1 as int);
                                        }
                                        assert(t2.0 == tr && t2.1 == tf) by {
                                            assert(8 * (t2.0 as int - tr as int) == tf as int
                                                - t2.1 as int);
                                        }
                                        assert(p2 == p);
                                        assert(tp2 == tp);
                                        assert(m2 == mv);
                                    },
                                    _ => {
                                        assert(false);
                                    },
                                }
                            }
                        }
                    }
                    ti = ti + 1;
                }
            } else {
                proof {
                    assert forall|m2: Move|
                        legal(self@, m2) && (m2 matches Move::PieceMove { .. }) && scan_order(m2)
                            < (oi + 1) * 64 implies #[trigger] res@.contains(m2) by {
                        if scan_order(m2) < oi * 64 {
                        } else {
                            match m2 {
                                Move::PieceMove {
                                    origin_square: o2,
                                    target_square: t2,
                                    origin_piece: p2,
                                    ..
                                } => {
                                    let a = o2.0 * 8 + o2.1;
                                    let b = t2.0 * 8 + t2.1;
                                    assert(on_board(o2.0 as int, o2.1 as int) && on_board(
                                        t2.0 as int,
                                        t2.1 as int,
                                    ));
                                    assert(a * 64 <= a * 64 + b < (oi + 1) * 64);
                                    assert(oi * 64 <= a * 64 + b);
                                    assert(a == oi) by {
                                        if a < oi {
                                            assert(a * 64 + b < oi * 64) by {
                                                assert(a * 64 + 64 <= oi * 64) by (nonlinear_arith)
                                                    requires
                                                        a < oi,
                                                ;
                                            }
                                        }
                                        if a > oi {
                                            assert(a * 64 >= (oi + 1) * 64) by (nonlinear_arith)
                                                requires
                                                    a > oi,
                                            ;
                                        }
                                    }
                                    assert(self@.at(o2.0 as int, o2.1 as int) == Some(p2)
                                        && p2.color == self@.active_turn);
                                    assert(8 * (o2.0 as int) + o2.1 as int == oi as int) by {
                                        assert(o2.0 * 8 + o2.1 == oi);
                                    }
                                    assert(false);
                                },
                                _ => {
                                    assert(false);
                                },
                            }
                        }
                    }
                }
            }
            oi = oi + 1;
        }
        proof {
            assert forall|mv: Move| legal(self@, mv) implies #[trigger] res@.contains(mv) by {
                match mv {
                    Move::CastleKingside | Move::CastleQueenside => {},
                    Move::PieceMove { origin_square: o2, target_square: t2, .. } => {
                        assert(on_board(o2.0 as int, o2.1 as int) && on_board(
                            t2.0 as int,
                            t2.1 as int,
                        ));
                        assert(scan_order(mv) < 64 * 64) by {
                            assert(o2.0 * 8 + o2.1 < 64 && t2.0 * 8 + t2.1 < 64);
                            assert((o2.0 * 8 + o2.1) * 64 + (t2.0 * 8 + t2.1) < 64 * 64)
                                by (nonlinear_arith)
                                requires
                                    o2.0 * 8 + o2.1 < 64 && t2.0 * 8 + t2.1 >= 0 && t2.0 * 8 + t2.1
                                        < 64,
                            ;
                        }
                    },
                }
            }
        }
        res
    }

    /// Classifies the position: `Ongoing` while any legal move exists;
    /// with none, a draw once the halfmove clock has reached 100, a win for
    /// the opponent when the side to move stands in check, and otherwise a
    /// stalemate draw.
    pub fn get_game_status(&self) -> (r: GameStatus)
        requires
            self.wf(),
        ensures
            r == status(self@),
    {
        let moves = self.get_legal_moves();
        if moves.len() > 0 {
            proof {
                assert(moves@.contains(moves@[0]));
            }
            return GameStatus::Ongoing;
        }
        proof {
            assert forall|mv: Move| !legal(self@, mv) by {
                if legal(self@, mv) {
                    assert(moves@.contains(mv));
                }
            }
        }
        if self.halfmove_clock >= 100 {
            return GameStatus::Draw;
        }
        let kp = match self.active_turn {
            Color::White => self.white_king_position,
            Color::Black => self.black_king_position,
        };
        if self.is_attacked(kp, self.active_turn.invert()) {
            match self.active_turn {
                Color::White => GameStatus::BlackWin,
                Color::Black => GameStatus::WhiteWin,
            }
        } else {
            GameStatus::Draw
        }
    }
}

} // verus!
