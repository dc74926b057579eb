//! Attack computation: which squares a piece reaches, and whether a square is
//! attacked by a side. Leapers (pawn diagonals, knight, king) attack by fixed
//! offsets; sliders (bishop, rook, queen) attack along rays whose strictly
//! intermediate squares are all empty.

use vstd::prelude::*;

use crate::board::on_board;
use crate::board::Board;
use crate::board::BoardModel;
use crate::board::Square;
use crate::piece::Color;
use crate::piece::Piece;
use crate::piece::PieceKind;

verus! {

/// The rank direction a pawn of `c` advances in: White toward rank 0.
pub open spec fn pawn_dir(c: Color) -> int {
    match c {
        Color::White => -1,
        Color::Black => 1,
    }
}

/// The absolute value of an offset.
pub open spec fn abs_int(x: int) -> int {
    if x < 0 {
        -x
    } else {
        x
    }
}

/// The sign of an offset: -1, 0, or 1.
pub open spec fn sgn(x: int) -> int {
    if x > 0 {
        1
    } else if x < 0 {
        -1
    } else {
        0
    }
}

/// Whether (dr, df) is a knight jump.
pub open spec fn knight_jump(dr: int, df: int) -> bool {
    (abs_int(dr) == 2 && abs_int(df) == 1) || (abs_int(dr) == 1 && abs_int(df) == 2)
}

/// Whether (dr, df) is a single king step.
pub open spec fn king_step(dr: int, df: int) -> bool {
    (dr != 0 || df != 0) && abs_int(dr) <= 1 && abs_int(df) <= 1
}

/// Whether (dr, df) lies along a rank or file.
pub open spec fn ortho_aligned(dr: int, df: int) -> bool {
    (dr == 0) != (df == 0)
}

/// Whether (dr, df) lies along a diagonal.
pub open spec fn diag_aligned(dr: int, df: int) -> bool {
    dr != 0 && (df == dr || df == -dr)
}

/// The number of single steps along an aligned offset.
pub open spec fn ray_len(dr: int, df: int) -> int {
    if abs_int(dr) >= abs_int(df) {
        abs_int(dr)
    } else {
        abs_int(df)
    }
}

/// The k-th square of the ray from (fr, ff) toward (tr, tf).
pub open spec fn ray_sq(fr: int, ff: int, tr: int, tf: int, k: int) -> (int, int) {
    (fr + k * sgn(tr - fr), ff + k * sgn(tf - ff))
}

/// Whether the square `sq` is empty on `m`.
pub open spec fn empty_at(m: BoardModel, sq: (int, int)) -> bool {
    m.at(sq.0, sq.1) is None
}

/// Whether every square strictly between (fr, ff) and (tr, tf) along their
/// common ray is empty.
pub open spec fn clear_ray(m: BoardModel, fr: int, ff: int, tr: int, tf: int) -> bool {
    forall|k: int|
        1 <= k < ray_len(tr - fr, tf - ff) ==> #[trigger] empty_at(m, ray_sq(fr, ff, tr, tf, k))
}

/// Whether the piece standing on (fr, ff) attacks (tr, tf): a pawn by its two
/// forward diagonals, knight and king by their fixed offsets, and sliders
/// along an unobstructed aligned ray. The target's occupancy is irrelevant.
pub open spec fn piece_attacks(m: BoardModel, fr: int, ff: int, tr: int, tf: int) -> bool {
    &&& on_board(fr, ff)
    &&& on_board(tr, tf)
    &&& !(fr == tr && ff == tf)
    &&& match m.at(fr, ff) {
        None => false,
        Some(p) => {
            let dr = tr - fr;
            let df = tf - ff;
            match p.piece_kind {
                PieceKind::Pawn => dr == pawn_dir(p.color) && (df == 1 || df == -1),
                PieceKind::Knight => knight_jump(dr, df),
                PieceKind::King => king_step(dr, df),
                PieceKind::Bishop => diag_aligned(dr, df) && clear_ray(m, fr, ff, tr, tf),
                PieceKind::Rook => ortho_aligned(dr, df) && clear_ray(m, fr, ff, tr, tf),
                PieceKind::Queen => (diag_aligned(dr, df) || ortho_aligned(dr, df)) && clear_ray(
                    m,
                    fr,
                    ff,
                    tr,
                    tf,
                ),
            }
        },
    }
}

/// Whether any piece of `by` attacks the square (tr, tf).
pub open spec fn square_attacked(m: BoardModel, tr: int, tf: int, by: Color) -> bool {
    exists|fr: int, ff: int|
        on_board(fr, ff) && (m.at(fr, ff) matches Some(p) && p.color == by) && #[trigger] piece_attacks(
            m,
            fr,
            ff,
            tr,
            tf,
        )
}

impl Board {
    /// Whether every square strictly between (fr, ff) and (tr, tf) along
    /// their common ray is empty, by walking the ray one step at a time.
    fn ray_clear(&self, fr: usize, ff: usize, tr: usize, tf: usize) -> (r: bool)
        requires
            self@.grid.len() == 64,
            fr < 8,
            ff < 8,
            tr < 8,
            tf < 8,
            diag_aligned(tr - fr, tf - ff) || ortho_aligned(tr - fr, tf - ff),
        ensures
            r == clear_ray(self@, fr as int, ff as int, tr as int, tf as int),
    {
        let dr: i32 = tr as i32 - fr as i32;
        let df: i32 = tf as i32 - ff as i32;
        let sr: i32 = if dr > 0 {
            1
        } else if dr < 0 {
            -1
        } else {
            0
        };
        let sf: i32 = if df > 0 {
            1
        } else if df < 0 {
            -1
        } else {
            0
        };
        let steps: i32 = {
            let adr: i32 = if dr >= 0 {
                dr
            } else {
                -dr
            };
            let adf: i32 = if df >= 0 {
                df
            } else {
                -df
            };
            if adr >= adf {
                adr
            } else {
                adf
            }
        };
        proof {
            assert(sr as int == sgn(tr - fr));
            assert(sf as int == sgn(tf - ff));
            assert(steps as int == ray_len(tr - fr, tf - ff));
        }
        let mut k: i32 = 1;
        let mut cr: i32 = fr as i32 + sr;
        let mut cf: i32 = ff as i32 + sf;
        while k < steps
            invariant
                self@.grid.len() == 64,
                fr < 8,
                ff < 8,
                tr < 8,
                tf < 8,
                diag_aligned(tr - fr, tf - ff) || ortho_aligned(tr - fr, tf - ff),
                sr as int == sgn(tr - fr),
                sf as int == sgn(tf - ff),
                steps as int == ray_len(tr - fr, tf - ff),
                1 <= k <= steps,
                cr as int == fr + k * (sr as int),
                cf as int == ff + k * (sf as int),
                forall|j: int|
                    1 <= j < k ==> #[trigger] empty_at(
                        self@,
                        ray_sq(fr as int, ff as int, tr as int, tf as int, j),
                    ),
            decreases steps - k,
        {
            proof {
                assert(sr == 1 ==> cr == fr + k);
                assert(sr == -1 ==> cr == fr as i32 - k);
                assert(sr == 0 ==> cr == fr as i32 && tr == fr);
                assert(sr == 1 ==> tr - fr == steps && cr < tr);
                assert(sr == -1 ==> fr - tr == steps && cr > tr);
                assert(0 <= cr < 8);
                assert(sf == 1 ==> tf - ff == steps && cf < tf);
                assert(sf == -1 ==> ff - tf == steps && cf > tf);
                assert(0 <= cf < 8);
            }
            let idx: usize = (cr as usize) * 8 + (cf as usize);
            if self.state[idx].is_some() {
                proof {
                    let kk = k as int;
                    assert(ray_sq(fr as int, ff as int, tr as int, tf as int, kk) == (
                        cr as int,
                        cf as int,
                    ));
                    assert(!empty_at(
                        self@,
                        ray_sq(fr as int, ff as int, tr as int, tf as int, kk),
                    ));
                }
                return false;
            }
            proof {
                let kk = k as int;
                assert(ray_sq(fr as int, ff as int, tr as int, tf as int, kk) == (
                    cr as int,
                    cf as int,
                ));
                assert(empty_at(self@, ray_sq(fr as int, ff as int, tr as int, tf as int, kk)));
            }
            k = k + 1;
            cr = cr + sr;
            cf = cf + sf;
        }
        true
    }

    /// Whether the piece standing on (fr, ff), if any, attacks (tr, tf).
    pub(crate) fn attacks_square(&self, fr: usize, ff: usize, tr: usize, tf: usize) -> (r: bool)
        requires
            self@.grid.len() == 64,
            fr < 8,
            ff < 8,
            tr < 8,
            tf < 8,
        ensures
            r == piece_attacks(self@, fr as int, ff as int, tr as int, tf as int),
    {
        if fr == tr && ff == tf {
            return false;
        }
        let p = match self.state[fr * 8 + ff] {
            None => {
                return false;
            },
            Some(p) => p,
        };
        let dr: i32 = tr as i32 - fr as i32;
        let df: i32 = tf as i32 - ff as i32;
        match p.piece_kind {
            PieceKind::Pawn => {
                let dir: i32 = if p.color == Color::White {
                    -1
                } else {
                    1
                };
                dr == dir && (df == 1 || df == -1)
            },
            PieceKind::Knight => {
                ((dr == 2 || dr == -2) && (df == 1 || df == -1)) || ((dr == 1 || dr == -1) && (df
                    == 2 || df == -2))
            },
            PieceKind::King => dr >= -1 && dr <= 1 && df >= -1 && df <= 1,
            PieceKind::Bishop => {
                if dr != 0 && (df == dr || df == -dr) {
                    self.ray_clear(fr, ff, tr, tf)
                } else {
                    false
                }
            },
            PieceKind::Rook => {
                if (dr == 0) != (df == 0) {
                    self.ray_clear(fr, ff, tr, tf)
                } else {
                    false
                }
            },
            PieceKind::Queen => {
                if (dr != 0 && (df == dr || df == -dr)) || ((dr == 0) != (df == 0)) {
                    self.ray_clear(fr, ff, tr, tf)
                } else {
                    false
                }
            },
        }
    }

    /// Whether any piece of `by` attacks `square`.
    pub fn is_attacked(&self, square: Square, by: Color) -> (r: bool)
        requires
            self@.grid.len() == 64,
            square.0 < 8,
            square.1 < 8,
        ensures
            r == square_attacked(self@, square.0 as int, square.1 as int, by),
    {
        let tr = square.0;
        let tf = square.1;
        let mut fr: usize = 0;
        while fr < 8
            invariant
                self@.grid.len() == 64,
                tr == square.0,
                tf == square.1,
                tr < 8,
                tf < 8,
                fr <= 8,
                forall|r: int, f: int|
                    on_board(r, f) && r < fr ==> !((self@.at(r, f) matches Some(p) && p.color == by)
                        && #[trigger] piece_attacks(self@, r, f, tr as int, tf as int)),
            decreases 8 - fr,
        {
            let mut ff: usize = 0;
            while ff < 8
                invariant
                    self@.grid.len() == 64,
                    tr == square.0,
                    tf == square.1,
                    tr < 8,
                    tf < 8,
                    fr < 8,
                    ff <= 8,
                    forall|r: int, f: int|
                        on_board(r, f) && r < fr ==> !((self@.at(r, f) matches Some(p) && p.color
                            == by) && #[trigger] piece_attacks(self@, r, f, tr as int, tf as int)),
                    forall|f: int|
                        0 <= f < ff ==> !((self@.at(fr as int, f) matches Some(p) && p.color == by)
                            && #[trigger] piece_attacks(self@, fr as int, f, tr as int, tf as int)),
                decreases 8 - ff,
            {
                let holds_attacker = match self.state[fr * 8 + ff] {
                    Some(p) => p.color == by,
                    None => false,
                };
                if holds_attacker {
                    if self.attacks_square(fr, ff, tr, tf) {
                        proof {
                            let fri = fr as int;
                            let ffi = ff as int;
                            assert(on_board(fri, ffi));
                            assert(self@.at(fri, ffi) matches Some(p) && p.color == by);
                            assert(piece_attacks(self@, fri, ffi, tr as int, tf as int));
                            assert(square_attacked(self@, tr as int, tf as int, by));
                            assert(tr == square.0 && tf == square.1);
                            assert(square_attacked(self@, square.0 as int, square.1 as int, by));
                        }
                        return true;
                    }
                }
                ff = ff + 1;
            }
            fr = fr + 1;
        }
        false
    }
}

impl Piece {
    /// Every square this piece, standing on `origin`, attacks on `board`:
    /// scanned in rank-major order, so the result is deterministic.
    pub fn get_attack_positions(self, origin: Square, board: &Board) -> (r: Vec<Square>)
        requires
            board@.grid.len() == 64,
            origin.0 < 8,
            origin.1 < 8,
            board@.at(origin.0 as int, origin.1 as int) == Some(self),
        ensures
            forall|a: usize, b: usize|
                #![trigger piece_attacks(board@, origin.0 as int, origin.1 as int, a as int, b as int)]
                a < 8 && b < 8 ==> (r@.contains((a, b)) <==> piece_attacks(
                    board@,
                    origin.0 as int,
                    origin.1 as int,
                    a as int,
                    b as int,
                )),
            forall|sq: Square| #[trigger] r@.contains(sq) ==> sq.0 < 8 && sq.1 < 8,
    {
        let (fr, ff) = origin;
        let mut res: Vec<Square> = Vec::new();
        let mut tr: usize = 0;
        while tr < 8
            invariant
                board@.grid.len() == 64,
                fr < 8,
                ff < 8,
                board@.at(fr as int, ff as int) == Some(self),
                tr <= 8,
                forall|a: usize, b: usize|
                    #![trigger piece_attacks(board@, fr as int, ff as int, a as int, b as int)]
                    a < 8 && b < 8 && a < tr ==> (res@.contains((a, b)) <==> piece_attacks(
                        board@,
                        fr as int,
                        ff as int,
                        a as int,
                        b as int,
                    )),
                forall|sq: Square| #[trigger] res@.contains(sq) ==> sq.0 < 8 && sq.1 < 8 && sq.0 < tr,
            decreases 8 - tr,
        {
            let mut tf: usize = 0;
            while tf < 8
                invariant
                    board@.grid.len() == 64,
                    fr < 8,
                    ff < 8,
                    board@.at(fr as int, ff as int) == Some(self),
                    tr < 8,
                    tf <= 8,
                    forall|a: usize, b: usize|
                        #![trigger piece_attacks(board@, fr as int, ff as int, a as int, b as int)]
                        a < 8 && b < 8 && a < tr ==> (res@.contains((a, b)) <==> piece_attacks(
                            board@,
                            fr as int,
                            ff as int,
                            a as int,
                            b as int,
                        )),
                    forall|b: usize|
                        #![trigger piece_attacks(board@, fr as int, ff as int, tr as int, b as int)]
                        b < 8 && b < tf ==> (res@.contains((tr, b)) <==> piece_attacks(
                            board@,
                            fr as int,
                            ff as int,
                            tr as int,
                            b as int,
                        )),
                    forall|sq: Square|
                        #[trigger] res@.contains(sq) ==> sq.0 < 8 && sq.1 < 8 && (sq.0 < tr || (sq.0
                            == tr && sq.1 < tf)),
                decreases 8 - tf,
            {
                let ghost old_res = res@;
                if board.attacks_square(fr, ff, tr, tf) {
                    res.push((tr, tf));
                    proof {
                        assert(res@ == old_res.push((tr, tf)));
                        assert forall|sq: Square| #[trigger] res@.contains(sq) implies old_res.contains(
                            sq,
                        ) || sq == (tr, tf) by {
                            let i = choose|i: int| 0 <= i < res@.len() && res@[i] == sq;
                            if i < old_res.len() {
                                assert(old_res[i] == sq);
                            }
                        }
                        assert(res@.contains((tr, tf))) by {
                            assert(res@[res@.len() - 1] == (tr, tf));
                        }
                        assert forall|sq: Square| old_res.contains(sq) implies res@.contains(sq) by {
                            let i = choose|i: int| 0 <= i < old_res.len() && old_res[i] == sq;
                            assert(res@[i] == sq);
                        }
                    }
                }
                tf = tf + 1;
            }
            tr = tr + 1;
        }
        res
    }
}

} // verus!
