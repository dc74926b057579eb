//! The engine's laws, stated and proved once over the move semantics that
//! the executable functions are verified against: `get_legal_moves` returns
//! exactly the moves satisfying [`legal`], `move_piece` produces exactly
//! [`apply_move`], and `get_game_status` returns exactly [`status`], so each
//! law below speaks about every value those functions can return.

use vstd::prelude::*;

use crate::attacks::square_attacked;
use crate::board::BoardModel;
use crate::board::GameStatus;
use crate::moves::Move;
use crate::movegen::exists_legal_move;
use crate::movegen::status;
use crate::movegen::winner;
use crate::piece::PieceKind;
use crate::rules::apply_move;
use crate::rules::back_rank;
use crate::rules::castle_right;
use crate::rules::legal;

verus! {

/// Whether `mv` is a two-square pawn advance.
pub open spec fn is_double_pawn_push(mv: Move) -> bool {
    match mv {
        Move::PieceMove { origin_square: o, target_square: t, origin_piece: p, .. } => p.piece_kind
            == PieceKind::Pawn && (t.0 == o.0 + 2 || o.0 == t.0 + 2),
        _ => false,
    }
}

/// A legal two-square pawn advance sets the en-passant target to the square
/// the pawn skipped over.
pub proof fn lemma_double_push_sets_ep(m: BoardModel, mv: Move)
    requires
        m.wf(),
        legal(m, mv),
        is_double_pawn_push(mv),
    ensures
        match mv {
            Move::PieceMove { origin_square: o, target_square: t, .. } => apply_move(
                m,
                mv,
            ).en_passant_square == Some((((o.0 + t.0) / 2) as usize, t.1)),
            _ => false,
        },
{
}

/// Every legal move that is not a two-square pawn advance clears the
/// en-passant target, whichever side moves and whatever piece.
pub proof fn lemma_move_clears_ep(m: BoardModel, mv: Move)
    requires
        m.wf(),
        legal(m, mv),
        !is_double_pawn_push(mv),
    ensures
        apply_move(m, mv).en_passant_square is None,
{
}

/// No legal move leaves the mover's own king attacked by the opponent on
/// the board that results from applying it.
pub proof fn lemma_legal_move_keeps_king_safe(m: BoardModel, mv: Move)
    requires
        m.wf(),
        legal(m, mv),
    ensures
        ({
            let m2 = apply_move(m, mv);
            let k = m2.king_position(m.active_turn);
            !square_attacked(m2, k.0 as int, k.1 as int, m.active_turn.opposite())
        }),
{
}

/// Castling is rejected whenever the right is not set, a square strictly
/// between king and rook is occupied, or the king's origin, transit, or
/// destination square is attacked by the opponent.
pub proof fn lemma_castle_rejected(m: BoardModel, kingside: bool)
    requires
        m.wf(),
        ({
            let c = m.active_turn;
            let r = back_rank(c);
            let opp = c.opposite();
            ||| !castle_right(m.castle_flags, c, kingside)
            ||| (kingside && (m.at(r, 5) is Some || m.at(r, 6) is Some))
            ||| (!kingside && (m.at(r, 1) is Some || m.at(r, 2) is Some || m.at(r, 3) is Some))
            ||| square_attacked(m, r, 4, opp)
            ||| square_attacked(
                m,
                r,
                if kingside {
                    5int
                } else {
                    3int
                },
                opp,
            )
            ||| square_attacked(
                m,
                r,
                if kingside {
                    6int
                } else {
                    2int
                },
                opp,
            )
        }),
    ensures
        !legal(
            m,
            if kingside {
                Move::CastleKingside
            } else {
                Move::CastleQueenside
            },
        ),
{
}

/// With no legal move, the king attacked, and the halfmove clock under the
/// draw threshold, the opponent of the side to move has won. (At or beyond
/// the threshold the clock rule takes precedence and the same position is
/// scored a draw.)
pub proof fn lemma_checkmate_is_loss(m: BoardModel)
    requires
        m.wf(),
        !exists_legal_move(m),
        m.halfmove_clock < 100,
        ({
            let k = m.king_position(m.active_turn);
            square_attacked(m, k.0 as int, k.1 as int, m.active_turn.opposite())
        }),
    ensures
        status(m) == winner(m.active_turn.opposite()),
{
}

/// With no legal move and the king not attacked, the game is a draw,
/// whatever the halfmove clock shows.
pub proof fn lemma_stalemate_is_draw(m: BoardModel)
    requires
        m.wf(),
        !exists_legal_move(m),
        ({
            let k = m.king_position(m.active_turn);
            !square_attacked(m, k.0 as int, k.1 as int, m.active_turn.opposite())
        }),
    ensures
        status(m) == GameStatus::Draw,
{
}

/// Any legal pawn move, and any legal capture, resets the halfmove clock to
/// zero.
pub proof fn lemma_pawn_or_capture_resets_clock(m: BoardModel, mv: Move)
    requires
        m.wf(),
        legal(m, mv),
        match mv {
            Move::PieceMove { origin_piece: p, target_piece: tp, .. } => p.piece_kind
                == PieceKind::Pawn || tp is Some,
            _ => false,
        },
    ensures
        apply_move(m, mv).halfmove_clock == 0,
{
}

/// The halfmove clock alone never ends the game: while any legal move
/// exists the status is `Ongoing`, even with the clock at or beyond the
/// draw threshold.
pub proof fn lemma_clock_consulted_only_without_moves(m: BoardModel, mv: Move)
    requires
        legal(m, mv),
    ensures
        status(m) == GameStatus::Ongoing,
{
}

} // verus!
