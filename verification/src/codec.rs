//! The FEN codec on whole boards: `Board::from_fen` and `Board::to_fen`,
//! with spec-level parsing and serialization they are proved against.

use vstd::prelude::*;

use crate::board::sq_idx;
use crate::board::Board;
use crate::board::BoardModel;
use crate::board::Square;
use crate::fen::ep_of;
use crate::fen::flags_of;
use crate::fen::parse_active_turn;
use crate::fen::parse_en_passant_target_square;
use crate::fen::parse_squares;
use crate::fen::placement_grid;
use crate::fen::turn_of;
use crate::fen::CastleFlags;
use crate::fen::ParseFenError;
use crate::fen::START_FEN;
use crate::moves::Move;
use crate::piece::char_of_piece;
use crate::piece::Color;
use crate::piece::Piece;
use crate::piece::PieceKind;
use crate::text::dec_or_zero;
use crate::text::dec_str;
use crate::text::digit_char;
use crate::text::push_char;
use crate::text::push_dec;
use crate::text::split_whitespace_fields;
use crate::text::split_ws;
use crate::text::str_eq_chars;

verus! {

/// The king of `c`.
pub open spec fn king_of(c: Color) -> Piece {
    Piece { piece_kind: PieceKind::King, color: c }
}

/// The rook of `c`.
pub open spec fn rook_of(c: Color) -> Piece {
    Piece { piece_kind: PieceKind::Rook, color: c }
}

/// How many kings of `c` stand among the first `i` squares of the grid.
pub open spec fn kings_before(g: Seq<Option<Piece>>, c: Color, i: int) -> int
    decreases i,
{
    if i <= 0 {
        0
    } else {
        kings_before(g, c, i - 1) + (if g[i - 1] == Some(king_of(c)) {
            1int
        } else {
            0int
        })
    }
}

/// How many kings of `c` stand on the grid.
pub open spec fn king_count(g: Seq<Option<Piece>>, c: Color) -> int {
    kings_before(g, c, 64)
}

/// Whether the square `sq` holds the king of `c`.
pub open spec fn is_king_at(g: Seq<Option<Piece>>, c: Color, sq: Square) -> bool {
    sq.0 < 8 && sq.1 < 8 && g[8 * (sq.0 as int) + (sq.1 as int)] == Some(king_of(c))
}

/// The square holding the king of `c` (meaningful when exactly one exists).
pub open spec fn king_sq(g: Seq<Option<Piece>>, c: Color) -> Square {
    choose|sq: Square| is_king_at(g, c, sq)
}

/// No castle rights.
pub open spec fn none_flags() -> CastleFlags {
    CastleFlags {
        white_kingside: false,
        white_queenside: false,
        black_kingside: false,
        black_queenside: false,
    }
}

/// Force-clears every right whose king and rook are not both found on their
/// canonical origin squares.
pub open spec fn clear_unavailable(g: Seq<Option<Piece>>, fl: CastleFlags) -> CastleFlags {
    CastleFlags {
        white_kingside: fl.white_kingside && g[sq_idx(7, 4)] == Some(king_of(Color::White)) && g[
            sq_idx(7, 7)
        ] == Some(rook_of(Color::White)),
        white_queenside: fl.white_queenside && g[sq_idx(7, 4)] == Some(king_of(Color::White)) && g[
            sq_idx(7, 0)
        ] == Some(rook_of(Color::White)),
        black_kingside: fl.black_kingside && g[sq_idx(0, 4)] == Some(king_of(Color::Black)) && g[
            sq_idx(0, 7)
        ] == Some(rook_of(Color::Black)),
        black_queenside: fl.black_queenside && g[sq_idx(0, 4)] == Some(king_of(Color::Black)) && g[
            sq_idx(0, 0)
        ] == Some(rook_of(Color::Black)),
    }
}

/// The outcome of reading a FEN string, at the level of the model.
pub ghost enum FenParse {
    Parsed(BoardModel),
    BadPlacement,
    BadTurn,
    BadEp,
    NoKing,
}

/// Reads a FEN string: six whitespace-separated fields (the last two clock
/// fields may be missing or malformed and then default to 0), with a
/// placement of exactly eight ranks of eight files, at most one king per
/// side (more is a malformed placement, none is a missing king), an active
/// turn of "w" or "b", castle rights force-cleared when king or rook is off
/// its origin square, and an en-passant field of '-' or a square.
pub open spec fn parse_fen(s: Seq<char>) -> FenParse {
    let fields = split_ws(s);
    if fields.len() == 0 {
        FenParse::BadPlacement
    } else {
        match placement_grid(fields[0]) {
            None => FenParse::BadPlacement,
            Some(g) => {
                if king_count(g, Color::White) > 1 || king_count(g, Color::Black) > 1 {
                    FenParse::BadPlacement
                } else if fields.len() < 2 {
                    FenParse::BadTurn
                } else {
                    match turn_of(fields[1]) {
                        None => FenParse::BadTurn,
                        Some(turn) => {
                            let fl_raw = if fields.len() >= 3 {
                                flags_of(fields[2])
                            } else {
                                none_flags()
                            };
                            if fields.len() < 4 {
                                FenParse::BadEp
                            } else {
                                match ep_of(fields[3]) {
                                    None => FenParse::BadEp,
                                    Some(ep) => {
                                        if king_count(g, Color::White) == 0 || king_count(
                                            g,
                                            Color::Black,
                                        ) == 0 {
                                            FenParse::NoKing
                                        } else {
                                            FenParse::Parsed(
                                                BoardModel {
                                                    grid: g,
                                                    active_turn: turn,
                                                    castle_flags: clear_unavailable(g, fl_raw),
                                                    en_passant_square: ep,
                                                    halfmove_clock: if fields.len() >= 5 {
                                                        dec_or_zero(fields[4])
                                                    } else {
                                                        0
                                                    },
                                                    fullmove_number: if fields.len() >= 6 {
                                                        dec_or_zero(fields[5])
                                                    } else {
                                                        0
                                                    },
                                                    history: Seq::empty(),
                                                    white_king_position: king_sq(g, Color::White),
                                                    black_king_position: king_sq(g, Color::Black),
                                                },
                                            )
                                        }
                                    },
                                }
                            }
                        },
                    }
                }
            },
        }
    }
}

/// The FEN characters of one rank's squares, given `pending` empty files
/// already seen: runs of empties collapse to a digit.
pub open spec fn rank_chars(sq: Seq<Option<Piece>>, pending: int) -> Seq<char>
    decreases sq.len(),
{
    if sq.len() == 0 {
        if pending > 0 {
            seq![digit_char(pending)]
        } else {
            seq![]
        }
    } else {
        match sq[0] {
            None => rank_chars(sq.drop_first(), pending + 1),
            Some(p) => (if pending > 0 {
                seq![digit_char(pending)]
            } else {
                seq![]
            }) + seq![char_of_piece(p)] + rank_chars(sq.drop_first(), 0),
        }
    }
}

/// The eight squares of rank `r`.
pub open spec fn rank_of(g: Seq<Option<Piece>>, r: int) -> Seq<Option<Piece>> {
    g.subrange(8 * r, 8 * r + 8)
}

/// The FEN placement text of ranks `r` and below, joined by '/'.
pub open spec fn ranks_from(g: Seq<Option<Piece>>, r: int) -> Seq<char>
    decreases 8 - r,
{
    if r < 0 || r >= 8 {
        seq![]
    } else if r == 7 {
        rank_chars(rank_of(g, 7), 0)
    } else {
        rank_chars(rank_of(g, r), 0) + seq!['/'] + ranks_from(g, r + 1)
    }
}

/// The FEN placement field of a grid.
pub open spec fn placement_str(g: Seq<Option<Piece>>) -> Seq<char> {
    ranks_from(g, 0)
}

/// The FEN active-turn field of a color.
pub open spec fn turn_str(c: Color) -> Seq<char> {
    match c {
        Color::White => seq!['w'],
        Color::Black => seq!['b'],
    }
}

/// The FEN castle-rights field: the set letters in the fixed order K, Q, k,
/// q, or '-' when none is set.
pub open spec fn castle_str(fl: CastleFlags) -> Seq<char> {
    let s = (if fl.white_kingside {
        seq!['K']
    } else {
        seq![]
    }) + (if fl.white_queenside {
        seq!['Q']
    } else {
        seq![]
    }) + (if fl.black_kingside {
        seq!['k']
    } else {
        seq![]
    }) + (if fl.black_queenside {
        seq!['q']
    } else {
        seq![]
    });
    if s.len() == 0 {
        seq!['-']
    } else {
        s
    }
}

/// The letter of file `f`.
pub open spec fn file_char(f: int) -> char {
    if f == 0 {
        'a'
    } else if f == 1 {
        'b'
    } else if f == 2 {
        'c'
    } else if f == 3 {
        'd'
    } else if f == 4 {
        'e'
    } else if f == 5 {
        'f'
    } else if f == 6 {
        'g'
    } else {
        'h'
    }
}

/// The FEN en-passant field: '-' or the algebraic square.
pub open spec fn ep_str(ep: Option<Square>) -> Seq<char> {
    match ep {
        None => seq!['-'],
        Some(sq) => seq![file_char(sq.1 as int), digit_char(8 - sq.0)],
    }
}

/// The full FEN text of a board: the six fields joined by single spaces.
pub open spec fn fen_of(m: BoardModel) -> Seq<char> {
    placement_str(m.grid) + seq![' '] + turn_str(m.active_turn) + seq![' '] + castle_str(
        m.castle_flags,
    ) + seq![' '] + ep_str(m.en_passant_square) + seq![' '] + dec_str(m.halfmove_clock as int)
        + seq![' '] + dec_str(m.fullmove_number as int)
}

/// The grid `g` with the squares of rank `r` from file `start` on replaced
/// by `sq`.
pub open spec fn grid_with_rank_suffix(
    g: Seq<Option<Piece>>,
    r: int,
    start: int,
    sq: Seq<Option<Piece>>,
) -> Seq<Option<Piece>> {
    Seq::new(
        64,
        |i: int|
            if 8 * r + start <= i < 8 * r + start + sq.len() {
                sq[i - (8 * r + start)]
            } else {
                g[i]
            },
    )
}

/// The grid `g` restricted to its ranks above `r`, all else empty.
pub open spec fn partial_grid(g: Seq<Option<Piece>>, r: int) -> Seq<Option<Piece>> {
    Seq::new(
        64,
        |i: int|
            if i < 8 * r {
                g[i]
            } else {
                None
            },
    )
}

/// Scanning the serialized text of one rank's remaining squares, from a
/// state that has consumed everything before them, fills exactly those
/// squares and ends at file eight.
proof fn lemma_rank_scan(g: Seq<Option<Piece>>, sq: Seq<Option<Piece>>, r: int, f: int, pending: int)
    requires
        g.len() == 64,
        0 <= r < 8,
        0 <= f,
        0 <= pending,
        f + pending + sq.len() == 8,
        forall|i: int| 8 * r + f + pending <= i < 8 * r + 8 ==> #[trigger] g[i] is None,
    ensures
        crate::fen::place_scan_from(Some((g, r, f)), rank_chars(sq, pending)) == Some(
            (grid_with_rank_suffix(g, r, f + pending, sq), r, 8int),
        ),
    decreases sq.len(),
{
    let st0 = Some((g, r, f));
    if sq.len() == 0 {
        if pending > 0 {
            let d = digit_char(pending);
            assert(rank_chars(sq, pending) == seq![d]);
            crate::fen::lemma_place_scan_from_one(st0, d);
            assert(d as u32 == 48 + pending);
            assert(crate::text::is_digit(d));
            assert(crate::fen::place_step(st0, d) == Some((g, r, f + pending)));
            assert(grid_with_rank_suffix(g, r, f + pending, sq) =~= g);
        } else {
            assert(rank_chars(sq, pending) =~= Seq::<char>::empty());
            assert(grid_with_rank_suffix(g, r, f + pending, sq) =~= g);
        }
    } else {
        match sq[0] {
            None => {
                assert(rank_chars(sq, pending) == rank_chars(sq.drop_first(), pending + 1));
                lemma_rank_scan(g, sq.drop_first(), r, f, pending + 1);
                assert(grid_with_rank_suffix(g, r, f + pending + 1, sq.drop_first())
                    =~= grid_with_rank_suffix(g, r, f + pending, sq));
            },
            Some(p) => {
                let dpart: Seq<char> = if pending > 0 {
                    seq![digit_char(pending)]
                } else {
                    seq![]
                };
                let cpart = seq![char_of_piece(p)];
                let rpart = rank_chars(sq.drop_first(), 0);
                assert(rank_chars(sq, pending) == dpart + cpart + rpart);
                crate::fen::lemma_place_scan_concat(st0, dpart + cpart, rpart);
                crate::fen::lemma_place_scan_concat(st0, dpart, cpart);
                let st1 = crate::fen::place_scan_from(st0, dpart);
                if pending > 0 {
                    let d = digit_char(pending);
                    crate::fen::lemma_place_scan_from_one(st0, d);
                    assert(st1 == crate::fen::place_step(st0, d));
                    assert(d as u32 == 48 + pending);
                    assert(crate::text::is_digit(d));
                    assert(st1 == Some((g, r, f + pending)));
                } else {
                    assert(dpart.len() == 0);
                    assert(st1 == st0);
                }
                crate::piece::lemma_piece_char_round_trip(p);
                let c = char_of_piece(p);
                crate::fen::lemma_place_scan_from_one(st1, c);
                let st2 = crate::fen::place_scan_from(st1, cpart);
                assert(st2 == crate::fen::place_step(st1, c));
                assert(crate::piece::is_piece_char(c));
                assert(c != '/');
                assert(!crate::text::is_digit(c));
                let g2 = g.update(8 * r + (f + pending), Some(p));
                assert(st2 == Some((g2, r, f + pending + 1)));
                assert forall|i: int| 8 * r + (f + pending + 1) <= i < 8 * r + 8 implies #[trigger] g2[i] is None by {
                    assert(g2[i] == g[i]);
                }
                lemma_rank_scan(g2, sq.drop_first(), r, f + pending + 1, 0);
                assert(crate::fen::place_scan_from(st0, rank_chars(sq, pending)) == Some(
                    (grid_with_rank_suffix(g2, r, f + pending + 1, sq.drop_first()), r, 8int),
                ));
                assert(grid_with_rank_suffix(g2, r, f + pending + 1, sq.drop_first())
                    =~= grid_with_rank_suffix(g, r, f + pending, sq));
            },
        }
    }
}

/// Scanning the serialized ranks from `r` down, from a state holding the
/// ranks above `r`, reconstructs the whole grid.
proof fn lemma_ranks_scan(g: Seq<Option<Piece>>, r: int)
    requires
        g.len() == 64,
        0 <= r <= 7,
    ensures
        crate::fen::place_scan_from(Some((partial_grid(g, r), r, 0)), ranks_from(g, r)) == Some(
            (g, 7int, 8int),
        ),
    decreases 7 - r,
{
    let gp = partial_grid(g, r);
    let rsq = rank_of(g, r);
    assert(rsq.len() == 8);
    assert forall|i: int| 8 * r <= i < 8 * r + 8 implies #[trigger] gp[i] is None by {}
    lemma_rank_scan(gp, rsq, r, 0, 0);
    let gafter = grid_with_rank_suffix(gp, r, 0, rsq);
    let st0 = Some((gp, r, 0int));
    if r == 7 {
        assert(ranks_from(g, 7) == rank_chars(rsq, 0));
        assert(gafter =~= g);
    } else {
        let apart = rank_chars(rsq, 0);
        let bpart = seq!['/'];
        let cpart = ranks_from(g, r + 1);
        assert(ranks_from(g, r) == apart + bpart + cpart);
        crate::fen::lemma_place_scan_concat(st0, apart + bpart, cpart);
        crate::fen::lemma_place_scan_concat(st0, apart, bpart);
        let st1 = crate::fen::place_scan_from(st0, apart);
        assert(st1 == Some((gafter, r, 8int)));
        crate::fen::lemma_place_scan_from_one(st1, '/');
        let st2 = crate::fen::place_scan_from(st1, bpart);
        assert(st2 == crate::fen::place_step(st1, '/'));
        assert(st2 == Some((gafter, r + 1, 0int)));
        assert(gafter =~= partial_grid(g, r + 1));
        lemma_ranks_scan(g, r + 1);
    }
}

/// Serializing a 64-square grid and scanning the text back yields the grid.
pub proof fn lemma_placement_round_trip(g: Seq<Option<Piece>>)
    requires
        g.len() == 64,
    ensures
        placement_grid(placement_str(g)) == Some(g),
{
    crate::fen::lemma_place_scan_is_from_init(placement_str(g));
    assert(partial_grid(g, 0) =~= crate::fen::empty_grid());
    lemma_ranks_scan(g, 0);
}

/// Whether `c` can appear in a serialized placement field.
pub open spec fn placement_char(c: char) -> bool {
    crate::piece::is_piece_char(c) || crate::text::is_digit(c) || c == '/'
}

/// Every character of a serialized rank is a piece letter or a digit, and
/// the text is nonempty unless the rank contributed nothing at all.
proof fn lemma_rank_chars_class(sq: Seq<Option<Piece>>, pending: int)
    requires
        0 <= pending,
        pending + sq.len() <= 8,
    ensures
        forall|i: int|
            0 <= i < rank_chars(sq, pending).len() ==> (crate::piece::is_piece_char(
                #[trigger] rank_chars(sq, pending)[i],
            ) || crate::text::is_digit(rank_chars(sq, pending)[i])),
        pending > 0 || sq.len() > 0 ==> rank_chars(sq, pending).len() >= 1,
    decreases sq.len(),
{
    if sq.len() == 0 {
        if pending > 0 {
            assert(digit_char(pending) as u32 == 48 + pending);
            assert(crate::text::is_digit(digit_char(pending)));
        }
    } else {
        match sq[0] {
            None => {
                lemma_rank_chars_class(sq.drop_first(), pending + 1);
            },
            Some(p) => {
                lemma_rank_chars_class(sq.drop_first(), 0);
                crate::piece::lemma_piece_char_round_trip(p);
                let dpart: Seq<char> = if pending > 0 {
                    seq![digit_char(pending)]
                } else {
                    seq![]
                };
                let cpart = seq![char_of_piece(p)];
                let rpart = rank_chars(sq.drop_first(), 0);
                assert(rank_chars(sq, pending) == dpart + cpart + rpart);
                if pending > 0 {
                    assert(digit_char(pending) as u32 == 48 + pending);
                    assert(crate::text::is_digit(digit_char(pending)));
                }
                assert forall|i: int| 0 <= i < rank_chars(sq, pending).len() implies (
                crate::piece::is_piece_char(#[trigger] rank_chars(sq, pending)[i])
                    || crate::text::is_digit(rank_chars(sq, pending)[i])) by {
                    if i < dpart.len() {
                        assert(rank_chars(sq, pending)[i] == dpart[i]);
                    } else if i < dpart.len() + 1 {
                        assert(rank_chars(sq, pending)[i] == char_of_piece(p));
                    } else {
                        assert(rank_chars(sq, pending)[i] == rpart[i - dpart.len() - 1]);
                    }
                }
            },
        }
    }
}

/// Every character of a serialized placement is a piece letter, a digit, or
/// '/', and the text is nonempty.
proof fn lemma_ranks_from_class(g: Seq<Option<Piece>>, r: int)
    requires
        g.len() == 64,
        0 <= r <= 7,
    ensures
        forall|i: int|
            0 <= i < ranks_from(g, r).len() ==> placement_char(#[trigger] ranks_from(g, r)[i]),
        ranks_from(g, r).len() >= 1,
    decreases 7 - r,
{
    let rsq = rank_of(g, r);
    assert(rsq.len() == 8);
    lemma_rank_chars_class(rsq, 0);
    if r == 7 {
        assert(ranks_from(g, 7) == rank_chars(rsq, 0));
    } else {
        lemma_ranks_from_class(g, r + 1);
        let apart = rank_chars(rsq, 0);
        let cpart = ranks_from(g, r + 1);
        assert(ranks_from(g, r) == apart + seq!['/'] + cpart);
        assert forall|i: int| 0 <= i < ranks_from(g, r).len() implies placement_char(
            #[trigger] ranks_from(g, r)[i],
        ) by {
            if i < apart.len() {
                assert(ranks_from(g, r)[i] == apart[i]);
            } else if i < apart.len() + 1 {
                assert(ranks_from(g, r)[i] == '/');
            } else {
                assert(ranks_from(g, r)[i] == cpart[i - apart.len() - 1]);
            }
        }
    }
}

/// Reading back a serialized castle-rights field yields the same flags; the
/// field is nonempty and whitespace-free.
proof fn lemma_castle_str_round_trip(fl: CastleFlags)
    ensures
        flags_of(castle_str(fl)) == fl,
        castle_str(fl).len() >= 1,
        crate::text::no_ws(castle_str(fl)),
{
    let a: Seq<char> = if fl.white_kingside {
        seq!['K']
    } else {
        seq![]
    };
    let b: Seq<char> = if fl.white_queenside {
        seq!['Q']
    } else {
        seq![]
    };
    let c: Seq<char> = if fl.black_kingside {
        seq!['k']
    } else {
        seq![]
    };
    let d: Seq<char> = if fl.black_queenside {
        seq!['q']
    } else {
        seq![]
    };
    let s0 = a + b + c + d;
    let s = castle_str(fl);
    assert forall|i: int| 0 <= i < s0.len() implies (s0[i] == 'K' || s0[i] == 'Q' || s0[i] == 'k'
        || s0[i] == 'q') by {
        if i < a.len() {
            assert(s0[i] == 'K');
        } else if i < a.len() + b.len() {
            assert(s0[i] == 'Q');
        } else if i < a.len() + b.len() + c.len() {
            assert(s0[i] == 'k');
        } else {
            assert(s0[i] == 'q');
        }
    }
    if s0.len() == 0 {
        assert(s == seq!['-']);
        assert(!fl.white_kingside && !fl.white_queenside && !fl.black_kingside
            && !fl.black_queenside);
        assert(!s.contains('K')) by {
            assert forall|i: int| 0 <= i < s.len() implies s[i] != 'K' by {
                assert(s[i] == '-');
            }
        }
        assert(!s.contains('Q')) by {
            assert forall|i: int| 0 <= i < s.len() implies s[i] != 'Q' by {
                assert(s[i] == '-');
            }
        }
        assert(!s.contains('k')) by {
            assert forall|i: int| 0 <= i < s.len() implies s[i] != 'k' by {
                assert(s[i] == '-');
            }
        }
        assert(!s.contains('q')) by {
            assert forall|i: int| 0 <= i < s.len() implies s[i] != 'q' by {
                assert(s[i] == '-');
            }
        }
        assert(crate::text::no_ws(s)) by {
            assert forall|i: int| 0 <= i < s.len() implies !crate::text::is_ws(#[trigger] s[i]) by {
                assert(s[i] == '-');
            }
        }
    } else {
        assert(s == s0);
        if fl.white_kingside {
            assert(s0[0] == 'K');
            assert(s0.contains('K'));
        } else {
            assert(a.len() == 0);
            assert(!s0.contains('K')) by {
                assert forall|i: int| 0 <= i < s0.len() implies s0[i] != 'K' by {}
            }
        }
        if fl.white_queenside {
            assert(s0[a.len() as int] == 'Q');
            assert(s0.contains('Q'));
        } else {
            assert(!s0.contains('Q')) by {
                assert forall|i: int| 0 <= i < s0.len() implies s0[i] != 'Q' by {
                    if i < a.len() {
                        assert(s0[i] == 'K');
                    }
                }
            }
        }
        if fl.black_kingside {
            assert(s0[a.len() + b.len() as int] == 'k');
            assert(s0.contains('k'));
        } else {
            assert(!s0.contains('k')) by {
                assert forall|i: int| 0 <= i < s0.len() implies s0[i] != 'k' by {}
            }
        }
        if fl.black_queenside {
            assert(s0[a.len() + b.len() + c.len() as int] == 'q');
            assert(s0.contains('q'));
        } else {
            assert(!s0.contains('q')) by {
                assert forall|i: int| 0 <= i < s0.len() implies s0[i] != 'q' by {}
            }
        }
        assert(crate::text::no_ws(s)) by {
            assert forall|i: int| 0 <= i < s.len() implies !crate::text::is_ws(#[trigger] s[i]) by {}
        }
    }
}

/// With exactly one king of `c` on the grid (at `ksq`, unique), the running
/// count is 0 before its square and 1 after.
proof fn lemma_unique_king_count(g: Seq<Option<Piece>>, c: Color, ksq: Square, i: int)
    requires
        g.len() == 64,
        is_king_at(g, c, ksq),
        forall|j: int|
            0 <= j < 64 && g[j] == Some(king_of(c)) ==> j == 8 * (ksq.0 as int) + (ksq.1 as int),
        0 <= i <= 64,
    ensures
        kings_before(g, c, i) == if 8 * (ksq.0 as int) + (ksq.1 as int) < i {
            1int
        } else {
            0int
        },
    decreases i,
{
    if i > 0 {
        lemma_unique_king_count(g, c, ksq, i - 1);
    }
}

/// Whether every set castle right has its king and rook on their canonical
/// origin squares. `from_fen` establishes this
/// ([`lemma_parsed_flags_consistent`]) and every pseudo-legal move preserves
/// it ([`lemma_apply_preserves_flags_consistent`]), so it holds of every
/// board reachable by legal play.
pub open spec fn flags_consistent(m: BoardModel) -> bool {
    m.castle_flags == clear_unavailable(m.grid, m.castle_flags)
}

/// Force-clearing is idempotent.
pub proof fn lemma_clear_unavailable_idempotent(g: Seq<Option<Piece>>, fl: CastleFlags)
    ensures
        clear_unavailable(g, clear_unavailable(g, fl)) == clear_unavailable(g, fl),
{
}

/// Every board a successful parse yields has consistent castle rights: its
/// flags were themselves produced by force-clearing, which is idempotent.
pub proof fn lemma_parsed_flags_consistent(s: Seq<char>)
    ensures
        parse_fen(s) matches FenParse::Parsed(m) ==> flags_consistent(m),
{
    match parse_fen(s) {
        FenParse::Parsed(m) => {
            let fields = split_ws(s);
            let fl_raw = if fields.len() >= 3 {
                flags_of(fields[2])
            } else {
                none_flags()
            };
            assert(m.castle_flags == clear_unavailable(m.grid, fl_raw));
            lemma_clear_unavailable_idempotent(m.grid, fl_raw);
        },
        _ => {},
    }
}

/// Every pseudo-legal move keeps the castle rights consistent with the
/// grid: a king move or a rook's departure clears the mover's rights, a
/// capture on a rook's origin square clears the opponent's right there, and
/// no other move touches a corner that a set right depends on.
pub proof fn lemma_apply_preserves_flags_consistent(m: BoardModel, mv: Move)
    requires
        m.wf(),
        flags_consistent(m),
        crate::rules::pseudo_legal(m, mv),
    ensures
        flags_consistent(crate::rules::apply_move(m, mv)),
{
    let m2 = crate::rules::apply_move(m, mv);
    let c = m.active_turn;
    match mv {
        Move::CastleKingside | Move::CastleQueenside => {
            assert(flags_consistent(m2));
        },
        Move::PieceMove { origin_square: o, target_square: t, origin_piece: p, target_piece: tp } => {
            let or = o.0 as int;
            let of = o.1 as int;
            let tr = t.0 as int;
            let tf = t.1 as int;
            let is_pawn = p.piece_kind == PieceKind::Pawn;
            let is_ep_capture = is_pawn && tf != of && m.en_passant_square == Some(t) && m.at(
                tr,
                tf,
            ) is None;
            if is_ep_capture {
                assert(crate::rules::pawn_move_ok(m, o, t, p.color));
                assert(m.at(or, tf) == Some(
                    Piece { piece_kind: PieceKind::Pawn, color: c.opposite() },
                ));
            }
            assert(flags_consistent(m2));
        },
    }
}

/// Splitting the serialized text of a board recovers its six fields.
#[verifier::rlimit(100)]
proof fn lemma_fen_fields(m: BoardModel)
    requires
        m.wf(),
    ensures
        split_ws(fen_of(m)) == seq![
            placement_str(m.grid),
            turn_str(m.active_turn),
            castle_str(m.castle_flags),
            ep_str(m.en_passant_square),
            dec_str(m.halfmove_clock as int),
            dec_str(m.fullmove_number as int),
        ],
{
    let g = m.grid;
    let ps = placement_str(g);
    let ts = turn_str(m.active_turn);
    let cs = castle_str(m.castle_flags);
    let es = ep_str(m.en_passant_square);
    let hs = dec_str(m.halfmove_clock as int);
    let fs = dec_str(m.fullmove_number as int);
    lemma_ranks_from_class(g, 0);
    assert(ps.len() >= 1);
    assert(crate::text::no_ws(ps)) by {
        assert forall|i: int| 0 <= i < ps.len() implies !crate::text::is_ws(#[trigger] ps[i]) by {
            assert(placement_char(ps[i]));
        }
    }
    assert(ts.len() == 1 && crate::text::no_ws(ts)) by {
        assert forall|i: int| 0 <= i < ts.len() implies !crate::text::is_ws(#[trigger] ts[i]) by {}
    }
    lemma_castle_str_round_trip(m.castle_flags);
    assert(es.len() >= 1 && crate::text::no_ws(es)) by {
        assert forall|i: int| 0 <= i < es.len() implies !crate::text::is_ws(#[trigger] es[i]) by {
            match m.en_passant_square {
                None => {
                    assert(es[i] == '-');
                },
                Some(sq) => {
                    if i == 0 {
                        assert(es[i] == file_char(sq.1 as int));
                    } else {
                        assert(es[i] == digit_char(8 - sq.0));
                    }
                },
            }
        }
    }
    crate::text::lemma_dec_str_val(m.halfmove_clock as int);
    crate::text::lemma_dec_str_val(m.fullmove_number as int);
    assert(hs.len() >= 1 && crate::text::no_ws(hs)) by {
        assert forall|i: int| 0 <= i < hs.len() implies !crate::text::is_ws(#[trigger] hs[i]) by {
            assert(crate::text::is_digit(hs[i]));
        }
    }
    assert(fs.len() >= 1 && crate::text::no_ws(fs)) by {
        assert forall|i: int| 0 <= i < fs.len() implies !crate::text::is_ws(#[trigger] fs[i]) by {
            assert(crate::text::is_digit(fs[i]));
        }
    }
    let r5 = fs;
    let r4 = hs + seq![' '] + r5;
    let r3 = es + seq![' '] + r4;
    let r2 = cs + seq![' '] + r3;
    let r1 = ts + seq![' '] + r2;
    let s = fen_of(m);
    assert(s =~= ps + seq![' '] + r1);
    crate::text::lemma_split_single(r5);
    crate::text::lemma_split_field(hs, r5);
    crate::text::lemma_split_field(es, r4);
    crate::text::lemma_split_field(cs, r3);
    crate::text::lemma_split_field(ts, r2);
    crate::text::lemma_split_field(ps, r1);
    assert(split_ws(s) =~= seq![ps, ts, cs, es, hs, fs]);
}

/// A well-formed board has exactly one king per side, standing where the
/// caches say.
proof fn lemma_wf_king_counts(m: BoardModel)
    requires
        m.wf(),
    ensures
        king_count(m.grid, Color::White) == 1,
        king_count(m.grid, Color::Black) == 1,
        king_sq(m.grid, Color::White) == m.white_king_position,
        king_sq(m.grid, Color::Black) == m.black_king_position,
{
    let g = m.grid;
    let wk = m.white_king_position;
    let bk = m.black_king_position;
    assert(is_king_at(g, Color::White, wk));
    assert(is_king_at(g, Color::Black, bk));
    assert forall|j: int|
        0 <= j < 64 && g[j] == Some(king_of(Color::White)) implies j == 8 * (wk.0 as int) + (
    wk.1 as int) by {
        let r = j / 8;
        let f = j % 8;
        assert(8 * r + f == j);
        assert(crate::board::on_board(r, f));
        assert(m.at(r, f) == g[j]);
        assert(m.is_king_of(Color::White, r, f));
    }
    assert forall|j: int|
        0 <= j < 64 && g[j] == Some(king_of(Color::Black)) implies j == 8 * (bk.0 as int) + (
    bk.1 as int) by {
        let r = j / 8;
        let f = j % 8;
        assert(8 * r + f == j);
        assert(crate::board::on_board(r, f));
        assert(m.at(r, f) == g[j]);
        assert(m.is_king_of(Color::Black, r, f));
    }
    lemma_unique_king_count(g, Color::White, wk, 64);
    lemma_unique_king_count(g, Color::Black, bk, 64);
    let w = king_sq(g, Color::White);
    assert(is_king_at(g, Color::White, w)) by {
        assert(is_king_at(g, Color::White, wk));
    }
    assert(w == wk) by {
        assert(g[8 * (w.0 as int) + (w.1 as int)] == Some(king_of(Color::White)));
        assert(8 * (w.0 as int) + (w.1 as int) == 8 * (wk.0 as int) + (wk.1 as int));
    }
    let b2 = king_sq(g, Color::Black);
    assert(is_king_at(g, Color::Black, b2)) by {
        assert(is_king_at(g, Color::Black, bk));
    }
    assert(b2 == bk) by {
        assert(g[8 * (b2.0 as int) + (b2.1 as int)] == Some(king_of(Color::Black)));
        assert(8 * (b2.0 as int) + (b2.1 as int) == 8 * (bk.0 as int) + (bk.1 as int));
    }
}

/// Serializing a board and parsing the text back yields the same board with
/// a fresh (empty) history: the FEN round trip at the state level. Its
/// precondition holds of every board reachable by legal play: `from_fen`
/// establishes both conjuncts ([`lemma_parsed_flags_consistent`]) and every
/// legal move preserves them ([`crate::rules::lemma_apply_preserves_wf`],
/// [`lemma_apply_preserves_flags_consistent`]).
pub proof fn lemma_fen_round_trip(m: BoardModel)
    requires
        m.wf(),
        flags_consistent(m),
    ensures
        parse_fen(fen_of(m)) == FenParse::Parsed(BoardModel { history: Seq::empty(), ..m }),
{
    let g = m.grid;
    let ps = placement_str(g);
    let ts = turn_str(m.active_turn);
    let cs = castle_str(m.castle_flags);
    let es = ep_str(m.en_passant_square);
    let hs = dec_str(m.halfmove_clock as int);
    let fs = dec_str(m.fullmove_number as int);
    let s = fen_of(m);
    lemma_fen_fields(m);
    let fields = split_ws(s);
    assert(fields.len() == 6);
    assert(fields[0] == ps && fields[1] == ts && fields[2] == cs && fields[3] == es && fields[4]
        == hs && fields[5] == fs);
    lemma_placement_round_trip(g);
    assert(placement_grid(fields[0]) == Some(g));
    lemma_wf_king_counts(m);
    lemma_castle_str_round_trip(m.castle_flags);
    assert(turn_of(fields[1]) == Some(m.active_turn)) by {
        match m.active_turn {
            Color::White => {
                assert(ts[0] == 'w');
            },
            Color::Black => {
                assert(ts[0] == 'b');
            },
        }
    }
    assert(flags_of(fields[2]) == m.castle_flags);
    assert(ep_of(fields[3]) == Some(m.en_passant_square)) by {
        match m.en_passant_square {
            None => {
                assert(es[0] == '-');
            },
            Some(sq) => {
                assert(es[0] == file_char(sq.1 as int));
                assert(es[1] == digit_char(8 - sq.0));
                assert(sq.1 < 8);
                assert(es[0] as u32 == 97 + sq.1);
                assert(1 <= 8 - sq.0 <= 8);
                assert(es[1] as u32 == 48 + (8 - sq.0));
            },
        }
    }
    crate::text::lemma_dec_str_val(m.halfmove_clock as int);
    crate::text::lemma_dec_str_val(m.fullmove_number as int);
    assert(dec_or_zero(fields[4]) == m.halfmove_clock);
    assert(dec_or_zero(fields[5]) == m.fullmove_number);
    match parse_fen(s) {
        FenParse::Parsed(m2) => {
            assert(m2 =~= BoardModel { history: Seq::empty(), ..m });
        },
        _ => {
            assert(false);
        },
    }
}

impl Board {
    /// The FEN text of one rank.
    fn rank_string(&self, rk: usize) -> (r: String)
        requires
            self@.grid.len() == 64,
            rk < 8,
        ensures
            r@ == rank_chars(rank_of(self@.grid, rk as int), 0),
    {
        let ghost rank = rank_of(self@.grid, rk as int);
        let mut out = String::new();
        let mut pending: u64 = 0;
        let mut fl: usize = 0;
        proof {
            assert(rank.skip(0) =~= rank);
            assert(out@ + rank_chars(rank.skip(0), 0) =~= rank_chars(rank, 0));
        }
        while fl < 8
            invariant
                self@.grid.len() == 64,
                rk < 8,
                fl <= 8,
                pending <= fl,
                rank == rank_of(self@.grid, rk as int),
                out@ + rank_chars(rank.skip(fl as int), pending as int) == rank_chars(rank, 0),
            decreases 8 - fl,
        {
            let ghost suf = rank.skip(fl as int);
            proof {
                assert(suf.len() == 8 - fl);
                assert(suf[0] == self@.grid[sq_idx(rk as int, fl as int)]);
                assert(suf.drop_first() =~= rank.skip(fl as int + 1));
            }
            match self.state[rk * 8 + fl] {
                None => {
                    pending = pending + 1;
                },
                Some(p) => {
                    if pending > 0 {
                        push_char(&mut out, crate::text::digit_char_from(pending));
                    }
                    push_char(&mut out, p.to_char());
                    proof {
                        assert(out@ + rank_chars(suf.drop_first(), 0) =~= rank_chars(rank, 0));
                    }
                    pending = 0;
                },
            }
            fl = fl + 1;
        }
        proof {
            assert(rank.skip(8) =~= Seq::<Option<Piece>>::empty());
            if pending > 0 {
                assert(rank_chars(rank.skip(8), pending as int) =~= seq![digit_char(pending as int)]);
            } else {
                assert(out@ + rank_chars(rank.skip(8), 0) =~= out@);
            }
        }
        if pending > 0 {
            push_char(&mut out, crate::text::digit_char_from(pending));
            proof {
                assert(out@ =~= rank_chars(rank, 0));
            }
        }
        out
    }

    /// Serializes the board to its FEN text: placement, active turn, castle
    /// rights, en-passant target, halfmove clock, and fullmove number,
    /// joined by single spaces.
    pub fn to_fen(&self) -> (r: String)
        requires
            self.wf(),
        ensures
            r@ == fen_of(self@),
    {
        let ghost g = self@.grid;
        let mut out = String::new();
        let mut rk: usize = 0;
        proof {
            assert(out@ + ranks_from(g, 0) =~= placement_str(g));
        }
        while rk < 8
            invariant
                self.wf(),
                g == self@.grid,
                rk <= 8,
                out@ + ranks_from(g, rk as int) == placement_str(g),
            decreases 8 - rk,
        {
            let rs = self.rank_string(rk);
            out.append(rs.as_str());
            if rk < 7 {
                push_char(&mut out, '/');
            }
            proof {
                if rk < 7 {
                    assert(out@ + ranks_from(g, rk as int + 1) =~= placement_str(g));
                } else {
                    assert(ranks_from(g, 8) =~= Seq::<char>::empty());
                    assert(out@ + ranks_from(g, 8) =~= placement_str(g));
                }
            }
            rk = rk + 1;
        }
        proof {
            assert(out@ =~= placement_str(g));
        }
        push_char(&mut out, ' ');
        match self.active_turn {
            Color::White => push_char(&mut out, 'w'),
            Color::Black => push_char(&mut out, 'b'),
        }
        proof {
            assert(out@ =~= placement_str(g) + seq![' '] + turn_str(self@.active_turn));
        }
        push_char(&mut out, ' ');
        let ghost before_castle = out@;
        if self.castle_flags.white_kingside {
            push_char(&mut out, 'K');
        }
        if self.castle_flags.white_queenside {
            push_char(&mut out, 'Q');
        }
        if self.castle_flags.black_kingside {
            push_char(&mut out, 'k');
        }
        if self.castle_flags.black_queenside {
            push_char(&mut out, 'q');
        }
        if !self.castle_flags.white_kingside && !self.castle_flags.white_queenside
            && !self.castle_flags.black_kingside && !self.castle_flags.black_queenside {
            push_char(&mut out, '-');
        }
        proof {
            assert(out@ =~= before_castle + castle_str(self@.castle_flags));
        }
        push_char(&mut out, ' ');
        let ghost before_ep = out@;
        match self.en_passant_square {
            None => push_char(&mut out, '-'),
            Some(sq) => {
                let fc = match sq.1 {
                    0 => 'a',
                    1 => 'b',
                    2 => 'c',
                    3 => 'd',
                    4 => 'e',
                    5 => 'f',
                    6 => 'g',
                    _ => 'h',
                };
                proof {
                    assert(sq.1 < 8);
                    assert(fc == file_char(sq.1 as int));
                }
                push_char(&mut out, fc);
                push_char(&mut out, crate::text::digit_char_from((8 - sq.0) as u64));
            },
        }
        proof {
            assert(out@ =~= before_ep + ep_str(self@.en_passant_square));
        }
        push_char(&mut out, ' ');
        push_dec(self.halfmove_clock, &mut out);
        push_char(&mut out, ' ');
        push_dec(self.fullmove_number, &mut out);
        proof {
            assert(out@ =~= fen_of(self@));
        }
        out
    }

    /// Builds a board from a FEN string, with the literal token "start"
    /// accepted as shorthand for the standard initial position. Any
    /// malformed field and any position without exactly one king per side
    /// is rejected with a structured error. The two clock fields are the
    /// one lenient case: missing, like unparsable, clock text defaults to 0
    /// rather than failing the parse, since no error kind exists for the
    /// clocks. The board of a successful parse is well-formed and carries
    /// an empty history.
    pub fn from_fen(fen: &str) -> (r: Result<Board, ParseFenError>)
        ensures
            ({
                let s0 = if fen@ == "start"@ {
                    START_FEN@
                } else {
                    fen@
                };
                let fields = split_ws(s0);
                match parse_fen(s0) {
                    FenParse::Parsed(m) => r matches Ok(b) && b@ =~= m && b.wf(),
                    FenParse::BadPlacement => r matches Err(e) && (e matches
                        ParseFenError::MalformedPlacement(t) && t@ == (if fields.len() > 0 {
                        fields[0]
                    } else {
                        Seq::<char>::empty()
                    })),
                    FenParse::BadTurn => r matches Err(e) && (e matches
                        ParseFenError::MalformedActiveTurn(t) && t@ == (if fields.len() > 1 {
                        fields[1]
                    } else {
                        Seq::<char>::empty()
                    })),
                    FenParse::BadEp => r matches Err(e) && (e matches
                        ParseFenError::MalformedEnPassantSquare(t) && t@ == (if fields.len() > 3 {
                        fields[3]
                    } else {
                        Seq::<char>::empty()
                    })),
                    FenParse::NoKing => r == Err::<Board, ParseFenError>(ParseFenError::MissingKing),
                }
            }),
    {
        let source: &str = if str_eq_chars(fen, "start") {
            START_FEN
        } else {
            fen
        };
        let ghost s0 = source@;
        let fields = split_whitespace_fields(source);
        let ghost fseq = split_ws(s0);
        if fields.len() == 0 {
            return Err(ParseFenError::MalformedPlacement(String::new()));
        }
        let f0: &str = fields[0];
        proof {
            assert(fields.deep_view()[0] == fields@[0].deep_view());
            assert(f0@ == fseq[0]);
        }
        let grid = match parse_squares(f0) {
            Ok(g) => g,
            Err(e) => {
                return Err(e);
            },
        };
        let ghost g = grid@;
        let mut wc: u32 = 0;
        let mut bc: u32 = 0;
        let mut wkp: Square = (0, 0);
        let mut bkp: Square = (0, 0);
        let mut idx: usize = 0;
        while idx < 64
            invariant
                g == grid@,
                g.len() == 64,
                idx <= 64,
                wc <= idx,
                bc <= idx,
                wc as int == kings_before(g, Color::White, idx as int),
                bc as int == kings_before(g, Color::Black, idx as int),
                wc > 0 ==> is_king_at(g, Color::White, wkp),
                bc > 0 ==> is_king_at(g, Color::Black, bkp),
                wc == 0 ==> forall|j: int|
                    0 <= j < idx ==> #[trigger] g[j] != Some(king_of(Color::White)),
                bc == 0 ==> forall|j: int|
                    0 <= j < idx ==> #[trigger] g[j] != Some(king_of(Color::Black)),
                wc == 1 ==> forall|j: int|
                    0 <= j < idx && g[j] == Some(king_of(Color::White)) ==> j == 8 * (
                    wkp.0 as int) + (wkp.1 as int),
                bc == 1 ==> forall|j: int|
                    0 <= j < idx && g[j] == Some(king_of(Color::Black)) ==> j == 8 * (
                    bkp.0 as int) + (bkp.1 as int),
            decreases 64 - idx,
        {
            let is_wk = match grid[idx] {
                Some(p) => p.piece_kind == PieceKind::King && p.color == Color::White,
                None => false,
            };
            let is_bk = match grid[idx] {
                Some(p) => p.piece_kind == PieceKind::King && p.color == Color::Black,
                None => false,
            };
            proof {
                assert(is_wk == (g[idx as int] == Some(king_of(Color::White))));
                assert(is_bk == (g[idx as int] == Some(king_of(Color::Black))));
                assert(8 * ((idx / 8) as int) + ((idx % 8) as int) == idx as int);
            }
            if is_wk {
                wkp = (idx / 8, idx % 8);
                wc = wc + 1;
            }
            if is_bk {
                bkp = (idx / 8, idx % 8);
                bc = bc + 1;
            }
            idx = idx + 1;
        }
        if wc > 1 || bc > 1 {
            return Err(ParseFenError::MalformedPlacement(f0.to_owned()));
        }
        if fields.len() < 2 {
            return Err(ParseFenError::MalformedActiveTurn(String::new()));
        }
        let f1: &str = fields[1];
        proof {
            assert(fields.deep_view()[1] == fields@[1].deep_view());
            assert(f1@ == fseq[1]);
        }
        let turn = match parse_active_turn(f1) {
            Ok(c) => c,
            Err(e) => {
                return Err(e);
            },
        };
        let flags_raw = if fields.len() >= 3 {
            let f2: &str = fields[2];
            proof {
                assert(fields.deep_view()[2] == fields@[2].deep_view());
                assert(f2@ == fseq[2]);
            }
            CastleFlags::parse_castle_flags(f2)
        } else {
            CastleFlags {
                white_kingside: false,
                white_queenside: false,
                black_kingside: false,
                black_queenside: false,
            }
        };
        proof {
            assert(flags_raw == (if fseq.len() >= 3 {
                flags_of(fseq[2])
            } else {
                none_flags()
            }));
        }
        if fields.len() < 4 {
            return Err(ParseFenError::MalformedEnPassantSquare(String::new()));
        }
        let f3: &str = fields[3];
        proof {
            assert(fields.deep_view()[3] == fields@[3].deep_view());
            assert(f3@ == fseq[3]);
        }
        let ep = match parse_en_passant_target_square(f3) {
            Ok(sq) => sq,
            Err(e) => {
                return Err(e);
            },
        };
        let halfmove_clock: u64 = if fields.len() >= 5 {
            let f4: &str = fields[4];
            proof {
                assert(fields.deep_view()[4] == fields@[4].deep_view());
                assert(f4@ == fseq[4]);
            }
            crate::text::parse_clock_field(f4)
        } else {
            0
        };
        let fullmove_number: u64 = if fields.len() >= 6 {
            let f5: &str = fields[5];
            proof {
                assert(fields.deep_view()[5] == fields@[5].deep_view());
                assert(f5@ == fseq[5]);
            }
            crate::text::parse_clock_field(f5)
        } else {
            0
        };
        if wc == 0 || bc == 0 {
            return Err(ParseFenError::MissingKing);
        }
        let wk_home = match grid[60] {
            Some(p) => p == (Piece { piece_kind: PieceKind::King, color: Color::White }),
            None => false,
        };
        let bk_home = match grid[4] {
            Some(p) => p == (Piece { piece_kind: PieceKind::King, color: Color::Black }),
            None => false,
        };
        let wr_k = match grid[63] {
            Some(p) => p == (Piece { piece_kind: PieceKind::Rook, color: Color::White }),
            None => false,
        };
        let wr_q = match grid[56] {
            Some(p) => p == (Piece { piece_kind: PieceKind::Rook, color: Color::White }),
            None => false,
        };
        let br_k = match grid[7] {
            Some(p) => p == (Piece { piece_kind: PieceKind::Rook, color: Color::Black }),
            None => false,
        };
        let br_q = match grid[0] {
            Some(p) => p == (Piece { piece_kind: PieceKind::Rook, color: Color::Black }),
            None => false,
        };
        let castle_flags = CastleFlags {
            white_kingside: flags_raw.white_kingside && wk_home && wr_k,
            white_queenside: flags_raw.white_queenside && wk_home && wr_q,
            black_kingside: flags_raw.black_kingside && bk_home && br_k,
            black_queenside: flags_raw.black_queenside && bk_home && br_q,
        };
        proof {
            assert(castle_flags == clear_unavailable(
                g,
                if fseq.len() >= 3 {
                    flags_of(fseq[2])
                } else {
                    none_flags()
                },
            ));
        }
        let board = Board {
            state: grid,
            active_turn: turn,
            castle_flags,
            en_passant_square: ep,
            halfmove_clock,
            fullmove_number,
            history: Vec::new(),
            white_king_position: wkp,
            black_king_position: bkp,
        };
        proof {
            assert(is_king_at(g, Color::White, wkp));
            assert(is_king_at(g, Color::Black, bkp));
            let w = king_sq(g, Color::White);
            assert(is_king_at(g, Color::White, w)) by {
                assert(is_king_at(g, Color::White, wkp));
            }
            assert(w == wkp) by {
                assert(g[8 * (w.0 as int) + (w.1 as int)] == Some(king_of(Color::White)));
                assert(8 * (w.0 as int) + (w.1 as int) == 8 * (wkp.0 as int) + (wkp.1 as int));
            }
            let bsq = king_sq(g, Color::Black);
            assert(is_king_at(g, Color::Black, bsq)) by {
                assert(is_king_at(g, Color::Black, bkp));
            }
            assert(bsq == bkp) by {
                assert(g[8 * (bsq.0 as int) + (bsq.1 as int)] == Some(king_of(Color::Black)));
                assert(8 * (bsq.0 as int) + (bsq.1 as int) == 8 * (bkp.0 as int) + (bkp.1 as int));
            }
            assert forall|r2: int, f2: int|
                crate::board::on_board(r2, f2) && board@.is_king_of(Color::White, r2, f2) implies (
            r2, f2) == (wkp.0 as int, wkp.1 as int) by {
                assert(g[sq_idx(r2, f2)] == Some(king_of(Color::White)));
                assert(sq_idx(r2, f2) == 8 * (wkp.0 as int) + (wkp.1 as int));
            }
            assert forall|r2: int, f2: int|
                crate::board::on_board(r2, f2) && board@.is_king_of(Color::Black, r2, f2) implies (
            r2, f2) == (bkp.0 as int, bkp.1 as int) by {
                assert(g[sq_idx(r2, f2)] == Some(king_of(Color::Black)));
                assert(sq_idx(r2, f2) == 8 * (bkp.0 as int) + (bkp.1 as int));
            }
            assert(board.wf());
            assert(board@.history =~= Seq::<Move>::empty());
        }
        Ok(board)
    }
}

} // verus!
