//! The FEN codec's building blocks: castling rights, the structured parse
//! errors, and the parsers for the individual FEN fields.

use vstd::prelude::*;

use crate::board::Square;
use crate::piece::is_piece_char;
use crate::piece::piece_of_char;
use crate::piece::Color;
use crate::piece::Piece;
use crate::text::is_digit;

verus! {

/// The standard initial position.
pub const START_FEN: &'static str = "rnbqkbnr/pppppppp/8/8/8/8/PPPPPPPP/RNBQKBNR w KQkq - 0 1";

/// The four independent castling rights.
#[derive(Debug, Copy, Clone, PartialEq, Eq, Structural)]
pub struct CastleFlags {
    pub white_kingside: bool,
    pub white_queenside: bool,
    pub black_kingside: bool,
    pub black_queenside: bool,
}

/// Why a FEN string was rejected; each parse failure names the raw text of
/// the offending field.
#[derive(Debug, Clone, PartialEq)]
pub enum ParseFenError {
    MalformedPlacement(String),
    MalformedActiveTurn(String),
    MalformedEnPassantSquare(String),
    MissingKing,
}

impl CastleFlags {
    /// Reads the FEN castle-rights field: each letter of K, Q, k, q sets the
    /// corresponding flag; every other character (in particular '-') sets
    /// nothing.
    pub fn parse_castle_flags(castle_flags: &str) -> (r: CastleFlags)
        ensures
            r.white_kingside == castle_flags@.contains('K'),
            r.white_queenside == castle_flags@.contains('Q'),
            r.black_kingside == castle_flags@.contains('k'),
            r.black_queenside == castle_flags@.contains('q'),
    {
        let mut white_kingside = false;
        let mut white_queenside = false;
        let mut black_kingside = false;
        let mut black_queenside = false;
        let n = castle_flags.unicode_len();
        let mut i: usize = 0;
        while i < n
            invariant
                n == castle_flags@.len(),
                i <= n,
                white_kingside == (exists|j: int| 0 <= j < i && castle_flags@[j] == 'K'),
                white_queenside == (exists|j: int| 0 <= j < i && castle_flags@[j] == 'Q'),
                black_kingside == (exists|j: int| 0 <= j < i && castle_flags@[j] == 'k'),
                black_queenside == (exists|j: int| 0 <= j < i && castle_flags@[j] == 'q'),
            decreases n - i,
        {
            let c = castle_flags.get_char(i);
            match c {
                'K' => white_kingside = true,
                'Q' => white_queenside = true,
                'k' => black_kingside = true,
                'q' => black_queenside = true,
                _ => (),
            }
            i = i + 1;
        }
        CastleFlags { white_kingside, white_queenside, black_kingside, black_queenside }
    }
}

/// The rights denoted by a FEN castle-rights field.
pub open spec fn flags_of(f: Seq<char>) -> CastleFlags {
    CastleFlags {
        white_kingside: f.contains('K'),
        white_queenside: f.contains('Q'),
        black_kingside: f.contains('k'),
        black_queenside: f.contains('q'),
    }
}

/// The color denoted by a FEN active-turn field: exactly "w" or "b".
pub open spec fn turn_of(f: Seq<char>) -> Option<Color> {
    if f.len() == 1 && f[0] == 'w' {
        Some(Color::White)
    } else if f.len() == 1 && f[0] == 'b' {
        Some(Color::Black)
    } else {
        None
    }
}

/// The en-passant target denoted by a FEN field: '-' for none, else an
/// algebraic square whose digit names the rank from the bottom.
pub open spec fn ep_of(f: Seq<char>) -> Option<Option<Square>> {
    if f.len() == 1 && f[0] == '-' {
        Some(None)
    } else if f.len() == 2 && 97 <= f[0] as u32 <= 104 && 49 <= f[1] as u32 <= 56 {
        Some(Some((((56 - f[1] as u32) as usize), ((f[0] as u32 - 97) as usize))))
    } else {
        None
    }
}

/// The all-empty grid.
pub open spec fn empty_grid() -> Seq<Option<Piece>> {
    Seq::new(64, |i: int| None::<Piece>)
}

/// One step of the placement scan: '/' closes a full rank, a digit skips
/// that many files, a piece letter places a piece; anything else, or a rank
/// that leaves the eight-file budget, fails.
pub open spec fn place_step(
    st: Option<(Seq<Option<Piece>>, int, int)>,
    c: char,
) -> Option<(Seq<Option<Piece>>, int, int)> {
    match st {
        None => None,
        Some(t) => {
            let g = t.0;
            let r = t.1;
            let f = t.2;
            if c == '/' {
                if f == 8 && r < 7 {
                    Some((g, r + 1, 0))
                } else {
                    None
                }
            } else if is_digit(c) {
                let d = c as u32 - 48;
                if f + d <= 8 {
                    Some((g, r, f + d))
                } else {
                    None
                }
            } else if is_piece_char(c) {
                if f < 8 {
                    Some((g.update(8 * r + f, Some(piece_of_char(c))), r, f + 1))
                } else {
                    None
                }
            } else {
                None
            }
        },
    }
}

/// The placement scan over a whole field, left to right.
pub open spec fn place_scan(s: Seq<char>) -> Option<(Seq<Option<Piece>>, int, int)>
    decreases s.len(),
{
    if s.len() == 0 {
        Some((empty_grid(), 0, 0))
    } else {
        place_step(place_scan(s.drop_last()), s.last())
    }
}

/// The grid denoted by a FEN placement field: the scan must succeed and end
/// having filled exactly eight ranks of eight files each.
pub open spec fn placement_grid(s: Seq<char>) -> Option<Seq<Option<Piece>>> {
    match place_scan(s) {
        Some(t) => if t.1 == 7 && t.2 == 8 {
            Some(t.0)
        } else {
            None
        },
        None => None,
    }
}

/// The placement scan continued from an arbitrary state.
pub open spec fn place_scan_from(
    st: Option<(Seq<Option<Piece>>, int, int)>,
    s: Seq<char>,
) -> Option<(Seq<Option<Piece>>, int, int)>
    decreases s.len(),
{
    if s.len() == 0 {
        st
    } else {
        place_step(place_scan_from(st, s.drop_last()), s.last())
    }
}

/// The whole-field scan is the scan from the initial state.
pub proof fn lemma_place_scan_is_from_init(s: Seq<char>)
    ensures
        place_scan(s) == place_scan_from(Some((empty_grid(), 0, 0)), s),
    decreases s.len(),
{
    if s.len() > 0 {
        lemma_place_scan_is_from_init(s.drop_last());
    }
}

/// Scanning a concatenation is scanning the pieces in turn.
pub proof fn lemma_place_scan_concat(
    st: Option<(Seq<Option<Piece>>, int, int)>,
    a: Seq<char>,
    b: Seq<char>,
)
    ensures
        place_scan_from(st, a + b) == place_scan_from(place_scan_from(st, a), b),
    decreases b.len(),
{
    if b.len() == 0 {
        assert(a + b =~= a);
    } else {
        assert((a + b).drop_last() =~= a + b.drop_last());
        assert((a + b).last() == b.last());
        lemma_place_scan_concat(st, a, b.drop_last());
    }
}

/// Scanning a single character is one step.
pub proof fn lemma_place_scan_from_one(st: Option<(Seq<Option<Piece>>, int, int)>, c: char)
    ensures
        place_scan_from(st, seq![c]) == place_step(st, c),
{
    reveal_with_fuel(place_scan_from, 2);
    assert(seq![c].drop_last() =~= Seq::<char>::empty());
    assert(place_scan_from(st, Seq::<char>::empty()) == st);
    assert(seq![c].last() == c);
}

/// A failed scan of any prefix fails the scan of the whole field.
pub proof fn lemma_place_scan_none(s: Seq<char>, j: int)
    requires
        0 <= j <= s.len(),
        place_scan(s.take(j)) is None,
    ensures
        place_scan(s) is None,
    decreases s.len() - j,
{
    if j == s.len() {
        assert(s.take(j) =~= s);
    } else {
        assert(s.take(j + 1).drop_last() =~= s.take(j));
        assert(s.take(j + 1).last() == s[j]);
        lemma_place_scan_none(s, j + 1);
    }
}

/// Whether `c` is one of the twelve FEN piece letters.
fn is_piece_char_exec(c: char) -> (r: bool)
    ensures
        r == is_piece_char(c),
{
    match c {
        'P' | 'N' | 'B' | 'R' | 'Q' | 'K' | 'p' | 'n' | 'b' | 'r' | 'q' | 'k' => true,
        _ => false,
    }
}

/// Reads a FEN placement field into a grid of 64 squares in rank-major
/// order; fails with `MalformedPlacement` on any letter outside the piece
/// alphabet or any rank that does not total exactly eight files.
pub fn parse_squares(ranks: &str) -> (res: Result<Vec<Option<Piece>>, ParseFenError>)
    ensures
        match placement_grid(ranks@) {
            Some(g) => res matches Ok(v) && v@ == g,
            None => res matches Err(e) && (e matches ParseFenError::MalformedPlacement(t) && t@
                == ranks@),
        },
        res matches Ok(v) ==> v@.len() == 64,
{
    let n = ranks.unicode_len();
    let mut grid: Vec<Option<Piece>> = Vec::new();
    let mut z: usize = 0;
    while z < 64
        invariant
            z <= 64,
            grid@.len() == z,
            forall|j: int| 0 <= j < z ==> grid@[j] is None,
        decreases 64 - z,
    {
        grid.push(None);
        z = z + 1;
    }
    proof {
        assert(grid@ =~= empty_grid());
    }
    let mut rk: usize = 0;
    let mut fl: usize = 0;
    let mut i: usize = 0;
    proof {
        assert(ranks@.take(0) =~= Seq::<char>::empty());
    }
    while i < n
        invariant
            n == ranks@.len(),
            i <= n,
            grid@.len() == 64,
            rk <= 7,
            fl <= 8,
            place_scan(ranks@.take(i as int)) == Some((grid@, rk as int, fl as int)),
        decreases n - i,
    {
        let c = ranks.get_char(i);
        proof {
            assert(ranks@.take(i as int + 1).drop_last() =~= ranks@.take(i as int));
            assert(ranks@.take(i as int + 1).last() == ranks@[i as int]);
        }
        let code = c as u32;
        if c == '/' {
            if fl == 8 && rk < 7 {
                rk = rk + 1;
                fl = 0;
            } else {
                proof {
                    lemma_place_scan_none(ranks@, i as int + 1);
                }
                return Err(ParseFenError::MalformedPlacement(ranks.to_owned()));
            }
        } else if 48 <= code && code <= 57 {
            let d = (code - 48) as usize;
            if fl + d <= 8 {
                fl = fl + d;
            } else {
                proof {
                    lemma_place_scan_none(ranks@, i as int + 1);
                }
                return Err(ParseFenError::MalformedPlacement(ranks.to_owned()));
            }
        } else if is_piece_char_exec(c) {
            if fl < 8 {
                grid[rk * 8 + fl] = Some(Piece::from_char(c));
                fl = fl + 1;
            } else {
                proof {
                    lemma_place_scan_none(ranks@, i as int + 1);
                }
                return Err(ParseFenError::MalformedPlacement(ranks.to_owned()));
            }
        } else {
            proof {
                lemma_place_scan_none(ranks@, i as int + 1);
            }
            return Err(ParseFenError::MalformedPlacement(ranks.to_owned()));
        }
        i = i + 1;
    }
    proof {
        assert(ranks@.take(n as int) =~= ranks@);
    }
    if rk == 7 && fl == 8 {
        Ok(grid)
    } else {
        Err(ParseFenError::MalformedPlacement(ranks.to_owned()))
    }
}

/// Reads the FEN active-turn field: exactly "w" or "b".
pub fn parse_active_turn(active_turn: &str) -> (res: Result<Color, ParseFenError>)
    ensures
        match turn_of(active_turn@) {
            Some(c) => res == Ok::<Color, ParseFenError>(c),
            None => res matches Err(e) && (e matches ParseFenError::MalformedActiveTurn(t) && t@
                == active_turn@),
        },
{
    let n = active_turn.unicode_len();
    if n == 1 {
        let c = active_turn.get_char(0);
        if c == 'w' {
            return Ok(Color::White);
        }
        if c == 'b' {
            return Ok(Color::Black);
        }
    }
    Err(ParseFenError::MalformedActiveTurn(active_turn.to_owned()))
}

/// Reads the FEN en-passant field: '-' for none, else an algebraic square.
pub fn parse_en_passant_target_square(en_passant_target_square: &str) -> (res: Result<
    Option<Square>,
    ParseFenError,
>)
    ensures
        match ep_of(en_passant_target_square@) {
            Some(sq) => res == Ok::<Option<Square>, ParseFenError>(sq),
            None => res matches Err(e) && (e matches ParseFenError::MalformedEnPassantSquare(t)
                && t@ == en_passant_target_square@),
        },
{
    let n = en_passant_target_square.unicode_len();
    if n == 1 {
        let c = en_passant_target_square.get_char(0);
        if c == '-' {
            return Ok(None);
        }
    }
    if n == 2 {
        let file_code = en_passant_target_square.get_char(0) as u32;
        let rank_code = en_passant_target_square.get_char(1) as u32;
        if 97 <= file_code && file_code <= 104 && 49 <= rank_code && rank_code <= 56 {
            let rank_idx = (56 - rank_code) as usize;
            let file_idx = (file_code - 97) as usize;
            return Ok(Some((rank_idx, file_idx)));
        }
    }
    Err(ParseFenError::MalformedEnPassantSquare(en_passant_target_square.to_owned()))
}

} // verus!
