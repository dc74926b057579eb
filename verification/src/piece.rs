//! Piece kinds, colors, and the FEN letter encoding of pieces.

use vstd::prelude::*;

verus! {

/// The two sides of a chess game.
#[derive(Debug, Copy, Clone, PartialEq, Eq, Structural)]
pub enum Color {
    White,
    Black,
}

/// The six kinds of chess pieces.
#[derive(Debug, Copy, Clone, PartialEq, Eq, Structural)]
pub enum PieceKind {
    Pawn,
    Knight,
    Bishop,
    Rook,
    Queen,
    King,
}

/// A piece is a kind together with a color; it has no identity beyond that.
#[derive(Debug, Copy, Clone, PartialEq, Eq, Structural)]
pub struct Piece {
    pub piece_kind: PieceKind,
    pub color: Color,
}

impl Color {
    /// The other side.
    pub open spec fn opposite(self) -> Color {
        match self {
            Color::White => Color::Black,
            Color::Black => Color::White,
        }
    }

    /// Returns the other side.
    pub fn invert(&self) -> (r: Color)
        ensures
            r == self.opposite(),
    {
        match self {
            Color::White => Color::Black,
            Color::Black => Color::White,
        }
    }

    /// Reads a FEN active-turn letter: 'w' is White, 'b' is Black.
    pub fn from_char(c: char) -> (r: Color)
        requires
            c == 'w' || c == 'b' || c == 'W' || c == 'B',
        ensures
            r == (if c == 'w' || c == 'W' {
                Color::White
            } else {
                Color::Black
            }),
    {
        if c == 'w' || c == 'W' {
            Color::White
        } else {
            Color::Black
        }
    }

    /// Reads a color from the case of a FEN piece letter: uppercase is White.
    pub fn from_char_case(c: char) -> (r: Color)
        ensures
            r == (if 'A' <= c && c <= 'Z' {
                Color::White
            } else {
                Color::Black
            }),
    {
        if 'A' <= c && c <= 'Z' {
            Color::White
        } else {
            Color::Black
        }
    }
}

/// Whether `c` is one of the twelve FEN piece letters.
pub open spec fn is_piece_char(c: char) -> bool {
    c == 'P' || c == 'N' || c == 'B' || c == 'R' || c == 'Q' || c == 'K' || c == 'p' || c == 'n'
        || c == 'b' || c == 'r' || c == 'q' || c == 'k'
}

/// The piece denoted by a FEN letter: letter identity gives the kind,
/// uppercase means White.
pub open spec fn piece_of_char(c: char) -> Piece
    recommends
        is_piece_char(c),
{
    let color = if c == 'P' || c == 'N' || c == 'B' || c == 'R' || c == 'Q' || c == 'K' {
        Color::White
    } else {
        Color::Black
    };
    let piece_kind = if c == 'P' || c == 'p' {
        PieceKind::Pawn
    } else if c == 'N' || c == 'n' {
        PieceKind::Knight
    } else if c == 'B' || c == 'b' {
        PieceKind::Bishop
    } else if c == 'R' || c == 'r' {
        PieceKind::Rook
    } else if c == 'Q' || c == 'q' {
        PieceKind::Queen
    } else {
        PieceKind::King
    };
    Piece { piece_kind, color }
}

/// The FEN letter of a piece: P/N/B/R/Q/K, lowercased for Black.
pub open spec fn char_of_piece(p: Piece) -> char {
    match (p.color, p.piece_kind) {
        (Color::White, PieceKind::Pawn) => 'P',
        (Color::White, PieceKind::Knight) => 'N',
        (Color::White, PieceKind::Bishop) => 'B',
        (Color::White, PieceKind::Rook) => 'R',
        (Color::White, PieceKind::Queen) => 'Q',
        (Color::White, PieceKind::King) => 'K',
        (Color::Black, PieceKind::Pawn) => 'p',
        (Color::Black, PieceKind::Knight) => 'n',
        (Color::Black, PieceKind::Bishop) => 'b',
        (Color::Black, PieceKind::Rook) => 'r',
        (Color::Black, PieceKind::Queen) => 'q',
        (Color::Black, PieceKind::King) => 'k',
    }
}

impl PieceKind {
    /// Reads a piece kind from a FEN letter of either case.
    pub fn from_char(c: char) -> (r: PieceKind)
        requires
            is_piece_char(c),
        ensures
            r == piece_of_char(c).piece_kind,
    {
        match c {
            'P' | 'p' => PieceKind::Pawn,
            'N' | 'n' => PieceKind::Knight,
            'B' | 'b' => PieceKind::Bishop,
            'R' | 'r' => PieceKind::Rook,
            'Q' | 'q' => PieceKind::Queen,
            _ => PieceKind::King,
        }
    }
}

impl Piece {
    /// Builds a piece from its kind and color.
    pub fn new(piece_kind: PieceKind, color: Color) -> (r: Piece)
        ensures
            r == (Piece { piece_kind, color }),
    {
        Piece { piece_kind, color }
    }

    /// The FEN letter of this piece.
    pub fn to_char(self) -> (r: char)
        ensures
            r == char_of_piece(self),
    {
        let c = match self.piece_kind {
            PieceKind::Pawn => 'P',
            PieceKind::Knight => 'N',
            PieceKind::Bishop => 'B',
            PieceKind::Rook => 'R',
            PieceKind::Queen => 'Q',
            PieceKind::King => 'K',
        };
        match self.color {
            Color::White => c,
            Color::Black => match c {
                'P' => 'p',
                'N' => 'n',
                'B' => 'b',
                'R' => 'r',
                'Q' => 'q',
                _ => 'k',
            },
        }
    }

    /// The piece denoted by a FEN letter.
    pub fn from_char(c: char) -> (r: Piece)
        requires
            is_piece_char(c),
        ensures
            r == piece_of_char(c),
    {
        let color = Color::from_char_case(c);
        let piece_kind = PieceKind::from_char(c);
        Piece { piece_kind, color }
    }
}

/// Writing a piece as its FEN letter and reading it back yields the piece.
pub proof fn lemma_piece_char_round_trip(p: Piece)
    ensures
        is_piece_char(char_of_piece(p)),
        piece_of_char(char_of_piece(p)) == p,
{
}

/// Reading a FEN piece letter and writing the piece back yields the letter.
pub proof fn lemma_char_piece_round_trip(c: char)
    requires
        is_piece_char(c),
    ensures
        char_of_piece(piece_of_char(c)) == c,
{
}

} // verus!
