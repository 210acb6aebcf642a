use vstd::prelude::*;

verus! {

/// The side a piece belongs to, and the side to move.
#[derive(Clone, Copy, Debug, PartialEq, Eq, Structural)]
pub enum Color {
    White,
    Black,
}

/// The six kinds of chess piece.
#[derive(Clone, Copy, Debug, PartialEq, Eq, Structural)]
pub enum PieceType {
    Pawn,
    Knight,
    Bishop,
    Rook,
    Queen,
    King,
}

/// A piece standing on a square: its colour and its kind.
#[derive(Clone, Copy, Debug, PartialEq, Eq, Structural)]
pub struct Piece {
    pub color: Color,
    pub piece_type: PieceType,
}

impl PieceType {
    /// The upper-case letter of this kind of piece.
    pub open spec fn letter(self) -> char {
        match self {
            PieceType::Pawn => 'P',
            PieceType::Knight => 'N',
            PieceType::Bishop => 'B',
            PieceType::Rook => 'R',
            PieceType::Queen => 'Q',
            PieceType::King => 'K',
        }
    }
}

/// The kind of piece that an upper-case letter names, if it names one.
pub open spec fn piece_type_of_letter(c: char) -> Option<PieceType> {
    if c == 'P' {
        Some(PieceType::Pawn)
    } else if c == 'N' {
        Some(PieceType::Knight)
    } else if c == 'B' {
        Some(PieceType::Bishop)
    } else if c == 'R' {
        Some(PieceType::Rook)
    } else if c == 'Q' {
        Some(PieceType::Queen)
    } else if c == 'K' {
        Some(PieceType::King)
    } else {
        None
    }
}

/// The lower-case form of an upper-case ASCII letter.
pub open spec fn lower(c: char) -> char
    recommends
        'A' <= c <= 'Z',
{
    ((c as int) + 32) as char
}

impl Piece {
    /// The character that stands for this piece in a placement field:
    /// the letter of its kind, upper case for White and lower case for Black.
    pub open spec fn symbol(self) -> char {
        match self.color {
            Color::White => self.piece_type.letter(),
            Color::Black => lower(self.piece_type.letter()),
        }
    }
}

/// The piece that a character of a placement field stands for, if any.
pub open spec fn piece_of_symbol(c: char) -> Option<Piece> {
    if 'A' <= c <= 'Z' {
        match piece_type_of_letter(c) {
            Some(piece_type) => Some(Piece { color: Color::White, piece_type }),
            None => None,
        }
    } else if 'a' <= c <= 'z' {
        match piece_type_of_letter(((c as int) - 32) as char) {
            Some(piece_type) => Some(Piece { color: Color::Black, piece_type }),
            None => None,
        }
    } else {
        None
    }
}

/// Reading a piece's own symbol gives the piece back.
pub proof fn lemma_symbol_names_its_piece(p: Piece)
    ensures
        piece_of_symbol(p.symbol()) == Some(p),
{
}

/// A character names at most one piece, and that piece's symbol is the character.
pub proof fn lemma_piece_keeps_its_symbol(c: char, p: Piece)
    requires
        piece_of_symbol(c) == Some(p),
    ensures
        p.symbol() == c,
{
}

/// A piece's symbol is an ASCII letter: never a digit, a slash, a space or a dash.
pub proof fn lemma_symbol_is_a_letter(p: Piece)
    ensures
        'A' <= p.symbol() <= 'Z' || 'a' <= p.symbol() <= 'z',
{
}

} // verus!
