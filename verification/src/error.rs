//! Why a record was refused.

use vstd::prelude::*;

verus! {

/// The ways in which decoding a record can fail, one for each thing that can
/// be wrong with it.
#[derive(Clone, Copy, Debug, PartialEq, Eq, Structural)]
pub enum FenErrorKind {
    /// The record has fewer than six fields.
    MalformedRecord,
    /// The piece placement field does not describe eight ranks of eight squares.
    BadPieceNotation,
    /// The active colour field is neither `w` nor `b`.
    BadActiveColor,
    /// The castling field holds a character other than `K`, `Q`, `k`, `q`, `-`.
    BadCastling,
    /// The en passant field is neither `-` nor the name of a square.
    BadEnPassant,
    /// The halfmove clock is not a number of 32 bits.
    BadHalfmove,
    /// The fullmove number is not a number of 32 bits.
    BadFullmove,
}

/// What an error says: its kind, and the text that was refused.
pub struct Fault {
    pub kind: FenErrorKind,
    pub text: Seq<char>,
}

/// A refused record. Each variant carries the text at fault: the field that
/// could not be read, or the whole record where fields are missing.
#[derive(Clone, Debug, PartialEq, Eq)]
pub enum FenError {
    MalformedRecord(String),
    BadPieceNotation(String),
    BadActiveColor(String),
    BadCastling(String),
    BadEnPassant(String),
    BadHalfmove(String),
    BadFullmove(String),
}

impl View for FenError {
    type V = Fault;

    open spec fn view(&self) -> Fault {
        match self {
            FenError::MalformedRecord(t) => Fault { kind: FenErrorKind::MalformedRecord, text: t@ },
            FenError::BadPieceNotation(t) => Fault {
                kind: FenErrorKind::BadPieceNotation,
                text: t@,
            },
            FenError::BadActiveColor(t) => Fault { kind: FenErrorKind::BadActiveColor, text: t@ },
            FenError::BadCastling(t) => Fault { kind: FenErrorKind::BadCastling, text: t@ },
            FenError::BadEnPassant(t) => Fault { kind: FenErrorKind::BadEnPassant, text: t@ },
            FenError::BadHalfmove(t) => Fault { kind: FenErrorKind::BadHalfmove, text: t@ },
            FenError::BadFullmove(t) => Fault { kind: FenErrorKind::BadFullmove, text: t@ },
        }
    }
}

impl FenErrorKind {
    /// The words that introduce an error of this kind in a message.
    pub open spec fn label(self) -> Seq<char> {
        match self {
            FenErrorKind::MalformedRecord => "Not enough FEN fields: "@,
            FenErrorKind::BadPieceNotation => "Piece notation error: "@,
            FenErrorKind::BadActiveColor => "Active color error: "@,
            FenErrorKind::BadCastling => "Castling error: "@,
            FenErrorKind::BadEnPassant => "En passant error: "@,
            FenErrorKind::BadHalfmove => "Halfmove error: "@,
            FenErrorKind::BadFullmove => "Fullmove error: "@,
        }
    }
}

impl FenError {
    /// Which of the seven failures this is.
    pub fn kind(&self) -> (kind: FenErrorKind)
        ensures
            kind == self@.kind,
    {
        match self {
            FenError::MalformedRecord(_) => FenErrorKind::MalformedRecord,
            FenError::BadPieceNotation(_) => FenErrorKind::BadPieceNotation,
            FenError::BadActiveColor(_) => FenErrorKind::BadActiveColor,
            FenError::BadCastling(_) => FenErrorKind::BadCastling,
            FenError::BadEnPassant(_) => FenErrorKind::BadEnPassant,
            FenError::BadHalfmove(_) => FenErrorKind::BadHalfmove,
            FenError::BadFullmove(_) => FenErrorKind::BadFullmove,
        }
    }

    /// The text that was refused.
    pub fn text(&self) -> (text: &str)
        ensures
            text@ == self@.text,
    {
        match self {
            FenError::MalformedRecord(t) => t.as_str(),
            FenError::BadPieceNotation(t) => t.as_str(),
            FenError::BadActiveColor(t) => t.as_str(),
            FenError::BadCastling(t) => t.as_str(),
            FenError::BadEnPassant(t) => t.as_str(),
            FenError::BadHalfmove(t) => t.as_str(),
            FenError::BadFullmove(t) => t.as_str(),
        }
    }

    /// The error as a line for a person to read: the label of its kind, then
    /// the refused text.
    pub fn message(&self) -> (line: String)
        ensures
            line@ == self@.kind.label() + self@.text,
    {
        let label = match self {
            FenError::MalformedRecord(_) => "Not enough FEN fields: ",
            FenError::BadPieceNotation(_) => "Piece notation error: ",
            FenError::BadActiveColor(_) => "Active color error: ",
            FenError::BadCastling(_) => "Castling error: ",
            FenError::BadEnPassant(_) => "En passant error: ",
            FenError::BadHalfmove(_) => "Halfmove error: ",
            FenError::BadFullmove(_) => "Fullmove error: ",
        };
        let mut line = label.to_owned();
        line.append(self.text());
        line
    }
}

} // verus!
