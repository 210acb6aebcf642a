//! The notation itself: what each of the six fields of a record means, and
//! how a position is written down. Everything here is mathematics on
//! sequences of characters; the code that reads and writes strings is proved
//! against it.

use crate::decimal::{
    decimal_text, decimal_u32, digit_symbol, digit_value, is_digit, is_plain_numeral,
};
use crate::error::{Fault, FenErrorKind};
use crate::pieces::{piece_of_symbol, Color, Piece, PieceType};
use crate::text::{is_just, join_with, split_on};
use vstd::prelude::*;

verus! {

/// A position as the notation sees it.
///
/// `squares` runs rank by rank from the eighth rank down to the first, and
/// within a rank from file a to file h: square 0 is a8, square 7 is h8,
/// square 56 is a1 and square 63 is h1. The en passant target is an index
/// into the same numbering.
pub struct Position {
    pub squares: Seq<Option<Piece>>,
    pub active_color: Color,
    pub white_kingside: bool,
    pub white_queenside: bool,
    pub black_kingside: bool,
    pub black_queenside: bool,
    pub en_passant: Option<nat>,
    pub halfmove: nat,
    pub fullmove: nat,
}

impl Position {
    /// The position has 64 squares, its en passant target, if any, is one of
    /// them, and both counters fit in 32 bits.
    pub open spec fn wf(self) -> bool {
        &&& self.squares.len() == 64
        &&& self.en_passant matches Some(i) ==> i < 64
        &&& self.halfmove <= u32::MAX
        &&& self.fullmove <= u32::MAX
    }
}

/// The first rank of a side as it stands at the start of a game, from file a
/// to file h.
pub open spec fn back_rank(color: Color) -> Seq<Option<Piece>> {
    seq![
        Some(Piece { color, piece_type: PieceType::Rook }),
        Some(Piece { color, piece_type: PieceType::Knight }),
        Some(Piece { color, piece_type: PieceType::Bishop }),
        Some(Piece { color, piece_type: PieceType::Queen }),
        Some(Piece { color, piece_type: PieceType::King }),
        Some(Piece { color, piece_type: PieceType::Bishop }),
        Some(Piece { color, piece_type: PieceType::Knight }),
        Some(Piece { color, piece_type: PieceType::Rook }),
    ]
}

/// Eight pawns of a side.
pub open spec fn pawn_rank(color: Color) -> Seq<Option<Piece>> {
    Seq::new(8, |i: int| Some(Piece { color, piece_type: PieceType::Pawn }))
}

/// The position from which every game starts: Black's pieces and pawns on
/// the two top ranks, White's pawns and pieces on the two bottom ranks,
/// White to move, every castling right granted, no en passant target, no
/// halfmove counted and the first move about to be made.
pub open spec fn start_position() -> Position {
    Position {
        squares: back_rank(Color::Black) + pawn_rank(Color::Black) + empty_squares(32)
            + pawn_rank(Color::White) + back_rank(Color::White),
        active_color: Color::White,
        white_kingside: true,
        white_queenside: true,
        black_kingside: true,
        black_queenside: true,
        en_passant: None,
        halfmove: 0,
        fullmove: 1,
    }
}

// Piece placement, read.

/// `c` may stand in a rank: a digit from 1 to 8, or the symbol of a piece.
pub open spec fn is_rank_symbol(c: char) -> bool {
    '1' <= c <= '8' || piece_of_symbol(c) is Some
}

/// A run of `n` empty squares.
pub open spec fn empty_squares(n: nat) -> Seq<Option<Piece>> {
    Seq::new(n, |i: int| None)
}

/// The squares that one character of a rank describes: as many empty squares
/// as a digit says, or one square with the piece that a letter names.
pub open spec fn symbol_squares(c: char) -> Seq<Option<Piece>> {
    if is_digit(c) {
        empty_squares(digit_value(c))
    } else {
        seq![piece_of_symbol(c)]
    }
}

/// The squares that the characters of `rank` describe, from left to right.
pub open spec fn rank_expansion(rank: Seq<char>) -> Seq<Option<Piece>>
    decreases rank.len(),
{
    if rank.len() == 0 {
        Seq::empty()
    } else {
        rank_expansion(rank.drop_last()) + symbol_squares(rank.last())
    }
}

/// A rank describes at least as many squares as any of its prefixes.
pub proof fn lemma_expansion_of_prefix(rank: Seq<char>, n: int)
    requires
        0 <= n <= rank.len(),
    ensures
        rank_expansion(rank.take(n)).len() <= rank_expansion(rank).len(),
    decreases rank.len(),
{
    if n == rank.len() {
        assert(rank.take(n) == rank);
    } else {
        lemma_expansion_of_prefix(rank.drop_last(), n);
        assert(rank.drop_last().take(n) == rank.take(n));
    }
}

/// The eight squares of a rank, if `rank` describes exactly eight squares
/// with nothing but digits from 1 to 8 and piece symbols.
pub open spec fn rank_squares(rank: Seq<char>) -> Option<Seq<Option<Piece>>> {
    if (forall|i: int| 0 <= i < rank.len() ==> is_rank_symbol(#[trigger] rank[i]))
        && rank_expansion(rank).len() == 8 {
        Some(rank_expansion(rank))
    } else {
        None
    }
}

/// The 64 squares of a piece placement field, if the field is eight ranks
/// separated by slashes, each describing eight squares. The first rank of the
/// field is the eighth rank of the board.
pub open spec fn placement_squares(field: Seq<char>) -> Option<Seq<Option<Piece>>> {
    let ranks = split_on(field, '/');
    if ranks.len() == 8 && (forall|k: int|
        0 <= k < 8 ==> rank_squares(#[trigger] ranks[k]) is Some) {
        Some(Seq::new(64, |i: int| rank_squares(ranks[i / 8]).unwrap()[i % 8]))
    } else {
        None
    }
}

// Piece placement, written.

/// A run of `n` empty squares: nothing for none, else the digit for `n`.
pub open spec fn run_text(n: nat) -> Seq<char> {
    if n == 0 {
        Seq::empty()
    } else {
        seq![digit_symbol(n)]
    }
}

/// The text for `squares` when `pending` empty squares stand before them and
/// have not been written yet. An empty square lengthens the run; a piece, or
/// the end of the rank, writes the run out.
pub open spec fn rank_text_from(squares: Seq<Option<Piece>>, pending: nat) -> Seq<char>
    decreases squares.len(),
{
    if squares.len() == 0 {
        run_text(pending)
    } else {
        match squares.first() {
            None => rank_text_from(squares.drop_first(), pending + 1),
            Some(piece) => run_text(pending).push(piece.symbol()) + rank_text_from(
                squares.drop_first(),
                0,
            ),
        }
    }
}

/// The text of one rank: each piece by its symbol, each longest run of empty
/// squares by its length.
pub open spec fn rank_text(squares: Seq<Option<Piece>>) -> Seq<char> {
    rank_text_from(squares, 0)
}

/// The squares of the rank with index `k`, counting from the top of the board.
pub open spec fn rank_of(squares: Seq<Option<Piece>>, k: int) -> Seq<Option<Piece>> {
    squares.subrange(8 * k, 8 * k + 8)
}

/// The piece placement field of 64 squares: the eight ranks, top rank first,
/// with a slash between neighbours.
pub open spec fn placement_text(squares: Seq<Option<Piece>>) -> Seq<char> {
    join_with(Seq::new(8, |k: int| rank_text(rank_of(squares, k))), '/')
}

// Active colour.

/// The side to move that the field names: `w` is White and `b` is Black.
pub open spec fn active_color_of(field: Seq<char>) -> Option<Color> {
    if is_just(field, 'w') {
        Some(Color::White)
    } else if is_just(field, 'b') {
        Some(Color::Black)
    } else {
        None
    }
}

/// The field for a side to move.
pub open spec fn active_color_text(color: Color) -> Seq<char> {
    match color {
        Color::White => seq!['w'],
        Color::Black => seq!['b'],
    }
}

// Castling.

/// `c` may stand in a castling field.
pub open spec fn is_castling_symbol(c: char) -> bool {
    c == 'K' || c == 'Q' || c == 'k' || c == 'q' || c == '-'
}

/// The castling field holds nothing but `K`, `Q`, `k`, `q` and `-`. A right
/// is granted exactly when its letter occurs in the field.
pub open spec fn castling_valid(field: Seq<char>) -> bool {
    forall|i: int| 0 <= i < field.len() ==> is_castling_symbol(#[trigger] field[i])
}

/// One letter if the right is granted, nothing if it is not.
pub open spec fn right_text(letter: char, granted: bool) -> Seq<char> {
    if granted {
        seq![letter]
    } else {
        Seq::empty()
    }
}

/// The castling field for four rights: the letters of the granted ones in
/// the order `K`, `Q`, `k`, `q`, or a dash when none is granted.
pub open spec fn castling_text(
    white_kingside: bool,
    white_queenside: bool,
    black_kingside: bool,
    black_queenside: bool,
) -> Seq<char> {
    if !white_kingside && !white_queenside && !black_kingside && !black_queenside {
        seq!['-']
    } else {
        right_text('K', white_kingside) + right_text('Q', white_queenside) + right_text(
            'k',
            black_kingside,
        ) + right_text('q', black_queenside)
    }
}

// En passant.

/// `field` names a square: a file letter from a to h, then a rank digit from
/// 1 to 8.
pub open spec fn is_square_name(field: Seq<char>) -> bool {
    &&& field.len() == 2
    &&& 'a' <= field[0] <= 'h'
    &&& '1' <= field[1] <= '8'
}

/// The index of a named square: files count from a, ranks from the eighth
/// down, so a8 is 0 and h1 is 63.
pub open spec fn square_index(name: Seq<char>) -> nat
    recommends
        is_square_name(name),
{
    (8 * ('8' as int - name[1] as int) + (name[0] as int - 'a' as int)) as nat
}

/// The name of the square with index `i`.
pub open spec fn square_name(i: nat) -> Seq<char>
    recommends
        i < 64,
{
    seq![('a' as nat + i % 8) as char, ('8' as nat - i / 8) as char]
}

/// What the en passant field says, if it is well formed: no target for a
/// dash, the index of the square for a square's name.
pub open spec fn en_passant_of(field: Seq<char>) -> Option<Option<nat>> {
    if is_just(field, '-') {
        Some(None)
    } else if is_square_name(field) {
        Some(Some(square_index(field)))
    } else {
        None
    }
}

/// The en passant field for a target.
pub open spec fn en_passant_text(target: Option<nat>) -> Seq<char> {
    match target {
        None => seq!['-'],
        Some(i) => square_name(i),
    }
}

// The two counters.

/// The number in a counter field: a non-empty run of decimal digits, which
/// one plus sign may precede, whose value fits in 32 bits.
pub open spec fn clock_value(field: Seq<char>) -> Option<nat> {
    if field.len() > 0 && field[0] == '+' {
        decimal_u32(field.drop_first())
    } else {
        decimal_u32(field)
    }
}

// Canonical form.

/// No two digits stand side by side in `rank`: every run of empty squares is
/// written as one digit.
pub open spec fn is_canonical_rank(rank: Seq<char>) -> bool {
    forall|i: int, j: int|
        0 <= i && j == i + 1 && j < rank.len() ==> !(is_digit(#[trigger] rank[i]) && is_digit(
            #[trigger] rank[j],
        ))
}

/// Every rank of the placement field is canonical.
pub open spec fn is_canonical_placement(field: Seq<char>) -> bool {
    let ranks = split_on(field, '/');
    forall|k: int| 0 <= k < ranks.len() ==> is_canonical_rank(#[trigger] ranks[k])
}

/// Where a letter stands in the order `K`, `Q`, `k`, `q`.
pub open spec fn castling_rank(c: char) -> int {
    if c == 'K' {
        0
    } else if c == 'Q' {
        1
    } else if c == 'k' {
        2
    } else {
        3
    }
}

/// The castling field is a single dash, or one or more of the letters `K`,
/// `Q`, `k`, `q`, each at most once and in that order.
pub open spec fn is_canonical_castling(field: Seq<char>) -> bool {
    ||| is_just(field, '-')
    ||| {
        &&& field.len() >= 1
        &&& forall|i: int| 0 <= i < field.len() ==> #[trigger] field[i] != '-'
        &&& forall|i: int, j: int|
            0 <= i < j < field.len() ==> castling_rank(#[trigger] field[i]) < castling_rank(
                #[trigger] field[j],
            )
    }
}

/// The record is written the way `fen_encode` writes: exactly six fields,
/// every run of empty squares as one digit, the castling letters in order,
/// and both counters as plain numerals.
pub open spec fn is_canonical(record: Seq<char>) -> bool {
    let fields = split_on(record, ' ');
    &&& fields.len() == 6
    &&& is_canonical_placement(fields[0])
    &&& is_canonical_castling(fields[2])
    &&& is_plain_numeral(fields[4])
    &&& is_plain_numeral(fields[5])
}

// The record.

/// What a record decodes to.
///
/// The record is cut at every space. With fewer than six fields it is
/// malformed. Otherwise the first six are read in order, and the first one
/// that cannot be read decides the error, which carries that field. Fields
/// after the sixth are not looked at.
pub open spec fn fen_decode(record: Seq<char>) -> Result<Position, Fault> {
    let fields = split_on(record, ' ');
    if fields.len() < 6 {
        Err(Fault { kind: FenErrorKind::MalformedRecord, text: record })
    } else if placement_squares(fields[0]) is None {
        Err(Fault { kind: FenErrorKind::BadPieceNotation, text: fields[0] })
    } else if active_color_of(fields[1]) is None {
        Err(Fault { kind: FenErrorKind::BadActiveColor, text: fields[1] })
    } else if !castling_valid(fields[2]) {
        Err(Fault { kind: FenErrorKind::BadCastling, text: fields[2] })
    } else if en_passant_of(fields[3]) is None {
        Err(Fault { kind: FenErrorKind::BadEnPassant, text: fields[3] })
    } else if clock_value(fields[4]) is None {
        Err(Fault { kind: FenErrorKind::BadHalfmove, text: fields[4] })
    } else if clock_value(fields[5]) is None {
        Err(Fault { kind: FenErrorKind::BadFullmove, text: fields[5] })
    } else {
        Ok(
            Position {
                squares: placement_squares(fields[0]).unwrap(),
                active_color: active_color_of(fields[1]).unwrap(),
                white_kingside: fields[2].contains('K'),
                white_queenside: fields[2].contains('Q'),
                black_kingside: fields[2].contains('k'),
                black_queenside: fields[2].contains('q'),
                en_passant: en_passant_of(fields[3]).unwrap(),
                halfmove: clock_value(fields[4]).unwrap(),
                fullmove: clock_value(fields[5]).unwrap(),
            },
        )
    }
}

/// The record of a position: its six fields with one space between
/// neighbours.
pub open spec fn fen_encode(position: Position) -> Seq<char> {
    placement_text(position.squares) + seq![' '] + active_color_text(position.active_color)
        + seq![' '] + castling_text(
        position.white_kingside,
        position.white_queenside,
        position.black_kingside,
        position.black_queenside,
    ) + seq![' '] + en_passant_text(position.en_passant) + seq![' '] + decimal_text(
        position.halfmove,
    ) + seq![' '] + decimal_text(position.fullmove)
}

} // verus!
