//! The position record and its decoder.

use crate::decimal::parse_decimal;
use crate::error::{Fault, FenError, FenErrorKind};
use crate::laws::theorem_starting_record;
use crate::notation::{
    active_color_of, back_rank, castling_valid, clock_value, empty_squares, en_passant_of,
    fen_decode, is_castling_symbol, is_rank_symbol, lemma_expansion_of_prefix, placement_squares,
    rank_expansion, rank_squares, start_position, Position,
};
use crate::pieces::{piece_of_symbol, Color, Piece, PieceType};
use crate::text::{chars_of, piece_bounds, split_on};
use vstd::prelude::*;
use vstd::slice::slice_subrange;
use vstd::string::StrSliceExecFns;

verus! {

/// The record of the position from which every game starts.
pub const STARTING_FEN: &'static str = "rnbqkbnr/pppppppp/8/8/8/8/PPPPPPPP/RNBQKBNR w KQkq - 0 1";

/// A chess position: what stands on each square, whose move it is, which
/// castling rights remain, the en passant target and the two move counters.
///
/// `piece_placement` holds the squares from a8 (index 0) along each rank to
/// h1 (index 63); `en_passant_target` is an index into the same numbering.
#[derive(Clone, Debug, PartialEq, Eq)]
pub struct BoardState {
    pub piece_placement: Vec<Option<Piece>>,
    pub active_color: Color,
    pub white_castle_kingside: bool,
    pub white_castle_queenside: bool,
    pub black_castle_kingside: bool,
    pub black_castle_queenside: bool,
    pub en_passant_target: Option<u8>,
    pub halfmove_clock: u32,
    pub fullmove_clock: u32,
}

impl View for BoardState {
    type V = Position;

    open spec fn view(&self) -> Position {
        Position {
            squares: self.piece_placement@,
            active_color: self.active_color,
            white_kingside: self.white_castle_kingside,
            white_queenside: self.white_castle_queenside,
            black_kingside: self.black_castle_kingside,
            black_queenside: self.black_castle_queenside,
            en_passant: match self.en_passant_target {
                Some(i) => Some(i as nat),
                None => None,
            },
            halfmove: self.halfmove_clock as nat,
            fullmove: self.fullmove_clock as nat,
        }
    }
}

impl BoardState {
    /// The record is structurally sound: it has 64 squares, and its en
    /// passant target, if any, is one of them.
    pub open spec fn wf(&self) -> bool {
        self@.wf()
    }

    /// Tells whether the record is structurally sound.
    pub fn is_well_formed(&self) -> (sound: bool)
        ensures
            sound == self.wf(),
    {
        self.piece_placement.len() == 64 && match self.en_passant_target {
            Some(i) => i < 64,
            None => true,
        }
    }

    /// The position from which every game starts: the one that
    /// `STARTING_FEN` records. This never fails.
    pub fn new() -> (r: Result<BoardState, FenError>)
        ensures
            r matches Ok(state) && state@ == start_position() && state.wf(),
            fen_decode(STARTING_FEN@) == Ok::<Position, Fault>(start_position()),
    {
        proof {
            theorem_starting_record();
        }
        let mut squares: Vec<Option<Piece>> = Vec::new();
        Self::push_back_rank(&mut squares, Color::Black);
        let black_pawn = Piece { color: Color::Black, piece_type: PieceType::Pawn };
        let white_pawn = Piece { color: Color::White, piece_type: PieceType::Pawn };
        Self::push_run(&mut squares, Some(black_pawn), 8);
        Self::push_run(&mut squares, None, 32);
        Self::push_run(&mut squares, Some(white_pawn), 8);
        Self::push_back_rank(&mut squares, Color::White);
        assert(squares@ =~= start_position().squares);
        Ok(
            BoardState {
                piece_placement: squares,
                active_color: Color::White,
                white_castle_kingside: true,
                white_castle_queenside: true,
                black_castle_kingside: true,
                black_castle_queenside: true,
                en_passant_target: None,
                halfmove_clock: 0,
                fullmove_clock: 1,
            },
        )
    }

    /// Appends the eight pieces of a side's first rank, from file a to file h.
    fn push_back_rank(squares: &mut Vec<Option<Piece>>, color: Color)
        ensures
            final(squares)@ == old(squares)@ + back_rank(color),
    {
        squares.push(Some(Piece { color, piece_type: PieceType::Rook }));
        squares.push(Some(Piece { color, piece_type: PieceType::Knight }));
        squares.push(Some(Piece { color, piece_type: PieceType::Bishop }));
        squares.push(Some(Piece { color, piece_type: PieceType::Queen }));
        squares.push(Some(Piece { color, piece_type: PieceType::King }));
        squares.push(Some(Piece { color, piece_type: PieceType::Bishop }));
        squares.push(Some(Piece { color, piece_type: PieceType::Knight }));
        squares.push(Some(Piece { color, piece_type: PieceType::Rook }));
        assert(squares@ =~= old(squares)@ + back_rank(color));
    }

    /// Appends `count` squares that all hold `square`.
    fn push_run(squares: &mut Vec<Option<Piece>>, square: Option<Piece>, count: usize)
        ensures
            final(squares)@ == old(squares)@ + Seq::new(count as nat, |i: int| square),
    {
        let mut n: usize = 0;
        while n < count
            invariant
                n <= count,
                squares@ == old(squares)@ + Seq::new(n as nat, |i: int| square),
            decreases count - n,
        {
            squares.push(square);
            n += 1;
        }
    }

    /// Decodes a record.
    ///
    /// The record is cut at every space into fields: piece placement, active
    /// colour, castling, en passant, halfmove clock and fullmove number, in
    /// that order. A record with fewer than six fields is refused as
    /// malformed; otherwise the first field that cannot be read is reported,
    /// with its text. Fields after the sixth are ignored. A decoded record
    /// is always structurally sound; no rule of chess is checked.
    pub fn from_fen(fen: &str) -> (r: Result<BoardState, FenError>)
        ensures
            match r {
                Ok(state) => fen_decode(fen@) == Ok::<Position, Fault>(state@) && state.wf(),
                Err(e) => fen_decode(fen@) == Err::<Position, Fault>(e@),
            },
    {
        let text = chars_of(fen);
        let bounds = piece_bounds(text.as_slice(), ' ');
        if bounds.len() < 6 {
            return Err(FenError::MalformedRecord(fen.to_owned()));
        }
        let placement = fen.substring_char(bounds[0].0, bounds[0].1);
        let color = fen.substring_char(bounds[1].0, bounds[1].1);
        let castling = fen.substring_char(bounds[2].0, bounds[2].1);
        let en_passant = fen.substring_char(bounds[3].0, bounds[3].1);
        let halfmove = fen.substring_char(bounds[4].0, bounds[4].1);
        let fullmove = fen.substring_char(bounds[5].0, bounds[5].1);

        let piece_placement = match Self::create_board(placement) {
            Ok(squares) => squares,
            Err(e) => return Err(e),
        };
        let active_color = match Self::get_active_color(color) {
            Ok(color) => color,
            Err(e) => return Err(e),
        };
        let rights = match Self::get_castling(castling) {
            Ok(rights) => rights,
            Err(e) => return Err(e),
        };
        let en_passant_target = match Self::get_en_passant(en_passant) {
            Ok(target) => target,
            Err(e) => return Err(e),
        };
        let halfmove_clock = match Self::get_clock(halfmove) {
            Some(n) => n,
            None => return Err(FenError::BadHalfmove(halfmove.to_owned())),
        };
        let fullmove_clock = match Self::get_clock(fullmove) {
            Some(n) => n,
            None => return Err(FenError::BadFullmove(fullmove.to_owned())),
        };
        Ok(
            BoardState {
                piece_placement,
                active_color,
                white_castle_kingside: rights.0,
                white_castle_queenside: rights.1,
                black_castle_kingside: rights.2,
                black_castle_queenside: rights.3,
                en_passant_target,
                halfmove_clock,
                fullmove_clock,
            },
        )
    }

    /// The piece that a character of a placement field stands for: an
    /// upper-case letter of `PNBRQK` is a white piece, a lower-case one a
    /// black piece, and no other character is a piece.
    pub fn get_piece(piece: char) -> (found: Option<Piece>)
        ensures
            found == piece_of_symbol(piece),
    {
        match piece {
            'P' => Some(Piece { color: Color::White, piece_type: PieceType::Pawn }),
            'N' => Some(Piece { color: Color::White, piece_type: PieceType::Knight }),
            'B' => Some(Piece { color: Color::White, piece_type: PieceType::Bishop }),
            'R' => Some(Piece { color: Color::White, piece_type: PieceType::Rook }),
            'Q' => Some(Piece { color: Color::White, piece_type: PieceType::Queen }),
            'K' => Some(Piece { color: Color::White, piece_type: PieceType::King }),
            'p' => Some(Piece { color: Color::Black, piece_type: PieceType::Pawn }),
            'n' => Some(Piece { color: Color::Black, piece_type: PieceType::Knight }),
            'b' => Some(Piece { color: Color::Black, piece_type: PieceType::Bishop }),
            'r' => Some(Piece { color: Color::Black, piece_type: PieceType::Rook }),
            'q' => Some(Piece { color: Color::Black, piece_type: PieceType::Queen }),
            'k' => Some(Piece { color: Color::Black, piece_type: PieceType::King }),
            _ => None,
        }
    }

    /// Reads the active colour field: `w` is White, `b` is Black, and
    /// anything else is refused.
    pub fn get_active_color(field: &str) -> (r: Result<Color, FenError>)
        ensures
            match r {
                Ok(color) => active_color_of(field@) == Some(color),
                Err(e) => active_color_of(field@) is None && e@ == (Fault {
                    kind: FenErrorKind::BadActiveColor,
                    text: field@,
                }),
            },
    {
        if field.unicode_len() == 1 {
            let c = field.get_char(0);
            if c == 'w' {
                return Ok(Color::White);
            }
            if c == 'b' {
                return Ok(Color::Black);
            }
        }
        Err(FenError::BadActiveColor(field.to_owned()))
    }

    /// Reads the castling field. The field may hold the letters `K`, `Q`,
    /// `k`, `q` and dashes, in any order and number; any other character is
    /// refused. The four rights come back in the order white kingside, white
    /// queenside, black kingside, black queenside, each granted exactly when
    /// its letter occurs.
    pub fn get_castling(field: &str) -> (r: Result<(bool, bool, bool, bool), FenError>)
        ensures
            match r {
                Ok(rights) => {
                    &&& castling_valid(field@)
                    &&& rights.0 == field@.contains('K')
                    &&& rights.1 == field@.contains('Q')
                    &&& rights.2 == field@.contains('k')
                    &&& rights.3 == field@.contains('q')
                },
                Err(e) => !castling_valid(field@) && e@ == (Fault {
                    kind: FenErrorKind::BadCastling,
                    text: field@,
                }),
            },
    {
        let text = chars_of(field);
        let mut white_kingside = false;
        let mut white_queenside = false;
        let mut black_kingside = false;
        let mut black_queenside = false;
        let mut i: usize = 0;
        while i < text.len()
            invariant
                i <= text@.len(),
                text@ == field@,
                forall|j: int| 0 <= j < i ==> is_castling_symbol(#[trigger] text@[j]),
                white_kingside <==> exists|j: int| 0 <= j < i && #[trigger] text@[j] == 'K',
                white_queenside <==> exists|j: int| 0 <= j < i && #[trigger] text@[j] == 'Q',
                black_kingside <==> exists|j: int| 0 <= j < i && #[trigger] text@[j] == 'k',
                black_queenside <==> exists|j: int| 0 <= j < i && #[trigger] text@[j] == 'q',
            decreases text@.len() - i,
        {
            let c = text[i];
            if c == 'K' {
                white_kingside = true;
            } else if c == 'Q' {
                white_queenside = true;
            } else if c == 'k' {
                black_kingside = true;
            } else if c == 'q' {
                black_queenside = true;
            } else if c != '-' {
                assert(!is_castling_symbol(text@[i as int]));
                return Err(FenError::BadCastling(field.to_owned()));
            }
            i += 1;
        }
        Ok((white_kingside, white_queenside, black_kingside, black_queenside))
    }

    /// Reads the en passant field: a dash is no target, the name of a square
    /// is the index of that square, and anything else is refused.
    pub fn get_en_passant(field: &str) -> (r: Result<Option<u8>, FenError>)
        ensures
            match r {
                Ok(Some(i)) => en_passant_of(field@) == Some(Some(i as nat)) && i < 64,
                Ok(None) => en_passant_of(field@) == Some(None::<nat>),
                Err(e) => en_passant_of(field@) is None && e@ == (Fault {
                    kind: FenErrorKind::BadEnPassant,
                    text: field@,
                }),
            },
    {
        let text = chars_of(field);
        if text.len() == 1 && text[0] == '-' {
            return Ok(None);
        }
        if text.len() == 2 {
            let file = text[0];
            let rank = text[1];
            if 'a' <= file && file <= 'h' && '1' <= rank && rank <= '8' {
                let column: u32 = file as u32 - 'a' as u32;
                let row: u32 = '8' as u32 - rank as u32;
                return Ok(Some((8 * row + column) as u8));
            }
        }
        Err(FenError::BadEnPassant(field.to_owned()))
    }

    /// Reads a counter field: decimal digits, which one plus sign may
    /// precede. Leading zeros are allowed. The field is refused when it has
    /// no digit, holds any other character, or spells a number above
    /// `u32::MAX`.
    pub fn get_clock(field: &str) -> (value: Option<u32>)
        ensures
            match value {
                Some(n) => clock_value(field@) == Some(n as nat),
                None => clock_value(field@) is None,
            },
    {
        let text = chars_of(field);
        if text.len() > 0 && text[0] == '+' {
            parse_decimal(slice_subrange(text.as_slice(), 1, text.len()))
        } else {
            parse_decimal(text.as_slice())
        }
    }

    /// Reads one rank of a placement field: digits from 1 to 8 for runs of
    /// empty squares and piece symbols for occupied ones, eight squares in
    /// all.
    pub fn get_rank(rank: &[char]) -> (r: Option<Vec<Option<Piece>>>)
        ensures
            match r {
                Some(squares) => rank_squares(rank@) == Some(squares@),
                None => rank_squares(rank@) is None,
            },
    {
        let mut squares: Vec<Option<Piece>> = Vec::new();
        let mut i: usize = 0;
        while i < rank.len()
            invariant
                i <= rank@.len(),
                squares@.len() <= 8,
                squares@ == rank_expansion(rank@.take(i as int)),
                forall|j: int| 0 <= j < i ==> is_rank_symbol(#[trigger] rank@[j]),
            decreases rank@.len() - i,
        {
            let c = rank[i];
            let ghost seen = rank@.take(i as int + 1);
            proof {
                assert(seen.drop_last() == rank@.take(i as int));
                assert(seen.last() == c);
                lemma_expansion_of_prefix(rank@, i as int + 1);
            }
            if '1' <= c && c <= '8' {
                let run: usize = (c as u32 - '0' as u32) as usize;
                if run > 8 - squares.len() {
                    return None;
                }
                let ghost before = squares@;
                let mut n: usize = 0;
                while n < run
                    invariant
                        n <= run,
                        before.len() + run <= 8,
                        squares@ == before + empty_squares(n as nat),
                    decreases run - n,
                {
                    squares.push(None);
                    n += 1;
                }
            } else {
                match Self::get_piece(c) {
                    Some(piece) => {
                        if squares.len() >= 8 {
                            return None;
                        }
                        squares.push(Some(piece));
                    },
                    None => {
                        assert(!is_rank_symbol(rank@[i as int]));
                        return None;
                    },
                }
            }
            i += 1;
        }
        proof {
            assert(rank@.take(i as int) == rank@);
        }
        if squares.len() != 8 {
            return None;
        }
        Some(squares)
    }

    /// Reads the piece placement field: eight ranks separated by slashes,
    /// from the eighth rank down, each describing its eight squares from
    /// file a to file h. A well-formed field always yields 64 squares;
    /// any other text is refused.
    pub fn create_board(board: &str) -> (r: Result<Vec<Option<Piece>>, FenError>)
        ensures
            match r {
                Ok(squares) => placement_squares(board@) == Some(squares@) && squares@.len() == 64,
                Err(e) => placement_squares(board@) is None && e@ == (Fault {
                    kind: FenErrorKind::BadPieceNotation,
                    text: board@,
                }),
            },
    {
        let text = chars_of(board);
        let bounds = piece_bounds(text.as_slice(), '/');
        if bounds.len() != 8 {
            return Err(FenError::BadPieceNotation(board.to_owned()));
        }
        let ghost ranks = split_on(board@, '/');
        let mut squares: Vec<Option<Piece>> = Vec::new();
        let mut k: usize = 0;
        while k < 8
            invariant
                k <= 8,
                text@ == board@,
                ranks == split_on(board@, '/'),
                ranks.len() == 8,
                bounds@.len() == 8,
                forall|j: int|
                    0 <= j < 8 ==> {
                        &&& (#[trigger] bounds@[j]).0 <= bounds@[j].1 <= text@.len()
                        &&& text@.subrange(bounds@[j].0 as int, bounds@[j].1 as int) == ranks[j]
                    },
                squares@.len() == 8 * k,
                forall|j: int| 0 <= j < k ==> rank_squares(#[trigger] ranks[j]) is Some,
                forall|i: int|
                    0 <= i < 8 * k ==> squares@[i] == rank_squares(ranks[i / 8]).unwrap()[i % 8],
            decreases 8 - k,
        {
            let (from, to) = bounds[k];
            match Self::get_rank(slice_subrange(text.as_slice(), from, to)) {
                Some(mut rank) => {
                    let ghost before = squares@;
                    let ghost added = rank@;
                    squares.append(&mut rank);
                    assert forall|i: int| 0 <= i < 8 * (k + 1) implies squares@[i] == rank_squares(
                        ranks[i / 8],
                    ).unwrap()[i % 8] by {
                        if i < 8 * k {
                            assert(squares@[i] == before[i]);
                        } else {
                            assert(i / 8 == k as int);
                            assert(squares@[i] == added[i - 8 * k]);
                        }
                    }
                },
                None => {
                    assert(rank_squares(ranks[k as int]) is None);
                    return Err(FenError::BadPieceNotation(board.to_owned()));
                },
            }
            k += 1;
        }
        assert(squares@ =~= placement_squares(board@).unwrap());
        Ok(squares)
    }
}

} // verus!
