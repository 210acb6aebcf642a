//! The encoder: a position written out as a record.

use crate::board::BoardState;
use crate::decimal::{decimal_string, digit_str};
use crate::notation::{
    castling_text, en_passant_text, fen_encode, placement_text, rank_of, rank_text,
    rank_text_from, square_name,
};
use crate::pieces::{Color, Piece, PieceType};
use crate::text::join_with;
use vstd::prelude::*;
use vstd::string::StringExecFns;

verus! {

/// Writing a position, and each part of one, in the notation.
pub trait ToFen {
    /// The record of a position: its six fields with one space between
    /// neighbours.
    fn to_fen(board_state: &BoardState) -> (fen: String)
        requires
            board_state.wf(),
        ensures
            fen@ == fen_encode(board_state@),
    ;

    /// The castling field: the letters of the granted rights in the order
    /// `K`, `Q`, `k`, `q`, or a dash when none is granted.
    fn castling_to_fen(
        white_kingside: bool,
        white_queenside: bool,
        black_kingside: bool,
        black_queenside: bool,
    ) -> (fen: String)
        ensures
            fen@ == castling_text(white_kingside, white_queenside, black_kingside, black_queenside),
    ;

    /// The piece placement field of 64 squares: eight ranks from the top of
    /// the board down, a slash between neighbours, each piece by its symbol
    /// and each longest run of empty squares within a rank by its length.
    fn piece_placement_to_fen(piece_placement: &[Option<Piece>]) -> (fen: String)
        requires
            piece_placement@.len() == 64,
        ensures
            fen@ == placement_text(piece_placement@),
    ;

    /// The symbol of a piece: the letter of its kind, upper case for White
    /// and lower case for Black.
    fn piece_to_fen(piece: &Piece) -> (fen: String)
        ensures
            fen@ == seq![piece.symbol()],
    ;

    /// The en passant field: a dash for no target, else the name of the
    /// target square.
    fn en_passant_to_fen(target: Option<u8>) -> (fen: String)
        requires
            target matches Some(i) ==> i < 64,
        ensures
            fen@ == en_passant_text(
                match target {
                    Some(i) => Some(i as nat),
                    None => None,
                },
            ),
    ;
}

/// The one-character string of a piece's symbol.
pub fn piece_str(piece: &Piece) -> (s: &'static str)
    ensures
        s@ == seq![piece.symbol()],
{
    proof {
        reveal_strlit("P");
        reveal_strlit("N");
        reveal_strlit("B");
        reveal_strlit("R");
        reveal_strlit("Q");
        reveal_strlit("K");
        reveal_strlit("p");
        reveal_strlit("n");
        reveal_strlit("b");
        reveal_strlit("r");
        reveal_strlit("q");
        reveal_strlit("k");
    }
    let s = match piece.piece_type {
        PieceType::Pawn => match piece.color {
            Color::White => "P",
            Color::Black => "p",
        },
        PieceType::Knight => match piece.color {
            Color::White => "N",
            Color::Black => "n",
        },
        PieceType::Bishop => match piece.color {
            Color::White => "B",
            Color::Black => "b",
        },
        PieceType::Rook => match piece.color {
            Color::White => "R",
            Color::Black => "r",
        },
        PieceType::Queen => match piece.color {
            Color::White => "Q",
            Color::Black => "q",
        },
        PieceType::King => match piece.color {
            Color::White => "K",
            Color::Black => "k",
        },
    };
    assert(s@ =~= seq![piece.symbol()]);
    s
}

/// The one-character string of a file, counted from file a as 0.
pub fn file_str(file: u8) -> (s: &'static str)
    requires
        file < 8,
    ensures
        s@ == seq![('a' as nat + file as nat) as char],
{
    proof {
        reveal_strlit("a");
        reveal_strlit("b");
        reveal_strlit("c");
        reveal_strlit("d");
        reveal_strlit("e");
        reveal_strlit("f");
        reveal_strlit("g");
        reveal_strlit("h");
    }
    let s = match file {
        0 => "a",
        1 => "b",
        2 => "c",
        3 => "d",
        4 => "e",
        5 => "f",
        6 => "g",
        _ => "h",
    };
    assert(s@ =~= seq![('a' as nat + file as nat) as char]);
    s
}

impl ToFen for BoardState {
    fn to_fen(board_state: &BoardState) -> (fen: String) {
        proof {
            reveal_strlit(" ");
            reveal_strlit("w");
            reveal_strlit("b");
        }
        let mut fen = BoardState::piece_placement_to_fen(board_state.piece_placement.as_slice());
        fen.append(" ");
        fen.append(
            match board_state.active_color {
                Color::White => "w",
                Color::Black => "b",
            },
        );
        fen.append(" ");
        fen.append(
            BoardState::castling_to_fen(
                board_state.white_castle_kingside,
                board_state.white_castle_queenside,
                board_state.black_castle_kingside,
                board_state.black_castle_queenside,
            ).as_str(),
        );
        fen.append(" ");
        fen.append(BoardState::en_passant_to_fen(board_state.en_passant_target).as_str());
        fen.append(" ");
        fen.append(decimal_string(board_state.halfmove_clock).as_str());
        fen.append(" ");
        fen.append(decimal_string(board_state.fullmove_clock).as_str());
        assert(" "@ =~= seq![' ']);
        assert("w"@ =~= seq!['w']);
        assert("b"@ =~= seq!['b']);
        fen
    }

    fn piece_placement_to_fen(piece_placement: &[Option<Piece>]) -> (fen: String) {
        let ghost squares = piece_placement@;
        let ghost ranks = Seq::new(8, |r: int| rank_text(rank_of(squares, r)));
        let mut fen = String::new();
        let mut k: usize = 0;
        while k < 8
            invariant
                k <= 8,
                squares == piece_placement@,
                squares.len() == 64,
                ranks == Seq::new(8, |r: int| rank_text(rank_of(squares, r))),
                fen@ == join_with(ranks.take(k as int), '/'),
            decreases 8 - k,
        {
            let ghost rank = rank_of(squares, k as int);
            if k > 0 {
                proof {
                    reveal_strlit("/");
                }
                fen.append("/");
                assert(fen@ == join_with(ranks.take(k as int), '/').push('/'));
            }
            let ghost before = fen@;
            // The empty squares seen since the last piece of this rank.
            let mut empty: u8 = 0;
            let mut file: usize = 0;
            assert(rank.skip(0) == rank);
            while file < 8
                invariant
                    k < 8,
                    file <= 8,
                    empty <= file,
                    squares == piece_placement@,
                    squares.len() == 64,
                    rank == rank_of(squares, k as int),
                    before + rank_text(rank) == fen@ + rank_text_from(
                        rank.skip(file as int),
                        empty as nat,
                    ),
                decreases 8 - file,
            {
                let ghost rest = rank.skip(file as int);
                proof {
                    assert(rest.first() == squares[8 * k + file]);
                    assert(rest.drop_first() == rank.skip(file as int + 1));
                }
                match piece_placement[8 * k + file] {
                    Some(piece) => {
                        if empty > 0 {
                            fen.append(digit_str(empty));
                            empty = 0;
                        }
                        fen.append(piece_str(&piece));
                    },
                    None => {
                        empty += 1;
                    },
                }
                file += 1;
            }
            if empty > 0 {
                fen.append(digit_str(empty));
            }
            proof {
                assert(rank.skip(8).len() == 0);
                assert(fen@ == before + rank_text(rank));
                let done = ranks.take(k as int + 1);
                assert(done.drop_last() == ranks.take(k as int));
                assert(done.last() == rank_text(rank));
            }
            k += 1;
        }
        proof {
            assert(ranks.take(8) == ranks);
        }
        fen
    }

    fn piece_to_fen(piece: &Piece) -> (fen: String) {
        piece_str(piece).to_owned()
    }

    fn castling_to_fen(
        white_kingside: bool,
        white_queenside: bool,
        black_kingside: bool,
        black_queenside: bool,
    ) -> (fen: String) {
        proof {
            reveal_strlit("K");
            reveal_strlit("Q");
            reveal_strlit("k");
            reveal_strlit("q");
            reveal_strlit("-");
        }
        let mut fen = String::new();
        if white_kingside {
            fen.append("K");
        }
        if white_queenside {
            fen.append("Q");
        }
        if black_kingside {
            fen.append("k");
        }
        if black_queenside {
            fen.append("q");
        }
        if !white_kingside && !white_queenside && !black_kingside && !black_queenside {
            fen.append("-");
        }
        assert(fen@ =~= castling_text(
            white_kingside,
            white_queenside,
            black_kingside,
            black_queenside,
        ));
        fen
    }

    fn en_passant_to_fen(target: Option<u8>) -> (fen: String) {
        match target {
            Some(square) => {
                let mut fen = file_str(square % 8).to_owned();
                fen.append(digit_str(8 - square / 8));
                assert(fen@ =~= square_name(square as nat));
                fen
            },
            None => {
                proof {
                    reveal_strlit("-");
                }
                let fen = "-".to_owned();
                assert(fen@ =~= seq!['-']);
                fen
            },
        }
    }
}

} // verus!
