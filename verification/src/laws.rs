//! What holds of the notation: reading what was written gives the position
//! back, writing what was read gives a canonical record back, and what is
//! written is canonical.

use crate::board::STARTING_FEN;
use crate::decimal::{
    decimal_text, digit_symbol, digit_value, is_digit, is_plain_numeral, lemma_text_of_value,
    lemma_value_of_text,
};
use crate::error::{Fault, FenErrorKind};
use crate::notation::{
    active_color_of, active_color_text, back_rank, castling_rank, castling_text, castling_valid,
    clock_value, empty_squares, en_passant_of, en_passant_text, fen_decode, fen_encode,
    is_canonical, is_canonical_castling, is_canonical_placement, is_canonical_rank,
    is_castling_symbol, is_rank_symbol, is_square_name, pawn_rank, placement_squares,
    placement_text, rank_expansion, rank_of, rank_squares, rank_text, rank_text_from, right_text,
    run_text, square_index, square_name, start_position, symbol_squares, Position,
};
use crate::pieces::{
    lemma_piece_keeps_its_symbol, lemma_symbol_is_a_letter, lemma_symbol_names_its_piece,
    piece_of_symbol, Color, Piece,
};
use crate::text::{
    free_of, is_just, join_with, lemma_char_in_piece, lemma_join_free_of, lemma_join_of_push,
    lemma_join_of_split, lemma_split_of_join, split_on,
};
use vstd::prelude::*;

verus! {

// Ranks.

/// The squares of two texts written one after the other are the squares of
/// the first followed by the squares of the second.
pub proof fn lemma_expansion_of_concat(a: Seq<char>, b: Seq<char>)
    ensures
        rank_expansion(a + b) == rank_expansion(a) + rank_expansion(b),
    decreases b.len(),
{
    if b.len() == 0 {
        assert(a + b == a);
    } else {
        lemma_expansion_of_concat(a, b.drop_last());
        assert((a + b).drop_last() == a + b.drop_last());
    }
}

/// A text of one character describes the squares of that character.
pub proof fn lemma_expansion_of_one(c: char)
    ensures
        rank_expansion(seq![c]) == symbol_squares(c),
{
    let s = seq![c];
    assert(s.drop_last() == Seq::<char>::empty());
    assert(rank_expansion(s.drop_last()) == Seq::<Option<Piece>>::empty());
    assert(s.last() == c);
}

/// What is written for a rank reads back as that rank: the text holds
/// nothing but digits from 1 to 8 and piece symbols, and describes the
/// pending empty squares followed by the squares written.
pub proof fn lemma_rank_read_back(squares: Seq<Option<Piece>>, pending: nat)
    requires
        pending + squares.len() <= 8,
    ensures
        forall|i: int|
            0 <= i < rank_text_from(squares, pending).len() ==> is_rank_symbol(
                #[trigger] rank_text_from(squares, pending)[i],
            ),
        rank_expansion(rank_text_from(squares, pending)) == empty_squares(pending) + squares,
    decreases squares.len(),
{
    let text = rank_text_from(squares, pending);
    if squares.len() == 0 {
        if pending > 0 {
            lemma_expansion_of_one(digit_symbol(pending));
        }
    } else {
        let rest = squares.drop_first();
        match squares.first() {
            None => {
                lemma_rank_read_back(rest, pending + 1);
                assert(empty_squares(pending + 1) + rest == empty_squares(pending) + squares);
            },
            Some(piece) => {
                lemma_rank_read_back(rest, 0);
                lemma_symbol_names_its_piece(piece);
                lemma_symbol_is_a_letter(piece);
                let run = run_text(pending);
                let tail = rank_text_from(rest, 0);
                assert(text == run.push(piece.symbol()) + tail);
                assert(run.push(piece.symbol()) == run + seq![piece.symbol()]);
                lemma_expansion_of_concat(run.push(piece.symbol()), tail);
                lemma_expansion_of_concat(run, seq![piece.symbol()]);
                lemma_expansion_of_one(piece.symbol());
                if pending > 0 {
                    lemma_expansion_of_one(digit_symbol(pending));
                }
                assert(rank_expansion(run) == empty_squares(pending));
                assert(rank_expansion(tail) == rest) by {
                    assert(empty_squares(0) + rest == rest);
                }
                assert(empty_squares(pending) + seq![Some(piece)] + rest == empty_squares(pending)
                    + squares);
            },
        }
    }
}

/// A rank of eight squares, written and read, is the same rank.
pub proof fn lemma_rank_squares_of_text(squares: Seq<Option<Piece>>)
    requires
        squares.len() == 8,
    ensures
        rank_squares(rank_text(squares)) == Some(squares),
{
    lemma_rank_read_back(squares, 0);
    assert(empty_squares(0) + squares == squares);
}

/// Empty squares in front of a rank only lengthen the pending run.
pub proof fn lemma_text_after_empties(count: nat, squares: Seq<Option<Piece>>, pending: nat)
    ensures
        rank_text_from(empty_squares(count) + squares, pending) == rank_text_from(
            squares,
            pending + count,
        ),
    decreases count,
{
    let all = empty_squares(count) + squares;
    if count == 0 {
        assert(all == squares);
    } else {
        assert(all.first() == None::<Piece>);
        assert(all.drop_first() == empty_squares((count - 1) as nat) + squares);
        lemma_text_after_empties((count - 1) as nat, squares, pending + 1);
    }
}

/// The squares that a canonical rank describes are written as that rank.
/// With a run pending, the rank must not start with a digit, and the run is
/// written in front of it.
pub proof fn lemma_rank_written_back(rank: Seq<char>, pending: nat)
    requires
        forall|i: int| 0 <= i < rank.len() ==> is_rank_symbol(#[trigger] rank[i]),
        is_canonical_rank(rank),
        pending > 0 && rank.len() > 0 ==> !is_digit(rank[0]),
    ensures
        rank_text_from(rank_expansion(rank), pending) == run_text(pending) + rank,
    decreases rank.len(),
{
    if rank.len() == 0 {
        assert(run_text(pending) + rank == run_text(pending));
    } else {
        let c = rank[0];
        let rest = rank.drop_first();
        let squares = rank_expansion(rest);
        assert(rank == seq![c] + rest);
        lemma_expansion_of_concat(seq![c], rest);
        lemma_expansion_of_one(c);
        assert(is_rank_symbol(c));
        assert forall|i: int| 0 <= i < rest.len() implies is_rank_symbol(#[trigger] rest[i]) by {
            assert(rest[i] == rank[i + 1]);
        }
        assert(is_canonical_rank(rest)) by {
            assert forall|i: int, j: int| 0 <= i && j == i + 1 && j < rest.len() implies !(is_digit(
                #[trigger] rest[i],
            ) && is_digit(#[trigger] rest[j])) by {
                assert(rest[i] == rank[i + 1]);
                assert(rest[j] == rank[j + 1]);
            }
        }
        if is_digit(c) {
            let run = digit_value(c);
            assert(digit_symbol(run) == c);
            if rest.len() > 0 {
                assert(rest[0] == rank[1]);
                assert(!(is_digit(rank[0]) && is_digit(rank[1])));
            }
            lemma_text_after_empties(run, squares, 0);
            lemma_rank_written_back(rest, run);
            assert(run_text(run) + rest == rank);
            assert(run_text(0) + rank == rank);
        } else {
            let piece = piece_of_symbol(c).unwrap();
            lemma_piece_keeps_its_symbol(c, piece);
            let all = seq![Some(piece)] + squares;
            assert(all.first() == Some(piece));
            assert(all.drop_first() == squares);
            lemma_rank_written_back(rest, 0);
            assert(run_text(0) + rest == rest);
            assert(run_text(pending).push(c) + rest == run_text(pending) + rank);
        }
    }
}

/// A canonical rank is exactly the text of the squares it describes.
pub proof fn lemma_rank_text_of_squares(rank: Seq<char>)
    requires
        rank_squares(rank) is Some,
        is_canonical_rank(rank),
    ensures
        rank_text(rank_squares(rank).unwrap()) == rank,
{
    lemma_rank_written_back(rank, 0);
    assert(run_text(0) + rank == rank);
}

/// What is written for a rank is canonical: no two digits side by side.
pub proof fn lemma_rank_text_is_canonical(squares: Seq<Option<Piece>>, pending: nat)
    ensures
        is_canonical_rank(rank_text_from(squares, pending)),
    decreases squares.len(),
{
    let text = rank_text_from(squares, pending);
    if squares.len() > 0 {
        let rest = squares.drop_first();
        match squares.first() {
            None => {
                lemma_rank_text_is_canonical(rest, pending + 1);
            },
            Some(piece) => {
                lemma_rank_text_is_canonical(rest, 0);
                lemma_symbol_is_a_letter(piece);
                let head = run_text(pending).push(piece.symbol());
                let tail = rank_text_from(rest, 0);
                assert(text == head + tail);
                assert forall|i: int, j: int| 0 <= i && j == i + 1 && j < text.len() implies !(
                is_digit(#[trigger] text[i]) && is_digit(#[trigger] text[j])) by {
                    if j < head.len() {
                        assert(text[j] == piece.symbol());
                    } else if i < head.len() {
                        assert(text[i] == piece.symbol());
                    } else {
                        assert(text[i] == tail[i - head.len()]);
                        assert(text[j] == tail[j - head.len()]);
                    }
                }
            },
        }
    }
}

// Piece placement.

/// The text of a rank holds neither a slash nor a space.
pub proof fn lemma_rank_text_is_one_piece(squares: Seq<Option<Piece>>)
    requires
        squares.len() == 8,
    ensures
        free_of(rank_text(squares), '/'),
        free_of(rank_text(squares), ' '),
{
    lemma_rank_read_back(squares, 0);
    let text = rank_text(squares);
    assert forall|i: int| 0 <= i < text.len() implies text[i] != '/' && text[i] != ' ' by {
        assert(is_rank_symbol(text[i]));
    }
}

/// The texts of the eight ranks of a board, top rank first.
pub open spec fn rank_texts(squares: Seq<Option<Piece>>) -> Seq<Seq<char>> {
    Seq::new(8, |k: int| rank_text(rank_of(squares, k)))
}

/// The placement field written for 64 squares falls into the texts of its
/// eight ranks, and holds no space.
pub proof fn lemma_placement_text_ranks(squares: Seq<Option<Piece>>)
    requires
        squares.len() == 64,
    ensures
        split_on(placement_text(squares), '/') == rank_texts(squares),
        free_of(placement_text(squares), ' '),
{
    let texts = rank_texts(squares);
    assert forall|k: int| 0 <= k < texts.len() implies free_of(#[trigger] texts[k], '/')
        && free_of(texts[k], ' ') by {
        lemma_rank_text_is_one_piece(rank_of(squares, k));
    }
    lemma_split_of_join(texts, '/');
    lemma_join_free_of(texts, '/', ' ');
}

/// 64 squares, written as a placement field and read, are the same squares.
pub proof fn lemma_placement_squares_of_text(squares: Seq<Option<Piece>>)
    requires
        squares.len() == 64,
    ensures
        placement_squares(placement_text(squares)) == Some(squares),
{
    let texts = rank_texts(squares);
    lemma_placement_text_ranks(squares);
    assert forall|k: int| 0 <= k < 8 implies rank_squares(#[trigger] texts[k]) == Some(
        rank_of(squares, k),
    ) by {
        lemma_rank_squares_of_text(rank_of(squares, k));
    }
    let read = placement_squares(placement_text(squares)).unwrap();
    assert forall|i: int| 0 <= i < 64 implies read[i] == squares[i] by {
        assert(rank_squares(texts[i / 8]) == Some(rank_of(squares, i / 8)));
        assert(rank_of(squares, i / 8)[i % 8] == squares[8 * (i / 8) + i % 8]);
    }
    assert(read =~= squares);
}

/// A canonical placement field is exactly the text of the squares it
/// describes.
pub proof fn lemma_placement_text_of_squares(field: Seq<char>)
    requires
        placement_squares(field) is Some,
        is_canonical_placement(field),
    ensures
        placement_text(placement_squares(field).unwrap()) == field,
{
    let ranks = split_on(field, '/');
    let squares = placement_squares(field).unwrap();
    let texts = rank_texts(squares);
    assert forall|k: int| 0 <= k < 8 implies #[trigger] texts[k] == ranks[k] by {
        let rank = rank_squares(ranks[k]).unwrap();
        assert(rank_squares(ranks[k]) is Some);
        assert(rank.len() == 8);
        assert forall|j: int| 0 <= j < 8 implies rank_of(squares, k)[j] == rank[j] by {
            let i = 8 * k + j;
            assert(i / 8 == k && i % 8 == j);
            assert(squares[i] == rank_squares(ranks[i / 8]).unwrap()[i % 8]);
        }
        assert(rank_of(squares, k) =~= rank);
        assert(is_canonical_rank(ranks[k]));
        lemma_rank_text_of_squares(ranks[k]);
    }
    assert(texts =~= ranks);
    lemma_join_of_split(field, '/');
}

/// The placement field written for 64 squares is canonical.
pub proof fn lemma_placement_text_is_canonical(squares: Seq<Option<Piece>>)
    requires
        squares.len() == 64,
    ensures
        is_canonical_placement(placement_text(squares)),
{
    lemma_placement_text_ranks(squares);
    let ranks = split_on(placement_text(squares), '/');
    assert forall|k: int| 0 <= k < ranks.len() implies is_canonical_rank(#[trigger] ranks[k]) by {
        lemma_rank_text_is_canonical(rank_of(squares, k), 0);
    }
}

/// A placement field with a character that is neither a slash, nor a digit
/// from 1 to 8, nor the symbol of a piece, is refused.
pub proof fn lemma_bad_symbol_is_refused(field: Seq<char>, i: int)
    requires
        0 <= i < field.len(),
        field[i] != '/',
        !is_rank_symbol(field[i]),
    ensures
        placement_squares(field) is None,
{
    let at = lemma_char_in_piece(field, '/', i);
    let ranks = split_on(field, '/');
    assert(!is_rank_symbol(ranks[at.0][at.1]));
    assert(rank_squares(ranks[at.0]) is None);
}

// Active colour.

/// The field written for a side to move reads back as that side, and holds
/// no space.
pub proof fn lemma_active_color_read_back(color: Color)
    ensures
        active_color_of(active_color_text(color)) == Some(color),
        free_of(active_color_text(color), ' '),
{
    let field = active_color_text(color);
    match color {
        Color::White => {
            assert(field[0] == 'w');
        },
        Color::Black => {
            assert(field[0] == 'b');
            
        },
    }
}

/// A well-formed active colour field is exactly what is written for the side
/// it names.
pub proof fn lemma_active_color_written_back(field: Seq<char>)
    requires
        active_color_of(field) is Some,
    ensures
        active_color_text(active_color_of(field).unwrap()) == field,
{
}

// Castling.

/// The castling field written for four rights is well formed, grants exactly
/// those rights, is canonical and holds no space.
pub proof fn lemma_castling_read_back(
    white_kingside: bool,
    white_queenside: bool,
    black_kingside: bool,
    black_queenside: bool,
)
    ensures
        ({
            let field = castling_text(
                white_kingside,
                white_queenside,
                black_kingside,
                black_queenside,
            );
            &&& castling_valid(field)
            &&& field.contains('K') == white_kingside
            &&& field.contains('Q') == white_queenside
            &&& field.contains('k') == black_kingside
            &&& field.contains('q') == black_queenside
            &&& is_canonical_castling(field)
            &&& free_of(field, ' ')
        }),
{
    let field = castling_text(white_kingside, white_queenside, black_kingside, black_queenside);
    let a = right_text('K', white_kingside);
    let b = right_text('Q', white_queenside);
    let c = right_text('k', black_kingside);
    let d = right_text('q', black_queenside);
    if !white_kingside && !white_queenside && !black_kingside && !black_queenside {
        assert(field[0] == '-');
    } else {
        assert(field == a + b + c + d);
        if white_kingside {
            assert(field[0] == 'K');
        }
        if white_queenside {
            assert(field[a.len() as int] == 'Q');
        }
        if black_kingside {
            assert(field[(a.len() + b.len()) as int] == 'k');
        }
        if black_queenside {
            assert(field[(a.len() + b.len() + c.len()) as int] == 'q');
        }
        assert forall|i: int| 0 <= i < field.len() implies {
            &&& i < a.len() ==> field[i] == 'K'
            &&& a.len() <= i < a.len() + b.len() ==> field[i] == 'Q'
            &&& a.len() + b.len() <= i < a.len() + b.len() + c.len() ==> field[i] == 'k'
            &&& a.len() + b.len() + c.len() <= i ==> field[i] == 'q'
        } by {}
    }
}

/// A canonical castling field is exactly what is written for the rights it
/// grants.
pub proof fn lemma_castling_written_back(field: Seq<char>)
    requires
        castling_valid(field),
        is_canonical_castling(field),
    ensures
        castling_text(
            field.contains('K'),
            field.contains('Q'),
            field.contains('k'),
            field.contains('q'),
        ) == field,
{
    let text = castling_text(
        field.contains('K'),
        field.contains('Q'),
        field.contains('k'),
        field.contains('q'),
    );
    if is_just(field, '-') {
        assert(field[0] == '-');
        assert(text =~= field);
    } else {
        // The letters rise in rank, so the letter at place i has rank at least i.
        assert(castling_rank(field[0]) >= 0);
        if field.len() > 1 {
            assert(castling_rank(field[1]) >= 1);
        }
        if field.len() > 2 {
            assert(castling_rank(field[2]) >= 2);
        }
        if field.len() > 3 {
            assert(castling_rank(field[3]) >= 3);
        }
        if field.len() > 4 {
            assert(castling_rank(field[4]) > castling_rank(field[3]));
        }
        assert(field.len() <= 4);
        assert(is_castling_symbol(field[0]));
        if field.len() > 1 {
            assert(is_castling_symbol(field[1]));
        }
        if field.len() > 2 {
            assert(is_castling_symbol(field[2]));
        }
        if field.len() > 3 {
            assert(is_castling_symbol(field[3]));
        }
        assert(text =~= field);
    }
}

// En passant.

/// The name written for a square reads back as that square, and the dash as
/// no square. Neither holds a space.
pub proof fn lemma_en_passant_read_back(target: Option<nat>)
    requires
        target matches Some(i) ==> i < 64,
    ensures
        en_passant_of(en_passant_text(target)) == Some(target),
        free_of(en_passant_text(target), ' '),
{
    let field = en_passant_text(target);
    match target {
        None => {
            assert(field[0] == '-');
        },
        Some(i) => {
            assert(field[0] == ('a' as nat + i % 8) as char);
            assert(field[1] == ('8' as nat - i / 8) as char);
            
            assert(is_square_name(field));
            assert(square_index(field) == i);
        },
    }
}

/// A well-formed en passant field is exactly what is written for the target
/// it names.
pub proof fn lemma_en_passant_written_back(field: Seq<char>)
    requires
        en_passant_of(field) is Some,
    ensures
        en_passant_text(en_passant_of(field).unwrap()) == field,
{
    if !is_just(field, '-') {
        let i = square_index(field);
        assert(i % 8 == field[0] as int - 'a' as int);
        assert(i / 8 == '8' as int - field[1] as int);
        assert(square_name(i) =~= field);
    }
}

// The two counters.

/// The numeral written for a number of 32 bits reads back as that number. It
/// is plain and holds no space.
pub proof fn lemma_clock_read_back(n: nat)
    requires
        n <= u32::MAX,
    ensures
        clock_value(decimal_text(n)) == Some(n),
        is_plain_numeral(decimal_text(n)),
        free_of(decimal_text(n), ' '),
{
    lemma_value_of_text(n);
    let field = decimal_text(n);
    assert(is_digit(field[0]));
    assert forall|i: int| 0 <= i < field.len() implies field[i] != ' ' by {
        assert(is_digit(field[i]));
    }
}

/// A counter field that is a plain numeral is exactly what is written for
/// its value.
pub proof fn lemma_clock_written_back(field: Seq<char>)
    requires
        is_plain_numeral(field),
        clock_value(field) is Some,
    ensures
        decimal_text(clock_value(field).unwrap()) == field,
{
    assert(is_digit(field[0]));
    lemma_text_of_value(field);
}

// The record.

/// The six fields written for a position, in their order.
pub open spec fn record_fields(position: Position) -> Seq<Seq<char>> {
    seq![
        placement_text(position.squares),
        active_color_text(position.active_color),
        castling_text(
            position.white_kingside,
            position.white_queenside,
            position.black_kingside,
            position.black_queenside,
        ),
        en_passant_text(position.en_passant),
        decimal_text(position.halfmove),
        decimal_text(position.fullmove),
    ]
}

/// The record of a position is its six fields joined with spaces.
pub proof fn lemma_record_is_joined_fields(position: Position)
    ensures
        fen_encode(position) == join_with(record_fields(position), ' '),
{
    let f = record_fields(position);
    let one = seq![f[0]];
    let two = one.push(f[1]);
    let three = two.push(f[2]);
    let four = three.push(f[3]);
    let five = four.push(f[4]);
    assert(join_with(one, ' ') == f[0]);
    lemma_join_of_push(one, f[1], ' ');
    lemma_join_of_push(two, f[2], ' ');
    lemma_join_of_push(three, f[3], ' ');
    lemma_join_of_push(four, f[4], ' ');
    lemma_join_of_push(five, f[5], ' ');
    assert(five.push(f[5]) =~= f);
}

/// The record written for a well-formed position falls into exactly the six
/// fields that were written.
pub proof fn lemma_record_fields(position: Position)
    requires
        position.wf(),
    ensures
        split_on(fen_encode(position), ' ') == record_fields(position),
{
    let f = record_fields(position);
    lemma_record_is_joined_fields(position);
    lemma_placement_text_ranks(position.squares);
    lemma_castling_read_back(
        position.white_kingside,
        position.white_queenside,
        position.black_kingside,
        position.black_queenside,
    );
    lemma_en_passant_read_back(position.en_passant);
    lemma_clock_read_back(position.halfmove);
    lemma_clock_read_back(position.fullmove);
    lemma_active_color_read_back(position.active_color);
    assert(forall|k: int| 0 <= k < f.len() ==> free_of(#[trigger] f[k], ' '));
    lemma_split_of_join(f, ' ');
}

/// Reading what was written gives the position back: the record of any
/// well-formed position decodes, and decodes to that position.
pub proof fn theorem_decode_of_encode(position: Position)
    requires
        position.wf(),
    ensures
        fen_decode(fen_encode(position)) == Ok::<Position, Fault>(position),
{
    let f = record_fields(position);
    lemma_record_fields(position);
    lemma_placement_squares_of_text(position.squares);
    lemma_castling_read_back(
        position.white_kingside,
        position.white_queenside,
        position.black_kingside,
        position.black_queenside,
    );
    lemma_en_passant_read_back(position.en_passant);
    lemma_clock_read_back(position.halfmove);
    lemma_clock_read_back(position.fullmove);
    lemma_active_color_read_back(position.active_color);
    let read = fen_decode(fen_encode(position));
    assert(read is Ok);
    assert(read->Ok_0.squares == position.squares);
    assert(read->Ok_0.en_passant == position.en_passant);
    assert(read->Ok_0 == position);
}

/// Writing what was read gives the record back: a canonical record that
/// decodes is exactly the record of the position it decodes to.
pub proof fn theorem_encode_of_decode(record: Seq<char>)
    requires
        is_canonical(record),
        fen_decode(record) is Ok,
    ensures
        fen_encode(fen_decode(record)->Ok_0) == record,
{
    let fields = split_on(record, ' ');
    let position = fen_decode(record)->Ok_0;
    lemma_placement_text_of_squares(fields[0]);
    lemma_castling_written_back(fields[2]);
    lemma_en_passant_written_back(fields[3]);
    lemma_clock_written_back(fields[4]);
    lemma_clock_written_back(fields[5]);
    lemma_active_color_written_back(fields[1]);
    assert(record_fields(position) =~= fields);
    lemma_record_is_joined_fields(position);
    lemma_join_of_split(record, ' ');
}

/// What is written is canonical: the record of any well-formed position has
/// exactly six fields, one digit for every run of empty squares, the
/// castling letters in order and plain numerals for both counters.
pub proof fn theorem_encode_is_canonical(position: Position)
    requires
        position.wf(),
    ensures
        is_canonical(fen_encode(position)),
{
    lemma_record_fields(position);
    lemma_placement_text_is_canonical(position.squares);
    lemma_castling_read_back(
        position.white_kingside,
        position.white_queenside,
        position.black_kingside,
        position.black_queenside,
    );
    lemma_clock_read_back(position.halfmove);
    lemma_clock_read_back(position.fullmove);
}

/// Whatever decodes is well formed: 64 squares, an en passant target on the
/// board if there is one, and counters of 32 bits.
pub proof fn theorem_decoded_is_well_formed(record: Seq<char>)
    requires
        fen_decode(record) is Ok,
    ensures
        fen_decode(record)->Ok_0.wf(),
{
}

/// A record decodes or is refused for missing fields by the number of its
/// spaces alone: with fewer than six fields it is malformed, and carries the
/// whole record.
pub proof fn theorem_short_record_is_malformed(record: Seq<char>)
    requires
        split_on(record, ' ').len() < 6,
    ensures
        fen_decode(record) == Err::<Position, Fault>(
            Fault { kind: FenErrorKind::MalformedRecord, text: record },
        ),
{
}

/// A record whose placement field holds a character that is neither a
/// slash, nor a digit from 1 to 8, nor the symbol of a piece, is refused for
/// its piece notation, and the error carries that field.
pub proof fn theorem_bad_placement_symbol_is_refused(record: Seq<char>, i: int)
    requires
        split_on(record, ' ').len() >= 6,
        0 <= i < split_on(record, ' ')[0].len(),
        split_on(record, ' ')[0][i] != '/',
        !is_rank_symbol(split_on(record, ' ')[0][i]),
    ensures
        fen_decode(record) == Err::<Position, Fault>(
            Fault { kind: FenErrorKind::BadPieceNotation, text: split_on(record, ' ')[0] },
        ),
{
    lemma_bad_symbol_is_refused(split_on(record, ' ')[0], i);
}

// The starting position.

/// A rank on which every square is occupied is written as the symbols of its
/// pieces.
pub proof fn lemma_full_rank_text(squares: Seq<Option<Piece>>)
    requires
        forall|i: int| 0 <= i < squares.len() ==> (#[trigger] squares[i]) is Some,
    ensures
        rank_text(squares) == Seq::new(squares.len(), |i: int| squares[i].unwrap().symbol()),
    decreases squares.len(),
{
    if squares.len() > 0 {
        let rest = squares.drop_first();
        assert forall|i: int| 0 <= i < rest.len() implies (#[trigger] rest[i]) is Some by {
            assert(rest[i] == squares[i + 1]);
        }
        lemma_full_rank_text(rest);
        assert(squares.first() == squares[0]);
        assert(rank_text(squares) =~= Seq::new(
            squares.len(),
            |i: int| squares[i].unwrap().symbol(),
        ));
    }
}

/// The record of the starting position is `STARTING_FEN`, and `STARTING_FEN`
/// decodes to the starting position.
pub proof fn theorem_starting_record()
    ensures
        fen_encode(start_position()) == STARTING_FEN@,
        fen_decode(STARTING_FEN@) == Ok::<Position, Fault>(start_position()),
{
    let start = start_position();
    let squares = start.squares;
    assert(squares.len() == 64);
    let texts = rank_texts(squares);
    assert(rank_of(squares, 0) =~= back_rank(Color::Black));
    assert(rank_of(squares, 1) =~= pawn_rank(Color::Black));
    assert(rank_of(squares, 2) =~= empty_squares(8));
    assert(rank_of(squares, 3) =~= empty_squares(8));
    assert(rank_of(squares, 4) =~= empty_squares(8));
    assert(rank_of(squares, 5) =~= empty_squares(8));
    assert(rank_of(squares, 6) =~= pawn_rank(Color::White));
    assert(rank_of(squares, 7) =~= back_rank(Color::White));
    lemma_full_rank_text(back_rank(Color::Black));
    lemma_full_rank_text(pawn_rank(Color::Black));
    lemma_full_rank_text(pawn_rank(Color::White));
    lemma_full_rank_text(back_rank(Color::White));
    assert(rank_text(empty_squares(8)) == seq!['8']) by {
        lemma_text_after_empties(8, Seq::empty(), 0);
        assert(empty_squares(8) + Seq::<Option<Piece>>::empty() == empty_squares(8));
    }
    assert(texts[0] =~= seq!['r', 'n', 'b', 'q', 'k', 'b', 'n', 'r']);
    assert(texts[1] =~= seq!['p', 'p', 'p', 'p', 'p', 'p', 'p', 'p']);
    assert(texts[6] =~= seq!['P', 'P', 'P', 'P', 'P', 'P', 'P', 'P']);
    assert(texts[7] =~= seq!['R', 'N', 'B', 'Q', 'K', 'B', 'N', 'R']);
    let one = seq![texts[0]];
    let two = one.push(texts[1]);
    let three = two.push(texts[2]);
    let four = three.push(texts[3]);
    let five = four.push(texts[4]);
    let six = five.push(texts[5]);
    let seven = six.push(texts[6]);
    assert(join_with(one, '/') == texts[0]);
    lemma_join_of_push(one, texts[1], '/');
    lemma_join_of_push(two, texts[2], '/');
    lemma_join_of_push(three, texts[3], '/');
    lemma_join_of_push(four, texts[4], '/');
    lemma_join_of_push(five, texts[5], '/');
    lemma_join_of_push(six, texts[6], '/');
    lemma_join_of_push(seven, texts[7], '/');
    assert(seven.push(texts[7]) =~= texts);
    let placement = placement_text(squares);
    assert(placement == texts[0] + seq!['/'] + texts[1] + seq!['/'] + texts[2] + seq!['/']
        + texts[3] + seq!['/'] + texts[4] + seq!['/'] + texts[5] + seq!['/'] + texts[6] + seq![
        '/',
    ] + texts[7]);
    assert(decimal_text(0) =~= seq!['0']);
    assert(decimal_text(1) =~= seq!['1']);
    assert(castling_text(true, true, true, true) =~= seq!['K', 'Q', 'k', 'q']);
    reveal_strlit("rnbqkbnr/pppppppp/8/8/8/8/PPPPPPPP/RNBQKBNR w KQkq - 0 1");
    assert(fen_encode(start) =~= STARTING_FEN@);
    theorem_decode_of_encode(start);
}

} // verus!
