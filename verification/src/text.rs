//! Text as a sequence of characters: cutting at a separator, joining with
//! one, and decimal numerals.

use vstd::prelude::*;

verus! {

/// `s` is the single character `c`.
pub open spec fn is_just(s: Seq<char>, c: char) -> bool {
    s.len() == 1 && s[0] == c
}

/// No character of `s` is `sep`.
pub open spec fn free_of(s: Seq<char>, sep: char) -> bool {
    forall|i: int| 0 <= i < s.len() ==> s[i] != sep
}

/// The pieces that `s` falls into when it is cut at every `sep`.
///
/// There is one piece more than there are separators, so the result is never
/// empty; a piece is empty where two separators meet and where `s` starts or
/// ends with one.
pub open spec fn split_on(s: Seq<char>, sep: char) -> Seq<Seq<char>>
    decreases s.len(),
{
    if s.len() == 0 {
        seq![Seq::empty()]
    } else {
        let before = split_on(s.drop_last(), sep);
        if s.last() == sep {
            before.push(Seq::empty())
        } else {
            before.drop_last().push(before.last().push(s.last()))
        }
    }
}

/// The pieces written one after another with one `sep` between neighbours.
pub open spec fn join_with(parts: Seq<Seq<char>>, sep: char) -> Seq<char>
    decreases parts.len(),
{
    if parts.len() == 0 {
        Seq::empty()
    } else if parts.len() == 1 {
        parts[0]
    } else {
        join_with(parts.drop_last(), sep).push(sep) + parts.last()
    }
}

/// Cutting yields at least one piece, and no piece holds the separator.
pub proof fn lemma_split_pieces(s: Seq<char>, sep: char)
    ensures
        split_on(s, sep).len() >= 1,
        forall|k: int|
            0 <= k < split_on(s, sep).len() ==> free_of(#[trigger] split_on(s, sep)[k], sep),
    decreases s.len(),
{
    if s.len() > 0 {
        lemma_split_pieces(s.drop_last(), sep);
    }
}

/// Joining the pieces of a text with the separator gives the text back.
pub proof fn lemma_join_of_split(s: Seq<char>, sep: char)
    ensures
        join_with(split_on(s, sep), sep) == s,
    decreases s.len(),
{
    if s.len() > 0 {
        let before = split_on(s.drop_last(), sep);
        lemma_split_pieces(s.drop_last(), sep);
        lemma_join_of_split(s.drop_last(), sep);
        if s.last() == sep {
            assert(before.push(Seq::empty()).drop_last() == before);
            assert(s == s.drop_last().push(sep) + Seq::<char>::empty());
        } else {
            let grown = before.drop_last().push(before.last().push(s.last()));
            assert(grown.drop_last() == before.drop_last());
            if before.len() == 1 {
                assert(before[0] == s.drop_last());
                assert(before.last().push(s.last()) == s);
            } else {
                assert(join_with(grown, sep) == join_with(before.drop_last(), sep).push(sep)
                    + before.last().push(s.last()));
                assert(join_with(before, sep) == join_with(before.drop_last(), sep).push(sep)
                    + before.last());
                assert(s == s.drop_last().push(s.last()));
            }
        }
    }
}

/// Appending separator-free text to a text lengthens its last piece.
pub proof fn lemma_split_of_extension(s: Seq<char>, tail: Seq<char>, sep: char)
    requires
        free_of(tail, sep),
    ensures
        split_on(s + tail, sep) == split_on(s, sep).drop_last().push(
            split_on(s, sep).last() + tail,
        ),
    decreases tail.len(),
{
    lemma_split_pieces(s, sep);
    let pieces = split_on(s, sep);
    if tail.len() == 0 {
        assert(s + tail == s);
        assert(pieces.last() + tail == pieces.last());
        assert(pieces.drop_last().push(pieces.last()) == pieces);
    } else {
        lemma_split_of_extension(s, tail.drop_last(), sep);
        assert((s + tail).drop_last() == s + tail.drop_last());
        let before = split_on(s + tail.drop_last(), sep);
        assert(before.drop_last() == pieces.drop_last());
        assert(before.last().push(tail.last()) == pieces.last() + tail);
    }
}

/// Cutting a joined text gives back the pieces it was joined from, when none of
/// them holds the separator.
pub proof fn lemma_split_of_join(parts: Seq<Seq<char>>, sep: char)
    requires
        parts.len() >= 1,
        forall|k: int| 0 <= k < parts.len() ==> free_of(#[trigger] parts[k], sep),
    ensures
        split_on(join_with(parts, sep), sep) == parts,
    decreases parts.len(),
{
    if parts.len() == 1 {
        lemma_split_of_extension(Seq::empty(), parts[0], sep);
        assert(Seq::<char>::empty() + parts[0] == parts[0]);
        assert(split_on(Seq::empty(), sep) == seq![Seq::<char>::empty()]);
        assert(split_on(join_with(parts, sep), sep) == parts);
    } else {
        let head = parts.drop_last();
        lemma_split_of_join(head, sep);
        let stem = join_with(head, sep).push(sep);
        assert(stem.drop_last() == join_with(head, sep));
        assert(split_on(stem, sep) == head.push(Seq::empty()));
        lemma_split_of_extension(stem, parts.last(), sep);
        assert(Seq::<char>::empty() + parts.last() == parts.last());
        assert(head.push(Seq::empty()).drop_last() == head);
        assert(head.push(parts.last()) == parts);
    }
}

/// Joining one more piece appends the separator and the piece.
pub proof fn lemma_join_of_push(parts: Seq<Seq<char>>, last: Seq<char>, sep: char)
    requires
        parts.len() >= 1,
    ensures
        join_with(parts.push(last), sep) == join_with(parts, sep) + seq![sep] + last,
{
    let all = parts.push(last);
    assert(all.drop_last() == parts);
    assert(join_with(parts, sep).push(sep) == join_with(parts, sep) + seq![sep]);
}

/// A joined text is free of a character that is neither the separator nor in
/// any of the pieces.
pub proof fn lemma_join_free_of(parts: Seq<Seq<char>>, sep: char, other: char)
    requires
        sep != other,
        forall|k: int| 0 <= k < parts.len() ==> free_of(#[trigger] parts[k], other),
    ensures
        free_of(join_with(parts, sep), other),
    decreases parts.len(),
{
    if parts.len() >= 2 {
        lemma_join_free_of(parts.drop_last(), sep, other);
        assert(free_of(parts.last(), other));
    } else if parts.len() == 1 {
        assert(free_of(parts[0], other));
    }
}

/// Every character of a text that is not the separator lies in one of the
/// pieces: the result names the piece and the place in it.
pub proof fn lemma_char_in_piece(s: Seq<char>, sep: char, i: int) -> (at: (int, int))
    requires
        0 <= i < s.len(),
        s[i] != sep,
    ensures
        0 <= at.0 < split_on(s, sep).len(),
        0 <= at.1 < split_on(s, sep)[at.0].len(),
        split_on(s, sep)[at.0][at.1] == s[i],
    decreases s.len(),
{
    let before = split_on(s.drop_last(), sep);
    lemma_split_pieces(s.drop_last(), sep);
    if i == s.len() - 1 {
        (before.len() - 1, before.last().len() as int)
    } else {
        let at = lemma_char_in_piece(s.drop_last(), sep, i);
        assert(s.drop_last()[i] == s[i]);
        at
    }
}

/// The characters of a string, in order.
pub fn chars_of(s: &str) -> (text: Vec<char>)
    ensures
        text@ == s@,
{
    let mut text: Vec<char> = Vec::new();
    for c in it: s.chars()
        invariant
            text@ == it.seq().take(it.index() as int),
    {
        text.push(c);
    }
    text
}

/// Where the pieces of `text` lie when it is cut at every `sep`: for each
/// piece, in order, the index of its first character and the index just past
/// its last.
pub fn piece_bounds(text: &[char], sep: char) -> (bounds: Vec<(usize, usize)>)
    ensures
        bounds@.len() == split_on(text@, sep).len(),
        forall|k: int|
            0 <= k < bounds@.len() ==> {
                &&& (#[trigger] bounds@[k]).0 <= bounds@[k].1 <= text@.len()
                &&& text@.subrange(bounds@[k].0 as int, bounds@[k].1 as int) == split_on(
                    text@,
                    sep,
                )[k]
            },
{
    let mut bounds: Vec<(usize, usize)> = Vec::new();
    let mut start: usize = 0;
    let mut i: usize = 0;
    while i < text.len()
        invariant
            start <= i <= text@.len(),
            split_on(text@.take(i as int), sep).len() == bounds@.len() + 1,
            split_on(text@.take(i as int), sep).last() == text@.subrange(start as int, i as int),
            forall|k: int|
                0 <= k < bounds@.len() ==> {
                    &&& (#[trigger] bounds@[k]).0 <= bounds@[k].1 <= i
                    &&& text@.subrange(bounds@[k].0 as int, bounds@[k].1 as int) == split_on(
                        text@.take(i as int),
                        sep,
                    )[k]
                },
        decreases text@.len() - i,
    {
        let ghost before = split_on(text@.take(i as int), sep);
        let ghost seen = text@.take(i as int + 1);
        proof {
            assert(seen.drop_last() == text@.take(i as int));
            assert(seen.last() == text@[i as int]);
        }
        if text[i] == sep {
            bounds.push((start, i));
            start = i + 1;
            proof {
                assert(split_on(seen, sep) == before.push(Seq::empty()));
                assert(text@.subrange(start as int, start as int) == Seq::<char>::empty());
            }
        } else {
            proof {
                assert(split_on(seen, sep) == before.drop_last().push(
                    before.last().push(text@[i as int]),
                ));
                assert(text@.subrange(start as int, i as int).push(text@[i as int])
                    == text@.subrange(start as int, i as int + 1));
            }
        }
        i += 1;
    }
    proof {
        assert(text@.take(i as int) == text@);
    }
    bounds.push((start, i));
    bounds
}

} // verus!
