//! Decimal numerals: the value of a run of digits and the digits of a value.

use vstd::prelude::*;

verus! {

/// `c` is one of the ten ASCII digits.
pub open spec fn is_digit(c: char) -> bool {
    '0' <= c <= '9'
}

/// The value of a digit; zero for any other character.
pub open spec fn digit_value(c: char) -> nat {
    if is_digit(c) {
        (c as int - '0' as int) as nat
    } else {
        0
    }
}

/// The digit that stands for a value below ten.
pub open spec fn digit_symbol(d: nat) -> char
    recommends
        d < 10,
{
    (d + '0' as nat) as char
}

/// Every character of `s` is a digit.
pub open spec fn all_digits(s: Seq<char>) -> bool {
    forall|i: int| 0 <= i < s.len() ==> is_digit(#[trigger] s[i])
}

/// The number that the digits of `s` spell in base ten, most significant
/// digit first.
pub open spec fn decimal_value(s: Seq<char>) -> nat
    decreases s.len(),
{
    if s.len() == 0 {
        0
    } else {
        10 * decimal_value(s.drop_last()) + digit_value(s.last())
    }
}

/// The digits of `n` in base ten, most significant first, without leading
/// zeros; the single digit `0` for zero.
pub open spec fn decimal_text(n: nat) -> Seq<char>
    decreases n,
{
    if n < 10 {
        seq![digit_symbol(n)]
    } else {
        decimal_text(n / 10).push(digit_symbol(n % 10))
    }
}

/// `s` is a numeral as `decimal_text` writes it: at least one digit, nothing
/// but digits, and no leading zero unless the numeral is the single digit `0`.
pub open spec fn is_plain_numeral(s: Seq<char>) -> bool {
    &&& s.len() >= 1
    &&& all_digits(s)
    &&& s.len() > 1 ==> s[0] != '0'
}

/// The number that `s` holds, if `s` is a non-empty run of digits whose value
/// fits in 32 bits.
pub open spec fn decimal_u32(s: Seq<char>) -> Option<nat> {
    if s.len() >= 1 && all_digits(s) && decimal_value(s) <= u32::MAX {
        Some(decimal_value(s))
    } else {
        None
    }
}

/// A longer numeral is worth at least as much as any of its prefixes.
pub proof fn lemma_prefix_value(s: Seq<char>, n: int)
    requires
        0 <= n <= s.len(),
    ensures
        decimal_value(s.take(n)) <= decimal_value(s),
    decreases s.len(),
{
    if n == s.len() {
        assert(s.take(n) == s);
    } else {
        lemma_prefix_value(s.drop_last(), n);
        assert(s.drop_last().take(n) == s.take(n));
    }
}

/// The digits written for a number form a plain numeral that spells it.
pub proof fn lemma_value_of_text(n: nat)
    ensures
        is_plain_numeral(decimal_text(n)),
        decimal_value(decimal_text(n)) == n,
    decreases n,
{
    if n < 10 {
        let s = seq![digit_symbol(n)];
        assert(s.drop_last() == Seq::<char>::empty());
        assert(decimal_value(s.drop_last()) == 0);
        assert(s.last() == digit_symbol(n));
    } else {
        lemma_value_of_text(n / 10);
        let head = decimal_text(n / 10);
        let s = head.push(digit_symbol(n % 10));
        assert(s.drop_last() == head);
        assert(s.last() == digit_symbol(n % 10));
        assert(s[0] == head[0]);
        if head.len() == 1 {
            assert(decimal_value(head.drop_last()) == 0) by {
                assert(head.drop_last() == Seq::<char>::empty());
            }
            assert(head[0] != '0');
        }
    }
}

/// A plain numeral is exactly what is written for the number it spells.
pub proof fn lemma_text_of_value(s: Seq<char>)
    requires
        is_plain_numeral(s),
    ensures
        decimal_text(decimal_value(s)) == s,
    decreases s.len(),
{
    let head = s.drop_last();
    if s.len() == 1 {
        assert(head == Seq::<char>::empty());
        assert(decimal_value(head) == 0);
        assert(s == seq![s.last()]);
    } else {
        assert(head[0] == s[0]);
        lemma_text_of_value(head);
        assert(decimal_value(head) >= 1) by {
            lemma_prefix_value(head, 1);
            let first = head.take(1);
            assert(first.drop_last() == Seq::<char>::empty());
            assert(decimal_value(first.drop_last()) == 0);
            assert(first.last() == s[0]);
        }
        assert(s == head.push(s.last()));
    }
}

/// The one-character string of a digit.
pub fn digit_str(d: u8) -> (s: &'static str)
    requires
        d < 10,
    ensures
        s@ == seq![digit_symbol(d as nat)],
{
    proof {
        reveal_strlit("0");
        reveal_strlit("1");
        reveal_strlit("2");
        reveal_strlit("3");
        reveal_strlit("4");
        reveal_strlit("5");
        reveal_strlit("6");
        reveal_strlit("7");
        reveal_strlit("8");
        reveal_strlit("9");
    }
    let s = match d {
        0 => "0",
        1 => "1",
        2 => "2",
        3 => "3",
        4 => "4",
        5 => "5",
        6 => "6",
        7 => "7",
        8 => "8",
        _ => "9",
    };
    assert(s@ =~= seq![digit_symbol(d as nat)]);
    s
}

/// Writes a number in base ten.
pub fn decimal_string(n: u32) -> (s: String)
    ensures
        s@ == decimal_text(n as nat),
    decreases n,
{
    if n < 10 {
        digit_str(n as u8).to_owned()
    } else {
        let mut s = decimal_string(n / 10);
        s.append(digit_str((n % 10) as u8));
        assert(s@ =~= decimal_text(n as nat / 10).push(digit_symbol(n as nat % 10)));
        s
    }
}

/// Reads a non-empty run of digits as a number of 32 bits.
///
/// Leading zeros are read like any other digit. The result is `None` when
/// `text` is empty, holds anything but digits, or spells a number above
/// `u32::MAX`.
pub fn parse_decimal(text: &[char]) -> (value: Option<u32>)
    ensures
        match value {
            Some(n) => decimal_u32(text@) == Some(n as nat),
            None => decimal_u32(text@) is None,
        },
{
    if text.len() == 0 {
        return None;
    }
    let mut acc: u32 = 0;
    let mut i: usize = 0;
    while i < text.len()
        invariant
            i <= text@.len(),
            all_digits(text@.take(i as int)),
            acc == decimal_value(text@.take(i as int)),
        decreases text@.len() - i,
    {
        let c = text[i];
        let ghost seen = text@.take(i as int + 1);
        proof {
            assert(seen.drop_last() == text@.take(i as int));
            assert(seen.last() == c);
        }
        if c < '0' || c > '9' {
            return None;
        }
        let d: u32 = c as u32 - '0' as u32;
        if acc > (u32::MAX - d) / 10 {
            proof {
                lemma_prefix_value(text@, i as int + 1);
            }
            return None;
        }
        acc = acc * 10 + d;
        i += 1;
        proof {
            assert forall|j: int| 0 <= j < seen.len() implies is_digit(#[trigger] seen[j]) by {
                if j < seen.len() - 1 {
                    assert(seen[j] == text@.take(i as int - 1)[j]);
                }
            }
        }
    }
    proof {
        assert(text@.take(i as int) == text@);
    }
    Some(acc)
}

} // verus!
