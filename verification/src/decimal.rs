//! Unsigned decimal numbers as text.

use vstd::prelude::*;

verus! {

/// Whether `c` is one of `0` to `9`.
pub open spec fn is_digit(c: char) -> bool {
    '0' <= c && c <= '9'
}

/// The value of the digit `c`; 0 for any other character.
pub open spec fn digit_value(c: char) -> nat {
    if is_digit(c) {
        (c as u32 - '0' as u32) as nat
    } else {
        0
    }
}

/// Whether `text` is made of digits alone.
pub open spec fn all_digits(text: Seq<char>) -> bool {
    forall|i: int| 0 <= i < text.len() ==> is_digit(#[trigger] text[i])
}

/// The number that the digits of `digits` write in base ten.
pub open spec fn value_of(digits: Seq<char>) -> nat
    decreases digits.len(),
{
    if digits.len() == 0 {
        0
    } else {
        10 * value_of(digits.drop_last()) + digit_value(digits.last())
    }
}

/// `text` without the `+` that may stand in front of a number.
pub open spec fn unsigned_part(text: Seq<char>) -> Seq<char> {
    if text.len() > 0 && text[0] == '+' {
        text.drop_first()
    } else {
        text
    }
}

/// The number that `text` writes: one or more decimal digits, with or
/// without one `+` in front, and a value that a `u32` holds. Any other text,
/// with a blank or a minus sign in it as well as the empty one, writes none.
pub open spec fn parse_u32(text: Seq<char>) -> Option<u32> {
    let digits = unsigned_part(text);
    if digits.len() > 0 && all_digits(digits) && value_of(digits) <= u32::MAX {
        Some(value_of(digits) as u32)
    } else {
        None
    }
}

/// More digits never write a smaller number.
pub proof fn lemma_value_grows(digits: Seq<char>, k: int)
    requires
        0 <= k <= digits.len(),
    ensures
        value_of(digits.take(k)) <= value_of(digits),
    decreases digits.len(),
{
    if k == digits.len() {
        assert(digits.take(k) =~= digits);
    } else {
        assert(digits.drop_last().take(k) =~= digits.take(k));
        lemma_value_grows(digits.drop_last(), k);
    }
}

/// Text with a character that is neither a digit nor a `+` in front writes
/// no number.
pub proof fn lemma_stray_character(text: Seq<char>, i: int)
    requires
        0 <= i < text.len(),
        !is_digit(text[i]),
        i > 0 || text[i] != '+',
    ensures
        parse_u32(text) is None,
{
    let digits = unsigned_part(text);
    if text[0] == '+' {
        assert(digits[i - 1] == text[i]);
    } else {
        assert(digits[i] == text[i]);
    }
}

/// Reads the number that `text` writes.
pub fn parse(text: &str) -> (number: Option<u32>)
    ensures
        number == parse_u32(text@),
{
    let mut value: u64 = 0;
    let mut any = false;
    let mut first = true;
    for c in it: text.chars()
        invariant
            it.seq() == text@,
            first == (it.index() == 0),
            any == (unsigned_part(text@.take(it.index())).len() > 0),
            all_digits(unsigned_part(text@.take(it.index()))),
            value == value_of(unsigned_part(text@.take(it.index()))),
            value <= u32::MAX,
            unsigned_part(text@.take(it.index())) == unsigned_part(text@).take(
                unsigned_part(text@.take(it.index())).len() as int,
            ),
    {
        let ghost k = it.index();
        let ghost seen = unsigned_part(text@.take(k));
        proof {
            assert(text@.take(k + 1) =~= text@.take(k).push(c));
        }
        if first && c == '+' {
            proof {
                assert(text@.take(0) =~= Seq::<char>::empty());
                assert(unsigned_part(text@.take(1)) =~= Seq::<char>::empty());
                assert(unsigned_part(text@).take(0) =~= Seq::<char>::empty());
            }
        } else {
            proof {
                assert(unsigned_part(text@.take(k + 1)) =~= seen.push(c));
                assert(seen.push(c) =~= unsigned_part(text@).take(seen.len() as int + 1)) by {
                    assert(unsigned_part(text@)[seen.len() as int] == c);
                }
                assert(seen.push(c).drop_last() =~= seen);
            }
            if !(c >= '0' && c <= '9') {
                proof {
                    lemma_stray_character(text@, k);
                }
                return None;
            }
            let digit = (c as u32 - '0' as u32) as u64;
            value = value * 10 + digit;
            if value > u32::MAX as u64 {
                proof {
                    lemma_value_grows(unsigned_part(text@), seen.len() as int + 1);
                }
                return None;
            }
            any = true;
        }
        first = false;
    }
    proof {
        assert(text@.take(text@.len() as int) =~= text@);
    }
    if any {
        Some(value as u32)
    } else {
        None
    }
}

} // verus!
