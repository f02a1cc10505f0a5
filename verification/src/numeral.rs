//! Decimal numerals: what a digit text denotes, and its conversion to a
//! 64-bit unsigned integer.

use vstd::prelude::*;
use vstd::std_specs::iter::IteratorSpec;

verus! {

/// True for the ten ASCII decimal digits.
pub open spec fn is_digit_char(c: char) -> bool {
    '0' <= c && c <= '9'
}

/// The value of a decimal digit.
pub open spec fn digit_value(c: char) -> nat {
    (c as int - '0' as int) as nat
}

/// True for a non-empty text made of decimal digits only.
pub open spec fn is_numeral(text: Seq<char>) -> bool {
    text.len() > 0 && forall|i: int| 0 <= i < text.len() ==> is_digit_char(#[trigger] text[i])
}

/// The number a digit text denotes in base ten; the empty text denotes 0.
pub open spec fn decimal_value(text: Seq<char>) -> nat
    decreases text.len(),
{
    if text.len() == 0 {
        0
    } else {
        10 * decimal_value(text.drop_last()) + digit_value(text.last())
    }
}

/// The 64-bit value of a text: defined when the text is a numeral whose
/// value fits, absent for any other text.
pub open spec fn numeral_u64(text: Seq<char>) -> Option<u64> {
    if is_numeral(text) && decimal_value(text) <= u64::MAX {
        Some(decimal_value(text) as u64)
    } else {
        None
    }
}

/// A prefix of a text never denotes more than the whole text.
pub proof fn lemma_prefix_value(text: Seq<char>, k: int)
    requires
        0 <= k <= text.len(),
    ensures
        decimal_value(text.take(k)) <= decimal_value(text),
    decreases text.len() - k,
{
    if k == text.len() {
        assert(text.take(k) =~= text);
    } else {
        lemma_prefix_value(text.drop_last(), k);
        assert(text.drop_last().take(k) =~= text.take(k));
    }
}

/// Converts a digit text to a 64-bit unsigned integer. Returns `None` when
/// the text is empty, holds anything but decimal digits, or denotes a value
/// above `u64::MAX`.
pub fn parse_u64(text: &str) -> (value: Option<u64>)
    ensures
        value == numeral_u64(text@),
{
    let mut chars = text.chars();
    let mut value: u64 = 0;
    let mut empty = true;
    let ghost mut seen: int = 0;
    loop
        invariant
            chars.obeys_prophetic_iter_laws(),
            0 <= seen <= text@.len(),
            chars.remaining() == text@.skip(seen),
            empty <==> seen == 0,
            forall|i: int| 0 <= i < seen ==> is_digit_char(#[trigger] text@[i]),
            value == decimal_value(text@.take(seen)),
        decreases text@.len() - seen,
    {
        match chars.next() {
            Some(c) => {
                assert(c == text@[seen]);
                if !('0' <= c && c <= '9') {
                    return None;
                }
                let digit = (c as u32 - '0' as u32) as u64;
                proof {
                    assert(text@.take(seen + 1).drop_last() =~= text@.take(seen));
                    assert(text@.take(seen + 1).last() == c);
                    assert(digit == digit_value(c));
                    lemma_prefix_value(text@, seen + 1);
                }
                if value > (u64::MAX - digit) / 10 {
                    return None;
                }
                value = value * 10 + digit;
                empty = false;
                proof {
                    assert(text@.skip(seen).drop_first() =~= text@.skip(seen + 1));
                    seen = seen + 1;
                }
            },
            None => {
                assert(seen == text@.len());
                assert(text@.take(seen) =~= text@);
                if empty {
                    return None;
                }
                return Some(value);
            },
        }
    }
}

} // verus!
