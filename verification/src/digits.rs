//! Decimal rendering of unsigned integers, used for generated item ids and
//! for the JSON codec.

use vstd::prelude::*;

verus! {

/// The character for a single decimal digit value.
pub open spec fn digit_char(d: int) -> char {
    if d == 0 {
        '0'
    } else if d == 1 {
        '1'
    } else if d == 2 {
        '2'
    } else if d == 3 {
        '3'
    } else if d == 4 {
        '4'
    } else if d == 5 {
        '5'
    } else if d == 6 {
        '6'
    } else if d == 7 {
        '7'
    } else if d == 8 {
        '8'
    } else {
        '9'
    }
}

/// The digit character for the low decimal digit of a number.
fn low_digit_char(n: u64) -> (c: char)
    ensures
        c == digit_char((n % 10) as int),
{
    let r = n % 10;
    if r == 0 {
        '0'
    } else if r == 1 {
        '1'
    } else if r == 2 {
        '2'
    } else if r == 3 {
        '3'
    } else if r == 4 {
        '4'
    } else if r == 5 {
        '5'
    } else if r == 6 {
        '6'
    } else if r == 7 {
        '7'
    } else if r == 8 {
        '8'
    } else {
        '9'
    }
}

/// Whether a character is a decimal digit.
pub open spec fn is_digit(c: char) -> bool {
    48 <= c as u32 <= 57
}

/// The numeric value of a digit character.
pub open spec fn digit_val(c: char) -> int {
    c as u32 - 48
}

/// Decimal rendering of a natural number, most significant digit first.
pub open spec fn dec_chars(n: nat) -> Seq<char>
    decreases n,
{
    if n < 10 {
        seq![digit_char(n as int)]
    } else {
        dec_chars(n / 10) + seq![digit_char((n % 10) as int)]
    }
}

/// Every character of a decimal rendering is a digit.
pub proof fn lemma_dec_chars_digits(n: nat)
    ensures
        dec_chars(n).len() >= 1,
        forall|i: int| 0 <= i < dec_chars(n).len() ==> is_digit(#[trigger] dec_chars(n)[i]),
    decreases n,
{
    if n >= 10 {
        lemma_dec_chars_digits(n / 10);
    }
}

/// `n` rendered in decimal as characters.
pub fn u64_chars(n: u64) -> (v: Vec<char>)
    ensures
        v@ == dec_chars(n as nat),
    decreases n,
{
    if n < 10 {
        let mut v: Vec<char> = Vec::new();
        v.push(low_digit_char(n));
        proof {
            assert(n % 10 == n);
            assert(v@ =~= dec_chars(n as nat));
        }
        v
    } else {
        let mut v = u64_chars(n / 10);
        v.push(low_digit_char(n));
        proof {
            assert(v@ =~= dec_chars(n as nat));
        }
        v
    }
}

} // verus!
