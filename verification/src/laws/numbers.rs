//! Reading back the canonical text of numbers.

use crate::text::{
    all_digits, bool_text, decimal, digit_char, digit_value, digits, digits_value, is_digit,
    parse_signed, parse_unsigned, signed_decimal,
};
use vstd::prelude::*;

verus! {

/// The character of a digit is a digit, and stands for it.
pub proof fn digit_reads_back(d: nat)
    requires
        d < 10,
    ensures
        is_digit(digit_char(d)),
        digit_value(digit_char(d)) == d,
        digit_char(d) != '-',
{
}

/// The number that digits with one more digit stand for.
pub proof fn digits_value_push(s: Seq<char>, c: char)
    ensures
        digits_value(s.push(c)) == digits_value(s) * 10 + digit_value(c),
{
    assert(s.push(c).drop_last() =~= s);
}

/// The digits of a positive number are digits, and stand for it.
pub proof fn digits_read_back(n: nat)
    ensures
        digits_value(digits(n)) == n,
        forall|i: int| 0 <= i < digits(n).len() ==> is_digit(#[trigger] digits(n)[i]),
        n > 0 ==> digits(n).len() > 0,
    decreases n,
{
    if n > 0 {
        digits_read_back(n / 10);
        digit_reads_back(n % 10);
        digits_value_push(digits(n / 10), digit_char(n % 10));
        assert forall|i: int| 0 <= i < digits(n).len() implies is_digit(
            #[trigger] digits(n)[i],
        ) by {
            if i < digits(n / 10).len() {
                assert(digits(n)[i] == digits(n / 10)[i]);
            }
        }
    }
}

/// The decimal text of a natural number reads back as the number.
pub proof fn decimal_reads_back(n: nat)
    ensures
        parse_unsigned(decimal(n)) == Some(n),
        decimal(n).len() > 0,
        decimal(n)[0] != '-',
{
    if n == 0 {
        let s = seq!['0'];
        assert(s.drop_last() =~= Seq::<char>::empty());
        assert(digits_value(s) == 0) by {
            assert(digits_value(s.drop_last()) == 0);
        }
        assert(all_digits(s));
    } else {
        digits_read_back(n);
        assert(is_digit(digits(n)[0]));
    }
}

/// The decimal text of an integer reads back as the integer.
pub proof fn signed_decimal_reads_back(v: int)
    ensures
        parse_signed(signed_decimal(v)) == Some(v),
{
    if v < 0 {
        let n = (-v) as nat;
        decimal_reads_back(n);
        let s = signed_decimal(v);
        assert(s.skip(1) =~= decimal(n));
        assert(s[0] == '-');
    } else {
        decimal_reads_back(v as nat);
    }
}

/// The text of a boolean reads back as a number that is zero for false and
/// not zero for true.
pub proof fn bool_text_reads_back(b: bool)
    ensures
        parse_unsigned(bool_text(b)) == Some(
            if b {
                1nat
            } else {
                0nat
            },
        ),
{
    if b {
        decimal_reads_back(1);
        assert(digits(1) =~= seq!['1']) by {
            reveal_with_fuel(digits, 2);
        }
    } else {
        decimal_reads_back(0);
    }
}

} // verus!
