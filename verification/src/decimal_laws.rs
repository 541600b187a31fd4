//! What holds of all numbers in decimal.

use crate::decimal::{
    all_digits, decimal, digits_value, is_digit, lemma_decimal_digits, number, padded_decimal,
    padded_decimal_reads_back, signed_decimal, u32_number, unsigned_part, zeros,
};
use vstd::prelude::*;

verus! {

/// A number is written as its digits: ten times a number and a digit is that number with the digit
/// behind it, and no zero stands in front.
pub proof fn digits_stand_one_behind_the_other(n: nat, digit: nat)
    requires
        digit < 10,
    ensures
        decimal(digit) == seq![('0' as int + digit) as char],
        n > 0 ==> decimal(10 * n + digit) == decimal(n).push(('0' as int + digit) as char),
        decimal(n).len() > 0,
        n > 0 ==> decimal(n)[0] != '0',
    decreases n,
{
    if n > 0 {
        let all = 10 * n + digit;
        assert(all / 10 == n && all % 10 == digit);
    }
    if n >= 10 {
        digits_stand_one_behind_the_other(n / 10, digit);
    }
}

/// A negative number is written as a minus sign and the number without it.
pub proof fn sign_stands_in_front(n: nat)
    ensures
        signed_decimal(n as int) == decimal(n),
        n > 0 ==> signed_decimal(-(n as int)) == seq!['-'] + decimal(n),
{
}

/// A number that is filled up has just zeros in front of its digits, and no more of them than it takes
/// to get to the width.
pub proof fn zeros_fill_up_to_the_width(n: nat, width: nat)
    ensures
        ({
            let text = padded_decimal(n, width);
            let digits = decimal(n);
            &&& text.len() == if digits.len() < width {
                width
            } else {
                digits.len()
            }
            &&& text.skip(text.len() - digits.len()) == digits
            &&& forall|i: int| 0 <= i < text.len() - digits.len() ==> #[trigger] text[i] == '0'
        }),
{
    let text = padded_decimal(n, width);
    let front = zeros(width - decimal(n).len());
    assert(text.skip(front.len() as int) =~= decimal(n));
}

/// Different numbers are written differently, whether they are filled up or not.
pub proof fn same_text_means_same_number(one: nat, other: nat, width: nat)
    ensures
        decimal(one) == decimal(other) ==> one == other,
        padded_decimal(one, width) == padded_decimal(other, width) ==> one == other,
{
    padded_decimal_reads_back(one, width);
    padded_decimal_reads_back(other, width);
    padded_decimal_reads_back(one, 0);
    padded_decimal_reads_back(other, 0);
    assert(padded_decimal(one, 0) =~= decimal(one));
    assert(padded_decimal(other, 0) =~= decimal(other));
}

/// A number is read digit by digit: each further digit makes it ten times as large and adds itself. What
/// is no digit makes it no number, and so does the lack of any digit.
pub proof fn digits_are_read_one_by_one(text: Seq<char>, c: char)
    ensures
        number(Seq::empty()) is None,
        '0' <= c <= '9' ==> number(seq![c]) == Some((c as int - '0' as int) as nat),
        number(text) matches Some(value) ==> ('0' <= c <= '9' ==> number(text.push(c)) == Some(
            (10 * value + (c as int - '0' as int)) as nat,
        )),
        text.len() > 0 && !('0' <= c <= '9') ==> number(text.push(c)) is None,
        text.len() > 0 && number(text) is None ==> (number(text.push(c)) is None || text == seq!['+']),
        !('0' <= c <= '9') ==> number(seq![c]) is None,
{
    assert(unsigned_part(Seq::empty()).len() == 0);
    let one = seq![c];
    assert(one.drop_last() =~= Seq::empty());
    if '0' <= c <= '9' {
        assert(unsigned_part(one) == one);
        assert(digits_value(one.drop_last()) == 0);
    }
    assert(unsigned_part(seq!['+']) =~= Seq::empty());
    if !('0' <= c <= '9') && c != '+' {
        assert(!is_digit(unsigned_part(one)[0]));
    }
    if text.len() > 0 {
        let longer = text.push(c);
        let before = unsigned_part(text);
        let after = unsigned_part(longer);
        assert(longer[0] == text[0]);
        assert(after =~= before.push(c));
        assert(after.drop_last() =~= before);
        assert(after.last() == c);
        if all_digits(after) {
            assert forall|i: int| 0 <= i < before.len() implies is_digit(#[trigger] before[i]) by {
                assert(after[i] == before[i]);
            }
            assert(is_digit(after[after.len() - 1]));
            if before.len() == 0 {
                assert(text =~= seq!['+']);
            }
        }
        if all_digits(before) && is_digit(c) {
            assert forall|i: int| 0 <= i < after.len() implies is_digit(#[trigger] after[i]) by {
                if i < before.len() {
                    assert(after[i] == before[i]);
                }
            }
        }
    }
}

/// A plus sign in front of a number changes nothing; a second one makes it no number.
pub proof fn plus_sign_is_left_out(text: Seq<char>)
    ensures
        text.len() > 0 && text[0] != '+' ==> number(seq!['+'] + text) == number(text),
        text.len() > 0 && text[0] == '+' ==> number(seq!['+'] + text) is None,
{
    let signed = seq!['+'] + text;
    assert(signed.skip(1) =~= text);
    if text.len() > 0 && text[0] == '+' {
        assert(!is_digit(text[0]));
    }
}

/// A number of 32 bits is read where the text stands for a number, and for one that is not larger.
pub proof fn larger_numbers_are_refused(text: Seq<char>)
    ensures
        match u32_number(text) {
            Some(value) => number(text) == Some(value as nat),
            None => number(text) matches Some(value) ==> value > 0xFFFF_FFFF,
        },
{
}

/// What is written is read back: every number, as every number of 32 bits.
pub proof fn written_number_reads_back(n: nat)
    ensures
        number(decimal(n)) == Some(n),
        n <= 0xFFFF_FFFF ==> u32_number(decimal(n)) == Some(n as u32),
        all_digits(decimal(n)),
{
    padded_decimal_reads_back(n, 0);
    assert(padded_decimal(n, 0) =~= decimal(n));
    lemma_decimal_digits(n);
}

} // verus!
