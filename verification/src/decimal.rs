//! Decimal numbers as text: how they are written, and how they are read back.

use vstd::prelude::*;

verus! {

/// Whether `c` is one of the ten ASCII digits.
pub open spec fn is_digit(c: char) -> bool {
    '0' <= c <= '9'
}

/// The digit that stands for `d`.
pub open spec fn digit_char(d: int) -> char
    recommends
        0 <= d < 10,
{
    ('0' as int + d) as char
}

/// The number that the digit `c` stands for.
pub open spec fn digit_value(c: char) -> int
    recommends
        is_digit(c),
{
    c as int - '0' as int
}

/// `n` in decimal, without leading zeros.
pub open spec fn decimal(n: nat) -> Seq<char>
    decreases n,
{
    if n < 10 {
        seq![digit_char(n as int)]
    } else {
        decimal(n / 10).push(digit_char((n % 10) as int))
    }
}

/// `n` in decimal, with a minus sign where it is negative.
pub open spec fn signed_decimal(n: int) -> Seq<char> {
    if n < 0 {
        seq!['-'] + decimal((-n) as nat)
    } else {
        decimal(n as nat)
    }
}

/// `n` zeros.
pub open spec fn zeros(n: int) -> Seq<char> {
    Seq::new(
        if n > 0 {
            n as nat
        } else {
            0
        },
        |i: int| '0',
    )
}

/// `n` in decimal, filled up with zeros on the left to at least `width` characters.
pub open spec fn padded_decimal(n: nat, width: nat) -> Seq<char> {
    zeros(width - decimal(n).len()) + decimal(n)
}

/// Whether `text` is digits and nothing else.
pub open spec fn all_digits(text: Seq<char>) -> bool {
    forall|i: int| 0 <= i < text.len() ==> is_digit(#[trigger] text[i])
}

/// The number that a row of digits stands for.
pub open spec fn digits_value(text: Seq<char>) -> nat
    decreases text.len(),
{
    if text.len() == 0 {
        0
    } else {
        (digits_value(text.drop_last()) * 10 + digit_value(text.last())) as nat
    }
}

/// The digits of a number as it may be written: one plus sign may stand in front of them.
pub open spec fn unsigned_part(text: Seq<char>) -> Seq<char> {
    if text.len() > 0 && text[0] == '+' {
        text.skip(1)
    } else {
        text
    }
}

/// The number that `text` stands for, where it stands for one: at least one digit, behind an
/// optional plus sign.
pub open spec fn number(text: Seq<char>) -> Option<nat> {
    let digits = unsigned_part(text);
    if digits.len() > 0 && all_digits(digits) {
        Some(digits_value(digits))
    } else {
        None
    }
}

/// The number that `text` stands for, where it stands for one that fits in 32 bits.
pub open spec fn u32_number(text: Seq<char>) -> Option<u32> {
    match number(text) {
        Some(n) => if n <= u32::MAX {
            Some(n as u32)
        } else {
            None
        },
        None => None,
    }
}

/// The digit that stands for `digit`.
fn digit_text(digit: u64) -> (text: &'static str)
    requires
        digit < 10,
    ensures
        text@ == seq![digit_char(digit as int)],
{
    proof {
        reveal_strlit("0");
        reveal_strlit("1");
        reveal_strlit("2");
        reveal_strlit("3");
        reveal_strlit("4");
        reveal_strlit("5");
        reveal_strlit("6");
        reveal_strlit("7");
        reveal_strlit("8");
        reveal_strlit("9");
    }
    let text: &'static str = match digit {
        0 => "0",
        1 => "1",
        2 => "2",
        3 => "3",
        4 => "4",
        5 => "5",
        6 => "6",
        7 => "7",
        8 => "8",
        _ => "9",
    };
    assert(text@ =~= seq![digit_char(digit as int)]);
    text
}

/// Writes `n` in decimal behind `out`.
pub fn push_decimal(out: &mut String, n: u64)
    ensures
        final(out)@ == old(out)@ + decimal(n as nat),
    decreases n,
{
    if n >= 10 {
        push_decimal(out, n / 10);
    }
    out.append(digit_text(n % 10));
    assert(out@ =~= old(out)@ + decimal(n as nat));
}

/// Writes `n` in decimal behind `out`, with a minus sign where it is negative.
pub fn push_signed_decimal(out: &mut String, n: i64)
    ensures
        final(out)@ == old(out)@ + signed_decimal(n as int),
{
    if n < 0 {
        out.append("-");
        let magnitude: u64 = (-(n as i128)) as u64;
        push_decimal(out, magnitude);
        proof {
            reveal_strlit("-");
            assert("-"@ =~= seq!['-']);
            assert(out@ =~= old(out)@ + signed_decimal(n as int));
        }
    } else {
        push_decimal(out, n as u64);
    }
}

/// The number of characters that `n` takes in decimal.
pub fn printable_base10_digits(n: u64) -> (digits: usize)
    ensures
        digits == decimal(n as nat).len(),
        1 <= digits <= 20,
{
    let mut rest: u64 = n;
    let mut digits: usize = 1;
    let ghost mut scale: nat = 1;
    while rest >= 10
        invariant
            1 <= digits,
            digits - 1 + decimal(rest as nat).len() == decimal(n as nat).len(),
            scale >= 1,
            rest * scale <= n,
            digits <= 20,
            scale == pow10((digits - 1) as nat),
        decreases rest,
    {
        proof {
            assert((rest / 10) * (scale * 10) <= n) by (nonlinear_arith)
                requires
                    rest * scale <= n,
                    scale >= 1,
            ;
            lemma_pow10_bound((digits - 1) as nat);
            assert(digits < 20) by (nonlinear_arith)
                requires
                    rest >= 10,
                    rest * scale <= n,
                    n <= u64::MAX,
                    digits - 1 >= 19 ==> scale >= 10_000_000_000_000_000_000,
            ;
            scale = scale * 10;
        }
        rest = rest / 10;
        digits = digits + 1;
    }
    digits
}

/// Ten to the power `n`.
pub open spec fn pow10(n: nat) -> nat
    decreases n,
{
    if n == 0 {
        1
    } else {
        10 * pow10((n - 1) as nat)
    }
}

proof fn lemma_pow10_bound(n: nat)
    ensures
        n >= 19 ==> pow10(n) >= 10_000_000_000_000_000_000,
    decreases n,
{
    if n > 19 {
        lemma_pow10_bound((n - 1) as nat);
    } else if n == 19 {
        assert(pow10(19) == 10_000_000_000_000_000_000) by {
            reveal_with_fuel(pow10, 20);
        }
    }
}

/// Writes `n` in decimal behind `out`, filled up with zeros to at least `width` characters.
pub fn push_padded_decimal(out: &mut String, n: u64, width: usize)
    ensures
        final(out)@ == old(out)@ + padded_decimal(n as nat, width as nat),
{
    let digits: usize = printable_base10_digits(n);
    let mut filled: usize = digits;
    let ghost start = out@;
    while filled < width
        invariant
            digits <= filled,
            filled <= width || filled == digits,
            out@ == start + zeros(filled - digits),
        decreases width - filled,
    {
        out.append("0");
        filled = filled + 1;
        proof {
            reveal_strlit("0");
            assert(out@ =~= start + zeros(filled - digits));
        }
    }
    push_decimal(out, n);
    assert(out@ =~= start + padded_decimal(n as nat, width as nat));
}

/// A row of digits stands for a number at least as large as any row that it begins with.
proof fn lemma_prefix_value(text: Seq<char>, n: int)
    requires
        all_digits(text),
        0 <= n <= text.len(),
    ensures
        digits_value(text.take(n)) <= digits_value(text),
    decreases text.len() - n,
{
    if n < text.len() {
        lemma_prefix_value(text, n + 1);
        assert(text.take(n + 1).drop_last() =~= text.take(n));
        assert(is_digit(text[n]));
    } else {
        assert(text.take(n) =~= text);
    }
}

/// Reads a number of at most 32 bits: `None` where `text` is no such number.
pub fn parse_u32(text: &str) -> (parsed: Option<u32>)
    ensures
        parsed == u32_number(text@),
{
    let len: usize = text.unicode_len();
    let mut at: usize = 0;
    if len > 0 && text.get_char(0) == '+' {
        at = 1;
    }
    if at == len {
        return None;
    }
    let ghost digits = unsigned_part(text@);
    let ghost start = at as int;
    let mut value: u64 = 0;
    assert(digits.take(0) =~= Seq::empty());
    while at < len
        invariant
            len == text@.len(),
            0 <= start <= at <= len,
            digits == unsigned_part(text@),
            digits =~= text@.skip(start),
            digits.len() > 0,
            value <= u32::MAX,
            all_digits(digits.take(at - start)),
            value == digits_value(digits.take(at - start)),
        decreases len - at,
    {
        let c: char = text.get_char(at);
        assert(c == digits[at - start]);
        if !('0' <= c && c <= '9') {
            assert(!is_digit(digits[at - start]));
            return None;
        }
        let digit: u64 = (c as u32 - 48) as u64;
        proof {
            let taken = digits.take(at - start + 1);
            assert(taken.drop_last() =~= digits.take(at - start));
            assert(all_digits(taken)) by {
                assert forall|i: int| 0 <= i < taken.len() implies is_digit(#[trigger] taken[i]) by {
                    if i < at - start {
                        assert(taken[i] == digits.take(at - start)[i]);
                    }
                }
            }
        }
        value = value * 10 + digit;
        at = at + 1;
        if value > u32::MAX as u64 {
            proof {
                if all_digits(digits) {
                    lemma_prefix_value(digits, at - start);
                }
            }
            return None;
        }
    }
    assert(digits.take(at - start) =~= digits);
    Some(value as u32)
}

proof fn lemma_decimal_value(n: nat)
    ensures
        decimal(n).len() > 0,
        all_digits(decimal(n)),
        digits_value(decimal(n)) == n,
    decreases n,
{
    if n < 10 {
        assert(decimal(n).drop_last() =~= Seq::empty());
        assert(digits_value(Seq::empty()) == 0);
    } else {
        lemma_decimal_value(n / 10);
        assert(decimal(n).drop_last() =~= decimal(n / 10));
    }
}

proof fn lemma_leading_zeros(count: int, digits: Seq<char>)
    ensures
        digits_value(zeros(count) + digits) == digits_value(digits),
    decreases count, digits.len(),
{
    let text = zeros(count) + digits;
    if digits.len() > 0 {
        assert(text.drop_last() =~= zeros(count) + digits.drop_last());
        lemma_leading_zeros(count, digits.drop_last());
    } else if count > 0 {
        assert(text.drop_last() =~= zeros(count - 1) + digits);
        assert(text.last() == '0');
        lemma_leading_zeros(count - 1, digits);
    } else {
        assert(text =~= digits);
    }
}

pub(crate) proof fn lemma_decimal_digits(n: nat)
    ensures
        all_digits(decimal(n)),
{
    lemma_decimal_value(n);
}

pub(crate) proof fn lemma_padded_digits(n: nat, width: nat)
    ensures
        padded_decimal(n, width).len() > 0,
        all_digits(padded_decimal(n, width)),
{
    let text = padded_decimal(n, width);
    lemma_decimal_value(n);
    assert forall|i: int| 0 <= i < text.len() implies is_digit(#[trigger] text[i]) by {
        let filled = zeros(width - decimal(n).len()).len();
        if i >= filled {
            assert(text[i] == decimal(n)[i - filled]);
        }
    }
}

/// A smaller number takes no more characters.
pub proof fn smaller_number_is_no_longer(smaller: nat, larger: nat)
    requires
        smaller <= larger,
    ensures
        decimal(smaller).len() <= decimal(larger).len(),
    decreases larger,
{
    if smaller >= 10 {
        smaller_number_is_no_longer(smaller / 10, larger / 10);
    }
}

/// A number written with leading zeros is read back as that number, however wide it is written.
pub proof fn padded_decimal_reads_back(n: nat, width: nat)
    ensures
        number(padded_decimal(n, width)) == Some(n),
{
    let text = padded_decimal(n, width);
    lemma_decimal_value(n);
    lemma_leading_zeros(width - decimal(n).len(), decimal(n));
    lemma_padded_digits(n, width);
    assert(is_digit(text[0]));
}

} // verus!
