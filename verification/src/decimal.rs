//! Decimal numerals of unsigned numbers.
use crate::text;
use vstd::prelude::*;

verus! {

/// The numeral of a value below ten.
pub open spec fn digit(value: nat) -> char {
    (0x30 + value) as char
}

/// A decimal digit.
pub open spec fn is_digit(c: char) -> bool {
    '0' <= c <= '9'
}

/// The value of a digit.
pub open spec fn digit_value(c: char) -> nat {
    (c as u32 - 0x30) as nat
}

/// The numeral of a number, without leading zeros.
pub open spec fn numeral(value: nat) -> Seq<char>
    decreases value,
{
    if value < 10 {
        seq![digit(value)]
    } else {
        numeral(value / 10).push(digit(value % 10))
    }
}

/// A text of digits only.
pub open spec fn all_digits(text: Seq<char>) -> bool {
    forall|i: int| 0 <= i < text.len() ==> is_digit(#[trigger] text[i])
}

/// The number that a text of digits stands for.
pub open spec fn value_of(digits: Seq<char>) -> nat
    decreases digits.len(),
{
    if digits.len() == 0 {
        0
    } else {
        value_of(digits.drop_last()) * 10 + digit_value(digits.last())
    }
}

/// `text` without one leading plus sign.
pub open spec fn unsigned_part(text: Seq<char>) -> Seq<char> {
    if text.len() > 0 && text[0] == '+' {
        text.skip(1)
    } else {
        text
    }
}

/// The number that a text denotes: digits, at least one of them, behind at most one plus sign,
/// with a value that fits.
pub open spec fn parsed(text: Seq<char>) -> Option<u32> {
    let digits = unsigned_part(text);
    if digits.len() > 0 && all_digits(digits) && value_of(digits) <= u32::MAX {
        Some(value_of(digits) as u32)
    } else {
        None
    }
}

/// A numeral holds at least one digit and nothing else, and stands for its number.
pub proof fn lemma_numeral(value: nat)
    ensures
        numeral(value).len() > 0,
        all_digits(numeral(value)),
        value_of(numeral(value)) == value,
    decreases value,
{
    if value < 10 {
        reveal_with_fuel(value_of, 2);
        assert(digit_value(digit(value)) == value);
    } else {
        lemma_numeral(value / 10);
        assert(digit_value(digit(value % 10)) == value % 10);
        assert(numeral(value).drop_last() =~= numeral(value / 10));
        assert forall|i: int| 0 <= i < numeral(value).len() implies is_digit(
            #[trigger] numeral(value)[i],
        ) by {
            if i < numeral(value / 10).len() {
                assert(numeral(value)[i] == numeral(value / 10)[i]);
            }
        }
    }
}

/// The numeral of a number parses back to it.
pub proof fn numeral_round_trip(value: u32)
    ensures
        parsed(numeral(value as nat)) == Some(value),
{
    lemma_numeral(value as nat);
    assert(is_digit(numeral(value as nat)[0]));
}

/// Digits in front do not stand for more than the whole.
proof fn lemma_value_of_prefix(digits: Seq<char>, length: int)
    requires
        all_digits(digits),
        0 <= length <= digits.len(),
    ensures
        value_of(digits.take(length)) <= value_of(digits),
    decreases digits.len() - length,
{
    if length == digits.len() {
        assert(digits.take(length) =~= digits);
    } else {
        lemma_value_of_prefix(digits, length + 1);
        assert(digits.take(length + 1).drop_last() =~= digits.take(length));
    }
}

/// Appends one decimal digit to `out`.
fn append_digit(out: &mut String, value: u32)
    requires
        value < 10,
    ensures
        final(out)@ == old(out)@.push(digit(value as nat)),
{
    let text: &'static str = match value {
        0 => "0",
        1 => "1",
        2 => "2",
        3 => "3",
        4 => "4",
        5 => "5",
        6 => "6",
        7 => "7",
        8 => "8",
        _ => "9",
    };
    proof {
        reveal_strlit("0");
        reveal_strlit("1");
        reveal_strlit("2");
        reveal_strlit("3");
        reveal_strlit("4");
        reveal_strlit("5");
        reveal_strlit("6");
        reveal_strlit("7");
        reveal_strlit("8");
        reveal_strlit("9");
    }
    assert(text@ =~= seq![digit(value as nat)]);
    out.append(text);
    assert(out@ =~= old(out)@.push(digit(value as nat)));
}

/// Appends the numeral of `value` to `out`.
pub fn append_numeral(out: &mut String, value: u32)
    ensures
        final(out)@ == old(out)@ + numeral(value as nat),
    decreases value,
{
    if value >= 10 {
        append_numeral(out, value / 10);
    }
    append_digit(out, value % 10);
    assert(out@ =~= old(out)@ + numeral(value as nat));
}

/// Reads an unsigned number, as `str::parse::<u32>` does.
pub fn parse_u32(text: &str) -> (value: Option<u32>)
    ensures
        value == parsed(text@),
{
    let chars = text::chars_of(text);
    let start: usize = if chars.len() > 0 && chars[0] == '+' {
        1
    } else {
        0
    };
    let ghost digits = unsigned_part(text@);
    assert(text@.skip(0) =~= text@);
    if start == chars.len() {
        return None;
    }
    let mut value: u32 = 0;
    let mut i: usize = start;
    while i < chars.len()
        invariant
            start <= i <= chars@.len(),
            start < chars@.len(),
            chars@ == text@,
            digits == unsigned_part(text@),
            digits == text@.skip(start as int),
            all_digits(digits.take(i - start)),
            value == value_of(digits.take(i - start)),
        decreases chars@.len() - i,
    {
        let c = chars[i];
        let ghost seen = i - start;
        assert(digits[seen] == c);
        if !('0' <= c && c <= '9') {
            return None;
        }
        let next: u64 = value as u64 * 10 + (c as u32 - 0x30) as u64;
        assert(digits.take(seen + 1).drop_last() =~= digits.take(seen));
        assert(next == value_of(digits.take(seen + 1)));
        if next > u32::MAX as u64 {
            proof {
                if all_digits(digits) {
                    lemma_value_of_prefix(digits, seen + 1);
                }
            }
            return None;
        }
        assert forall|j: int| 0 <= j < seen + 1 implies is_digit(
            #[trigger] digits.take(seen + 1)[j],
        ) by {
            if j < seen {
                assert(digits.take(seen)[j] == digits.take(seen + 1)[j]);
            }
        }
        value = next as u32;
        i = i + 1;
    }
    assert(digits.take(i - start) =~= digits);
    Some(value)
}

/// A numeral is written digit by digit: that of a number below ten is its digit, and one more digit
/// at the end stands for ten times the number plus that digit.
pub proof fn numerals_are_written_digit_by_digit(value: nat, last: nat)
    requires
        last < 10,
    ensures
        numeral(last).len() == 1,
        numeral(last)[0] as u32 == '0' as u32 + last,
        value > 0 ==> numeral(value * 10 + last) == numeral(value) + numeral(last),
{
    if value > 0 {
        assert((value * 10 + last) / 10 == value);
        assert((value * 10 + last) % 10 == last);
        assert(numeral(value * 10 + last) =~= numeral(value) + numeral(last));
    }
}

/// The number that digits stand for, digit by digit: nothing for none, and ten times the number
/// plus the digit for one more at the end.
pub proof fn digits_count_by_ten(digits: Seq<char>, last: char)
    requires
        '0' <= last <= '9',
    ensures
        value_of(Seq::<char>::empty()) == 0,
        value_of(digits.push(last)) == value_of(digits) * 10 + (last as u32 - '0' as u32),
{
    assert(digits.push(last).drop_last() =~= digits);
}

/// A text is a number exactly where it holds at least one digit, nothing but digits behind at most
/// one plus sign, and the number stays below two to the power of thirty-two.
pub proof fn numbers_are_digits_behind_a_sign(digits: Seq<char>)
    ensures
        digits.len() > 0 && (forall|i: int|
            0 <= i < digits.len() ==> '0' <= #[trigger] digits[i] <= '9') && value_of(digits)
            <= 0xFFFF_FFFF ==> {
            &&& parsed(digits) == Some(value_of(digits) as u32)
            &&& parsed(seq!['+'] + digits) == Some(value_of(digits) as u32)
        },
        digits.len() > 0 && (forall|i: int|
            0 <= i < digits.len() ==> '0' <= #[trigger] digits[i] <= '9') && value_of(digits)
            > 0xFFFF_FFFF ==> parsed(digits) is None && parsed(seq!['+'] + digits) is None,
        parsed(Seq::<char>::empty()) is None,
        parsed(seq!['+']) is None,
        forall|i: int|
            0 < i < digits.len() && !('0' <= #[trigger] digits[i] <= '9') ==> parsed(digits) is None,
        digits.len() > 0 && !('0' <= digits[0] <= '9') && digits[0] != '+' ==> parsed(
            digits,
        ) is None,
{
    let signed = seq!['+'] + digits;
    assert(signed.skip(1) =~= digits);
    assert(seq!['+'].skip(1) =~= Seq::<char>::empty());
    if digits.len() > 0 {
        if digits[0] != '+' {
            assert(unsigned_part(digits) == digits);
        }
        if forall|i: int| 0 <= i < digits.len() ==> '0' <= #[trigger] digits[i] <= '9' {
            assert('0' <= digits[0] <= '9');
            assert(all_digits(digits));
        }
        assert forall|i: int|
            0 < i < digits.len() && !('0' <= #[trigger] digits[i] <= '9') implies parsed(
            digits,
        ) is None by {
            let part = unsigned_part(digits);
            if digits[0] == '+' {
                assert(part[i - 1] == digits[i]);
                assert(!is_digit(part[i - 1]));
            } else {
                assert(!is_digit(part[i]));
            }
        }
        if !('0' <= digits[0] <= '9') && digits[0] != '+' {
            assert(!is_digit(unsigned_part(digits)[0]));
        }
    }
}

} // verus!
