//! Numerals: the decimal and hexadecimal notation of natural numbers, read and
//! written digit by digit.

use vstd::prelude::*;

verus! {

/// A decimal digit.
pub open spec fn is_digit(c: char) -> bool {
    '0' <= c <= '9'
}

/// A hexadecimal digit, in either case.
pub open spec fn is_hex_digit(c: char) -> bool {
    is_digit(c) || 'a' <= c <= 'f' || 'A' <= c <= 'F'
}

/// The number that a digit stands for.
pub open spec fn digit_value(c: char) -> nat {
    if is_digit(c) {
        (c as int - '0' as int) as nat
    } else if 'a' <= c <= 'f' {
        (c as int - 'a' as int + 10) as nat
    } else if 'A' <= c <= 'F' {
        (c as int - 'A' as int + 10) as nat
    } else {
        0
    }
}

/// A decimal numeral: one decimal digit or more.
pub open spec fn is_decimal(text: Seq<char>) -> bool {
    text.len() > 0 && forall|i: int| 0 <= i < text.len() ==> is_digit(#[trigger] text[i])
}

/// A hexadecimal numeral: one hexadecimal digit or more.
pub open spec fn is_hex(text: Seq<char>) -> bool {
    text.len() > 0 && forall|i: int| 0 <= i < text.len() ==> is_hex_digit(#[trigger] text[i])
}

/// The number that a decimal numeral stands for.
pub open spec fn decimal_value(text: Seq<char>) -> nat
    decreases text.len(),
{
    if text.len() == 0 {
        0
    } else {
        10 * decimal_value(text.drop_last()) + digit_value(text.last())
    }
}

/// The number that a hexadecimal numeral stands for.
pub open spec fn hex_value(text: Seq<char>) -> nat
    decreases text.len(),
{
    if text.len() == 0 {
        0
    } else {
        16 * hex_value(text.drop_last()) + digit_value(text.last())
    }
}

/// The digit for a number below 16, a lower-case letter from ten on.
pub open spec fn digit_for(value: nat) -> char {
    if value < 10 {
        (value + '0' as nat) as char
    } else {
        (value - 10 + 'a' as nat) as char
    }
}

/// The decimal numeral of a number, without leading zeros.
pub open spec fn decimal_text(value: nat) -> Seq<char>
    decreases value,
{
    if value < 10 {
        seq![digit_for(value)]
    } else {
        decimal_text(value / 10).push(digit_for(value % 10))
    }
}

/// The hexadecimal numeral of a number, in lower case and without leading
/// zeros.
pub open spec fn hex_text(value: nat) -> Seq<char>
    decreases value,
{
    if value < 16 {
        seq![digit_for(value)]
    } else {
        hex_text(value / 16).push(digit_for(value % 16))
    }
}

/// A numeral stands for at least as much as any of its beginnings.
pub proof fn lemma_decimal_value_grows(text: Seq<char>, upto: int)
    requires
        0 <= upto <= text.len(),
    ensures
        decimal_value(text.take(upto)) <= decimal_value(text),
    decreases text.len(),
{
    if upto == text.len() {
        assert(text.take(upto) == text);
    } else {
        assert(text.drop_last().take(upto) == text.take(upto));
        lemma_decimal_value_grows(text.drop_last(), upto);
    }
}

/// The decimal numeral of a number is a decimal numeral that stands for the
/// number, and it begins with a zero only where the number is zero.
pub proof fn lemma_decimal_text(value: nat)
    ensures
        is_decimal(decimal_text(value)),
        decimal_value(decimal_text(value)) == value,
        value > 0 ==> decimal_text(value)[0] != '0',
        value < 10 <==> decimal_text(value).len() == 1,
    decreases value,
{
    let text = decimal_text(value);
    if value < 10 {
        assert(text.drop_last().len() == 0);
        assert(decimal_value(text.drop_last()) == 0);
    } else {
        lemma_decimal_text(value / 10);
        let before = decimal_text(value / 10);
        assert(text.drop_last() == before);
        assert(text[0] == before[0]);
        assert forall|i: int| 0 <= i < text.len() implies is_digit(#[trigger] text[i]) by {
            if i < before.len() {
                assert(text[i] == before[i]);
            }
        }
    }
}

/// The hexadecimal numeral of a number is a hexadecimal numeral that stands
/// for the number, with a digit for each power of 16 that the number reaches.
pub proof fn lemma_hex_text(value: nat)
    ensures
        is_hex(hex_text(value)),
        hex_value(hex_text(value)) == value,
        value < 0x10 ==> hex_text(value).len() == 1,
        value < 0x100 ==> hex_text(value).len() <= 2,
        value < 0x1000 ==> hex_text(value).len() <= 3,
        value < 0x10000 ==> hex_text(value).len() <= 4,
    decreases value,
{
    let text = hex_text(value);
    if value < 16 {
        assert(text.drop_last().len() == 0);
        assert(hex_value(text.drop_last()) == 0);
    } else {
        lemma_hex_text(value / 16);
        let before = hex_text(value / 16);
        assert(text.drop_last() == before);
        assert forall|i: int| 0 <= i < text.len() implies is_hex_digit(#[trigger] text[i]) by {
            if i < before.len() {
                assert(text[i] == before[i]);
            }
        }
    }
}

/// The number that `c` stands for as a decimal digit, if it is one.
pub fn decimal_digit(c: char) -> (digit: Option<u8>)
    ensures
        digit == (if is_digit(c) {
            Some(digit_value(c) as u8)
        } else {
            None
        }),
{
    if '0' <= c && c <= '9' {
        Some((c as u32 - '0' as u32) as u8)
    } else {
        None
    }
}

/// The number that `c` stands for as a hexadecimal digit, if it is one.
pub fn hex_digit(c: char) -> (digit: Option<u8>)
    ensures
        digit == (if is_hex_digit(c) {
            Some(digit_value(c) as u8)
        } else {
            None
        }),
{
    if '0' <= c && c <= '9' {
        Some((c as u32 - '0' as u32) as u8)
    } else if 'a' <= c && c <= 'f' {
        Some((c as u32 - 'a' as u32 + 10) as u8)
    } else if 'A' <= c && c <= 'F' {
        Some((c as u32 - 'A' as u32 + 10) as u8)
    } else {
        None
    }
}

/// The digit for `value`.
pub(crate) fn digit_char(value: u8) -> (c: char)
    requires
        value < 16,
    ensures
        c == digit_for(value as nat),
{
    if value < 10 {
        (value + 48) as char
    } else {
        (value + 87) as char
    }
}

/// Reads a decimal numeral that stands for no more than `limit`.
pub fn parse_decimal(text: &[char], limit: u16) -> (value: Option<u16>)
    ensures
        value == (if is_decimal(text@) && decimal_value(text@) <= limit {
            Some(decimal_value(text@) as u16)
        } else {
            None
        }),
{
    if text.len() == 0 {
        return None;
    }
    let mut value: u32 = 0;
    let mut i: usize = 0;
    assert(text@.take(0).len() == 0);
    while i < text.len()
        invariant
            i <= text@.len(),
            value <= limit,
            value == decimal_value(text@.take(i as int)),
            forall|j: int| 0 <= j < i ==> is_digit(#[trigger] text@[j]),
        decreases text@.len() - i,
    {
        proof {
            assert(text@.take(i + 1).drop_last() == text@.take(i as int));
            lemma_decimal_value_grows(text@, i + 1);
        }
        match decimal_digit(text[i]) {
            Some(digit) => {
                let next = value * 10 + digit as u32;
                if next > limit as u32 {
                    return None;
                }
                value = next;
            },
            None => {
                return None;
            },
        }
        i += 1;
    }
    assert(text@.take(i as int) == text@);
    Some(value as u16)
}

/// Reads a hexadecimal numeral of at most four digits.
pub fn parse_hex_group(text: &[char]) -> (value: Option<u16>)
    ensures
        value == (if is_hex(text@) && text@.len() <= 4 {
            Some(hex_value(text@) as u16)
        } else {
            None
        }),
        is_hex(text@) && text@.len() <= 4 ==> hex_value(text@) <= 0xFFFF,
{
    if text.len() == 0 || text.len() > 4 {
        return None;
    }
    let mut value: u32 = 0;
    let mut i: usize = 0;
    assert(text@.take(0).len() == 0);
    while i < text.len()
        invariant
            i <= text@.len() <= 4,
            value == hex_value(text@.take(i as int)),
            i == 0 ==> value == 0,
            i == 1 ==> value < 0x10,
            i == 2 ==> value < 0x100,
            i == 3 ==> value < 0x1000,
            i == 4 ==> value < 0x10000,
            forall|j: int| 0 <= j < i ==> is_hex_digit(#[trigger] text@[j]),
        decreases text@.len() - i,
    {
        proof {
            assert(text@.take(i + 1).drop_last() == text@.take(i as int));
        }
        match hex_digit(text[i]) {
            Some(digit) => {
                value = value * 16 + digit as u32;
            },
            None => {
                return None;
            },
        }
        i += 1;
    }
    assert(text@.take(i as int) == text@);
    Some(value as u16)
}

/// Writes the decimal numeral of `value` at the end of `out`.
pub fn push_decimal(out: &mut String, value: u8)
    ensures
        final(out)@ == old(out)@ + decimal_text(value as nat),
{
    let ghost n = value as nat;
    if value >= 100 {
        out.push(digit_char(value / 100));
    }
    if value >= 10 {
        out.push(digit_char((value / 10) % 10));
    }
    out.push(digit_char(value % 10));
    proof {
        assert(decimal_text(n / 100) == seq![digit_for(n / 100)]);
        if n >= 10 {
            assert(decimal_text(n / 10) == if n >= 100 {
                seq![digit_for(n / 100), digit_for((n / 10) % 10)]
            } else {
                seq![digit_for(n / 10)]
            });
        }
        assert(out@ == old(out)@ + decimal_text(n));
    }
}

/// Writes the hexadecimal numeral of `value` at the end of `out`.
pub fn push_hex(out: &mut String, value: u16)
    ensures
        final(out)@ == old(out)@ + hex_text(value as nat),
{
    let ghost n = value as nat;
    if value >= 0x1000 {
        out.push(digit_char((value / 0x1000) as u8));
    }
    if value >= 0x100 {
        out.push(digit_char(((value / 0x100) % 16) as u8));
    }
    if value >= 0x10 {
        out.push(digit_char(((value / 0x10) % 16) as u8));
    }
    out.push(digit_char((value % 16) as u8));
    proof {
        assert(hex_text(n / 0x1000) == seq![digit_for(n / 0x1000)]);
        if n >= 0x100 {
            assert(hex_text(n / 0x100) == if n >= 0x1000 {
                seq![digit_for(n / 0x1000), digit_for((n / 0x100) % 16)]
            } else {
                seq![digit_for(n / 0x100)]
            });
        }
        if n >= 0x10 {
            assert(hex_text(n / 0x10) == if n >= 0x100 {
                hex_text(n / 0x100).push(digit_for((n / 0x10) % 16))
            } else {
                seq![digit_for(n / 0x10)]
            });
        }
        assert(out@ == old(out)@ + hex_text(n));
    }
}

} // verus!
