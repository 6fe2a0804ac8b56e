//! Numbers written as text, and read from it.

use crate::text::chars_of;
use vstd::prelude::*;
use vstd::slice::slice_subrange;
use vstd::string::*;

verus! {

/// The character of a digit, in lower case above nine.
pub open spec fn digit(value: int) -> char {
    if value < 10 {
        (0x30 + value) as char
    } else {
        (0x61 + value - 10) as char
    }
}

/// `value` written to the base `base`, without leading zeros.
pub open spec fn numeral(value: nat, base: nat) -> Seq<char>
    decreases value,
{
    if base < 2 || value < base {
        seq![digit(value as int)]
    } else {
        proof {
            vstd::arithmetic::div_mod::lemma_div_decreases(value as int, base as int);
        }
        numeral(value / base, base).push(digit((value % base) as int))
    }
}

/// `value` in decimal.
pub open spec fn decimal(value: nat) -> Seq<char> {
    numeral(value, 10)
}

/// `text` with spaces before it to fill `width` characters; `text` itself where
/// it already has as many.
pub open spec fn padded_left(text: Seq<char>, width: int) -> Seq<char> {
    Seq::new(
        if width > text.len() {
            (width - text.len()) as nat
        } else {
            0
        },
        |i: int| ' ',
    ) + text
}

/// `text` with spaces after it to fill `width` characters; `text` itself where
/// it already has as many.
pub open spec fn padded_right(text: Seq<char>, width: int) -> Seq<char> {
    text + Seq::new(
        if width > text.len() {
            (width - text.len()) as nat
        } else {
            0
        },
        |i: int| ' ',
    )
}

/// `value`, which is below one hundred, as two decimal digits.
pub open spec fn two_digits(value: int) -> Seq<char> {
    seq![digit(value / 10), digit(value % 10)]
}

/// The bytes as two lower case hexadecimal digits each.
pub open spec fn hex_of(bytes: Seq<u8>) -> Seq<char> {
    Seq::new(
        2 * bytes.len(),
        |i: int|
            if i % 2 == 0 {
                digit(bytes[i / 2] as int / 16)
            } else {
                digit(bytes[i / 2] as int % 16)
            },
    )
}

/// A decimal digit.
pub open spec fn is_digit(c: char) -> bool {
    '0' <= c <= '9'
}

/// Text made only of decimal digits.
pub open spec fn all_digits(text: Seq<char>) -> bool {
    forall|i: int| 0 <= i < text.len() ==> is_digit(#[trigger] text[i])
}

/// The number that decimal digits write.
pub open spec fn digits_value(digits: Seq<char>) -> nat
    decreases digits.len(),
{
    if digits.len() == 0 {
        0
    } else {
        digits_value(digits.drop_last()) * 10 + (digits.last() as nat - 0x30) as nat
    }
}

/// The digits of a number that may carry a plus sign.
pub open spec fn without_plus(text: Seq<char>) -> Seq<char> {
    if text.len() > 0 && text[0] == '+' {
        text.skip(1)
    } else {
        text
    }
}

/// The number, at most `max`, that `text` writes: one or more decimal digits
/// after at most one plus sign.
pub open spec fn parsed_number(text: Seq<char>, max: nat) -> Option<nat> {
    let digits = without_plus(text);
    if digits.len() > 0 && all_digits(digits) && digits_value(digits) <= max {
        Some(digits_value(digits))
    } else {
        None
    }
}

// -- lemmas ------------------------------------------------------------------

/// A number does not shrink as digits are added to it.
pub proof fn lemma_digits_value_grows(digits: Seq<char>, count: int)
    requires
        0 <= count <= digits.len(),
        all_digits(digits),
    ensures
        digits_value(digits.take(count)) <= digits_value(digits),
    decreases digits.len(),
{
    if count < digits.len() {
        lemma_digits_value_grows(digits.drop_last(), count);
        assert(digits.drop_last().take(count) =~= digits.take(count));
        assert(is_digit(digits[digits.len() - 1]));
    } else {
        assert(digits.take(count) =~= digits);
    }
}

/// What `decimal` writes, `digits_value` reads back.
pub proof fn lemma_decimal_reads_back(value: nat)
    ensures
        all_digits(decimal(value)),
        digits_value(decimal(value)) == value,
    decreases value,
{
    let written = decimal(value);
    if value < 10 {
        assert(written.drop_last() =~= Seq::<char>::empty());
        assert(digits_value(written.drop_last()) == 0);
    } else {
        lemma_decimal_reads_back(value / 10);
        assert(written.drop_last() =~= decimal(value / 10));
        assert forall|i: int| 0 <= i < written.len() implies is_digit(#[trigger] written[i]) by {
            if i < written.len() - 1 {
                assert(is_digit(decimal(value / 10)[i]));
            }
        }
    }
}

/// A number written in decimal is read back as that number.
pub proof fn law_decimal_round_trip(value: nat, max: nat)
    requires
        value <= max,
    ensures
        parsed_number(decimal(value), max) == Some(value),
{
    lemma_decimal_reads_back(value);
    assert(is_digit(decimal(value)[0]));
}

/// Digests that differ are written differently.
pub proof fn law_hex_is_injective(a: Seq<u8>, b: Seq<u8>)
    requires
        hex_of(a) == hex_of(b),
    ensures
        a == b,
{
    assert(hex_of(a).len() == 2 * a.len() && hex_of(b).len() == 2 * b.len());
    assert forall|i: int| 0 <= i < a.len() implies a[i] == b[i] by {
        assert((2 * i) / 2 == i && (2 * i + 1) / 2 == i && (2 * i) % 2 == 0);
        assert(hex_of(a)[2 * i] == digit(a[i] as int / 16));
        assert(hex_of(b)[2 * i] == digit(b[i] as int / 16));
        assert(hex_of(a)[2 * i + 1] == digit(a[i] as int % 16));
        assert(hex_of(b)[2 * i + 1] == digit(b[i] as int % 16));
    }
    assert(a =~= b);
}

// -- writing -----------------------------------------------------------------

/// The character of a digit, in lower case above nine.
pub fn digit_char(value: u8) -> (c: char)
    requires
        value < 16,
    ensures
        c == digit(value as int),
{
    if value < 10 {
        (0x30 + value) as char
    } else {
        (0x61 + (value - 10)) as char
    }
}

/// `value` written to the base `base`, without leading zeros.
pub fn write_number(value: u64, base: u8) -> (text: String)
    requires
        2 <= base <= 16,
    ensures
        text@ == numeral(value as nat, base as nat),
    decreases value,
{
    let wide: u64 = base as u64;
    if value < wide {
        let mut text = String::new();
        text.push(digit_char(value as u8));
        assert(text@ =~= numeral(value as nat, base as nat));
        text
    } else {
        proof {
            vstd::arithmetic::div_mod::lemma_div_decreases(value as int, base as int);
        }
        let mut text = write_number(value / wide, base);
        text.push(digit_char((value % wide) as u8));
        text
    }
}

/// `value` in decimal.
pub fn write_decimal(value: u64) -> (text: String)
    ensures
        text@ == decimal(value as nat),
{
    write_number(value, 10)
}

/// `value`, which is below one hundred, as two decimal digits.
pub fn write_two_digits(value: u64) -> (text: String)
    requires
        value < 100,
    ensures
        text@ == two_digits(value as int),
{
    let mut text = String::new();
    text.push(digit_char((value / 10) as u8));
    text.push(digit_char((value % 10) as u8));
    assert(text@ =~= two_digits(value as int));
    text
}

/// `count` spaces.
pub fn spaces(count: usize) -> (text: String)
    ensures
        text@ == Seq::new(count as nat, |i: int| ' '),
{
    let mut text = String::new();
    let mut i: usize = 0;
    while i < count
        invariant
            i <= count,
            text@ =~= Seq::new(i as nat, |j: int| ' '),
        decreases count - i,
    {
        text.push(' ');
        i += 1;
    }
    text
}

/// `text` with spaces before it to fill `width` characters.
pub fn pad_left(text: &str, width: usize) -> (padded: String)
    ensures
        padded@ == padded_left(text@, width as int),
{
    let length = chars_of(text).len();
    let mut padded = spaces(if width > length { width - length } else { 0 });
    padded.append(text);
    padded
}

/// `text` with spaces after it to fill `width` characters.
pub fn pad_right(text: &str, width: usize) -> (padded: String)
    ensures
        padded@ == padded_right(text@, width as int),
{
    let length = chars_of(text).len();
    let mut padded = text.to_owned();
    let fill = spaces(if width > length { width - length } else { 0 });
    padded.append(fill.as_str());
    padded
}

/// The bytes as two lower case hexadecimal digits each.
pub fn hex(bytes: &[u8]) -> (text: String)
    ensures
        text@ == hex_of(bytes@),
{
    let mut text = String::new();
    let mut i: usize = 0;
    while i < bytes.len()
        invariant
            i <= bytes@.len(),
            text@ =~= hex_of(bytes@.take(i as int)),
        decreases bytes@.len() - i,
    {
        let ghost before = text@;
        text.push(digit_char(bytes[i] / 16));
        text.push(digit_char(bytes[i] % 16));
        i += 1;
        assert(text@ =~= hex_of(bytes@.take(i as int))) by {
            assert forall|j: int| 0 <= j < 2 * i implies text@[j] == hex_of(
                bytes@.take(i as int),
            )[j] by {
                if j < 2 * (i - 1) {
                    assert(before[j] == hex_of(bytes@.take(i - 1))[j]);
                    assert(bytes@.take(i as int)[j / 2] == bytes@.take(i - 1)[j / 2]);
                } else {
                    assert(j / 2 == i - 1);
                }
            }
        }
    }
    assert(bytes@.take(i as int) =~= bytes@);
    text
}

// -- reading -----------------------------------------------------------------

/// The number, at most `max`, that `text` writes.
pub fn parse_number(text: &[char], max: u64) -> (number: Option<u64>)
    ensures
        match number {
            Some(value) => parsed_number(text@, max as nat) == Some(value as nat),
            None => parsed_number(text@, max as nat) is None,
        },
{
    let digits: &[char] = if text.len() > 0 && text[0] == '+' {
        slice_subrange(text, 1, text.len())
    } else {
        text
    };
    if digits.len() == 0 {
        return None;
    }
    let mut value: u64 = 0;
    let mut i: usize = 0;
    while i < digits.len()
        invariant
            i <= digits@.len(),
            digits@ == without_plus(text@),
            value == digits_value(digits@.take(i as int)),
            value <= max,
            forall|j: int| 0 <= j < i ==> is_digit(#[trigger] digits@[j]),
        decreases digits@.len() - i,
    {
        let c = digits[i];
        if c < '0' || c > '9' {
            assert(!is_digit(digits@[i as int]));
            return None;
        }
        let next: u128 = value as u128 * 10 + (c as u32 - 0x30) as u128;
        proof {
            assert(digits@.take(i + 1).drop_last() =~= digits@.take(i as int));
            assert(next == digits_value(digits@.take(i + 1)));
        }
        if next > max as u128 {
            proof {
                if all_digits(digits@) {
                    lemma_digits_value_grows(digits@, i + 1);
                }
            }
            return None;
        }
        value = next as u64;
        i += 1;
    }
    assert(digits@.take(i as int) =~= digits@);
    Some(value)
}

// -- laws on writing ---------------------------------------------------------

/// A number is written as what its tenth is written as, and then its last digit.
pub proof fn law_decimal_appends_the_last_digit(value: nat, last: nat)
    requires
        last < 10,
    ensures
        decimal(last) == seq![(0x30 + last) as char],
        value > 0 ==> decimal(10 * value + last) == decimal(value).push((0x30 + last) as char),
{
    assert((10 * value + last) / 10 == value);
    assert((10 * value + last) % 10 == last);
}

/// A number in another base is written as what its quotient by the base is written
/// as, and then the digit of the remainder, in lower case above nine.
pub proof fn law_numeral_appends_the_last_digit(value: nat, last: nat, base: nat)
    requires
        last < base,
        2 <= base <= 16,
    ensures
        numeral(last, base) == seq![digit(last as int)],
        value > 0 ==> numeral(base * value + last, base) == numeral(value, base).push(
            digit(last as int),
        ),
        digit(last as int) == if last < 10 {
            (0x30 + last) as char
        } else {
            (0x61 + last - 10) as char
        },
{
    assert(base * value == value * base) by (nonlinear_arith);
    vstd::arithmetic::div_mod::lemma_fundamental_div_mod_converse(
        (base * value + last) as int,
        base as int,
        value as int,
        last as int,
    );
    if value > 0 {
        assert(base * value + last >= base) by (nonlinear_arith)
            requires
                value > 0,
                base > 0,
                last >= 0,
        ;
    }
}

/// Digits count ten times as much as those after them.
pub proof fn law_digits_count_tenfold(digits: Seq<char>, last: char)
    requires
        '0' <= last <= '9',
    ensures
        digits_value(Seq::empty()) == 0,
        digits_value(digits.push(last)) == 10 * digits_value(digits) + (last as int - 0x30),
{
    assert(digits.push(last).drop_last() =~= digits);
}

/// Digits, after a plus sign or none, are read as the number that they write, unless
/// it is too large; and nothing else is read.
pub proof fn law_only_digits_are_read(digits: Seq<char>, max: nat)
    ensures
        (digits.len() > 0 && (forall|i: int|
            0 <= i < digits.len() ==> '0' <= #[trigger] digits[i] <= '9')) ==> parsed_number(
            digits,
            max,
        ) == (if digits_value(digits) <= max {
            Some(digits_value(digits))
        } else {
            None
        }) && parsed_number(seq!['+'] + digits, max) == parsed_number(digits, max),
        (exists|i: int| 1 <= i < digits.len() && !('0' <= #[trigger] digits[i] <= '9'))
            ==> parsed_number(digits, max) is None,
        digits.len() == 0 ==> parsed_number(digits, max) is None && parsed_number(
            seq!['+'] + digits,
            max,
        ) is None,
        digits.len() > 0 && digits[0] != '+' && !('0' <= digits[0] <= '9') ==> parsed_number(
            digits,
            max,
        ) is None,
{
    let signed = seq!['+'] + digits;
    assert(signed.skip(1) =~= digits);
    assert(signed[0] == '+');
    let rest = without_plus(digits);
    if exists|i: int| 1 <= i < digits.len() && !('0' <= #[trigger] digits[i] <= '9') {
        let i = choose|i: int| 1 <= i < digits.len() && !('0' <= #[trigger] digits[i] <= '9');
        if digits[0] == '+' {
            assert(rest[i - 1] == digits[i]);
            assert(!is_digit(rest[i - 1]));
        } else {
            assert(!is_digit(rest[i]));
        }
    }
    if digits.len() > 0 && digits[0] != '+' && !('0' <= digits[0] <= '9') {
        assert(!is_digit(rest[0]));
    }
    if digits.len() > 0 && forall|i: int|
        0 <= i < digits.len() ==> '0' <= #[trigger] digits[i] <= '9' {
        assert('0' <= digits[0] <= '9');
        assert(all_digits(digits));
    }
}

/// Bytes are written as two hexadecimal digits each, the higher first.
pub proof fn law_bytes_are_two_digits(bytes: Seq<u8>, byte: u8)
    ensures
        hex_of(Seq::empty()).len() == 0,
        hex_of(bytes.push(byte)) == hex_of(bytes).push("0123456789abcdef"@[byte as int / 16]).push(
            "0123456789abcdef"@[byte as int % 16],
        ),
{
    reveal_strlit("0123456789abcdef");
    let all = hex_of(bytes.push(byte));
    let front = hex_of(bytes);
    lemma_hex_digit(byte as int / 16);
    lemma_hex_digit(byte as int % 16);
    assert forall|i: int| 0 <= i < 2 * bytes.len() implies all[i] == front[i] by {
        assert(0 <= i / 2 < bytes.len());
    }
    let n = bytes.len() as int;
    assert((2 * n) / 2 == n && (2 * n + 1) / 2 == n && (2 * n) % 2 == 0 && (2 * n + 1) % 2 == 1);
    assert(all =~= front.push(digit(byte as int / 16)).push(digit(byte as int % 16)));
}

proof fn lemma_hex_digit(value: int)
    requires
        0 <= value < 16,
    ensures
        digit(value) == "0123456789abcdef"@[value],
{
    reveal_strlit("0123456789abcdef");
}

/// A padded text is as wide as asked for, or as wide as it is, and holds the text at
/// one end and blanks at the other.
pub proof fn law_padding_fills_up(text: Seq<char>, width: int)
    ensures
        padded_left(text, width).len() == if width > text.len() {
            width
        } else {
            text.len() as int
        },
        padded_right(text, width).len() == padded_left(text, width).len(),
        padded_left(text, width).skip(padded_left(text, width).len() - text.len()) == text,
        padded_right(text, width).take(text.len() as int) == text,
        forall|i: int|
            0 <= i < width - text.len() ==> #[trigger] padded_left(text, width)[i] == ' ',
        forall|i: int|
            text.len() <= i < width ==> #[trigger] padded_right(text, width)[i] == ' ',
{
    assert(padded_left(text, width).skip(padded_left(text, width).len() - text.len()) =~= text);
    assert(padded_right(text, width).take(text.len() as int) =~= text);
}

/// Two digits write the numbers below a hundred.
pub proof fn law_two_digits_are_decimal(value: int)
    requires
        0 <= value < 100,
    ensures
        value >= 10 ==> two_digits(value) == decimal(value as nat),
        value < 10 ==> two_digits(value) == seq!['0'] + decimal(value as nat),
{
    if value >= 10 {
        law_decimal_appends_the_last_digit((value / 10) as nat, (value % 10) as nat);
        law_decimal_appends_the_last_digit(0, (value / 10) as nat);
        assert(two_digits(value) =~= decimal(value as nat));
    } else {
        assert(two_digits(value) =~= seq!['0'] + decimal(value as nat));
    }
}

} // verus!
