//! Reading and writing numbers and short texts.
use vstd::prelude::*;
use vstd::string::StrSliceExecFns;
use vstd::string::StringExecFns;

verus! {

/// Whether the two texts read the same.
pub fn same_text(a: &str, b: &str) -> (same: bool)
    ensures
        same == (a@ == b@),
{
    a.to_owned() == b.to_owned()
}

/// The characters of a text, one by one.
pub fn chars_of(text: &str) -> (chars: Vec<char>)
    ensures
        chars@ == text@,
{
    let mut chars: Vec<char> = Vec::new();
    for c in iter: text.chars()
        invariant
            iter.seq() == text@,
            chars@ == text@.take(iter.index() as int),
    {
        chars.push(c);
        assert(text@.take(iter.index() + 1) =~= text@.take(iter.index() as int).push(c));
    }
    assert(text@.take(text@.len() as int) =~= text@);
    chars
}

/// The decimal digit `d` as a character.
pub open spec fn digit_char(d: int) -> char {
    (48 + d) as char
}

/// `n` in decimal, without leading zeros.
pub open spec fn decimal(n: nat) -> Seq<char>
    decreases n,
{
    if n < 10 {
        seq![digit_char(n as int)]
    } else {
        decimal(n / 10).push(digit_char((n % 10) as int))
    }
}

fn digit_text(d: usize) -> (text: &'static str)
    requires
        d < 10,
    ensures
        text@ == seq![digit_char(d as int)],
{
    let digits: &'static str = "0123456789";
    proof {
        reveal_strlit("0123456789");
    }
    let text = digits.substring_char(d, d + 1);
    assert(text@ =~= seq![digit_char(d as int)]);
    text
}

/// Writes `n` in decimal.
pub fn decimal_text(n: u128) -> (text: String)
    ensures
        text@ == decimal(n as nat),
    decreases n,
{
    if n < 10 {
        digit_text(n as usize).to_owned()
    } else {
        let mut text = decimal_text(n / 10);
        text.append(digit_text((n % 10) as usize));
        assert(text@ =~= decimal((n / 10) as nat).push(digit_char((n % 10) as int)));
        text
    }
}

/// `n` in decimal, filled with zeros from the left to at least `width`
/// characters.
pub open spec fn zero_padded(n: nat, width: nat) -> Seq<char> {
    let digits = decimal(n);
    let fill = if digits.len() < width {
        (width - digits.len()) as nat
    } else {
        0
    };
    Seq::new(fill, |i: int| '0') + digits
}

/// Writes `n` in decimal, zero-filled to `width` characters.
pub fn zero_padded_text(n: u128, width: usize) -> (text: String)
    ensures
        text@ == zero_padded(n as nat, width as nat),
{
    let digits = decimal_text(n);
    let length: usize = digits.as_str().unicode_len();
    let mut text = String::new();
    let mut filled: usize = length;
    proof {
        reveal_strlit("0");
    }
    while filled < width
        invariant
            length <= filled,
            length < width ==> filled <= width,
            filled >= width && length < width ==> filled == width,
            length >= width ==> filled == length,
            "0"@ == seq!['0'],
            text@ == Seq::new((filled - length) as nat, |i: int| '0'),
        decreases width - filled,
    {
        text.append("0");
        filled = filled + 1;
        assert(text@ =~= Seq::new((filled - length) as nat, |i: int| '0'));
    }
    text.append(digits.as_str());
    text
}

/// What the character counts for as a digit, if it is one in this radix.
pub open spec fn digit_value(c: char, radix: int) -> Option<int> {
    let code = c as int;
    let value = if 48 <= code <= 57 {
        code - 48
    } else if 97 <= code <= 122 {
        code - 87
    } else if 65 <= code <= 90 {
        code - 55
    } else {
        radix
    };
    if value < radix {
        Some(value)
    } else {
        None
    }
}

/// The number that the digits write, if all of them are digits.
pub open spec fn digits_value(digits: Seq<char>, radix: int) -> Option<int>
    decreases digits.len(),
{
    if digits.len() == 0 {
        Some(0)
    } else {
        match (digits_value(digits.drop_last(), radix), digit_value(digits.last(), radix)) {
            (Some(high), Some(low)) => Some(high * radix + low),
            _ => None,
        }
    }
}

/// The number that a text writes: digits, at least one, behind an optional plus
/// sign, and none above `max`.
pub open spec fn parsed(text: Seq<char>, radix: int, max: int) -> Option<int> {
    let digits = if text.len() > 0 && text[0] == '+' {
        text.skip(1)
    } else {
        text
    };
    if digits.len() == 0 {
        None
    } else {
        match digits_value(digits, radix) {
            Some(value) => if value <= max {
                Some(value)
            } else {
                None
            },
            None => None,
        }
    }
}

fn digit_of(c: char, radix: u32) -> (value: Option<u32>)
    requires
        2 <= radix <= 36,
    ensures
        match value {
            Some(v) => digit_value(c, radix as int) == Some(v as int),
            None => digit_value(c, radix as int) is None,
        },
{
    let code: u32 = c as u32;
    let value: u32 = if 48 <= code && code <= 57 {
        code - 48
    } else if 97 <= code && code <= 122 {
        code - 87
    } else if 65 <= code && code <= 90 {
        code - 55
    } else {
        radix
    };
    if value < radix {
        Some(value)
    } else {
        None
    }
}

/// One bad digit, or a value above the limit, spoils every longer text too.
proof fn lemma_prefix_spoils(digits: Seq<char>, radix: int, max: int, i: int)
    requires
        0 <= i <= digits.len(),
        2 <= radix,
        0 <= max,
        match digits_value(digits.take(i), radix) {
            Some(value) => value > max,
            None => true,
        },
    ensures
        match digits_value(digits, radix) {
            Some(value) => value > max,
            None => true,
        },
    decreases digits.len() - i,
{
    if i == digits.len() {
        assert(digits.take(i) =~= digits);
    } else {
        let longer = digits.take(i + 1);
        assert(longer.drop_last() =~= digits.take(i));
        match (digits_value(digits.take(i), radix), digit_value(longer.last(), radix)) {
            (Some(high), Some(low)) => {
                assert(high * radix + low > max) by (nonlinear_arith)
                    requires
                        high > max,
                        max >= 0,
                        radix >= 2,
                        low >= 0,
                ;
            },
            _ => {},
        }
        lemma_prefix_spoils(digits, radix, max, i + 1);
    }
}

/// Reads a number in the given radix.
pub fn parse_number(text: &[char], radix: u32, max: u64) -> (value: Option<u64>)
    requires
        2 <= radix <= 36,
    ensures
        match value {
            Some(v) => parsed(text@, radix as int, max as int) == Some(v as int),
            None => parsed(text@, radix as int, max as int) is None,
        },
{
    let start: usize = if text.len() > 0 && text[0] == '+' {
        1
    } else {
        0
    };
    let ghost digits = text@.skip(start as int);
    assert(text@.skip(0) =~= text@);
    if start == text.len() {
        return None;
    }
    let mut index: usize = start;
    let mut value: u64 = 0;
    while index < text.len()
        invariant
            2 <= radix <= 36,
            start <= index <= text@.len(),
            start < text@.len(),
            digits == text@.skip(start as int),
            start == if text@[0] == '+' {
                1int
            } else {
                0int
            },
            digits_value(digits.take(index - start), radix as int) == Some(value as int),
            value <= max,
        decreases text@.len() - index,
    {
        let ghost i = index - start;
        proof {
            assert(text@.skip(0) =~= text@);
            assert(digits.take(i + 1).drop_last() =~= digits.take(i));
            assert(digits.take(i + 1).last() == text@[index as int]);
        }
        match digit_of(text[index], radix) {
            None => {
                proof {
                    lemma_prefix_spoils(digits, radix as int, max as int, i + 1);
                }
                return None;
            },
            Some(low) => {
                assert(value * radix <= 0xffff_ffff_ffff_ffff * 36) by (nonlinear_arith)
                    requires
                        0 <= value <= 0xffff_ffff_ffff_ffff,
                        0 <= radix <= 36,
                ;
                let wide: u128 = value as u128 * radix as u128 + low as u128;
                if wide > max as u128 {
                    proof {
                        lemma_prefix_spoils(digits, radix as int, max as int, i + 1);
                    }
                    return None;
                }
                value = wide as u64;
            },
        }
        index = index + 1;
    }
    assert(digits.take(index - start) =~= digits);
    assert(text@.skip(0) =~= text@);
    Some(value)
}

proof fn lemma_decimal_reads_back(n: nat)
    ensures
        digits_value(decimal(n), 10) == Some(n as int),
        decimal(n).len() > 0,
    decreases n,
{
    let last = decimal(n).last();
    if n < 10 {
        assert(decimal(n).drop_last() =~= Seq::<char>::empty());
        assert(digits_value(Seq::empty(), 10) == Some(0int));
        assert(digit_value(last, 10) == Some(n as int));
    } else {
        lemma_decimal_reads_back(n / 10);
        assert(decimal(n).drop_last() =~= decimal(n / 10));
        assert(digit_value(last, 10) == Some((n % 10) as int));
    }
}

proof fn lemma_zeros_count_nothing(fill: nat, digits: Seq<char>)
    ensures
        digits_value(Seq::new(fill, |i: int| '0') + digits, 10) == digits_value(digits, 10),
    decreases digits.len(), fill,
{
    let zeros = Seq::new(fill, |i: int| '0');
    let padded = zeros + digits;
    if digits.len() > 0 {
        lemma_zeros_count_nothing(fill, digits.drop_last());
        assert(padded.drop_last() =~= zeros + digits.drop_last());
    } else if fill > 0 {
        let fewer = (fill - 1) as nat;
        lemma_zeros_count_nothing(fewer, digits);
        assert(padded.drop_last() =~= Seq::new(fewer, |i: int| '0') + digits);
        assert(padded.last() == '0');
    } else {
        assert(padded =~= digits);
    }
}

proof fn lemma_value_means_digits(digits: Seq<char>, radix: int, i: int)
    requires
        digits_value(digits, radix) is Some,
        0 <= i < digits.len(),
    ensures
        digit_value(digits[i], radix) is Some,
    decreases digits.len(),
{
    if i < digits.len() - 1 {
        lemma_value_means_digits(digits.drop_last(), radix, i);
    }
}

/// A written number reads back as itself, zero-filled or not, so different
/// numbers are never written the same.
pub proof fn law_numbers_read_back(n: nat, width: nat, max: int)
    requires
        n <= max,
    ensures
        parsed(zero_padded(n, width), 10, max) == Some(n as int),
        parsed(decimal(n), 10, max) == Some(n as int),
{
    let digits = decimal(n);
    let padded = zero_padded(n, width);
    let fill = (padded.len() - digits.len()) as nat;
    lemma_decimal_reads_back(n);
    lemma_zeros_count_nothing(fill, digits);
    lemma_value_means_digits(digits, 10, 0);
    lemma_value_means_digits(padded, 10, 0);
    assert(digit_value('+', 10) is None);
}

/// What is read is never below zero nor above the limit.
pub proof fn lemma_parsed_in_range(text: Seq<char>, radix: int, max: int)
    requires
        radix >= 2,
    ensures
        parsed(text, radix, max) matches Some(value) ==> 0 <= value <= max,
{
    lemma_value_is_not_negative(text, radix);
    lemma_value_is_not_negative(text.skip(1), radix);
}

proof fn lemma_value_is_not_negative(digits: Seq<char>, radix: int)
    requires
        radix >= 2,
    ensures
        digits_value(digits, radix) matches Some(value) ==> value >= 0,
    decreases digits.len(),
{
    if digits.len() > 0 {
        lemma_value_is_not_negative(digits.drop_last(), radix);
        if let (Some(high), Some(low)) = (
            digits_value(digits.drop_last(), radix),
            digit_value(digits.last(), radix),
        ) {
            assert(high * radix + low >= 0) by (nonlinear_arith)
                requires
                    high >= 0,
                    radix >= 2,
                    low >= 0,
            ;
        }
    }
}

/// What the digits of a radix count for: `0` to `9` for zero to nine, and the
/// letters of either case from ten on, as far as the radix goes. Nothing else is a
/// digit.
pub proof fn law_digits(c: char, radix: int)
    requires
        2 <= radix <= 36,
    ensures
        digit_value(c, radix) matches Some(value) ==> 0 <= value < radix,
        '0' <= c && c <= '9' && c as int - 48 < radix ==> digit_value(c, radix) == Some(
            c as int - 48,
        ),
        'a' <= c && c <= 'z' && c as int - 97 + 10 < radix ==> digit_value(c, radix) == Some(
            c as int - 97 + 10,
        ),
        'A' <= c && c <= 'Z' && c as int - 65 + 10 < radix ==> digit_value(c, radix) == Some(
            c as int - 65 + 10,
        ),
        radix <= 10 && !('0' <= c && c <= '9') ==> digit_value(c, radix) is None,
        !('0' <= c && c <= '9') && !('a' <= c && c <= 'z') && !('A' <= c && c <= 'Z')
            ==> digit_value(c, radix) is None,
{
}

/// A number read with one more digit behind it is the radix times as much and the
/// digit, if that is within the limit. What is not a digit, or what goes over the
/// limit, spoils the text. Nothing, and a plus sign alone, are no numbers; one
/// plus sign in front of a number changes nothing.
pub proof fn law_numbers_are_read_digit_by_digit(text: Seq<char>, c: char, radix: int, max: int)
    requires
        2 <= radix <= 36,
        max >= 0,
        text.len() > 0,
        text[0] != '+',
        c != '+',
    ensures
        match (parsed(text, radix, max), digit_value(c, radix)) {
            (Some(value), Some(digit)) => parsed(text.push(c), radix, max) == if value * radix
                + digit <= max {
                Some(value * radix + digit)
            } else {
                None
            },
            _ => parsed(text.push(c), radix, max) is None,
        },
        match digit_value(c, radix) {
            Some(digit) => digit <= max ==> parsed(seq![c], radix, max) == Some(digit),
            None => parsed(seq![c], radix, max) is None,
        },
        parsed(Seq::empty(), radix, max) is None,
        parsed(seq!['+'], radix, max) is None,
        parsed(seq!['+'] + text, radix, max) == parsed(text, radix, max),
{
    let longer = text.push(c);
    assert(longer.drop_last() =~= text);
    assert(longer[0] != '+');
    lemma_value_is_not_negative(text, radix);
    match (digits_value(text, radix), digit_value(c, radix)) {
        (Some(value), Some(digit)) => {
            if value > max {
                assert(value * radix + digit > max) by (nonlinear_arith)
                    requires
                        value > max,
                        max >= 0,
                        radix >= 2,
                        digit >= 0,
                ;
            }
        },
        _ => {},
    }
    let one = seq![c];
    assert(one.drop_last() =~= Seq::<char>::empty());
    assert(digits_value(Seq::empty(), radix) == Some(0int));
    assert(0 * radix == 0);
    let plus = seq!['+'];
    assert(plus.skip(1) =~= Seq::<char>::empty());
    let signed = plus + text;
    assert(signed.skip(1) =~= text);
}

/// A limit refuses what is above it and changes nothing below.
pub proof fn lemma_limit_only_refuses(text: Seq<char>, radix: int, max: int, lower: int)
    requires
        lower <= max,
    ensures
        parsed(text, radix, lower) == match parsed(text, radix, max) {
            Some(value) => if value <= lower {
                Some(value)
            } else {
                None
            },
            None => None,
        },
{
}

/// A text that holds anything but digits behind its sign is no number.
pub proof fn lemma_bad_digit_spoils(text: Seq<char>, max: int, i: int)
    requires
        0 <= i < text.len(),
        !('0' <= text[i] && text[i] <= '9'),
        i == 0 ==> text[i] != '+',
    ensures
        parsed(text, 10, max) is None,
{
    if text[0] == '+' {
        let digits = text.skip(1);
        if digits_value(digits, 10) is Some {
            lemma_value_means_digits(digits, 10, i - 1);
        }
    } else if digits_value(text, 10) is Some {
        lemma_value_means_digits(text, 10, i);
    }
}

/// A number but zero is written without a zero in front, and zero as one digit.
pub proof fn law_no_leading_zeros(n: nat)
    ensures
        n > 0 ==> decimal(n)[0] != '0',
        decimal(n).len() > 0,
        n < 10 ==> decimal(n).len() == 1,
        n >= 10 ==> decimal(n).len() == decimal(n / 10).len() + 1,
    decreases n,
{
    if n >= 10 {
        law_no_leading_zeros(n / 10);
    }
}

} // verus!
