use vstd::prelude::*;

verus! {

/// The decimal digit that stands for `n`.
pub open spec fn digit_char(n: int) -> char {
    ('0' as int + n) as char
}

/// `c` is one of the ten ASCII digits.
pub open spec fn is_ascii_digit(c: char) -> bool {
    '0' <= c && c <= '9'
}

/// What the ASCII digit `c` stands for.
pub open spec fn digit_value(c: char) -> nat {
    (c as int - '0' as int) as nat
}

/// `n` in decimal, without leading zeros.
pub open spec fn decimal(n: nat) -> Seq<char>
    decreases n,
{
    if n < 10 {
        seq![digit_char(n as int)]
    } else {
        decimal(n / 10).push(digit_char((n % 10) as int))
    }
}

/// `n` in decimal, with zeros in front up to a width of two.
pub open spec fn two_digits(n: nat) -> Seq<char> {
    if n < 10 {
        seq!['0', digit_char(n as int)]
    } else {
        decimal(n)
    }
}

fn digit_of(n: u16) -> (c: char)
    requires
        n < 10,
    ensures
        c == digit_char(n as int),
{
    ('0' as u8 + n as u8) as char
}

/// Writes `n` in decimal.
pub fn write_decimal(n: u16) -> (text: String)
    ensures
        text@ == decimal(n as nat),
    decreases n,
{
    let mut text = if n < 10 {
        String::new()
    } else {
        write_decimal(n / 10)
    };
    text.push(digit_of(n % 10));
    text
}

/// Writes `n` in decimal, with zeros in front up to a width of two.
pub fn write_two_digits(n: u16) -> (text: String)
    ensures
        text@ == two_digits(n as nat),
{
    if n < 10 {
        let mut text = String::new();
        text.push('0');
        text.push(digit_of(n));
        text
    } else {
        write_decimal(n)
    }
}

/// The number that a run of ASCII digits stands for.
pub open spec fn digits_value(digits: Seq<char>) -> nat
    decreases digits.len(),
{
    if digits.len() == 0 {
        0
    } else {
        digits_value(digits.drop_last()) * 10 + digit_value(digits.last())
    }
}

/// `text` holds ASCII digits alone.
pub open spec fn all_ascii_digits(text: Seq<char>) -> bool {
    forall|i: int| 0 <= i < text.len() ==> is_ascii_digit(#[trigger] text[i])
}

/// `text` without the one plus sign that may stand in front of a number.
pub open spec fn without_plus(text: Seq<char>) -> Seq<char> {
    if text.len() > 0 && text[0] == '+' {
        text.drop_first()
    } else {
        text
    }
}

/// The number that `text` spells: an optional plus sign, then at least one ASCII digit and
/// nothing else, with a value that a `u16` can hold.
pub open spec fn spelled_u16(text: Seq<char>) -> Option<u16> {
    let digits = without_plus(text);
    if digits.len() > 0 && all_ascii_digits(digits) && digits_value(digits) <= u16::MAX {
        Some(digits_value(digits) as u16)
    } else {
        None
    }
}

/// The characters of `text`, one by one.
pub fn characters(text: &str) -> (chars: Vec<char>)
    ensures
        chars@ == text@,
{
    let mut chars: Vec<char> = Vec::new();
    for c in it: text.chars()
        invariant
            it.seq() == text@,
            chars@ == it.seq().take(it.index()),
    {
        chars.push(c);
    }
    chars
}

/// More digits never stand for a smaller number.
proof fn lemma_digits_value_grows(digits: Seq<char>, i: int)
    requires
        0 <= i <= digits.len(),
    ensures
        digits_value(digits.take(i)) <= digits_value(digits),
    decreases digits.len(),
{
    if i < digits.len() {
        lemma_digits_value_grows(digits.drop_last(), i);
        assert(digits.drop_last().take(i) =~= digits.take(i));
    } else {
        assert(digits.take(i) =~= digits);
    }
}

/// A number is spelled by its decimal digits.
pub proof fn lemma_decimal_spells(n: nat)
    ensures
        decimal(n).len() > 0,
        all_ascii_digits(decimal(n)),
        digits_value(decimal(n)) == n,
        n <= u16::MAX ==> spelled_u16(decimal(n)) == Some(n as u16),
    decreases n,
{
    if n < 10 {
        reveal_with_fuel(digits_value, 2);
    } else {
        lemma_decimal_spells(n / 10);
        assert(decimal(n).drop_last() =~= decimal(n / 10));
    }
    assert(decimal(n)[0] != '+');
}

/// As many zeros.
pub open spec fn zeros(n: nat) -> Seq<char> {
    Seq::new(n, |i: int| '0')
}

/// Zeros in front of digits do not change what they stand for.
proof fn lemma_zeros_in_front(n: nat, digits: Seq<char>)
    ensures
        digits_value(zeros(n) + digits) == digits_value(digits),
    decreases n + digits.len(),
{
    let padded = zeros(n) + digits;
    if digits.len() > 0 {
        lemma_zeros_in_front(n, digits.drop_last());
        assert(padded.drop_last() =~= zeros(n) + digits.drop_last());
    } else if n > 0 {
        lemma_zeros_in_front((n - 1) as nat, digits);
        assert(padded.drop_last() =~= zeros((n - 1) as nat) + digits);
    }
}

/// A number is spelled by its decimal digits with zeros in front, too.
pub proof fn lemma_padded_spells(n: nat, number: u16)
    ensures
        spelled_u16(zeros(n) + decimal(number as nat)) == Some(number),
{
    let digits = decimal(number as nat);
    let padded = zeros(n) + digits;
    lemma_decimal_spells(number as nat);
    lemma_zeros_in_front(n, digits);
    assert(all_ascii_digits(padded));
}

/// Reads `text` as a number.
pub fn parse_u16(text: &str) -> (number: Option<u16>)
    ensures
        number == spelled_u16(text@),
{
    let chars = characters(text);
    let start: usize = if chars.len() > 0 && chars[0] == '+' {
        1
    } else {
        0
    };
    let ghost digits = without_plus(text@);
    if chars.len() == start {
        return None;
    }
    let mut value: u16 = 0;
    let mut i: usize = start;
    while i < chars.len()
        invariant
            start <= i <= chars.len(),
            chars@ == text@,
            digits == without_plus(text@),
            digits == chars@.skip(start as int),
            digits.len() > 0,
            all_ascii_digits(digits.take(i - start)),
            value == digits_value(digits.take(i - start)),
        decreases chars.len() - i,
    {
        let c = chars[i];
        assert(c == digits[i - start]);
        assert(digits.take(i - start + 1).drop_last() =~= digits.take(i - start));
        if c < '0' || c > '9' {
            return None;
        }
        let digit: u16 = c as u16 - '0' as u16;
        let wide: u32 = value as u32 * 10 + digit as u32;
        proof {
            lemma_digits_value_grows(digits, i - start + 1);
        }
        if wide > u16::MAX as u32 {
            return None;
        }
        value = wide as u16;
        i += 1;
    }
    assert(digits.take(i - start) =~= digits);
    Some(value)
}

/// `c` with an ASCII capital turned into the small letter.
pub open spec fn ascii_lower(c: char) -> char {
    if 'A' <= c && c <= 'Z' {
        (c as int + 32) as char
    } else {
        c
    }
}

/// `text` with every ASCII capital turned into the small letter.
pub open spec fn ascii_lowered(text: Seq<char>) -> Seq<char> {
    text.map_values(|c: char| ascii_lower(c))
}

/// Turns the ASCII capitals of `text` into small letters.
pub fn to_ascii_lowercase(text: &str) -> (lower: String)
    ensures
        lower@ == ascii_lowered(text@),
{
    let mut lower = String::new();
    for c in it: text.chars()
        invariant
            it.seq() == text@,
            lower@ == ascii_lowered(it.seq().take(it.index())),
    {
        let small = if 'A' <= c && c <= 'Z' {
            (c as u8 + 32) as char
        } else {
            c
        };
        lower.push(small);
    }
    lower
}

/// `c` has the Unicode property White_Space.
pub open spec fn is_white_space(c: char) -> bool {
    ||| '\u{9}' <= c && c <= '\u{d}'
    ||| c == ' '
    ||| c == '\u{85}'
    ||| c == '\u{a0}'
    ||| c == '\u{1680}'
    ||| '\u{2000}' <= c && c <= '\u{200a}'
    ||| c == '\u{2028}'
    ||| c == '\u{2029}'
    ||| c == '\u{202f}'
    ||| c == '\u{205f}'
    ||| c == '\u{3000}'
}

/// `text` without the white space at its start.
pub open spec fn trimmed_start(text: Seq<char>) -> Seq<char>
    decreases text.len(),
{
    if text.len() > 0 && is_white_space(text[0]) {
        trimmed_start(text.drop_first())
    } else {
        text
    }
}

/// `text` without the white space at its end.
pub open spec fn trimmed_end(text: Seq<char>) -> Seq<char>
    decreases text.len(),
{
    if text.len() > 0 && is_white_space(text.last()) {
        trimmed_end(text.drop_last())
    } else {
        text
    }
}

/// `text` without the white space at both its ends.
pub open spec fn trimmed(text: Seq<char>) -> Seq<char> {
    trimmed_end(trimmed_start(text))
}

/// How many characters stand before the first line feed of `text`.
pub open spec fn first_line_len(text: Seq<char>) -> nat
    decreases text.len(),
{
    if text.len() == 0 || text[0] == '\n' {
        0
    } else {
        1 + first_line_len(text.drop_first())
    }
}

/// `line` holds white space alone.
pub open spec fn is_blank(line: Seq<char>) -> bool {
    forall|i: int| 0 <= i < line.len() ==> is_white_space(#[trigger] line[i])
}

/// `text` with `prefix` in front of each line; a blank line gets the prefix without the white
/// space at its end.
pub open spec fn indented(text: Seq<char>, prefix: Seq<char>) -> Seq<char>
    decreases text.len(),
{
    let end = first_line_len(text);
    let line = text.take(end as int);
    let lead = if is_blank(line) {
        trimmed_end(prefix)
    } else {
        prefix
    };
    if text.len() == 0 {
        text
    } else if end < text.len() {
        lead + line + seq!['\n'] + indented(text.skip(end as int + 1), prefix)
    } else {
        lead + line
    }
}

/// What digits stand for is found from the front, too: the first counts for as many powers of
/// ten as digits are behind it.
pub proof fn law_digits_from_the_front(digits: Seq<char>)
    ensures
        digits.len() == 0 ==> digits_value(digits) == 0,
        digits.len() > 0 && all_ascii_digits(digits) ==> digits_value(digits) == (
        digits[0] as int - '0' as int) * vstd::arithmetic::power::pow(10, (digits.len() - 1) as nat)
            + digits_value(digits.drop_first()),
    decreases digits.len(),
{
    if digits.len() > 0 && all_ascii_digits(digits) {
        assert(is_ascii_digit(digits[0]));
        if digits.len() == 1 {
            reveal_with_fuel(digits_value, 2);
            vstd::arithmetic::power::lemma_pow0(10);
            assert(digits.drop_last().len() == 0);
            assert(digits.drop_first().len() == 0);
            assert(digits.last() == digits[0]);
        } else {
            let front = digits.drop_last();
            assert forall|i: int| 0 <= i < front.len() implies is_ascii_digit(
                #[trigger] front[i],
            ) by {
                assert(front[i] == digits[i]);
            }
            law_digits_from_the_front(front);
            assert(front.drop_first() =~= digits.drop_first().drop_last());
            let n = (digits.len() - 2) as nat;
            let first = digits[0] as int - '0' as int;
            vstd::arithmetic::power::lemma_pow_adds(10, n, 1);
            vstd::arithmetic::power::lemma_pow1(10);
            assert(first * (vstd::arithmetic::power::pow(10, n) * 10) == first
                * vstd::arithmetic::power::pow(10, n) * 10) by (nonlinear_arith);
        }
    }
}

/// A number is read exactly where there is at least one ASCII digit and nothing else, but for a
/// plus sign in front, and where it is not too large. It is the number that the digits stand
/// for: writing it, with some zeros in front, gives the digits back.
pub proof fn law_what_is_read_is_what_is_written(text: Seq<char>, digits: Seq<char>) -> (n: nat)
    requires
        text == seq!['+'] + digits || text == digits && (text.len() == 0 || text[0] != '+'),
    ensures
        spelled_u16(text) is Some <==> {
            &&& digits.len() > 0
            &&& forall|i: int|
                0 <= i < digits.len() ==> '0' <= #[trigger] digits[i] && digits[i] <= '9'
            &&& digits_value(digits) <= 65535
        },
        spelled_u16(text) matches Some(number) ==> digits == zeros(n) + decimal(number as nat),
{
    assert(without_plus(text) =~= digits);
    assert(all_ascii_digits(digits) <==> forall|i: int|
        0 <= i < digits.len() ==> '0' <= #[trigger] digits[i] && digits[i] <= '9') by {
        if all_ascii_digits(digits) {
            assert forall|i: int| 0 <= i < digits.len() implies '0' <= #[trigger] digits[i]
                && digits[i] <= '9' by {
                assert(is_ascii_digit(digits[i]));
            }
        }
    }
    if spelled_u16(text) is Some {
        lemma_digits_are_padded_decimal(digits)
    } else {
        0
    }
}

/// Digits are zeros and then the number that they stand for.
proof fn lemma_digits_are_padded_decimal(digits: Seq<char>) -> (n: nat)
    requires
        digits.len() > 0,
        all_ascii_digits(digits),
    ensures
        digits == zeros(n) + decimal(digits_value(digits)),
    decreases digits.len(),
{
    let front = digits.drop_last();
    let last = digits.last();
    assert(is_ascii_digit(digits[digits.len() - 1]));
    assert(digit_char(digit_value(last) as int) == last);
    if front.len() == 0 {
        reveal_with_fuel(digits_value, 2);
        assert(digits =~= zeros(0) + decimal(digits_value(digits)));
        0
    } else {
        assert forall|i: int| 0 <= i < front.len() implies is_ascii_digit(#[trigger] front[i]) by {
            assert(front[i] == digits[i]);
        }
        let n = lemma_digits_are_padded_decimal(front);
        let value = digits_value(front);
        assert(digits =~= front.push(last));
        if value == 0 {
            assert(decimal(0) =~= seq!['0']);
            assert(front =~= zeros(n + 1));
            assert(digits_value(digits) < 10);
            assert(digits =~= zeros(n + 1) + decimal(digits_value(digits)));
            n + 1
        } else {
            assert(digits_value(digits) / 10 == value);
            assert(digits_value(digits) % 10 == digit_value(last));
            assert(decimal(digits_value(digits)) == decimal(value).push(last));
            assert(digits =~= zeros(n) + decimal(digits_value(digits)));
            n
        }
    }
}

/// A number is written in as few ASCII digits as stand for it; with two digits, it gets a zero
/// in front exactly where it has one digit.
pub proof fn law_numbers_are_written_in_decimal(n: nat)
    ensures
        decimal(n).len() > 0,
        forall|i: int|
            0 <= i < decimal(n).len() ==> '0' <= #[trigger] decimal(n)[i] && decimal(n)[i] <= '9',
        digits_value(decimal(n)) == n,
        decimal(n).len() > 1 ==> decimal(n)[0] != '0',
        two_digits(n) == if decimal(n).len() == 1 {
            seq!['0'] + decimal(n)
        } else {
            decimal(n)
        },
    decreases n,
{
    lemma_decimal_spells(n);
    assert forall|i: int| 0 <= i < decimal(n).len() implies '0' <= #[trigger] decimal(n)[i]
        && decimal(n)[i] <= '9' by {
        assert(is_ascii_digit(decimal(n)[i]));
    }
    if n < 10 {
        assert(two_digits(n) =~= seq!['0'] + decimal(n));
    } else {
        law_numbers_are_written_in_decimal(n / 10);
        assert(decimal(n)[0] == decimal(n / 10)[0]);
        if n / 10 < 10 {
            assert(decimal(n / 10)[0] != '0');
        }
    }
}

/// Lowering changes no length, turns each ASCII capital into the small letter of the same place
/// in the alphabet, and leaves all other characters.
pub proof fn law_only_ascii_capitals_are_lowered(text: Seq<char>, i: int)
    requires
        0 <= i < text.len(),
    ensures
        ascii_lowered(text).len() == text.len(),
        'A' <= text[i] && text[i] <= 'Z' ==> ascii_lowered(text)[i] as int - 'a' as int
            == text[i] as int - 'A' as int,
        !('A' <= text[i] && text[i] <= 'Z') ==> ascii_lowered(text)[i] == text[i],
        ascii_lowered(ascii_lowered(text)) == ascii_lowered(text),
{
    assert(ascii_lowered(ascii_lowered(text)) =~= ascii_lowered(text));
}

} // verus!
