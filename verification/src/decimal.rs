//! Decimal numbers in text.

use crate::text::to_chars;
use vstd::string::*;
use vstd::prelude::*;

verus! {

pub open spec fn is_digit(c: char) -> bool {
    '0' <= c <= '9'
}

/// What a digit stands for.
pub open spec fn digit_value(c: char) -> nat {
    (c as int - '0' as int) as nat
}

pub open spec fn all_digits(text: Seq<char>) -> bool {
    forall|i: int| 0 <= i < text.len() ==> is_digit(#[trigger] text[i])
}

/// What a row of digits stands for.
pub open spec fn digits_value(text: Seq<char>) -> nat
    decreases text.len(),
{
    if text.len() == 0 {
        0
    } else {
        10 * digits_value(text.drop_last()) + digit_value(text.last())
    }
}

/// Why a text is not a number.
#[derive(Clone, Copy, Debug, PartialEq, Eq, Structural)]
pub enum NumberError {
    Empty,
    InvalidDigit,
    TooLarge,
}

impl NumberError {
    pub open spec fn text(self) -> Seq<char> {
        match self {
            NumberError::Empty => "cannot parse integer from empty string"@,
            NumberError::InvalidDigit => "invalid digit found in string"@,
            NumberError::TooLarge => "number too large to fit in target type"@,
        }
    }

    pub fn message(self) -> (r: &'static str)
        ensures
            r@ == self.text(),
    {
        match self {
            NumberError::Empty => "cannot parse integer from empty string",
            NumberError::InvalidDigit => "invalid digit found in string",
            NumberError::TooLarge => "number too large to fit in target type",
        }
    }
}

/// What a row of characters stands for, if it is a number within a limit. The first
/// character that makes it none decides why.
pub open spec fn read(text: Seq<char>, limit: u64) -> Result<nat, NumberError>
    decreases text.len(),
{
    if text.len() == 0 {
        Ok(0)
    } else {
        match read(text.drop_last(), limit) {
            Ok(n) => if !is_digit(text.last()) {
                Err(NumberError::InvalidDigit)
            } else if 10 * n + digit_value(text.last()) > limit {
                Err(NumberError::TooLarge)
            } else {
                Ok(10 * n + digit_value(text.last()))
            },
            Err(error) => Err(error),
        }
    }
}

/// The number that a text spells: digits, with or without a plus sign before them.
pub open spec fn number(text: Seq<char>, limit: u64) -> Result<nat, NumberError> {
    if text.len() == 0 {
        Err(NumberError::Empty)
    } else if text[0] == '+' {
        if text.len() == 1 {
            Err(NumberError::InvalidDigit)
        } else {
            read(text.skip(1), limit)
        }
    } else {
        read(text, limit)
    }
}

/// A text is read as a number exactly if it consists of digits that stand for a number
/// within the limit.
pub proof fn lemma_read_takes_digits(text: Seq<char>, limit: u64)
    ensures
        read(text, limit) is Ok <==> all_digits(text) && digits_value(text) <= limit,
        read(text, limit) is Ok ==> read(text, limit)->Ok_0 == digits_value(text),
    decreases text.len(),
{
    if text.len() > 0 {
        let rest = text.drop_last();
        lemma_read_takes_digits(rest, limit);
        assert(text.last() == text[text.len() - 1]);
        if all_digits(rest) && is_digit(text.last()) {
            assert forall|i: int| 0 <= i < text.len() implies is_digit(#[trigger] text[i]) by {
                if i < rest.len() {
                    assert(text[i] == rest[i]);
                }
            }
        }
        if all_digits(text) {
            assert forall|i: int| 0 <= i < rest.len() implies is_digit(#[trigger] rest[i]) by {
                assert(rest[i] == text[i]);
            }
        }
    }
}

/// A number that was read does not exceed the limit.
pub proof fn lemma_number_is_within_limit(text: Seq<char>, limit: u64)
    ensures
        number(text, limit) is Ok ==> number(text, limit)->Ok_0 <= limit,
{
    lemma_read_takes_digits(text, limit);
    lemma_read_takes_digits(text.skip(1), limit);
}

/// What was wrong with the beginning of a text is wrong with the text.
proof fn lemma_read_error_stays(text: Seq<char>, i: int, limit: u64)
    requires
        0 <= i <= text.len(),
        read(text.take(i), limit) is Err,
    ensures
        read(text, limit) == read(text.take(i), limit),
    decreases text.len(),
{
    if i < text.len() {
        assert(text.drop_last().take(i) =~= text.take(i));
        lemma_read_error_stays(text.drop_last(), i, limit);
    } else {
        assert(text.take(i) =~= text);
    }
}

/// Reads a number that must not exceed a limit.
pub fn parse_number(text: &str, limit: u64) -> (r: Result<u64, NumberError>)
    ensures
        match number(text@, limit) {
            Ok(n) => r is Ok && r->Ok_0 == n,
            Err(error) => r == Err::<u64, NumberError>(error),
        },
{
    let chars: Vec<char> = to_chars(text);
    if chars.len() == 0 {
        return Err(NumberError::Empty);
    }
    let start: usize = if chars[0] == '+' {
        1
    } else {
        0
    };
    if chars.len() == start {
        return Err(NumberError::InvalidDigit);
    }
    let ghost digits = chars@.skip(start as int);
    proof {
        assert(chars@.skip(0) =~= chars@);
        assert(digits.take(0) =~= Seq::<char>::empty());
    }
    let mut i: usize = start;
    let mut n: u64 = 0;
    while i < chars.len()
        invariant
            start <= i <= chars@.len(),
            chars@ == text@,
            digits == chars@.skip(start as int),
            number(text@, limit) == read(digits, limit),
            read(digits.take(i - start), limit) == Ok::<nat, NumberError>(n as nat),
        decreases chars@.len() - i,
    {
        let c: char = chars[i];
        let ghost more = digits.take(i - start + 1);
        proof {
            assert(digits[i - start] == c);
            assert(more.drop_last() =~= digits.take(i - start));
            assert(more.last() == c);
        }
        if !('0' <= c && c <= '9') {
            proof {
                lemma_read_error_stays(digits, i - start + 1, limit);
            }
            return Err(NumberError::InvalidDigit);
        }
        let digit: u64 = (c as u32 - '0' as u32) as u64;
        let next: u128 = 10 * n as u128 + digit as u128;
        if next > limit as u128 {
            proof {
                lemma_read_error_stays(digits, i - start + 1, limit);
            }
            return Err(NumberError::TooLarge);
        }
        n = next as u64;
        i = i + 1;
    }
    proof {
        assert(digits.take(digits.len() as int) =~= digits);
    }
    Ok(n)
}

/// The digit that stands for a number below ten.
pub open spec fn digit(n: nat) -> char {
    if n == 0 {
        '0'
    } else if n == 1 {
        '1'
    } else if n == 2 {
        '2'
    } else if n == 3 {
        '3'
    } else if n == 4 {
        '4'
    } else if n == 5 {
        '5'
    } else if n == 6 {
        '6'
    } else if n == 7 {
        '7'
    } else if n == 8 {
        '8'
    } else {
        '9'
    }
}

fn show_digit(n: u64) -> (r: char)
    requires
        n < 10,
    ensures
        r == digit(n as nat),
{
    match n {
        0 => '0',
        1 => '1',
        2 => '2',
        3 => '3',
        4 => '4',
        5 => '5',
        6 => '6',
        7 => '7',
        8 => '8',
        _ => '9',
    }
}

/// A number in digits, without leading zeros.
pub open spec fn shown(n: nat) -> Seq<char>
    decreases n,
{
    if n < 10 {
        seq![digit(n)]
    } else {
        shown(n / 10).push(digit(n % 10))
    }
}

/// A number in digits, filled up with leading zeros to a width.
pub open spec fn shown_wide(n: nat, width: nat) -> Seq<char> {
    let digits = shown(n);
    if digits.len() < width {
        Seq::new((width - digits.len()) as nat, |i: int| '0') + digits
    } else {
        digits
    }
}

/// Reading the digits of a number gives the number back.
pub proof fn lemma_shown_is_read_back(n: nat, limit: u64)
    requires
        n <= limit,
    ensures
        number(shown(n), limit) == Ok::<nat, NumberError>(n),
{
    lemma_shown_digits(n);
    lemma_read_takes_digits(shown(n), limit);
}

proof fn lemma_shown_digits(n: nat)
    ensures
        all_digits(shown(n)),
        digits_value(shown(n)) == n,
        shown(n).len() > 0,
        is_digit(shown(n)[0]),
    decreases n,
{
    let digits = shown(n);
    if n < 10 {
        assert(digits.drop_last() =~= Seq::<char>::empty());
        assert(digits_value(digits.drop_last()) == 0);
        assert(digits[0] == digit(n));
    } else {
        lemma_shown_digits(n / 10);
        let rest = shown(n / 10);
        assert(digits.drop_last() =~= rest);
        assert forall|i: int| 0 <= i < digits.len() implies is_digit(#[trigger] digits[i]) by {
            if i < rest.len() {
                assert(digits[i] == rest[i]);
            }
        }
        assert(digits[0] == rest[0]);
    }
}

/// Writes a number in digits.
pub fn show(n: u64) -> (r: String)
    ensures
        r@ == shown(n as nat),
    decreases n,
{
    if n < 10 {
        let mut r: String = String::new();
        r.push(show_digit(n));
        proof {
            assert(r@ =~= seq![digit(n as nat)]);
        }
        r
    } else {
        let mut r: String = show(n / 10);
        r.push(show_digit(n % 10));
        r
    }
}

/// Writes a number in at least three digits.
pub fn show_three(n: u64) -> (r: String)
    ensures
        r@ == shown_wide(n as nat, 3),
{
    let digits: String = show(n);
    let mut r: String = String::new();
    proof {
        reveal_with_fuel(shown, 3);
        if n >= 100 {
            lemma_shown_digits((n / 100) as nat);
        }
    }
    if n < 10 {
        r.push('0');
        r.push('0');
    } else if n < 100 {
        r.push('0');
    }
    let ghost zeros = r@;
    r.append(digits.as_str());
    proof {
        let width = shown(n as nat).len();
        if n < 100 {
            assert(zeros =~= Seq::new((3 - width) as nat, |i: int| '0'));
        } else {
            assert(zeros + shown(n as nat) =~= shown(n as nat));
        }
    }
    r
}

/// Digits stand for the numbers from zero to nine, in their order.
pub proof fn lemma_digits_stand_for_numbers(n: nat)
    requires
        n < 10,
    ensures
        digit(n) as int == '0' as int + n,
        is_digit(digit(n)),
        digit_value(digit(n)) == n,
{
}

/// A plus sign before digits changes nothing.
pub proof fn lemma_a_plus_sign_changes_nothing(digits: Seq<char>, limit: u64)
    requires
        all_digits(digits),
        digits.len() > 0,
    ensures
        number(seq!['+'] + digits, limit) == number(digits, limit),
{
    assert((seq!['+'] + digits).skip(1) =~= digits);
    assert(is_digit(digits[0]));
}

/// Why a text is no number: it is empty, or a character that is no digit comes while what was
/// read so far is within the limit, or its digits stand for more than the limit.
pub proof fn lemma_why_a_text_is_no_number(digits: Seq<char>, c: char, limit: u64)
    requires
        all_digits(digits),
    ensures
        number(Seq::empty(), limit) == Err::<nat, NumberError>(NumberError::Empty),
        number(seq!['+'], limit) == Err::<nat, NumberError>(NumberError::InvalidDigit),
        digits.len() > 0 && digits_value(digits) > limit ==> number(digits, limit) == Err::<
            nat,
            NumberError,
        >(NumberError::TooLarge),
        digits.len() > 0 && digits_value(digits) <= limit && !is_digit(c) ==> number(
            digits.push(c),
            limit,
        ) == Err::<nat, NumberError>(NumberError::InvalidDigit),
{
    if digits.len() > 0 {
        assert(is_digit(digits[0]));
        lemma_read_takes_digits(digits, limit);
        lemma_too_large(digits, limit);
        assert(digits.push(c).drop_last() =~= digits);
        assert(digits.push(c)[0] == digits[0]);
    }
}

proof fn lemma_too_large(digits: Seq<char>, limit: u64)
    requires
        all_digits(digits),
    ensures
        digits_value(digits) > limit ==> read(digits, limit) == Err::<nat, NumberError>(
            NumberError::TooLarge,
        ),
    decreases digits.len(),
{
    if digits.len() > 0 {
        let rest = digits.drop_last();
        assert forall|i: int| 0 <= i < rest.len() implies is_digit(#[trigger] rest[i]) by {
            assert(rest[i] == digits[i]);
        }
        assert(is_digit(digits[digits.len() - 1]));
        lemma_too_large(rest, limit);
        lemma_read_takes_digits(rest, limit);
    }
}

/// A number that is filled up with zeros keeps its value, is at least as wide as asked for, and
/// no wider than it must be.
pub proof fn lemma_filled_up_numbers_keep_their_value(n: nat, width: nat, limit: u64)
    requires
        n <= limit,
    ensures
        number(shown_wide(n, width), limit) == Ok::<nat, NumberError>(n),
        shown_wide(n, width).len() >= width,
        shown_wide(n, width).len() == width || shown_wide(n, width) == shown(n),
{
    lemma_shown_digits(n);
    let digits = shown(n);
    let wide = shown_wide(n, width);
    if digits.len() < width {
        lemma_zeros_add_nothing((width - digits.len()) as nat, digits);
        assert forall|i: int| 0 <= i < wide.len() implies is_digit(#[trigger] wide[i]) by {
            if i >= width - digits.len() {
                assert(wide[i] == digits[i - (width - digits.len())]);
            }
        }
        assert(is_digit(wide[0]));
    }
    lemma_read_takes_digits(wide, limit);
}

proof fn lemma_zeros_add_nothing(count: nat, digits: Seq<char>)
    ensures
        digits_value(Seq::new(count, |i: int| '0') + digits) == digits_value(digits),
    decreases count + digits.len(),
{
    let zeros = Seq::new(count, |i: int| '0');
    if digits.len() > 0 {
        lemma_zeros_add_nothing(count, digits.drop_last());
        assert((zeros + digits).drop_last() =~= zeros + digits.drop_last());
    } else if count > 0 {
        let fewer = Seq::new((count - 1) as nat, |i: int| '0');
        lemma_zeros_add_nothing((count - 1) as nat, digits);
        assert((zeros + digits).drop_last() =~= fewer + digits);
        assert((zeros + digits).last() == '0');
    } else {
        assert(zeros + digits =~= digits);
    }
}

/// Numbers that differ are shown differently, filled up or not.
pub proof fn lemma_numbers_are_told_apart(a: nat, b: nat, width: nat)
    requires
        a <= u64::MAX,
        b <= u64::MAX,
    ensures
        shown_wide(a, width) == shown_wide(b, width) ==> a == b,
{
    lemma_filled_up_numbers_keep_their_value(a, width, u64::MAX);
    lemma_filled_up_numbers_keep_their_value(b, width, u64::MAX);
}

/// The messages of the errors.
pub proof fn lemma_errors_are_explained(error: NumberError)
    ensures
        error == NumberError::Empty ==> error.text() == "cannot parse integer from empty string"@,
        error == NumberError::InvalidDigit ==> error.text() == "invalid digit found in string"@,
        error == NumberError::TooLarge ==> error.text()
            == "number too large to fit in target type"@,
{
}

/// A number is shown in digits alone, at least one.
pub proof fn lemma_shown_is_digits(n: nat)
    ensures
        all_digits(shown(n)),
        shown(n).len() > 0,
        n > 0 ==> shown(n)[0] != '0',
{
    lemma_shown_digits(n);
    lemma_no_leading_zero(n);
}

proof fn lemma_no_leading_zero(n: nat)
    ensures
        n > 0 ==> shown(n)[0] != '0',
        shown(n).len() > 0,
    decreases n,
{
    if n >= 10 {
        lemma_no_leading_zero(n / 10);
    }
}

} // verus!
