//! Line ranges: what a user writes to name one line or a run of lines, and the
//! half-open span of line indices that it stands for.

use vstd::prelude::*;
use vstd::string::StringExecFns;
use crate::text::{
    chars_of, find_char, find_from, holds_no, lemma_find_char, lemma_find_char_is, lemma_split_on,
    split_on,
};

verus! {

/// Why a line range was turned down.
#[derive(Debug, Clone, Copy, PartialEq, Eq, Structural)]
pub enum RangeError {
    /// A part of the range is not an unsigned decimal number that fits the machine.
    NotANumber,
    /// A part of the range is zero; lines are counted from one.
    ZeroLine,
    /// The range holds two hyphens or more.
    TooManyHyphens,
}

impl RangeError {
    /// What is wrong, in one line.
    pub open spec fn headline(self) -> Seq<char> {
        match self {
            RangeError::NotANumber => "Invalid line range."@,
            RangeError::ZeroLine => "Invalid line range \u{2013} line numbers start at 1."@,
            RangeError::TooManyHyphens => "Invalid line range \u{2013} too many hyphens in line range."@,
        }
    }

    /// What to tell the user: the headline, and on a second line what a range
    /// looks like.
    pub open spec fn text(self) -> Seq<char> {
        self.headline()
            + "\nPlease specify either a single line or beginning and ending lines separated a hyphen."@
    }

    /// The message for the user, as a string.
    pub fn message(&self) -> (out: String)
        ensures
            out@ == self.text(),
    {
        let mut out = match self {
            RangeError::NotANumber => "Invalid line range.".to_string(),
            RangeError::ZeroLine => "Invalid line range \u{2013} line numbers start at 1.".to_string(),
            RangeError::TooManyHyphens => "Invalid line range \u{2013} too many hyphens in line range.".to_string(),
        };
        out.append(
            "\nPlease specify either a single line or beginning and ending lines separated a hyphen.",
        );
        out
    }
}

/// Whether `c` is one of the ten ASCII digits.
pub open spec fn is_digit(c: char) -> bool {
    '0' <= c && c <= '9'
}

/// The value of the digit `c`.
pub open spec fn digit_value(c: char) -> nat {
    (c as u32 - '0' as u32) as nat
}

/// Whether `s` is made of ASCII digits only.
pub open spec fn all_digits(s: Seq<char>) -> bool {
    forall|i: int| 0 <= i < s.len() ==> is_digit(#[trigger] s[i])
}

/// The number that the digits `s` spell in base ten; zero for no digits.
pub open spec fn decimal_value(s: Seq<char>) -> nat
    decreases s.len(),
{
    if s.len() == 0 {
        0
    } else {
        decimal_value(s.drop_last()) * 10 + digit_value(s.last())
    }
}

/// A token without the one plus sign that may lead it.
pub open spec fn unsigned_part(token: Seq<char>) -> Seq<char> {
    if token.len() > 0 && token[0] == '+' {
        token.skip(1)
    } else {
        token
    }
}

/// Whether `token` is a number: an optional plus sign, then one digit or
/// more, spelling a value that fits in `usize`.
pub open spec fn is_number(token: Seq<char>) -> bool {
    let digits = unsigned_part(token);
    digits.len() > 0 && all_digits(digits) && decimal_value(digits) <= usize::MAX
}

/// The number that `token` spells, where it is one.
pub open spec fn number_of(token: Seq<char>) -> Option<usize> {
    if is_number(token) {
        Some(decimal_value(unsigned_part(token)) as usize)
    } else {
        None
    }
}

/// The digits of a longer sequence spell at least what its first `k` spell.
pub proof fn lemma_decimal_value_grows(s: Seq<char>, k: int)
    requires
        0 <= k <= s.len(),
    ensures
        decimal_value(s.take(k)) <= decimal_value(s),
    decreases s.len() - k,
{
    if k < s.len() {
        lemma_decimal_value_grows(s, k + 1);
        assert(s.take(k + 1).drop_last() == s.take(k));
    } else {
        assert(s.take(k) == s);
    }
}

/// Reads the characters of `chars` from `from` up to `to` as a number.
pub fn parse_number(chars: &Vec<char>, from: usize, to: usize) -> (res: Option<usize>)
    requires
        from <= to <= chars.len(),
    ensures
        res == number_of(chars@.subrange(from as int, to as int)),
{
    let ghost token = chars@.subrange(from as int, to as int);
    let mut i: usize = from;
    if i < to && chars[i] == '+' {
        i = i + 1;
    }
    let start: usize = i;
    let ghost digits = unsigned_part(token);
    assert(digits == chars@.subrange(start as int, to as int));
    if i == to {
        return None;
    }
    let mut acc: usize = 0;
    while i < to
        invariant
            from <= start <= i <= to <= chars.len(),
            digits == unsigned_part(chars@.subrange(from as int, to as int)),
            digits == chars@.subrange(start as int, to as int),
            all_digits(digits.take(i - start)),
            acc == decimal_value(digits.take(i - start)),
        decreases to - i,
    {
        let c: char = chars[i];
        assert(digits[i - start] == c);
        if !('0' <= c && c <= '9') {
            return None;
        }
        let d: usize = (c as u32 - '0' as u32) as usize;
        proof {
            let next = digits.take(i - start + 1);
            assert(next.drop_last() == digits.take(i - start));
            assert(next.last() == c);
            lemma_decimal_value_grows(digits, i - start + 1);
        }
        let tens: usize = match acc.checked_mul(10) {
            Some(t) => t,
            None => {
                return None;
            },
        };
        acc = match tens.checked_add(d) {
            Some(t) => t,
            None => {
                return None;
            },
        };
        i = i + 1;
    }
    assert(digits.take(i - start) == digits);
    Some(acc)
}

/// The span that a single line number stands for: the one line of that number.
pub open spec fn single_line(token: Seq<char>) -> Result<(usize, usize), RangeError> {
    match number_of(token) {
        None => Err(RangeError::NotANumber),
        Some(line) => if line == 0 {
            Err(RangeError::ZeroLine)
        } else {
            Ok(((line - 1) as usize, line))
        },
    }
}

/// The span that two line numbers stand for: from the smaller to the larger,
/// both included, whichever was written first.
pub open spec fn line_span(first: Seq<char>, second: Seq<char>) -> Result<
    (usize, usize),
    RangeError,
> {
    match (number_of(first), number_of(second)) {
        (Some(a), Some(b)) => if a == 0 || b == 0 {
            Err(RangeError::ZeroLine)
        } else if a <= b {
            Ok(((a - 1) as usize, b))
        } else {
            Ok(((b - 1) as usize, a))
        },
        _ => Err(RangeError::NotANumber),
    }
}

/// What a line range means. Lines are written counting from one, the last
/// one included; the span counts from zero and stops before its end.
pub open spec fn range_of(input: Seq<char>) -> Result<(usize, usize), RangeError> {
    let parts = split_on(input, '-');
    if parts.len() == 1 {
        single_line(parts[0])
    } else if parts.len() == 2 {
        line_span(parts[0], parts[1])
    } else {
        Err(RangeError::TooManyHyphens)
    }
}

/// Parses a line range: one line number, or two joined by a hyphen.
pub fn parse_range(input: &str) -> (res: Result<(usize, usize), RangeError>)
    ensures
        res == range_of(input@),
        res matches Ok((start, end)) ==> start < end,
{
    let chars = chars_of(input);
    let n: usize = chars.len();
    let hyphen: usize = find_from(&chars, '-', 0);
    assert(chars@.skip(0) == chars@);
    if hyphen == n {
        assert(chars@.subrange(0, n as int) == chars@);
        match parse_number(&chars, 0, n) {
            None => Err(RangeError::NotANumber),
            Some(line) => if line == 0 {
                Err(RangeError::ZeroLine)
            } else {
                Ok((line - 1, line))
            },
        }
    } else {
        let next: usize = find_from(&chars, '-', hyphen + 1);
        let ghost rest = chars@.skip(hyphen + 1);
        assert(split_on(chars@, '-') == seq![chars@.take(hyphen as int)] + split_on(rest, '-'));
        if next < n {
            proof {
                lemma_split_on(rest.skip(next - hyphen), '-');
            }
            Err(RangeError::TooManyHyphens)
        } else {
            assert(split_on(rest, '-') == seq![rest]);
            assert(chars@.subrange(0, hyphen as int) == chars@.take(hyphen as int));
            assert(chars@.subrange(hyphen + 1, n as int) == rest);
            match (parse_number(&chars, 0, hyphen), parse_number(&chars, hyphen + 1, n)) {
                (Some(a), Some(b)) => if a == 0 || b == 0 {
                    Err(RangeError::ZeroLine)
                } else if a <= b {
                    Ok((a - 1, b))
                } else {
                    Ok((b - 1, a))
                },
                _ => Err(RangeError::NotANumber),
            }
        }
    }
}

/// The character that writes the digit `d`.
pub open spec fn digit_char(d: nat) -> char {
    ((d + '0' as u32) as u8) as char
}

/// The usual way to write `n` in base ten: no sign, no leading zero.
pub open spec fn decimal(n: nat) -> Seq<char>
    decreases n,
{
    if n < 10 {
        seq![digit_char(n)]
    } else {
        decimal(n / 10).push(digit_char(n % 10))
    }
}

/// Writing a number down gives digits only, at least one, and they spell the number.
pub proof fn lemma_decimal(n: nat)
    ensures
        decimal(n).len() >= 1,
        all_digits(decimal(n)),
        decimal_value(decimal(n)) == n,
    decreases n,
{
    if n < 10 {
        assert(decimal_value(decimal(n).drop_last()) == 0);
    } else {
        lemma_decimal(n / 10);
        assert(decimal(n).drop_last() == decimal(n / 10));
        assert(decimal(n).last() == digit_char(n % 10));
    }
}

/// Digits hold no hyphen and no sign.
pub proof fn lemma_digits_are_plain(digits: Seq<char>)
    requires
        all_digits(digits),
    ensures
        holds_no(digits, '-'),
        unsigned_part(digits) == digits,
{
}

/// A range without a hyphen is read as a single line number.
pub proof fn theorem_one_part(token: Seq<char>)
    requires
        holds_no(token, '-'),
    ensures
        range_of(token) == single_line(token),
{
    lemma_find_char_is(token, '-', token.len() as int);
}

/// A range with one hyphen is read as the two line numbers around it.
pub proof fn theorem_two_parts(first: Seq<char>, second: Seq<char>)
    requires
        holds_no(first, '-'),
        holds_no(second, '-'),
    ensures
        range_of(first + seq!['-'] + second) == line_span(first, second),
{
    let input = first + seq!['-'] + second;
    lemma_find_char_is(input, '-', first.len() as int);
    lemma_find_char_is(second, '-', second.len() as int);
    assert(input.take(first.len() as int) == first);
    assert(input.skip(first.len() as int + 1) == second);
    assert(split_on(second, '-') == seq![second]);
    assert(split_on(input, '-') == seq![first] + seq![second]);
}

/// A line number `n` of one or more, written alone, names the one line `n`:
/// the span from `n - 1` up to, not including, `n`.
pub proof fn theorem_single_line(n: nat)
    requires
        1 <= n <= usize::MAX,
    ensures
        range_of(decimal(n)) == Ok::<(usize, usize), RangeError>(((n - 1) as usize, n as usize)),
{
    lemma_decimal(n);
    lemma_digits_are_plain(decimal(n));
    theorem_one_part(decimal(n));
}

/// Two line numbers of one or more, joined by a hyphen, name the lines from
/// the smaller to the larger, both included; their order does not matter.
pub proof fn theorem_line_pair(a: nat, b: nat)
    requires
        1 <= a <= usize::MAX,
        1 <= b <= usize::MAX,
    ensures
        range_of(decimal(a) + seq!['-'] + decimal(b)) == Ok::<(usize, usize), RangeError>(
            if a <= b {
                ((a - 1) as usize, b as usize)
            } else {
                ((b - 1) as usize, a as usize)
            },
        ),
        range_of(decimal(a) + seq!['-'] + decimal(b)) == range_of(
            decimal(b) + seq!['-'] + decimal(a),
        ),
{
    lemma_decimal(a);
    lemma_decimal(b);
    lemma_digits_are_plain(decimal(a));
    lemma_digits_are_plain(decimal(b));
    theorem_two_parts(decimal(a), decimal(b));
    theorem_two_parts(decimal(b), decimal(a));
}

/// A range with two hyphens, at `i` and at `j`, is turned down for its hyphens,
/// whatever else it holds.
pub proof fn theorem_two_hyphens(input: Seq<char>, i: int, j: int)
    requires
        0 <= i < j < input.len(),
        input[i] == '-',
        input[j] == '-',
    ensures
        range_of(input) == Err::<(usize, usize), RangeError>(RangeError::TooManyHyphens),
{
    lemma_find_char(input, '-');
    let first = find_char(input, '-') as int;
    assert(first <= i);
    let rest = input.skip(first + 1);
    lemma_find_char(rest, '-');
    let second = find_char(rest, '-') as int;
    assert(rest[j - first - 1] == '-');
    assert(second < rest.len());
    let tail = rest.skip(second + 1);
    lemma_split_on(tail, '-');
    assert(split_on(rest, '-') == seq![rest.take(second)] + split_on(tail, '-'));
    assert(split_on(input, '-') == seq![input.take(first)] + split_on(rest, '-'));
}

/// A range of which some part, between or beside its hyphens, is no number
/// is turned down.
pub proof fn theorem_part_not_a_number(input: Seq<char>, k: int)
    requires
        0 <= k < split_on(input, '-').len(),
        !is_number(split_on(input, '-')[k]),
    ensures
        range_of(input) is Err,
        split_on(input, '-').len() <= 2 ==> range_of(input) == Err::<(usize, usize), RangeError>(
            RangeError::NotANumber,
        ),
{
}

} // verus!
