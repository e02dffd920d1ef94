//! What a line typed by the user means.
//!
//! Reading the line is the caller's business. These functions take the line
//! as it was read, without its line ending, and decide.

use crate::error::InputError;
use crate::text::{ascii_lowercase, chars_of, eq_ignore_ascii_case};
use vstd::prelude::*;
use vstd::string::*;

verus! {

/// The answer to a yes-or-no question.
#[derive(Clone, Copy, Debug, PartialEq, Eq, Structural)]
pub enum Answer {
    Yes,
    No,
}

impl Answer {
    /// Whether the answer is yes.
    pub fn as_bool(self) -> (yes: bool)
        ensures
            yes == (self == Answer::Yes),
    {
        match self {
            Answer::Yes => true,
            Answer::No => false,
        }
    }
}

/// The answer that a line gives: `y` or `Y` is yes, `n` or `N` is no, and
/// anything else is the default.
pub open spec fn answer_of(line: Seq<char>, default: Answer) -> Answer {
    if line == seq!['y'] || line == seq!['Y'] {
        Answer::Yes
    } else if line == seq!['n'] || line == seq!['N'] {
        Answer::No
    } else {
        default
    }
}

/// Reads a yes-or-no answer off a line.
pub fn read_yn(line: &str, default: Answer) -> (answer: Answer)
    ensures
        answer == answer_of(line@, default),
{
    let chars = chars_of(line);
    if chars.len() != 1 {
        return default;
    }
    let c: char = chars[0];
    proof {
        assert(line@ =~= seq![c]);
        assert(seq!['y'][0] == 'y' && seq!['Y'][0] == 'Y' && seq!['n'][0] == 'n' && seq!['N'][0]
            == 'N');
    }
    if c == 'y' || c == 'Y' {
        Answer::Yes
    } else if c == 'n' || c == 'N' {
        Answer::No
    } else {
        default
    }
}

/// Whether a character is a decimal digit.
pub open spec fn is_digit(c: char) -> bool {
    '0' <= c && c <= '9'
}

/// The number that a decimal digit stands for.
pub open spec fn digit_value(c: char) -> nat {
    (c as nat - '0' as nat) as nat
}

/// The number that a run of decimal digits stands for.
pub open spec fn decimal_value(digits: Seq<char>) -> nat
    decreases digits.len(),
{
    if digits.len() == 0 {
        0
    } else {
        decimal_value(digits.drop_last()) * 10 + digit_value(digits.last())
    }
}

/// The digits of a line that may start with one `+`.
pub open spec fn unsigned_part(line: Seq<char>) -> Seq<char> {
    if line.len() > 0 && line[0] == '+' {
        line.drop_first()
    } else {
        line
    }
}

/// The number that a line stands for: decimal digits, at least one, after
/// at most one `+`, with a value that fits the machine word. Any other line
/// stands for no number.
pub open spec fn parsed_number(line: Seq<char>) -> Option<usize> {
    let digits = unsigned_part(line);
    if digits.len() > 0 && (forall|i: int| 0 <= i < digits.len() ==> is_digit(#[trigger] digits[i]))
        && decimal_value(digits) <= usize::MAX {
        Some(decimal_value(digits) as usize)
    } else {
        None
    }
}

proof fn lemma_decimal_grows(digits: Seq<char>, upto: int)
    requires
        0 <= upto <= digits.len(),
    ensures
        decimal_value(digits.take(upto)) <= decimal_value(digits),
    decreases digits.len() - upto,
{
    if upto < digits.len() {
        lemma_decimal_grows(digits, upto + 1);
        assert(digits.take(upto + 1).drop_last() =~= digits.take(upto));
    } else {
        assert(digits.take(upto) =~= digits);
    }
}

/// Reads a number off a line.
pub fn parse_number(line: &str) -> (number: Option<usize>)
    ensures
        number == parsed_number(line@),
{
    let chars = chars_of(line);
    let n: usize = chars.len();
    let start: usize = if n > 0 && chars[0] == '+' {
        1
    } else {
        0
    };
    let ghost digits = unsigned_part(line@);
    proof {
        assert(digits =~= line@.skip(start as int));
    }
    if start == n {
        return None;
    }
    let mut value: usize = 0;
    let mut i: usize = start;
    proof {
        assert(digits.take(0) =~= Seq::empty());
    }
    while i < n
        invariant
            start <= i <= n,
            n == chars@.len(),
            chars@ == line@,
            digits == line@.skip(start as int),
            digits == unsigned_part(line@),
            forall|j: int| 0 <= j < i - start ==> is_digit(#[trigger] digits[j]),
            value == decimal_value(digits.take(i - start)),
        decreases n - i,
    {
        let c: char = chars[i];
        if !('0' <= c && c <= '9') {
            proof {
                assert(digits[i - start] == c);
                assert(!is_digit(digits[i - start]));
            }
            return None;
        }
        let d: usize = (c as u8 - '0' as u8) as usize;
        proof {
            assert(digits[i - start] == c);
            assert(digits.take(i - start + 1).drop_last() =~= digits.take(i - start));
            assert(digits.take(i - start + 1).last() == c);
            assert(d == digit_value(c));
        }
        if value > (usize::MAX - d) / 10 {
            proof {
                lemma_decimal_grows(digits, i - start + 1);
                assert(decimal_value(digits.take(i - start + 1)) == value * 10 + d);
                assert(value * 10 + d > usize::MAX);
            }
            return None;
        }
        value = value * 10 + d;
        i += 1;
    }
    proof {
        assert(digits.take(n - start) =~= digits);
    }
    Some(value)
}

/// What a line means as the answer to a request for a number between `min`
/// and `max`: the number, or `None` if the number lies outside and the
/// request is to be repeated. A line that is no number fails the request.
pub fn read_range(line: &str, min: usize, max: usize) -> (outcome: Result<Option<usize>, InputError>)
    ensures
        match parsed_number(line@) {
            Some(number) => outcome == Ok::<Option<usize>, InputError>(
                if min <= number <= max {
                    Some(number)
                } else {
                    None
                },
            ),
            None => outcome matches Err(InputError::ParseFailed(text)) && text@ == line@,
        },
{
    match parse_number(line) {
        Some(number) => if min <= number && number <= max {
            Ok(Some(number))
        } else {
            Ok(None)
        },
        None => Err(InputError::ParseFailed(String::from_str(line))),
    }
}

/// What a line means as a choice among `count` items, numbered from one as
/// the user sees them: the place of the chosen item, counted from zero, or
/// `None` if the number names no item and the request is to be repeated.
/// Nothing can be chosen from no items.
pub fn select_from_list(count: usize, line: &str) -> (outcome: Result<Option<usize>, InputError>)
    ensures
        match outcome {
            Ok(Some(index)) => count > 0 && parsed_number(line@) == Some((index + 1) as usize)
                && index < count,
            Ok(None) => count > 0 && parsed_number(line@) is Some && !(1 <= parsed_number(
                line@,
            ).unwrap() <= count),
            Err(InputError::NoItemsProvided) => count == 0,
            Err(InputError::ParseFailed(text)) => count > 0 && parsed_number(line@) is None
                && text@ == line@,
            Err(_) => false,
        },
{
    if count == 0 {
        return Err(InputError::NoItemsProvided);
    }
    match read_range(line, 1, count) {
        Ok(Some(number)) => Ok(Some(number - 1)),
        Ok(None) => Ok(None),
        Err(e) => Err(e),
    }
}

/// The characters `true`.
pub open spec fn true_word() -> Seq<char> {
    seq!['t', 'r', 'u', 'e']
}

/// Whether an argument switches a setting on: `true` in any mix of upper
/// and lower case, or `1`. Everything else switches it off.
pub open spec fn switches_on(arg: Seq<char>) -> bool {
    ascii_lowercase(arg) == true_word() || arg == seq!['1']
}

/// Reads an on-or-off argument.
pub fn parse_true_false_arg(arg: &str) -> (on: bool)
    ensures
        on == switches_on(arg@),
{
    let chars = chars_of(arg);
    let mut word: Vec<char> = Vec::new();
    word.push('t');
    word.push('r');
    word.push('u');
    word.push('e');
    proof {
        assert(word@ =~= true_word());
        assert(ascii_lowercase(true_word()) =~= true_word());
    }
    if eq_ignore_ascii_case(&chars, &word) {
        return true;
    }
    let one = chars.len() == 1 && chars[0] == '1';
    proof {
        if one {
            assert(arg@ =~= seq!['1']);
        } else if chars.len() == 1 {
            assert(seq!['1'][0] == '1');
        }
    }
    one
}

} // verus!
