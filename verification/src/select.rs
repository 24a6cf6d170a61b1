//! Choosing the URL to open: none to choose from is an error, a single one is
//! taken as it is, and among several the user picks one by its number.
//!
//! Asking is left to the caller. `choose_remote_url` says whether a question
//! is needed, and `select_from_list` resolves one line of the user's answer
//! against the enumeration of the candidates.

use vstd::prelude::*;
use vstd::string::StrSliceExecFns;
use vstd::string::StringExecFns;
use crate::extract::UrlSet;
use crate::text::{chars_of, trim, trim_bounds, trim_start};

verus! {

/// Why no URL could be chosen.
#[derive(Debug, Clone, Copy, PartialEq, Eq)]
pub enum SelectError {
    /// There is no candidate.
    NotFound,
}

impl SelectError {
    /// The text of the error.
    pub open spec fn spec_message(&self) -> Seq<char> {
        "No URL found"@
    }

    /// The text to show for the error.
    pub fn message(&self) -> (out: String)
        ensures
            out@ == self.spec_message(),
    {
        String::from_str("No URL found")
    }
}

/// Why a line of input picks no candidate.
#[derive(Debug, Clone, Copy, PartialEq, Eq)]
pub enum InputError {
    /// Nothing but white space was entered.
    Empty,
    /// What was entered is not a number written in decimal digits.
    InvalidDigit,
    /// No candidate has the number that was entered.
    OutOfRange,
}

impl InputError {
    /// The text of the error.
    pub open spec fn spec_message(&self) -> Seq<char> {
        match self {
            InputError::Empty => "cannot parse integer from empty string"@,
            InputError::InvalidDigit => "invalid digit found in string"@,
            InputError::OutOfRange => "no choice has that number"@,
        }
    }

    /// The text to show for the error.
    pub fn message(&self) -> (out: String)
        ensures
            out@ == self.spec_message(),
    {
        match self {
            InputError::Empty => String::from_str("cannot parse integer from empty string"),
            InputError::InvalidDigit => String::from_str("invalid digit found in string"),
            InputError::OutOfRange => String::from_str("no choice has that number"),
        }
    }
}

/// What to do with a set of candidates.
#[derive(Debug, Clone, Copy, PartialEq, Eq)]
pub enum Choice<'a> {
    /// The only candidate: it is the choice, and nobody is asked.
    Url(&'a str),
    /// There are several candidates: the user has to pick one.
    Ask,
}

/// The value of a decimal digit.
pub open spec fn digit_value(c: char) -> Option<nat> {
    match c {
        '0' => Some(0),
        '1' => Some(1),
        '2' => Some(2),
        '3' => Some(3),
        '4' => Some(4),
        '5' => Some(5),
        '6' => Some(6),
        '7' => Some(7),
        '8' => Some(8),
        '9' => Some(9),
        _ => None,
    }
}

/// Whether `s` holds decimal digits only.
pub open spec fn all_digits(s: Seq<char>) -> bool {
    forall|i: int| 0 <= i < s.len() ==> (#[trigger] digit_value(s[i])) is Some
}

/// The number that the decimal digits `s` write; no digits write zero.
pub open spec fn number(s: Seq<char>) -> nat
    decreases s.len(),
{
    if s.len() == 0 {
        0
    } else {
        number(s.drop_last()) * 10 + match digit_value(s.last()) {
            Some(d) => d,
            None => 0,
        }
    }
}

/// `t` without a plus sign at its start.
pub open spec fn unsigned(t: Seq<char>) -> Seq<char> {
    if t.len() > 0 && t[0] == '+' {
        t.subrange(1, t.len() as int)
    } else {
        t
    }
}

/// The non-negative integer that `t` writes: an optional plus sign, then at
/// least one decimal digit and nothing else.
pub open spec fn parse_number(t: Seq<char>) -> Result<nat, InputError> {
    if t.len() == 0 {
        Err(InputError::Empty)
    } else if unsigned(t).len() == 0 || !all_digits(unsigned(t)) {
        Err(InputError::InvalidDigit)
    } else {
        Ok(number(unsigned(t)))
    }
}

/// The candidate that the line `input` picks from `choices`: the line, without
/// the white space around it, is the candidate's place in the enumeration,
/// counted from zero.
pub open spec fn spec_select(choices: Seq<Seq<char>>, input: Seq<char>) -> Result<
    Seq<char>,
    InputError,
> {
    match parse_number(trim(input)) {
        Ok(n) => if n < choices.len() {
            Ok(choices[n as int])
        } else {
            Err(InputError::OutOfRange)
        },
        Err(e) => Err(e),
    }
}

/// The value of a decimal digit.
pub fn digit_of(c: char) -> (out: Option<usize>)
    ensures
        match out {
            Some(d) => digit_value(c) == Some(d as nat) && d <= 9,
            None => digit_value(c) is None,
        },
{
    match c {
        '0' => Some(0),
        '1' => Some(1),
        '2' => Some(2),
        '3' => Some(3),
        '4' => Some(4),
        '5' => Some(5),
        '6' => Some(6),
        '7' => Some(7),
        '8' => Some(8),
        '9' => Some(9),
        _ => None,
    }
}

/// Decides what to do with the candidates `urls`: without any, fail; with one,
/// take it; with more, ask.
pub fn choose_remote_url<'a>(urls: &'a UrlSet) -> (out: Result<Choice<'a>, SelectError>)
    ensures
        match out {
            Err(e) => urls@.len() == 0 && e == SelectError::NotFound,
            Ok(Choice::Url(url)) => urls@.len() == 1 && url@ == urls@[0],
            Ok(Choice::Ask) => urls@.len() >= 2,
        },
{
    if urls.len() >= 2 {
        return Ok(Choice::Ask);
    }
    match urls.get(0) {
        Some(url) => Ok(Choice::Url(url)),
        None => Err(SelectError::NotFound),
    }
}

/// Resolves one line of input against the enumeration of `choices`. The line
/// picks the candidate whose number it writes; any other line is an error that
/// the caller reports before asking again.
pub fn select_from_list<'a>(choices: &'a UrlSet, input: &str) -> (out: Result<&'a str, InputError>)
    ensures
        match out {
            Ok(url) => spec_select(choices@, input@) == Ok::<Seq<char>, InputError>(url@),
            Err(e) => spec_select(choices@, input@) == Err::<Seq<char>, InputError>(e),
        },
{
    let chars = chars_of(input);
    let (from, to) = trim_bounds(chars.as_slice());
    if from == to {
        return Err(InputError::Empty);
    }
    let start: usize = if chars[from] == '+' {
        from + 1
    } else {
        from
    };
    let ghost body = chars@.subrange(start as int, to as int);
    assert(body =~= unsigned(trim(input@)));
    if start == to {
        return Err(InputError::InvalidDigit);
    }
    let count = choices.len();
    let mut index: usize = 0;
    let mut beyond = false;
    let mut i: usize = start;
    while i < to
        invariant
            start <= i <= to <= chars@.len(),
            count == choices@.len(),
            body == chars@.subrange(start as int, to as int),
            body == unsigned(trim(input@)),
            trim(input@).len() > 0,
            forall|j: int| start <= j < i ==> (#[trigger] digit_value(chars@[j])) is Some,
            beyond ==> number(chars@.subrange(start as int, i as int)) >= count,
            !beyond ==> index == number(chars@.subrange(start as int, i as int)) && index < count
                || i == start && index == 0,
        decreases to - i,
    {
        assert(chars@.subrange(start as int, i + 1).drop_last() =~= chars@.subrange(
            start as int,
            i as int,
        ));
        match digit_of(chars[i]) {
            None => {
                assert(digit_value(body[i - start]) is None);
                return Err(InputError::InvalidDigit);
            },
            Some(digit) => {
                if !beyond {
                    if index > (usize::MAX - digit) / 10 {
                        beyond = true;
                    } else {
                        index = index * 10 + digit;
                        beyond = index >= count;
                    }
                }
            },
        }
        i += 1;
    }
    assert(all_digits(body)) by {
        assert forall|k: int| 0 <= k < body.len() implies (#[trigger] digit_value(body[k]))
            is Some by {
            assert(digit_value(chars@[start + k]) is Some);
        }
    }
    if beyond {
        Err(InputError::OutOfRange)
    } else {
        match choices.get(index) {
            Some(url) => Ok(url),
            None => Err(InputError::OutOfRange),
        }
    }
}

/// The decimal digit that writes `d`, for `d` below ten.
pub open spec fn digit_char(d: nat) -> char {
    if d == 0 {
        '0'
    } else if d == 1 {
        '1'
    } else if d == 2 {
        '2'
    } else if d == 3 {
        '3'
    } else if d == 4 {
        '4'
    } else if d == 5 {
        '5'
    } else if d == 6 {
        '6'
    } else if d == 7 {
        '7'
    } else if d == 8 {
        '8'
    } else {
        '9'
    }
}

/// `n` written in decimal digits, without leading zeros.
pub open spec fn decimal(n: nat) -> Seq<char>
    decreases n,
{
    if n < 10 {
        seq![digit_char(n)]
    } else {
        decimal(n / 10).push(digit_char(n % 10))
    }
}

/// The line of the enumeration that shows the candidate `url` at place
/// `index`: the place, a colon, a space, the URL.
pub open spec fn menu_entry(index: nat, url: Seq<char>) -> Seq<char> {
    decimal(index) + seq![':', ' '] + url
}

/// `n` written in decimal digits.
pub fn decimal_string(n: usize) -> (out: String)
    ensures
        out@ == decimal(n as nat),
    decreases n,
{
    let digits = "0123456789";
    proof {
        reveal_strlit("0123456789");
    }
    let low = n % 10;
    let last = digits.substring_char(low, low + 1);
    assert(last@ =~= seq![digit_char(low as nat)]);
    if n < 10 {
        String::from_str(last)
    } else {
        let mut out = decimal_string(n / 10);
        out.append(last);
        assert(out@ =~= decimal(n as nat));
        out
    }
}

/// The enumeration of `choices` as it is shown before the question: one line
/// for each candidate, numbered from zero in the order in which
/// `select_from_list` resolves the answer.
pub fn menu(choices: &UrlSet) -> (out: Vec<String>)
    ensures
        out@.len() == choices@.len(),
        forall|i: int|
            0 <= i < out@.len() ==> (#[trigger] out@[i])@ == menu_entry(i as nat, choices@[i]),
{
    let mut out: Vec<String> = Vec::new();
    let mut i: usize = 0;
    while i < choices.len()
        invariant
            i <= choices@.len(),
            out@.len() == i,
            forall|j: int|
                0 <= j < i ==> (#[trigger] out@[j])@ == menu_entry(j as nat, choices@[j]),
        decreases choices@.len() - i,
    {
        let mut line = decimal_string(i);
        line.append(": ");
        match choices.get(i) {
            Some(url) => line.append(url),
            None => {},
        }
        proof {
            reveal_strlit(": ");
            assert(": "@ =~= seq![':', ' ']);
        }
        out.push(line);
        i += 1;
    }
    out
}

/// The digits of `decimal(n)` write `n`: there is at least one, each is a
/// decimal digit, and together they have the value `n`.
pub proof fn lemma_decimal_writes(n: nat)
    ensures
        decimal(n).len() > 0,
        all_digits(decimal(n)),
        number(decimal(n)) == n,
    decreases n,
{
    if n < 10 {
        assert(decimal(n).drop_last() =~= Seq::<char>::empty());
        assert(number(decimal(n).drop_last()) == 0);
    } else {
        lemma_decimal_writes(n / 10);
        assert(decimal(n).drop_last() =~= decimal(n / 10));
    }
}

/// Decimal digits alone are a number, with or without the end of the line
/// behind them: trimming leaves the digits, and they parse to their value.
pub proof fn lemma_digits_parse(digits: Seq<char>)
    requires
        digits.len() > 0,
        all_digits(digits),
    ensures
        parse_number(trim(digits)) == Ok::<nat, InputError>(number(digits)),
        parse_number(trim(digits.push('\n'))) == Ok::<nat, InputError>(number(digits)),
{
    let line = digits.push('\n');
    assert(digit_value(digits[0]) is Some);
    assert(digit_value(digits.last()) is Some);
    assert(line[0] == digits[0]);
    assert(trim_start(digits) =~= digits);
    assert(trim_start(line) =~= line);
    assert(line.drop_last() =~= digits);
    assert(trim(digits) == digits);
    assert(trim(line) == digits);
}

/// The number that the enumeration shows beside a candidate picks that
/// candidate, entered as it stands or with the end of the line behind it.
pub proof fn lemma_shown_number_selects(choices: Seq<Seq<char>>, index: nat)
    requires
        index < choices.len(),
    ensures
        spec_select(choices, decimal(index)) == Ok::<Seq<char>, InputError>(
            choices[index as int],
        ),
        spec_select(choices, decimal(index).push('\n')) == Ok::<Seq<char>, InputError>(
            choices[index as int],
        ),
{
    lemma_decimal_writes(index);
    lemma_digits_parse(decimal(index));
}

} // verus!
