//! Where the passwords go, and the reading of what the user typed: numbers,
//! the choice of a destination, and the answer to a yes-or-no question.

use crate::text::{chars_of_str, same_text};
use vstd::prelude::*;

verus! {

/// The destination of the generated passwords.
#[derive(Debug, Clone, Copy, PartialEq, Eq, Structural)]
pub enum Output {
    Stdout,
    Commandline,
    File,
    /// No destination has been chosen; passwords sent here are discarded.
    Unset,
}

impl Output {
    /// The destination before the user has chosen one.
    pub fn default() -> (out: Self)
        ensures
            out == Output::Unset,
    {
        Output::Unset
    }
}

/// `c` is one of the ten ASCII digits.
pub open spec fn is_digit(c: char) -> bool {
    0x30 <= c as u32 <= 0x39
}

/// The number that a digit stands for; 0 for any other character.
pub open spec fn digit_value(c: char) -> nat {
    if is_digit(c) {
        (c as u32 - 0x30) as nat
    } else {
        0
    }
}

/// The number that a sequence of digits reads as, in base ten.
pub open spec fn decimal_value(digits: Seq<char>) -> nat
    decreases digits.len(),
{
    if digits.len() == 0 {
        0
    } else {
        decimal_value(digits.drop_last()) * 10 + digit_value(digits.last())
    }
}

/// The text without the plus sign that it may start with.
pub open spec fn unsigned_part(text: Seq<char>) -> Seq<char> {
    if text.len() > 0 && text.first() == '+' {
        text.drop_first()
    } else {
        text
    }
}

/// Whether the text is a number: at least one digit and nothing but digits,
/// with at most one plus sign in front.
pub open spec fn is_number(text: Seq<char>) -> bool {
    let digits = unsigned_part(text);
    digits.len() > 0 && forall|i: int| 0 <= i < digits.len() ==> is_digit(#[trigger] digits[i])
}

/// The number that the text reads as, if it is a number that fits in 32 bits.
pub open spec fn parsed_number(text: Seq<char>) -> Option<u32> {
    if is_number(text) && decimal_value(unsigned_part(text)) <= u32::MAX {
        Some(decimal_value(unsigned_part(text)) as u32)
    } else {
        None
    }
}

/// Reading on cannot make the number smaller.
pub proof fn lemma_decimal_value_grows(digits: Seq<char>, k: int)
    requires
        0 <= k <= digits.len(),
    ensures
        decimal_value(digits.take(k)) <= decimal_value(digits),
    decreases digits.len(),
{
    if k < digits.len() {
        let shorter = digits.drop_last();
        lemma_decimal_value_grows(shorter, k);
        assert(shorter.take(k) =~= digits.take(k));
    } else {
        assert(digits.take(k) =~= digits);
    }
}

/// Converts a string to a number.
///
/// The string has to be made of decimal digits, with at most one plus sign
/// in front and nothing else, and the number has to fit in 32 bits.
pub fn convert_to_number(string: String) -> (number: Option<u32>)
    ensures
        number == parsed_number(string@),
{
    let text = chars_of_str(string.as_str());
    let n = text.len();
    let start: usize = if n > 0 && text[0] == '+' {
        1
    } else {
        0
    };
    let ghost digits = unsigned_part(text@);
    assert(digits =~= text@.skip(start as int));
    if start == n {
        return None;
    }
    let mut value: u32 = 0;
    let mut i: usize = start;
    assert(digits.take(0) =~= Seq::<char>::empty());
    while i < n
        invariant
            start <= i <= n,
            n == text.len(),
            digits == text@.skip(start as int),
            digits == unsigned_part(string@),
            forall|k: int| 0 <= k < i - start ==> is_digit(#[trigger] digits[k]),
            value == decimal_value(digits.take(i - start)),
        decreases n - i,
    {
        let c = text[i];
        let code: u32 = c as u32;
        if code < 0x30 || code > 0x39 {
            assert(!is_digit(digits[i - start]));
            return None;
        }
        let digit: u32 = code - 0x30;
        proof {
            let longer = digits.take(i - start + 1);
            assert(longer.drop_last() =~= digits.take(i - start));
            assert(longer.last() == c);
            assert(decimal_value(longer) == value * 10 + digit);
        }
        if value > (u32::MAX - digit) / 10 {
            proof {
                lemma_decimal_value_grows(digits, i - start + 1);
            }
            return None;
        }
        value = value * 10 + digit;
        i = i + 1;
    }
    assert(digits.take(i - start) =~= digits);
    Some(value)
}

/// The destination that an answer chooses. From the command line the
/// passwords always go back to it; asked, `stdout` or nothing chooses the
/// standard output, `file` a file, and any other answer nothing.
pub open spec fn output_choice(cli: bool, answer: Seq<char>) -> Option<Output> {
    if cli {
        Some(Output::Commandline)
    } else if answer == "stdout"@ || answer == ""@ {
        Some(Output::Stdout)
    } else if answer == "file"@ {
        Some(Output::File)
    } else {
        None
    }
}

/// Decides where the passwords go, from the user's answer.
pub fn get_output_type(cli: bool, answer: &str) -> (output: Option<Output>)
    ensures
        output == output_choice(cli, answer@),
{
    if cli {
        return Some(Output::Commandline);
    }
    if same_text(answer, "stdout") || same_text(answer, "") {
        Some(Output::Stdout)
    } else if same_text(answer, "file") {
        Some(Output::File)
    } else {
        None
    }
}

/// What an answer says to a yes-or-no question whose default is yes: `y` or
/// nothing is yes, `n` is no, and any other answer is none.
pub open spec fn yes_or_no(answer: Seq<char>) -> Option<bool> {
    if answer == "y"@ || answer == ""@ {
        Some(true)
    } else if answer == "n"@ {
        Some(false)
    } else {
        None
    }
}

/// Reads the answer to a yes-or-no question whose default is yes.
pub fn get_yes_or_no(answer: &str) -> (choice: Option<bool>)
    ensures
        choice == yes_or_no(answer@),
{
    if same_text(answer, "y") || same_text(answer, "") {
        Some(true)
    } else if same_text(answer, "n") {
        Some(false)
    } else {
        None
    }
}

} // verus!
