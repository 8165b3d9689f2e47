//! Generating the requested amount of passwords, numbering them, and laying
//! them out one to a line.

use crate::charset::{CharTypes, Charset};
use crate::password::{create_password, drawn_from, PasswordError, PasswordOptions};
use crate::util::{decimal_value, digit_value, is_digit, parsed_number};
use rand_chacha::ChaCha20Rng;
use vstd::prelude::*;
use vstd::string::StringExecFns;

verus! {

/// The character that writes a number below ten.
pub open spec fn digit_of(d: nat) -> char {
    ((0x30 + d) as u8) as char
}

/// The number written in base ten, without leading zeros.
pub open spec fn decimal(n: nat) -> Seq<char>
    decreases n,
{
    if n < 10 {
        seq![digit_of(n)]
    } else {
        decimal(n / 10).push(digit_of(n % 10))
    }
}

/// What stands before a numbered password: its number, a colon and a space.
pub open spec fn label(index: nat) -> Seq<char> {
    decimal(index) + seq![':', ' ']
}

/// The password that a line holds: what follows the label, where the lines
/// are numbered, and else the whole line.
pub open spec fn password_of_line(line: Seq<char>, index: nat, numbered: bool) -> Seq<char> {
    if numbered {
        line.skip(label(index).len() as int)
    } else {
        line
    }
}

/// Whether the line is what the options ask for at the given place: a
/// password of the asked length out of the selected pools, with its label in
/// front where the lines are numbered.
pub open spec fn is_line(
    line: Seq<char>,
    index: nat,
    options: &PasswordOptions,
    charset: &Charset,
) -> bool {
    let password = password_of_line(line, index, options.has_prefix);
    &&& options.has_prefix ==> line == label(index) + password
    &&& password.len() == options.length
    &&& drawn_from(password, options.classes(), charset)
}

/// The lines laid out as one text, with a line feed between each two.
pub open spec fn joined(lines: Seq<Seq<char>>) -> Seq<char>
    decreases lines.len(),
{
    if lines.len() == 0 {
        Seq::empty()
    } else if lines.len() == 1 {
        lines.last()
    } else {
        joined(lines.drop_last()) + seq!['\n'] + lines.last()
    }
}

/// What the strings read as.
pub open spec fn texts(lines: Seq<String>) -> Seq<Seq<char>> {
    Seq::new(lines.len(), |i: int| lines[i]@)
}

/// A number below ten is written by a digit that stands for it.
pub proof fn lemma_digit_of(d: nat)
    requires
        d < 10,
    ensures
        is_digit(digit_of(d)),
        digit_value(digit_of(d)) == d,
{
}

/// What is written in base ten is made of digits and reads as the number
/// that was written.
pub proof fn lemma_decimal_digits(n: nat)
    ensures
        decimal(n).len() > 0,
        forall|i: int| 0 <= i < decimal(n).len() ==> is_digit(#[trigger] decimal(n)[i]),
        decimal_value(decimal(n)) == n,
    decreases n,
{
    reveal_with_fuel(decimal_value, 2);
    lemma_digit_of(n % 10);
    if n < 10 {
        assert(decimal(n).drop_last() =~= Seq::<char>::empty());
    } else {
        lemma_decimal_digits(n / 10);
        assert(decimal(n).drop_last() =~= decimal(n / 10));
    }
}

/// Writing a number that fits in 32 bits and reading it back gives the
/// number.
pub proof fn lemma_decimal_reads_back(n: u32)
    ensures
        parsed_number(decimal(n as nat)) == Some(n),
{
    lemma_decimal_digits(n as nat);
    assert(decimal(n as nat)[0] != '+');
}

/// Writes a number in base ten at the end of the text.
pub fn push_decimal(text: &mut String, n: u32)
    ensures
        final(text)@ == old(text)@ + decimal(n as nat),
    decreases n,
{
    if n >= 10 {
        push_decimal(text, n / 10);
    }
    let digit: u8 = (n % 10) as u8;
    text.push((0x30 + digit) as char);
    assert(final(text)@ =~= old(text)@ + decimal(n as nat));
}

/// A password with its number in front, as in `3: hunter2`.
pub fn numbered(index: u32, password: &str) -> (line: String)
    ensures
        line@ == label(index as nat) + password@,
{
    let mut line = String::new();
    push_decimal(&mut line, index);
    line.push(':');
    line.push(' ');
    line.append(password);
    assert(line@ =~= label(index as nat) + password@);
    line
}

/// Generates as many passwords as the options ask for, numbered from 1 where
/// the options ask for a prefix.
///
/// Fails exactly if the options select no class, whatever the amount.
pub fn create_passwords(options: &PasswordOptions, charset: &Charset, rng: &mut ChaCha20Rng) -> (made:
    Result<Vec<String>, PasswordError>)
    requires
        forall|class: CharTypes|
            options.classes().contains(class) ==> #[trigger] charset.pool(class).len() > 0,
    ensures
        made is Err <==> options.classes() == Set::<CharTypes>::empty(),
        made matches Err(error) ==> error == PasswordError::InvalidOptions,
        made matches Ok(lines) ==> {
            &&& lines@.len() == options.amount
            &&& forall|i: int|
                0 <= i < lines@.len() ==> is_line(
                    (#[trigger] lines@[i])@,
                    (i + 1) as nat,
                    options,
                    charset,
                )
        },
{
    let mut lines: Vec<String> = Vec::new();
    if options.char_types.len() == 0 {
        assert(options.classes() =~= Set::<CharTypes>::empty());
        return Err(PasswordError::InvalidOptions);
    }
    assert(options.classes().contains(options.char_types@[0]));
    let mut count: u32 = 0;
    while count < options.amount
        invariant
            count <= options.amount,
            options.classes() != Set::<CharTypes>::empty(),
            forall|class: CharTypes|
                options.classes().contains(class) ==> #[trigger] charset.pool(class).len() > 0,
            lines@.len() == count,
            forall|i: int|
                0 <= i < lines@.len() ==> is_line(
                    (#[trigger] lines@[i])@,
                    (i + 1) as nat,
                    options,
                    charset,
                ),
        decreases options.amount - count,
    {
        let index: u32 = count + 1;
        let password = match create_password(options, charset, rng) {
            Ok(password) => password,
            Err(error) => {
                return Err(error);
            },
        };
        let line = if options.has_prefix {
            numbered(index, password.as_str())
        } else {
            password
        };
        proof {
            if options.has_prefix {
                assert(line@.skip(label(index as nat).len() as int) =~= password@);
            }
            assert(is_line(line@, index as nat, options, charset));
        }
        lines.push(line);
        count = index;
    }
    Ok(lines)
}

/// Lays the lines out as one text, with a line feed between each two and
/// none at the end.
pub fn join_lines(lines: &Vec<String>) -> (text: String)
    ensures
        text@ == joined(texts(lines@)),
{
    let mut text = String::new();
    let mut i: usize = 0;
    assert(texts(lines@).take(0) =~= Seq::<Seq<char>>::empty());
    while i < lines.len()
        invariant
            i <= lines.len(),
            text@ == joined(texts(lines@).take(i as int)),
        decreases lines.len() - i,
    {
        proof {
            let done = texts(lines@).take(i as int);
            let more = texts(lines@).take(i + 1);
            assert(more.drop_last() =~= done);
            assert(more.last() == lines@[i as int]@);
        }
        if i > 0 {
            text.push('\n');
        }
        text.append(lines[i].as_str());
        i = i + 1;
    }
    assert(texts(lines@).take(i as int) =~= texts(lines@));
    text
}

} // verus!
