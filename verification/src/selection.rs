//! Reading the user's choice of character classes.
//!
//! The choice is a list of words parted by commas. Whitespace around a word
//! does not count, a word that names no class is passed over, and `all`
//! stands for every class.

use crate::charset::CharTypes;
use crate::text::{chars_of_str, find_comma, reads_word, split_commas, trim, trim_bounds};
use vstd::prelude::*;

verus! {

/// The word that names a class.
pub open spec fn class_token(class: CharTypes) -> Seq<char> {
    match class {
        CharTypes::LowercaseLetters => "lowercase"@,
        CharTypes::UppercaseLetters => "uppercase"@,
        CharTypes::Digits => "digits"@,
        CharTypes::Special => "special"@,
    }
}

/// Whether a word asks for a class: it names the class, or it is `all`.
pub open spec fn word_selects(word: Seq<char>, class: CharTypes) -> bool {
    word == "all"@ || word == class_token(class)
}

/// Whether one of the pieces, trimmed, asks for the class.
pub open spec fn any_selects(pieces: Seq<Seq<char>>, class: CharTypes) -> bool {
    exists|k: int| 0 <= k < pieces.len() && word_selects(trim(#[trigger] pieces[k]), class)
}

/// Whether the input asks for the class.
pub open spec fn chosen(input: Seq<char>, class: CharTypes) -> bool {
    any_selects(split_commas(input), class)
}

/// The class alone if the input asks for it, else nothing.
pub open spec fn listed(input: Seq<char>, class: CharTypes) -> Seq<CharTypes> {
    if chosen(input, class) {
        seq![class]
    } else {
        Seq::empty()
    }
}

/// The classes that the input asks for, each once: lowercase letters first,
/// then uppercase letters, digits and special characters.
pub open spec fn selection(input: Seq<char>) -> Seq<CharTypes> {
    listed(input, CharTypes::LowercaseLetters) + listed(input, CharTypes::UppercaseLetters)
        + listed(input, CharTypes::Digits) + listed(input, CharTypes::Special)
}

/// The selection holds a class exactly if the input asks for it, and holds
/// no class twice.
pub proof fn lemma_selection(input: Seq<char>)
    ensures
        forall|class: CharTypes| #[trigger]
            selection(input).contains(class) <==> chosen(input, class),
        selection(input).no_duplicates(),
{
    let l = listed(input, CharTypes::LowercaseLetters);
    let u = listed(input, CharTypes::UppercaseLetters);
    let d = listed(input, CharTypes::Digits);
    let s = listed(input, CharTypes::Special);
    let all = selection(input);
    assert forall|class: CharTypes| #[trigger] all.contains(class) <==> chosen(input, class) by {
        if chosen(input, class) {
            let at: int = match class {
                CharTypes::LowercaseLetters => 0,
                CharTypes::UppercaseLetters => l.len() as int,
                CharTypes::Digits => (l.len() + u.len()) as int,
                CharTypes::Special => (l.len() + u.len() + d.len()) as int,
            };
            assert(all[at] == class);
        }
        if all.contains(class) {
            let k = choose|k: int| 0 <= k < all.len() && all[k] == class;
            assert(all[k] == class);
        }
    }
}

/// Adding a piece adds what its trimmed word asks for, and nothing else.
pub proof fn lemma_any_selects_push(pieces: Seq<Seq<char>>, piece: Seq<char>, class: CharTypes)
    ensures
        any_selects(pieces.push(piece), class) <==> (any_selects(pieces, class) || word_selects(
            trim(piece),
            class,
        )),
{
    let more = pieces.push(piece);
    if any_selects(pieces, class) {
        let k = choose|k: int| 0 <= k < pieces.len() && word_selects(trim(pieces[k]), class);
        assert(more[k] == pieces[k]);
    }
    if word_selects(trim(piece), class) {
        assert(more[pieces.len() as int] == piece);
    }
    if any_selects(more, class) {
        let k = choose|k: int| 0 <= k < more.len() && word_selects(trim(more[k]), class);
        if k < pieces.len() {
            assert(more[k] == pieces[k]);
        }
    }
}

/// The word that names a class.
pub fn token_of(class: CharTypes) -> (word: &'static str)
    ensures
        word@ == class_token(class),
{
    match class {
        CharTypes::LowercaseLetters => "lowercase",
        CharTypes::UppercaseLetters => "uppercase",
        CharTypes::Digits => "digits",
        CharTypes::Special => "special",
    }
}

/// Decides whether the word `text[from..to]` asks for a class.
pub fn asks_for(text: &Vec<char>, from: usize, to: usize, class: CharTypes) -> (asked: bool)
    requires
        from <= to <= text.len(),
    ensures
        asked == word_selects(text@.subrange(from as int, to as int), class),
{
    reads_word(text, from, to, "all") || reads_word(text, from, to, token_of(class))
}

/// Lists the classes out of four answers, in the order of `selection`.
fn list_classes(lower: bool, upper: bool, digits: bool, special: bool) -> (list: Vec<CharTypes>)
    ensures
        list@ == (if lower {
            seq![CharTypes::LowercaseLetters]
        } else {
            Seq::empty()
        }) + (if upper {
            seq![CharTypes::UppercaseLetters]
        } else {
            Seq::empty()
        }) + (if digits {
            seq![CharTypes::Digits]
        } else {
            Seq::empty()
        }) + (if special {
            seq![CharTypes::Special]
        } else {
            Seq::empty()
        }),
{
    let mut list: Vec<CharTypes> = Vec::new();
    if lower {
        list.push(CharTypes::LowercaseLetters);
    }
    if upper {
        list.push(CharTypes::UppercaseLetters);
    }
    if digits {
        list.push(CharTypes::Digits);
    }
    if special {
        list.push(CharTypes::Special);
    }
    list
}

/// Reads a choice of character classes, such as `lowercase, digits`.
///
/// Returns the classes asked for, each once, or nothing if the input asks
/// for no class at all.
pub fn get_char_types(input: String) -> (types: Option<Vec<CharTypes>>)
    ensures
        types is None <==> selection(input@).len() == 0,
        types matches Some(list) ==> list@ == selection(input@),
{
    let text = chars_of_str(input.as_str());
    let n = text.len();
    let mut lower = false;
    let mut upper = false;
    let mut digits = false;
    let mut special = false;
    let mut start: usize = 0;
    let mut finished = false;
    let ghost mut done: Seq<Seq<char>> = Seq::empty();
    assert(text@.skip(0) =~= text@);
    while !finished
        invariant
            text@ == input@,
            n == text.len(),
            start <= n,
            !finished ==> split_commas(text@) == done + split_commas(text@.skip(start as int)),
            finished ==> split_commas(text@) == done,
            lower == any_selects(done, CharTypes::LowercaseLetters),
            upper == any_selects(done, CharTypes::UppercaseLetters),
            digits == any_selects(done, CharTypes::Digits),
            special == any_selects(done, CharTypes::Special),
        decreases n - start + (if finished { 0int } else { 1int }),
    {
        let end = find_comma(&text, start);
        let (a, b) = trim_bounds(&text, start, end);
        let ghost piece = text@.subrange(start as int, end as int);
        proof {
            let rest = text@.skip(start as int);
            assert(rest.take(end - start) =~= piece);
            if end < n {
                assert(rest.skip(end - start + 1) =~= text@.skip(end + 1));
                assert(done + (seq![piece] + split_commas(text@.skip(end + 1))) =~= done.push(piece)
                    + split_commas(text@.skip(end + 1)));
            } else {
                assert(rest =~= piece);
                assert(done + seq![piece] =~= done.push(piece));
            }
            lemma_any_selects_push(done, piece, CharTypes::LowercaseLetters);
            lemma_any_selects_push(done, piece, CharTypes::UppercaseLetters);
            lemma_any_selects_push(done, piece, CharTypes::Digits);
            lemma_any_selects_push(done, piece, CharTypes::Special);
            done = done.push(piece);
        }
        lower = asks_for(&text, a, b, CharTypes::LowercaseLetters) || lower;
        upper = asks_for(&text, a, b, CharTypes::UppercaseLetters) || upper;
        digits = asks_for(&text, a, b, CharTypes::Digits) || digits;
        special = asks_for(&text, a, b, CharTypes::Special) || special;
        if end < n {
            start = end + 1;
        } else {
            finished = true;
        }
    }
    let list = list_classes(lower, upper, digits, special);
    if list.len() == 0 {
        None
    } else {
        Some(list)
    }
}

} // verus!
