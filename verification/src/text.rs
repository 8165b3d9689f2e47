//! Reading text character by character: whitespace, trimming, splitting at
//! commas and comparing with a word.

use vstd::prelude::*;

verus! {

/// `c` has the Unicode property White_Space.
pub open spec fn is_whitespace(c: char) -> bool {
    let u = c as u32;
    ||| 0x09 <= u <= 0x0d
    ||| u == 0x20
    ||| u == 0x85
    ||| u == 0xa0
    ||| u == 0x1680
    ||| 0x2000 <= u <= 0x200a
    ||| u == 0x2028
    ||| u == 0x2029
    ||| u == 0x202f
    ||| u == 0x205f
    ||| u == 0x3000
}

/// `s` without the whitespace it starts with.
pub open spec fn trim_start(s: Seq<char>) -> Seq<char>
    decreases s.len(),
{
    if s.len() > 0 && is_whitespace(s.first()) {
        trim_start(s.drop_first())
    } else {
        s
    }
}

/// `s` without the whitespace it ends with.
pub open spec fn trim_end(s: Seq<char>) -> Seq<char>
    decreases s.len(),
{
    if s.len() > 0 && is_whitespace(s.last()) {
        trim_end(s.drop_last())
    } else {
        s
    }
}

/// `s` without the whitespace at either end.
pub open spec fn trim(s: Seq<char>) -> Seq<char> {
    trim_end(trim_start(s))
}

/// The position of the first comma in `s`, or the length of `s` if it has none.
pub open spec fn first_comma(s: Seq<char>) -> nat
    decreases s.len(),
{
    if s.len() == 0 || s.first() == ',' {
        0
    } else {
        1 + first_comma(s.drop_first())
    }
}

/// The pieces that the commas of `s` part it into, in order. A text without
/// a comma is one piece; between two commas that touch lies an empty piece.
pub open spec fn split_commas(s: Seq<char>) -> Seq<Seq<char>>
    decreases s.len(),
{
    let i = first_comma(s) as int;
    if i >= s.len() {
        seq![s]
    } else {
        seq![s.take(i)] + split_commas(s.skip(i + 1))
    }
}

/// The characters of a string, in order.
pub fn chars_of_str(s: &str) -> (chars: Vec<char>)
    ensures
        chars@ == s@,
{
    let mut chars: Vec<char> = Vec::new();
    for c in it: s.chars()
        invariant
            chars@ == it.seq().take(it.index() as int),
            it.seq() == s@,
    {
        chars.push(c);
    }
    chars
}

/// Decides whether `c` is whitespace.
pub fn is_space(c: char) -> (space: bool)
    ensures
        space == is_whitespace(c),
{
    let u: u32 = c as u32;
    (0x09 <= u && u <= 0x0d) || u == 0x20 || u == 0x85 || u == 0xa0 || u == 0x1680 || (0x2000 <= u
        && u <= 0x200a) || u == 0x2028 || u == 0x2029 || u == 0x202f || u == 0x205f || u == 0x3000
}

/// The first comma lies where the text has one and nothing before it has.
pub proof fn lemma_first_comma(s: Seq<char>)
    ensures
        first_comma(s) <= s.len(),
        first_comma(s) < s.len() ==> s[first_comma(s) as int] == ',',
        forall|k: int| 0 <= k < first_comma(s) ==> s[k] != ',',
    decreases s.len(),
{
    if s.len() == 0 || s.first() == ',' {
    } else {
        let rest = s.drop_first();
        lemma_first_comma(rest);
        assert forall|k: int| 0 <= k < first_comma(s) implies s[k] != ',' by {
            if k > 0 {
                assert(s[k] == rest[k - 1]);
            }
        }
    }
}

/// A position with a comma, and none before it, is the first comma; so is
/// the end of a text without one.
pub proof fn lemma_first_comma_at(s: Seq<char>, i: int)
    requires
        0 <= i <= s.len(),
        i < s.len() ==> s[i] == ',',
        forall|k: int| 0 <= k < i ==> s[k] != ',',
    ensures
        first_comma(s) == i,
{
    lemma_first_comma(s);
    let j = first_comma(s) as int;
    if j < i {
        assert(s[j] == ',');
    } else if i < j {
        assert(s[i] == ',');
    }
}

/// Finds the first comma of `text` at or after `from`, or the end of `text`.
pub fn find_comma(text: &Vec<char>, from: usize) -> (at: usize)
    requires
        from <= text.len(),
    ensures
        from <= at <= text.len(),
        at - from == first_comma(text@.skip(from as int)),
{
    let mut at: usize = from;
    while at < text.len() && text[at] != ','
        invariant
            from <= at <= text.len(),
            forall|k: int| from <= k < at ==> text@[k] != ',',
        decreases text.len() - at,
    {
        at = at + 1;
    }
    proof {
        lemma_first_comma_at(text@.skip(from as int), at - from);
    }
    at
}

/// Finds the part of `text[from..to]` that is left when the whitespace at
/// both of its ends is taken away.
pub fn trim_bounds(text: &Vec<char>, from: usize, to: usize) -> (ends: (usize, usize))
    requires
        from <= to <= text.len(),
    ensures
        from <= ends.0 <= ends.1 <= to,
        text@.subrange(ends.0 as int, ends.1 as int) == trim(
            text@.subrange(from as int, to as int),
        ),
{
    let mut a: usize = from;
    while a < to && is_space(text[a])
        invariant
            from <= a <= to <= text.len(),
            trim_start(text@.subrange(from as int, to as int)) == trim_start(
                text@.subrange(a as int, to as int),
            ),
        decreases to - a,
    {
        assert(text@.subrange(a as int, to as int).drop_first() =~= text@.subrange(
            a + 1,
            to as int,
        ));
        a = a + 1;
    }
    let mut b: usize = to;
    while a < b && is_space(text[b - 1])
        invariant
            a <= b <= to <= text.len(),
            trim_end(text@.subrange(a as int, to as int)) == trim_end(
                text@.subrange(a as int, b as int),
            ),
        decreases b - a,
    {
        assert(text@.subrange(a as int, b as int).drop_last() =~= text@.subrange(a as int, b - 1));
        b = b - 1;
    }
    (a, b)
}

/// Decides whether `text[from..to]` reads `word`.
pub fn reads_word(text: &Vec<char>, from: usize, to: usize, word: &str) -> (same: bool)
    requires
        from <= to <= text.len(),
    ensures
        same == (text@.subrange(from as int, to as int) == word@),
{
    let letters = chars_of_str(word);
    if letters.len() != to - from {
        return false;
    }
    let mut i: usize = 0;
    while i < letters.len()
        invariant
            from <= to <= text.len(),
            letters@ == word@,
            letters.len() == to - from,
            i <= letters.len(),
            forall|k: int| 0 <= k < i ==> text@[from + k] == letters@[k],
        decreases letters.len() - i,
    {
        if text[from + i] != letters[i] {
            assert(text@.subrange(from as int, to as int)[i as int] != letters@[i as int]);
            return false;
        }
        i = i + 1;
    }
    assert(text@.subrange(from as int, to as int) =~= letters@);
    true
}

/// Decides whether two texts read the same.
pub fn same_text(a: &str, b: &str) -> (same: bool)
    ensures
        same == (a@ == b@),
{
    let text = chars_of_str(a);
    assert(text@.subrange(0, text@.len() as int) =~= text@);
    reads_word(&text, 0, text.len(), b)
}

} // verus!
