//! The four pools of characters that passwords are drawn from.
//!
//! Each pool is a stretch of the ASCII table, walked in ascending order and
//! filtered by the classification of its class. Nothing is listed by hand:
//! a pool is exactly the bytes of its stretch that its class admits.

use vstd::prelude::*;

verus! {

/// The classes of characters a password may be made of.
#[derive(Debug, PartialEq, Eq, Structural, Hash, Clone, Copy)]
pub enum CharTypes {
    LowercaseLetters,
    UppercaseLetters,
    Digits,
    Special,
}

/// Code point of `a`.
pub const LOWER_A: u8 = 0x61;

/// Code point of `z`.
pub const LOWER_Z: u8 = 0x7a;

/// Code point of `A`.
pub const UPPER_A: u8 = 0x41;

/// Code point of `Z`.
pub const UPPER_Z: u8 = 0x5a;

/// Code point of `0`.
pub const DIGIT_0: u8 = 0x30;

/// Code point of `9`.
pub const DIGIT_9: u8 = 0x39;

/// Code point of the space, the first printable character.
pub const SPACE: u8 = 0x20;

/// Code point of `~`, the last printable character.
pub const TILDE: u8 = 0x7e;

/// Code point of the delete control code.
pub const DELETE: u8 = 0x7f;

/// `b` is an ASCII letter of either case.
pub open spec fn ascii_alphabetic(b: u8) -> bool {
    (LOWER_A <= b <= LOWER_Z) || (UPPER_A <= b <= UPPER_Z)
}

/// `b` is one of the ten ASCII digits.
pub open spec fn ascii_digit(b: u8) -> bool {
    DIGIT_0 <= b <= DIGIT_9
}

/// `b` is an ASCII control code: below the space, or the delete code.
pub open spec fn ascii_control(b: u8) -> bool {
    b < SPACE || b == DELETE
}

/// The bytes `lo, lo + 1, .., hi` in ascending order; empty when `hi < lo`.
pub open spec fn byte_range(lo: int, hi: int) -> Seq<u8> {
    Seq::new(
        if lo <= hi {
            (hi - lo + 1) as nat
        } else {
            0
        },
        |i: int| (lo + i) as u8,
    )
}

/// The characters whose code points are the given bytes.
pub open spec fn as_chars(codes: Seq<u8>) -> Seq<char> {
    codes.map_values(|b: u8| b as char)
}

impl CharTypes {
    /// The first byte of the stretch of ASCII that the class is taken from.
    pub open spec fn first_code(self) -> u8 {
        match self {
            CharTypes::LowercaseLetters => LOWER_A,
            CharTypes::UppercaseLetters => UPPER_A,
            CharTypes::Digits => DIGIT_0,
            CharTypes::Special => SPACE,
        }
    }

    /// The last byte of the stretch of ASCII that the class is taken from.
    pub open spec fn last_code(self) -> u8 {
        match self {
            CharTypes::LowercaseLetters => LOWER_Z,
            CharTypes::UppercaseLetters => UPPER_Z,
            CharTypes::Digits => DIGIT_9,
            CharTypes::Special => TILDE,
        }
    }

    /// Whether the class keeps a byte of its stretch.
    ///
    /// Both letter classes keep letters; the stretch tells the cases apart.
    /// The special class keeps what is neither letter, digit nor control code.
    pub open spec fn admits(self, b: u8) -> bool {
        match self {
            CharTypes::LowercaseLetters => ascii_alphabetic(b),
            CharTypes::UppercaseLetters => ascii_alphabetic(b),
            CharTypes::Digits => ascii_digit(b),
            CharTypes::Special => !ascii_alphabetic(b) && !ascii_digit(b) && !ascii_control(b),
        }
    }

    /// `admits` as a predicate, for filtering.
    pub open spec fn keeper(self) -> spec_fn(u8) -> bool {
        |b: u8| self.admits(b)
    }

    /// The code points of the class's pool: its stretch, filtered.
    pub open spec fn pool_codes(self) -> Seq<u8> {
        byte_range(self.first_code() as int, self.last_code() as int).filter(self.keeper())
    }

    /// The class's pool, as characters.
    pub open spec fn pool_chars(self) -> Seq<char> {
        as_chars(self.pool_codes())
    }

    /// The stretch of ASCII that the class is taken from, both ends included.
    pub fn stretch(&self) -> (ends: (u8, u8))
        ensures
            ends.0 == self.first_code(),
            ends.1 == self.last_code(),
    {
        match self {
            CharTypes::LowercaseLetters => (LOWER_A, LOWER_Z),
            CharTypes::UppercaseLetters => (UPPER_A, UPPER_Z),
            CharTypes::Digits => (DIGIT_0, DIGIT_9),
            CharTypes::Special => (SPACE, TILDE),
        }
    }

    /// Decides whether the class keeps the byte `b`.
    pub fn keeps(&self, b: u8) -> (kept: bool)
        ensures
            kept == self.admits(b),
    {
        let letter = (LOWER_A <= b && b <= LOWER_Z) || (UPPER_A <= b && b <= UPPER_Z);
        let digit = DIGIT_0 <= b && b <= DIGIT_9;
        let control = b < SPACE || b == DELETE;
        match self {
            CharTypes::LowercaseLetters => letter,
            CharTypes::UppercaseLetters => letter,
            CharTypes::Digits => digit,
            CharTypes::Special => !letter && !digit && !control,
        }
    }

    /// Walks the class's stretch and collects the bytes that the class keeps.
    pub fn collect_codes(&self) -> (codes: Vec<u8>)
        ensures
            codes@ == self.pool_codes(),
    {
        let (lo, hi) = self.stretch();
        let mut codes: Vec<u8> = Vec::new();
        let mut b: u8 = lo;
        proof {
            assert(byte_range(lo as int, lo - 1) =~= Seq::<u8>::empty());
            lemma_filter_drops_all(lo as int, lo - 1, self.keeper());
        }
        while b <= hi
            invariant
                lo == self.first_code(),
                hi == self.last_code(),
                lo <= b <= hi + 1,
                codes@ == byte_range(lo as int, b - 1).filter(self.keeper()),
            decreases hi + 1 - b,
        {
            proof {
                let before = byte_range(lo as int, b - 1);
                assert(byte_range(lo as int, b as int) =~= before.push(b));
                before.lemma_filter_push(b, self.keeper());
            }
            if self.keeps(b) {
                codes.push(b);
            }
            b = b + 1;
        }
        codes
    }
}

/// The character set used in password generation: one pool for each class.
///
/// The digits are kept as code points; the other pools hold characters.
pub struct Charset {
    pub lowercase_alphabet: Vec<char>,
    pub uppercase_alphabet: Vec<char>,
    pub digits: Vec<u8>,
    pub special: Vec<char>,
}

impl Charset {
    /// The characters that a class is drawn from in this set.
    pub open spec fn pool(&self, class: CharTypes) -> Seq<char> {
        match class {
            CharTypes::LowercaseLetters => self.lowercase_alphabet@,
            CharTypes::UppercaseLetters => self.uppercase_alphabet@,
            CharTypes::Digits => as_chars(self.digits@),
            CharTypes::Special => self.special@,
        }
    }

    /// Every pool holds exactly what its class keeps of its stretch of ASCII.
    pub open spec fn is_standard(&self) -> bool {
        &&& self.digits@ == CharTypes::Digits.pool_codes()
        &&& forall|class: CharTypes| #[trigger] self.pool(class) == class.pool_chars()
    }

    /// No character stands in two pools.
    pub open spec fn pools_disjoint(&self) -> bool {
        forall|a: CharTypes, b: CharTypes, c: char|
            a != b && #[trigger] self.pool(a).contains(c) ==> !#[trigger] self.pool(b).contains(c)
    }

    /// Every pool has something to draw.
    pub open spec fn pools_nonempty(&self) -> bool {
        forall|class: CharTypes| #[trigger] self.pool(class).len() > 0
    }

    /// Builds the standard character set: 26 lowercase letters, 26 uppercase
    /// letters, the 10 digits and the 33 printable characters that are
    /// neither letters nor digits.
    pub fn new() -> (cs: Self)
        ensures
            cs.is_standard(),
            cs.pools_nonempty(),
            cs.pools_disjoint(),
            cs.lowercase_alphabet@.len() == 26,
            cs.uppercase_alphabet@.len() == 26,
            cs.digits@.len() == 10,
            cs.special@.len() == 33,
    {
        let uppercase_alphabet = chars_of(&CharTypes::UppercaseLetters.collect_codes());
        let lowercase_alphabet = chars_of(&CharTypes::LowercaseLetters.collect_codes());
        let digits = CharTypes::Digits.collect_codes();
        let special = chars_of(&CharTypes::Special.collect_codes());
        let cs = Self { lowercase_alphabet, uppercase_alphabet, digits, special };
        proof {
            assert forall|class: CharTypes| #[trigger] cs.pool(class) == class.pool_chars() by {
                match class {
                    CharTypes::LowercaseLetters => {},
                    CharTypes::UppercaseLetters => {},
                    CharTypes::Digits => {},
                    CharTypes::Special => {},
                }
            }
            lemma_standard_set(cs);
        }
        cs
    }
}

/// Filtering a stretch by a predicate that holds of all its bytes keeps it whole.
pub proof fn lemma_filter_keeps_all(lo: int, hi: int, keep: spec_fn(u8) -> bool)
    requires
        0 <= lo,
        hi <= u8::MAX,
        forall|b: u8| lo <= b <= hi ==> #[trigger] keep(b),
    ensures
        byte_range(lo, hi).filter(keep) == byte_range(lo, hi),
    decreases hi - lo + 1,
{
    reveal(Seq::filter);
    if lo <= hi {
        let before = byte_range(lo, hi - 1);
        lemma_filter_keeps_all(lo, hi - 1, keep);
        assert(byte_range(lo, hi) =~= before.push(hi as u8));
        before.lemma_filter_push(hi as u8, keep);
    } else {
        assert(byte_range(lo, hi) =~= Seq::<u8>::empty());
    }
}

/// Filtering a stretch by a predicate that holds of none of its bytes leaves nothing.
pub proof fn lemma_filter_drops_all(lo: int, hi: int, keep: spec_fn(u8) -> bool)
    requires
        0 <= lo,
        hi <= u8::MAX,
        forall|b: u8| lo <= b <= hi ==> !#[trigger] keep(b),
    ensures
        byte_range(lo, hi).filter(keep) == Seq::<u8>::empty(),
    decreases hi - lo + 1,
{
    reveal(Seq::filter);
    if lo <= hi {
        let before = byte_range(lo, hi - 1);
        lemma_filter_drops_all(lo, hi - 1, keep);
        assert(byte_range(lo, hi) =~= before.push(hi as u8));
        before.lemma_filter_push(hi as u8, keep);
    } else {
        assert(byte_range(lo, hi) =~= Seq::<u8>::empty());
    }
}

/// The pools of the letters and of the digits are their whole stretches.
pub proof fn lemma_plain_pools()
    ensures
        CharTypes::LowercaseLetters.pool_codes() == byte_range(LOWER_A as int, LOWER_Z as int),
        CharTypes::UppercaseLetters.pool_codes() == byte_range(UPPER_A as int, UPPER_Z as int),
        CharTypes::Digits.pool_codes() == byte_range(DIGIT_0 as int, DIGIT_9 as int),
{
    lemma_filter_keeps_all(
        LOWER_A as int,
        LOWER_Z as int,
        CharTypes::LowercaseLetters.keeper(),
    );
    lemma_filter_keeps_all(
        UPPER_A as int,
        UPPER_Z as int,
        CharTypes::UppercaseLetters.keeper(),
    );
    lemma_filter_keeps_all(DIGIT_0 as int, DIGIT_9 as int, CharTypes::Digits.keeper());
}

/// The special pool is what lies between the digits and the letters:
/// four stretches of punctuation, in ascending order.
pub proof fn lemma_special_pool()
    ensures
        CharTypes::Special.pool_codes() == byte_range(SPACE as int, DIGIT_0 - 1) + byte_range(
            DIGIT_9 + 1,
            UPPER_A - 1,
        ) + byte_range(UPPER_Z + 1, LOWER_A - 1) + byte_range(LOWER_Z + 1, TILDE as int),
{
    let keep = CharTypes::Special.keeper();
    let before_digits = byte_range(SPACE as int, DIGIT_0 - 1);
    let digits = byte_range(DIGIT_0 as int, DIGIT_9 as int);
    let before_upper = byte_range(DIGIT_9 + 1, UPPER_A - 1);
    let upper = byte_range(UPPER_A as int, UPPER_Z as int);
    let before_lower = byte_range(UPPER_Z + 1, LOWER_A - 1);
    let lower = byte_range(LOWER_A as int, LOWER_Z as int);
    let after_lower = byte_range(LOWER_Z + 1, TILDE as int);
    assert(byte_range(SPACE as int, TILDE as int) =~= before_digits + digits + before_upper + upper
        + before_lower + lower + after_lower);
    lemma_filter_keeps_all(SPACE as int, DIGIT_0 - 1, keep);
    lemma_filter_drops_all(DIGIT_0 as int, DIGIT_9 as int, keep);
    lemma_filter_keeps_all(DIGIT_9 + 1, UPPER_A - 1, keep);
    lemma_filter_drops_all(UPPER_A as int, UPPER_Z as int, keep);
    lemma_filter_keeps_all(UPPER_Z + 1, LOWER_A - 1, keep);
    lemma_filter_drops_all(LOWER_A as int, LOWER_Z as int, keep);
    lemma_filter_keeps_all(LOWER_Z + 1, TILDE as int, keep);
    Seq::filter_distributes_over_add(
        before_digits + digits + before_upper + upper + before_lower + lower,
        after_lower,
        keep,
    );
    Seq::filter_distributes_over_add(
        before_digits + digits + before_upper + upper + before_lower,
        lower,
        keep,
    );
    Seq::filter_distributes_over_add(
        before_digits + digits + before_upper + upper,
        before_lower,
        keep,
    );
    Seq::filter_distributes_over_add(before_digits + digits + before_upper, upper, keep);
    Seq::filter_distributes_over_add(before_digits + digits, before_upper, keep);
    Seq::filter_distributes_over_add(before_digits, digits, keep);
    let nothing = Seq::<u8>::empty();
    assert(before_digits + nothing + before_upper + nothing + before_lower + nothing + after_lower
        =~= before_digits + before_upper + before_lower + after_lower);
}

/// The pools have 26, 26, 10 and 33 members.
pub proof fn lemma_pool_sizes()
    ensures
        CharTypes::LowercaseLetters.pool_chars().len() == 26,
        CharTypes::UppercaseLetters.pool_chars().len() == 26,
        CharTypes::Digits.pool_chars().len() == 10,
        CharTypes::Special.pool_chars().len() == 33,
{
    lemma_plain_pools();
    lemma_special_pool();
}

/// A character is in a class's pool exactly if its code point lies in the
/// class's stretch and the class admits it.
pub proof fn lemma_pool_membership(class: CharTypes, c: char)
    ensures
        class.pool_chars().contains(c) <==> (class.first_code() <= c as int <= class.last_code()
            && class.admits(c as u8)),
{
    lemma_plain_pools();
    lemma_special_pool();
    let codes = class.pool_codes();
    let pool = class.pool_chars();
    if pool.contains(c) {
        let i = choose|i: int| 0 <= i < pool.len() && pool[i] == c;
        assert(pool[i] == codes[i] as char);
    }
    if class.first_code() <= c as int <= class.last_code() && class.admits(c as u8) {
        let b = c as u8;
        let i: int = match class {
            CharTypes::Special => if b < DIGIT_0 {
                b - SPACE
            } else if b < UPPER_A {
                (DIGIT_0 - SPACE) + (b - DIGIT_9 - 1)
            } else if b < LOWER_A {
                (DIGIT_0 - SPACE) + (UPPER_A - DIGIT_9 - 1) + (b - UPPER_Z - 1)
            } else {
                (DIGIT_0 - SPACE) + (UPPER_A - DIGIT_9 - 1) + (LOWER_A - UPPER_Z - 1) + (b
                    - LOWER_Z - 1)
            },
            _ => b - class.first_code(),
        };
        assert(codes[i] == b);
        assert(pool[i] == c);
    }
}

/// No character stands in the pools of two classes.
pub proof fn lemma_pools_disjoint(a: CharTypes, b: CharTypes, c: char)
    requires
        a != b,
    ensures
        !(a.pool_chars().contains(c) && b.pool_chars().contains(c)),
{
    lemma_pool_membership(a, c);
    lemma_pool_membership(b, c);
}

/// A standard character set has pools of 26, 26, 10 and 33 members, none of
/// them empty, and no character in two of them.
pub proof fn lemma_standard_set(cs: Charset)
    requires
        cs.is_standard(),
    ensures
        cs.lowercase_alphabet@.len() == 26,
        cs.uppercase_alphabet@.len() == 26,
        cs.digits@.len() == 10,
        cs.special@.len() == 33,
        cs.pools_nonempty(),
        cs.pools_disjoint(),
{
    lemma_pool_sizes();
    assert(cs.pool(CharTypes::LowercaseLetters) == CharTypes::LowercaseLetters.pool_chars());
    assert(cs.pool(CharTypes::UppercaseLetters) == CharTypes::UppercaseLetters.pool_chars());
    assert(cs.pool(CharTypes::Special) == CharTypes::Special.pool_chars());
    assert forall|class: CharTypes| #[trigger] cs.pool(class).len() > 0 by {
        assert(cs.pool(class) == class.pool_chars());
        match class {
            CharTypes::LowercaseLetters => {},
            CharTypes::UppercaseLetters => {},
            CharTypes::Digits => {},
            CharTypes::Special => {},
        }
    }
    assert forall|a: CharTypes, b: CharTypes, c: char|
        a != b && #[trigger] cs.pool(a).contains(c) implies !#[trigger] cs.pool(b).contains(c) by {
        assert(cs.pool(a) == a.pool_chars());
        assert(cs.pool(b) == b.pool_chars());
        lemma_pools_disjoint(a, b, c);
    }
}

/// Turns code points into the characters they stand for.
pub fn chars_of(codes: &Vec<u8>) -> (chars: Vec<char>)
    ensures
        chars@ == as_chars(codes@),
{
    let mut chars: Vec<char> = Vec::new();
    let mut i: usize = 0;
    while i < codes.len()
        invariant
            i <= codes.len(),
            chars@ == as_chars(codes@.take(i as int)),
        decreases codes.len() - i,
    {
        chars.push(codes[i] as char);
        i = i + 1;
        assert(chars@ =~= as_chars(codes@.take(i as int)));
    }
    assert(codes@.take(i as int) =~= codes@);
    chars
}

} // verus!
