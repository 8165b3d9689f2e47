//! The password generator.
//!
//! Every character of a password is made in two draws: first a class, among
//! the classes that the options select, then a character of that class's
//! pool. Each selected class is thus as likely as any other, however many
//! characters its pool holds.

use crate::charset::{as_chars, CharTypes, Charset};
use rand::seq::SliceRandom;
use rand_chacha::ChaCha20Rng;
use vstd::prelude::*;

verus! {

/// The random source of the generator, `rand_chacha::ChaCha20Rng`: the
/// ChaCha stream cipher with 20 rounds, which is fit for cryptographic use.
///
/// The library looks at nothing inside it and claims nothing of its state;
/// it only hands it on to the draws.
#[verifier::external_type_specification]
#[verifier::external_body]
pub struct ExChaCha20Rng(rand_chacha::ChaCha20Rng);

/// `String::push` of the standard library. Not proved: that it appends the
/// character to the end of the string and leaves the rest as it was.
pub assume_specification[ String::push ](s: &mut String, ch: char)
    ensures
        final(s)@ == old(s)@.push(ch),
;

/// Draws one of the items at random, by `rand::seq::SliceRandom::choose`
/// on the slice of the items.
///
/// Not proved: that `choose` returns nothing exactly if there is no item,
/// and otherwise a reference to one of the items. Which one it is depends on
/// the random source, and nothing is claimed of that.
#[verifier::external_body]
fn pick<'a, T>(items: &'a Vec<T>, rng: &mut ChaCha20Rng) -> (picked: Option<&'a T>)
    ensures
        picked is None <==> items@.len() == 0,
        picked matches Some(item) ==> items@.contains(*item),
{
    items.as_slice().choose(rng)
}

/// Why no password was generated.
#[derive(Debug, Clone, Copy, PartialEq, Eq, Structural)]
pub enum PasswordError {
    /// The options select no character class.
    InvalidOptions,
}

/// The options for password generation.
///
/// `char_types` stands for a set of classes: their order does not count, and
/// naming a class twice is the same as naming it once.
pub struct PasswordOptions {
    pub char_types: Vec<CharTypes>,
    pub length: u32,
    pub amount: u32,
    pub has_prefix: bool,
}

impl PasswordOptions {
    /// The set of classes that the options select.
    pub open spec fn classes(&self) -> Set<CharTypes> {
        self.char_types@.to_set()
    }

    /// Options that select nothing and ask for nothing.
    pub fn new() -> (options: Self)
        ensures
            options.char_types@ == Seq::<CharTypes>::empty(),
            options.classes() == Set::<CharTypes>::empty(),
            options.length == 0,
            options.amount == 0,
            !options.has_prefix,
    {
        let options = Self { char_types: Vec::new(), length: 0, amount: 0, has_prefix: false };
        assert(options.classes() =~= Set::<CharTypes>::empty());
        options
    }
}

/// The classes of the set, each once: lowercase letters first, then
/// uppercase letters, digits and special characters.
pub open spec fn in_order(classes: Set<CharTypes>) -> Seq<CharTypes> {
    (if classes.contains(CharTypes::LowercaseLetters) {
        seq![CharTypes::LowercaseLetters]
    } else {
        Seq::empty()
    }) + (if classes.contains(CharTypes::UppercaseLetters) {
        seq![CharTypes::UppercaseLetters]
    } else {
        Seq::empty()
    }) + (if classes.contains(CharTypes::Digits) {
        seq![CharTypes::Digits]
    } else {
        Seq::empty()
    }) + (if classes.contains(CharTypes::Special) {
        seq![CharTypes::Special]
    } else {
        Seq::empty()
    })
}

/// Whether the character stands in the pool of one of the classes.
pub open spec fn in_pool_of(c: char, classes: Set<CharTypes>, charset: &Charset) -> bool {
    exists|class: CharTypes| classes.contains(class) && #[trigger] charset.pool(class).contains(c)
}

/// Whether every character of the password stands in the pool of one of the
/// classes.
pub open spec fn drawn_from(password: Seq<char>, classes: Set<CharTypes>, charset: &Charset) -> bool {
    forall|i: int| 0 <= i < password.len() ==> in_pool_of(#[trigger] password[i], classes, charset)
}

/// Whether no character of the password stands in the pool of a class
/// outside the given ones.
pub open spec fn avoids_others(
    password: Seq<char>,
    classes: Set<CharTypes>,
    charset: &Charset,
) -> bool {
    forall|i: int, class: CharTypes|
        0 <= i < password.len() && !classes.contains(class) ==> !#[trigger] charset.pool(
            class,
        ).contains(#[trigger] password[i])
}

/// The listing of a set holds the classes of the set, and none twice.
pub proof fn lemma_in_order(classes: Set<CharTypes>)
    ensures
        forall|class: CharTypes| #[trigger]
            in_order(classes).contains(class) <==> classes.contains(class),
        in_order(classes).no_duplicates(),
        in_order(classes).len() == 0 <==> classes == Set::<CharTypes>::empty(),
{
    let l: Seq<CharTypes> = if classes.contains(CharTypes::LowercaseLetters) {
        seq![CharTypes::LowercaseLetters]
    } else {
        Seq::empty()
    };
    let u: Seq<CharTypes> = if classes.contains(CharTypes::UppercaseLetters) {
        seq![CharTypes::UppercaseLetters]
    } else {
        Seq::empty()
    };
    let d: Seq<CharTypes> = if classes.contains(CharTypes::Digits) {
        seq![CharTypes::Digits]
    } else {
        Seq::empty()
    };
    let all = in_order(classes);
    assert forall|class: CharTypes| #[trigger] all.contains(class) <==> classes.contains(class) by {
        if classes.contains(class) {
            let at: int = match class {
                CharTypes::LowercaseLetters => 0,
                CharTypes::UppercaseLetters => l.len() as int,
                CharTypes::Digits => (l.len() + u.len()) as int,
                CharTypes::Special => (l.len() + u.len() + d.len()) as int,
            };
            assert(all[at] == class);
        }
        if all.contains(class) {
            let k = choose|k: int| 0 <= k < all.len() && all[k] == class;
            assert(all[k] == class);
        }
    }
    if all.len() == 0 {
        assert forall|class: CharTypes| !classes.contains(class) by {
            assert(!all.contains(class));
        }
        assert(classes =~= Set::<CharTypes>::empty());
    }
}

/// Where the pools of a character set do not overlap, a password drawn from
/// the pools of some classes holds no character of any other class's pool.
pub proof fn lemma_drawn_avoids_others(
    password: Seq<char>,
    classes: Set<CharTypes>,
    charset: &Charset,
)
    requires
        charset.pools_disjoint(),
        drawn_from(password, classes, charset),
    ensures
        avoids_others(password, classes, charset),
{
    assert forall|i: int, class: CharTypes|
        0 <= i < password.len() && !classes.contains(class) implies !#[trigger] charset.pool(
        class,
    ).contains(#[trigger] password[i]) by {
        assert(in_pool_of(password[i], classes, charset));
        let own = choose|own: CharTypes|
            classes.contains(own) && #[trigger] charset.pool(own).contains(password[i]);
        assert(own != class);
    }
}

/// Lays the selected classes out as a sequence to draw from: each class
/// once, however often the options name it.
pub fn materialize(types: &Vec<CharTypes>) -> (list: Vec<CharTypes>)
    ensures
        list@ == in_order(types@.to_set()),
{
    let mut lower = false;
    let mut upper = false;
    let mut digits = false;
    let mut special = false;
    let mut i: usize = 0;
    while i < types.len()
        invariant
            i <= types.len(),
            lower == types@.take(i as int).contains(CharTypes::LowercaseLetters),
            upper == types@.take(i as int).contains(CharTypes::UppercaseLetters),
            digits == types@.take(i as int).contains(CharTypes::Digits),
            special == types@.take(i as int).contains(CharTypes::Special),
        decreases types.len() - i,
    {
        proof {
            let before = types@.take(i as int);
            let after = types@.take(i + 1);
            assert(after =~= before.push(types@[i as int]));
            assert forall|class: CharTypes|
                after.contains(class) <==> (before.contains(class) || class == types@[i as int]) by {
                if before.contains(class) {
                    let k = choose|k: int| 0 <= k < before.len() && before[k] == class;
                    assert(after[k] == class);
                }
                if class == types@[i as int] {
                    assert(after[i as int] == class);
                }
            }
        }
        match types[i] {
            CharTypes::LowercaseLetters => {
                lower = true;
            },
            CharTypes::UppercaseLetters => {
                upper = true;
            },
            CharTypes::Digits => {
                digits = true;
            },
            CharTypes::Special => {
                special = true;
            },
        }
        i = i + 1;
    }
    assert(types@.take(i as int) =~= types@);
    let mut list: Vec<CharTypes> = Vec::new();
    if lower {
        list.push(CharTypes::LowercaseLetters);
    }
    if upper {
        list.push(CharTypes::UppercaseLetters);
    }
    if digits {
        list.push(CharTypes::Digits);
    }
    if special {
        list.push(CharTypes::Special);
    }
    list
}

/// The character whose code point is the given digit code.
pub fn digit_char(code: u8) -> (c: char)
    ensures
        c == code as char,
{
    code as char
}

/// Draws one of the listed classes.
pub fn draw_class(classes: &Vec<CharTypes>, rng: &mut ChaCha20Rng) -> (class: CharTypes)
    requires
        classes@.len() > 0,
    ensures
        classes@.contains(class),
{
    *pick(classes, rng).unwrap()
}

/// Draws one character from the pool of a class.
pub fn draw_char(charset: &Charset, class: CharTypes, rng: &mut ChaCha20Rng) -> (c: char)
    requires
        charset.pool(class).len() > 0,
    ensures
        charset.pool(class).contains(c),
{
    match class {
        CharTypes::LowercaseLetters => *pick(&charset.lowercase_alphabet, rng).unwrap(),
        CharTypes::UppercaseLetters => *pick(&charset.uppercase_alphabet, rng).unwrap(),
        CharTypes::Digits => {
            let code = *pick(&charset.digits, rng).unwrap();
            let ghost at = choose|k: int| 0 <= k < charset.digits@.len() && charset.digits@[k] == code;
            assert(as_chars(charset.digits@)[at] == code as char);
            digit_char(code)
        },
        CharTypes::Special => *pick(&charset.special, rng).unwrap(),
    }
}

/// Generates one password.
///
/// Fails exactly if the options select no class. Otherwise the password has
/// `options.length` characters, each of them out of the pool of a selected
/// class; where the pools do not overlap, none of them is out of the pool of
/// a class that was not selected.
pub fn create_password(options: &PasswordOptions, charset: &Charset, rng: &mut ChaCha20Rng) -> (made:
    Result<String, PasswordError>)
    requires
        forall|class: CharTypes|
            options.classes().contains(class) ==> #[trigger] charset.pool(class).len() > 0,
    ensures
        made is Err <==> options.classes() == Set::<CharTypes>::empty(),
        made matches Err(error) ==> error == PasswordError::InvalidOptions,
        made matches Ok(password) ==> {
            &&& password@.len() == options.length
            &&& drawn_from(password@, options.classes(), charset)
            &&& charset.pools_disjoint() ==> avoids_others(password@, options.classes(), charset)
            &&& options.length == 0 ==> password@ == Seq::<char>::empty()
        },
{
    let classes = materialize(&options.char_types);
    proof {
        lemma_in_order(options.classes());
    }
    if classes.len() == 0 {
        return Err(PasswordError::InvalidOptions);
    }
    let mut password = String::new();
    let mut made: u32 = 0;
    while made < options.length
        invariant
            made <= options.length,
            classes@ == in_order(options.classes()),
            classes@.len() > 0,
            forall|class: CharTypes| #[trigger]
                classes@.contains(class) <==> options.classes().contains(class),
            forall|class: CharTypes|
                options.classes().contains(class) ==> #[trigger] charset.pool(class).len() > 0,
            password@.len() == made,
            drawn_from(password@, options.classes(), charset),
        decreases options.length - made,
    {
        let class = draw_class(&classes, rng);
        let c = draw_char(charset, class, rng);
        let ghost before = password@;
        password.push(c);
        proof {
            assert forall|i: int| 0 <= i < password@.len() implies in_pool_of(
                #[trigger] password@[i],
                options.classes(),
                charset,
            ) by {
                if i < before.len() {
                    assert(password@[i] == before[i]);
                } else {
                    assert(options.classes().contains(class));
                    assert(charset.pool(class).contains(c));
                }
            }
        }
        made = made + 1;
    }
    proof {
        if charset.pools_disjoint() {
            lemma_drawn_avoids_others(password@, options.classes(), charset);
        }
        if options.length == 0 {
            assert(password@ =~= Seq::<char>::empty());
        }
    }
    Ok(password)
}

} // verus!
