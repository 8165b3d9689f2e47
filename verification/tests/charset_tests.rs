use passgen::charset::{chars_of, CharTypes, Charset};

fn all_classes() -> Vec<CharTypes> {
    vec![
        CharTypes::LowercaseLetters,
        CharTypes::UppercaseLetters,
        CharTypes::Digits,
        CharTypes::Special,
    ]
}

fn pool(charset: &Charset, class: CharTypes) -> Vec<char> {
    match class {
        CharTypes::LowercaseLetters => charset.lowercase_alphabet.clone(),
        CharTypes::UppercaseLetters => charset.uppercase_alphabet.clone(),
        CharTypes::Digits => charset.digits.iter().map(|d| *d as char).collect(),
        CharTypes::Special => charset.special.clone(),
    }
}

#[test]
fn pools_have_their_sizes() {
    let charset = Charset::new();
    assert_eq!(charset.lowercase_alphabet.len(), 26);
    assert_eq!(charset.uppercase_alphabet.len(), 26);
    assert_eq!(charset.digits.len(), 10);
    assert_eq!(charset.special.len(), 33);
}

#[test]
fn pools_are_pairwise_disjoint() {
    let charset = Charset::new();
    let classes = all_classes();
    for a in 0..classes.len() {
        for b in 0..classes.len() {
            if a != b {
                let first = pool(&charset, classes[a]);
                let second = pool(&charset, classes[b]);
                for c in first.iter() {
                    assert!(!second.contains(c), "{:?} stands in two pools", c);
                }
            }
        }
    }
}

#[test]
fn letters_are_the_alphabet_in_order() {
    let charset = Charset::new();
    let lower: Vec<char> = "abcdefghijklmnopqrstuvwxyz".chars().collect();
    let upper: Vec<char> = "ABCDEFGHIJKLMNOPQRSTUVWXYZ".chars().collect();
    assert_eq!(charset.lowercase_alphabet, lower);
    assert_eq!(charset.uppercase_alphabet, upper);
}

#[test]
fn digits_are_kept_as_code_points() {
    let charset = Charset::new();
    assert_eq!(charset.digits, vec![48u8, 49, 50, 51, 52, 53, 54, 55, 56, 57]);
    assert_eq!(charset.digits, b"0123456789".to_vec());
}

#[test]
fn special_is_the_printable_rest() {
    let charset = Charset::new();
    let expected: Vec<char> = " !\"#$%&'()*+,-./:;<=>?@[\\]^_`{|}~".chars().collect();
    assert_eq!(charset.special, expected);
    let by_predicate: Vec<char> = (32..=126u8)
        .map(|c| c as char)
        .filter(|c| !c.is_ascii_alphanumeric())
        .filter(|c| !c.is_ascii_control())
        .collect();
    assert_eq!(charset.special, by_predicate);
}

#[test]
fn pools_hold_no_character_twice() {
    let charset = Charset::new();
    for class in all_classes() {
        let chars = pool(&charset, class);
        for i in 0..chars.len() {
            for j in 0..chars.len() {
                if i != j {
                    assert_ne!(chars[i], chars[j]);
                }
            }
        }
    }
}

#[test]
fn pools_are_ascending() {
    let charset = Charset::new();
    for class in all_classes() {
        let chars = pool(&charset, class);
        for i in 1..chars.len() {
            assert!(chars[i - 1] < chars[i]);
        }
    }
}

#[test]
fn stretches_are_those_of_ascii() {
    assert_eq!(CharTypes::LowercaseLetters.stretch(), (b'a', b'z'));
    assert_eq!(CharTypes::UppercaseLetters.stretch(), (b'A', b'Z'));
    assert_eq!(CharTypes::Digits.stretch(), (b'0', b'9'));
    assert_eq!(CharTypes::Special.stretch(), (0x20, 0x7e));
}

#[test]
fn keeps_agrees_with_the_classification_of_ascii() {
    for b in 0..=255u8 {
        let c = b as char;
        assert_eq!(CharTypes::LowercaseLetters.keeps(b), c.is_ascii_alphabetic());
        assert_eq!(CharTypes::UppercaseLetters.keeps(b), c.is_ascii_alphabetic());
        assert_eq!(CharTypes::Digits.keeps(b), b.is_ascii_digit());
        if b < 128 {
            assert_eq!(
                CharTypes::Special.keeps(b),
                !c.is_ascii_alphanumeric() && !c.is_ascii_control()
            );
        }
    }
}

#[test]
fn letters_of_the_alphabet_are_alphabetic() {
    let charset = Charset::new();
    for c in charset.lowercase_alphabet.iter().chain(charset.uppercase_alphabet.iter()) {
        assert!(c.is_alphabetic());
    }
    for c in charset.lowercase_alphabet.iter() {
        assert!(c.is_ascii_lowercase());
    }
    for c in charset.uppercase_alphabet.iter() {
        assert!(c.is_ascii_uppercase());
    }
}

#[test]
fn collect_codes_gives_the_pools() {
    let charset = Charset::new();
    assert_eq!(CharTypes::Digits.collect_codes(), charset.digits);
    assert_eq!(chars_of(&CharTypes::Special.collect_codes()), charset.special);
    assert_eq!(chars_of(&CharTypes::LowercaseLetters.collect_codes()), charset.lowercase_alphabet);
    assert_eq!(chars_of(&CharTypes::UppercaseLetters.collect_codes()), charset.uppercase_alphabet);
}

#[test]
fn chars_of_maps_code_points() {
    assert_eq!(chars_of(&vec![72u8, 105, 33]), vec!['H', 'i', '!']);
    assert_eq!(chars_of(&Vec::new()), Vec::<char>::new());
    assert_eq!(chars_of(&vec![0xe9u8]), vec!['\u{e9}']);
}

#[test]
fn building_twice_gives_the_same_set() {
    let a = Charset::new();
    let b = Charset::new();
    assert_eq!(a.lowercase_alphabet, b.lowercase_alphabet);
    assert_eq!(a.uppercase_alphabet, b.uppercase_alphabet);
    assert_eq!(a.digits, b.digits);
    assert_eq!(a.special, b.special);
}
