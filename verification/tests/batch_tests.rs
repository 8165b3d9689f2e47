use passgen::batch::{create_passwords, join_lines, numbered, push_decimal};
use passgen::charset::{CharTypes, Charset};
use passgen::password::{PasswordError, PasswordOptions};
use rand_chacha::rand_core::SeedableRng;
use rand_chacha::ChaCha20Rng;

fn decimal(n: u32) -> String {
    let mut text = String::new();
    push_decimal(&mut text, n);
    text
}

#[test]
fn numbers_are_written_in_base_ten() {
    assert_eq!(decimal(0), "0");
    assert_eq!(decimal(7), "7");
    assert_eq!(decimal(10), "10");
    assert_eq!(decimal(101), "101");
    assert_eq!(decimal(4294967295), "4294967295");
    for n in [0u32, 1, 9, 10, 11, 99, 100, 999, 1000, 65535, 1_000_000, u32::MAX - 1, u32::MAX] {
        assert_eq!(decimal(n), n.to_string());
    }
}

#[test]
fn a_number_is_written_after_what_is_there() {
    let mut text = "no. ".to_string();
    push_decimal(&mut text, 42);
    assert_eq!(text, "no. 42");
}

#[test]
fn a_numbered_line_reads_number_colon_space_password() {
    assert_eq!(numbered(3, "abc"), "3: abc");
    assert_eq!(numbered(1, ""), "1: ");
    assert_eq!(numbered(120, "x: y"), "120: x: y");
    assert_eq!(numbered(7, "pass"), 7.to_string() + ": " + "pass");
}

#[test]
fn as_many_passwords_as_asked_for() {
    let charset = Charset::new();
    let mut rng = ChaCha20Rng::seed_from_u64(21);
    for amount in [0u32, 1, 2, 13] {
        let options = PasswordOptions {
            char_types: vec![CharTypes::LowercaseLetters, CharTypes::Digits],
            length: 9,
            amount,
            has_prefix: false,
        };
        let lines = create_passwords(&options, &charset, &mut rng).unwrap();
        assert_eq!(lines.len(), amount as usize);
        for line in lines {
            assert_eq!(line.len(), 9);
            assert!(line.chars().all(|c| c.is_ascii_lowercase() || c.is_ascii_digit()));
        }
    }
}

#[test]
fn numbered_passwords_count_from_one() {
    let charset = Charset::new();
    let mut rng = ChaCha20Rng::seed_from_u64(22);
    let options = PasswordOptions {
        char_types: vec![CharTypes::UppercaseLetters],
        length: 5,
        amount: 12,
        has_prefix: true,
    };
    let lines = create_passwords(&options, &charset, &mut rng).unwrap();
    assert_eq!(lines.len(), 12);
    for (i, line) in lines.iter().enumerate() {
        let label = format!("{}: ", i + 1);
        assert!(line.starts_with(&label), "{:?}", line);
        let password = &line[label.len()..];
        assert_eq!(password.len(), 5);
        assert!(password.chars().all(|c| c.is_ascii_uppercase()));
    }
}

#[test]
fn a_prefix_does_not_change_the_passwords() {
    let charset = Charset::new();
    let mut plain_rng = ChaCha20Rng::seed_from_u64(23);
    let mut numbered_rng = ChaCha20Rng::seed_from_u64(23);
    let plain = PasswordOptions { char_types: vec![CharTypes::Special], length: 8, amount: 4, has_prefix: false };
    let with_numbers = PasswordOptions { char_types: vec![CharTypes::Special], length: 8, amount: 4, has_prefix: true };
    let a = create_passwords(&plain, &charset, &mut plain_rng).unwrap();
    let b = create_passwords(&with_numbers, &charset, &mut numbered_rng).unwrap();
    for i in 0..4 {
        assert_eq!(b[i], numbered(i as u32 + 1, &a[i]));
    }
}

#[test]
fn no_class_is_an_error_whatever_the_amount() {
    let charset = Charset::new();
    let mut rng = ChaCha20Rng::seed_from_u64(24);
    for amount in [0u32, 1, 5] {
        for has_prefix in [false, true] {
            let options = PasswordOptions { char_types: Vec::new(), length: 8, amount, has_prefix };
            assert_eq!(create_passwords(&options, &charset, &mut rng), Err(PasswordError::InvalidOptions));
        }
    }
}

#[test]
fn passwords_of_length_zero_are_empty_lines() {
    let charset = Charset::new();
    let mut rng = ChaCha20Rng::seed_from_u64(25);
    let options = PasswordOptions { char_types: vec![CharTypes::Digits], length: 0, amount: 3, has_prefix: true };
    assert_eq!(
        create_passwords(&options, &charset, &mut rng),
        Ok(vec!["1: ".to_string(), "2: ".to_string(), "3: ".to_string()])
    );
}

#[test]
fn lines_are_joined_by_line_feeds() {
    assert_eq!(join_lines(&Vec::new()), "");
    assert_eq!(join_lines(&vec!["a".to_string()]), "a");
    assert_eq!(join_lines(&vec!["a".to_string(), "b".to_string()]), "a\nb");
    assert_eq!(join_lines(&vec!["".to_string(), "".to_string(), "".to_string()]), "\n\n");
    let lines = vec!["1: x".to_string(), "2: y".to_string(), "3: z".to_string()];
    assert_eq!(join_lines(&lines), lines.join("\n"));
}

#[test]
fn a_written_number_reads_back() {
    for n in [0u32, 5, 10, 42, 1000, 123456789, u32::MAX] {
        let mut text = String::new();
        push_decimal(&mut text, n);
        assert_eq!(passgen::util::convert_to_number(text), Some(n));
    }
}
