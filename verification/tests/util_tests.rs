use passgen::util::{convert_to_number, get_output_type, get_yes_or_no, Output};

fn number(text: &str) -> Option<u32> {
    convert_to_number(text.to_string())
}

#[test]
fn default_output_is_unset() {
    assert_eq!(Output::default(), Output::Unset);
}

#[test]
fn plain_numbers_are_read() {
    assert_eq!(number("0"), Some(0));
    assert_eq!(number("7"), Some(7));
    assert_eq!(number("12"), Some(12));
    assert_eq!(number("16"), Some(16));
    assert_eq!(number("1000000"), Some(1_000_000));
}

#[test]
fn a_plus_sign_in_front_is_accepted() {
    assert_eq!(number("+5"), Some(5));
    assert_eq!(number("+0"), Some(0));
    assert_eq!(number("++5"), None);
    assert_eq!(number("5+"), None);
    assert_eq!(number("+"), None);
}

#[test]
fn leading_zeros_do_not_count() {
    assert_eq!(number("0007"), Some(7));
    assert_eq!(number("000000000000000000000000000042"), Some(42));
    assert_eq!(number("+00"), Some(0));
}

#[test]
fn the_largest_number_is_read_and_the_next_is_not() {
    assert_eq!(number("4294967295"), Some(u32::MAX));
    assert_eq!(number("4294967296"), None);
    assert_eq!(number("4294967300"), None);
    assert_eq!(number("42949672950"), None);
    assert_eq!(number("99999999999999999999999999"), None);
    assert_eq!(number("0004294967295"), Some(u32::MAX));
}

#[test]
fn what_is_no_number_is_refused() {
    assert_eq!(number(""), None);
    assert_eq!(number(" "), None);
    assert_eq!(number(" 1"), None);
    assert_eq!(number("1 "), None);
    assert_eq!(number("1\n"), None);
    assert_eq!(number("-1"), None);
    assert_eq!(number("-0"), None);
    assert_eq!(number("1_000"), None);
    assert_eq!(number("1.0"), None);
    assert_eq!(number("0x10"), None);
    assert_eq!(number("ten"), None);
    assert_eq!(number("12a"), None);
    assert_eq!(number("4294967296x"), None);
    assert_eq!(number("\u{661}\u{662}"), None);
    assert_eq!(number("\u{ff11}"), None);
}

#[test]
fn numbers_agree_with_the_standard_parser() {
    let inputs = [
        "", "0", "1", "9", "10", "+", "-", "+1", "-1", "+-1", "00", "007", "4294967295",
        "4294967296", "4294967294", "+4294967295", "+4294967296", "429496729", "42949672951",
        " 5", "5 ", "5,", "/", ":", "0/", "0:", "1e3", "١", "２", "+ 1", "18446744073709551616",
    ];
    for input in inputs {
        assert_eq!(number(input), input.parse::<u32>().ok(), "on {:?}", input);
    }
    for n in [0u32, 1, 9, 10, 99, 100, 12345, 65535, 65536, 999_999_999, 1_000_000_000, u32::MAX - 1, u32::MAX] {
        assert_eq!(number(&n.to_string()), Some(n));
    }
}

#[test]
fn from_the_command_line_output_goes_back_to_it() {
    assert_eq!(get_output_type(true, ""), Some(Output::Commandline));
    assert_eq!(get_output_type(true, "file"), Some(Output::Commandline));
    assert_eq!(get_output_type(true, "nonsense"), Some(Output::Commandline));
}

#[test]
fn an_answer_chooses_the_output() {
    assert_eq!(get_output_type(false, "stdout"), Some(Output::Stdout));
    assert_eq!(get_output_type(false, "file"), Some(Output::File));
    assert_eq!(get_output_type(false, ""), Some(Output::Stdout));
}

#[test]
fn any_other_answer_chooses_no_output() {
    assert_eq!(get_output_type(false, "File"), None);
    assert_eq!(get_output_type(false, " file"), None);
    assert_eq!(get_output_type(false, "stdout "), None);
    assert_eq!(get_output_type(false, "commandline"), None);
    assert_eq!(get_output_type(false, "none"), None);
}

#[test]
fn yes_is_the_default_answer() {
    assert_eq!(get_yes_or_no("y"), Some(true));
    assert_eq!(get_yes_or_no(""), Some(true));
    assert_eq!(get_yes_or_no("n"), Some(false));
    assert_eq!(get_yes_or_no("Y"), None);
    assert_eq!(get_yes_or_no("yes"), None);
    assert_eq!(get_yes_or_no("no"), None);
    assert_eq!(get_yes_or_no(" "), None);
}
