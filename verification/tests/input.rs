use wpfxm::error::InputError;
use wpfxm::input::{
    parse_number, parse_true_false_arg, read_range, read_yn, select_from_list, Answer,
};
use wpfxm::selection::{select_next, select_previous};

#[test]
fn yes_and_no_in_either_case() {
    assert_eq!(read_yn("y", Answer::No), Answer::Yes);
    assert_eq!(read_yn("Y", Answer::No), Answer::Yes);
    assert_eq!(read_yn("n", Answer::Yes), Answer::No);
    assert_eq!(read_yn("N", Answer::Yes), Answer::No);
}

#[test]
fn anything_else_is_the_default() {
    assert_eq!(read_yn("", Answer::Yes), Answer::Yes);
    assert_eq!(read_yn("", Answer::No), Answer::No);
    assert_eq!(read_yn("yes", Answer::No), Answer::No);
    assert_eq!(read_yn("no", Answer::Yes), Answer::Yes);
    assert_eq!(read_yn(" y", Answer::No), Answer::No);
    assert_eq!(read_yn("\u{ff59}", Answer::No), Answer::No);
}

#[test]
fn answer_as_truth_value() {
    assert!(Answer::Yes.as_bool());
    assert!(!Answer::No.as_bool());
}

#[test]
fn numbers_are_runs_of_digits() {
    assert_eq!(parse_number("0"), Some(0));
    assert_eq!(parse_number("7"), Some(7));
    assert_eq!(parse_number("42"), Some(42));
    assert_eq!(parse_number("007"), Some(7));
    assert_eq!(parse_number("+5"), Some(5));
    assert_eq!(parse_number("1234567890"), Some(1234567890));
}

#[test]
fn other_lines_are_no_numbers() {
    assert_eq!(parse_number(""), None);
    assert_eq!(parse_number("+"), None);
    assert_eq!(parse_number("++1"), None);
    assert_eq!(parse_number("-1"), None);
    assert_eq!(parse_number("12a"), None);
    assert_eq!(parse_number(" 1"), None);
    assert_eq!(parse_number("1 "), None);
    assert_eq!(parse_number("1_000"), None);
    assert_eq!(parse_number("\u{0663}"), None);
}

#[test]
fn numbers_agree_with_the_standard_parser() {
    for line in ["0", "9", "10", "+0", "+123", "00", "", "+", "-", "a", "1a", "18446744073709551615", "18446744073709551616", "99999999999999999999999"] {
        assert_eq!(parse_number(line), line.parse::<usize>().ok(), "line {:?}", line);
    }
}

#[test]
fn largest_number_fits_and_the_next_does_not() {
    assert_eq!(parse_number(&usize::MAX.to_string()), Some(usize::MAX));
    let mut digits = usize::MAX.to_string();
    digits.push('0');
    assert_eq!(parse_number(&digits), None);
}

#[test]
fn number_in_range_is_accepted() {
    assert_eq!(read_range("3", 1, 5), Ok(Some(3)));
    assert_eq!(read_range("1", 1, 5), Ok(Some(1)));
    assert_eq!(read_range("5", 1, 5), Ok(Some(5)));
}

#[test]
fn number_out_of_range_asks_again() {
    assert_eq!(read_range("0", 1, 5), Ok(None));
    assert_eq!(read_range("6", 1, 5), Ok(None));
    assert_eq!(read_range("3", 5, 1), Ok(None));
}

#[test]
fn line_that_is_no_number_fails() {
    assert_eq!(read_range("three", 1, 5), Err(InputError::ParseFailed("three".to_string())));
    assert_eq!(read_range("", 1, 5), Err(InputError::ParseFailed("".to_string())));
}

#[test]
fn choice_is_counted_from_one() {
    assert_eq!(select_from_list(3, "1"), Ok(Some(0)));
    assert_eq!(select_from_list(3, "3"), Ok(Some(2)));
    assert_eq!(select_from_list(3, "4"), Ok(None));
    assert_eq!(select_from_list(3, "0"), Ok(None));
    assert_eq!(select_from_list(3, "x"), Err(InputError::ParseFailed("x".to_string())));
}

#[test]
fn nothing_to_choose_from() {
    assert_eq!(select_from_list(0, "1"), Err(InputError::NoItemsProvided));
    assert_eq!(select_from_list(0, "x"), Err(InputError::NoItemsProvided));
}

#[test]
fn switch_words() {
    assert!(parse_true_false_arg("true"));
    assert!(parse_true_false_arg("TRUE"));
    assert!(parse_true_false_arg("True"));
    assert!(parse_true_false_arg("tRuE"));
    assert!(parse_true_false_arg("1"));
    assert!(!parse_true_false_arg("false"));
    assert!(!parse_true_false_arg("0"));
    assert!(!parse_true_false_arg(""));
    assert!(!parse_true_false_arg("yes"));
    assert!(!parse_true_false_arg("true "));
    assert!(!parse_true_false_arg("11"));
    assert!(!parse_true_false_arg("trve"));
}

#[test]
fn selection_wraps_around() {
    assert_eq!(select_previous(0, 3), 2);
    assert_eq!(select_previous(2, 3), 1);
    assert_eq!(select_previous(1, 3), 0);
    assert_eq!(select_next(0, 3), 1);
    assert_eq!(select_next(2, 3), 0);
    assert_eq!(select_next(0, 1), 0);
    assert_eq!(select_previous(0, 1), 0);
}

#[test]
fn selection_in_an_empty_list_stays_at_the_start() {
    assert_eq!(select_previous(0, 0), 0);
    assert_eq!(select_next(0, 0), 0);
    assert_eq!(select_next(5, 0), 0);
}

#[test]
fn selection_outside_the_list_comes_back_into_it() {
    assert_eq!(select_previous(9, 3), 2);
    assert_eq!(select_next(9, 3), 0);
    assert_eq!(select_next(usize::MAX, 3), 0);
}
