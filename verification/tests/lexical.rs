use chess_notation::{parse_game, parse_half_move};
use nom::character::complete::{digit1, space1};
use nom::error::ErrorKind;

fn is_run_of_blanks(text: &str) -> bool {
    space1::<&str, (&str, ErrorKind)>(text) == Ok(("", text))
}

fn is_run_of_digits(text: &str) -> bool {
    digit1::<&str, (&str, ErrorKind)>(text) == Ok(("", text))
}

const SEPARATORS: [&str; 14] = [
    "", " ", "\t", "  ", " \t ", "\t\t", "\n", "\r", " \n", "\r\n", "\u{a0}", "\u{2003}", "\u{b}",
    "_",
];

const NUMBERS: [&str; 12] =
    ["", "0", "1", "9", "10", "007", "255", "256", "+1", "1a", "\u{661}", "\u{ff11}"];

#[test]
fn blanks_between_tokens_are_runs_of_spaces_and_tabs() {
    for separator in SEPARATORS {
        let text = format!("1.{}e4{}e5{}1-0", separator, separator, separator);
        assert_eq!(
            parse_game(&text).map(|(rest, _)| rest) == Ok(""),
            is_run_of_blanks(separator),
            "separator {:?}",
            separator
        );
    }
}

#[test]
fn blanks_before_a_marker_are_runs_of_spaces_and_tabs() {
    for separator in SEPARATORS {
        for marker in ["e.p.", "(=)"] {
            let text = format!("exd6{}{}", separator, marker);
            assert_eq!(
                parse_half_move(&text).map(|(rest, _)| rest) == Ok(""),
                is_run_of_blanks(separator),
                "separator {:?}",
                separator
            );
        }
    }
}

#[test]
fn blanks_before_a_redundant_score_are_runs_of_spaces_and_tabs() {
    for separator in SEPARATORS {
        let text = format!("1. e4 e5#{}0-1", separator);
        assert_eq!(
            parse_game(&text).map(|(rest, _)| rest) == Ok(""),
            is_run_of_blanks(separator),
            "separator {:?}",
            separator
        );
    }
}

#[test]
fn move_numbers_are_runs_of_decimal_digits() {
    for number in NUMBERS {
        let text = format!("{}. e4 e5 1-0", number);
        assert_eq!(
            parse_game(&text).map(|(rest, _)| rest) == Ok(""),
            is_run_of_digits(number),
            "number {:?}",
            number
        );
        let text = format!("1. e4 e5 {}. d4 1-0", number);
        assert_eq!(
            parse_game(&text).map(|(rest, _)| rest) == Ok(""),
            is_run_of_digits(number),
            "number {:?}",
            number
        );
    }
}
