use judgekit::errors::InputError;
use judgekit::reader::{load_input, parse_pair};
use judgekit::text::{parse_i64, parse_usize, split_lines, split_tokens};

#[test]
fn load_input_ok() {
    assert_eq!(load_input("3\n1 2 3"), Ok(vec![1, 2, 3]));
}

#[test]
fn load_input_count_mismatch() {
    assert_eq!(
        load_input("3\n1 2"),
        Err(InputError::CountMismatch { expected: 3, actual: 2 })
    );
}

#[test]
fn load_input_too_many_values() {
    assert_eq!(
        load_input("1\n1 2"),
        Err(InputError::CountMismatch { expected: 1, actual: 2 })
    );
}

#[test]
fn load_input_missing_values_line() {
    assert_eq!(load_input("3"), Err(InputError::UnexpectedEndOfInput));
    assert_eq!(load_input("3\n"), Err(InputError::UnexpectedEndOfInput));
}

#[test]
fn load_input_empty_text() {
    assert_eq!(load_input(""), Err(InputError::UnexpectedEndOfInput));
}

#[test]
fn load_input_empty_values_line_is_empty_sequence() {
    assert_eq!(load_input("0\n\n"), Ok(vec![]));
}

#[test]
fn load_input_bad_count_token() {
    assert_eq!(load_input("x\n1"), Err(InputError::ParseError));
    assert_eq!(load_input("-1\n1"), Err(InputError::ParseError));
}

#[test]
fn load_input_count_line_needs_one_token() {
    assert_eq!(load_input("1 2\n1 2"), Err(InputError::ParseError));
    assert_eq!(load_input("\n1 2"), Err(InputError::ParseError));
}

#[test]
fn load_input_bad_value_token() {
    assert_eq!(load_input("2\n1 x"), Err(InputError::ParseError));
}

#[test]
fn load_input_handles_signs_and_extra_whitespace() {
    assert_eq!(load_input("2\n  -5\t+7 "), Ok(vec![-5, 7]));
}

#[test]
fn load_input_ignores_lines_after_values() {
    assert_eq!(load_input("1\n4\ntrailing"), Ok(vec![4]));
}

#[test]
fn parse_i64_accepts_the_decimal_grammar() {
    assert_eq!(parse_i64("0"), Some(0));
    assert_eq!(parse_i64("-0"), Some(0));
    assert_eq!(parse_i64("+42"), Some(42));
    assert_eq!(parse_i64("007"), Some(7));
    assert_eq!(parse_i64("9223372036854775807"), Some(i64::MAX));
    assert_eq!(parse_i64("-9223372036854775808"), Some(i64::MIN));
}

#[test]
fn parse_i64_rejects_everything_else() {
    assert_eq!(parse_i64(""), None);
    assert_eq!(parse_i64("-"), None);
    assert_eq!(parse_i64("+"), None);
    assert_eq!(parse_i64("+-3"), None);
    assert_eq!(parse_i64("4 2"), None);
    assert_eq!(parse_i64("12a"), None);
    assert_eq!(parse_i64("9223372036854775808"), None);
    assert_eq!(parse_i64("-9223372036854775809"), None);
    assert_eq!(parse_i64("99999999999999999999999999"), None);
}

#[test]
fn parse_usize_accepts_unsigned_only() {
    assert_eq!(parse_usize("3"), Some(3));
    assert_eq!(parse_usize("+3"), Some(3));
    assert_eq!(parse_usize("0"), Some(0));
    assert_eq!(parse_usize("-3"), None);
    assert_eq!(parse_usize(""), None);
}

#[test]
fn split_tokens_takes_maximal_runs() {
    let tokens = split_tokens("  alpha\tbb  c ");
    assert_eq!(tokens, vec!["alpha".to_string(), "bb".to_string(), "c".to_string()]);
    assert_eq!(split_tokens(""), Vec::<String>::new());
    assert_eq!(split_tokens(" \t\r\n"), Vec::<String>::new());
}

#[test]
fn split_lines_consumes_line_feeds() {
    assert_eq!(split_lines("a\nb\n"), vec!["a".to_string(), "b".to_string()]);
    assert_eq!(split_lines("a\nb"), vec!["a".to_string(), "b".to_string()]);
    assert_eq!(split_lines("\n"), vec!["".to_string()]);
    assert_eq!(split_lines(""), Vec::<String>::new());
}

#[test]
fn parse_pair_needs_exactly_two_integers() {
    assert_eq!(parse_pair("2 3"), Some((2, 3)));
    assert_eq!(parse_pair("\n-2\t3\n"), Some((-2, 3)));
    assert_eq!(parse_pair("2"), None);
    assert_eq!(parse_pair("2 3 4"), None);
    assert_eq!(parse_pair("a b"), None);
}
