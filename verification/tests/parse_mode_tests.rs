use fitsrotate_rs::errors::RotateError;
use fitsrotate_rs::planner::parse_mode;

#[test]
fn parses_a_full_reversal() {
    assert_eq!(parse_mode("321", 3).unwrap(), vec![3, 2, 1]);
}

#[test]
fn parses_the_identity_listing() {
    assert_eq!(parse_mode("1234", 4).unwrap(), vec![1, 2, 3, 4]);
}

#[test]
fn parses_a_mixed_order() {
    assert_eq!(parse_mode("2314", 4).unwrap(), vec![2, 3, 1, 4]);
}

#[test]
fn rejects_too_short_input() {
    assert_eq!(parse_mode("21", 3), Err(RotateError::ModeLengthMismatch(3, 2)));
}

#[test]
fn rejects_too_long_input() {
    assert_eq!(parse_mode("1234", 3), Err(RotateError::ModeLengthMismatch(3, 4)));
}

#[test]
fn rejects_non_numeric_token() {
    assert_eq!(parse_mode("3x1", 3), Err(RotateError::ModeParseError('x')));
}

#[test]
fn reports_the_first_bad_token() {
    assert_eq!(parse_mode("a2b", 3), Err(RotateError::ModeParseError('a')));
}

#[test]
fn rejects_repeated_axis_number() {
    assert_eq!(parse_mode("331", 3), Err(RotateError::InvalidPermutation));
}

#[test]
fn rejects_axis_number_zero() {
    assert_eq!(parse_mode("320", 3), Err(RotateError::InvalidPermutation));
}

#[test]
fn rejects_axis_number_beyond_naxis() {
    assert_eq!(parse_mode("421", 3), Err(RotateError::InvalidPermutation));
}

#[test]
fn length_check_comes_before_parsing() {
    // A bad token in a wrong-length string is reported as a length mismatch.
    assert_eq!(parse_mode("3x", 3), Err(RotateError::ModeLengthMismatch(3, 2)));
}
