use guessing_game_cust::parseargs::{parse_args, ArgErrorKind, IntParseError};

#[test]
fn input_parsing() {
    let test_input = String::from("1 2 3 4");
    let test_result: Vec<i64> = match parse_args(4, &test_input) {
        Ok(result) => result,
        Err(e) => panic!("{:?}", e),
    };

    let test_should_eq: Vec<i64> = vec![1, 2, 3, 4];
    assert_eq!(test_result, test_should_eq);
}

#[test]
#[should_panic]
fn parsearg_invalid_input() {
    let test_input = "1 2 3 4";
    let _test_result: Vec<i64> = match parse_args(3, &test_input) {
        Ok(result) => result,
        Err(e) => panic!("{:?}", e),
    };
}

#[test]
#[should_panic]
fn parsearg_nan() {
    let test_input = "1 2 hobo 4";
    let _test_result: Vec<i64> = match parse_args(4, &test_input) {
        Ok(result) => result,
        Err(e) => panic!("{:?}", e),
    };
}

#[test]
fn count_mismatch_reports_both_counts() {
    match parse_args(3, "1 2 3 4") {
        Ok(_) => panic!("expected a count mismatch"),
        Err(e) => match e.kind {
            ArgErrorKind::ArgAmount((expected, actual)) => {
                assert_eq!(expected, 3);
                assert_eq!(actual, 4);
            }
            other => panic!("wrong error kind: {:?}", other),
        },
    }
}

#[test]
fn conversion_failure_reports_first_bad_token() {
    match parse_args(4, "1 2 hobo 4") {
        Ok(_) => panic!("expected a conversion failure"),
        Err(e) => match e.kind {
            ArgErrorKind::ExternErr((token, cause)) => {
                assert_eq!(token.as_str(), "hobo");
                assert_eq!(cause, IntParseError::InvalidDigit);
            }
            other => panic!("wrong error kind: {:?}", other),
        },
    }
}

#[test]
fn arbitrary_whitespace_keeps_order() {
    let parsed = parse_args(3, "  7\t-8  \n +9 ").unwrap();
    assert_eq!(parsed, vec![7, -8, 9]);
}

#[test]
fn extreme_values_parse() {
    let parsed = parse_args(2, "-9223372036854775808 9223372036854775807").unwrap();
    assert_eq!(parsed, vec![i64::MIN, i64::MAX]);
}

#[test]
fn leading_zeros_and_signs_parse() {
    let parsed = parse_args(3, "007 +0 -0").unwrap();
    assert_eq!(parsed, vec![7, 0, 0]);
}

#[test]
fn positive_overflow_is_reported() {
    match parse_args(1, "9223372036854775808") {
        Err(e) => match e.kind {
            ArgErrorKind::ExternErr((token, cause)) => {
                assert_eq!(token.as_str(), "9223372036854775808");
                assert_eq!(cause, IntParseError::PosOverflow);
            }
            other => panic!("wrong error kind: {:?}", other),
        },
        Ok(v) => panic!("expected overflow, got {:?}", v),
    }
}

#[test]
fn negative_overflow_is_reported() {
    match parse_args(1, "-99999999999999999999") {
        Err(e) => match e.kind {
            ArgErrorKind::ExternErr((_, cause)) => {
                assert_eq!(cause, IntParseError::NegOverflow);
            }
            other => panic!("wrong error kind: {:?}", other),
        },
        Ok(v) => panic!("expected overflow, got {:?}", v),
    }
}

#[test]
fn bare_sign_is_invalid() {
    match parse_args(2, "+ -1") {
        Err(e) => match e.kind {
            ArgErrorKind::ExternErr((token, cause)) => {
                assert_eq!(token.as_str(), "+");
                assert_eq!(cause, IntParseError::InvalidDigit);
            }
            other => panic!("wrong error kind: {:?}", other),
        },
        Ok(v) => panic!("expected a conversion failure, got {:?}", v),
    }
}

#[test]
fn empty_line_has_no_tokens() {
    match parse_args(2, " \t \n") {
        Err(e) => match e.kind {
            ArgErrorKind::ArgAmount((expected, actual)) => {
                assert_eq!(expected, 2);
                assert_eq!(actual, 0);
            }
            other => panic!("wrong error kind: {:?}", other),
        },
        Ok(v) => panic!("expected a count mismatch, got {:?}", v),
    }
}

#[test]
fn zero_values_from_blank_line() {
    let parsed = parse_args(0, "").unwrap();
    assert!(parsed.is_empty());
}
