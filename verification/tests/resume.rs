use league_replay::resume::{parse_range, response, resume_from, valid_validator, Resume};

#[test]
fn refuses_wrong_ranges_and_weak_validators() {
    assert_eq!(parse_range("bytes 40-99/100", 40).unwrap(), 100);
    for range in ["bytes 0-99/100", "bytes 40-60/100", "bytes 40-100/100", "bytes 40-99/*"] {
        assert!(parse_range(range, 40).is_err());
    }
    assert!(!valid_validator("W/\"abc\""));
    assert!(valid_validator("\"abc\""));
}

#[test]
fn range_parsing_follows_the_integer_grammar() {
    assert_eq!(parse_range("bytes +40-99/100", 40).unwrap(), 100);
    assert_eq!(parse_range("bytes 40-99/100", 41), Err("replay.incomplete".into()));
    assert!(parse_range("bytes 40-18446744073709551615/0", 40).is_err());
    assert!(parse_range("bytes 40--99/100", 40).is_err());
    assert!(parse_range("Bytes 40-99/100", 40).is_err());
    assert_eq!(parse_range("bytes 0-0/1", 0).unwrap(), 1);
}

#[test]
fn validators_are_quoted_single_line_and_bounded() {
    assert!(valid_validator("\""));
    assert!(!valid_validator(""));
    assert!(!valid_validator("\"a\nb\""));
    assert!(!valid_validator("\"a\rb\""));
    let long = format!("\"{}\"", "a".repeat(1022));
    assert!(valid_validator(&long));
    let longer = format!("\"{}\"", "a".repeat(1023));
    assert!(!valid_validator(&longer));
    let wide = format!("\"{}\"", "é".repeat(512));
    assert!(!valid_validator(&wide));
}

#[test]
fn responses_restart_or_continue_only_with_matching_ranges() {
    let resume = Resume { offset: 40, validator: "\"abc\"".into() };
    assert_eq!(response(200, Some(100), None, None, Some(&resume)), Ok((0, Some(100))));
    assert_eq!(response(200, None, None, None, None), Ok((0, None)));
    assert_eq!(
        response(206, None, Some("bytes 40-99/100"), Some("\"abc\""), Some(&resume)),
        Ok((40, Some(100)))
    );
    assert_eq!(
        response(206, None, Some("bytes 40-99/100"), Some("\"abd\""), Some(&resume)),
        Err("replay.incomplete".into())
    );
    assert!(response(206, None, Some("bytes 40-99/100"), None, Some(&resume)).is_err());
    assert!(response(206, None, Some("bytes 40-99/100"), Some("\"abc\""), None).is_err());
    assert!(response(206, None, None, Some("\"abc\""), Some(&resume)).is_err());
    assert!(response(416, None, None, None, Some(&resume)).is_err());
    assert!(resume_from(0, "\"abc\"".into()).is_none());
    assert!(resume_from(5, "W/\"abc\"".into()).is_none());
    assert_eq!(resume_from(5, "\"abc\"".into()).unwrap().offset, 5);
}
