use journal_tail::priority::{parse_u8, severity_of, Priority, PriorityError};

#[test]
fn ordinals_map_to_levels() {
    let expected = [
        Priority::Emergency,
        Priority::Alert,
        Priority::Critical,
        Priority::Error,
        Priority::Warning,
        Priority::Notice,
        Priority::Informational,
        Priority::Debug,
    ];
    for (i, p) in expected.iter().enumerate() {
        assert_eq!(Priority::try_from_u8(i as u8 + 1), Ok(*p));
    }
}

#[test]
fn ordinal_out_of_range_is_rejected() {
    assert_eq!(Priority::try_from_u8(0), Err(PriorityError::Unsupported(0)));
    assert_eq!(Priority::try_from_u8(9), Err(PriorityError::Unsupported(9)));
    assert_eq!(Priority::try_from_u8(255), Err(PriorityError::Unsupported(255)));
}

#[test]
fn text_parses_as_decimal() {
    assert_eq!(Priority::try_from_str("3"), Ok(Priority::Critical));
    assert_eq!(Priority::try_from_str("+8"), Ok(Priority::Debug));
    assert_eq!(Priority::try_from_str("07"), Ok(Priority::Informational));
    assert_eq!(Priority::try_from_str("1"), Ok(Priority::Emergency));
}

#[test]
fn text_out_of_range_or_malformed_is_rejected() {
    assert_eq!(Priority::try_from_str("9"), Err(PriorityError::Unsupported(9)));
    assert_eq!(Priority::try_from_str("0"), Err(PriorityError::Unsupported(0)));
    assert_eq!(Priority::try_from_str("256"), Err(PriorityError::NotANumber));
    assert_eq!(Priority::try_from_str("abc"), Err(PriorityError::NotANumber));
    assert_eq!(Priority::try_from_str(""), Err(PriorityError::NotANumber));
    assert_eq!(Priority::try_from_str(" 3"), Err(PriorityError::NotANumber));
    assert_eq!(Priority::try_from_str("-1"), Err(PriorityError::NotANumber));
}

#[test]
fn long_names() {
    assert_eq!(Priority::Emergency.name(), "Emergency");
    assert_eq!(Priority::Alert.name(), "Alert");
    assert_eq!(Priority::Critical.name(), "Critical");
    assert_eq!(Priority::Error.name(), "Error");
    assert_eq!(Priority::Warning.name(), "Warning");
    assert_eq!(Priority::Notice.name(), "Notice");
    assert_eq!(Priority::Informational.name(), "Informational");
    assert_eq!(Priority::Debug.name(), "Debug");
}

#[test]
fn missing_or_unreadable_severity_defaults_to_emergency() {
    assert_eq!(severity_of(None), Priority::Emergency);
    assert_eq!(severity_of(Some("abc")), Priority::Emergency);
    assert_eq!(severity_of(Some("42")), Priority::Emergency);
    assert_eq!(severity_of(Some("0")), Priority::Emergency);
    assert_eq!(severity_of(Some("4")), Priority::Error);
    assert_eq!(severity_of(Some("3")), Priority::Critical);
}

#[test]
fn ordinals_round_trip_and_order_levels() {
    for v in 1u8..=8 {
        let p = Priority::try_from_u8(v).unwrap();
        assert_eq!(p.ordinal(), v);
    }
    assert!(Priority::Emergency.ordinal() < Priority::Critical.ordinal());
    assert!(Priority::Error.ordinal() < Priority::Debug.ordinal());
}

#[test]
fn decimal_bytes_parse_like_std() {
    for t in ["0", "7", "+7", "007", "255", "256", "1000", "", "+", "++1", "-0", " 1", "1 ", "1_0", "٣", "99999999999"] {
        assert_eq!(parse_u8(t), t.parse::<u8>().ok(), "text {:?}", t);
    }
    assert_eq!(parse_u8("+042"), Some(42));
}
