use notification_bot::config::{
    parse_interval, parse_request, BotConfig, ConfigRequest, EditOutcome, IntervalError,
    DEFAULT_PING_INTERVAL,
};

#[test]
fn default_interval_is_a_minute() {
    let config = BotConfig::default();
    assert_eq!(config.ping_interval(), 60);
    assert_eq!(DEFAULT_PING_INTERVAL, 60);
}

#[test]
fn interval_is_read_as_decimal() {
    assert_eq!(parse_interval("30"), Ok(30));
    assert_eq!(parse_interval("1"), Ok(1));
    assert_eq!(parse_interval("007"), Ok(7));
    assert_eq!(parse_interval("+30"), Ok(30));
    assert_eq!(parse_interval("18446744073709551615"), Ok(u64::MAX));
}

#[test]
fn empty_interval_is_refused() {
    assert_eq!(parse_interval(""), Err(IntervalError::Empty));
}

#[test]
fn interval_with_a_stray_character_is_refused() {
    for text in ["+", "-", "-5", "3x", "x3", "3 ", " 3", "++3", "3.5", "\u{664}"] {
        assert_eq!(parse_interval(text), Err(IntervalError::InvalidDigit));
    }
}

#[test]
fn interval_beyond_64_bits_is_refused() {
    assert_eq!(parse_interval("18446744073709551616"), Err(IntervalError::TooLarge));
    assert_eq!(parse_interval("99999999999999999999999"), Err(IntervalError::TooLarge));
}

#[test]
fn first_fault_from_the_left_decides() {
    assert_eq!(parse_interval("99999999999999999999999x"), Err(IntervalError::TooLarge));
    assert_eq!(parse_interval("9x9999999999999999999999"), Err(IntervalError::InvalidDigit));
    assert_eq!(parse_interval("1844674407370955161x"), Err(IntervalError::InvalidDigit));
}

#[test]
fn zero_interval_is_refused() {
    assert_eq!(parse_interval("0"), Err(IntervalError::Zero));
    assert_eq!(parse_interval("000"), Err(IntervalError::Zero));
    assert_eq!(parse_interval("+0"), Err(IntervalError::Zero));
}

#[test]
fn interval_agrees_with_the_standard_parser_on_positive_numbers() {
    let samples = [
        "", "+", "-", "1", "+1", "-1", "12a", "a12", "60", "3600", "18446744073709551615",
        "18446744073709551616", "184467440737095516150", "99999999999999999999x", "1_000", "٣",
    ];
    for s in samples {
        let expected = match s.parse::<u64>() {
            Ok(v) => Ok(v),
            Err(e) => Err(match e.kind() {
                std::num::IntErrorKind::Empty => IntervalError::Empty,
                std::num::IntErrorKind::InvalidDigit => IntervalError::InvalidDigit,
                std::num::IntErrorKind::PosOverflow => IntervalError::TooLarge,
                _ => unreachable!(),
            }),
        };
        assert_eq!(parse_interval(s), expected);
    }
}

#[test]
fn config_without_argument_asks_for_usage() {
    assert_eq!(parse_request("/config"), ConfigRequest::Usage);
    assert_eq!(parse_request(""), ConfigRequest::Usage);
}

#[test]
fn config_list_is_read() {
    assert_eq!(parse_request("/config list"), ConfigRequest::List);
    assert_eq!(parse_request("/CONFIG LIST"), ConfigRequest::List);
    assert_eq!(parse_request("/config list and more"), ConfigRequest::List);
}

#[test]
fn config_edit_takes_field_and_value() {
    assert_eq!(
        parse_request("/config edit ping_interval 30"),
        ConfigRequest::Edit { field: "ping_interval".to_string(), value: "30".to_string() }
    );
    assert_eq!(
        parse_request("/Config Edit PING_INTERVAL 30 extra"),
        ConfigRequest::Edit { field: "ping_interval".to_string(), value: "30".to_string() }
    );
    assert_eq!(
        parse_request("/config edit  30"),
        ConfigRequest::Edit { field: "".to_string(), value: "30".to_string() }
    );
}

#[test]
fn config_edit_needs_field_and_value() {
    assert_eq!(parse_request("/config edit"), ConfigRequest::NotEnoughArguments);
    assert_eq!(parse_request("/config edit ping_interval"), ConfigRequest::NotEnoughArguments);
}

#[test]
fn config_with_another_argument_is_invalid() {
    assert_eq!(parse_request("/config show"), ConfigRequest::InvalidInput);
    assert_eq!(parse_request("/config  list"), ConfigRequest::InvalidInput);
    assert_eq!(parse_request("/config "), ConfigRequest::InvalidInput);
}

#[test]
fn configuration_refuses_zero() {
    assert_eq!(BotConfig::with_interval(0), Err(IntervalError::Zero));
    assert_eq!(BotConfig::with_interval(30).map(|c| c.ping_interval()), Ok(30));
}

#[test]
fn edit_sets_the_interval() {
    let mut config = BotConfig::default();
    assert_eq!(config.edit("ping_interval", "30"), EditOutcome::Changed(30));
    assert_eq!(config.ping_interval(), 30);
}

#[test]
fn edit_with_a_bad_value_changes_nothing() {
    let mut config = BotConfig::default();
    assert_eq!(config.edit("ping_interval", "soon"), EditOutcome::InvalidValue(IntervalError::InvalidDigit));
    assert_eq!(config.edit("ping_interval", "0"), EditOutcome::InvalidValue(IntervalError::Zero));
    assert_eq!(config.edit("ping_interval", ""), EditOutcome::InvalidValue(IntervalError::Empty));
    assert_eq!(
        config.edit("ping_interval", "18446744073709551616"),
        EditOutcome::InvalidValue(IntervalError::TooLarge)
    );
    assert_eq!(config, BotConfig::default());
}

#[test]
fn edit_of_an_unknown_field_changes_nothing() {
    let mut config = BotConfig::default();
    assert_eq!(config.edit("timeout", "30"), EditOutcome::UnknownField);
    assert_eq!(config.edit("", "30"), EditOutcome::UnknownField);
    assert_eq!(config.ping_interval(), 60);
}
