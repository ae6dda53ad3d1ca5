use keep_it_focused::notify::Urgency;
use keep_it_focused::types::{DayOfWeek, ParseError, TimeOfDay};

#[test]
fn parse_military_times() {
    assert_eq!(
        TimeOfDay::parse("1135"),
        Ok(TimeOfDay { hours: 11, minutes: 35 })
    );
    assert_eq!(
        TimeOfDay::parse("11:35"),
        Ok(TimeOfDay { hours: 11, minutes: 35 })
    );
    assert_eq!(
        TimeOfDay::parse("0911"),
        Ok(TimeOfDay { hours: 9, minutes: 11 })
    );
    // The end-of-day sentinel.
    assert_eq!(
        TimeOfDay::parse("2400"),
        Ok(TimeOfDay { hours: 24, minutes: 0 })
    );
    // The leftmost group in surrounding text is read.
    assert_eq!(
        TimeOfDay::parse("at 17:59 sharp"),
        Ok(TimeOfDay { hours: 17, minutes: 59 })
    );
}

#[test]
fn parse_rejects_bad_times() {
    assert_eq!(TimeOfDay::parse(""), Err(ParseError::NoMatch));
    assert_eq!(TimeOfDay::parse("noon"), Err(ParseError::NoMatch));
    assert_eq!(TimeOfDay::parse("99:99"), Err(ParseError::NoMatch));
    // Hours above 23 are rejected unless the token is exactly 24:00.
    assert_eq!(TimeOfDay::parse("2500"), Err(ParseError::InvalidHours));
    assert_eq!(TimeOfDay::parse("2401"), Err(ParseError::InvalidHours));
}

#[test]
fn parse_military_token_requires_four_characters() {
    assert_eq!(
        TimeOfDay::parse_military("0911"),
        Ok(TimeOfDay { hours: 9, minutes: 11 })
    );
    assert_eq!(TimeOfDay::parse_military("911"), Err(ParseError::BadLength));
    assert_eq!(
        TimeOfDay::parse_military("09:11"),
        Err(ParseError::BadLength)
    );
    assert_eq!(TimeOfDay::parse_military("abcd"), Err(ParseError::NoMatch));
    assert_eq!(
        TimeOfDay::parse_military("2500"),
        Err(ParseError::InvalidHours)
    );
}

#[test]
fn numeric_codes() {
    assert_eq!(
        TimeOfDay::from_code(911),
        Ok(TimeOfDay { hours: 9, minutes: 11 })
    );
    assert_eq!(
        TimeOfDay::from_code(2400),
        Ok(TimeOfDay { hours: 24, minutes: 0 })
    );
    assert_eq!(TimeOfDay::from_code(0), Ok(TimeOfDay { hours: 0, minutes: 0 }));
    assert_eq!(TimeOfDay::from_code(2500), Err(ParseError::InvalidHours));
    assert_eq!(TimeOfDay::from_code(2401), Err(ParseError::InvalidHours));
    assert_eq!(TimeOfDay::from_code(1299), Err(ParseError::InvalidMinutes));
}

#[test]
fn minutes_round_trip() {
    let noon = TimeOfDay { hours: 12, minutes: 30 };
    assert_eq!(noon.as_minutes(), 750);
    assert_eq!(TimeOfDay::from_minutes(750), noon);
    // The conversion back from minutes wraps the hours at 23.
    assert_eq!(
        TimeOfDay::from_minutes(1440),
        TimeOfDay { hours: 1, minutes: 0 }
    );
    assert_eq!(
        TimeOfDay { hours: 24, minutes: 0 }.as_minutes(),
        1440
    );
}

#[test]
fn day_names() {
    assert_eq!(DayOfWeek::parse("monday"), Ok(DayOfWeek::monday()));
    assert_eq!(DayOfWeek::parse("Tue"), Ok(DayOfWeek::tuesday()));
    assert_eq!(DayOfWeek::parse("WEDanythinggoes"), Ok(DayOfWeek::wednesday()));
    // The historical `wen` spelling is a configuration-key alias only.
    assert_eq!(DayOfWeek::parse("wen"), Err(ParseError::UnknownDay));
    assert_eq!(
        DayOfWeek::parse_config_key("wen"),
        Ok(DayOfWeek::wednesday())
    );
    assert_eq!(
        DayOfWeek::parse_config_key("WENanything"),
        Ok(DayOfWeek::wednesday())
    );
    assert_eq!(
        DayOfWeek::parse_config_key("monday"),
        Ok(DayOfWeek::monday())
    );
    assert_eq!(
        DayOfWeek::parse_config_key("holiday"),
        Err(ParseError::UnknownDay)
    );
    assert_eq!(DayOfWeek::parse("THURSDAY"), Ok(DayOfWeek::thursday()));
    assert_eq!(DayOfWeek::parse("fri"), Ok(DayOfWeek::friday()));
    assert_eq!(DayOfWeek::parse("sat"), Ok(DayOfWeek::saturday()));
    assert_eq!(DayOfWeek::parse("Sunday"), Ok(DayOfWeek::sunday()));
    assert_eq!(DayOfWeek::parse("holiday"), Err(ParseError::UnknownDay));
    assert_eq!(DayOfWeek::parse("mo"), Err(ParseError::UnknownDay));
}

#[test]
fn day_indices_and_names() {
    assert_eq!(DayOfWeek::from_index(0), Some(DayOfWeek::monday()));
    assert_eq!(DayOfWeek::from_index(6), Some(DayOfWeek::sunday()));
    assert_eq!(DayOfWeek::from_index(7), None);
    assert_eq!(DayOfWeek::monday().name(), "monday");
    assert_eq!(DayOfWeek::sunday().name(), "sunday");
}

#[test]
fn iptables_time_argument() {
    assert_eq!(
        TimeOfDay { hours: 9, minutes: 5 }.as_iptables_arg(),
        "09:05"
    );
    assert_eq!(
        TimeOfDay { hours: 23, minutes: 59 }.as_iptables_arg(),
        "23:59"
    );
    assert_eq!(
        TimeOfDay { hours: 24, minutes: 0 }.as_iptables_arg(),
        "24:00"
    );
}

#[test]
fn urgency_labels() {
    assert_eq!(Urgency::Low.label(), "low");
    assert_eq!(Urgency::Significant.label(), "normal");
    assert_eq!(Urgency::Critical.label(), "critical");
}
