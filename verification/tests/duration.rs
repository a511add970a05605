use griffin::duration::{interval_from_str, Interval, ParseError, TimeUnit};
use std::str::FromStr;

#[test]
fn each_unit_is_read() {
    assert_eq!(
        interval_from_str("30s"),
        Ok(Interval::new(30, TimeUnit::Seconds))
    );
    assert_eq!(
        interval_from_str("5min"),
        Ok(Interval::new(5, TimeUnit::Minutes))
    );
    assert_eq!(interval_from_str("1h"), Ok(Interval::new(1, TimeUnit::Hours)));
    assert_eq!(
        interval_from_str("200ms"),
        Ok(Interval::new(200, TimeUnit::Milliseconds))
    );
}

#[test]
fn units_are_read_in_any_case() {
    assert_eq!(interval_from_str("7H"), Ok(Interval::new(7, TimeUnit::Hours)));
    assert_eq!(
        interval_from_str("7MIN"),
        Ok(Interval::new(7, TimeUnit::Minutes))
    );
    assert_eq!(
        interval_from_str("7mIn"),
        Ok(Interval::new(7, TimeUnit::Minutes))
    );
    assert_eq!(
        interval_from_str("7S"),
        Ok(Interval::new(7, TimeUnit::Seconds))
    );
    assert_eq!(
        interval_from_str("7Ms"),
        Ok(Interval::new(7, TimeUnit::Milliseconds))
    );
    assert_eq!(
        interval_from_str("7mS"),
        Ok(Interval::new(7, TimeUnit::Milliseconds))
    );
}

#[test]
fn leading_zeros_do_not_change_the_magnitude() {
    assert_eq!(
        interval_from_str("007s"),
        Ok(Interval::new(7, TimeUnit::Seconds))
    );
    assert_eq!(
        interval_from_str("0000000000000001h"),
        Ok(Interval::new(1, TimeUnit::Hours))
    );
}

#[test]
fn zero_magnitude_is_rejected() {
    assert_eq!(interval_from_str("0s"), Err(ParseError::InvalidMagnitude));
    assert_eq!(interval_from_str("000min"), Err(ParseError::InvalidMagnitude));
    assert_eq!(interval_from_str("0ms"), Err(ParseError::InvalidMagnitude));
}

#[test]
fn magnitude_is_bounded_by_32_bits() {
    assert_eq!(
        interval_from_str("4294967295ms"),
        Ok(Interval::new(4294967295, TimeUnit::Milliseconds))
    );
    assert_eq!(
        interval_from_str("4294967296ms"),
        Err(ParseError::InvalidMagnitude)
    );
    assert_eq!(
        interval_from_str("99999999999999999999999999999999999999h"),
        Err(ParseError::InvalidMagnitude)
    );
}

#[test]
fn malformed_text_is_rejected() {
    for text in [
        "", "s", "min", "5", "5x", "5m", "5mi", "5mins", "5sec", "5 s", " 5s", "5s ", "5s\n",
        "x5s", "-5s", "+5s", "5.5s", "5s5", "5hh", "5hs", "1h30min", "٥s", "5ſ", "5ｓ", "s5",
        "0x10s", "5_000ms",
    ] {
        assert_eq!(
            interval_from_str(text),
            Err(ParseError::InvalidFormat),
            "{:?}",
            text
        );
    }
}

#[test]
fn extra_characters_around_a_duration_are_rejected() {
    for extra in ["x", " ", "s", "0", "ms", "\t"] {
        let trailing = format!("5s{}", extra);
        assert!(interval_from_str(&trailing).is_err(), "{:?}", trailing);
    }
    for extra in ["x", " ", "s", "-", "1 "] {
        let leading = format!("{}5s", extra);
        assert!(interval_from_str(&leading).is_err(), "{:?}", leading);
    }
    assert_eq!(
        interval_from_str("15s"),
        Ok(Interval::new(15, TimeUnit::Seconds))
    );
}

#[test]
fn every_magnitude_and_unit_round_trips() {
    let units = [
        ("h", TimeUnit::Hours),
        ("min", TimeUnit::Minutes),
        ("s", TimeUnit::Seconds),
        ("ms", TimeUnit::Milliseconds),
    ];
    for value in [1u32, 2, 9, 10, 11, 59, 60, 99, 100, 1000, 65535, 65536, 4294967295] {
        for (token, unit) in units {
            let text = format!("{}{}", value, token);
            let parsed = interval_from_str(&text).unwrap();
            assert_eq!(parsed.value, value);
            assert_eq!(parsed.unit, unit);
        }
    }
}

#[test]
fn unit_tokens_are_read_on_their_own() {
    assert_eq!(TimeUnit::from_str("s").unwrap(), TimeUnit::Seconds);
    assert_eq!(TimeUnit::from_str("min").unwrap(), TimeUnit::Minutes);
    assert_eq!(TimeUnit::from_str("h").unwrap(), TimeUnit::Hours);
    assert_eq!(TimeUnit::from_str("ms").unwrap(), TimeUnit::Milliseconds);
    assert_eq!(TimeUnit::from_str("MIN").unwrap(), TimeUnit::Minutes);
    assert_eq!("H".parse::<TimeUnit>().unwrap(), TimeUnit::Hours);
    assert_eq!(TimeUnit::lookup("Ms"), Some(TimeUnit::Milliseconds));
    assert_eq!(TimeUnit::lookup("m"), None);
    assert_eq!(TimeUnit::lookup(""), None);
    assert_eq!(TimeUnit::lookup("mins"), None);
}

#[test]
fn unknown_unit_keeps_the_token() {
    let error = TimeUnit::from_str("days").unwrap_err();
    assert_eq!(error.message(), "days");
    assert_eq!(error.to_text(), "invalid duration days");
    let error = <TimeUnit as FromStr>::from_str("ſ").unwrap_err();
    assert_eq!(error.message(), "ſ");
    assert!(TimeUnit::from_str("").is_err());
    assert!(TimeUnit::from_str("sm").is_err());
}

#[test]
fn intervals_convert_to_milliseconds() {
    assert_eq!(Interval::new(1, TimeUnit::Hours).to_millis(), 3_600_000);
    assert_eq!(Interval::new(5, TimeUnit::Minutes).to_millis(), 300_000);
    assert_eq!(Interval::new(30, TimeUnit::Seconds).to_millis(), 30_000);
    assert_eq!(Interval::new(200, TimeUnit::Milliseconds).to_millis(), 200);
    assert_eq!(Interval::new(0, TimeUnit::Hours).to_millis(), 0);
    assert_eq!(
        Interval::new(u32::MAX, TimeUnit::Hours).to_millis(),
        15_461_882_262_000_000
    );
    assert_eq!(TimeUnit::Hours.millis(), 3_600_000);
    assert_eq!(TimeUnit::Minutes.millis(), 60_000);
    assert_eq!(TimeUnit::Seconds.millis(), 1_000);
    assert_eq!(TimeUnit::Milliseconds.millis(), 1);
}

#[test]
fn parser_agrees_with_the_pattern() {
    let pattern = regex::RegexBuilder::new(r"^([0-9]+)(h|min|s|ms)$")
        .case_insensitive(true)
        .unicode(false)
        .build()
        .unwrap();
    let pieces = ["", "0", "1", "42", "h", "H", "min", "MiN", "s", "ms", "m", " ", "x", "5s"];
    for a in pieces {
        for b in pieces {
            for c in pieces {
                let text = format!("{}{}{}", a, b, c);
                let parsed = interval_from_str(&text);
                match pattern.captures(&text) {
                    None => assert_eq!(parsed, Err(ParseError::InvalidFormat), "{:?}", text),
                    Some(found) => {
                        let value: u32 = found.get(1).unwrap().as_str().parse().unwrap();
                        let unit = TimeUnit::from_str(found.get(2).unwrap().as_str()).unwrap();
                        if value == 0 {
                            assert_eq!(parsed, Err(ParseError::InvalidMagnitude), "{:?}", text);
                        } else {
                            assert_eq!(parsed, Ok(Interval::new(value, unit)), "{:?}", text);
                        }
                    }
                }
            }
        }
    }
}
