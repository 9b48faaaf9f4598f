//! Numeric coercion, entity IRIs, and the calendar-aware time parser.

use wikidata::entity::try_get_as_qid;
use wikidata::numbers::parse_wb_number;
use wikidata::time::parse_wb_time;
use wikidata::{EntityError, JsonValue, Qid, UtcDateTime};

fn s(x: &str) -> JsonValue {
    JsonValue::Str(x.to_string())
}

fn num(w: Result<wikidata::WbNumber, EntityError>) -> f64 {
    w.unwrap().0.parse().unwrap()
}

#[test]
fn number_parsing() {
    assert_eq!(num(parse_wb_number(&s("+5"))), 5.);
    assert_eq!(num(parse_wb_number(&s("5"))), 5.);
    assert_eq!(num(parse_wb_number(&s("-5"))), -5.);
    assert_eq!(num(parse_wb_number(&s("-81.12683"))), -81.12683);
    assert_eq!(num(parse_wb_number(&s("+0"))), 0.);
}

#[test]
fn number_shapes() {
    assert_eq!(num(parse_wb_number(&JsonValue::Number("1.96".to_string()))), 1.96);
    assert_eq!(num(parse_wb_number(&s("2.5e3"))), 2500.);
    assert_eq!(num(parse_wb_number(&s(".5"))), 0.5);
    assert_eq!(num(parse_wb_number(&s("3."))), 3.);
    assert!(num(parse_wb_number(&s("inf"))).is_infinite());
    assert_eq!(
        parse_wb_number(&s("watermelon")),
        Err(EntityError::FloatParse)
    );
    assert_eq!(
        parse_wb_number(&JsonValue::Null),
        Err(EntityError::ExpectedNumberString)
    );
    assert_eq!(
        parse_wb_number(&JsonValue::Number("watermelon".to_string())),
        Err(EntityError::NumberOutOfBounds)
    );
}

#[test]
fn as_qid_test() {
    let qid = try_get_as_qid(&s("http://www.wikidata.org/entity/Q1234567"));
    assert_eq!(qid, Ok(Qid(1234567)));
}

#[test]
fn as_qid_errors() {
    assert_eq!(
        try_get_as_qid(&s("https://example.com/Q12")),
        Err(EntityError::ExpectedQidString)
    );
    assert_eq!(
        try_get_as_qid(&JsonValue::Null),
        Err(EntityError::ExpectedUriString)
    );
    assert_eq!(
        try_get_as_qid(&s("http://www.wikidata.org/entity/Qx")),
        Err(EntityError::FloatParse)
    );
}

#[test]
fn time_parsing() {
    let valid_times = vec![
        "+2001-12-31T00:00:00Z",
        "+12346-12-31T00:00:00Z",
        "+311-12-31T00:00:00Z",
        "+1979-00-00T00:00:00Z",
        "-1979-00-00T00:00:00Z",
        "+2001-12-31T00:00:00Z",
        "+2001-12-31",
        "+2001-12",
        "-12561",
        "+311-12-31T12:34:56Z",
        "+311-12-31T23:45:42Z",
    ];
    for time in valid_times {
        println!("Trying \"{}\"", time);
        assert!(match parse_wb_time(time) {
            Ok(val) => {
                println!("Got {:#?}", val);
                true
            }
            Err(_) => false,
        });
    }
}

#[test]
fn time_values() {
    assert_eq!(
        parse_wb_time("+2001-12-31T00:00:00Z"),
        Ok(UtcDateTime { year: 2001, month: 12, day: 31, hour: 0, minute: 0, second: 0 })
    );
    assert_eq!(
        parse_wb_time("+1979-00-00T00:00:00Z"),
        Ok(UtcDateTime { year: 1979, month: 1, day: 1, hour: 0, minute: 0, second: 0 })
    );
    assert_eq!(
        parse_wb_time("-12561"),
        Ok(UtcDateTime { year: -12561, month: 1, day: 1, hour: 0, minute: 0, second: 0 })
    );
    assert_eq!(
        parse_wb_time("+311-12-31T12:34:56Z"),
        Ok(UtcDateTime { year: 311, month: 12, day: 31, hour: 12, minute: 34, second: 56 })
    );
    // A year far outside any library's range still lands on the calendar.
    assert_eq!(
        parse_wb_time("-410000000-00-00T00:00:00Z"),
        Ok(UtcDateTime { year: -410000000, month: 1, day: 1, hour: 0, minute: 0, second: 0 })
    );
}

#[test]
fn time_errors() {
    assert_eq!(parse_wb_time(""), Err(EntityError::TimeEmpty));
    assert_eq!(parse_wb_time("+x"), Err(EntityError::NoDateYear));
    assert_eq!(
        parse_wb_time("+2001-02-30T00:00:00Z"),
        Err(EntityError::NoDateMatched)
    );
    assert_eq!(
        parse_wb_time("+2001-13-01"),
        Err(EntityError::NoDateMatched)
    );
    assert_eq!(
        parse_wb_time("+2001-01-01T99:00:00Z"),
        Err(EntityError::InvalidTimeOfDay)
    );
    assert_eq!(
        parse_wb_time("+2001-01-01Tx:00:00Z"),
        Err(EntityError::FloatParse)
    );
    assert_eq!(
        parse_wb_time("+2001-01-01T00"),
        Err(EntityError::MissingMinute)
    );
    assert_eq!(
        parse_wb_time("+2001-01-01T00:00"),
        Err(EntityError::MissingSecond)
    );
}

#[test]
fn leap_years() {
    // 2000 was a leap year; 1900 was not; year 0 and year -4 are leap years
    // of the proleptic calendar.
    assert!(parse_wb_time("+2000-02-29").is_ok());
    assert_eq!(
        parse_wb_time("+1900-02-29"),
        Err(EntityError::NoDateMatched)
    );
    assert!(parse_wb_time("+0000-02-29").is_ok());
    assert!(parse_wb_time("-4-02-29").is_ok());
    assert_eq!(parse_wb_time("-100-02-29"), Err(EntityError::NoDateMatched));
}

#[test]
fn float_grammar_matches_rust() {
    let accepted = [
        "5", "+5", "-5", "0.5", ".5", "3.", "1e5", "1E5", "1e+5", "1e-5", "2.5e3", "inf",
        "-inf", "Infinity", "iNf", "NaN", "nan", "007", "1.", "+.25",
    ];
    for t in accepted {
        let r = parse_wb_number(&s(t));
        let w = r.expect(t);
        // What the grammar admits, Rust's float parser admits too.
        assert!(w.0.parse::<f64>().is_ok(), "{t}");
    }
    let rejected = [
        "", ".", "e5", "1e", "1e+", "5 ", " 5", "--5", "1.2.3", "0x10", "1_000", "in",
        "infinit", "na", "1ee5",
    ];
    for t in rejected {
        assert!(parse_wb_number(&s(t)).is_err(), "{t}");
        // And Rust's float parser rejects them as well.
        assert!(t.parse::<f64>().is_err(), "{t}");
    }
}
