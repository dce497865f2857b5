use odata_params::filters::{
    parse_str, to_query_string, CompareOperator, Date, DateTime, Expr, Number, ParseError, Time,
    Value,
};

fn compared_with(value: Value) -> Expr {
    Expr::Compare(
        Box::new(Expr::Identifier("xx".to_owned())),
        CompareOperator::Equal,
        Box::new(Expr::Value(value)),
    )
}

#[test]
fn parses_a_uuid() {
    assert_eq!(
        parse_str("id eq 123e4567-e89b-12d3-a456-426614174000"),
        Ok(Expr::Compare(
            Box::new(Expr::Identifier("id".to_owned())),
            CompareOperator::Equal,
            Box::new(Expr::Value(Value::Uuid(0x123e4567_e89b_12d3_a456_426614174000))),
        ))
    );
}

#[test]
fn parses_a_uuid_in_upper_case() {
    assert_eq!(
        parse_str("xx eq 123E4567-E89B-12D3-A456-426614174000"),
        Ok(compared_with(Value::Uuid(0x123e4567_e89b_12d3_a456_426614174000)))
    );
}

#[test]
fn renders_a_uuid_in_lower_case_with_hyphens() {
    assert_eq!(
        to_query_string(&compared_with(Value::Uuid(0x123E4567_E89B_12D3_A456_426614174000))),
        Ok("xx eq 123e4567-e89b-12d3-a456-426614174000".to_owned())
    );
}

#[test]
fn parses_a_date() {
    assert_eq!(
        parse_str("xx eq 2024-02-29"),
        Ok(compared_with(Value::Date(Date { year: 2024, month: 2, day: 29 })))
    );
}

#[test]
fn rejects_a_date_that_does_not_exist() {
    assert_eq!(parse_str("xx eq 2023-02-29"), Err(ParseError::ParsingDate));
    assert_eq!(parse_str("xx eq 2020-13-01"), Err(ParseError::ParsingDate));
}

#[test]
fn renders_a_date() {
    assert_eq!(
        to_query_string(&compared_with(Value::Date(Date { year: 2024, month: 2, day: 9 }))),
        Ok("xx eq 2024-02-09".to_owned())
    );
}

#[test]
fn does_not_render_a_date_that_does_not_exist() {
    let expr = compared_with(Value::Date(Date { year: 2023, month: 2, day: 30 }));
    assert!(to_query_string(&expr).is_err());
}

#[test]
fn parses_hours_and_minutes() {
    assert_eq!(
        parse_str("xx eq 7:05"),
        Ok(compared_with(Value::Time(Time { second_of_day: 7 * 3600 + 5 * 60, nanosecond: 0 })))
    );
}

#[test]
fn parses_seconds_and_fraction() {
    assert_eq!(
        parse_str("xx eq 12:30:15"),
        Ok(compared_with(Value::Time(Time { second_of_day: 45015, nanosecond: 0 })))
    );
    assert_eq!(
        parse_str("xx eq 12:30:15.25"),
        Ok(compared_with(Value::Time(Time { second_of_day: 45015, nanosecond: 250_000_000 })))
    );
}

#[test]
fn drops_a_fraction_without_seconds() {
    assert_eq!(
        parse_str("xx eq 12:30.5"),
        Ok(compared_with(Value::Time(Time { second_of_day: 45000, nanosecond: 0 })))
    );
}

#[test]
fn rejects_a_time_out_of_range() {
    assert_eq!(parse_str("xx eq 24:00"), Err(ParseError::ParsingTime));
    assert_eq!(parse_str("xx eq 12:60"), Err(ParseError::ParsingTime));
}

#[test]
fn renders_a_time() {
    assert_eq!(
        to_query_string(&compared_with(Value::Time(Time { second_of_day: 45015, nanosecond: 0 }))),
        Ok("xx eq 12:30:15".to_owned())
    );
    assert_eq!(
        to_query_string(&compared_with(Value::Time(Time {
            second_of_day: 45015,
            nanosecond: 250_000_000
        }))),
        Ok("xx eq 12:30:15.250".to_owned())
    );
}

#[test]
fn does_not_render_a_time_past_midnight() {
    let expr = compared_with(Value::Time(Time { second_of_day: 86_400, nanosecond: 0 }));
    assert!(to_query_string(&expr).is_err());
}

#[test]
fn parses_a_datetime_in_utc() {
    assert_eq!(
        parse_str("xx eq 2020-01-01T00:00:00Z"),
        Ok(compared_with(Value::DateTime(DateTime { seconds: 1_577_836_800, nanoseconds: 0 })))
    );
}

#[test]
fn normalises_an_offset_to_utc() {
    let expected =
        Ok(compared_with(Value::DateTime(DateTime { seconds: 1_577_836_800, nanoseconds: 0 })));
    assert_eq!(parse_str("xx eq 2020-01-01T01:00:00+01:00"), expected);
    assert_eq!(parse_str("xx eq 2020-01-01T01:00:00+0100"), expected);
    assert_eq!(parse_str("xx eq 2020-01-01T01:00:00+01"), expected);
    assert_eq!(parse_str("xx eq 2019-12-31T19:00:00-05:00"), expected);
}

#[test]
fn resolves_a_named_zone() {
    assert_eq!(
        parse_str("xx eq 2020-07-01T12:00:00Europe/Paris"),
        Ok(compared_with(Value::DateTime(DateTime { seconds: 1_593_597_600, nanoseconds: 0 })))
    );
}

#[test]
fn takes_the_earliest_instant_of_an_ambiguous_local_time() {
    assert_eq!(
        parse_str("xx eq 2021-10-31T02:30:00Europe/Paris"),
        Ok(compared_with(Value::DateTime(DateTime { seconds: 1_635_640_200, nanoseconds: 0 })))
    );
}

#[test]
fn rejects_a_local_time_that_the_zone_skips() {
    assert_eq!(
        parse_str("xx eq 2021-03-28T02:30:00Europe/Paris"),
        Err(ParseError::ParsingDateTime)
    );
}

#[test]
fn rejects_an_unknown_zone() {
    assert_eq!(
        parse_str("xx eq 2020-01-01T00:00:00Mars/Phobos"),
        Err(ParseError::ParsingTimeZoneNamed)
    );
}

#[test]
fn rejects_an_offset_out_of_range() {
    assert_eq!(parse_str("xx eq 2020-01-01T00:00:00+99:00"), Err(ParseError::ParsingTimeZone));
}

#[test]
fn reports_the_date_before_the_time_and_the_zone() {
    assert_eq!(parse_str("xx eq 2020-13-01T25:00:00Mars/Phobos"), Err(ParseError::ParsingDate));
    assert_eq!(parse_str("xx eq 2020-01-01T25:00:00Mars/Phobos"), Err(ParseError::ParsingTime));
}

#[test]
fn renders_a_datetime_in_utc_with_milliseconds() {
    assert_eq!(
        to_query_string(&compared_with(Value::DateTime(DateTime {
            seconds: 1_709_209_815,
            nanoseconds: 123_456_789
        }))),
        Ok("xx eq 2024-02-29T12:30:15.123Z".to_owned())
    );
}

#[test]
fn does_not_render_an_instant_with_too_many_nanoseconds() {
    let expr =
        compared_with(Value::DateTime(DateTime { seconds: 0, nanoseconds: 2_000_000_000 }));
    assert!(to_query_string(&expr).is_err());
}

#[test]
fn parses_numbers_with_their_scale() {
    assert_eq!(
        parse_str("xx eq 50.0"),
        Ok(compared_with(Value::Number(Number { unscaled: "500".to_owned(), scale: 1 })))
    );
    assert_eq!(
        parse_str("xx eq 007"),
        Ok(compared_with(Value::Number(Number { unscaled: "7".to_owned(), scale: 0 })))
    );
    assert_eq!(
        parse_str("xx eq 1."),
        Ok(compared_with(Value::Number(Number { unscaled: "1".to_owned(), scale: 0 })))
    );
}

#[test]
fn renders_numbers_with_their_scale() {
    assert_eq!(
        to_query_string(&compared_with(Value::Number(Number {
            unscaled: "500".to_owned(),
            scale: 1
        }))),
        Ok("xx eq 50.0".to_owned())
    );
    assert_eq!(
        to_query_string(&compared_with(Value::Number(Number {
            unscaled: "-12345".to_owned(),
            scale: 3
        }))),
        Ok("xx eq -12.345".to_owned())
    );
}

#[test]
fn does_not_render_a_number_without_digits() {
    let expr = compared_with(Value::Number(Number { unscaled: "abc".to_owned(), scale: 0 }));
    assert!(to_query_string(&expr).is_err());
}

#[test]
fn parses_booleans_and_null_in_any_case() {
    assert_eq!(parse_str("xx eq TRUE"), Ok(compared_with(Value::Bool(true))));
    assert_eq!(parse_str("xx eq fAlSe"), Ok(compared_with(Value::Bool(false))));
    assert_eq!(parse_str("xx eq Null"), Ok(compared_with(Value::Null)));
}

#[test]
fn renders_booleans_and_null() {
    assert_eq!(
        to_query_string(&compared_with(Value::Bool(true))),
        Ok("xx eq true".to_owned())
    );
    assert_eq!(
        to_query_string(&compared_with(Value::Bool(false))),
        Ok("xx eq false".to_owned())
    );
    assert_eq!(to_query_string(&compared_with(Value::Null)), Ok("xx eq null".to_owned()));
}

#[test]
fn parses_escapes_in_strings() {
    assert_eq!(
        parse_str(r"xx eq 'a\'b\n\r\t\\c'"),
        Ok(compared_with(Value::String("a'b\n\r\t\\c".to_owned())))
    );
}

#[test]
fn keeps_a_backslash_that_starts_no_escape() {
    assert_eq!(
        parse_str(r"xx eq 'a\xb\u'"),
        Ok(compared_with(Value::String(r"a\xb\u".to_owned())))
    );
}

#[test]
fn parses_unicode_escapes() {
    assert_eq!(
        parse_str(r"xx eq '\u41\u00e9\u1F600'"),
        Ok(compared_with(Value::String("A\u{e9}\u{1F600}".to_owned())))
    );
}

#[test]
fn takes_at_most_eight_digits_of_a_unicode_escape() {
    assert_eq!(
        parse_str(r"xx eq '\u000000410'"),
        Ok(compared_with(Value::String("A0".to_owned())))
    );
}

#[test]
fn rejects_a_code_point_that_is_no_scalar_value() {
    assert_eq!(parse_str(r"xx eq '\uD800'"), Err(ParseError::ParsingUnicodeCodePoint));
    assert_eq!(parse_str(r"xx eq '\uDFFF'"), Err(ParseError::ParsingUnicodeCodePoint));
    assert_eq!(parse_str(r"xx eq '\u110000'"), Err(ParseError::ParsingUnicodeCodePoint));
    assert_eq!(parse_str(r"xx eq '\uFFFFFFFF'"), Err(ParseError::ParsingUnicodeCodePoint));
    assert_eq!(
        parse_str(r"xx eq '\uD7FF\uE000\u10FFFF'"),
        Ok(compared_with(Value::String("\u{D7FF}\u{E000}\u{10FFFF}".to_owned())))
    );
}

#[test]
fn parses_strings_that_are_not_ascii() {
    assert_eq!(
        parse_str("xx eq 'gr\u{fc}\u{df} \u{4e16}\u{754c}'"),
        Ok(compared_with(Value::String("gr\u{fc}\u{df} \u{4e16}\u{754c}".to_owned())))
    );
}

#[test]
fn renders_strings_with_quotes_doubled() {
    assert_eq!(
        to_query_string(&compared_with(Value::String("it's".to_owned()))),
        Ok("xx eq 'it''s'".to_owned())
    );
    assert_eq!(
        to_query_string(&compared_with(Value::String("a\\b\n".to_owned()))),
        Ok("xx eq 'a\\b\n'".to_owned())
    );
    assert_eq!(
        to_query_string(&compared_with(Value::String(String::new()))),
        Ok("xx eq ''".to_owned())
    );
}

#[test]
fn reports_what_follows_before_the_left_operand() {
    assert_eq!(parse_str("2020-13-01 eq 25:00"), Err(ParseError::ParsingTime));
    assert_eq!(parse_str("2020-13-01 eq 12:00"), Err(ParseError::ParsingDate));
}

#[test]
fn reports_the_left_operand_of_a_join_first() {
    assert_eq!(parse_str("xx eq 2020-13-01 or xx eq 25:00"), Err(ParseError::ParsingDate));
    assert_eq!(parse_str("xx eq 12:00 and xx eq 25:00"), Err(ParseError::ParsingTime));
}

#[test]
fn reports_the_first_error_of_a_list() {
    assert_eq!(parse_str("ff(1, 25:00, 2020-13-01)"), Err(ParseError::ParsingTime));
    assert_eq!(parse_str("xx in (2020-13-01, 25:00)"), Err(ParseError::ParsingDate));
}

#[test]
fn prefers_a_syntax_error_to_the_error_of_a_literal() {
    assert_eq!(parse_str("xx eq 25:00 and"), Err(ParseError::Parsing));
}

#[test]
fn writes_the_lowest_and_the_highest_uuid() {
    assert_eq!(
        to_query_string(&compared_with(Value::Uuid(0))),
        Ok("xx eq 00000000-0000-0000-0000-000000000000".to_owned())
    );
    assert_eq!(
        to_query_string(&compared_with(Value::Uuid(u128::MAX))),
        Ok("xx eq ffffffff-ffff-ffff-ffff-ffffffffffff".to_owned())
    );
}

#[test]
fn reads_the_digits_of_a_uuid_from_the_highest_to_the_lowest() {
    assert_eq!(
        parse_str("xx eq 00000000-0000-0000-0000-0000000000fF"),
        Ok(compared_with(Value::Uuid(255)))
    );
    assert_eq!(
        parse_str("xx eq 10000000-0000-0000-0000-000000000000"),
        Ok(compared_with(Value::Uuid(1u128 << 124)))
    );
    assert_eq!(
        parse_str("xx eq 01234567-89ab-cdef-0123-456789ABCDEF"),
        Ok(compared_with(Value::Uuid(0x01234567_89ab_cdef_0123_456789ab_cdef)))
    );
}

#[test]
fn reads_back_an_instant_at_a_whole_millisecond() {
    for (seconds, nanoseconds, text) in [
        (-62_167_219_200i64, 0u32, "xx eq 0000-01-01T00:00:00.000Z"),
        (253_402_300_799, 999_000_000, "xx eq 9999-12-31T23:59:59.999Z"),
        (1_704_164_645, 678_000_000, "xx eq 2024-01-02T03:04:05.678Z"),
        (-1, 1_000_000, "xx eq 1969-12-31T23:59:59.001Z"),
    ] {
        let tree = compared_with(Value::DateTime(DateTime { seconds, nanoseconds }));
        assert_eq!(to_query_string(&tree), Ok(text.to_owned()));
        assert_eq!(parse_str(text), Ok(tree));
    }
}

#[test]
fn reads_back_dates_and_times_at_their_limits() {
    for (value, text) in [
        (Value::Date(Date { year: 0, month: 1, day: 1 }), "xx eq 0000-01-01"),
        (Value::Date(Date { year: 9999, month: 12, day: 31 }), "xx eq 9999-12-31"),
        (Value::Time(Time { second_of_day: 0, nanosecond: 0 }), "xx eq 00:00:00"),
        (Value::Time(Time { second_of_day: 86_399, nanosecond: 1 }), "xx eq 23:59:59.000000001"),
        (Value::Time(Time { second_of_day: 86_399, nanosecond: 1_500_000_000 }), "xx eq 23:59:60.500"),
    ] {
        let tree = compared_with(value);
        assert_eq!(to_query_string(&tree), Ok(text.to_owned()));
        assert_eq!(parse_str(text), Ok(tree));
    }
}

#[test]
fn reads_back_a_plain_fraction() {
    for (unscaled, scale, text) in [
        ("25", 1i64, "xx eq 2.5"),
        ("5", 1, "xx eq 0.5"),
        ("25", 2, "xx eq 0.25"),
        ("1250", 2, "xx eq 12.50"),
        ("123456789012345678901234567890", 29, "xx eq 1.23456789012345678901234567890"),
    ] {
        let tree = compared_with(Value::Number(Number { unscaled: unscaled.to_owned(), scale }));
        assert_eq!(to_query_string(&tree), Ok(text.to_owned()));
        match parse_str(text) {
            Ok(Expr::Compare(_, _, rhs)) => match *rhs {
                Expr::Value(Value::Number(n)) => {
                    assert_eq!(n.unscaled, unscaled);
                    assert_eq!(n.scale, scale);
                }
                other => panic!("no number: {other:?}"),
            },
            other => panic!("no comparison: {other:?}"),
        }
    }
}

#[test]
fn reads_back_a_natural_number_as_its_digits() {
    for digits in ["0", "7", "30", "123456789012345678901234567890123456789012345678901234567890"] {
        let tree = compared_with(Value::Number(Number { unscaled: digits.to_owned(), scale: 0 }));
        let text = format!("xx eq {digits}");
        assert_eq!(to_query_string(&tree), Ok(text.clone()));
        match parse_str(text.as_str()) {
            Ok(Expr::Compare(_, _, rhs)) => match *rhs {
                Expr::Value(Value::Number(n)) => {
                    assert_eq!(n.unscaled, digits);
                    assert_eq!(n.scale, 0);
                }
                other => panic!("no number: {other:?}"),
            },
            other => panic!("no comparison: {other:?}"),
        }
    }
}
