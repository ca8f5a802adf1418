use geo_ecef::error::{Field, ParseError};
use geo_ecef::parser::{parse_angle, Axis};

fn empty(field: Field) -> Result<i64, ParseError> {
    Err(ParseError::EmptyOrMalformedField { field })
}

fn not_numeric(field: Field, text: &str) -> Result<i64, ParseError> {
    Err(ParseError::NumericParseFailure { field, text: text.to_string() })
}

fn out_of_range(field: Field) -> Result<i64, ParseError> {
    Err(ParseError::OutOfRangeValue { field })
}

fn malformed(field: Field) -> Result<i64, ParseError> {
    Err(ParseError::MalformedDmsFormat { field })
}

#[test]
fn latitude_in_degrees_minutes_seconds() {
    assert_eq!(parse_angle("15°13'12.1252\"N", Axis::Latitude), Ok(54_792_125_200_000));
}

#[test]
fn longitude_in_degrees_minutes_seconds() {
    assert_eq!(parse_angle("100 12 12.3256 E", Axis::Longitude), Ok(360_732_325_600_000));
}

#[test]
fn spaces_and_marks_divide_alike() {
    let a = parse_angle("15 13 12.1252 N", Axis::Latitude);
    let b = parse_angle("15°13'12.1252\"N", Axis::Latitude);
    assert_eq!(a, b);
    assert_eq!(a, Ok(54_792_125_200_000));
}

#[test]
fn latitude_beyond_the_pole_is_out_of_range() {
    assert_eq!(parse_angle("95N", Axis::Latitude), out_of_range(Field::Latitude));
}

#[test]
fn empty_latitude_is_an_empty_field() {
    assert_eq!(parse_angle("", Axis::Latitude), empty(Field::Latitude));
}

#[test]
fn field_without_a_number_is_an_empty_field() {
    assert_eq!(parse_angle("   ", Axis::Latitude), empty(Field::Latitude));
    assert_eq!(parse_angle("N", Axis::Latitude), empty(Field::Latitude));
    assert_eq!(parse_angle(" W ", Axis::Longitude), empty(Field::Longitude));
    assert_eq!(parse_angle("°", Axis::Longitude), empty(Field::Longitude));
    assert_eq!(parse_angle("S ° ' \"", Axis::Latitude), empty(Field::Latitude));
}

#[test]
fn decimal_degrees() {
    assert_eq!(parse_angle("40.446", Axis::Latitude), Ok(145_605_600_000_000));
    assert_eq!(parse_angle("40.446°", Axis::Latitude), Ok(145_605_600_000_000));
    assert_eq!(parse_angle("79.982° W", Axis::Longitude), Ok(-287_935_200_000_000));
    assert_eq!(parse_angle("0.5", Axis::Longitude), Ok(1_800_000_000_000));
}

#[test]
fn degrees_and_decimal_minutes() {
    assert_eq!(parse_angle("40° 26.767' N", Axis::Latitude), Ok(145_606_020_000_000));
    assert_eq!(parse_angle("S 40 26.767", Axis::Latitude), Ok(-145_606_020_000_000));
    assert_eq!(parse_angle("0 30", Axis::Latitude), Ok(1_800_000_000_000));
}

#[test]
fn hemisphere_letter_in_front() {
    assert_eq!(
        parse_angle("N 40\u{B0} 26\u{2032} 46\u{2033}", Axis::Latitude),
        Ok(145_606_000_000_000)
    );
    assert_eq!(
        parse_angle("W79\u{B0}58\u{2019}56\u{201D}", Axis::Longitude),
        Ok(-287_936_000_000_000)
    );
}

#[test]
fn south_and_west_turn_the_sign() {
    assert_eq!(parse_angle("15 N", Axis::Latitude), Ok(54_000_000_000_000));
    assert_eq!(parse_angle("15 S", Axis::Latitude), Ok(-54_000_000_000_000));
    assert_eq!(parse_angle("15 E", Axis::Longitude), Ok(54_000_000_000_000));
    assert_eq!(parse_angle("15 W", Axis::Longitude), Ok(-54_000_000_000_000));
}

#[test]
fn a_written_sign_is_kept_or_turned() {
    assert_eq!(parse_angle("-15", Axis::Latitude), Ok(-54_000_000_000_000));
    assert_eq!(parse_angle("+15", Axis::Latitude), Ok(54_000_000_000_000));
    assert_eq!(parse_angle("-15 N", Axis::Latitude), Ok(-54_000_000_000_000));
    assert_eq!(parse_angle("-15 S", Axis::Latitude), Ok(54_000_000_000_000));
    assert_eq!(parse_angle("-0 30", Axis::Latitude), Ok(-1_800_000_000_000));
    assert_eq!(parse_angle("-0", Axis::Latitude), Ok(0));
}

#[test]
fn letter_of_the_other_axis_is_no_number() {
    assert_eq!(parse_angle("95N", Axis::Longitude), not_numeric(Field::Longitude, "95N"));
    assert_eq!(parse_angle("15 E", Axis::Latitude), not_numeric(Field::Latitude, "E"));
    assert_eq!(parse_angle("n 15", Axis::Latitude), not_numeric(Field::Latitude, "n"));
}

#[test]
fn second_hemisphere_letter_is_no_number() {
    assert_eq!(parse_angle("N 15 S", Axis::Latitude), not_numeric(Field::Latitude, "S"));
}

#[test]
fn first_unreadable_part_is_named() {
    assert_eq!(parse_angle("abc", Axis::Latitude), not_numeric(Field::Latitude, "abc"));
    assert_eq!(parse_angle("15 x3 y4", Axis::Latitude), not_numeric(Field::Latitude, "x3"));
    assert_eq!(parse_angle("1.2.3", Axis::Latitude), not_numeric(Field::Latitude, "1.2.3"));
    assert_eq!(parse_angle("+", Axis::Latitude), not_numeric(Field::Latitude, "+"));
    assert_eq!(parse_angle(".", Axis::Latitude), not_numeric(Field::Latitude, "."));
    assert_eq!(parse_angle("15,5", Axis::Latitude), not_numeric(Field::Latitude, "15,5"));
    assert_eq!(parse_angle("1e1", Axis::Latitude), not_numeric(Field::Latitude, "1e1"));
    assert_eq!(parse_angle("1 2 3 4 z", Axis::Latitude), not_numeric(Field::Latitude, "z"));
}

#[test]
fn more_than_three_numbers_are_malformed() {
    assert_eq!(parse_angle("1 2 3 4", Axis::Latitude), malformed(Field::Latitude));
}

#[test]
fn point_before_the_last_number_is_malformed() {
    assert_eq!(parse_angle("15.5 13 N", Axis::Latitude), malformed(Field::Latitude));
    assert_eq!(parse_angle("15 13.5 12", Axis::Longitude), malformed(Field::Longitude));
    assert_eq!(parse_angle("15. 13", Axis::Longitude), malformed(Field::Longitude));
}

#[test]
fn sign_behind_the_first_number_is_malformed() {
    assert_eq!(parse_angle("15 -13", Axis::Latitude), malformed(Field::Latitude));
    assert_eq!(parse_angle("15 13 +12", Axis::Latitude), malformed(Field::Latitude));
}

#[test]
fn minutes_and_seconds_stay_below_a_hundred() {
    assert_eq!(parse_angle("15 99 99", Axis::Latitude), Ok(60_039_000_000_000));
    assert_eq!(parse_angle("15 100 0", Axis::Latitude), malformed(Field::Latitude));
    assert_eq!(parse_angle("15 13 100", Axis::Latitude), malformed(Field::Latitude));
    assert_eq!(parse_angle("15 99.999999999", Axis::Latitude), Ok(59_999_999_999_940));
}

#[test]
fn the_limits_themselves_are_in_range() {
    assert_eq!(parse_angle("90", Axis::Latitude), Ok(324_000_000_000_000));
    assert_eq!(parse_angle("-90", Axis::Latitude), Ok(-324_000_000_000_000));
    assert_eq!(parse_angle("90 S", Axis::Latitude), Ok(-324_000_000_000_000));
    assert_eq!(parse_angle("180", Axis::Longitude), Ok(648_000_000_000_000));
    assert_eq!(parse_angle("180 W", Axis::Longitude), Ok(-648_000_000_000_000));
    assert_eq!(parse_angle("89 59 60", Axis::Latitude), Ok(324_000_000_000_000));
}

#[test]
fn a_billionth_beyond_the_limit_is_out_of_range() {
    assert_eq!(parse_angle("90 0 0.000000001", Axis::Latitude), out_of_range(Field::Latitude));
    assert_eq!(parse_angle("90.000000001", Axis::Latitude), out_of_range(Field::Latitude));
    assert_eq!(parse_angle("-90.000000001", Axis::Latitude), out_of_range(Field::Latitude));
    assert_eq!(parse_angle("180.000000001", Axis::Longitude), out_of_range(Field::Longitude));
    assert_eq!(parse_angle("180 0.000000001 W", Axis::Longitude), out_of_range(Field::Longitude));
    assert_eq!(parse_angle("90.5", Axis::Longitude), Ok(325_800_000_000_000));
}

#[test]
fn a_dropped_digit_beyond_the_limit_is_out_of_range() {
    assert_eq!(parse_angle("90.0000000009", Axis::Latitude), out_of_range(Field::Latitude));
    assert_eq!(parse_angle("90.00000000000000000001 S", Axis::Latitude), out_of_range(Field::Latitude));
    assert_eq!(parse_angle("90 0 0.0000000001", Axis::Latitude), out_of_range(Field::Latitude));
    assert_eq!(parse_angle("179 60.0000000001", Axis::Longitude), out_of_range(Field::Longitude));
    assert_eq!(parse_angle("90.0000000000", Axis::Latitude), Ok(324_000_000_000_000));
    assert_eq!(parse_angle("90.00000000000000000000", Axis::Latitude), Ok(324_000_000_000_000));
    assert_eq!(parse_angle("-180.000000000000", Axis::Longitude), Ok(-648_000_000_000_000));
    assert_eq!(parse_angle("179 59 60.0000000000", Axis::Longitude), Ok(648_000_000_000_000));
}

#[test]
fn very_large_degrees_are_out_of_range() {
    assert_eq!(parse_angle("181", Axis::Longitude), out_of_range(Field::Longitude));
    assert_eq!(parse_angle("1000", Axis::Longitude), out_of_range(Field::Longitude));
    assert_eq!(
        parse_angle("123456789012345678901234567890", Axis::Longitude),
        out_of_range(Field::Longitude)
    );
    assert_eq!(
        parse_angle("15 123456789012345678901234567890", Axis::Longitude),
        malformed(Field::Longitude)
    );
}

#[test]
fn digits_beyond_the_ninth_are_dropped() {
    assert_eq!(parse_angle("0.0000000019", Axis::Latitude), Ok(3_600));
    assert_eq!(parse_angle("89.9999999999999", Axis::Latitude), Ok(323_999_999_996_400));
    assert_eq!(parse_angle("15.220034777777778", Axis::Latitude), Ok(54_792_125_197_200));
}

#[test]
fn leading_zeros_do_not_count() {
    assert_eq!(parse_angle("0015 013 012", Axis::Latitude), Ok(54_792_000_000_000));
}

#[test]
fn spaces_around_the_text_are_ignored() {
    assert_eq!(parse_angle("  15 N\t", Axis::Latitude), Ok(54_000_000_000_000));
    assert_eq!(parse_angle("\u{A0}15\u{A0}N\n", Axis::Latitude), Ok(54_000_000_000_000));
    assert_eq!(parse_angle(" S15 ", Axis::Latitude), Ok(-54_000_000_000_000));
}
