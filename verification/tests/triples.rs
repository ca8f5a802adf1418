use geo_ecef::coordinate::{
    parse_ecef_input, parse_geodetic_input, parse_input, ConversionDirection, EcefCoordinate,
    GeodeticCoordinate, Position,
};
use geo_ecef::error::{Field, ParseError};

#[test]
fn example_position_is_read_exactly() {
    let c = parse_geodetic_input("15°13'12.1252\"N", "100 12 12.3256 E", "5.202").unwrap();
    assert_eq!(c.latitude(), 54_792_125_200_000);
    assert_eq!(c.longitude(), 360_732_325_600_000);
    assert_eq!(c.height(), 5_202_000_000);
}

#[test]
fn example_position_in_degrees() {
    let c = parse_geodetic_input("15°13'12.1252\"N", "100 12 12.3256 E", "5.202").unwrap();
    let lat = c.latitude() as f64 / 3.6e12;
    let lon = c.longitude() as f64 / 3.6e12;
    let h = c.height() as f64 / 1e9;
    assert!((lat - (15.0 + 13.0 / 60.0 + 12.1252 / 3600.0)).abs() < 1e-12);
    assert!((lon - (100.0 + 12.0 / 60.0 + 12.3256 / 3600.0)).abs() < 1e-12);
    assert!((h - 5.202).abs() < 1e-12);
}

#[test]
fn example_ecef_position_is_read_exactly() {
    let c = parse_ecef_input("-1070053.3249", "6068573.9676", "1640100.7872").unwrap();
    assert_eq!(c.x(), -1_070_053_324_900_000);
    assert_eq!(c.y(), 6_068_573_967_600_000);
    assert_eq!(c.z(), 1_640_100_787_200_000);
}

#[test]
fn latitude_is_looked_at_before_longitude_and_height() {
    assert_eq!(
        parse_geodetic_input("95N", "200E", "x"),
        Err(ParseError::OutOfRangeValue { field: Field::Latitude })
    );
    assert_eq!(
        parse_geodetic_input("", "200E", "x"),
        Err(ParseError::EmptyOrMalformedField { field: Field::Latitude })
    );
}

#[test]
fn longitude_is_looked_at_before_height() {
    assert_eq!(
        parse_geodetic_input("45N", "200E", "x"),
        Err(ParseError::OutOfRangeValue { field: Field::Longitude })
    );
    assert_eq!(
        parse_geodetic_input("45N", "1 2 3 4", ""),
        Err(ParseError::MalformedDmsFormat { field: Field::Longitude })
    );
}

#[test]
fn height_is_looked_at_last() {
    assert_eq!(
        parse_geodetic_input("45N", "100E", "x"),
        Err(ParseError::NumericParseFailure { field: Field::Height, text: "x".to_string() })
    );
    assert_eq!(
        parse_geodetic_input("45N", "100E", ""),
        Err(ParseError::EmptyOrMalformedField { field: Field::Height })
    );
}

#[test]
fn ecef_fields_are_read_second_axis_first() {
    assert_eq!(
        parse_ecef_input("a", "b", "c"),
        Err(ParseError::NumericParseFailure { field: Field::Y, text: "b".to_string() })
    );
    assert_eq!(
        parse_ecef_input("a", "1", "c"),
        Err(ParseError::NumericParseFailure { field: Field::X, text: "a".to_string() })
    );
    assert_eq!(
        parse_ecef_input("1", "1", "c"),
        Err(ParseError::NumericParseFailure { field: Field::Z, text: "c".to_string() })
    );
    assert_eq!(
        parse_ecef_input("", "", ""),
        Err(ParseError::EmptyOrMalformedField { field: Field::Y })
    );
}

#[test]
fn ecef_has_no_range_of_its_own() {
    let c = parse_ecef_input("123456789012", "-987654321098.5", "0").unwrap();
    assert_eq!(c.x(), 123_456_789_012_000_000_000);
    assert_eq!(c.y(), -987_654_321_098_500_000_000);
    assert_eq!(c.z(), 0);
}

#[test]
fn direction_selects_the_reading() {
    let g = parse_input(ConversionDirection::Geo2Ecef, "100 12 12.3256 E", "15 N", "5.202");
    match g {
        Ok(Position::Geodetic(c)) => {
            assert_eq!(c.latitude(), 54_000_000_000_000);
            assert_eq!(c.longitude(), 360_732_325_600_000);
            assert_eq!(c.height(), 5_202_000_000);
        }
        other => panic!("{:?}", other),
    }
    let e = parse_input(ConversionDirection::Ecef2Geo, "1", "2", "3");
    assert_eq!(e, Ok(Position::Ecef(EcefCoordinate::new(1_000_000_000, 2_000_000_000, 3_000_000_000).unwrap())));
}

#[test]
fn direction_keeps_the_order_of_refusals() {
    assert_eq!(
        parse_input(ConversionDirection::Geo2Ecef, "200E", "95N", "x"),
        Err(ParseError::OutOfRangeValue { field: Field::Latitude })
    );
    assert_eq!(
        parse_input(ConversionDirection::Ecef2Geo, "a", "b", "c"),
        Err(ParseError::NumericParseFailure { field: Field::Y, text: "b".to_string() })
    );
    assert_eq!(
        parse_input(ConversionDirection::Geo2Ecef, "15 E", "15 E", "0"),
        Err(ParseError::NumericParseFailure { field: Field::Latitude, text: "E".to_string() })
    );
}

#[test]
fn geodetic_position_from_numbers() {
    let c = GeodeticCoordinate::new(-324_000_000_000_000, 648_000_000_000_000, -5).unwrap();
    assert_eq!(c.latitude(), -324_000_000_000_000);
    assert_eq!(c.longitude(), 648_000_000_000_000);
    assert_eq!(c.height(), -5);
    assert_eq!(GeodeticCoordinate::new(324_000_000_000_001, 0, 0), None);
    assert_eq!(GeodeticCoordinate::new(-324_000_000_000_001, 0, 0), None);
    assert_eq!(GeodeticCoordinate::new(0, 648_000_000_000_001, 0), None);
    assert_eq!(GeodeticCoordinate::new(0, -648_000_000_000_001, 0), None);
    assert_eq!(GeodeticCoordinate::new(0, 0, 1_000_000_000_000_000_000_000_000_000), None);
    assert!(GeodeticCoordinate::new(0, 0, 999_999_999_999_999_999_999_999_999).is_some());
}

#[test]
fn ecef_position_from_numbers() {
    let c = EcefCoordinate::new(1, -2, 3).unwrap();
    assert_eq!((c.x(), c.y(), c.z()), (1, -2, 3));
    assert_eq!(EcefCoordinate::new(1_000_000_000_000_000_000_000_000_000, 0, 0), None);
    assert_eq!(EcefCoordinate::new(0, -1_000_000_000_000_000_000_000_000_000, 0), None);
    assert_eq!(EcefCoordinate::new(0, 0, i128::MIN), None);
    assert!(EcefCoordinate::new(0, 0, -999_999_999_999_999_999_999_999_999).is_some());
}

#[test]
fn refusals_name_their_field() {
    assert_eq!(ParseError::OutOfRangeValue { field: Field::Longitude }.field(), Field::Longitude);
    assert_eq!(
        ParseError::NumericParseFailure { field: Field::Z, text: "q".to_string() }.field(),
        Field::Z
    );
    assert_eq!(ParseError::EmptyOrMalformedField { field: Field::X }.field(), Field::X);
    assert_eq!(ParseError::MalformedDmsFormat { field: Field::Latitude }.field(), Field::Latitude);
}

#[test]
fn refusals_are_told_in_words() {
    assert_eq!(
        ParseError::EmptyOrMalformedField { field: Field::Latitude }.message(),
        "latitude is empty or holds no number"
    );
    assert_eq!(
        ParseError::NumericParseFailure { field: Field::Height, text: "5m".to_string() }.message(),
        "height: \"5m\" is not a plain decimal number that can be held"
    );
    assert_eq!(
        ParseError::OutOfRangeValue { field: Field::Longitude }.message(),
        "longitude is out of range"
    );
    assert_eq!(
        ParseError::MalformedDmsFormat { field: Field::Latitude }.message(),
        "latitude is not made up of degrees, minutes and seconds"
    );
    assert_eq!(
        parse_ecef_input("1", "2", "").unwrap_err().message(),
        "z is empty or holds no number"
    );
    assert_eq!(
        parse_ecef_input("x1", "2", "").unwrap_err().message(),
        "x: \"x1\" is not a plain decimal number that can be held"
    );
    assert_eq!(
        parse_ecef_input("1", "y", "").unwrap_err().message(),
        "y: \"y\" is not a plain decimal number that can be held"
    );
}
