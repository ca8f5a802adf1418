use geo_ecef::parser::{parse_angle, Axis};

fn degrees(v: i64) -> f64 {
    v as f64 / 3.6e12
}

#[test]
fn latitudes_agree_with_the_latlon_crate() {
    let texts = [
        "15°13'12.1252\"N",
        "15 13 12.1252 N",
        "40° 26′ 46″ N",
        "N 40° 26′ 46″",
        "40° 26.767' N",
        "N 40° 26.767'",
        "40° 26.767'",
        "N 40.446°",
        "40.446° N",
        "40.446°",
        "40.446",
        "-40.446",
        "S 40.446",
        "-40.446 S",
        "  89 59 59.999 S ",
        "90",
        "0",
        "12 75 80.5",
    ];
    for text in texts {
        let ours = degrees(parse_angle(text, Axis::Latitude).unwrap());
        let theirs = latlon::parse_lat(text).unwrap();
        assert!((ours - theirs).abs() < 1e-12, "{}: {} and {}", text, ours, theirs);
    }
}

#[test]
fn longitudes_agree_with_the_latlon_crate() {
    let texts = [
        "100 12 12.3256 E",
        "79° 58′ 56″ W",
        "W 79° 58′ 56″",
        "79° 58.933' W",
        "W 79° 58.933'",
        "E 79.982°",
        "79.982° W",
        "-79.982",
        "180",
        "-180",
        "179 59 59.9",
        "-179 59 59.9 E",
    ];
    for text in texts {
        let ours = degrees(parse_angle(text, Axis::Longitude).unwrap());
        let theirs = latlon::parse_lng(text).unwrap();
        assert!((ours - theirs).abs() < 1e-12, "{}: {} and {}", text, ours, theirs);
    }
}

#[test]
fn refusals_agree_with_the_latlon_crate() {
    let latitudes = ["", "   ", "N", "95N", "90.000001", "abc", "15 E", "1 2 3 4", "15 -13", "15.5 13", "15 100"];
    for text in latitudes {
        assert!(parse_angle(text, Axis::Latitude).is_err(), "{}", text);
        assert!(latlon::parse_lat(text).is_err(), "{}", text);
    }
    let longitudes = ["", "S 10", "181", "180 0 1", "12a", "1 2 3 4 W"];
    for text in longitudes {
        assert!(parse_angle(text, Axis::Longitude).is_err(), "{}", text);
        assert!(latlon::parse_lng(text).is_err(), "{}", text);
    }
}

fn check_latitude(text: &str) {
    let ours = degrees(parse_angle(text, Axis::Latitude).unwrap());
    let theirs = latlon::parse_lat(text).unwrap();
    assert!((ours - theirs).abs() < 1e-11, "{}: {} and {}", text, ours, theirs);
}

fn check_longitude(text: &str) {
    let ours = degrees(parse_angle(text, Axis::Longitude).unwrap());
    let theirs = latlon::parse_lng(text).unwrap();
    assert!((ours - theirs).abs() < 1e-11, "{}: {} and {}", text, ours, theirs);
}

#[test]
fn many_latitudes_agree_with_the_latlon_crate() {
    let mut count = 0;
    for d in [0, 1, 9, 15, 45, 60, 89] {
        for m in [0, 1, 13, 30, 59] {
            for s in ["0", "1", "12.1252", "30.5", "59.999999"] {
                for letter in ["N", "S"] {
                    check_latitude(&format!("{}°{}'{}\"{}", d, m, s, letter));
                    check_latitude(&format!("{} {} {} {}", d, m, s, letter));
                    check_latitude(&format!("{}° {}′ {}″ {}", d, m, s, letter));
                    check_latitude(&format!("{} {}° {}′ {}″", letter, d, m, s));
                    check_latitude(&format!("{}{} {} {}", letter, d, m, s));
                    count += 5;
                }
                check_latitude(&format!("{} {} {}", d, m, s));
                check_latitude(&format!("-{} {} {}", d.max(1), m, s));
                count += 2;
            }
            check_latitude(&format!("{}° {}.767' N", d, m));
            check_latitude(&format!("S {} {}.5", d, m));
            check_latitude(&format!("-{} {}.25", d.max(1), m));
            count += 3;
        }
        check_latitude(&format!("{}.446° N", d));
        check_latitude(&format!("S {}.446", d));
        check_latitude(&format!("-{}.123456789", d));
        check_latitude(&format!("{}", d));
        count += 4;
    }
    assert_eq!(count, 7 * (5 * (5 * 12 + 3) + 4));
}

#[test]
fn many_longitudes_agree_with_the_latlon_crate() {
    for d in [0, 7, 79, 100, 120, 179] {
        for m in [0, 12, 58, 59] {
            for s in ["0", "12.3256", "56", "59.9"] {
                for letter in ["E", "W"] {
                    check_longitude(&format!("{}°{}'{}\"{}", d, m, s, letter));
                    check_longitude(&format!("{} {} {} {}", d, m, s, letter));
                    check_longitude(&format!("{} {}° {}’ {}”", letter, d, m, s));
                }
                check_longitude(&format!("-{} {} {}", d.max(1), m, s));
            }
            check_longitude(&format!("{}° {}.933' W", d, m));
            check_longitude(&format!("E {} {}.5", d, m));
        }
        check_longitude(&format!("{}.982° W", d));
        check_longitude(&format!("-{}.5", d));
    }
}

#[test]
fn texts_that_are_read_otherwise_than_by_the_latlon_crate() {
    // A plus sign, leading zeros and marks in any place are read here.
    for text in ["+15", "0015", "15 ' 13 ° 12", "15°13\"12'N", "1 100000000000000000000"] {
        assert!(latlon::parse_lat(text).is_err(), "{}", text);
    }
    assert_eq!(parse_angle("+15", Axis::Latitude), Ok(54_000_000_000_000));
    assert_eq!(parse_angle("0015", Axis::Latitude), Ok(54_000_000_000_000));
    assert_eq!(parse_angle("15 ' 13 ° 12", Axis::Latitude), Ok(54_792_000_000_000));
    assert_eq!(parse_angle("15°13\"12'N", Axis::Latitude), Ok(54_792_000_000_000));
    // A minus sign turns the whole angle here, also where the degrees are zero.
    assert_eq!(latlon::parse_lat("-0 30 0").unwrap(), 0.5);
    assert_eq!(parse_angle("-0 30 0", Axis::Latitude), Ok(-1_800_000_000_000));
    // A comma is no decimal point here.
    assert_eq!(latlon::parse_lat("15,5").unwrap(), 15.5);
    assert!(parse_angle("15,5", Axis::Latitude).is_err());
}
