//! Validated coordinates in exact units, and the reading of whole triples.
//!
//! Angles are counted in billionths of an arcsecond, north and east upwards;
//! lengths in billionths of a metre.

use crate::error::{Failure, Field, ParseError};
use crate::parser::{
    angle_of, length_of, parse_angle, parse_length, Axis, LATITUDE_LIMIT, LENGTH_LIMIT,
    LONGITUDE_LIMIT,
};
use vstd::prelude::*;

verus! {

/// Which way a conversion goes.
#[derive(Clone, Copy, Debug, PartialEq, Eq, Structural)]
pub enum ConversionDirection {
    Geo2Ecef,
    Ecef2Geo,
}

/// A position by latitude, longitude and height above the ellipsoid.
#[derive(Clone, Copy, Debug, PartialEq, Eq)]
pub struct GeodeticCoordinate {
    latitude: i64,
    longitude: i64,
    height: i128,
}

/// A geodetic position as contracts speak of it.
pub struct GeodeticView {
    pub latitude: int,
    pub longitude: int,
    pub height: int,
}

/// A position by its distances from the Earth's centre along three axes.
#[derive(Clone, Copy, Debug, PartialEq, Eq)]
pub struct EcefCoordinate {
    x: i128,
    y: i128,
    z: i128,
}

/// An Earth-centred position as contracts speak of it.
pub struct EcefView {
    pub x: int,
    pub y: int,
    pub z: int,
}

/// Whether `n` is the size of a length that can be held.
pub open spec fn is_length(n: int) -> bool {
    -LENGTH_LIMIT < n < LENGTH_LIMIT
}

/// Whether the three numbers make up a geodetic position: the latitude
/// within a quarter turn of the equator, the longitude within a half turn of
/// the prime meridian.
pub open spec fn is_geodetic(v: GeodeticView) -> bool {
    &&& -LATITUDE_LIMIT <= v.latitude <= LATITUDE_LIMIT
    &&& -LONGITUDE_LIMIT <= v.longitude <= LONGITUDE_LIMIT
    &&& is_length(v.height)
}

/// Whether the three numbers make up an Earth-centred position.
pub open spec fn is_ecef(v: EcefView) -> bool {
    is_length(v.x) && is_length(v.y) && is_length(v.z)
}

impl View for GeodeticCoordinate {
    type V = GeodeticView;

    closed spec fn view(&self) -> GeodeticView {
        GeodeticView {
            latitude: self.latitude as int,
            longitude: self.longitude as int,
            height: self.height as int,
        }
    }
}

impl View for EcefCoordinate {
    type V = EcefView;

    closed spec fn view(&self) -> EcefView {
        EcefView { x: self.x as int, y: self.y as int, z: self.z as int }
    }
}

impl GeodeticCoordinate {
    #[verifier::type_invariant]
    spec fn wf(self) -> bool {
        is_geodetic(self@)
    }

    /// The position with the given latitude and longitude, in billionths of
    /// an arcsecond, and height, in billionths of a metre; none where one of
    /// them is out of range.
    pub fn new(latitude: i64, longitude: i64, height: i128) -> (r: Option<GeodeticCoordinate>)
        ensures
            r is Some <==> is_geodetic(
                (GeodeticView {
                    latitude: latitude as int,
                    longitude: longitude as int,
                    height: height as int,
                }),
            ),
            r is Some ==> r.unwrap()@ == (GeodeticView {
                latitude: latitude as int,
                longitude: longitude as int,
                height: height as int,
            }),
    {
        if -LATITUDE_LIMIT <= latitude && latitude <= LATITUDE_LIMIT && -LONGITUDE_LIMIT
            <= longitude && longitude <= LONGITUDE_LIMIT && -LENGTH_LIMIT < height && height
            < LENGTH_LIMIT {
            Some(GeodeticCoordinate { latitude, longitude, height })
        } else {
            None
        }
    }

    /// The latitude in billionths of an arcsecond, north upwards.
    pub fn latitude(&self) -> (r: i64)
        ensures
            r == self@.latitude,
            is_geodetic(self@),
    {
        proof {
            use_type_invariant(self);
        }
        self.latitude
    }

    /// The longitude in billionths of an arcsecond, east upwards.
    pub fn longitude(&self) -> (r: i64)
        ensures
            r == self@.longitude,
            is_geodetic(self@),
    {
        proof {
            use_type_invariant(self);
        }
        self.longitude
    }

    /// The height above the ellipsoid in billionths of a metre.
    pub fn height(&self) -> (r: i128)
        ensures
            r == self@.height,
            is_geodetic(self@),
    {
        proof {
            use_type_invariant(self);
        }
        self.height
    }
}

impl EcefCoordinate {
    #[verifier::type_invariant]
    spec fn wf(self) -> bool {
        is_ecef(self@)
    }

    /// The position with the given distances, in billionths of a metre; none
    /// where one of them is too large to be held.
    pub fn new(x: i128, y: i128, z: i128) -> (r: Option<EcefCoordinate>)
        ensures
            r is Some <==> is_ecef((EcefView { x: x as int, y: y as int, z: z as int })),
            r is Some ==> r.unwrap()@ == (EcefView { x: x as int, y: y as int, z: z as int }),
    {
        if -LENGTH_LIMIT < x && x < LENGTH_LIMIT && -LENGTH_LIMIT < y && y < LENGTH_LIMIT
            && -LENGTH_LIMIT < z && z < LENGTH_LIMIT {
            Some(EcefCoordinate { x, y, z })
        } else {
            None
        }
    }

    /// The distance along the first axis in billionths of a metre.
    pub fn x(&self) -> (r: i128)
        ensures
            r == self@.x,
            is_ecef(self@),
    {
        proof {
            use_type_invariant(self);
        }
        self.x
    }

    /// The distance along the second axis in billionths of a metre.
    pub fn y(&self) -> (r: i128)
        ensures
            r == self@.y,
            is_ecef(self@),
    {
        proof {
            use_type_invariant(self);
        }
        self.y
    }

    /// The distance along the polar axis in billionths of a metre, north
    /// upwards.
    pub fn z(&self) -> (r: i128)
        ensures
            r == self@.z,
            is_ecef(self@),
    {
        proof {
            use_type_invariant(self);
        }
        self.z
    }
}

/// What three texts denote as latitude, longitude and height, or the
/// refusal of the first of them, in that order, that denotes nothing.
pub open spec fn geodetic_of(
    lat_text: Seq<char>,
    lon_text: Seq<char>,
    height_text: Seq<char>,
) -> Result<GeodeticView, Failure> {
    match angle_of(lat_text, Axis::Latitude) {
        Err(e) => Err(e),
        Ok(latitude) => match angle_of(lon_text, Axis::Longitude) {
            Err(e) => Err(e),
            Ok(longitude) => match length_of(height_text, Field::Height) {
                Err(e) => Err(e),
                Ok(height) => Ok(GeodeticView { latitude, longitude, height }),
            },
        },
    }
}

/// What three texts denote as distances along the three axes, or the refusal
/// of the first of them that denotes nothing, the second axis looked at
/// before the first.
pub open spec fn ecef_of(x_text: Seq<char>, y_text: Seq<char>, z_text: Seq<char>) -> Result<
    EcefView,
    Failure,
> {
    match length_of(y_text, Field::Y) {
        Err(e) => Err(e),
        Ok(y) => match length_of(x_text, Field::X) {
            Err(e) => Err(e),
            Ok(x) => match length_of(z_text, Field::Z) {
                Err(e) => Err(e),
                Ok(z) => Ok(EcefView { x, y, z }),
            },
        },
    }
}

/// Reads a geodetic position from the texts of its three fields.
pub fn parse_geodetic_input(lat_text: &str, lon_text: &str, height_text: &str) -> (r: Result<
    GeodeticCoordinate,
    ParseError,
>)
    ensures
        match r {
            Ok(c) => geodetic_of(lat_text@, lon_text@, height_text@) == Ok::<GeodeticView, Failure>(
                c@,
            ),
            Err(e) => geodetic_of(lat_text@, lon_text@, height_text@) == Err::<
                GeodeticView,
                Failure,
            >(e@),
        },
{
    let latitude = match parse_angle(lat_text, Axis::Latitude) {
        Err(e) => {
            return Err(e);
        },
        Ok(v) => v,
    };
    let longitude = match parse_angle(lon_text, Axis::Longitude) {
        Err(e) => {
            return Err(e);
        },
        Ok(v) => v,
    };
    let height = match parse_length(height_text, Field::Height) {
        Err(e) => {
            return Err(e);
        },
        Ok(v) => v,
    };
    Ok(GeodeticCoordinate { latitude, longitude, height })
}

/// Reads an Earth-centred position from the texts of its three fields.
pub fn parse_ecef_input(x_text: &str, y_text: &str, z_text: &str) -> (r: Result<
    EcefCoordinate,
    ParseError,
>)
    ensures
        match r {
            Ok(c) => ecef_of(x_text@, y_text@, z_text@) == Ok::<EcefView, Failure>(c@),
            Err(e) => ecef_of(x_text@, y_text@, z_text@) == Err::<EcefView, Failure>(e@),
        },
{
    let y = match parse_length(y_text, Field::Y) {
        Err(e) => {
            return Err(e);
        },
        Ok(v) => v,
    };
    let x = match parse_length(x_text, Field::X) {
        Err(e) => {
            return Err(e);
        },
        Ok(v) => v,
    };
    let z = match parse_length(z_text, Field::Z) {
        Err(e) => {
            return Err(e);
        },
        Ok(v) => v,
    };
    Ok(EcefCoordinate { x, y, z })
}

/// A position of either kind.
#[derive(Clone, Copy, Debug, PartialEq, Eq)]
pub enum Position {
    Geodetic(GeodeticCoordinate),
    Ecef(EcefCoordinate),
}

/// A position of either kind as contracts speak of it.
pub enum PositionView {
    Geodetic(GeodeticView),
    Ecef(EcefView),
}

impl View for Position {
    type V = PositionView;

    open spec fn view(&self) -> PositionView {
        match *self {
            Position::Geodetic(c) => PositionView::Geodetic(c@),
            Position::Ecef(c) => PositionView::Ecef(c@),
        }
    }
}

/// What the texts of the three input fields denote as the position to
/// convert from. For a geodetic position the first field holds the
/// longitude, the second the latitude and the third the height.
pub open spec fn input_of(
    direction: ConversionDirection,
    first: Seq<char>,
    second: Seq<char>,
    third: Seq<char>,
) -> Result<PositionView, Failure> {
    match direction {
        ConversionDirection::Geo2Ecef => match geodetic_of(second, first, third) {
            Ok(c) => Ok(PositionView::Geodetic(c)),
            Err(e) => Err(e),
        },
        ConversionDirection::Ecef2Geo => match ecef_of(first, second, third) {
            Ok(c) => Ok(PositionView::Ecef(c)),
            Err(e) => Err(e),
        },
    }
}

/// Reads the position to convert from out of the three input fields.
pub fn parse_input(
    direction: ConversionDirection,
    first: &str,
    second: &str,
    third: &str,
) -> (r: Result<Position, ParseError>)
    ensures
        match r {
            Ok(p) => input_of(direction, first@, second@, third@) == Ok::<PositionView, Failure>(
                p@,
            ),
            Err(e) => input_of(direction, first@, second@, third@) == Err::<
                PositionView,
                Failure,
            >(e@),
        },
{
    match direction {
        ConversionDirection::Geo2Ecef => match parse_geodetic_input(second, first, third) {
            Ok(c) => Ok(Position::Geodetic(c)),
            Err(e) => Err(e),
        },
        ConversionDirection::Ecef2Geo => match parse_ecef_input(first, second, third) {
            Ok(c) => Ok(Position::Ecef(c)),
            Err(e) => Err(e),
        },
    }
}

} // verus!
