//! Geodetic and Earth-centred, Earth-fixed coordinates on the WGS84
//! ellipsoid, read from text and held in exact integer units.
//!
//! Angles are counted in billionths of an arcsecond and lengths in
//! billionths of a metre, so that reading, range checks and writing are
//! exact. The trigonometry of the conversions themselves is left to the
//! caller; this library reads and validates their input, writes their
//! output, settles what holds on the polar axis, and runs the refinement of
//! the latitude within a fixed count of steps.
//!
//! - `text`: character classes, trimming and tokens
//! - `decimal`: plain decimal numbers
//! - `parser`: angles and lengths
//! - `coordinate`: validated positions and the reading of whole triples
//! - `error`: refusals and their messages
//! - `render`: writing with a fixed count of digits
//! - `refinement`: the polar axis and the bounded refinement
//! - `laws`: what holds of reading and writing together

pub mod coordinate;
pub mod decimal;
pub mod error;
pub mod laws;
pub mod parser;
pub mod refinement;
pub mod render;
pub mod text;
