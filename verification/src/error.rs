//! Why a piece of coordinate text was refused.

use vstd::prelude::*;
use vstd::string::StringExecFns;

verus! {

/// The input field that a text was entered in.
#[derive(Clone, Copy, Debug, PartialEq, Eq, Structural)]
pub enum Field {
    Latitude,
    Longitude,
    Height,
    X,
    Y,
    Z,
}

/// A refusal of one input field.
#[derive(Debug, PartialEq, Eq)]
pub enum ParseError {
    /// The field is empty, or holds no number at all.
    EmptyOrMalformedField { field: Field },
    /// `text`, a part of the field, is no plain decimal number, or is one too
    /// large to be held.
    NumericParseFailure { field: Field, text: String },
    /// The angle lies beyond the range of its axis.
    OutOfRangeValue { field: Field },
    /// The numbers of the field do not make up degrees, minutes and seconds.
    MalformedDmsFormat { field: Field },
}

/// A refusal as contracts speak of it, the offending text as a sequence of
/// characters.
pub enum Failure {
    Empty(Field),
    NotNumeric(Field, Seq<char>),
    OutOfRange(Field),
    MalformedDms(Field),
}

impl View for ParseError {
    type V = Failure;

    open spec fn view(&self) -> Failure {
        match *self {
            ParseError::EmptyOrMalformedField { field } => Failure::Empty(field),
            ParseError::NumericParseFailure { field, text } => Failure::NotNumeric(field, text@),
            ParseError::OutOfRangeValue { field } => Failure::OutOfRange(field),
            ParseError::MalformedDmsFormat { field } => Failure::MalformedDms(field),
        }
    }
}

/// The name of a field in messages.
pub open spec fn field_name(field: Field) -> Seq<char> {
    match field {
        Field::Latitude => "latitude"@,
        Field::Longitude => "longitude"@,
        Field::Height => "height"@,
        Field::X => "x"@,
        Field::Y => "y"@,
        Field::Z => "z"@,
    }
}

/// The message that tells of a refusal: the field, then the reason.
pub open spec fn message_of(failure: Failure) -> Seq<char> {
    match failure {
        Failure::Empty(field) => field_name(field) + " is empty or holds no number"@,
        Failure::NotNumeric(field, text) => field_name(field) + ": \""@ + text
            + "\" is not a plain decimal number that can be held"@,
        Failure::OutOfRange(field) => field_name(field) + " is out of range"@,
        Failure::MalformedDms(field) => field_name(field)
            + " is not made up of degrees, minutes and seconds"@,
    }
}

/// The field of a refusal.
pub open spec fn failure_field(failure: Failure) -> Field {
    match failure {
        Failure::Empty(field) => field,
        Failure::NotNumeric(field, _) => field,
        Failure::OutOfRange(field) => field,
        Failure::MalformedDms(field) => field,
    }
}

fn name_of(field: Field) -> (r: &'static str)
    ensures
        r@ == field_name(field),
{
    match field {
        Field::Latitude => "latitude",
        Field::Longitude => "longitude",
        Field::Height => "height",
        Field::X => "x",
        Field::Y => "y",
        Field::Z => "z",
    }
}

impl ParseError {
    /// The field that was refused.
    pub fn field(&self) -> (r: Field)
        ensures
            r == failure_field(self@),
    {
        match self {
            ParseError::EmptyOrMalformedField { field } => *field,
            ParseError::NumericParseFailure { field, text: _ } => *field,
            ParseError::OutOfRangeValue { field } => *field,
            ParseError::MalformedDmsFormat { field } => *field,
        }
    }

    /// The message to show for this refusal.
    pub fn message(&self) -> (r: String)
        ensures
            r@ == message_of(self@),
    {
        let mut out = String::from_str(name_of(self.field()));
        match self {
            ParseError::EmptyOrMalformedField { field: _ } => {
                out.append(" is empty or holds no number");
            },
            ParseError::NumericParseFailure { field: _, text } => {
                out.append(": \"");
                out.append(text.as_str());
                out.append("\" is not a plain decimal number that can be held");
            },
            ParseError::OutOfRangeValue { field: _ } => {
                out.append(" is out of range");
            },
            ParseError::MalformedDmsFormat { field: _ } => {
                out.append(" is not made up of degrees, minutes and seconds");
            },
        }
        out
    }
}

} // verus!
