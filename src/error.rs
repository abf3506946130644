//! Errors from loading, evaluating and materializing blueprints.

use vstd::prelude::*;

verus! {

/// Why a value could not be decoded into a target shape.
#[derive(PartialEq, Debug)]
pub enum ToComponentError {
    /// The text names none of the accepted variants.
    UnknownVariant { variant: String },
    /// A named field of the target is absent from the mapping.
    MissingField(String),
    /// The value has another shape than the target asks for.
    InvalidType { unexpected: &'static str, expected: &'static str },
    /// A failure that the decoder reports in words.
    Custom(String),
}

/// Errors from loading and executing blueprints.
#[derive(PartialEq, Debug)]
pub enum Error {
    UnexpectedType { unexpected: &'static str, expected: &'static str },
    CouldNotDetermineEntityName(String),
    LoadError(String, String),
    ParseError(String, String),
    ToComponentError(ToComponentError),
    UndefinedFunctionError(String),
    UnknownComponent(String),
}

pub enum ToComponentErrorModel {
    UnknownVariant(Seq<char>),
    MissingField(Seq<char>),
    InvalidType(Seq<char>, Seq<char>),
    Custom(Seq<char>),
}

/// The mathematical form of an [`Error`]: its text as characters.
pub enum ErrorModel {
    UnexpectedType(Seq<char>, Seq<char>),
    CouldNotDetermineEntityName(Seq<char>),
    LoadError(Seq<char>, Seq<char>),
    ParseError(Seq<char>, Seq<char>),
    ToComponent(ToComponentErrorModel),
    UndefinedFunction(Seq<char>),
    UnknownComponent(Seq<char>),
}

impl View for ToComponentError {
    type V = ToComponentErrorModel;

    open spec fn view(&self) -> ToComponentErrorModel {
        match self {
            ToComponentError::UnknownVariant { variant } => ToComponentErrorModel::UnknownVariant(
                variant@,
            ),
            ToComponentError::MissingField(f) => ToComponentErrorModel::MissingField(f@),
            ToComponentError::InvalidType { unexpected, expected } =>
                ToComponentErrorModel::InvalidType(unexpected@, expected@),
            ToComponentError::Custom(m) => ToComponentErrorModel::Custom(m@),
        }
    }
}

impl View for Error {
    type V = ErrorModel;

    open spec fn view(&self) -> ErrorModel {
        match self {
            Error::UnexpectedType { unexpected, expected } => ErrorModel::UnexpectedType(
                unexpected@,
                expected@,
            ),
            Error::CouldNotDetermineEntityName(p) => ErrorModel::CouldNotDetermineEntityName(p@),
            Error::LoadError(p, m) => ErrorModel::LoadError(p@, m@),
            Error::ParseError(p, m) => ErrorModel::ParseError(p@, m@),
            Error::ToComponentError(e) => ErrorModel::ToComponent(e@),
            Error::UndefinedFunctionError(n) => ErrorModel::UndefinedFunction(n@),
            Error::UnknownComponent(n) => ErrorModel::UnknownComponent(n@),
        }
    }
}

impl From<ToComponentError> for Error {
    fn from(e: ToComponentError) -> (r: Error) {
        Error::ToComponentError(e)
    }
}

impl vstd::std_specs::convert::FromSpecImpl<ToComponentError> for Error {
    open spec fn obeys_from_spec() -> bool {
        true
    }

    open spec fn from_spec(e: ToComponentError) -> Error {
        Error::ToComponentError(e)
    }
}

} // verus!
