use vstd::prelude::*;
use crate::value::{Pos, Value};

verus! {

/// An error that a resolver or accessor hands back.
#[derive(Debug)]
pub struct Error {
    pub message: String,
}

/// An error of the request, with where in the query it arose.
#[derive(Debug)]
pub struct ServerError {
    pub message: String,
    pub pos: Option<Pos>,
}

/// Why an input value could not be read as the type asked for.
#[derive(Debug)]
pub enum InputValueError {
    /// A reason given by the type.
    Custom(String),
    /// The value is not of the kind the type reads.
    ExpectedType(Value),
}

pub open spec fn expected_type_message() -> Seq<char> {
    "Invalid value for the expected input type."@
}

pub open spec fn input_error_message(e: InputValueError) -> Seq<char> {
    match e {
        InputValueError::Custom(m) => m@,
        InputValueError::ExpectedType(_) => expected_type_message(),
    }
}

impl InputValueError {
    /// The error of the request that this failure becomes, at `pos`.
    pub fn into_server_error(self, pos: Pos) -> (r: ServerError)
        ensures
            r.message@ == input_error_message(self),
            r.pos == Some(pos),
    {
        let message = match self {
            InputValueError::Custom(m) => m,
            InputValueError::ExpectedType(_) => {
                let m = String::from_str("Invalid value for the expected input type.");
                m
            },
        };
        ServerError { message, pos: Some(pos) }
    }
}

/// A result whose error is an error of the request.
pub type ServerResult<T> = Result<T, ServerError>;

} // verus!
