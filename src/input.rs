use vstd::prelude::*;
use crate::error::InputValueError;
use crate::value::{Value, ValueModel};

verus! {

/// A type that the query's input values can be read as.
pub trait InputValueType: Sized {
    /// Reads a value; `None` when the query gave none.
    fn parse(value: Option<Value>) -> Result<Self, InputValueError>;
}

/// What reading a value as a boolean gives: its truth value, or `None` for a
/// value of another kind.
pub open spec fn bool_of(v: ValueModel) -> Option<bool> {
    match v {
        ValueModel::Boolean(b) => Some(b),
        _ => None,
    }
}

/// Reads a value as a boolean.
pub fn parse_bool(value: Value) -> (r: Result<bool, InputValueError>)
    ensures
        match r {
            Ok(b) => bool_of(value@) == Some(b),
            Err(e) => bool_of(value@) is None && e is ExpectedType,
        },
{
    match value {
        Value::Boolean(b) => Ok(b),
        other => Err(InputValueError::ExpectedType(other)),
    }
}

impl InputValueType for bool {
    fn parse(value: Option<Value>) -> (r: Result<bool, InputValueError>)
        ensures
            match value {
                Some(v) => match r {
                    Ok(b) => bool_of(v@) == Some(b),
                    Err(e) => bool_of(v@) is None && e is ExpectedType,
                },
                None => r is Err,
            },
    {
        match value {
            Some(v) => parse_bool(v),
            None => Err(InputValueError::ExpectedType(Value::Null)),
        }
    }
}

} // verus!
