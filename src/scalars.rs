use vstd::prelude::*;
use crate::error::InputValueError;
use crate::value::{char_text, Value, ValueModel};

verus! {

/// A scalar type: how it reads a value of the query, which values it
/// accepts, and how it writes itself into the response.
pub trait ScalarType: Sized {
    fn parse(value: Value) -> Result<Self, InputValueError>;

    fn is_valid(value: &Value) -> bool;

    fn to_value(&self) -> Value;
}

pub open spec fn one_char_required_message() -> Seq<char> {
    "A unicode character is required."@
}

pub open spec fn only_one_char_message() -> Seq<char> {
    "There can only be one unicode character in the string."@
}

/// The unicode character scalar: a string of exactly one character.
impl ScalarType for char {
    fn parse(value: Value) -> (r: Result<char, InputValueError>)
        ensures
            match value@ {
                ValueModel::String(s) => if s.len() == 1 {
                    r == Ok::<char, InputValueError>(s[0])
                } else if s.len() == 0 {
                    r matches Err(InputValueError::Custom(m)) && m@ == one_char_required_message()
                } else {
                    r matches Err(InputValueError::Custom(m)) && m@ == only_one_char_message()
                },
                _ => r matches Err(InputValueError::ExpectedType(v)) && v@ == value@,
            },
    {
        match value {
            Value::String(s) => {
                let n = s.as_str().unicode_len();
                if n == 1 {
                    Ok(s.as_str().get_char(0))
                } else if n == 0 {
                    Err(InputValueError::Custom(String::from_str("A unicode character is required.")))
                } else {
                    Err(
                        InputValueError::Custom(
                            String::from_str("There can only be one unicode character in the string."),
                        ),
                    )
                }
            },
            other => Err(InputValueError::ExpectedType(other)),
        }
    }

    fn is_valid(value: &Value) -> (r: bool)
        ensures
            r == (*value is String),
    {
        match value {
            Value::String(_) => true,
            _ => false,
        }
    }

    fn to_value(&self) -> (r: Value)
        ensures
            r@ == ValueModel::String(seq![*self]),
    {
        Value::String(char_text(*self))
    }
}

} // verus!
