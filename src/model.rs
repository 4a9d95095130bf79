use vstd::prelude::*;
use crate::indexed::{input_value_entries, input_values};
use crate::registry::{MetaField, MetaInputValue, Registry};

verus! {

/// A copy of an optional text.
fn copy_text(s: &Option<String>) -> (r: Option<String>)
    ensures
        r == *s,
{
    match s {
        Some(t) => Some(t.clone()),
        None => None,
    }
}

/// An argument of a field, as introspection shows it.
pub struct __InputValue<'a> {
    pub registry: &'a Registry,
    pub input_value: &'a MetaInputValue,
}

/// A field of an object or interface type, as introspection shows it: its
/// name, arguments and type, and whether it is deprecated.
pub struct __Field<'a> {
    pub registry: &'a Registry,
    pub field: &'a MetaField,
}

impl<'a> __Field<'a> {
    pub fn name(&self) -> (r: String)
        ensures
            r@ == self.field.name@,
    {
        self.field.name.clone()
    }

    pub fn description(&self) -> (r: Option<String>)
        ensures
            r == self.field.description,
    {
        copy_text(&self.field.description)
    }

    /// The arguments, in declaration order.
    pub fn args(&self) -> (r: Vec<__InputValue<'a>>)
        ensures
            r@.len() == input_value_entries(self.field.args).len(),
            forall|i: int|
                0 <= i < r@.len() ==> (#[trigger] r@[i]).registry == self.registry && *r@[i].input_value
                    == input_value_entries(self.field.args)[i],
    {
        let values = input_values(&self.field.args);
        let mut out: Vec<__InputValue<'a>> = Vec::new();
        let mut i: usize = 0;
        while i < values.len()
            invariant
                i <= values@.len(),
                out@.len() == i,
                values@.len() == input_value_entries(self.field.args).len(),
                forall|j: int| 0 <= j < values@.len() ==> *values@[j] == input_value_entries(self.field.args)[j],
                forall|j: int|
                    0 <= j < i ==> (#[trigger] out@[j]).registry == self.registry && *out@[j].input_value
                        == input_value_entries(self.field.args)[j],
            decreases values@.len() - i,
        {
            out.push(__InputValue { registry: self.registry, input_value: values[i] });
            i += 1;
        }
        out
    }

    /// The type reference of the field.
    pub fn ty(&self) -> (r: &'a str)
        ensures
            r@ == self.field.ty@,
    {
        self.field.ty.as_str()
    }

    pub fn is_deprecated(&self) -> (r: bool)
        ensures
            r == self.field.deprecation is Some,
    {
        self.field.deprecation.is_some()
    }

    pub fn deprecation_reason(&self) -> (r: Option<String>)
        ensures
            r == self.field.deprecation,
    {
        copy_text(&self.field.deprecation)
    }
}

} // verus!
