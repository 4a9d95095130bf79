use vstd::prelude::*;
use crate::name_map::{lookup, NameMap};
use crate::type_ref::same_text;
use crate::value::{InputValue, Positioned, Value};

verus! {

/// The arguments of a field or directive, by name, in document order.
pub open spec fn arguments_view(args: Seq<(Positioned<String>, Positioned<InputValue>)>) -> Seq<
    (Seq<char>, Positioned<InputValue>),
> {
    args.map_values(|a: (Positioned<String>, Positioned<InputValue>)| (a.0.node@, a.1))
}

/// The first argument named `name`.
pub fn find_argument<'a>(
    args: &'a Vec<(Positioned<String>, Positioned<InputValue>)>,
    name: &str,
) -> (r: Option<&'a Positioned<InputValue>>)
    ensures
        match r {
            Some(v) => lookup(arguments_view(args@), name@) == Some(*v),
            None => lookup(arguments_view(args@), name@) is None,
        },
{
    let ghost s = arguments_view(args@);
    let mut i: usize = 0;
    while i < args.len()
        invariant
            i <= args@.len(),
            s == arguments_view(args@),
            forall|j: int| 0 <= j < i ==> s[j].0 != name@,
        decreases args@.len() - i,
    {
        if same_text(args[i].0.node.as_str(), name) {
            proof {
                crate::name_map::lemma_position_is_first(s, name@, i as int);
            }
            return Some(&args[i].1);
        }
        i += 1;
    }
    proof {
        crate::name_map::lemma_position_absent(s, name@);
    }
    None
}

/// A directive applied to a node of the document: `@name(args)`.
#[derive(Debug)]
pub struct Directive {
    pub name: Positioned<String>,
    pub arguments: Vec<(Positioned<String>, Positioned<InputValue>)>,
}

impl Directive {
    /// The argument named `name`, the first one if it is given twice.
    pub fn get_argument(&self, name: &str) -> (r: Option<&Positioned<InputValue>>)
        ensures
            match r {
                Some(v) => lookup(arguments_view(self.arguments@), name@) == Some(*v),
                None => lookup(arguments_view(self.arguments@), name@) is None,
            },
    {
        find_argument(&self.arguments, name)
    }
}

/// A selected field: `alias: name(args) @directives { selection_set }`.
#[derive(Debug)]
pub struct Field {
    pub alias: Option<Positioned<String>>,
    pub name: Positioned<String>,
    pub arguments: Vec<(Positioned<String>, Positioned<InputValue>)>,
    pub directives: Vec<Positioned<Directive>>,
    pub selection_set: Positioned<SelectionSet>,
}

impl Field {
    /// The key of the field in the response: its alias, else its name.
    pub fn response_key(&self) -> (r: &Positioned<String>)
        ensures
            *r == match self.alias {
                Some(a) => a,
                None => self.name,
            },
    {
        match &self.alias {
            Some(alias) => alias,
            None => &self.name,
        }
    }

    /// The argument named `name`, the first one if it is given twice.
    pub fn get_argument(&self, name: &str) -> (r: Option<&Positioned<InputValue>>)
        ensures
            match r {
                Some(v) => lookup(arguments_view(self.arguments@), name@) == Some(*v),
                None => lookup(arguments_view(self.arguments@), name@) is None,
            },
    {
        find_argument(&self.arguments, name)
    }
}

/// A `{ ... }` block of selections.
#[derive(Debug)]
pub struct SelectionSet {
    pub items: Vec<Positioned<Selection>>,
}

/// One item of a selection set.
#[derive(Debug)]
pub enum Selection {
    Field(Positioned<Field>),
    FragmentSpread(Positioned<FragmentSpread>),
    InlineFragment(Positioned<InlineFragment>),
}

/// `...Name`: the selections of a named fragment.
#[derive(Debug)]
pub struct FragmentSpread {
    pub fragment_name: Positioned<String>,
    pub directives: Vec<Positioned<Directive>>,
}

/// `... on Type { ... }`, the type condition being optional.
#[derive(Debug)]
pub struct InlineFragment {
    pub type_condition: Option<Positioned<String>>,
    pub directives: Vec<Positioned<Directive>>,
    pub selection_set: Positioned<SelectionSet>,
}

/// `fragment Name on Type { ... }`.
#[derive(Debug)]
pub struct FragmentDefinition {
    pub type_condition: Positioned<String>,
    pub directives: Vec<Positioned<Directive>>,
    pub selection_set: Positioned<SelectionSet>,
}

/// A variable that an operation declares: `$name: Type = default`.
#[derive(Debug)]
pub struct VariableDefinition {
    pub name: Positioned<String>,
    pub var_type: Positioned<String>,
    pub default_value: Option<Positioned<Value>>,
}

impl VariableDefinition {
    /// The declared default, if there is one.
    pub fn default_value(&self) -> (r: Option<&Value>)
        ensures
            match r {
                Some(v) => self.default_value matches Some(d) && d.node == *v,
                None => self.default_value is None,
            },
    {
        match &self.default_value {
            Some(d) => Some(&d.node),
            None => None,
        }
    }
}

#[derive(Clone, Copy, Debug, PartialEq, Eq, Structural)]
pub enum OperationType {
    Query,
    Mutation,
    Subscription,
}

/// One operation of a document, with the variables it declares.
#[derive(Debug)]
pub struct OperationDefinition {
    pub ty: OperationType,
    pub variable_definitions: Vec<Positioned<VariableDefinition>>,
    pub directives: Vec<Positioned<Directive>>,
    pub selection_set: Positioned<SelectionSet>,
}

/// A parsed document: the operation to run and the fragments it may use.
#[derive(Debug)]
pub struct ExecutableDocument {
    pub operation: Positioned<OperationDefinition>,
    pub fragments: NameMap<Positioned<FragmentDefinition>>,
}

} // verus!

verus! {

/// The base of a parsed type reference: a name or a list of a type.
#[derive(Debug)]
pub enum BaseType {
    Named(String),
    List(Box<Type>),
}

/// A parsed type reference: `Name`, `[T]`, either followed by `!` when the
/// value may not be null.
#[derive(Debug)]
pub struct Type {
    pub base: BaseType,
    pub nullable: bool,
}

/// The name at the bottom of a parsed type reference.
pub open spec fn parsed_concrete_name(t: Type) -> Seq<char>
    decreases t,
{
    match t.base {
        BaseType::Named(n) => n@,
        BaseType::List(inner) => parsed_concrete_name(*inner),
    }
}

} // verus!
