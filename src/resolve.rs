use vstd::prelude::*;
use crate::ast::{arguments_view, Directive, VariableDefinition};
use crate::error::{expected_type_message, ServerError};
use crate::input::{bool_of, parse_bool};
use crate::name_map::{lemma_position_absent, lemma_position_is_first, lookup};
use crate::type_ref::same_text;
use crate::value::{InputValue, Pos, Positioned, Value, ValueModel};

verus! {

broadcast use vstd::std_specs::vec::group_vec_axioms;

/// The variable definitions of an operation, by name, in document order.
pub open spec fn definitions_view(defs: Seq<Positioned<VariableDefinition>>) -> Seq<
    (Seq<char>, VariableDefinition),
> {
    defs.map_values(|d: Positioned<VariableDefinition>| (d.node.name.node@, d.node))
}

/// The value of variable `name`: what the caller gave for it, else the
/// declared default. Nothing for a variable the operation does not declare.
pub open spec fn variable_value(
    defs: Seq<Positioned<VariableDefinition>>,
    vars: Seq<(Seq<char>, Value)>,
    name: Seq<char>,
) -> Option<Value> {
    match lookup(definitions_view(defs), name) {
        None => None,
        Some(d) => match lookup(vars, name) {
            Some(v) => Some(v),
            None => match d.default_value {
                Some(dv) => Some(dv.node),
                None => None,
            },
        },
    }
}

pub open spec fn undefined_message(name: Seq<char>) -> Seq<char> {
    "Variable "@ + name + " is not defined."@
}

/// An input literal with every variable replaced by its value; the first
/// variable, in document order, that has no value is the error.
pub open spec fn resolve_input(
    defs: Seq<Positioned<VariableDefinition>>,
    vars: Seq<(Seq<char>, Value)>,
    v: InputValue,
) -> Result<ValueModel, Seq<char>>
    decreases v, 0nat,
{
    match v {
        InputValue::Variable(n) => match variable_value(defs, vars, n@) {
            Some(x) => Ok(x@),
            None => Err(n@),
        },
        InputValue::Null => Ok(ValueModel::Null),
        InputValue::Number(n) => Ok(ValueModel::Number(n as int)),
        InputValue::String(s) => Ok(ValueModel::String(s@)),
        InputValue::Boolean(b) => Ok(ValueModel::Boolean(b)),
        InputValue::Enum(s) => Ok(ValueModel::Enum(s@)),
        InputValue::List(items) => match resolve_inputs(defs, vars, items@) {
            Ok(s) => Ok(ValueModel::List(s)),
            Err(e) => Err(e),
        },
        InputValue::Object(entries) => match resolve_input_entries(defs, vars, entries@) {
            Ok(s) => Ok(ValueModel::Object(s)),
            Err(e) => Err(e),
        },
    }
}

pub open spec fn resolve_inputs(
    defs: Seq<Positioned<VariableDefinition>>,
    vars: Seq<(Seq<char>, Value)>,
    s: Seq<InputValue>,
) -> Result<Seq<ValueModel>, Seq<char>>
    decreases s, s.len(),
{
    if s.len() == 0 {
        Ok(Seq::empty())
    } else {
        match resolve_inputs(defs, vars, s.drop_last()) {
            Err(e) => Err(e),
            Ok(p) => match resolve_input(defs, vars, s.last()) {
                Err(e) => Err(e),
                Ok(x) => Ok(p.push(x)),
            },
        }
    }
}

pub open spec fn resolve_input_entries(
    defs: Seq<Positioned<VariableDefinition>>,
    vars: Seq<(Seq<char>, Value)>,
    s: Seq<(String, InputValue)>,
) -> Result<Seq<(Seq<char>, ValueModel)>, Seq<char>>
    decreases s, s.len(),
{
    if s.len() == 0 {
        Ok(Seq::empty())
    } else {
        match resolve_input_entries(defs, vars, s.drop_last()) {
            Err(e) => Err(e),
            Ok(p) => match resolve_input(defs, vars, s.last().1) {
                Err(e) => Err(e),
                Ok(x) => Ok(p.push((s.last().0@, x))),
            },
        }
    }
}

proof fn lemma_inputs_prefix_error(
    defs: Seq<Positioned<VariableDefinition>>,
    vars: Seq<(Seq<char>, Value)>,
    s: Seq<InputValue>,
    k: int,
)
    requires
        0 <= k <= s.len(),
        resolve_inputs(defs, vars, s.take(k)) is Err,
    ensures
        resolve_inputs(defs, vars, s) == resolve_inputs(defs, vars, s.take(k)),
    decreases s.len() - k,
{
    if k < s.len() {
        assert(s.take(k + 1).drop_last() =~= s.take(k));
        lemma_inputs_prefix_error(defs, vars, s, k + 1);
    } else {
        assert(s.take(k) =~= s);
    }
}

proof fn lemma_entries_prefix_error(
    defs: Seq<Positioned<VariableDefinition>>,
    vars: Seq<(Seq<char>, Value)>,
    s: Seq<(String, InputValue)>,
    k: int,
)
    requires
        0 <= k <= s.len(),
        resolve_input_entries(defs, vars, s.take(k)) is Err,
    ensures
        resolve_input_entries(defs, vars, s) == resolve_input_entries(defs, vars, s.take(k)),
    decreases s.len() - k,
{
    if k < s.len() {
        assert(s.take(k + 1).drop_last() =~= s.take(k));
        lemma_entries_prefix_error(defs, vars, s, k + 1);
    } else {
        assert(s.take(k) =~= s);
    }
}

/// The definition of variable `name`, the first if it is declared twice.
pub fn find_definition<'a>(defs: &'a Vec<Positioned<VariableDefinition>>, name: &str) -> (r: Option<
    &'a VariableDefinition,
>)
    ensures
        match r {
            Some(d) => lookup(definitions_view(defs@), name@) == Some(*d),
            None => lookup(definitions_view(defs@), name@) is None,
        },
{
    let ghost s = definitions_view(defs@);
    let mut i: usize = 0;
    while i < defs.len()
        invariant
            i <= defs@.len(),
            s == definitions_view(defs@),
            forall|j: int| 0 <= j < i ==> s[j].0 != name@,
        decreases defs@.len() - i,
    {
        if same_text(defs[i].node.name.node.as_str(), name) {
            proof {
                lemma_position_is_first(s, name@, i as int);
            }
            return Some(&defs[i].node);
        }
        i += 1;
    }
    proof {
        lemma_position_absent(s, name@);
    }
    None
}

/// The value of variable `name` (see `variable_value`), or the error that it
/// is not defined, at `pos`.
pub fn variable_value_at(
    defs: &Vec<Positioned<VariableDefinition>>,
    vars: &crate::context::Variables,
    name: &str,
    pos: Pos,
) -> (r: Result<Value, ServerError>)
    ensures
        match r {
            Ok(v) => variable_value(defs@, vars.0@, name@) matches Some(x) && v@ == x@,
            Err(e) => variable_value(defs@, vars.0@, name@) is None && e.message@ == undefined_message(
                name@,
            ) && e.pos == Some(pos),
        },
{
    match find_definition(defs, name) {
        Some(def) => match vars.0.get(name) {
            Some(v) => Ok(v.deep_clone()),
            None => match def.default_value() {
                Some(v) => Ok(v.deep_clone()),
                None => Err(undefined_error(name, pos)),
            },
        },
        None => Err(undefined_error(name, pos)),
    }
}

pub(crate) fn undefined_error(name: &str, pos: Pos) -> (r: ServerError)
    ensures
        r.message@ == undefined_message(name@),
        r.pos == Some(pos),
{
    let mut message = String::from_str("Variable ");
    message.append(name);
    message.append(" is not defined.");
    proof {
        reveal_strlit("Variable ");
        reveal_strlit(" is not defined.");
    }
    ServerError { message, pos: Some(pos) }
}

/// Replaces every variable of an input literal by its value; the error is
/// the name of the first variable without one.
pub fn const_value(
    defs: &Vec<Positioned<VariableDefinition>>,
    vars: &crate::context::Variables,
    v: &InputValue,
) -> (r: Result<Value, String>)
    ensures
        match r {
            Ok(x) => resolve_input(defs@, vars.0@, *v) == Ok::<ValueModel, Seq<char>>(x@),
            Err(n) => resolve_input(defs@, vars.0@, *v) == Err::<ValueModel, Seq<char>>(n@),
        },
    decreases v,
{
    match v {
        InputValue::Variable(n) => {
            let dummy = Pos { line: 0, column: 0 };
            match variable_value_at(defs, vars, n.as_str(), dummy) {
                Ok(x) => Ok(x),
                Err(_) => Err(n.clone()),
            }
        },
        InputValue::Null => Ok(Value::Null),
        InputValue::Number(n) => Ok(Value::Number(*n)),
        InputValue::String(s) => Ok(Value::String(s.clone())),
        InputValue::Boolean(b) => Ok(Value::Boolean(*b)),
        InputValue::Enum(s) => Ok(Value::Enum(s.clone())),
        InputValue::List(items) => {
            proof {
                assert(decreases_to!(*v => *items));
                assert(decreases_to!(*items => items@));
            }
            let mut out: Vec<Value> = Vec::new();
            let mut i: usize = 0;
            while i < items.len()
                invariant
                    i <= items@.len(),
                    resolve_inputs(defs@, vars.0@, items@.take(i as int)) == Ok::<
                        Seq<ValueModel>,
                        Seq<char>,
                    >(crate::value::value_list_model(out@)),
                    decreases_to!(*v => items@),
                    *v == InputValue::List(*items),
                decreases items@.len() - i,
            {
                proof {
                    assert(decreases_to!(items@ => items@[i as int]));
                    assert(items@.take(i + 1).drop_last() =~= items@.take(i as int));
                }
                match const_value(defs, vars, &items[i]) {
                    Ok(x) => {
                        let ghost prev = out@;
                        out.push(x);
                        proof {
                            assert(out@.drop_last() =~= prev);
                        }
                    },
                    Err(n) => {
                        proof {
                            assert(items@.take(i + 1).last() == items@[i as int]);
                            lemma_inputs_prefix_error(defs@, vars.0@, items@, i + 1);
                        }
                        return Err(n);
                    },
                }
                i += 1;
            }
            proof {
                assert(items@.take(items@.len() as int) =~= items@);
            }
            Ok(Value::List(out))
        },
        InputValue::Object(entries) => {
            proof {
                assert(decreases_to!(*v => *entries));
                assert(decreases_to!(*entries => entries@));
            }
            let mut out: Vec<(String, Value)> = Vec::new();
            let mut i: usize = 0;
            while i < entries.len()
                invariant
                    i <= entries@.len(),
                    resolve_input_entries(defs@, vars.0@, entries@.take(i as int)) == Ok::<
                        Seq<(Seq<char>, ValueModel)>,
                        Seq<char>,
                    >(crate::value::value_entries_model(out@)),
                    decreases_to!(*v => entries@),
                    *v == InputValue::Object(*entries),
                decreases entries@.len() - i,
            {
                proof {
                    assert(decreases_to!(entries@ => entries@[i as int]));
                    assert(decreases_to!(entries@[i as int] => entries@[i as int].1));
                    assert(entries@.take(i + 1).drop_last() =~= entries@.take(i as int));
                }
                match const_value(defs, vars, &entries[i].1) {
                    Ok(x) => {
                        let k = entries[i].0.clone();
                        let ghost prev = out@;
                        out.push((k, x));
                        proof {
                            assert(out@.drop_last() =~= prev);
                        }
                    },
                    Err(n) => {
                        proof {
                            assert(entries@.take(i + 1).last() == entries@[i as int]);
                            lemma_entries_prefix_error(defs@, vars.0@, entries@, i + 1);
                        }
                        return Err(n);
                    },
                }
                i += 1;
            }
            proof {
                assert(entries@.take(entries@.len() as int) =~= entries@);
            }
            Ok(Value::Object(out))
        },
    }
}

/// The name of the directive that keeps its node only when its condition
/// holds.
pub open spec fn inclusion_name() -> Seq<char> {
    seq!['i', 'n', 'c', 'l', 'u', 'd', 'e']
}

pub open spec fn missing_if_message(directive: Seq<char>) -> Seq<char> {
    "Directive @"@ + directive + " requires argument `if` of type `Boolean!` but it was not provided."@
}

/// Whether `name` is the name of the inclusion directive.
fn is_inclusion(name: &str) -> (r: bool)
    ensures
        r == (name@ == inclusion_name()),
{
    let n = name.unicode_len();
    if n != 7 {
        return false;
    }
    let r = name.get_char(0) == 'i' && name.get_char(1) == 'n' && name.get_char(2) == 'c'
        && name.get_char(3) == 'l' && name.get_char(4) == 'u' && name.get_char(5) == 'd'
        && name.get_char(6) == 'e';
    proof {
        if r {
            assert(name@ =~= inclusion_name());
        }
    }
    r
}

fn missing_if_error(directive: &str, pos: Pos) -> (r: ServerError)
    ensures
        r.message@ == missing_if_message(directive@),
        r.pos == Some(pos),
{
    let mut message = String::from_str("Directive @");
    message.append(directive);
    message.append(" requires argument `if` of type `Boolean!` but it was not provided.");
    proof {
        reveal_strlit("Directive @");
        reveal_strlit(" requires argument `if` of type `Boolean!` but it was not provided.");
    }
    ServerError { message, pos: Some(pos) }
}

/// Whether the directives exclude their node, read in document order:
/// a skip whose condition holds and an inclusion whose condition does not
/// exclude it, and the first that
/// excludes ends the reading. Other directives are passed over. The error is
/// the message and the position of the first directive that cannot be read.
pub open spec fn skip_decision(
    defs: Seq<Positioned<VariableDefinition>>,
    vars: Seq<(Seq<char>, Value)>,
    ds: Seq<Positioned<Directive>>,
) -> Result<bool, (Seq<char>, Pos)>
    decreases ds.len(),
{
    if ds.len() == 0 {
        Ok(false)
    } else {
        let d = ds[0];
        let n = d.node.name.node@;
        if n == "skip"@ || n == inclusion_name() {
            let keep_if = n == inclusion_name();
            match lookup(arguments_view(d.node.arguments@), "if"@) {
                None => Err((missing_if_message(n), d.pos)),
                Some(arg) => match resolve_input(defs, vars, arg.node) {
                    Err(var) => Err((undefined_message(var), arg.pos)),
                    Ok(m) => match bool_of(m) {
                        Some(b) => if keep_if != b {
                            Ok(true)
                        } else {
                            skip_decision(defs, vars, ds.drop_first())
                        },
                        None => Err((expected_type_message(), arg.pos)),
                    },
                },
            }
        } else {
            skip_decision(defs, vars, ds.drop_first())
        }
    }
}

/// Whether the directives exclude their node (see `skip_decision`).
pub fn skip_by_directives(
    defs: &Vec<Positioned<VariableDefinition>>,
    vars: &crate::context::Variables,
    directives: &[Positioned<Directive>],
) -> (r: Result<bool, ServerError>)
    ensures
        match r {
            Ok(b) => skip_decision(defs@, vars.0@, directives@) == Ok::<bool, (Seq<char>, Pos)>(b),
            Err(e) => skip_decision(defs@, vars.0@, directives@) == Err::<bool, (Seq<char>, Pos)>(
                (e.message@, e.pos->0),
            ) && e.pos is Some,
        },
{
    let ghost all = directives@;
    let mut i: usize = 0;
    proof {
        assert(all.subrange(0, all.len() as int) =~= all);
    }
    while i < directives.len()
        invariant
            i <= all.len(),
            all == directives@,
            skip_decision(defs@, vars.0@, all) == skip_decision(
                defs@,
                vars.0@,
                all.subrange(i as int, all.len() as int),
            ),
        decreases all.len() - i,
    {
        let ghost rest = all.subrange(i as int, all.len() as int);
        proof {
            assert(rest[0] == all[i as int]);
            assert(rest.drop_first() =~= all.subrange(i + 1, all.len() as int));
            reveal_strlit("if");
        }
        let directive = &directives[i];
        let name = directive.node.name.node.as_str();
        let keep_if = is_inclusion(name);
        if same_text(name, "skip") || keep_if {
            let condition = match directive.node.get_argument("if") {
                Some(c) => c,
                None => {
                    return Err(missing_if_error(name, directive.pos));
                },
            };
            let pos = condition.pos;
            let value = match const_value(defs, vars, &condition.node) {
                Ok(v) => v,
                Err(n) => {
                    return Err(undefined_error(n.as_str(), pos));
                },
            };
            match parse_bool(value) {
                Ok(b) => {
                    if keep_if != b {
                        return Ok(true);
                    }
                },
                Err(e) => {
                    return Err(e.into_server_error(pos));
                },
            }
        }
        i += 1;
    }
    Ok(false)
}

} // verus!
