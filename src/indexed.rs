use vstd::prelude::*;
use indexmap::{IndexMap, IndexSet};
use crate::registry::{MetaField, MetaInputValue};
use itertools::Itertools;

verus! {

#[verifier::external_type_specification]
#[verifier::external_body]
#[verifier::reject_recursive_types(T)]
#[verifier::reject_recursive_types(S)]
pub struct ExIndexSet<T, S>(IndexSet<T, S>);

#[verifier::external_type_specification]
#[verifier::external_body]
#[verifier::reject_recursive_types(K)]
#[verifier::reject_recursive_types(V)]
#[verifier::reject_recursive_types(S)]
pub struct ExIndexMap<K, V, S>(IndexMap<K, V, S>);

/// A table of fields by name, in declaration order.
pub type FieldMap = IndexMap<String, MetaField>;

/// A table of arguments or input fields by name, in declaration order.
pub type InputValueMap = IndexMap<String, MetaInputValue>;

/// The values of an argument table, in their order.
pub uninterp spec fn input_value_entries(m: InputValueMap) -> Seq<MetaInputValue>;

/// The names that an insertion-ordered name set holds, in order.
pub uninterp spec fn name_set_items(s: IndexSet<String>) -> Seq<Seq<char>>;

/// What a field table holds, by field name.
pub uninterp spec fn field_map_entries(m: FieldMap) -> Map<Seq<char>, MetaField>;

/// Relies on indexmap::IndexSet::new: a new set holds nothing.
#[verifier::external_body]
pub(crate) fn name_set_new() -> (r: IndexSet<String>)
    ensures
        name_set_items(r) == Seq::<Seq<char>>::empty(),
{
    IndexSet::new()
}

/// Relies on indexmap::IndexSet::insert: a name not yet held goes last and
/// `true` comes back; a held one leaves the set as it was and `false` comes back.
#[verifier::external_body]
pub(crate) fn name_set_insert(s: &mut IndexSet<String>, v: String) -> (r: bool)
    ensures
        r == !name_set_items(*old(s)).contains(v@),
        r ==> name_set_items(*final(s)) == name_set_items(*old(s)).push(v@),
        !r ==> name_set_items(*final(s)) == name_set_items(*old(s)),
{
    s.insert(v)
}

/// Relies on indexmap::IndexSet::contains: whether an equal name is held.
#[verifier::external_body]
pub(crate) fn name_set_contains(s: &IndexSet<String>, v: &str) -> (r: bool)
    ensures
        r == name_set_items(*s).contains(v@),
{
    s.contains(v)
}

/// Relies on indexmap::IndexSet::len: the number of names held.
#[verifier::external_body]
pub(crate) fn name_set_len(s: &IndexSet<String>) -> (r: usize)
    ensures
        r == name_set_items(*s).len(),
{
    s.len()
}

/// Relies on indexmap::IndexSet::get_index: the name at a position of the order.
#[verifier::external_body]
pub(crate) fn name_set_get_index(s: &IndexSet<String>, i: usize) -> (r: Option<&String>)
    ensures
        i < name_set_items(*s).len() ==> r is Some && r->0@ == name_set_items(*s)[i as int],
        i >= name_set_items(*s).len() ==> r is None,
{
    s.get_index(i)
}

/// Relies on indexmap::IndexMap::new: a new field table holds nothing.
#[verifier::external_body]
pub(crate) fn field_map_new() -> (r: FieldMap)
    ensures
        field_map_entries(r) =~= Map::empty(),
{
    IndexMap::new()
}

/// Relies on indexmap::IndexMap::get: the field stored under a name.
#[verifier::external_body]
pub(crate) fn field_map_get<'a>(m: &'a FieldMap, k: &str) -> (r: Option<&'a MetaField>)
    ensures
        match r {
            Some(f) => field_map_entries(*m).contains_key(k@) && field_map_entries(*m)[k@] == *f,
            None => !field_map_entries(*m).contains_key(k@),
        },
{
    m.get(k)
}

/// Relies on indexmap::IndexMap::values, which walks the values in their
/// order, and on itertools' `collect_vec`, which collects them in that order.
#[verifier::external_body]
pub(crate) fn input_values<'a>(m: &'a InputValueMap) -> (r: Vec<&'a MetaInputValue>)
    ensures
        r@.len() == input_value_entries(*m).len(),
        forall|i: int| 0 <= i < r@.len() ==> *r@[i] == input_value_entries(*m)[i],
{
    m.values().collect_vec()
}

} // verus!
