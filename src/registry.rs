use vstd::prelude::*;
use indexmap::{IndexMap, IndexSet};
use crate::name_map::{lemma_lookup_stored, lemma_stored_same, lookup, stored, NameMap};
use crate::type_ref::{concrete_name, MetaTypeName};
use crate::ast::{parsed_concrete_name, BaseType, Type};
use crate::indexed::{InputValueMap, field_map_entries, field_map_get, field_map_new, name_set_contains, name_set_get_index, name_set_insert, name_set_items, name_set_len, name_set_new};

verus! {

/// How long, and for whom, a response may be cached.
#[derive(Clone, Copy, Debug, PartialEq, Eq, Structural, Default)]
pub struct CacheControl {
    pub public: bool,
    pub max_age: usize,
}

/// An argument of a field or directive, or a field of an input object.
#[derive(Clone, Debug)]
pub struct MetaInputValue {
    pub name: String,
    pub description: Option<String>,
    pub ty: String,
    pub default_value: Option<String>,
}

/// A field of an object or interface type.
#[derive(Debug)]
pub struct MetaField {
    pub name: String,
    pub description: Option<String>,
    pub args: InputValueMap,
    pub ty: String,
    pub deprecation: Option<String>,
    pub cache_control: CacheControl,
    pub external: bool,
    pub requires: Option<String>,
    pub provides: Option<String>,
}

/// A value of an enum type.
#[derive(Clone, Debug)]
pub struct MetaEnumValue {
    pub name: String,
    pub description: Option<String>,
    pub deprecation: Option<String>,
}

/// A type declared by the schema.
pub enum MetaType {
    Scalar {
        name: String,
        description: Option<String>,
    },
    Object {
        name: String,
        description: Option<String>,
        fields: IndexMap<String, MetaField>,
        cache_control: CacheControl,
        extends: bool,
        keys: Option<Vec<String>>,
    },
    Interface {
        name: String,
        description: Option<String>,
        fields: IndexMap<String, MetaField>,
        possible_types: IndexSet<String>,
        extends: bool,
        keys: Option<Vec<String>>,
    },
    Union {
        name: String,
        description: Option<String>,
        possible_types: IndexSet<String>,
    },
    Enum {
        name: String,
        description: Option<String>,
        enum_values: IndexMap<String, MetaEnumValue>,
    },
    InputObject {
        name: String,
        description: Option<String>,
        input_fields: IndexMap<String, MetaInputValue>,
    },
}

pub open spec fn meta_name(t: MetaType) -> Seq<char> {
    match t {
        MetaType::Scalar { name, .. } => name@,
        MetaType::Object { name, .. } => name@,
        MetaType::Interface { name, .. } => name@,
        MetaType::Union { name, .. } => name@,
        MetaType::Enum { name, .. } => name@,
        MetaType::InputObject { name, .. } => name@,
    }
}

/// Interfaces and unions: types that stand for a set of object types.
pub open spec fn is_abstract_type(t: MetaType) -> bool {
    t is Interface || t is Union
}

/// The object types an abstract type stands for, in order.
pub open spec fn possible_names(t: MetaType) -> Seq<Seq<char>> {
    match t {
        MetaType::Interface { possible_types, .. } => name_set_items(possible_types),
        MetaType::Union { possible_types, .. } => name_set_items(possible_types),
        _ => Seq::empty(),
    }
}

/// A value of object type `n` may stand where `t` is expected.
pub open spec fn possible_for(t: MetaType, n: Seq<char>) -> bool {
    match t {
        MetaType::Interface { possible_types, .. } => name_set_items(possible_types).contains(n),
        MetaType::Union { possible_types, .. } => name_set_items(possible_types).contains(n),
        MetaType::Object { name, .. } => name@ == n,
        _ => false,
    }
}

/// Some runtime object could be of both types. A type overlaps itself; in a
/// registry names are unique, so the same name means the same type.
pub open spec fn overlaps(a: MetaType, b: MetaType) -> bool {
    if meta_name(a) == meta_name(b) {
        true
    } else if is_abstract_type(a) && is_abstract_type(b) {
        exists|i: int|
            0 <= i < possible_names(a).len() && #[trigger] possible_for(b, possible_names(a)[i])
    } else if is_abstract_type(a) {
        possible_for(a, meta_name(b))
    } else if is_abstract_type(b) {
        possible_for(b, meta_name(a))
    } else {
        false
    }
}

/// Overlap of types does not depend on the order in which they are asked.
pub proof fn lemma_type_overlap_symmetric(a: MetaType, b: MetaType)
    ensures
        overlaps(a, b) == overlaps(b, a),
{
    if meta_name(a) != meta_name(b) && is_abstract_type(a) && is_abstract_type(b) {
        let pa = possible_names(a);
        let pb = possible_names(b);
        if overlaps(a, b) {
            let i = choose|i: int| 0 <= i < pa.len() && #[trigger] possible_for(b, pa[i]);
            let j = choose|j: int| 0 <= j < pb.len() && pb[j] == pa[i];
            assert(possible_for(a, pb[j]));
        }
        if overlaps(b, a) {
            let i = choose|i: int| 0 <= i < pb.len() && #[trigger] possible_for(a, pb[i]);
            let j = choose|j: int| 0 <= j < pa.len() && pa[j] == pb[i];
            assert(possible_for(b, pa[j]));
        }
    }
}

impl MetaType {
    /// The field named `name`, for object and interface types.
    pub fn field_by_name(&self, name: &str) -> (r: Option<&MetaField>)
        ensures
            match r {
                Some(f) => match *self {
                    MetaType::Object { fields, .. } => field_map_entries(fields).contains_key(name@)
                        && field_map_entries(fields)[name@] == *f,
                    MetaType::Interface { fields, .. } => field_map_entries(fields).contains_key(name@)
                        && field_map_entries(fields)[name@] == *f,
                    _ => false,
                },
                None => match *self {
                    MetaType::Object { fields, .. } => !field_map_entries(fields).contains_key(name@),
                    MetaType::Interface { fields, .. } => !field_map_entries(fields).contains_key(name@),
                    _ => true,
                },
            },
    {
        match self.fields() {
            Some(fields) => field_map_get(fields, name),
            None => None,
        }
    }

    /// The field table of object and interface types.
    pub fn fields(&self) -> (r: Option<&IndexMap<String, MetaField>>)
        ensures
            match *self {
                MetaType::Object { fields, .. } => r == Some(&fields),
                MetaType::Interface { fields, .. } => r == Some(&fields),
                _ => r is None,
            },
    {
        match self {
            MetaType::Object { fields, .. } => Some(fields),
            MetaType::Interface { fields, .. } => Some(fields),
            _ => None,
        }
    }

    pub fn name(&self) -> (r: &str)
        ensures
            r@ == meta_name(*self),
    {
        match self {
            MetaType::Scalar { name, .. } => name.as_str(),
            MetaType::Object { name, .. } => name.as_str(),
            MetaType::Interface { name, .. } => name.as_str(),
            MetaType::Union { name, .. } => name.as_str(),
            MetaType::Enum { name, .. } => name.as_str(),
            MetaType::InputObject { name, .. } => name.as_str(),
        }
    }

    /// Objects, interfaces and unions: types with fields to select.
    pub fn is_composite(&self) -> (r: bool)
        ensures
            r == (*self is Object || *self is Interface || *self is Union),
    {
        match self {
            MetaType::Object { .. } => true,
            MetaType::Interface { .. } => true,
            MetaType::Union { .. } => true,
            _ => false,
        }
    }

    pub fn is_abstract(&self) -> (r: bool)
        ensures
            r == is_abstract_type(*self),
    {
        match self {
            MetaType::Interface { .. } => true,
            MetaType::Union { .. } => true,
            _ => false,
        }
    }

    /// Enums and scalars.
    pub fn is_leaf(&self) -> (r: bool)
        ensures
            r == (*self is Enum || *self is Scalar),
    {
        match self {
            MetaType::Enum { .. } => true,
            MetaType::Scalar { .. } => true,
            _ => false,
        }
    }

    /// Enums, scalars and input objects: types a value of the query may have.
    pub fn is_input(&self) -> (r: bool)
        ensures
            r == (*self is Enum || *self is Scalar || *self is InputObject),
    {
        match self {
            MetaType::Enum { .. } => true,
            MetaType::Scalar { .. } => true,
            MetaType::InputObject { .. } => true,
            _ => false,
        }
    }

    /// Whether a value of object type `ty_name` may stand where this type is
    /// expected.
    pub fn is_possible_type(&self, ty_name: &str) -> (r: bool)
        ensures
            r == possible_for(*self, ty_name@),
    {
        match self {
            MetaType::Interface { possible_types, .. } => name_set_contains(possible_types, ty_name),
            MetaType::Union { possible_types, .. } => name_set_contains(possible_types, ty_name),
            MetaType::Object { name, .. } => crate::type_ref::same_text(name.as_str(), ty_name),
            _ => false,
        }
    }

    /// The object types of an interface or union.
    pub fn possible_types(&self) -> (r: Option<&IndexSet<String>>)
        ensures
            match *self {
                MetaType::Interface { possible_types, .. } => r == Some(&possible_types),
                MetaType::Union { possible_types, .. } => r == Some(&possible_types),
                _ => r is None,
            },
    {
        match self {
            MetaType::Interface { possible_types, .. } => Some(possible_types),
            MetaType::Union { possible_types, .. } => Some(possible_types),
            _ => None,
        }
    }

    /// Whether a fragment on one of the two types can apply to a value of the
    /// other.
    pub fn type_overlap(&self, ty: &MetaType) -> (r: bool)
        ensures
            r == overlaps(*self, *ty),
    {
        if crate::type_ref::same_text(self.name(), ty.name()) {
            return true;
        }
        match (self.is_abstract(), ty.is_abstract()) {
            (true, true) => {
                let set = self.possible_types().unwrap();
                let ghost pa = possible_names(*self);
                let n = name_set_len(set);
                let mut i: usize = 0;
                while i < n
                    invariant
                        n == pa.len(),
                        pa == name_set_items(*set),
                        pa == possible_names(*self),
                        i <= n,
                        is_abstract_type(*self) && is_abstract_type(*ty),
                        meta_name(*self) != meta_name(*ty),
                        forall|j: int| 0 <= j < i ==> !possible_for(*ty, #[trigger] pa[j]),
                    decreases n - i,
                {
                    let name = name_set_get_index(set, i).unwrap();
                    if ty.is_possible_type(name.as_str()) {
                        proof {
                            assert(possible_for(*ty, pa[i as int]));
                        }
                        return true;
                    }
                    i += 1;
                }
                false
            },
            (true, false) => self.is_possible_type(ty.name()),
            (false, true) => ty.is_possible_type(self.name()),
            (false, false) => false,
        }
    }
}

} // verus!

verus! {

/// Where in a document a directive may stand.
#[derive(Clone, Copy, Debug, PartialEq, Eq, Structural)]
pub enum DirectiveLocation {
    Query,
    Mutation,
    Subscription,
    Field,
    FragmentDefinition,
    FragmentSpread,
    InlineFragment,
    VariableDefinition,
    Schema,
    Scalar,
    Object,
    FieldDefinition,
    ArgumentDefinition,
    Interface,
    Union,
    Enum,
    EnumValue,
    InputObject,
    InputFieldDefinition,
}

/// A directive declared by the schema.
#[derive(Debug)]
pub struct MetaDirective {
    pub name: String,
    pub description: Option<String>,
    pub locations: Vec<DirectiveLocation>,
    pub args: IndexMap<String, MetaInputValue>,
}

/// All types and directives of a schema, the interfaces each type implements
/// and the root operation types.
pub struct Registry {
    pub types: NameMap<MetaType>,
    pub directives: NameMap<MetaDirective>,
    pub implements: NameMap<NameMap<()>>,
    pub query_type: String,
    pub mutation_type: Option<String>,
    pub subscription_type: Option<String>,
}

/// The federation keys of an object or interface type.
pub open spec fn type_keys(t: MetaType) -> Option<Seq<Seq<char>>> {
    match t {
        MetaType::Object { keys, .. } => match keys {
            Some(k) => Some(k@.map_values(|s: String| s@)),
            None => None,
        },
        MetaType::Interface { keys, .. } => match keys {
            Some(k) => Some(k@.map_values(|s: String| s@)),
            None => None,
        },
        _ => None,
    }
}

/// An object or interface type with at least one federation key.
pub open spec fn is_entity(t: MetaType) -> bool {
    match type_keys(t) {
        Some(k) => k.len() > 0,
        None => false,
    }
}

/// `s` with `x` added last, unless `s` holds it already.
pub open spec fn add_name(s: Seq<Seq<char>>, x: Seq<char>) -> Seq<Seq<char>> {
    if s.contains(x) {
        s
    } else {
        s.push(x)
    }
}

/// The names of the entity types among `types`, in order, each once.
pub open spec fn entity_names(types: Seq<(Seq<char>, MetaType)>) -> Seq<Seq<char>>
    decreases types.len(),
{
    if types.len() == 0 {
        Seq::empty()
    } else if is_entity(types.last().1) {
        add_name(entity_names(types.drop_last()), meta_name(types.last().1))
    } else {
        entity_names(types.drop_last())
    }
}

/// Two types that differ at most in their federation keys.
pub open spec fn same_but_keys(a: MetaType, b: MetaType) -> bool {
    match (a, b) {
        (
            MetaType::Object { name: n1, description: d1, fields: f1, cache_control: c1, extends: e1, .. },
            MetaType::Object { name: n2, description: d2, fields: f2, cache_control: c2, extends: e2, .. },
        ) => n1 == n2 && d1 == d2 && f1 == f2 && c1 == c2 && e1 == e2,
        (
            MetaType::Interface { name: n1, description: d1, fields: f1, possible_types: p1, extends: e1, .. },
            MetaType::Interface { name: n2, description: d2, fields: f2, possible_types: p2, extends: e2, .. },
        ) => n1 == n2 && d1 == d2 && f1 == f2 && p1 == p2 && e1 == e2,
        _ => a == b,
    }
}

pub open spec fn entity_type_name() -> Seq<char> {
    seq!['_', 'E', 'n', 't', 'i', 't', 'y']
}

/// Appends `key` to a key list, making the list if there is none.
fn append_key(all_keys: &mut Option<Vec<String>>, key: &str)
    ensures
        *final(all_keys) matches Some(k) && k@.map_values(|s: String| s@) == match *old(all_keys) {
            Some(o) => o@.map_values(|s: String| s@),
            None => Seq::empty(),
        }.push(key@),
{
    match all_keys {
        Some(list) => {
            let ghost before = list@;
            list.push(String::from_str(key));
            proof {
                assert(list@.map_values(|s: String| s@) =~= before.map_values(|s: String| s@).push(key@));
            }
        },
        None => {
            let mut v: Vec<String> = Vec::new();
            v.push(String::from_str(key));
            proof {
                assert(v@.map_values(|s: String| s@) =~= Seq::<Seq<char>>::empty().push(key@));
            }
            *all_keys = Some(v);
        },
    }
}

impl Registry {
    /// Registers a type under `name` unless one is there: a placeholder object
    /// type is stored first, so that `f` may refer to the type it builds, and
    /// then replaced by what `f` returns. Returns the qualified reference.
    pub fn create_type<F: FnOnce(&mut Registry) -> MetaType>(
        &mut self,
        name: &str,
        qualified_name: String,
        f: F,
    ) -> (r: String)
        requires
            forall|reg: &mut Registry| #[trigger] f.requires((reg,)),
        ensures
            r@ == qualified_name@,
            lookup(old(self).types@, name@) is Some ==> *final(self) == *old(self),
            lookup(old(self).types@, name@) is None ==> exists|g: &mut Registry, ty: MetaType|
                {
                    &&& f.ensures((g,), ty)
                    &&& lookup((*g).types@, name@) is Some
                    &&& (*g).directives == old(self).directives
                    &&& (*g).implements == old(self).implements
                    &&& (*g).query_type == old(self).query_type
                    &&& (*g).mutation_type == old(self).mutation_type
                    &&& (*g).subscription_type == old(self).subscription_type
                    &&& final(self).types@ == stored((*final(g)).types@, name@, ty)
                    &&& lookup(final(self).types@, name@) == Some(ty)
                    &&& final(self).directives == (*final(g)).directives
                    &&& final(self).implements == (*final(g)).implements
                    &&& final(self).query_type == (*final(g)).query_type
                    &&& final(self).mutation_type == (*final(g)).mutation_type
                    &&& final(self).subscription_type == (*final(g)).subscription_type
                },
    {
        if !self.types.contains_key(name) {
            let placeholder = MetaType::Object {
                name: String::new(),
                description: None,
                fields: field_map_new(),
                cache_control: CacheControl { public: true, max_age: 0 },
                extends: false,
                keys: None,
            };
            self.types.insert(String::from_str(name), placeholder);
            proof {
                lemma_lookup_stored(old(self).types@, name@, placeholder, name@);
            }
            let ty = f(self);
            let ghost before = self.types@;
            let ghost built = ty;
            self.types.insert(String::from_str(name), ty);
            proof {
                lemma_lookup_stored(before, name@, built, name@);
            }
        }
        qualified_name
    }

    /// Declares a directive, replacing one of the same name.
    pub fn add_directive(&mut self, directive: MetaDirective)
        ensures
            final(self).query_type == old(self).query_type,
            final(self).mutation_type == old(self).mutation_type,
            final(self).subscription_type == old(self).subscription_type,
            final(self).directives@ == stored(old(self).directives@, directive.name@, directive),
            final(self).types == old(self).types,
            final(self).implements == old(self).implements,
    {
        let name = directive.name.clone();
        self.directives.insert(name, directive);
    }

    /// Records that type `ty` implements `interface`.
    pub fn add_implements(&mut self, ty: &str, interface: &str)
        ensures
            final(self).query_type == old(self).query_type,
            final(self).mutation_type == old(self).mutation_type,
            final(self).subscription_type == old(self).subscription_type,
            final(self).types == old(self).types,
            final(self).directives == old(self).directives,
            match lookup(final(self).implements@, ty@) {
                Some(s) => s@ == stored(
                    match lookup(old(self).implements@, ty@) {
                        Some(o) => o@,
                        None => Seq::empty(),
                    },
                    interface@,
                    (),
                ),
                None => false,
            },
            forall|q: Seq<char>|
                q != ty@ ==> #[trigger] lookup(final(self).implements@, q) == lookup(
                    old(self).implements@,
                    q,
                ),
    {
        let ghost before = self.implements@;
        match self.implements.get_mut(ty) {
            Some(interfaces) => {
                interfaces.insert(String::from_str(interface), ());
                proof {
                    assert forall|q: Seq<char>| q != ty@ implies #[trigger] lookup(
                        self.implements@,
                        q,
                    ) == lookup(before, q) by {
                        lemma_lookup_stored(before, ty@, *interfaces, q);
                    }
                    lemma_lookup_stored(before, ty@, *interfaces, ty@);
                }
            },
            None => {
                let mut interfaces: NameMap<()> = NameMap::new();
                interfaces.insert(String::from_str(interface), ());
                let ghost made = interfaces;
                self.implements.insert(String::from_str(ty), interfaces);
                proof {
                    assert forall|q: Seq<char>| q != ty@ implies #[trigger] lookup(
                        self.implements@,
                        q,
                    ) == lookup(before, q) by {
                        lemma_lookup_stored(before, ty@, made, q);
                    }
                    lemma_lookup_stored(before, ty@, made, ty@);
                }
            },
        }
    }

    /// Appends a federation key to an object or interface type; other types,
    /// and names with no type, are left alone.
    pub fn add_keys(&mut self, ty: &str, keys: &str)
        ensures
            final(self).query_type == old(self).query_type,
            final(self).mutation_type == old(self).mutation_type,
            final(self).subscription_type == old(self).subscription_type,
            final(self).directives == old(self).directives,
            final(self).implements == old(self).implements,
            match lookup(old(self).types@, ty@) {
                Some(t) => if t is Object || t is Interface {
                    exists|u: MetaType|
                        {
                            &&& final(self).types@ == stored(old(self).types@, ty@, u)
                            &&& same_but_keys(t, u)
                            &&& type_keys(u) == Some(
                                match type_keys(t) {
                                    Some(k) => k,
                                    None => Seq::empty(),
                                }.push(keys@),
                            )
                        }
                } else {
                    final(self).types@ == old(self).types@
                },
                None => final(self).types@ == old(self).types@,
            },
    {
        let ghost before = self.types@;
        match self.types.get_mut(ty) {
            Some(t) => {
                let ghost t0 = *t;
                match t {
                    MetaType::Object { keys: all_keys, .. } => append_key(all_keys, keys),
                    MetaType::Interface { keys: all_keys, .. } => append_key(all_keys, keys),
                    _ => {},
                }
                let ghost t1 = *t;
                proof {
                    if t0 is Object || t0 is Interface {
                        assert(same_but_keys(t0, t1));
                    } else {
                        assert(t1 == t0);
                    }
                }
                proof {
                    if !(t0 is Object || t0 is Interface) {
                        lemma_stored_same(before, ty@);
                    }
                }
                assert(self.types@ == stored(before, ty@, t1));
                proof {
                    if t0 is Object || t0 is Interface {
                        assert(type_keys(t1) == Some(
                            match type_keys(t0) {
                                Some(k) => k,
                                None => Seq::empty(),
                            }.push(keys@),
                        ));
                    }
                }
            },
            None => {},
        }
    }

    /// The type that a type reference names, under all its wrappers.
    pub fn concrete_type_by_name(&self, ty_name: &str) -> (r: Option<&MetaType>)
        ensures
            match r {
                Some(t) => lookup(self.types@, concrete_name(ty_name@)) == Some(*t),
                None => lookup(self.types@, concrete_name(ty_name@)) is None,
            },
    {
        self.types.get(MetaTypeName::concrete_typename(ty_name))
    }

    /// The type that a parsed type reference names, under all its wrappers.
    pub fn concrete_type_by_parsed_type(&self, query_type: &Type) -> (r: Option<&MetaType>)
        ensures
            match r {
                Some(t) => lookup(self.types@, parsed_concrete_name(*query_type)) == Some(*t),
                None => lookup(self.types@, parsed_concrete_name(*query_type)) is None,
            },
        decreases query_type,
    {
        match &query_type.base {
            BaseType::Named(name) => self.types.get(name.as_str()),
            BaseType::List(ty) => self.concrete_type_by_parsed_type(ty),
        }
    }

    /// Whether any type has a federation key.
    pub fn has_entities(&self) -> (r: bool)
        ensures
            r == exists|i: int| 0 <= i < self.types@.len() && #[trigger] is_entity(self.types@[i].1),
    {
        let n = self.types.len();
        let mut i: usize = 0;
        while i < n
            invariant
                n == self.types@.len(),
                i <= n,
                forall|j: int| 0 <= j < i ==> !#[trigger] is_entity(self.types@[j].1),
            decreases n - i,
        {
            let (_, t) = self.types.entry_at(i);
            let found = match t {
                MetaType::Object { keys: Some(keys), .. } => keys.len() > 0,
                MetaType::Interface { keys: Some(keys), .. } => keys.len() > 0,
                _ => false,
            };
            if found {
                proof {
                    assert(is_entity(self.types@[i as int].1));
                }
                return true;
            }
            i += 1;
        }
        false
    }

    /// Adds the union of all entity types, named `_Entity`.
    pub fn create_entity_type(&mut self)
        ensures
            final(self).query_type == old(self).query_type,
            final(self).mutation_type == old(self).mutation_type,
            final(self).subscription_type == old(self).subscription_type,
            final(self).directives == old(self).directives,
            final(self).implements == old(self).implements,
            exists|u: MetaType|
                {
                    &&& final(self).types@ == stored(old(self).types@, entity_type_name(), u)
                    &&& u matches MetaType::Union { name, description, possible_types }
                    &&& name@ == entity_type_name()
                    &&& description is None
                    &&& name_set_items(possible_types) == entity_names(old(self).types@)
                },
    {
        let ghost types = self.types@;
        let n = self.types.len();
        let mut possible_types = name_set_new();
        let mut i: usize = 0;
        while i < n
            invariant
                n == types.len(),
                types == self.types@,
                i <= n,
                name_set_items(possible_types) == entity_names(types.take(i as int)),
            decreases n - i,
        {
            let (_, t) = self.types.entry_at(i);
            proof {
                assert(types.take(i + 1).drop_last() =~= types.take(i as int));
            }
            match t {
                MetaType::Object { name, keys: Some(keys), .. } => {
                    if keys.len() > 0 {
                        name_set_insert(&mut possible_types, name.clone());
                    }
                },
                MetaType::Interface { name, keys: Some(keys), .. } => {
                    if keys.len() > 0 {
                        name_set_insert(&mut possible_types, name.clone());
                    }
                },
                _ => {},
            }
            i += 1;
        }
        proof {
            assert(types.take(n as int) =~= types);
        }
        let name = String::from_str("_Entity");
        proof {
            reveal_strlit("_Entity");
            assert(name@ =~= entity_type_name());
        }
        let u = MetaType::Union { name: String::from_str("_Entity"), description: None, possible_types };
        self.types.insert(name, u);
    }
}

} // verus!
