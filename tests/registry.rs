use graphql_core::ast::{BaseType, Type};
use graphql_core::registry::{
    CacheControl, DirectiveLocation, MetaDirective, MetaField, MetaInputValue, MetaType, Registry,
};
use graphql_core::model::__Field;
use graphql_core::name_map::NameMap;
use indexmap::{IndexMap, IndexSet};

fn names(list: &[&str]) -> IndexSet<String> {
    let mut s = IndexSet::new();
    for n in list {
        s.insert(n.to_string());
    }
    s
}

fn object(name: &str) -> MetaType {
    MetaType::Object {
        name: name.to_string(),
        description: None,
        fields: IndexMap::new(),
        cache_control: CacheControl::default(),
        extends: false,
        keys: None,
    }
}

fn union(name: &str, members: &[&str]) -> MetaType {
    MetaType::Union { name: name.to_string(), description: None, possible_types: names(members) }
}

fn interface(name: &str, members: &[&str]) -> MetaType {
    MetaType::Interface {
        name: name.to_string(),
        description: None,
        fields: IndexMap::new(),
        possible_types: names(members),
        extends: false,
        keys: None,
    }
}

fn empty_registry() -> Registry {
    Registry {
        types: NameMap::new(),
        directives: NameMap::new(),
        implements: NameMap::new(),
        query_type: "Query".to_string(),
        mutation_type: None,
        subscription_type: None,
    }
}

#[test]
fn kinds_of_types() {
    let o = object("A");
    let u = union("U", &["A"]);
    let s = MetaType::Scalar { name: "Int".to_string(), description: None };
    assert!(o.is_composite() && !o.is_abstract() && !o.is_leaf() && !o.is_input());
    assert!(u.is_composite() && u.is_abstract());
    assert!(s.is_leaf() && s.is_input() && !s.is_composite());
    assert_eq!(u.name(), "U");
}

#[test]
fn possible_types() {
    let u = union("U", &["A", "B"]);
    assert!(u.is_possible_type("A"));
    assert!(!u.is_possible_type("C"));
    let o = object("A");
    assert!(o.is_possible_type("A"));
    assert!(!o.is_possible_type("B"));
    assert_eq!(u.possible_types().unwrap().len(), 2);
    assert!(o.possible_types().is_none());
}

#[test]
fn type_overlap_cases() {
    let a = object("A");
    let b = object("B");
    let u = union("U", &["A", "C"]);
    let i = interface("I", &["C"]);
    let j = interface("J", &["B"]);
    assert!(a.type_overlap(&a));
    assert!(!a.type_overlap(&b));
    assert!(u.type_overlap(&a) && a.type_overlap(&u));
    assert!(!u.type_overlap(&b) && !b.type_overlap(&u));
    assert!(u.type_overlap(&i) && i.type_overlap(&u));
    assert!(!u.type_overlap(&j) && !j.type_overlap(&u));
    let empty = union("E", &[]);
    assert!(empty.type_overlap(&empty));
}

#[test]
fn type_overlap_is_symmetric_on_a_schema() {
    let types = vec![
        object("A"),
        object("B"),
        union("U", &["A"]),
        interface("I", &["A", "B"]),
        interface("J", &[]),
    ];
    for a in &types {
        for b in &types {
            assert_eq!(a.type_overlap(b), b.type_overlap(a));
        }
    }
}

#[test]
fn field_lookup() {
    let mut fields = IndexMap::new();
    fields.insert(
        "id".to_string(),
        MetaField {
            name: "id".to_string(),
            description: None,
            args: IndexMap::new(),
            ty: "ID!".to_string(),
            deprecation: None,
            cache_control: CacheControl::default(),
            external: false,
            requires: None,
            provides: None,
        },
    );
    let t = MetaType::Object {
        name: "T".to_string(),
        description: None,
        fields,
        cache_control: CacheControl::default(),
        extends: false,
        keys: None,
    };
    assert_eq!(t.field_by_name("id").unwrap().ty, "ID!");
    assert!(t.field_by_name("name").is_none());
    assert!(union("U", &[]).field_by_name("id").is_none());
}

#[test]
fn create_type_registers_once() {
    let mut reg = empty_registry();
    let mut calls = 0;
    let r = reg.create_type("Node", "Node!".to_string(), |inner: &mut Registry| {
        calls += 1;
        // the type is already present while it is built
        assert!(inner.types.contains_key("Node"));
        object("Node")
    });
    assert_eq!(r, "Node!");
    assert_eq!(calls, 1);
    assert_eq!(reg.types.get("Node").unwrap().name(), "Node");
    let r2 = reg.create_type("Node", "Node".to_string(), |_: &mut Registry| object("Other"));
    assert_eq!(r2, "Node");
    assert_eq!(reg.types.get("Node").unwrap().name(), "Node");
    assert_eq!(reg.types.len(), 1);
}

#[test]
fn implements_accumulate() {
    let mut reg = empty_registry();
    reg.add_implements("A", "I");
    reg.add_implements("A", "J");
    reg.add_implements("A", "I");
    reg.add_implements("B", "I");
    let a = reg.implements.get("A").unwrap();
    assert_eq!(a.len(), 2);
    assert!(a.contains_key("I") && a.contains_key("J"));
    assert_eq!(reg.implements.get("B").unwrap().len(), 1);
}

#[test]
fn keys_append_and_entities() {
    let mut reg = empty_registry();
    reg.types.insert("A".to_string(), object("A"));
    reg.types.insert("U".to_string(), union("U", &["A"]));
    reg.types.insert("I".to_string(), interface("I", &["A"]));
    assert!(!reg.has_entities());
    reg.add_keys("A", "id");
    reg.add_keys("A", "sku");
    reg.add_keys("U", "id");
    reg.add_keys("Missing", "id");
    match reg.types.get("A").unwrap() {
        MetaType::Object { keys, .. } => {
            assert_eq!(keys.as_ref().unwrap(), &vec!["id".to_string(), "sku".to_string()])
        }
        _ => panic!("A is an object"),
    }
    assert!(matches!(reg.types.get("U").unwrap(), MetaType::Union { .. }));
    assert!(reg.has_entities());
    reg.add_keys("I", "id");
    reg.create_entity_type();
    let e = reg.types.get("_Entity").unwrap();
    assert_eq!(e.name(), "_Entity");
    let members: Vec<&String> = e.possible_types().unwrap().iter().collect();
    assert_eq!(members, vec!["A", "I"]);
}

#[test]
fn concrete_type_lookups() {
    let mut reg = empty_registry();
    reg.types.insert("A".to_string(), object("A"));
    assert_eq!(reg.concrete_type_by_name("[A!]!").unwrap().name(), "A");
    assert!(reg.concrete_type_by_name("[B]").is_none());
    let parsed = Type {
        base: BaseType::List(Box::new(Type { base: BaseType::Named("A".to_string()), nullable: false })),
        nullable: true,
    };
    assert_eq!(reg.concrete_type_by_parsed_type(&parsed).unwrap().name(), "A");
}

#[test]
fn directives_are_replaced_by_name() {
    let mut reg = empty_registry();
    reg.add_directive(MetaDirective {
        name: "d".to_string(),
        description: None,
        locations: vec![DirectiveLocation::Field],
        args: IndexMap::new(),
    });
    reg.add_directive(MetaDirective {
        name: "d".to_string(),
        description: Some("second".to_string()),
        locations: vec![DirectiveLocation::Field],
        args: IndexMap::new(),
    });
    assert_eq!(reg.directives.len(), 1);
    assert_eq!(reg.directives.get("d").unwrap().description.as_deref(), Some("second"));
}

fn input(name: &str) -> MetaInputValue {
    MetaInputValue { name: name.to_string(), description: None, ty: "Int".to_string(), default_value: None }
}

#[test]
fn introspected_field() {
    let reg = empty_registry();
    let mut args = IndexMap::new();
    args.insert("z".to_string(), input("z"));
    args.insert("a".to_string(), input("a"));
    let f = MetaField {
        name: "count".to_string(),
        description: Some("how many".to_string()),
        args,
        ty: "Int!".to_string(),
        deprecation: Some("use total".to_string()),
        cache_control: CacheControl::default(),
        external: false,
        requires: None,
        provides: None,
    };
    let intro = __Field { registry: &reg, field: &f };
    assert_eq!(intro.name(), "count");
    assert_eq!(intro.description().as_deref(), Some("how many"));
    assert_eq!(intro.ty(), "Int!");
    assert!(intro.is_deprecated());
    assert_eq!(intro.deprecation_reason().as_deref(), Some("use total"));
    let names: Vec<&str> = intro.args().iter().map(|a| a.input_value.name.as_str()).collect();
    assert_eq!(names, vec!["z", "a"]);
}
