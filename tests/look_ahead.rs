use graphql_core::ast::{Field, FragmentDefinition, FragmentSpread, InlineFragment, Selection, SelectionSet};
use graphql_core::look_ahead::Lookahead;
use graphql_core::name_map::NameMap;
use graphql_core::value::{Pos, Positioned};

fn at<T>(node: T) -> Positioned<T> {
    Positioned { pos: Pos { line: 1, column: 1 }, node }
}

fn set(items: Vec<Selection>) -> Positioned<SelectionSet> {
    at(SelectionSet { items: items.into_iter().map(at).collect() })
}

fn field(alias: Option<&str>, name: &str, items: Vec<Selection>) -> Selection {
    Selection::Field(at(Field {
        alias: alias.map(|a| at(a.to_string())),
        name: at(name.to_string()),
        arguments: vec![],
        directives: vec![],
        selection_set: set(items),
    }))
}

fn inline(items: Vec<Selection>) -> Selection {
    Selection::InlineFragment(at(InlineFragment { type_condition: None, directives: vec![], selection_set: set(items) }))
}

fn spread(name: &str) -> Selection {
    Selection::FragmentSpread(at(FragmentSpread { fragment_name: at(name.to_string()), directives: vec![] }))
}

fn fragment(items: Vec<Selection>) -> Positioned<FragmentDefinition> {
    at(FragmentDefinition { type_condition: at("MyObj".to_string()), directives: vec![], selection_set: set(items) })
}

fn root(items: Vec<Selection>) -> Field {
    Field {
        alias: None,
        name: at("obj".to_string()),
        arguments: vec![],
        directives: vec![],
        selection_set: set(items),
    }
}

#[test]
fn finds_direct_fields() {
    let frags = NameMap::new();
    let obj = root(vec![field(None, "a", vec![])]);
    let la = Lookahead::new(&frags, &obj);
    assert!(la.field("a").field_exists());
    assert!(!la.field("b").field_exists());
}

#[test]
fn ignores_aliases() {
    let frags = NameMap::new();
    let obj = root(vec![field(Some("k"), "a", vec![])]);
    let la = Lookahead::new(&frags, &obj);
    assert!(la.field("a").field_exists());
    assert!(!la.field("k").field_exists());
}

#[test]
fn narrows_depth_first() {
    let frags = NameMap::new();
    let obj = root(vec![field(None, "detail", vec![field(None, "c", vec![])])]);
    let la = Lookahead::new(&frags, &obj);
    assert!(la.field("detail").field("c").field_exists());
    assert!(!la.field("detail").field("d").field_exists());
    assert!(!la.field("c").field_exists());
    // a miss stays a miss
    assert!(!la.field("x").field("c").field_exists());
}

#[test]
fn looks_through_fragments() {
    let mut frags = NameMap::new();
    frags.insert("A".to_string(), fragment(vec![field(None, "a", vec![])]));
    frags.insert("D".to_string(), fragment(vec![field(None, "detail", vec![field(None, "c", vec![])])]));
    let obj = root(vec![inline(vec![field(None, "b", vec![])]), spread("A"), spread("D"), spread("Missing")]);
    let la = Lookahead::new(&frags, &obj);
    assert!(la.field("a").field_exists());
    assert!(la.field("b").field_exists());
    assert!(la.field("detail").field("c").field_exists());
    assert!(!la.field("z").field_exists());
}

#[test]
fn cyclic_fragments_find_nothing() {
    let mut frags = NameMap::new();
    frags.insert("A".to_string(), fragment(vec![spread("B")]));
    frags.insert("B".to_string(), fragment(vec![spread("A"), field(None, "b", vec![])]));
    let obj = root(vec![spread("A")]);
    let la = Lookahead::new(&frags, &obj);
    assert!(la.field("b").field_exists());
    assert!(!la.field("c").field_exists());
}

#[test]
fn first_match_in_document_order() {
    let frags = NameMap::new();
    let obj = root(vec![
        field(Some("first"), "a", vec![field(None, "x", vec![])]),
        field(Some("second"), "a", vec![field(None, "y", vec![])]),
    ]);
    let la = Lookahead::new(&frags, &obj);
    assert!(la.field("a").field("x").field_exists());
    assert!(!la.field("a").field("y").field_exists());
}
