use graphql_core::type_ref::{same_text, MetaTypeName};

#[test]
fn create_splits_outer_wrapper() {
    assert_eq!(MetaTypeName::create("Foo!"), MetaTypeName::NonNull("Foo"));
    assert_eq!(MetaTypeName::create("[Foo]"), MetaTypeName::List("Foo"));
    assert_eq!(MetaTypeName::create("Foo"), MetaTypeName::Named("Foo"));
    assert_eq!(MetaTypeName::create("[Foo!]!"), MetaTypeName::NonNull("[Foo!]"));
    assert_eq!(MetaTypeName::create("[[Foo]]"), MetaTypeName::List("[Foo]"));
    assert_eq!(MetaTypeName::create("[]"), MetaTypeName::List(""));
    assert_eq!(MetaTypeName::create(""), MetaTypeName::Named(""));
}

#[test]
fn create_then_render_round_trips() {
    for s in ["Foo!", "[Foo]", "Foo", "[Foo!]!", "[[Foo]!]", "", "!", "[x]"] {
        assert_eq!(MetaTypeName::create(s).to_string(), s);
    }
}

#[test]
fn opening_bracket_drops_the_last_character() {
    assert_eq!(MetaTypeName::create("[Foo"), MetaTypeName::List("Fo"));
    assert_eq!(MetaTypeName::create("[ab"), MetaTypeName::List("a"));
    assert_eq!(MetaTypeName::create("[é"), MetaTypeName::List(""));
    assert_eq!(MetaTypeName::create("["), MetaTypeName::Named("["));
}

#[test]
fn concrete_typename_strips_all_wrappers() {
    assert_eq!(MetaTypeName::concrete_typename("[[Foo!]!]!"), "Foo");
    assert_eq!(MetaTypeName::concrete_typename("Foo"), "Foo");
    assert_eq!(MetaTypeName::concrete_typename("[Bar]"), "Bar");
}

#[test]
fn non_null_checks() {
    assert!(MetaTypeName::create("Foo!").is_non_null());
    assert!(!MetaTypeName::create("[Foo!]").is_non_null());
    assert_eq!(MetaTypeName::create("[Foo]!").unwrap_non_null(), MetaTypeName::List("Foo"));
    assert_eq!(MetaTypeName::create("Foo").unwrap_non_null(), MetaTypeName::Named("Foo"));
}

#[test]
fn subtype_rules() {
    assert!(MetaTypeName::Named("Foo").is_subtype(&MetaTypeName::NonNull("Foo")));
    assert!(!MetaTypeName::Named("Foo").is_subtype(&MetaTypeName::Named("Bar")));
    assert!(MetaTypeName::List("Foo").is_subtype(&MetaTypeName::List("Foo")));
    assert!(!MetaTypeName::List("Foo").is_subtype(&MetaTypeName::Named("Foo")));
    assert!(!MetaTypeName::NonNull("Foo").is_subtype(&MetaTypeName::Named("Foo")));
    assert!(MetaTypeName::NonNull("Foo").is_subtype(&MetaTypeName::NonNull("Foo")));
    assert!(MetaTypeName::Named("[Foo]").is_subtype(&MetaTypeName::NonNull("[Foo!]")));
    assert!(!MetaTypeName::List("Foo!").is_subtype(&MetaTypeName::List("Foo")));
}

#[test]
fn text_equality() {
    assert!(same_text("abc", "abc"));
    assert!(!same_text("abc", "abd"));
    assert!(!same_text("ab", "abc"));
}
