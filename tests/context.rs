use graphql_core::ast::{
    Directive, Field, OperationDefinition, OperationType, SelectionSet, VariableDefinition,
};
use graphql_core::context::{
    Data, QueryEnv, QueryEnvInner, QueryPathNode, QueryPathSegment, ResolveId,
    ResolveIdCounter, SchemaEnv, Variables,
};
use graphql_core::name_map::NameMap;
use graphql_core::registry::Registry;
use graphql_core::value::{InputValue, Pos, Positioned, Value};

fn at<T>(line: usize, column: usize, node: T) -> Positioned<T> {
    Positioned { pos: Pos { line, column }, node }
}

fn empty_set() -> Positioned<SelectionSet> {
    at(0, 0, SelectionSet { items: vec![] })
}

fn field(alias: Option<&str>, name: &str) -> Positioned<Field> {
    at(
        1,
        1,
        Field {
            alias: alias.map(|a| at(1, 1, a.to_string())),
            name: at(1, 1, name.to_string()),
            arguments: vec![],
            directives: vec![],
            selection_set: empty_set(),
        },
    )
}

fn registry() -> Registry {
    Registry {
        types: NameMap::new(),
        directives: NameMap::new(),
        implements: NameMap::new(),
        query_type: "Query".to_string(),
        mutation_type: None,
        subscription_type: None,
    }
}

fn schema_env(data: Data) -> SchemaEnv {
    SchemaEnv { registry: registry(), data }
}

fn var_def(name: &str, default: Option<Value>) -> Positioned<VariableDefinition> {
    at(
        1,
        1,
        VariableDefinition {
            name: at(1, 1, name.to_string()),
            var_type: at(1, 1, "Boolean".to_string()),
            default_value: default.map(|v| at(1, 1, v)),
        },
    )
}

fn query_env(defs: Vec<Positioned<VariableDefinition>>, vars: Variables, data: Data) -> QueryEnv {
    QueryEnv::new(QueryEnvInner {
        variables: vars,
        operation: at(
            1,
            1,
            OperationDefinition {
                ty: OperationType::Query,
                variable_definitions: defs,
                directives: vec![],
                selection_set: empty_set(),
            },
        ),
        fragments: NameMap::new(),
        ctx_data: data,
    })
}

fn directive(name: &str, cond: Option<InputValue>, line: usize) -> Positioned<Directive> {
    at(
        line,
        5,
        Directive {
            name: at(line, 6, name.to_string()),
            arguments: match cond {
                Some(c) => vec![(at(line, 10, "if".to_string()), at(line, 14, c))],
                None => vec![],
            },
        },
    )
}

fn vars_of(entries: Vec<(&str, Value)>) -> Variables {
    Variables::from_value(Value::Object(
        entries.into_iter().map(|(k, v)| (k.to_string(), v)).collect(),
    ))
}

#[test]
fn path_renders_with_dots() {
    let root = QueryPathNode { parent: None, segment: QueryPathSegment::Name("obj".to_string()) };
    let idx = QueryPathNode { parent: Some(Box::new(root)), segment: QueryPathSegment::Index(2) };
    let leaf =
        QueryPathNode { parent: Some(Box::new(idx)), segment: QueryPathSegment::Name("detail".to_string()) };
    assert_eq!(leaf.to_string(), "obj.2.detail");
    assert_eq!(leaf.field_name(), "detail");
    assert_eq!(
        leaf.segments(),
        vec![
            QueryPathSegment::Name("obj".to_string()),
            QueryPathSegment::Index(2),
            QueryPathSegment::Name("detail".to_string())
        ]
    );
}

#[test]
fn field_name_skips_indices() {
    let root = QueryPathNode { parent: None, segment: QueryPathSegment::Name("items".to_string()) };
    let idx = QueryPathNode { parent: Some(Box::new(root)), segment: QueryPathSegment::Index(17) };
    assert_eq!(idx.field_name(), "items");
    assert_eq!(idx.to_string(), "items.17");
}

#[test]
fn resolve_id_text() {
    assert_eq!(ResolveId::root().to_string(), "0");
    assert_eq!(ResolveId { parent: Some(3), current: 12 }.to_string(), "3:12");
}

#[test]
fn sibling_ids_are_distinct() {
    let schema = schema_env(Data::new());
    let query = query_env(vec![], Variables::new(), Data::new());
    let set = empty_set();
    let ctx = query.create_context(&schema, None, &set, ResolveId::root());
    let mut counter = ResolveIdCounter::new();
    assert!(counter.has_next());
    let fields: Vec<Positioned<Field>> = (0..5).map(|i| field(None, &format!("f{}", i))).collect();
    let mut ids = Vec::new();
    for f in &fields {
        let child = ctx.with_field(f, &mut counter);
        assert_eq!(child.resolve_id.parent, Some(0));
        ids.push(child.resolve_id.current);
    }
    let mut sorted = ids.clone();
    sorted.sort();
    sorted.dedup();
    assert_eq!(sorted.len(), 5);
    assert_eq!(ids, vec![1, 2, 3, 4, 5]);
}

#[test]
fn contexts_extend_the_path() {
    let schema = schema_env(Data::new());
    let query = query_env(vec![], Variables::new(), Data::new());
    let set = empty_set();
    let root = query.create_context(&schema, None, &set, ResolveId::root());
    let mut counter = ResolveIdCounter::new();
    let f = field(Some("k"), "a");
    let fctx = root.with_field(&f, &mut counter);
    assert_eq!(fctx.path_node.as_ref().unwrap().to_string(), "k");
    let inner = empty_set();
    let sctx = fctx.with_selection_set(&inner);
    assert_eq!(sctx.resolve_id, fctx.resolve_id);
    assert_eq!(sctx.path_node.as_ref().unwrap().to_string(), "k");
    let e = sctx.with_index(3, &mut counter);
    assert_eq!(e.path_node.as_ref().unwrap().to_string(), "k.3");
    assert_eq!(e.resolve_id, ResolveId { parent: Some(1), current: 2 });
}

#[test]
fn query_data_shadows_schema_data() {
    let mut sd = Data::new();
    sd.insert("Token", Value::String("schema".to_string()));
    sd.insert("Limit", Value::Number(10));
    let mut qd = Data::new();
    qd.insert("Token", Value::String("query".to_string()));
    let schema = schema_env(sd);
    let query = query_env(vec![], Variables::new(), qd);
    let set = empty_set();
    let ctx = query.create_context(&schema, None, &set, ResolveId::root());
    assert!(matches!(ctx.data("Token"), Ok(Value::String(s)) if s == "query"));
    assert!(matches!(ctx.data_unchecked("Limit"), Value::Number(10)));
    assert!(ctx.data_opt("Missing").is_none());
    let err = ctx.data("Missing").unwrap_err();
    assert_eq!(err.message, "Data `Missing` does not exist.");
}

#[test]
fn data_insert_replaces() {
    let mut d = Data::new();
    d.insert("A", Value::Number(1));
    d.insert("A", Value::Number(2));
    assert_eq!(d.0.len(), 1);
    assert!(matches!(d.0.get("A"), Some(Value::Number(2))));
}

#[test]
fn variables_from_value() {
    let v = Variables::from_value(Value::List(vec![Value::Number(1)]));
    assert_eq!(v.0.len(), 0);
    let v = Variables::from_value(Value::Number(3));
    assert_eq!(v.0.len(), 0);
    let v = Variables::from_value(Value::Null);
    assert_eq!(v.0.len(), 0);
    let v = vars_of(vec![("a", Value::Number(1))]);
    assert_eq!(v.0.len(), 1);
    assert!(matches!(v.0.get("a"), Some(Value::Number(1))));
}

#[test]
fn variables_repeated_key_keeps_last_value() {
    let v = vars_of(vec![("a", Value::Number(1)), ("b", Value::Null), ("a", Value::Number(2))]);
    assert_eq!(v.0.len(), 2);
    assert!(matches!(v.0.get("a"), Some(Value::Number(2))));
    match v.into_value() {
        Value::Object(entries) => {
            assert_eq!(entries.len(), 2);
            assert_eq!(entries[0].0, "a");
            assert_eq!(entries[1].0, "b");
        }
        _ => panic!("an object"),
    }
}

#[test]
fn skip_and_include() {
    let schema = schema_env(Data::new());
    let query = query_env(vec![], Variables::new(), Data::new());
    let set = empty_set();
    let ctx = query.create_context(&schema, None, &set, ResolveId::root());
    let skip_true = vec![directive("skip", Some(InputValue::Boolean(true)), 2)];
    assert_eq!(ctx.is_skip(&skip_true).unwrap(), true);
    let skip_false = vec![directive("skip", Some(InputValue::Boolean(false)), 2)];
    assert_eq!(ctx.is_skip(&skip_false).unwrap(), false);
    let incl_false = vec![directive("include", Some(InputValue::Boolean(false)), 2)];
    assert_eq!(ctx.is_skip(&incl_false).unwrap(), true);
    let incl_true = vec![directive("include", Some(InputValue::Boolean(true)), 2)];
    assert_eq!(ctx.is_skip(&incl_true).unwrap(), false);
    assert_eq!(ctx.is_skip(&[]).unwrap(), false);
    let other = vec![directive("deprecated", None, 2)];
    assert_eq!(ctx.is_skip(&other).unwrap(), false);
}

#[test]
fn skip_without_condition_fails_at_directive() {
    let schema = schema_env(Data::new());
    let query = query_env(vec![], Variables::new(), Data::new());
    let set = empty_set();
    let ctx = query.create_context(&schema, None, &set, ResolveId::root());
    let err = ctx.is_skip(&[directive("skip", None, 7)]).unwrap_err();
    assert_eq!(err.pos, Some(Pos { line: 7, column: 5 }));
    assert_eq!(
        err.message,
        "Directive @skip requires argument `if` of type `Boolean!` but it was not provided."
    );
}

#[test]
fn first_excluding_directive_wins() {
    let schema = schema_env(Data::new());
    let query = query_env(vec![], Variables::new(), Data::new());
    let set = empty_set();
    let ctx = query.create_context(&schema, None, &set, ResolveId::root());
    // the second directive is malformed, but the first already excludes
    let ds = vec![directive("skip", Some(InputValue::Boolean(true)), 2), directive("include", None, 3)];
    assert_eq!(ctx.is_skip(&ds).unwrap(), true);
    let ds = vec![directive("skip", Some(InputValue::Boolean(false)), 2), directive("include", None, 3)];
    assert_eq!(ctx.is_skip(&ds).unwrap_err().pos, Some(Pos { line: 3, column: 5 }));
}

#[test]
fn condition_of_wrong_kind_fails_at_value() {
    let schema = schema_env(Data::new());
    let query = query_env(vec![], Variables::new(), Data::new());
    let set = empty_set();
    let ctx = query.create_context(&schema, None, &set, ResolveId::root());
    let err = ctx.is_skip(&[directive("skip", Some(InputValue::Number(1)), 4)]).unwrap_err();
    assert_eq!(err.pos, Some(Pos { line: 4, column: 14 }));
}

#[test]
fn conditions_from_variables() {
    let schema = schema_env(Data::new());
    let defs = vec![var_def("hide", None), var_def("show", Some(Value::Boolean(false)))];
    let query = query_env(defs, vars_of(vec![("hide", Value::Boolean(true))]), Data::new());
    let set = empty_set();
    let ctx = query.create_context(&schema, None, &set, ResolveId::root());
    let ds = vec![directive("skip", Some(InputValue::Variable("hide".to_string())), 2)];
    assert_eq!(ctx.is_skip(&ds).unwrap(), true);
    let ds = vec![directive("include", Some(InputValue::Variable("show".to_string())), 2)];
    assert_eq!(ctx.is_skip(&ds).unwrap(), true);
    let ds = vec![directive("skip", Some(InputValue::Variable("nope".to_string())), 9)];
    let err = ctx.is_skip(&ds).unwrap_err();
    assert_eq!(err.message, "Variable nope is not defined.");
    assert_eq!(err.pos, Some(Pos { line: 9, column: 14 }));
}

#[test]
fn input_values_are_resolved_deeply() {
    let schema = schema_env(Data::new());
    let defs = vec![var_def("x", None), var_def("y", Some(Value::Number(5))), var_def("z", None)];
    let query = query_env(defs, vars_of(vec![("x", Value::Number(1))]), Data::new());
    let set = empty_set();
    let ctx = query.create_context(&schema, None, &set, ResolveId::root());
    let input = at(
        3,
        3,
        InputValue::Object(vec![
            ("a".to_string(), InputValue::Variable("x".to_string())),
            (
                "b".to_string(),
                InputValue::List(vec![InputValue::Variable("y".to_string()), InputValue::Null]),
            ),
        ]),
    );
    match ctx.resolve_input_value(&input).unwrap() {
        Value::Object(entries) => {
            assert_eq!(entries[0].0, "a");
            assert!(matches!(entries[0].1, Value::Number(1)));
            match &entries[1].1 {
                Value::List(items) => {
                    assert!(matches!(items[0], Value::Number(5)));
                    assert!(matches!(items[1], Value::Null));
                }
                _ => panic!("a list"),
            }
        }
        _ => panic!("an object"),
    }
    // declared, no value and no default
    let missing = at(8, 2, InputValue::List(vec![InputValue::Variable("z".to_string())]));
    let err = ctx.resolve_input_value(&missing).unwrap_err();
    assert_eq!(err.message, "Variable z is not defined.");
    assert_eq!(err.pos, Some(Pos { line: 8, column: 2 }));
}

#[test]
fn ifdef_is_found() {
    let schema = schema_env(Data::new());
    let query = query_env(vec![], Variables::new(), Data::new());
    let set = empty_set();
    let ctx = query.create_context(&schema, None, &set, ResolveId::root());
    assert!(ctx.is_ifdef(&[directive("skip", None, 1), directive("ifdef", None, 1)]));
    assert!(!ctx.is_ifdef(&[directive("skip", None, 1)]));
}

#[test]
fn param_values() {
    let schema = schema_env(Data::new());
    let defs = vec![var_def("flag", None)];
    let query = query_env(defs, vars_of(vec![("flag", Value::Boolean(true))]), Data::new());
    let set = empty_set();
    let root = query.create_context(&schema, None, &set, ResolveId::root());
    let mut counter = ResolveIdCounter::new();
    let mut f = field(None, "f");
    f.node.arguments.push((at(1, 3, "a".to_string()), at(1, 6, InputValue::Variable("flag".to_string()))));
    f.node.arguments.push((at(1, 9, "b".to_string()), at(1, 12, InputValue::Number(3))));
    let ctx = root.with_field(&f, &mut counter);
    let a: bool = ctx.param_value::<bool, fn() -> bool>("a", None).unwrap();
    assert!(a);
    let missing: bool = ctx.param_value("c", Some(|| false)).unwrap();
    assert!(!missing);
    let err = ctx.param_value::<bool, fn() -> bool>("b", None).unwrap_err();
    assert_eq!(err.pos, Some(Pos { line: 1, column: 12 }));
    let absent = ctx.param_value::<bool, fn() -> bool>("c", None).unwrap_err();
    assert_eq!(absent.pos, Some(Pos { line: 0, column: 0 }));
}

#[test]
fn variable_paths() {
    let mut vars = vars_of(vec![
        (
            "a",
            Value::List(vec![
                Value::Number(0),
                Value::Object(vec![("file".to_string(), Value::Null)]),
            ]),
        ),
        ("b", Value::Number(7)),
    ]);
    assert!(matches!(vars.variable_path("variables.b"), Some(Value::Number(7))));
    assert!(matches!(vars.variable_path("variables.a.0"), Some(Value::Number(0))));
    assert!(matches!(vars.variable_path("variables.a.+0"), Some(Value::Number(0))));
    *vars.variable_path("variables.a.1.file").unwrap() = Value::String("upload".to_string());
    assert!(matches!(vars.variable_path("variables.a.1.file"), Some(Value::String(s)) if s == "upload"));
    assert!(vars.variable_path("variables.a.2").is_none());
    assert!(vars.variable_path("variables.a.x").is_none());
    assert!(vars.variable_path("variables.b.0").is_none());
    assert!(vars.variable_path("variables.c").is_none());
    assert!(vars.variable_path("vars.a").is_none());
    assert!(vars.variable_path("variables.a.99999999999").is_none());
}

#[test]
fn variables_text() {
    let v = vars_of(vec![("a", Value::Number(1)), ("b", Value::String("x".to_string()))]);
    assert_eq!(v.to_string(), "{a: 1, b: \"x\"}");
    assert_eq!(Variables::new().to_string(), "{}");
}

#[test]
fn variables_round_trip_through_value() {
    let v = vars_of(vec![("x", Value::Number(1)), ("y", Value::Boolean(true))]);
    let again = Variables::from_value(v.into_value());
    assert_eq!(again.to_string(), "{x: 1, y: true}");
}
