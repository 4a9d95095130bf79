use graphql_core::context::{Data, QueryPathNode, QueryPathSegment, ResolveId, Variables};
use graphql_core::error::ServerError;
use graphql_core::extensions::{
    named_results, ErrorLogger, Extension, ExtensionContext, ExtensionFactory, Extensions, Request,
    ResolveInfo,
};
use graphql_core::value::Value;

struct Recorder {
    name: Option<String>,
    log: Vec<String>,
    reject: bool,
}

impl Extension for Recorder {
    fn name(&self) -> Option<String> {
        self.name.clone()
    }

    fn prepare_request(&mut self, _ctx: &ExtensionContext<'_>, request: Request) -> Result<Request, ServerError> {
        if self.reject {
            return Err(ServerError { message: "rejected".to_string(), pos: None });
        }
        let mut r = request;
        r.query.push_str(" #seen");
        Ok(r)
    }

    fn parse_start(&mut self, _ctx: &ExtensionContext<'_>, query_source: &str, _variables: &Variables) {
        self.log.push(format!("parse {}", query_source));
    }

    fn resolve_start(&mut self, _ctx: &ExtensionContext<'_>, info: &ResolveInfo<'_>) {
        self.log.push(format!("start {}", info.resolve_id.to_string()));
    }

    fn error(&mut self, _ctx: &ExtensionContext<'_>, err: &ServerError) {
        self.log.push(format!("error {}", err.message));
    }

    fn result(&mut self, _ctx: &ExtensionContext<'_>) -> Option<serde_json::Value> {
        Some(serde_json::Value::from(self.log.len() as u64))
    }
}

fn recorder(name: Option<&str>, reject: bool) -> Recorder {
    Recorder { name: name.map(|n| n.to_string()), log: vec![], reject }
}

fn request() -> Request {
    Request { query: "{ a }".to_string(), operation_name: None, variables: Variables::new() }
}

#[test]
fn hooks_reach_every_extension_in_order() {
    let sd = Data::new();
    let qd = Data::new();
    let ctx = ExtensionContext { schema_data: &sd, query_data: &qd };
    let mut exts = Extensions(vec![recorder(Some("one"), false), recorder(None, false)]);
    exts.parse_start(&ctx, "{ a }", &Variables::new());
    let node = QueryPathNode { parent: None, segment: QueryPathSegment::Name("a".to_string()) };
    let info = ResolveInfo { resolve_id: ResolveId { parent: Some(0), current: 1 }, path_node: &node, parent_type: "Query", return_type: "Int!" };
    exts.resolve_start(&ctx, &info);
    for e in &exts.0 {
        assert_eq!(e.log, vec!["parse { a }".to_string(), "start 0:1".to_string()]);
    }
}

#[test]
fn prepare_request_threads_and_stops_at_rejection() {
    let sd = Data::new();
    let qd = Data::new();
    let ctx = ExtensionContext { schema_data: &sd, query_data: &qd };
    let mut exts = Extensions(vec![recorder(None, false), recorder(None, false)]);
    let r = exts.prepare_request(&ctx, request()).unwrap();
    assert_eq!(r.query, "{ a } #seen #seen");
    let mut exts = Extensions(vec![recorder(None, true), recorder(None, false)]);
    let err = exts.prepare_request(&ctx, request()).unwrap_err();
    assert_eq!(err.message, "rejected");
    let mut none: Extensions<Recorder> = Extensions(vec![]);
    assert_eq!(none.prepare_request(&ctx, request()).unwrap().query, "{ a }");
}

#[test]
fn results_only_from_named_extensions() {
    let sd = Data::new();
    let qd = Data::new();
    let ctx = ExtensionContext { schema_data: &sd, query_data: &qd };
    let mut exts = Extensions(vec![recorder(Some("one"), false), recorder(None, false)]);
    let r = exts.result(&ctx).unwrap();
    let mut expected = serde_json::Map::new();
    expected.insert("one".to_string(), serde_json::Value::from(0u64));
    assert_eq!(r, serde_json::Value::Object(expected));
}

#[test]
fn no_named_extension_gives_no_result() {
    let sd = Data::new();
    let qd = Data::new();
    let ctx = ExtensionContext { schema_data: &sd, query_data: &qd };
    let mut exts = Extensions(vec![recorder(None, false)]);
    assert!(exts.result(&ctx).is_none());
    let mut none: Extensions<Recorder> = Extensions(vec![]);
    assert!(none.result(&ctx).is_none());
}

#[test]
fn errors_are_reported_and_kept() {
    let sd = Data::new();
    let qd = Data::new();
    let ctx = ExtensionContext { schema_data: &sd, query_data: &qd };
    let mut exts = Extensions(vec![recorder(None, false)]);
    let r: Result<i32, ServerError> = Err(ServerError { message: "boom".to_string(), pos: None });
    let r = r.log_error(&ctx, &mut exts);
    assert_eq!(r.unwrap_err().message, "boom");
    let many: Result<i32, Vec<ServerError>> = Err(vec![
        ServerError { message: "x".to_string(), pos: None },
        ServerError { message: "y".to_string(), pos: None },
    ]);
    let many = many.log_error(&ctx, &mut exts);
    assert_eq!(many.unwrap_err().len(), 2);
    let ok: Result<i32, ServerError> = Ok(3);
    assert_eq!(ok.log_error(&ctx, &mut exts).unwrap(), 3);
    assert_eq!(exts.0[0].log, vec!["error boom", "error x", "error y"]);
}

#[test]
fn extension_context_data() {
    let mut sd = Data::new();
    sd.insert("T", Value::Number(1));
    let mut qd = Data::new();
    qd.insert("T", Value::Number(2));
    let ctx = ExtensionContext { schema_data: &sd, query_data: &qd };
    assert!(matches!(ctx.data("T"), Ok(Value::Number(2))));
    assert!(matches!(ctx.data_unchecked("T"), Value::Number(2)));
    assert!(ctx.data_opt("U").is_none());
    assert!(ctx.data("U").is_err());
}

struct RecorderFactory;

impl ExtensionFactory<Recorder> for RecorderFactory {
    fn create(&self) -> Recorder {
        recorder(Some("made"), false)
    }
}

#[test]
fn factories_make_fresh_extensions() {
    let f = RecorderFactory;
    let a = f.create();
    assert!(a.log.is_empty());
    assert_eq!(a.name(), Some("made".to_string()));
}

#[test]
fn named_results_keep_named_answers_in_order() {
    let answers = vec![
        (Some("b".to_string()), Some(serde_json::Value::from(1u64))),
        (None, None),
        (Some("skipped".to_string()), None),
        (Some("a".to_string()), Some(serde_json::Value::from(2u64))),
    ];
    let r = named_results(answers);
    assert_eq!(r.len(), 2);
    assert_eq!(r[0].0, "b");
    assert_eq!(r[1].0, "a");
    assert_eq!(r[1].1, serde_json::Value::from(2u64));
    assert!(named_results(vec![]).is_empty());
}
