use vstd::prelude::*;
use crate::ast::ExecutableDocument;
use crate::context::{
    data_lookup, data_missing_message, data_result, find_data, Data, QueryPathNode, ResolveId,
    Variables,
};
use crate::error::{Error, ServerError, ServerResult};
use crate::value::Value;
use serde_json::Value as JsonValue;

verus! {

#[verifier::external_type_specification]
#[verifier::external_body]
pub struct ExJsonValue(JsonValue);

/// The JSON object that collecting named values into a serde_json map makes.
pub uninterp spec fn json_object_of(entries: Seq<(Seq<char>, JsonValue)>) -> JsonValue;

/// Relies on serde_json's `FromIterator` for `Map` and the `Value::Object`
/// variant: the named results become one JSON object.
#[verifier::external_body]
fn json_object(entries: Vec<(String, JsonValue)>) -> (r: JsonValue)
    ensures
        r == json_object_of(entries@.map_values(|e: (String, JsonValue)| (e.0@, e.1))),
{
    JsonValue::Object(entries.into_iter().collect())
}

/// The data an extension can see: the schema's and the request's bags.
pub struct ExtensionContext<'a> {
    pub schema_data: &'a Data,
    pub query_data: &'a Data,
}

impl<'a> ExtensionContext<'a> {
    /// The data under `tag`, from the request's bag first, else the schema's.
    pub fn data(&self, tag: &str) -> (r: Result<&'a Value, Error>)
        ensures
            match r {
                Ok(v) => data_lookup(self.query_data.0@, self.schema_data.0@, tag@) == Some(*v),
                Err(e) => data_lookup(self.query_data.0@, self.schema_data.0@, tag@) is None
                    && e.message@ == data_missing_message(tag@),
            },
    {
        data_result(self.query_data, self.schema_data, tag)
    }

    /// The data under `tag`, which the caller knows to be there.
    pub fn data_unchecked(&self, tag: &str) -> (r: &'a Value)
        requires
            data_lookup(self.query_data.0@, self.schema_data.0@, tag@) is Some,
        ensures
            data_lookup(self.query_data.0@, self.schema_data.0@, tag@) == Some(*r),
    {
        find_data(self.query_data, self.schema_data, tag).unwrap()
    }

    /// The data under `tag`, if either bag holds it.
    pub fn data_opt(&self, tag: &str) -> (r: Option<&'a Value>)
        ensures
            match r {
                Some(v) => data_lookup(self.query_data.0@, self.schema_data.0@, tag@) == Some(*v),
                None => data_lookup(self.query_data.0@, self.schema_data.0@, tag@) is None,
            },
    {
        find_data(self.query_data, self.schema_data, tag)
    }
}

/// What an extension learns of a field resolution.
pub struct ResolveInfo<'a> {
    /// Pairs the start of a resolution with its end; resolutions run
    /// concurrently, so their hooks interleave.
    pub resolve_id: ResolveId,
    /// Where the field stands in the response.
    pub path_node: &'a QueryPathNode,
    /// The type that holds the field.
    pub parent_type: &'a str,
    /// The qualified type of the field's value.
    pub return_type: &'a str,
}

/// A request as it comes in.
#[derive(Debug)]
pub struct Request {
    pub query: String,
    pub operation_name: Option<String>,
    pub variables: Variables,
}

/// An observer of every phase of a request. Every hook does nothing unless
/// the extension says otherwise.
pub trait Extension {
    /// The name under which the extension's result goes into the response.
    fn name(&self) -> Option<String> {
        None
    }

    /// May rewrite the request, or reject it.
    fn prepare_request(&mut self, ctx: &ExtensionContext<'_>, request: Request) -> ServerResult<
        Request,
    > {
        Ok(request)
    }

    fn parse_start(&mut self, ctx: &ExtensionContext<'_>, query_source: &str, variables: &Variables) {
    }

    fn parse_end(&mut self, ctx: &ExtensionContext<'_>, document: &ExecutableDocument) {
    }

    fn validation_start(&mut self, ctx: &ExtensionContext<'_>) {
    }

    fn validation_end(&mut self, ctx: &ExtensionContext<'_>) {
    }

    fn execution_start(&mut self, ctx: &ExtensionContext<'_>) {
    }

    fn execution_end(&mut self, ctx: &ExtensionContext<'_>) {
    }

    fn resolve_start(&mut self, ctx: &ExtensionContext<'_>, info: &ResolveInfo<'_>) {
    }

    fn resolve_end(&mut self, ctx: &ExtensionContext<'_>, info: &ResolveInfo<'_>) {
    }

    /// Told of every error; it cannot change it.
    fn error(&mut self, ctx: &ExtensionContext<'_>, err: &ServerError) {
    }

    /// What the extension adds to the response.
    fn result(&mut self, ctx: &ExtensionContext<'_>) -> Option<JsonValue> {
        None
    }
}

/// Makes a fresh extension for each request; the engine keeps it for that
/// one request.
pub trait ExtensionFactory<E: Extension> {
    fn create(&self) -> E;
}

/// Asks one extension for its result.
fn call_result<E: Extension>(e: &mut E, ctx: &ExtensionContext<'_>) -> (r: Option<JsonValue>)
    ensures
        exists|g: &mut E| *g == *old(e) && *final(g) == *final(e) && call_ensures(E::result, (g, ctx), r),
{
    e.result(ctx)
}

/// The extensions of a request, in the order they were registered; each hook
/// is passed on to every one of them in that order.
pub struct Extensions<E>(pub Vec<E>);

impl<E: Extension> Extension for Extensions<E> {
    /// Hands the request through every extension in turn; the first rejection
    /// ends it.
    fn prepare_request(&mut self, ctx: &ExtensionContext<'_>, request: Request) -> (r: ServerResult<
        Request,
    >)
        ensures
            final(self).0@.len() == old(self).0@.len(),
            old(self).0@.len() == 0 ==> r == Ok::<Request, ServerError>(request),
    {
        let ghost given = request;
        let mut current = Ok(request);
        let n = self.0.len();
        let mut i: usize = 0;
        while i < n
            invariant_except_break
                current is Ok,
                i == 0 ==> current == Ok::<Request, ServerError>(given),
            invariant
                n == self.0@.len(),
                i <= n,
            ensures
                n == 0 ==> current == Ok::<Request, ServerError>(given),
            decreases n - i,
        {
            let request = match current {
                Ok(request) => request,
                Err(e) => {
                    current = Err(e);
                    break;
                },
            };
            current = self.0[i].prepare_request(ctx, request);
            if current.is_err() {
                break;
            }
            i += 1;
        }
        current
    }

    fn parse_start(&mut self, ctx: &ExtensionContext<'_>, query_source: &str, variables: &Variables)
        ensures
            final(self).0@.len() == old(self).0@.len(),
    {
        let n = self.0.len();
        let mut i: usize = 0;
        while i < n
            invariant
                n == self.0@.len(),
                i <= n,
            decreases n - i,
        {
            self.0[i].parse_start(ctx, query_source, variables);
            i += 1;
        }
    }

    fn parse_end(&mut self, ctx: &ExtensionContext<'_>, document: &ExecutableDocument)
        ensures
            final(self).0@.len() == old(self).0@.len(),
    {
        let n = self.0.len();
        let mut i: usize = 0;
        while i < n
            invariant
                n == self.0@.len(),
                i <= n,
            decreases n - i,
        {
            self.0[i].parse_end(ctx, document);
            i += 1;
        }
    }

    fn validation_start(&mut self, ctx: &ExtensionContext<'_>)
        ensures
            final(self).0@.len() == old(self).0@.len(),
    {
        let n = self.0.len();
        let mut i: usize = 0;
        while i < n
            invariant
                n == self.0@.len(),
                i <= n,
            decreases n - i,
        {
            self.0[i].validation_start(ctx);
            i += 1;
        }
    }

    fn validation_end(&mut self, ctx: &ExtensionContext<'_>)
        ensures
            final(self).0@.len() == old(self).0@.len(),
    {
        let n = self.0.len();
        let mut i: usize = 0;
        while i < n
            invariant
                n == self.0@.len(),
                i <= n,
            decreases n - i,
        {
            self.0[i].validation_end(ctx);
            i += 1;
        }
    }

    fn execution_start(&mut self, ctx: &ExtensionContext<'_>)
        ensures
            final(self).0@.len() == old(self).0@.len(),
    {
        let n = self.0.len();
        let mut i: usize = 0;
        while i < n
            invariant
                n == self.0@.len(),
                i <= n,
            decreases n - i,
        {
            self.0[i].execution_start(ctx);
            i += 1;
        }
    }

    fn execution_end(&mut self, ctx: &ExtensionContext<'_>)
        ensures
            final(self).0@.len() == old(self).0@.len(),
    {
        let n = self.0.len();
        let mut i: usize = 0;
        while i < n
            invariant
                n == self.0@.len(),
                i <= n,
            decreases n - i,
        {
            self.0[i].execution_end(ctx);
            i += 1;
        }
    }

    fn resolve_start(&mut self, ctx: &ExtensionContext<'_>, info: &ResolveInfo<'_>)
        ensures
            final(self).0@.len() == old(self).0@.len(),
    {
        let n = self.0.len();
        let mut i: usize = 0;
        while i < n
            invariant
                n == self.0@.len(),
                i <= n,
            decreases n - i,
        {
            self.0[i].resolve_start(ctx, info);
            i += 1;
        }
    }

    fn resolve_end(&mut self, ctx: &ExtensionContext<'_>, info: &ResolveInfo<'_>)
        ensures
            final(self).0@.len() == old(self).0@.len(),
    {
        let n = self.0.len();
        let mut i: usize = 0;
        while i < n
            invariant
                n == self.0@.len(),
                i <= n,
            decreases n - i,
        {
            self.0[i].resolve_end(ctx, info);
            i += 1;
        }
    }

    fn error(&mut self, ctx: &ExtensionContext<'_>, err: &ServerError)
        ensures
            final(self).0@.len() == old(self).0@.len(),
    {
        let n = self.0.len();
        let mut i: usize = 0;
        while i < n
            invariant
                n == self.0@.len(),
                i <= n,
            decreases n - i,
        {
            self.0[i].error(ctx, err);
            i += 1;
        }
    }

    /// The named results of the extensions as one JSON object; nothing when
    /// no extension has a name and a result. An extension without a name is
    /// not asked for its result.
    fn result(&mut self, ctx: &ExtensionContext<'_>) -> (r: Option<JsonValue>)
        ensures
            final(self).0@.len() == old(self).0@.len(),
            exists|answers: Seq<(Option<String>, Option<JsonValue>)>|
                {
                    &&& answers.len() == old(self).0@.len()
                    &&& forall|i: int|
                        0 <= i < answers.len() ==> call_ensures(
                            E::name,
                            (&old(self).0@[i],),
                            (#[trigger] answers[i]).0,
                        )
                    &&& forall|i: int|
                        0 <= i < answers.len() ==> if (#[trigger] answers[i]).0 is Some {
                            exists|g: &mut E|
                                *g == old(self).0@[i] && *final(g) == final(self).0@[i] && call_ensures(
                                    E::result,
                                    (g, ctx),
                                    answers[i].1,
                                )
                        } else {
                            answers[i].1 is None && final(self).0@[i] == old(self).0@[i]
                        }
                    &&& r == if named_results_of(answers).len() == 0 {
                        None
                    } else {
                        Some(
                            json_object_of(
                                named_results_of(answers).map_values(
                                    |e: (String, JsonValue)| (e.0@, e.1),
                                ),
                            ),
                        )
                    }
                },
    {
        let mut answers: Vec<(Option<String>, Option<JsonValue>)> = Vec::new();
        let n = self.0.len();
        let mut i: usize = 0;
        while i < n
            invariant
                n == self.0@.len(),
                n == old(self).0@.len(),
                i <= n,
                answers@.len() == i,
                forall|j: int| 0 <= j < i ==> call_ensures(E::name, (&old(self).0@[j],), (#[trigger] answers@[j]).0),
                forall|j: int|
                    0 <= j < i ==> if (#[trigger] answers@[j]).0 is Some {
                        exists|g: &mut E|
                            *g == old(self).0@[j] && *final(g) == self.0@[j] && call_ensures(
                                E::result,
                                (g, ctx),
                                answers@[j].1,
                            )
                    } else {
                        answers@[j].1 is None && self.0@[j] == old(self).0@[j]
                    },
                forall|j: int| i <= j < n ==> #[trigger] self.0@[j] == old(self).0@[j],
            decreases n - i,
        {
            let name = self.0[i].name();
            let res = if name.is_some() {
                call_result(&mut self.0[i], ctx)
            } else {
                None
            };
            answers.push((name, res));
            i += 1;
        }
        let ghost given = answers@;
        let named = named_results(answers);
        if named.len() == 0 {
            None
        } else {
            Some(json_object(named))
        }
    }
}

/// The results that extensions contribute: in order, each answer that has
/// both a name and a result.
pub open spec fn named_results_of(answers: Seq<(Option<String>, Option<JsonValue>)>) -> Seq<
    (String, JsonValue),
>
    decreases answers.len(),
{
    if answers.len() == 0 {
        Seq::empty()
    } else {
        let rest = named_results_of(answers.drop_last());
        match answers.last() {
            (Some(n), Some(v)) => rest.push((n, v)),
            _ => rest,
        }
    }
}

/// Keeps, in order, the answers that have both a name and a result.
pub fn named_results(answers: Vec<(Option<String>, Option<JsonValue>)>) -> (r: Vec<(String, JsonValue)>)
    ensures
        r@ == named_results_of(answers@),
{
    let ghost all = answers@;
    let mut answers = answers;
    let mut reversed: Vec<(String, JsonValue)> = Vec::new();
    proof {
        assert(named_results_of(all) =~= named_results_of(answers@) + reversed@.reverse());
    }
    while answers.len() > 0
        invariant
            named_results_of(all) == named_results_of(answers@) + reversed@.reverse(),
        decreases answers@.len(),
    {
        let ghost before_answers = answers@;
        let ghost before_reversed = reversed@;
        let e = answers.pop().unwrap();
        proof {
            assert(answers@ =~= before_answers.drop_last());
        }
        match e {
            (Some(n), Some(v)) => {
                reversed.push((n, v));
                proof {
                    assert(reversed@.reverse() =~= seq![(n, v)] + before_reversed.reverse());
                    assert(named_results_of(before_answers) == named_results_of(answers@).push((n, v)));
                    assert(named_results_of(all) =~= named_results_of(answers@) + reversed@.reverse());
                }
            },
            _ => {},
        }
    }
    let mut out: Vec<(String, JsonValue)> = Vec::new();
    proof {
        assert(named_results_of(answers@) =~= Seq::<(String, JsonValue)>::empty());
        assert(out@ + reversed@.reverse() =~= named_results_of(all));
    }
    while reversed.len() > 0
        invariant
            out@ + reversed@.reverse() == named_results_of(all),
        decreases reversed@.len(),
    {
        let ghost before_reversed = reversed@;
        let ghost before_out = out@;
        let x = reversed.pop().unwrap();
        out.push(x);
        proof {
            assert(before_reversed.reverse() =~= seq![x] + reversed@.reverse());
            assert(out@ + reversed@.reverse() =~= before_out + before_reversed.reverse());
        }
    }
    proof {
        assert(out@ =~= named_results_of(all));
    }
    out
}

/// Passes the errors of an outcome to every extension, and hands the outcome
/// back as it was.
pub trait ErrorLogger: Sized {
    fn log_error<E: Extension>(self, ctx: &ExtensionContext<'_>, extensions: &mut Extensions<E>) -> (r:
        Self)
        ensures
            r == self,
            final(extensions).0@.len() == old(extensions).0@.len(),
    ;
}

/// Reports one error to an extension.
fn call_error<X: Extension>(e: &mut X, ctx: &ExtensionContext<'_>, err: &ServerError)
    ensures
        exists|g: &mut X|
            *g == *old(e) && *final(g) == *final(e) && call_ensures(X::error, (g, ctx, err), ()),
{
    e.error(ctx, err);
}

impl<T> ErrorLogger for ServerResult<T> {
    /// An error is reported through the extension set's `error` hook, which
    /// passes it to every extension; a value reports nothing.
    fn log_error<E: Extension>(self, ctx: &ExtensionContext<'_>, extensions: &mut Extensions<E>) -> (r:
        Self)
        ensures
            match self {
                Err(err) => exists|g: &mut Extensions<E>|
                    *g == *old(extensions) && *final(g) == *final(extensions) && call_ensures(
                        Extensions::<E>::error,
                        (g, ctx, &err),
                        (),
                    ),
                Ok(_) => *final(extensions) == *old(extensions),
            },
    {
        if let Err(err) = &self {
            call_error(extensions, ctx, err);
        }
        self
    }
}

impl<T> ErrorLogger for Result<T, Vec<ServerError>> {
    fn log_error<E: Extension>(self, ctx: &ExtensionContext<'_>, extensions: &mut Extensions<E>) -> (r:
        Self) {
        if let Err(errors) = &self {
            let n = errors.len();
            let mut i: usize = 0;
            while i < n
                invariant
                    n == errors@.len(),
                    i <= n,
                    extensions.0@.len() == old(extensions).0@.len(),
                decreases n - i,
            {
                extensions.error(ctx, &errors[i]);
                i += 1;
            }
        }
        self
    }
}

} // verus!
