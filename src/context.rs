use vstd::prelude::*;
use crate::name_map::{entry_view, lemma_lookup_stored, lemma_position_absent, lookup, stored, unique_keys, NameMap};
use crate::ast::{arguments_view, Directive, Field, FragmentDefinition, OperationDefinition, SelectionSet, VariableDefinition};
use crate::error::{input_error_message, Error, InputValueError, ServerError, ServerResult};
use crate::input::InputValueType;
use crate::look_ahead::Lookahead;
use crate::registry::Registry;
use crate::resolve::{const_value, resolve_input, skip_by_directives, skip_decision, undefined_error, undefined_message};
use crate::type_ref::same_text;
use crate::value::{decimal, entries_text, InputValue, Pos, Positioned};
use crate::value::{Value, ValueModel};

verus! {

broadcast use vstd::std_specs::vec::group_vec_axioms;

/// The table that storing each entry of `s` in order into an empty table
/// gives: a repeated name keeps its first place and takes its last value.
pub open spec fn table_of(s: Seq<(String, Value)>) -> Seq<(Seq<char>, Value)>
    decreases s.len(),
{
    if s.len() == 0 {
        Seq::empty()
    } else {
        stored(table_of(s.drop_last()), s.last().0@, s.last().1)
    }
}

/// Entries whose names are distinct make a table of themselves, in their
/// order: reading an object value back gives the table it was written from.
pub proof fn lemma_table_of_distinct(s: Seq<(String, Value)>)
    requires
        unique_keys(s.map_values(|e: (String, Value)| entry_view(e))),
    ensures
        table_of(s) == s.map_values(|e: (String, Value)| entry_view(e)),
    decreases s.len(),
{
    if s.len() > 0 {
        let v = s.map_values(|e: (String, Value)| entry_view(e));
        let d = s.drop_last();
        let vd = d.map_values(|e: (String, Value)| entry_view(e));
        assert(vd =~= v.drop_last());
        assert(unique_keys(vd));
        lemma_table_of_distinct(d);
        assert forall|j: int| 0 <= j < vd.len() implies vd[j].0 != s.last().0@ by {
            assert(v[j].0 != v[v.len() - 1].0);
        }
        lemma_position_absent(vd, s.last().0@);
        assert(vd.push((s.last().0@, s.last().1)) =~= v);
    }
}

/// The variables of a request, by name.
#[derive(Debug)]
pub struct Variables(pub NameMap<Value>);

impl Variables {
    /// No variables.
    pub fn new() -> (r: Variables)
        ensures
            r.0@ == Seq::<(Seq<char>, Value)>::empty(),
            r.0.wf(),
    {
        Variables(NameMap::new())
    }

    /// The variables that an object value lists; any other value gives none.
    pub fn from_value(value: Value) -> (r: Variables)
        ensures
            match value {
                Value::Object(entries) => r.0@ == table_of(entries@),
                _ => r.0@ == Seq::<(Seq<char>, Value)>::empty(),
            },
            r.0.wf(),
    {
        match value {
            Value::Object(entries) => {
                let mut map: NameMap<Value> = NameMap::new();
                let ghost all = entries@;
                let mut rest = entries;
                let mut taken: Vec<(String, Value)> = Vec::new();
                // Moving the entries from the back of `rest` into `taken`
                // reverses them; popping `taken` then stores them in order.
                while rest.len() > 0
                    invariant
                        rest@ + taken@.reverse() == all,
                    decreases rest@.len(),
                {
                    let e = rest.pop().unwrap();
                    let ghost before_taken = taken@;
                    let ghost before_rest = rest@;
                    taken.push(e);
                    proof {
                        assert(before_rest.push(e) + before_taken.reverse() =~= before_rest + taken@.reverse());
                    }
                }
                proof {
                    assert(taken@.reverse() =~= all.subrange(0, all.len() as int));
                }
                let ghost n = all.len() as int;
                while taken.len() > 0
                    invariant
                        taken@.len() <= n,
                        n == all.len(),
                        taken@.reverse() == all.subrange(n - taken@.len(), n),
                        map@ == table_of(all.take(n - taken@.len())),
                        map.wf(),
                    decreases taken@.len(),
                {
                    let ghost k = n - taken@.len();
                    let ghost before = taken@;
                    let e = taken.pop().unwrap();
                    proof {
                        assert(before.reverse()[0] == e);
                        assert(all[k] == e);
                        assert forall|j: int| 0 <= j < taken@.len() implies taken@.reverse()[j]
                            == all.subrange(k + 1, n)[j] by {
                            assert(taken@.reverse()[j] == before.reverse()[j + 1]);
                            assert(before.reverse()[j + 1] == all.subrange(k, n)[j + 1]);
                        }
                        assert(taken@.reverse() =~= all.subrange(k + 1, n));
                        assert(all.take(k + 1).drop_last() =~= all.take(k));
                    }
                    map.insert(e.0, e.1);
                }
                proof {
                    assert(all.take(n) =~= all);
                }
                Variables(map)
            },
            _ => Variables(NameMap::new()),
        }
    }

    /// The variables as text, e.g. `{a: 1, b: "x"}`.
    pub fn to_string(&self) -> (r: String)
        ensures
            r@ == seq!['{'] + entries_text(
                self.0@.map_values(|e: (Seq<char>, Value)| (e.0, e.1@)),
            ) + seq!['}'],
    {
        proof {
            reveal_strlit("{");
            reveal_strlit("}");
            reveal_strlit(", ");
            reveal_strlit(": ");
        }
        let ghost all = self.0@.map_values(|e: (Seq<char>, Value)| (e.0, e.1@));
        let n = self.0.len();
        let mut out = String::from_str("{");
        let mut i: usize = 0;
        while i < n
            invariant
                i <= n,
                n == self.0@.len(),
                all == self.0@.map_values(|e: (Seq<char>, Value)| (e.0, e.1@)),
                out@ == seq!['{'] + entries_text(all.take(i as int)),
            decreases n - i,
        {
            let (name, value) = self.0.entry_at(i);
            if i > 0 {
                out.append(", ");
            }
            out.append(name.as_str());
            out.append(": ");
            let t = value.to_string();
            out.append(t.as_str());
            proof {
                let m = all.take(i + 1);
                assert(m.drop_last() =~= all.take(i as int));
                assert(m.last() == (name@, value@));
                if i == 0 {
                    assert(m.len() == 1);
                }
                assert(out@ =~= seq!['{'] + entries_text(m));
            }
            i += 1;
        }
        out.append("}");
        proof {
            assert(all.take(n as int) =~= all);
        }
        out
    }

    /// The variables as an object value, in their order.
    pub fn into_value(self) -> (r: Value)
        ensures
            r matches Value::Object(entries) && entries@.map_values(|e: (String, Value)| entry_view(e))
                == self.0@,
    {
        Value::Object(self.0.into_entries())
    }
}

/// Values that a request depends on, by a tag that names their kind: at most
/// one value per tag.
#[derive(Debug)]
pub struct Data(pub NameMap<Value>);

/// Where a lookup by tag finds its value: the query's bag shadows the
/// schema's.
pub open spec fn data_lookup(
    query: Seq<(Seq<char>, Value)>,
    schema: Seq<(Seq<char>, Value)>,
    tag: Seq<char>,
) -> Option<Value> {
    match lookup(query, tag) {
        Some(v) => Some(v),
        None => lookup(schema, tag),
    }
}

/// A value stored in the query's bag is what a lookup of its tag gives, even
/// where the schema's bag holds one under the same tag.
pub proof fn lemma_query_data_shadows_schema(
    query: Seq<(Seq<char>, Value)>,
    schema: Seq<(Seq<char>, Value)>,
    tag: Seq<char>,
    in_query: Value,
    in_schema: Value,
)
    ensures
        data_lookup(stored(query, tag, in_query), stored(schema, tag, in_schema), tag) == Some(
            in_query,
        ),
{
    lemma_lookup_stored(query, tag, in_query, tag);
}

pub open spec fn data_missing_message(tag: Seq<char>) -> Seq<char> {
    "Data `"@ + tag + "` does not exist."@
}

impl Data {
    pub fn new() -> (r: Data)
        ensures
            r.0@ == Seq::<(Seq<char>, Value)>::empty(),
            r.0.wf(),
    {
        Data(NameMap::new())
    }

    /// Stores `value` under `tag`, replacing what the tag held.
    pub fn insert(&mut self, tag: &str, value: Value)
        ensures
            final(self).0@ == stored(old(self).0@, tag@, value),
            old(self).0.wf() ==> final(self).0.wf(),
    {
        self.0.insert(String::from_str(tag), value);
    }
}

/// The value under `tag`, from the query's bag first, else the schema's.
pub fn find_data<'a>(query: &'a Data, schema: &'a Data, tag: &str) -> (r: Option<&'a Value>)
    ensures
        match r {
            Some(v) => data_lookup(query.0@, schema.0@, tag@) == Some(*v),
            None => data_lookup(query.0@, schema.0@, tag@) is None,
        },
{
    match query.0.get(tag) {
        Some(v) => Some(v),
        None => schema.0.get(tag),
    }
}

/// The error for a tag that neither bag holds.
pub fn data_missing(tag: &str) -> (r: Error)
    ensures
        r.message@ == data_missing_message(tag@),
{
    let mut message = String::from_str("Data `");
    message.append(tag);
    message.append("` does not exist.");
    proof {
        reveal_strlit("Data `");
        reveal_strlit("` does not exist.");
    }
    Error { message }
}

/// The value under `tag` (see `find_data`), or the error that names the tag.
pub fn data_result<'a>(query: &'a Data, schema: &'a Data, tag: &str) -> (r: Result<&'a Value, Error>)
    ensures
        match r {
            Ok(v) => data_lookup(query.0@, schema.0@, tag@) == Some(*v),
            Err(e) => data_lookup(query.0@, schema.0@, tag@) is None && e.message@
                == data_missing_message(tag@),
        },
{
    match find_data(query, schema, tag) {
        Some(v) => Ok(v),
        None => Err(data_missing(tag)),
    }
}

/// One step of a path through the response.
#[derive(Clone, Debug, PartialEq, Eq)]
pub enum QueryPathSegment {
    /// A position in a list.
    Index(usize),
    /// A field, by its response key.
    Name(String),
}

/// A path through the response: its last segment and the path before it.
#[derive(Debug)]
pub struct QueryPathNode {
    pub parent: Option<Box<QueryPathNode>>,
    pub segment: QueryPathSegment,
}

/// The segments of a path, from the root.
pub open spec fn path_segments(n: QueryPathNode) -> Seq<QueryPathSegment>
    decreases n,
{
    match n.parent {
        Some(p) => path_segments(*p).push(n.segment),
        None => seq![n.segment],
    }
}

/// The segments of an optional path; no path has none.
pub open spec fn opt_path_segments(n: Option<QueryPathNode>) -> Seq<QueryPathSegment> {
    match n {
        Some(p) => path_segments(p),
        None => Seq::empty(),
    }
}

/// Relies on `usize`'s `Display` (through `ToString`): plain decimal digits.
#[verifier::external_body]
fn usize_text(n: usize) -> (r: String)
    ensures
        r@ == decimal(n as nat),
{
    n.to_string()
}

pub open spec fn segment_text(s: QueryPathSegment) -> Seq<char> {
    match s {
        QueryPathSegment::Index(i) => decimal(i as nat),
        QueryPathSegment::Name(n) => n@,
    }
}

/// The path as text: its segments from the root, separated by dots.
pub open spec fn path_text(n: QueryPathNode) -> Seq<char>
    decreases n,
{
    match n.parent {
        Some(p) => path_text(*p) + seq!['.'] + segment_text(n.segment),
        None => segment_text(n.segment),
    }
}

/// The response key of the nearest field on the path, from its end.
pub open spec fn nearest_name(n: QueryPathNode) -> Option<Seq<char>>
    decreases n,
{
    match n.segment {
        QueryPathSegment::Name(s) => Some(s@),
        QueryPathSegment::Index(_) => match n.parent {
            Some(p) => nearest_name(*p),
            None => None,
        },
    }
}

impl QueryPathSegment {
    pub fn copy_segment(&self) -> (r: QueryPathSegment)
        ensures
            r == *self,
    {
        match self {
            QueryPathSegment::Index(i) => QueryPathSegment::Index(*i),
            QueryPathSegment::Name(n) => QueryPathSegment::Name(n.clone()),
        }
    }

    pub fn to_string(&self) -> (r: String)
        ensures
            r@ == segment_text(*self),
    {
        match self {
            QueryPathSegment::Index(i) => usize_text(*i),
            QueryPathSegment::Name(n) => n.clone(),
        }
    }
}

impl QueryPathNode {
    /// A copy of the path.
    pub fn copy_path(&self) -> (r: QueryPathNode)
        ensures
            r == *self,
        decreases self,
    {
        let parent = match &self.parent {
            Some(p) => Some(Box::new(p.copy_path())),
            None => None,
        };
        QueryPathNode { parent, segment: self.segment.copy_segment() }
    }

    /// The response key of the nearest field on the path.
    pub fn field_name(&self) -> (r: &str)
        requires
            nearest_name(*self) is Some,
        ensures
            nearest_name(*self) == Some(r@),
        decreases self,
    {
        match &self.segment {
            QueryPathSegment::Name(name) => name.as_str(),
            QueryPathSegment::Index(_) => match &self.parent {
                Some(p) => p.field_name(),
                None => {
                    proof {
                        assert(false);
                    }
                    ""
                },
            },
        }
    }

    /// The segments from the root.
    pub fn segments(&self) -> (r: Vec<QueryPathSegment>)
        ensures
            r@ == path_segments(*self),
        decreases self,
    {
        let mut r = match &self.parent {
            Some(p) => p.segments(),
            None => Vec::new(),
        };
        r.push(self.segment.copy_segment());
        proof {
            if self.parent is None {
                assert(r@ =~= seq![self.segment]);
            }
        }
        r
    }

    /// The path as text, e.g. `obj.2.detail`.
    pub fn to_string(&self) -> (r: String)
        ensures
            r@ == path_text(*self),
        decreases self,
    {
        match &self.parent {
            Some(p) => {
                let mut s = p.to_string();
                s.append(".");
                let seg = self.segment.to_string();
                s.append(seg.as_str());
                proof {
                    reveal_strlit(".");
                }
                s
            },
            None => self.segment.to_string(),
        }
    }
}

/// The identity of one field resolution within a request.
#[derive(Clone, Copy, Debug, PartialEq, Eq, Structural)]
pub struct ResolveId {
    pub parent: Option<usize>,
    pub current: usize,
}

pub open spec fn resolve_id_text(id: ResolveId) -> Seq<char> {
    match id.parent {
        Some(p) => decimal(p as nat) + seq![':'] + decimal(id.current as nat),
        None => decimal(id.current as nat),
    }
}

impl ResolveId {
    /// The id of the root of a request.
    pub fn root() -> (r: ResolveId)
        ensures
            r.parent is None,
            r.current == 0,
    {
        ResolveId { parent: None, current: 0 }
    }

    /// `parent:current`, or `current` at the root.
    pub fn to_string(&self) -> (r: String)
        ensures
            r@ == resolve_id_text(*self),
    {
        match self.parent {
            Some(p) => {
                let mut s = usize_text(p);
                s.append(":");
                let c = usize_text(self.current);
                s.append(c.as_str());
                proof {
                    reveal_strlit(":");
                }
                s
            },
            None => usize_text(self.current),
        }
    }
}

/// The source of resolve ids for one request: each id it hands out is one
/// more than the one before, starting after the root's 0.
#[derive(Debug)]
pub struct ResolveIdCounter {
    last: usize,
}

impl View for ResolveIdCounter {
    type V = nat;

    /// The last id handed out.
    closed spec fn view(&self) -> nat {
        self.last as nat
    }
}

impl ResolveIdCounter {
    pub fn new() -> (r: ResolveIdCounter)
        ensures
            r@ == 0,
    {
        ResolveIdCounter { last: 0 }
    }

    /// The next id.
    pub fn next_id(&mut self) -> (r: usize)
        requires
            old(self)@ < usize::MAX,
        ensures
            final(self)@ == old(self)@ + 1,
            r == final(self)@,
    {
        self.last = self.last + 1;
        self.last
    }

    /// Whether another id can be handed out.
    pub fn has_next(&self) -> (r: bool)
        ensures
            r == (self@ < usize::MAX),
    {
        self.last < usize::MAX
    }
}

/// Ids drawn one after another from one counter, all for children of the
/// same resolution, are pairwise distinct, are exactly the numbers after the
/// counter's start, and all name that parent.
pub proof fn lemma_sibling_ids_distinct(parent: usize, start: nat, ids: Seq<ResolveId>)
    requires
        forall|k: int|
            0 <= k < ids.len() ==> (#[trigger] ids[k]).current == start + k + 1 && ids[k].parent
                == Some(parent),
    ensures
        ids.map_values(|id: ResolveId| id.current).to_set().len() == ids.len(),
        ids.map_values(|id: ResolveId| id.current).to_set() == Set::new(
            |x: usize| start < x <= start + ids.len(),
        ),
        forall|k: int| 0 <= k < ids.len() ==> (#[trigger] ids[k]).parent == Some(parent),
{
    let cur = ids.map_values(|id: ResolveId| id.current);
    assert forall|a: int, b: int| 0 <= a < b < cur.len() implies cur[a] != cur[b] by {
        assert(ids[a].current == start + a + 1);
        assert(ids[b].current == start + b + 1);
    }
    assert(cur.no_duplicates());
    cur.unique_seq_to_set();
    assert forall|x: usize| #[trigger] cur.to_set().contains(x) == (start < x <= start + ids.len()) by {
        if start < x <= start + ids.len() {
            let k = x - start - 1;
            assert(cur[k] == x);
        }
        if cur.to_set().contains(x) {
            let k = choose|k: int| 0 <= k < cur.len() && cur[k] == x;
            assert(ids[k].current == start + k + 1);
        }
    }
    assert(cur.to_set() =~= Set::new(|x: usize| start < x <= start + ids.len()));
}

} // verus!

verus! {

/// What a schema holds for every request: its types and its data.
pub struct SchemaEnv {
    pub registry: Registry,
    pub data: Data,
}

/// What one request holds: its variables, the operation it runs, the
/// fragments of its document and its data.
pub struct QueryEnvInner {
    pub variables: Variables,
    pub operation: Positioned<OperationDefinition>,
    pub fragments: NameMap<Positioned<FragmentDefinition>>,
    pub ctx_data: Data,
}

/// The environment of one request, shared by all its contexts.
pub struct QueryEnv(pub QueryEnvInner);

/// The variable definitions of the request's operation.
pub open spec fn env_definitions(q: QueryEnv) -> Seq<Positioned<VariableDefinition>> {
    q.0.operation.node.variable_definitions@
}

/// The variables of the request.
pub open spec fn env_variables(q: QueryEnv) -> Seq<(Seq<char>, Value)> {
    q.0.variables.0@
}

/// The context of one step of execution: where it stands in the response,
/// which resolution it belongs to, what it works on (`T`: a selection set or
/// a field) and the environments it shares.
pub struct ContextBase<'a, T> {
    pub path_node: Option<QueryPathNode>,
    pub resolve_id: ResolveId,
    pub item: T,
    pub schema_env: &'a SchemaEnv,
    pub query_env: &'a QueryEnv,
}

/// The context of a selection set.
pub type ContextSelectionSet<'a> = ContextBase<'a, &'a Positioned<SelectionSet>>;

/// The context of a field.
pub type Context<'a> = ContextBase<'a, &'a Positioned<Field>>;

impl QueryEnv {
    pub fn new(inner: QueryEnvInner) -> (r: QueryEnv)
        ensures
            r.0 == inner,
    {
        QueryEnv(inner)
    }

    /// The context at the root of the request.
    pub fn create_context<'a, T>(
        &'a self,
        schema_env: &'a SchemaEnv,
        path_node: Option<QueryPathNode>,
        item: T,
        resolve_id: ResolveId,
    ) -> (r: ContextBase<'a, T>)
        ensures
            r.path_node == path_node,
            r.resolve_id == resolve_id,
            r.item == item,
            r.schema_env == schema_env,
            r.query_env == self,
    {
        ContextBase { path_node, resolve_id, item, schema_env, query_env: self }
    }
}

/// A copy of an optional path.
fn copy_opt_path(p: &Option<QueryPathNode>) -> (r: Option<QueryPathNode>)
    ensures
        r == *p,
{
    match p {
        Some(n) => Some(n.copy_path()),
        None => None,
    }
}

/// The path one segment further.
fn extend_path(p: &Option<QueryPathNode>, segment: QueryPathSegment) -> (r: QueryPathNode)
    ensures
        path_segments(r) == opt_path_segments(*p).push(segment),
{
    let parent = match p {
        Some(n) => Some(Box::new(n.copy_path())),
        None => None,
    };
    let r = QueryPathNode { parent, segment };
    proof {
        if p is None {
            assert(path_segments(r) =~= seq![segment]);
        }
    }
    r
}

impl<'a, T> ContextBase<'a, T> {
    /// A fresh id for a child resolution of this one.
    pub fn get_child_resolve_id(&self, counter: &mut ResolveIdCounter) -> (r: ResolveId)
        requires
            old(counter)@ < usize::MAX,
        ensures
            final(counter)@ == old(counter)@ + 1,
            r.current == final(counter)@,
            r.parent == Some(self.resolve_id.current),
    {
        let id = counter.next_id();
        ResolveId { parent: Some(self.resolve_id.current), current: id }
    }

    /// The context of a field of this one: the path gains the field's response
    /// key and the field gets a fresh resolve id.
    pub fn with_field(&self, field: &'a Positioned<Field>, counter: &mut ResolveIdCounter) -> (r:
        ContextBase<'a, &'a Positioned<Field>>)
        requires
            old(counter)@ < usize::MAX,
        ensures
            r.path_node matches Some(n) && path_segments(n) == opt_path_segments(self.path_node).push(
                QueryPathSegment::Name(
                    match field.node.alias {
                        Some(a) => a.node,
                        None => field.node.name.node,
                    },
                ),
            ),
            r.item == field,
            final(counter)@ == old(counter)@ + 1,
            r.resolve_id.current == final(counter)@,
            r.resolve_id.parent == Some(self.resolve_id.current),
            r.schema_env == self.schema_env,
            r.query_env == self.query_env,
    {
        let key = field.node.response_key().node.clone();
        let node = extend_path(&self.path_node, QueryPathSegment::Name(key));
        let resolve_id = self.get_child_resolve_id(counter);
        ContextBase {
            path_node: Some(node),
            resolve_id,
            item: field,
            schema_env: self.schema_env,
            query_env: self.query_env,
        }
    }

    /// The context of a selection set under this one: same path, same
    /// resolution.
    pub fn with_selection_set(&self, selection_set: &'a Positioned<SelectionSet>) -> (r: ContextBase<
        'a,
        &'a Positioned<SelectionSet>,
    >)
        ensures
            r.path_node == self.path_node,
            r.resolve_id == self.resolve_id,
            r.item == selection_set,
            r.schema_env == self.schema_env,
            r.query_env == self.query_env,
    {
        ContextBase {
            path_node: copy_opt_path(&self.path_node),
            resolve_id: self.resolve_id,
            item: selection_set,
            schema_env: self.schema_env,
            query_env: self.query_env,
        }
    }

    /// The data under `tag`, from the request's bag first, else the schema's.
    pub fn data(&self, tag: &str) -> (r: Result<&'a Value, Error>)
        ensures
            match r {
                Ok(v) => data_lookup(self.query_env.0.ctx_data.0@, self.schema_env.data.0@, tag@)
                    == Some(*v),
                Err(e) => data_lookup(self.query_env.0.ctx_data.0@, self.schema_env.data.0@, tag@) is None
                    && e.message@ == data_missing_message(tag@),
            },
    {
        data_result(&self.query_env.0.ctx_data, &self.schema_env.data, tag)
    }

    /// The data under `tag`, which the caller knows to be there.
    pub fn data_unchecked(&self, tag: &str) -> (r: &'a Value)
        requires
            data_lookup(self.query_env.0.ctx_data.0@, self.schema_env.data.0@, tag@) is Some,
        ensures
            data_lookup(self.query_env.0.ctx_data.0@, self.schema_env.data.0@, tag@) == Some(*r),
    {
        find_data(&self.query_env.0.ctx_data, &self.schema_env.data, tag).unwrap()
    }

    /// The data under `tag`, if either bag holds it.
    pub fn data_opt(&self, tag: &str) -> (r: Option<&'a Value>)
        ensures
            match r {
                Some(v) => data_lookup(self.query_env.0.ctx_data.0@, self.schema_env.data.0@, tag@)
                    == Some(*v),
                None => data_lookup(self.query_env.0.ctx_data.0@, self.schema_env.data.0@, tag@) is None,
            },
    {
        find_data(&self.query_env.0.ctx_data, &self.schema_env.data, tag)
    }

    /// An input value with its variables replaced; a variable without a value
    /// fails at the position of the input value.
    pub fn resolve_input_value(&self, value: &Positioned<InputValue>) -> (r: ServerResult<Value>)
        ensures
            match r {
                Ok(v) => resolve_input(env_definitions(*self.query_env), env_variables(*self.query_env), value.node)
                    == Ok::<ValueModel, Seq<char>>(v@),
                Err(e) => resolve_input(env_definitions(*self.query_env), env_variables(*self.query_env), value.node)
                    matches Err(n) && e.message@ == undefined_message(n) && e.pos == Some(value.pos),
            },
    {
        match const_value(&self.query_env.0.operation.node.variable_definitions, &self.query_env.0.variables, &value.node) {
            Ok(v) => Ok(v),
            Err(n) => Err(undefined_error(n.as_str(), value.pos)),
        }
    }

    /// Whether any directive is named `ifdef`.
    pub fn is_ifdef(&self, directives: &[Positioned<Directive>]) -> (r: bool)
        ensures
            r == exists|i: int| 0 <= i < directives@.len() && (#[trigger] directives@[i]).node.name.node@ == "ifdef"@,
    {
        let mut i: usize = 0;
        while i < directives.len()
            invariant
                i <= directives@.len(),
                forall|j: int| 0 <= j < i ==> (#[trigger] directives@[j]).node.name.node@ != "ifdef"@,
            decreases directives@.len() - i,
        {
            if same_text(directives[i].node.name.node.as_str(), "ifdef") {
                return true;
            }
            i += 1;
        }
        false
    }

    /// Whether the directives exclude the node they stand on (see
    /// `skip_decision`).
    pub fn is_skip(&self, directives: &[Positioned<Directive>]) -> (r: ServerResult<bool>)
        ensures
            match r {
                Ok(b) => skip_decision(env_definitions(*self.query_env), env_variables(*self.query_env), directives@)
                    == Ok::<bool, (Seq<char>, Pos)>(b),
                Err(e) => e.pos is Some && skip_decision(env_definitions(*self.query_env), env_variables(*self.query_env), directives@)
                    == Err::<bool, (Seq<char>, Pos)>((e.message@, e.pos->0)),
            },
    {
        skip_by_directives(&self.query_env.0.operation.node.variable_definitions, &self.query_env.0.variables, directives)
    }
}

impl<'a> ContextBase<'a, &'a Positioned<SelectionSet>> {
    /// The context of element `idx` of a list: the path gains the index and
    /// the element gets a fresh resolve id.
    pub fn with_index(&self, idx: usize, counter: &mut ResolveIdCounter) -> (r: ContextBase<
        'a,
        &'a Positioned<SelectionSet>,
    >)
        requires
            old(counter)@ < usize::MAX,
        ensures
            r.path_node matches Some(n) && path_segments(n) == opt_path_segments(self.path_node).push(
                QueryPathSegment::Index(idx),
            ),
            r.item == self.item,
            final(counter)@ == old(counter)@ + 1,
            r.resolve_id.current == final(counter)@,
            r.resolve_id.parent == Some(self.resolve_id.current),
            r.schema_env == self.schema_env,
            r.query_env == self.query_env,
    {
        let node = extend_path(&self.path_node, QueryPathSegment::Index(idx));
        let resolve_id = self.get_child_resolve_id(counter);
        ContextBase {
            path_node: Some(node),
            resolve_id,
            item: self.item,
            schema_env: self.schema_env,
            query_env: self.query_env,
        }
    }
}

/// How the outcome of reading an input value becomes the outcome of the
/// request: a value is handed on, a failure becomes an error at `pos`.
pub open spec fn parse_outcome<T>(p: Result<T, InputValueError>, r: ServerResult<T>, pos: Pos) -> bool {
    match p {
        Ok(v) => r == Ok::<T, ServerError>(v),
        Err(e) => r matches Err(se) && se.message@ == input_error_message(e) && se.pos == Some(pos),
    }
}

impl<'a> ContextBase<'a, &'a Positioned<Field>> {
    /// The field's argument `name` read as a `T`. With no such argument the
    /// default is used if there is one; otherwise `T` reads the absence.
    pub fn param_value<T: InputValueType, F: FnOnce() -> T>(&self, name: &str, default: Option<F>) -> (r:
        ServerResult<T>)
        requires
            match default {
                Some(f) => f.requires(()),
                None => true,
            },
        ensures
            match lookup(arguments_view(self.item.node.arguments@), name@) {
                None => match default {
                    Some(f) => r matches Ok(v) && f.ensures((), v),
                    None => exists|p: Result<T, InputValueError>|
                        call_ensures(T::parse, (None::<Value>,), p) && parse_outcome(
                            p,
                            r,
                            Pos { line: 0, column: 0 },
                        ),
                },
                Some(arg) => match resolve_input(env_definitions(*self.query_env), env_variables(*self.query_env), arg.node) {
                    Err(n) => r matches Err(e) && e.message@ == undefined_message(n) && e.pos == Some(arg.pos),
                    Ok(m) => exists|x: Value, p: Result<T, InputValueError>|
                        x@ == m && call_ensures(T::parse, (Some(x),), p) && parse_outcome(p, r, arg.pos),
                },
            },
    {
        let value = self.item.node.get_argument(name);
        match value {
            None => match default {
                Some(f) => Ok(f()),
                None => {
                    let p = T::parse(None);
                    let ghost gp = p;
                    let r = match p {
                        Ok(v) => Ok(v),
                        Err(e) => Err(e.into_server_error(Pos { line: 0, column: 0 })),
                    };
                    proof {
                        assert(parse_outcome(gp, r, Pos { line: 0, column: 0 }));
                    }
                    r
                },
            },
            Some(value) => {
                let pos = value.pos;
                let v = match self.resolve_input_value(value) {
                    Ok(v) => v,
                    Err(e) => {
                        return Err(e);
                    },
                };
                let p = T::parse(Some(v));
                let ghost gp = p;
                let r = match p {
                    Ok(v) => Ok(v),
                    Err(e) => Err(e.into_server_error(pos)),
                };
                proof {
                    assert(parse_outcome(gp, r, pos));
                }
                r
            },
        }
    }

    /// A cursor over what this field's selection set will select.
    pub fn look_ahead(&self) -> (r: Lookahead<'a>)
        ensures
            r.fragments == &self.query_env.0.fragments,
            r.field == Some(&self.item.node),
    {
        Lookahead::new(&self.query_env.0.fragments, &self.item.node)
    }
}

} // verus!
