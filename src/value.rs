use vstd::prelude::*;

verus! {

broadcast use vstd::std_specs::vec::group_vec_axioms;

/// A position in the query text.
#[derive(Clone, Copy, Debug, PartialEq, Eq, Structural, Default)]
pub struct Pos {
    pub line: usize,
    pub column: usize,
}

/// A node of the query document together with where it stands in the text.
#[derive(Clone, Debug)]
pub struct Positioned<T> {
    pub pos: Pos,
    pub node: T,
}

/// A constant runtime value.
#[derive(Debug)]
pub enum Value {
    Null,
    Number(i64),
    String(String),
    Boolean(bool),
    Enum(String),
    List(Vec<Value>),
    Object(Vec<(String, Value)>),
}

/// An input literal of the query document; it may refer to variables.
#[derive(Debug)]
pub enum InputValue {
    Variable(String),
    Null,
    Number(i64),
    String(String),
    Boolean(bool),
    Enum(String),
    List(Vec<InputValue>),
    Object(Vec<(String, InputValue)>),
}

/// The mathematical reading of a `Value`.
pub enum ValueModel {
    Null,
    Number(int),
    String(Seq<char>),
    Boolean(bool),
    Enum(Seq<char>),
    List(Seq<ValueModel>),
    Object(Seq<(Seq<char>, ValueModel)>),
}

/// The mathematical reading of an `InputValue`.
pub enum InputModel {
    Variable(Seq<char>),
    Null,
    Number(int),
    String(Seq<char>),
    Boolean(bool),
    Enum(Seq<char>),
    List(Seq<InputModel>),
    Object(Seq<(Seq<char>, InputModel)>),
}

pub open spec fn value_model(v: Value) -> ValueModel
    decreases v, 0nat,
{
    match v {
        Value::Null => ValueModel::Null,
        Value::Number(n) => ValueModel::Number(n as int),
        Value::String(s) => ValueModel::String(s@),
        Value::Boolean(b) => ValueModel::Boolean(b),
        Value::Enum(s) => ValueModel::Enum(s@),
        Value::List(items) => ValueModel::List(value_list_model(items@)),
        Value::Object(entries) => ValueModel::Object(value_entries_model(entries@)),
    }
}

pub open spec fn value_list_model(s: Seq<Value>) -> Seq<ValueModel>
    decreases s, s.len(),
{
    if s.len() == 0 {
        Seq::empty()
    } else {
        value_list_model(s.drop_last()).push(value_model(s.last()))
    }
}

pub open spec fn value_entries_model(s: Seq<(String, Value)>) -> Seq<(Seq<char>, ValueModel)>
    decreases s, s.len(),
{
    if s.len() == 0 {
        Seq::empty()
    } else {
        value_entries_model(s.drop_last()).push((s.last().0@, value_model(s.last().1)))
    }
}

pub open spec fn input_model(v: InputValue) -> InputModel
    decreases v, 0nat,
{
    match v {
        InputValue::Variable(s) => InputModel::Variable(s@),
        InputValue::Null => InputModel::Null,
        InputValue::Number(n) => InputModel::Number(n as int),
        InputValue::String(s) => InputModel::String(s@),
        InputValue::Boolean(b) => InputModel::Boolean(b),
        InputValue::Enum(s) => InputModel::Enum(s@),
        InputValue::List(items) => InputModel::List(input_list_model(items@)),
        InputValue::Object(entries) => InputModel::Object(input_entries_model(entries@)),
    }
}

pub open spec fn input_list_model(s: Seq<InputValue>) -> Seq<InputModel>
    decreases s, s.len(),
{
    if s.len() == 0 {
        Seq::empty()
    } else {
        input_list_model(s.drop_last()).push(input_model(s.last()))
    }
}

pub open spec fn input_entries_model(s: Seq<(String, InputValue)>) -> Seq<(Seq<char>, InputModel)>
    decreases s, s.len(),
{
    if s.len() == 0 {
        Seq::empty()
    } else {
        input_entries_model(s.drop_last()).push((s.last().0@, input_model(s.last().1)))
    }
}

pub broadcast proof fn lemma_list_model_len(s: Seq<Value>)
    ensures
        #[trigger] value_list_model(s).len() == s.len(),
    decreases s.len(),
{
    if s.len() > 0 {
        lemma_list_model_len(s.drop_last());
    }
}

pub broadcast proof fn lemma_list_model_index(s: Seq<Value>, i: int)
    requires
        0 <= i < s.len(),
    ensures
        #[trigger] value_list_model(s)[i] == value_model(s[i]),
    decreases s.len(),
{
    lemma_list_model_len(s.drop_last());
    if i < s.len() - 1 {
        lemma_list_model_index(s.drop_last(), i);
    }
}

/// The model of a list with one element replaced is the model with that
/// element's model replaced.
pub broadcast proof fn lemma_list_model_update(s: Seq<Value>, i: int, x: Value)
    requires
        0 <= i < s.len(),
    ensures
        #[trigger] value_list_model(s.update(i, x)) == value_list_model(s).update(i, value_model(x)),
    decreases s.len(),
{
    lemma_list_model_len(s.drop_last());
    if i == s.len() - 1 {
        assert(s.update(i, x).drop_last() =~= s.drop_last());
        assert(value_list_model(s.update(i, x)) =~= value_list_model(s).update(i, value_model(x)));
    } else {
        assert(s.update(i, x).drop_last() =~= s.drop_last().update(i, x));
        lemma_list_model_update(s.drop_last(), i, x);
        assert(value_list_model(s.update(i, x)) =~= value_list_model(s).update(i, value_model(x)));
    }
}

pub broadcast proof fn lemma_entries_model_len(s: Seq<(String, Value)>)
    ensures
        #[trigger] value_entries_model(s).len() == s.len(),
    decreases s.len(),
{
    if s.len() > 0 {
        lemma_entries_model_len(s.drop_last());
    }
}

pub broadcast proof fn lemma_entries_model_index(s: Seq<(String, Value)>, i: int)
    requires
        0 <= i < s.len(),
    ensures
        #[trigger] value_entries_model(s)[i] == (s[i].0@, value_model(s[i].1)),
    decreases s.len(),
{
    lemma_entries_model_len(s.drop_last());
    if i < s.len() - 1 {
        lemma_entries_model_index(s.drop_last(), i);
    }
}

/// The model of an object with one entry's value replaced is the model with
/// that entry's model replaced.
pub broadcast proof fn lemma_entries_model_update(s: Seq<(String, Value)>, i: int, k: String, x: Value)
    requires
        0 <= i < s.len(),
    ensures
        #[trigger] value_entries_model(s.update(i, (k, x))) == value_entries_model(s).update(
            i,
            (k@, value_model(x)),
        ),
    decreases s.len(),
{
    lemma_entries_model_len(s.drop_last());
    if i == s.len() - 1 {
        assert(s.update(i, (k, x)).drop_last() =~= s.drop_last());
        assert(value_entries_model(s.update(i, (k, x))) =~= value_entries_model(s).update(
            i,
            (k@, value_model(x)),
        ));
    } else {
        assert(s.update(i, (k, x)).drop_last() =~= s.drop_last().update(i, (k, x)));
        lemma_entries_model_update(s.drop_last(), i, k, x);
        assert(value_entries_model(s.update(i, (k, x))) =~= value_entries_model(s).update(
            i,
            (k@, value_model(x)),
        ));
    }
}

/// Putting back what a place holds leaves a sequence as it was.
pub broadcast proof fn lemma_update_same<A>(s: Seq<A>, i: int, x: A)
    requires
        0 <= i < s.len(),
        x == s[i],
    ensures
        #[trigger] s.update(i, x) == s,
{
    assert(s.update(i, x) =~= s);
}

pub broadcast group group_value_model {
    lemma_update_same,
    lemma_list_model_len,
    lemma_list_model_index,
    lemma_list_model_update,
    lemma_entries_model_len,
    lemma_entries_model_index,
    lemma_entries_model_update,
}

impl View for Value {
    type V = ValueModel;

    open spec fn view(&self) -> ValueModel {
        value_model(*self)
    }
}

impl View for InputValue {
    type V = InputModel;

    open spec fn view(&self) -> InputModel {
        input_model(*self)
    }
}

impl Value {
    /// A copy of the value, down to its leaves.
    pub fn deep_clone(&self) -> (r: Value)
        ensures
            r@ == self@,
        decreases self,
    {
        match self {
            Value::Null => Value::Null,
            Value::Number(n) => Value::Number(*n),
            Value::String(s) => Value::String(s.clone()),
            Value::Boolean(b) => Value::Boolean(*b),
            Value::Enum(s) => Value::Enum(s.clone()),
            Value::List(items) => {
                proof {
                    assert(decreases_to!(*self => *items));
                    assert(decreases_to!(*items => items@));
                }
                let mut out: Vec<Value> = Vec::new();
                let mut i: usize = 0;
                while i < items.len()
                    invariant
                        i <= items@.len(),
                        value_list_model(out@) == value_list_model(items@.take(i as int)),
                        decreases_to!(*self => items@),
                    decreases items@.len() - i,
                {
                    proof {
                        assert(decreases_to!(items@ => items@[i as int]));
                    }
                    let c = items[i].deep_clone();
                    let ghost prev = out@;
                    out.push(c);
                    proof {
                        assert(out@.drop_last() =~= prev);
                        assert(items@.take(i + 1).drop_last() =~= items@.take(i as int));
                    }
                    i += 1;
                }
                proof {
                    assert(items@.take(items@.len() as int) =~= items@);
                }
                Value::List(out)
            },
            Value::Object(entries) => {
                proof {
                    assert(decreases_to!(*self => *entries));
                    assert(decreases_to!(*entries => entries@));
                }
                let mut out: Vec<(String, Value)> = Vec::new();
                let mut i: usize = 0;
                while i < entries.len()
                    invariant
                        i <= entries@.len(),
                        value_entries_model(out@) == value_entries_model(entries@.take(i as int)),
                        decreases_to!(*self => entries@),
                    decreases entries@.len() - i,
                {
                    proof {
                        assert(decreases_to!(entries@ => entries@[i as int]));
                        assert(decreases_to!(entries@[i as int] => entries@[i as int].1));
                    }
                    let k = entries[i].0.clone();
                    let c = entries[i].1.deep_clone();
                    let ghost prev = out@;
                    out.push((k, c));
                    proof {
                        assert(out@.drop_last() =~= prev);
                    }
                    proof {
                        assert(entries@.take(i + 1).drop_last() =~= entries@.take(i as int));
                    }
                    i += 1;
                }
                proof {
                    assert(entries@.take(entries@.len() as int) =~= entries@);
                }
                Value::Object(out)
            },
        }
    }
}

/// Decimal digits of a number, most significant first.
pub open spec fn decimal(n: nat) -> Seq<char>
    decreases n,
{
    if n < 10 {
        seq![digit_char(n)]
    } else {
        decimal(n / 10).push(digit_char(n % 10))
    }
}

pub open spec fn digit_char(d: nat) -> char {
    if d == 0 {
        '0'
    } else if d == 1 {
        '1'
    } else if d == 2 {
        '2'
    } else if d == 3 {
        '3'
    } else if d == 4 {
        '4'
    } else if d == 5 {
        '5'
    } else if d == 6 {
        '6'
    } else if d == 7 {
        '7'
    } else if d == 8 {
        '8'
    } else {
        '9'
    }
}

/// An integer in decimal, with a leading `-` when it is negative.
pub open spec fn int_text(n: int) -> Seq<char> {
    if n < 0 {
        seq!['-'] + decimal((-n) as nat)
    } else {
        decimal(n as nat)
    }
}

/// Relies on `i64`'s `Display` (through `ToString`): a `-` for a negative
/// number, then its decimal digits.
#[verifier::external_body]
fn i64_text(n: i64) -> (r: String)
    ensures
        r@ == int_text(n as int),
{
    n.to_string()
}

/// Relies on `char`'s `ToString`: the text of exactly that character.
#[verifier::external_body]
pub(crate) fn char_text(c: char) -> (r: String)
    ensures
        r@ == seq![c],
{
    c.to_string()
}

/// A character as it stands inside a quoted string.
pub open spec fn escaped_char(c: char) -> Seq<char> {
    if c == '"' {
        seq!['\\', '"']
    } else if c == '\\' {
        seq!['\\', '\\']
    } else if c == '\n' {
        seq!['\\', 'n']
    } else if c == '\r' {
        seq!['\\', 'r']
    } else if c == '\t' {
        seq!['\\', 't']
    } else {
        seq![c]
    }
}

pub open spec fn escaped(s: Seq<char>) -> Seq<char>
    decreases s.len(),
{
    if s.len() == 0 {
        Seq::empty()
    } else {
        escaped(s.drop_last()) + escaped_char(s.last())
    }
}

/// A value in the query language's literal syntax.
pub open spec fn value_text(v: ValueModel) -> Seq<char>
    decreases v, 0nat,
{
    match v {
        ValueModel::Null => "null"@,
        ValueModel::Number(n) => int_text(n),
        ValueModel::String(s) => seq!['"'] + escaped(s) + seq!['"'],
        ValueModel::Boolean(b) => if b {
            "true"@
        } else {
            "false"@
        },
        ValueModel::Enum(s) => s,
        ValueModel::List(items) => seq!['['] + values_text(items) + seq![']'],
        ValueModel::Object(entries) => seq!['{'] + entries_text(entries) + seq!['}'],
    }
}

/// Values separated by `, `.
pub open spec fn values_text(s: Seq<ValueModel>) -> Seq<char>
    decreases s, s.len(),
{
    if s.len() == 0 {
        Seq::empty()
    } else if s.len() == 1 {
        value_text(s[0])
    } else {
        values_text(s.drop_last()) + ", "@ + value_text(s.last())
    }
}

/// `name: value` entries separated by `, `.
pub open spec fn entries_text(s: Seq<(Seq<char>, ValueModel)>) -> Seq<char>
    decreases s, s.len(),
{
    if s.len() == 0 {
        Seq::empty()
    } else if s.len() == 1 {
        s[0].0 + ": "@ + value_text(s[0].1)
    } else {
        entries_text(s.drop_last()) + ", "@ + s.last().0 + ": "@ + value_text(s.last().1)
    }
}

/// A text between quotes, with quotes, backslashes and line breaks escaped.
fn quoted(s: &str) -> (r: String)
    ensures
        r@ == seq!['"'] + escaped(s@) + seq!['"'],
{
    proof {
        reveal_strlit("\"");
        reveal_strlit("\\\"");
        reveal_strlit("\\\\");
        reveal_strlit("\\n");
        reveal_strlit("\\r");
        reveal_strlit("\\t");
    }
    let n = s.unicode_len();
    let mut out = String::from_str("\"");
    let mut i: usize = 0;
    while i < n
        invariant
            i <= n,
            n == s@.len(),
            out@ == seq!['"'] + escaped(s@.take(i as int)),
        decreases n - i,
    {
        let c = s.get_char(i);
        let ghost before = out@;
        proof {
            assert(s@.take(i + 1).drop_last() =~= s@.take(i as int));
            assert(s@.take(i + 1).last() == c);
            assert(escaped(s@.take(i + 1)) == escaped(s@.take(i as int)) + escaped_char(c));
        }
        if c == '"' {
            out.append("\\\"");
            proof {
                reveal_strlit("\\\"");
                assert("\\\""@ =~= seq!['\\', '"']);
            }
        } else if c == '\\' {
            out.append("\\\\");
            proof {
                reveal_strlit("\\\\");
                assert("\\\\"@ =~= seq!['\\', '\\']);
            }
        } else if c == '\n' {
            out.append("\\n");
            proof {
                reveal_strlit("\\n");
                assert("\\n"@ =~= seq!['\\', 'n']);
            }
        } else if c == '\r' {
            out.append("\\r");
            proof {
                reveal_strlit("\\r");
                assert("\\r"@ =~= seq!['\\', 'r']);
            }
        } else if c == '\t' {
            out.append("\\t");
            proof {
                reveal_strlit("\\t");
                assert("\\t"@ =~= seq!['\\', 't']);
            }
        } else {
            let t = char_text(c);
            out.append(t.as_str());
        }
        proof {
            assert(out@ =~= before + escaped_char(c));
            assert(out@ =~= seq!['"'] + escaped(s@.take(i + 1)));
        }
        i += 1;
    }
    out.append("\"");
    proof {
        assert(s@.take(n as int) =~= s@);
    }
    out
}

impl Value {
    /// The value in the query language's literal syntax, e.g.
    /// `{a: [1, "x"], b: null}`.
    pub fn to_string(&self) -> (r: String)
        ensures
            r@ == value_text(self@),
        decreases self,
    {
        proof {
            reveal_strlit("null");
            reveal_strlit("true");
            reveal_strlit("false");
            reveal_strlit(", ");
            reveal_strlit(": ");
            reveal_strlit("[");
            reveal_strlit("]");
            reveal_strlit("{");
            reveal_strlit("}");
        }
        match self {
            Value::Null => String::from_str("null"),
            Value::Number(n) => i64_text(*n),
            Value::String(s) => quoted(s.as_str()),
            Value::Boolean(b) => if *b {
                String::from_str("true")
            } else {
                String::from_str("false")
            },
            Value::Enum(s) => s.clone(),
            Value::List(items) => {
                proof {
                    assert(decreases_to!(*self => *items));
                    assert(decreases_to!(*items => items@));
                }
                let mut out = String::from_str("[");
                let mut i: usize = 0;
                while i < items.len()
                    invariant
                        i <= items@.len(),
                        out@ == seq!['['] + values_text(value_list_model(items@.take(i as int))),
                        decreases_to!(*self => items@),
                    decreases items@.len() - i,
                {
                    proof {
                        assert(decreases_to!(items@ => items@[i as int]));
                        assert(items@.take(i + 1).drop_last() =~= items@.take(i as int));
                    }
                    if i > 0 {
                        out.append(", ");
                    }
                    let t = items[i].to_string();
                    out.append(t.as_str());
                    proof {
                        let m = value_list_model(items@.take(i + 1));
                        assert(m.drop_last() == value_list_model(items@.take(i as int)));
                        if i == 0 {
                            assert(m.len() == 1);
                            assert(out@ =~= seq!['['] + values_text(m));
                        } else {
                            assert(out@ =~= seq!['['] + values_text(m));
                        }
                    }
                    i += 1;
                }
                out.append("]");
                proof {
                    assert(items@.take(items@.len() as int) =~= items@);
                }
                out
            },
            Value::Object(entries) => {
                proof {
                    assert(decreases_to!(*self => *entries));
                    assert(decreases_to!(*entries => entries@));
                }
                let mut out = String::from_str("{");
                let mut i: usize = 0;
                while i < entries.len()
                    invariant
                        i <= entries@.len(),
                        out@ == seq!['{'] + entries_text(value_entries_model(entries@.take(i as int))),
                        decreases_to!(*self => entries@),
                    decreases entries@.len() - i,
                {
                    proof {
                        assert(decreases_to!(entries@ => entries@[i as int]));
                        assert(decreases_to!(entries@[i as int] => entries@[i as int].1));
                        assert(entries@.take(i + 1).drop_last() =~= entries@.take(i as int));
                    }
                    if i > 0 {
                        out.append(", ");
                    }
                    out.append(entries[i].0.as_str());
                    out.append(": ");
                    let t = entries[i].1.to_string();
                    out.append(t.as_str());
                    proof {
                        let m = value_entries_model(entries@.take(i + 1));
                        assert(m.drop_last() == value_entries_model(entries@.take(i as int)));
                        if i == 0 {
                            assert(m.len() == 1);
                            assert(out@ =~= seq!['{'] + entries_text(m));
                        } else {
                            assert(out@ =~= seq!['{'] + entries_text(m));
                        }
                    }
                    i += 1;
                }
                out.append("}");
                proof {
                    assert(entries@.take(entries@.len() as int) =~= entries@);
                }
                out
            },
        }
    }
}

} // verus!
