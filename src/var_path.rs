use vstd::prelude::*;
use crate::context::Variables;
use crate::name_map::{entry_view, lemma_position_absent, lemma_position_is_first, lemma_position_same_keys, lookup, position_of, stored};
use crate::type_ref::same_text;
use crate::value::{value_entries_model, value_list_model, value_model, Value, ValueModel};

verus! {

broadcast use {vstd::std_specs::vec::group_vec_axioms, crate::value::group_value_model};

/// The parts of a text between its dots, as `str::split('.')` gives them.
pub open spec fn split_dots(s: Seq<char>) -> Seq<Seq<char>>
    decreases s.len(),
{
    if s.len() == 0 {
        seq![Seq::<char>::empty()]
    } else if s.last() == '.' {
        split_dots(s.drop_last()).push(Seq::empty())
    } else {
        let p = split_dots(s.drop_last());
        p.update(p.len() - 1, p.last().push(s.last()))
    }
}

pub open spec fn is_digit(c: char) -> bool {
    '0' <= c && c <= '9'
}

/// The number that decimal digits spell.
pub open spec fn digits_value(s: Seq<char>) -> int
    decreases s.len(),
{
    if s.len() == 0 {
        0
    } else {
        digits_value(s.drop_last()) * 10 + (s.last() as int - '0' as int)
    }
}

pub open spec fn all_digits(s: Seq<char>) -> bool {
    forall|i: int| 0 <= i < s.len() ==> is_digit(#[trigger] s[i])
}

/// The index a path part names, as a `u32` reads it: an optional `+` and at
/// least one decimal digit, at most `u32::MAX`.
pub open spec fn index_text(s: Seq<char>) -> Option<int> {
    let d = if s.len() > 0 && s[0] == '+' {
        s.drop_first()
    } else {
        s
    };
    if d.len() > 0 && all_digits(d) && digits_value(d) <= u32::MAX {
        Some(digits_value(d))
    } else {
        None
    }
}

proof fn lemma_digits_grow(s: Seq<char>, k: int)
    requires
        0 <= k <= s.len(),
        all_digits(s),
    ensures
        digits_value(s) >= digits_value(s.take(k)) >= 0,
    decreases s.len(),
{
    if s.len() > 0 {
        if k == s.len() {
            assert(s.take(k) =~= s);
            lemma_digits_grow(s.drop_last(), 0);
        } else {
            assert(s.drop_last().take(k) =~= s.take(k));
            lemma_digits_grow(s.drop_last(), k);
        }
    } else {
        assert(s.take(k) =~= s);
    }
}

/// Reads a path part as an index (see `index_text`).
fn parse_index(part: &str) -> (r: Option<usize>)
    ensures
        match r {
            Some(i) => index_text(part@) == Some(i as int),
            None => index_text(part@) is None,
        },
{
    let n = part.unicode_len();
    let start: usize = if n > 0 && part.get_char(0) == '+' {
        1
    } else {
        0
    };
    let ghost d = part@.subrange(start as int, n as int);
    proof {
        if start == 1 {
            assert(d =~= part@.drop_first());
        } else {
            assert(d =~= part@);
        }
        assert(index_text(part@) == (if d.len() > 0 && all_digits(d) && digits_value(d) <= u32::MAX {
            Some(digits_value(d))
        } else {
            None
        }));
    }
    if start == n {
        proof {
            assert(d.len() == 0);
        }
        return None;
    }
    let mut acc: u64 = 0;
    let mut i: usize = start;
    while i < n
        invariant
            start <= i <= n,
            n == part@.len(),
            d == part@.subrange(start as int, n as int),
            d.len() > 0,
            index_text(part@) == (if all_digits(d) && digits_value(d) <= u32::MAX {
                Some(digits_value(d))
            } else {
                None::<int>
            }),
            all_digits(d.take(i - start)),
            acc == digits_value(d.take(i - start)),
            acc <= u32::MAX,
        decreases n - i,
    {
        let c = part.get_char(i);
        let ghost k = i - start;
        proof {
            assert(d[k] == c);
            assert(d.take(k + 1).drop_last() =~= d.take(k));
        }
        if !('0' <= c && c <= '9') {
            proof {
                assert(!is_digit(d[k]));
            }
            return None;
        }
        let next = acc * 10 + (c as u64 - '0' as u64);
        if next > 4294967295u64 {
            proof {
                assert(all_digits(d.take(k + 1)));
                if all_digits(d) {
                    lemma_digits_grow(d, k + 1);
                }
            }
            return None;
        }
        acc = next;
        i += 1;
    }
    proof {
        assert(d.take(n - start) =~= d);
    }
    Some(acc as usize)
}

/// Splits a text at its dots.
fn split_at_dots(s: &str) -> (r: Vec<String>)
    ensures
        r@.map_values(|p: String| p@) == split_dots(s@),
{
    let n = s.unicode_len();
    let mut parts: Vec<String> = Vec::new();
    let mut start: usize = 0;
    let mut i: usize = 0;
    proof {
        assert(s@.take(0) =~= Seq::<char>::empty());
        assert(s@.subrange(0, 0) =~= Seq::<char>::empty());
        assert(parts@.map_values(|p: String| p@) =~= Seq::<Seq<char>>::empty());
        assert(split_dots(Seq::<char>::empty()) =~= seq![Seq::<char>::empty()]);
    }
    while i < n
        invariant
            start <= i <= n,
            n == s@.len(),
            parts@.map_values(|p: String| p@).push(s@.subrange(start as int, i as int)) == split_dots(
                s@.take(i as int),
            ),
        decreases n - i,
    {
        let c = s.get_char(i);
        let ghost before = parts@.map_values(|p: String| p@);
        proof {
            assert(s@.take(i + 1).drop_last() =~= s@.take(i as int));
            assert(s@.take(i + 1).last() == c);
        }
        if c == '.' {
            let part = String::from_str(s.substring_char(start, i));
            parts.push(part);
            proof {
                assert(parts@.map_values(|p: String| p@) =~= before.push(s@.subrange(start as int, i as int)));
                assert(s@.subrange(i + 1, i + 1) =~= Seq::<char>::empty());
            }
            start = i + 1;
        } else {
            proof {
                assert(s@.subrange(start as int, i + 1) =~= s@.subrange(start as int, i as int).push(c));
                assert(before.push(s@.subrange(start as int, i + 1)) =~= before.push(
                    s@.subrange(start as int, i as int),
                ).update(before.len() as int, s@.subrange(start as int, i as int).push(c)));
            }
        }
        i += 1;
    }
    let last = String::from_str(s.substring_char(start, n));
    parts.push(last);
    proof {
        assert(s@.take(n as int) =~= s@);
    }
    parts
}

/// The value that the path `parts` leads to inside `v`: a part indexes a
/// list (see `index_text`) or names an entry of an object.
pub open spec fn value_at(v: Value, parts: Seq<Seq<char>>) -> Option<Value>
    decreases parts.len(),
{
    if parts.len() == 0 {
        Some(v)
    } else {
        match v {
            Value::List(l) => match index_text(parts[0]) {
                Some(k) => if k < l@.len() {
                    value_at(l@[k], parts.drop_first())
                } else {
                    None
                },
                None => None,
            },
            Value::Object(o) => match lookup(o@.map_values(|e: (String, Value)| entry_view(e)), parts[0]) {
                Some(x) => value_at(x, parts.drop_first()),
                None => None,
            },
            _ => None,
        }
    }
}

/// `m` with the value that `parts` leads to replaced by `new`; where the
/// path leads nowhere, `m` as it is.
pub open spec fn replace_at(m: ValueModel, parts: Seq<Seq<char>>, new: ValueModel) -> ValueModel
    decreases parts.len(),
{
    if parts.len() == 0 {
        new
    } else {
        match m {
            ValueModel::List(l) => match index_text(parts[0]) {
                Some(k) => if k < l.len() {
                    ValueModel::List(l.update(k, replace_at(l[k], parts.drop_first(), new)))
                } else {
                    m
                },
                None => m,
            },
            ValueModel::Object(o) => {
                let p = position_of(o, parts[0]);
                if p >= 0 {
                    ValueModel::Object(o.update(p, (o[p].0, replace_at(o[p].1, parts.drop_first(), new))))
                } else {
                    m
                }
            },
            _ => m,
        }
    }
}

/// Two tables that hold the same names in the same order, with values of the
/// same model.
pub open spec fn same_models(a: Seq<(Seq<char>, Value)>, b: Seq<(Seq<char>, Value)>) -> bool {
    &&& a.len() == b.len()
    &&& forall|i: int| 0 <= i < a.len() ==> (#[trigger] a[i]).0 == b[i].0 && a[i].1@ == b[i].1@
}

/// The value of the first entry named `k`, mutably.
fn entry_mut<'a>(entries: &'a mut Vec<(String, Value)>, k: &str) -> (r: Option<&'a mut Value>)
    ensures
        match r {
            Some(x) => {
                let p = position_of(old(entries)@.map_values(|e: (String, Value)| entry_view(e)), k@);
                &&& lookup(old(entries)@.map_values(|e: (String, Value)| entry_view(e)), k@) == Some(*x)
                &&& 0 <= p < old(entries)@.len()
                &&& final(entries)@ == old(entries)@.update(p, (old(entries)@[p].0, *final(x)))
            },
            None => lookup(old(entries)@.map_values(|e: (String, Value)| entry_view(e)), k@) is None
                && *final(entries) == *old(entries),
        },
{
    let ghost s = entries@.map_values(|e: (String, Value)| entry_view(e));
    let mut i: usize = 0;
    while i < entries.len()
        invariant
            i <= entries@.len(),
            s == entries@.map_values(|e: (String, Value)| entry_view(e)),
            *entries == *old(entries),
            forall|j: int| 0 <= j < i ==> s[j].0 != k@,
        decreases entries@.len() - i,
    {
        if same_text(entries[i].0.as_str(), k) {
            proof {
                assert(s[i as int] == entry_view(entries@[i as int]));
                lemma_position_is_first(s, k@, i as int);
            }
            let e = &mut entries[i];
            return Some(&mut e.1);
        }
        i += 1;
    }
    proof {
        lemma_position_absent(s, k@);
    }
    None
}

/// The element at `idx`, mutably.
fn element_mut<'a>(list: &'a mut Vec<Value>, idx: usize) -> (r: &'a mut Value)
    requires
        idx < old(list)@.len(),
    ensures
        *r == old(list)@[idx as int],
        final(list)@ == old(list)@.update(idx as int, *final(r)),
        value_list_model(final(list)@) == value_list_model(old(list)@).update(idx as int, (*final(r))@),
{
    &mut list[idx]
}

/// What a value holds, borrowed mutably: a list's elements, an object's
/// entries, or nothing to go into.
enum Inner<'a> {
    List(&'a mut Vec<Value>),
    Object(&'a mut Vec<(String, Value)>),
    Leaf,
}

fn open_mut<'a>(v: &'a mut Value) -> (r: Inner<'a>)
    ensures
        match r {
            Inner::List(l) => *old(v) == Value::List(*l) && *final(v) == Value::List(*final(l))
                && (*final(v))@ == ValueModel::List(value_list_model(final(l)@)),
            Inner::Object(o) => *old(v) == Value::Object(*o) && *final(v) == Value::Object(*final(o))
                && (*final(v))@ == ValueModel::Object(value_entries_model(final(o)@)),
            Inner::Leaf => !(*old(v) is List) && !(*old(v) is Object) && *final(v) == *old(v),
        },
{
    match v {
        Value::List(list) => Inner::List(list),
        Value::Object(entries) => Inner::Object(entries),
        _ => Inner::Leaf,
    }
}

/// Follows `parts` from index `i` on, down from `v`.
fn descend<'a>(v: &'a mut Value, parts: &Vec<String>, i: usize) -> (r: Option<&'a mut Value>)
    requires
        i <= parts@.len(),
    ensures
        match r {
            Some(x) => {
                &&& value_at(*old(v), parts@.map_values(|p: String| p@).skip(i as int)) == Some(*x)
                &&& (*final(v))@ == replace_at(
                    (*old(v))@,
                    parts@.map_values(|p: String| p@).skip(i as int),
                    (*final(x))@,
                )
            },
            None => {
                &&& value_at(*old(v), parts@.map_values(|p: String| p@).skip(i as int)) is None
                &&& (*final(v))@ == (*old(v))@
            },
        },
    decreases parts@.len() - i,
{
    let ghost ps = parts@.map_values(|p: String| p@).skip(i as int);
    if i == parts.len() {
        proof {
            assert(ps.len() == 0);
        }
        return Some(v);
    }
    proof {
        assert(ps[0] == parts@[i as int]@);
        assert(ps.drop_first() =~= parts@.map_values(|p: String| p@).skip(i + 1));
    }
    match open_mut(v) {
        Inner::List(list) => match parse_index(parts[i].as_str()) {
            Some(idx) => {
                if idx < list.len() {
                    proof {
                        assert(index_text(ps[0]) == Some(idx as int));
                        assert(value_list_model(list@)[idx as int] == value_model(list@[idx as int]));
                        assert(value_list_model(list@).len() == list@.len());
                    }
                    descend(element_mut(list, idx), parts, i + 1)
                } else {
                    None
                }
            },
            None => None,
        },
        Inner::Object(obj) => {
            proof {
                lemma_position_same_keys(
                    value_entries_model(obj@),
                    obj@.map_values(|e: (String, Value)| entry_view(e)),
                    ps[0],
                );
                let p = position_of(obj@.map_values(|e: (String, Value)| entry_view(e)), ps[0]);
                crate::name_map::lemma_position_bounds(obj@.map_values(|e: (String, Value)| entry_view(e)), ps[0]);
                if p >= 0 {
                    assert(value_entries_model(obj@)[p] == (obj@[p].0@, value_model(obj@[p].1)));
                    assert(obj@.map_values(|e: (String, Value)| entry_view(e))[p] == entry_view(obj@[p]));
                }
            }
            match entry_mut(obj, parts[i].as_str()) {
                Some(x) => descend(x, parts, i + 1),
                None => None,
            }
        },
        Inner::Leaf => None,
    }
}

pub open spec fn variables_prefix() -> Seq<char> {
    "variables."@
}

/// The parts of a dotted path after `variables.`.
pub open spec fn path_parts(path: Seq<char>) -> Seq<Seq<char>> {
    split_dots(path.skip(variables_prefix().len() as int))
}

/// The value that a dotted path `variables.<name>.<part>...` leads to.
pub open spec fn variable_at_path(vars: Seq<(Seq<char>, Value)>, path: Seq<char>) -> Option<Value> {
    if path.len() >= variables_prefix().len() && path.take(variables_prefix().len() as int)
        == variables_prefix() {
        let parts = split_dots(path.skip(variables_prefix().len() as int));
        match lookup(vars, parts[0]) {
            Some(v) => value_at(v, parts.drop_first()),
            None => None,
        }
    } else {
        None
    }
}

impl Variables {
    /// The variable value that a dotted path `variables.<name>.<part>...`
    /// leads to, mutably.
    pub fn variable_path(&mut self, path: &str) -> (r: Option<&mut Value>)
        ensures
            match r {
                Some(x) => {
                    &&& variable_at_path(old(self).0@, path@) == Some(*x)
                    &&& exists|v: Value|
                        {
                            &&& final(self).0@ == stored(old(self).0@, path_parts(path@)[0], v)
                            &&& v@ == replace_at(
                                lookup(old(self).0@, path_parts(path@)[0])->0@,
                                path_parts(path@).drop_first(),
                                (*final(x))@,
                            )
                        }
                },
                None => {
                    &&& variable_at_path(old(self).0@, path@) is None
                    &&& same_models(final(self).0@, old(self).0@)
                },
            },
    {
        proof {
            reveal_strlit("variables.");
        }
        let n = path.unicode_len();
        if n < 10 {
            return None;
        }
        if !same_text(path.substring_char(0, 10), "variables.") {
            return None;
        }
        let rest = path.substring_char(10, n);
        let parts = split_at_dots(rest);
        let ghost ps = parts@.map_values(|p: String| p@);
        proof {
            assert(rest@ =~= path@.skip(10));
            assert(ps == split_dots(path@.skip(10)));
            assert(ps.len() > 0) by {
                lemma_split_nonempty(path@.skip(10));
            }
            assert(ps.drop_first() =~= ps.skip(1));
            assert(path_parts(path@) == ps);
            crate::name_map::lemma_position_bounds(self.0@, ps[0]);
        }
        match self.0.get_mut(parts[0].as_str()) {
            Some(initial) => descend(initial, &parts, 1),
            None => None,
        }
    }
}

proof fn lemma_split_nonempty(s: Seq<char>)
    ensures
        split_dots(s).len() > 0,
    decreases s.len(),
{
    if s.len() > 0 {
        lemma_split_nonempty(s.drop_last());
    }
}

} // verus!
