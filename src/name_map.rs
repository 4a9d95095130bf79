use vstd::prelude::*;

verus! {

/// Index of the first entry whose key is `k`, or -1.
pub open spec fn position_of<V>(s: Seq<(Seq<char>, V)>, k: Seq<char>) -> int
    decreases s.len(),
{
    if s.len() == 0 {
        -1
    } else if s[0].0 == k {
        0
    } else {
        let p = position_of(s.drop_first(), k);
        if p < 0 {
            -1
        } else {
            p + 1
        }
    }
}

/// The value stored under `k`, if any.
pub open spec fn lookup<V>(s: Seq<(Seq<char>, V)>, k: Seq<char>) -> Option<V> {
    let p = position_of(s, k);
    if p >= 0 {
        Some(s[p].1)
    } else {
        None
    }
}

/// The entries after storing `v` under `k`: an existing key keeps its place
/// and takes the new value, a new key goes last.
pub open spec fn stored<V>(s: Seq<(Seq<char>, V)>, k: Seq<char>, v: V) -> Seq<(Seq<char>, V)> {
    let p = position_of(s, k);
    if p >= 0 {
        s.update(p, (k, v))
    } else {
        s.push((k, v))
    }
}

/// No key occurs twice.
pub open spec fn unique_keys<V>(s: Seq<(Seq<char>, V)>) -> bool {
    forall|i: int, j: int| 0 <= i < j < s.len() ==> s[i].0 != s[j].0
}

pub proof fn lemma_position_bounds<V>(s: Seq<(Seq<char>, V)>, k: Seq<char>)
    ensures
        -1 <= position_of(s, k) < s.len(),
        position_of(s, k) >= 0 ==> s[position_of(s, k)].0 == k,
        position_of(s, k) >= 0 ==> forall|j: int|
            0 <= j < position_of(s, k) ==> s[j].0 != k,
        position_of(s, k) < 0 ==> forall|j: int| 0 <= j < s.len() ==> s[j].0 != k,
    decreases s.len(),
{
    if s.len() > 0 && s[0].0 != k {
        lemma_position_bounds(s.drop_first(), k);
        assert forall|j: int| 1 <= j < s.len() implies s[j] == s.drop_first()[j - 1] by {}
    }
}

/// The first match found by scanning is the position.
pub proof fn lemma_position_is_first<V>(s: Seq<(Seq<char>, V)>, k: Seq<char>, i: int)
    requires
        0 <= i < s.len(),
        s[i].0 == k,
        forall|j: int| 0 <= j < i ==> s[j].0 != k,
    ensures
        position_of(s, k) == i,
    decreases s.len(),
{
    if i > 0 {
        assert forall|j: int| 0 <= j < i - 1 implies s.drop_first()[j].0 != k by {
            assert(s.drop_first()[j] == s[j + 1]);
        }
        lemma_position_is_first(s.drop_first(), k, i - 1);
    }
}

pub proof fn lemma_position_absent<V>(s: Seq<(Seq<char>, V)>, k: Seq<char>)
    requires
        forall|j: int| 0 <= j < s.len() ==> s[j].0 != k,
    ensures
        position_of(s, k) == -1,
    decreases s.len(),
{
    if s.len() > 0 {
        assert forall|j: int| 0 <= j < s.len() - 1 implies s.drop_first()[j].0 != k by {
            assert(s.drop_first()[j] == s[j + 1]);
        }
        lemma_position_absent(s.drop_first(), k);
    }
}

/// Looking a key up right after storing it gives the stored value; other keys
/// are untouched.
pub proof fn lemma_lookup_stored<V>(s: Seq<(Seq<char>, V)>, k: Seq<char>, v: V, q: Seq<char>)
    ensures
        lookup(stored(s, k, v), k) == Some(v),
        q != k ==> lookup(stored(s, k, v), q) == lookup(s, q),
{
    let t = stored(s, k, v);
    lemma_position_bounds(s, k);
    lemma_position_bounds(s, q);
    let p = position_of(s, k);
    if p >= 0 {
        lemma_position_is_first(t, k, p);
    } else {
        lemma_position_is_first(t, k, s.len() as int);
    }
    if q != k {
        let pq = position_of(s, q);
        if pq >= 0 {
            lemma_position_is_first(t, q, pq);
        } else {
            lemma_position_absent(t, q);
        }
    }
}

/// Storing again the value a key has changes nothing.
pub proof fn lemma_stored_same<V>(s: Seq<(Seq<char>, V)>, k: Seq<char>)
    requires
        lookup(s, k) is Some,
    ensures
        stored(s, k, lookup(s, k)->0) == s,
{
    lemma_position_bounds(s, k);
    assert(stored(s, k, lookup(s, k)->0) =~= s);
}

/// Two tables with the same names, index by index, find a name at the same
/// place.
pub proof fn lemma_position_same_keys<A, B>(a: Seq<(Seq<char>, A)>, b: Seq<(Seq<char>, B)>, k: Seq<char>)
    requires
        a.len() == b.len(),
        forall|i: int| 0 <= i < a.len() ==> a[i].0 == b[i].0,
    ensures
        position_of(a, k) == position_of(b, k),
    decreases a.len(),
{
    if a.len() > 0 {
        assert forall|i: int| 0 <= i < a.len() - 1 implies a.drop_first()[i].0 == b.drop_first()[i].0 by {
            assert(a.drop_first()[i] == a[i + 1]);
            assert(b.drop_first()[i] == b[i + 1]);
        }
        lemma_position_same_keys(a.drop_first(), b.drop_first(), k);
    }
}

pub proof fn lemma_stored_unique<V>(s: Seq<(Seq<char>, V)>, k: Seq<char>, v: V)
    requires
        unique_keys(s),
    ensures
        unique_keys(stored(s, k, v)),
{
    lemma_position_bounds(s, k);
}

/// An ordered map from names to values: each name at most once, in the order
/// in which names were first stored.
#[derive(Debug)]
pub struct NameMap<V> {
    entries: Vec<(String, V)>,
}

pub open spec fn entry_view<V>(e: (String, V)) -> (Seq<char>, V) {
    (e.0@, e.1)
}

impl<V> View for NameMap<V> {
    type V = Seq<(Seq<char>, V)>;

    closed spec fn view(&self) -> Seq<(Seq<char>, V)> {
        self.entries@.map_values(|e: (String, V)| entry_view(e))
    }
}

impl<V> NameMap<V> {
    /// Well-formed: no name occurs twice. A new map is well-formed and
    /// storing keeps it so; `get_mut` changes a value only, so
    /// `lemma_stored_unique` carries it over that too.
    pub open spec fn wf(&self) -> bool {
        unique_keys(self@)
    }

    pub fn new() -> (r: NameMap<V>)
        ensures
            r@ == Seq::<(Seq<char>, V)>::empty(),
            r.wf(),
    {
        let r = NameMap { entries: Vec::new() };
        proof {
            assert(r@ =~= Seq::<(Seq<char>, V)>::empty());
        }
        r
    }

    pub fn len(&self) -> (r: usize)
        ensures
            r == self@.len(),
    {
        self.entries.len()
    }

    /// Scans for the key; the index of its entry, if it has one.
    pub fn position(&self, k: &str) -> (r: Option<usize>)
        ensures
            match r {
                Some(i) => position_of(self@, k@) == i as int,
                None => position_of(self@, k@) == -1,
            },
    {
        let mut i: usize = 0;
        while i < self.entries.len()
            invariant
                i <= self@.len(),
                self@.len() == self.entries@.len(),
                forall|j: int| 0 <= j < i ==> self@[j].0 != k@,
            decreases self.entries@.len() - i,
        {
            let e = &self.entries[i];
            proof {
                assert(self@[i as int] == entry_view(self.entries@[i as int]));
            }
            if crate::type_ref::same_text(e.0.as_str(), k) {
                proof {
                    lemma_position_is_first(self@, k@, i as int);
                }
                return Some(i);
            }
            i += 1;
        }
        proof {
            lemma_position_absent(self@, k@);
        }
        None
    }

    /// The value stored under `k`.
    pub fn get(&self, k: &str) -> (r: Option<&V>)
        ensures
            match r {
                Some(v) => lookup(self@, k@) == Some(*v),
                None => lookup(self@, k@) is None,
            },
    {
        match self.position(k) {
            Some(i) => {
                proof {
                    lemma_position_bounds(self@, k@);
                    assert(self@[i as int] == entry_view(self.entries@[i as int]));
                }
                Some(&self.entries[i].1)
            },
            None => None,
        }
    }

    pub fn contains_key(&self, k: &str) -> (r: bool)
        ensures
            r == (lookup(self@, k@) is Some),
    {
        self.position(k).is_some()
    }

    /// The entry at index `i`, in order.
    pub fn entry_at(&self, i: usize) -> (r: (&String, &V))
        requires
            i < self@.len(),
        ensures
            r.0@ == self@[i as int].0,
            *r.1 == self@[i as int].1,
    {
        let e = &self.entries[i];
        (&e.0, &e.1)
    }

    /// A mutable borrow of the value stored under `k`.
    pub fn get_mut(&mut self, k: &str) -> (r: Option<&mut V>)
        ensures
            match r {
                Some(v) => {
                    &&& lookup(old(self)@, k@) == Some(*v)
                    &&& final(self)@ == stored(old(self)@, k@, *final(v))
                },
                None => {
                    &&& lookup(old(self)@, k@) is None
                    &&& final(self)@ == old(self)@
                },
            },
    {
        match self.position(k) {
            Some(i) => {
                proof {
                    lemma_position_bounds(self@, k@);
                    assert(self@[i as int] == entry_view(self.entries@[i as int]));
                }
                let e = &mut self.entries[i];
                Some(&mut e.1)
            },
            None => None,
        }
    }

    /// Stores `v` under `k`, replacing the value a present key had.
    pub fn insert(&mut self, k: String, v: V)
        ensures
            final(self)@ == stored(old(self)@, k@, v),
            old(self).wf() ==> final(self).wf(),
    {
        proof {
            if self.wf() {
                lemma_stored_unique(self@, k@, v);
            }
        }
        match self.position(k.as_str()) {
            Some(i) => {
                proof {
                    lemma_position_bounds(self@, k@);
                }
                self.entries.set(i, (k, v));
                proof {
                    assert(final(self)@ =~= stored(old(self)@, k@, v));
                }
            },
            None => {
                self.entries.push((k, v));
                proof {
                    assert(final(self)@ =~= stored(old(self)@, k@, v));
                }
            },
        }
    }

    /// The entries in order.
    pub fn into_entries(self) -> (r: Vec<(String, V)>)
        ensures
            r@.map_values(|e: (String, V)| entry_view(e)) == self@,
    {
        self.entries
    }
}

} // verus!
