use vstd::prelude::*;
use crate::ast::{Field, FragmentDefinition, Selection};
use crate::name_map::{position_of, NameMap};
use crate::type_ref::same_text;
use crate::value::Positioned;

verus! {

broadcast use vstd::std_specs::vec::group_vec_axioms;

/// The first field named `name` among `items`, in document order, looking
/// through inline fragments and through spreads of the fragments in `frags`.
/// A fragment already entered on the way down (`visited`, by index) is not
/// entered again: a cyclic spread finds nothing. As entered fragments are
/// distinct, fewer of them are entered than the table holds; the bound is
/// tested all the same, so that the recursion visibly ends.
pub open spec fn find_field(
    frags: Seq<(Seq<char>, Positioned<FragmentDefinition>)>,
    items: Seq<Positioned<Selection>>,
    name: Seq<char>,
    visited: Seq<usize>,
) -> Option<Field>
    decreases frags.len() - visited.len(), items,
{
    if items.len() == 0 {
        None
    } else {
        let first = match items[0].node {
            Selection::Field(f) => if f.node.name.node@ == name {
                Some(f.node)
            } else {
                None
            },
            Selection::InlineFragment(fr) => {
                proof {
                    assert(decreases_to!(items => items[0]));
                    assert(decreases_to!(fr.node.selection_set.node.items => fr.node.selection_set.node.items@));
                }
                find_field(frags, fr.node.selection_set.node.items@, name, visited)
            },
            Selection::FragmentSpread(sp) => {
                let p = position_of(frags, sp.node.fragment_name.node@);
                if p >= 0 && !visited.contains(p as usize) && visited.len() < frags.len() {
                    find_field(
                        frags,
                        frags[p].1.node.selection_set.node.items@,
                        name,
                        visited.push(p as usize),
                    )
                } else {
                    None
                }
            },
        };
        if first is Some {
            first
        } else {
            find_field(frags, items.drop_first(), name, visited)
        }
    }
}

fn contains_index(visited: &Vec<usize>, p: usize) -> (r: bool)
    ensures
        r == visited@.contains(p),
{
    let mut i: usize = 0;
    while i < visited.len()
        invariant
            i <= visited@.len(),
            forall|j: int| 0 <= j < i ==> visited@[j] != p,
        decreases visited@.len() - i,
    {
        if visited[i] == p {
            return true;
        }
        i += 1;
    }
    false
}

/// The first field named `name` among `items` (see `find_field`).
fn find<'a>(
    fragments: &'a NameMap<Positioned<FragmentDefinition>>,
    items: &'a Vec<Positioned<Selection>>,
    name: &str,
    visited: &mut Vec<usize>,
) -> (r: Option<&'a Field>)
    ensures
        final(visited)@ == old(visited)@,
        match r {
            Some(f) => find_field(fragments@, items@, name@, old(visited)@) == Some(*f),
            None => find_field(fragments@, items@, name@, old(visited)@) is None,
        },
    decreases fragments@.len() - old(visited)@.len(), items@,
{
    let ghost frags = fragments@;
    let ghost v0 = visited@;
    let mut i: usize = 0;
    let mut result: Option<&'a Field> = None;
    proof {
        assert(items@.subrange(0, items@.len() as int) =~= items@);
    }
    while i < items.len()
        invariant_except_break
            result is None,
            find_field(frags, items@, name@, v0) == find_field(
                frags,
                items@.subrange(i as int, items@.len() as int),
                name@,
                v0,
            ),
        invariant
            i <= items@.len(),
            visited@ == v0,
            v0 == old(visited)@,
            frags == fragments@,
        ensures
            visited@ == v0,
            match result {
                Some(f) => find_field(frags, items@, name@, v0) == Some(*f),
                None => find_field(frags, items@, name@, v0) is None,
            },
        decreases items@.len() - i,
    {
        let ghost rest = items@.subrange(i as int, items@.len() as int);
        proof {
            assert(rest[0] == items@[i as int]);
            assert(rest.drop_first() =~= items@.subrange(i + 1, items@.len() as int));
        }
        match &items[i].node {
            Selection::Field(f) => {
                if same_text(f.node.name.node.as_str(), name) {
                    result = Some(&f.node);
                    break;
                }
            },
            Selection::InlineFragment(fr) => {
                proof {
                    assert(decreases_to!(items@ => items@[i as int]));
                    assert(decreases_to!(fr.node.selection_set.node.items => fr.node.selection_set.node.items@));
                }
                let found = find(fragments, &fr.node.selection_set.node.items, name, visited);
                if found.is_some() {
                    result = found;
                    break;
                }
            },
            Selection::FragmentSpread(sp) => {
                if let Some(p) = fragments.position(sp.node.fragment_name.node.as_str()) {
                    if !contains_index(visited, p) && visited.len() < fragments.len() {
                        proof {
                            crate::name_map::lemma_position_bounds(frags, sp.node.fragment_name.node@);
                        }
                        let (_, def) = fragments.entry_at(p);
                        visited.push(p);
                        proof {
                            assert(decreases_to!(fragments@.len() - v0.len(), items@ => fragments@.len() - visited@.len(), def.node.selection_set.node.items@));
                        }
                        let found = find(fragments, &def.node.selection_set.node.items, name, visited);
                        visited.pop();
                        proof {
                            assert(visited@ =~= v0);
                        }
                        if found.is_some() {
                            result = found;
                            break;
                        }
                    }
                }
            },
        }
        i += 1;
    }
    result
}

/// What a field's selection set will select: a cursor that narrows field by
/// field, blind to aliases and transparent to fragments.
pub struct Lookahead<'a> {
    pub fragments: &'a NameMap<Positioned<FragmentDefinition>>,
    pub field: Option<&'a Field>,
}

impl<'a> Lookahead<'a> {
    pub fn new(fragments: &'a NameMap<Positioned<FragmentDefinition>>, field: &'a Field) -> (r: Self)
        ensures
            r.fragments == fragments,
            r.field == Some(field),
    {
        Lookahead { fragments, field: Some(field) }
    }

    /// The first field of the selection set named `name`, ignoring aliases.
    /// Once nothing is found, every narrowing finds nothing.
    pub fn field(&self, name: &str) -> (r: Self)
        ensures
            r.fragments == self.fragments,
            match self.field {
                Some(f) => match r.field {
                    Some(g) => find_field(self.fragments@, f.selection_set.node.items@, name@, seq![]) == Some(*g),
                    None => find_field(self.fragments@, f.selection_set.node.items@, name@, seq![]) is None,
                },
                None => r.field is None,
            },
    {
        match self.field {
            Some(f) => {
                let mut visited: Vec<usize> = Vec::new();
                proof {
                    assert(visited@ =~= seq![]);
                }
                let found = find(self.fragments, &f.selection_set.node.items, name, &mut visited);
                Lookahead { fragments: self.fragments, field: found }
            },
            None => Lookahead { fragments: self.fragments, field: None },
        }
    }

    /// Whether the cursor stands on a field.
    pub fn field_exists(&self) -> (r: bool)
        ensures
            r == self.field is Some,
    {
        self.field.is_some()
    }
}

} // verus!
