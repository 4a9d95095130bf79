use vstd::prelude::*;

verus! {

/// The mathematical reading of a type reference: its outermost wrapper and
/// the text that the wrapper encloses.
pub enum TypeRef {
    List(Seq<char>),
    NonNull(Seq<char>),
    Named(Seq<char>),
}

/// A text read as a list: it opens with `[` and has a last character to
/// drop as the closing bracket. A lone `[` is a name.
pub open spec fn is_bracketed(s: Seq<char>) -> bool {
    s.len() >= 2 && s[0] == '['
}

/// A text whose list brackets, if it has any, are balanced: it does not read
/// as a list unless it also ends with `]`.
pub open spec fn well_bracketed(s: Seq<char>) -> bool {
    (s.len() > 0 && s[s.len() - 1] == '!') || !is_bracketed(s) || s[s.len() - 1] == ']'
}

/// The outermost wrapper of a type reference: a trailing `!` first, then one
/// layer of brackets, else a bare name.
pub open spec fn parse_type_ref(s: Seq<char>) -> TypeRef {
    if s.len() > 0 && s[s.len() - 1] == '!' {
        TypeRef::NonNull(s.drop_last())
    } else if is_bracketed(s) {
        TypeRef::List(s.subrange(1, s.len() - 1))
    } else {
        TypeRef::Named(s)
    }
}

/// The text of a type reference.
pub open spec fn render_type_ref(t: TypeRef) -> Seq<char> {
    match t {
        TypeRef::Named(n) => n,
        TypeRef::NonNull(n) => n.push('!'),
        TypeRef::List(n) => seq!['['] + n + seq![']'],
    }
}

/// The innermost name of a type reference, with every wrapper stripped.
pub open spec fn concrete_name(s: Seq<char>) -> Seq<char>
    decreases s.len(),
{
    if s.len() > 0 && s[s.len() - 1] == '!' {
        concrete_name(s.drop_last())
    } else if is_bracketed(s) {
        concrete_name(s.subrange(1, s.len() - 1))
    } else {
        s
    }
}

pub open spec fn type_ref_size(t: TypeRef) -> nat {
    render_type_ref(t).len()
}

/// Covariance of type references: `sub` may stand where `sup` is expected.
pub open spec fn subtype_of(sup: TypeRef, sub: TypeRef) -> bool
    decreases type_ref_size(sup) + type_ref_size(sub),
{
    match (sup, sub) {
        (TypeRef::NonNull(a), TypeRef::NonNull(b)) => {
            proof {
                lemma_parse_size(a);
                lemma_parse_size(b);
            }
            subtype_of(parse_type_ref(a), parse_type_ref(b))
        },
        (TypeRef::Named(a), TypeRef::NonNull(b)) => {
            proof {
                lemma_parse_size(a);
                lemma_parse_size(b);
            }
            subtype_of(parse_type_ref(a), parse_type_ref(b))
        },
        (TypeRef::Named(a), TypeRef::Named(b)) => a == b,
        (TypeRef::List(a), TypeRef::List(b)) => {
            proof {
                lemma_parse_size(a);
                lemma_parse_size(b);
            }
            subtype_of(parse_type_ref(a), parse_type_ref(b))
        },
        _ => false,
    }
}

/// Parsing keeps the size of a type reference.
pub proof fn lemma_parse_size(s: Seq<char>)
    ensures
        type_ref_size(parse_type_ref(s)) == s.len(),
{
}

/// Rendering the parse of a type reference gives the text back, for every
/// text whose list brackets are balanced.
pub proof fn lemma_render_parse(s: Seq<char>)
    requires
        well_bracketed(s),
    ensures
        render_type_ref(parse_type_ref(s)) == s,
{
    if s.len() > 0 && s[s.len() - 1] == '!' {
        assert(s.drop_last().push('!') =~= s);
    } else if is_bracketed(s) {
        assert(seq!['['] + s.subrange(1, s.len() - 1) + seq![']'] =~= s);
    }
}

/// A type reference, split at its outermost wrapper.
#[derive(Clone, Copy, Debug, PartialEq)]
pub enum MetaTypeName<'a> {
    List(&'a str),
    NonNull(&'a str),
    Named(&'a str),
}

impl<'a> View for MetaTypeName<'a> {
    type V = TypeRef;

    open spec fn view(&self) -> TypeRef {
        match self {
            MetaTypeName::List(n) => TypeRef::List(n@),
            MetaTypeName::NonNull(n) => TypeRef::NonNull(n@),
            MetaTypeName::Named(n) => TypeRef::Named(n@),
        }
    }
}

/// For a text that opens with `[`, what lies between its first and its last
/// character; a lone `[` has nothing to strip.
fn strip_brackets(ty_name: &str) -> (r: Option<&str>)
    ensures
        is_bracketed(ty_name@) ==> r is Some && r->0@ == ty_name@.subrange(
            1,
            ty_name@.len() - 1,
        ),
        !is_bracketed(ty_name@) ==> r is None,
{
    let n = ty_name.unicode_len();
    if n >= 2 && ty_name.get_char(0) == '[' {
        Some(ty_name.substring_char(1, n - 1))
    } else {
        None
    }
}

impl<'a> MetaTypeName<'a> {
    /// Splits a type reference at its outermost wrapper.
    pub fn create(ty_name: &'a str) -> (r: MetaTypeName<'a>)
        ensures
            r@ == parse_type_ref(ty_name@),
    {
        let n = ty_name.unicode_len();
        if n > 0 && ty_name.get_char(n - 1) == '!' {
            MetaTypeName::NonNull(ty_name.substring_char(0, n - 1))
        } else if let Some(inner) = strip_brackets(ty_name) {
            MetaTypeName::List(inner)
        } else {
            MetaTypeName::Named(ty_name)
        }
    }

    /// The innermost name of a type reference.
    pub fn concrete_typename(ty_name: &str) -> (r: &str)
        ensures
            r@ == concrete_name(ty_name@),
        decreases ty_name@.len(),
    {
        match MetaTypeName::create(ty_name) {
            MetaTypeName::List(inner) => Self::concrete_typename(inner),
            MetaTypeName::NonNull(inner) => Self::concrete_typename(inner),
            MetaTypeName::Named(name) => name,
        }
    }

    pub fn is_non_null(&self) -> (r: bool)
        ensures
            r == (self@ is NonNull),
    {
        match self {
            MetaTypeName::NonNull(_) => true,
            _ => false,
        }
    }

    /// Drops an outer non-null wrapper, if there is one.
    pub fn unwrap_non_null(&self) -> (r: MetaTypeName<'a>)
        ensures
            r@ == (match self@ {
                TypeRef::NonNull(n) => parse_type_ref(n),
                other => other,
            }),
    {
        match self {
            MetaTypeName::NonNull(ty) => MetaTypeName::create(ty),
            _ => *self,
        }
    }

    /// Whether a value of type `sub` may stand where `self` is expected.
    pub fn is_subtype(&self, sub: &MetaTypeName<'_>) -> (r: bool)
        ensures
            r == subtype_of(self@, sub@),
        decreases type_ref_size(self@) + type_ref_size(sub@),
    {
        match (self, sub) {
            (MetaTypeName::NonNull(super_type), MetaTypeName::NonNull(sub_type))
            | (MetaTypeName::Named(super_type), MetaTypeName::NonNull(sub_type)) => {
                proof {
                    lemma_parse_size(super_type@);
                    lemma_parse_size(sub_type@);
                }
                MetaTypeName::create(super_type).is_subtype(&MetaTypeName::create(sub_type))
            },
            (MetaTypeName::Named(super_type), MetaTypeName::Named(sub_type)) => {
                same_text(super_type, sub_type)
            },
            (MetaTypeName::List(super_type), MetaTypeName::List(sub_type)) => {
                proof {
                    lemma_parse_size(super_type@);
                    lemma_parse_size(sub_type@);
                }
                MetaTypeName::create(super_type).is_subtype(&MetaTypeName::create(sub_type))
            },
            _ => false,
        }
    }

    /// The text of the type reference.
    pub fn to_string(&self) -> (r: String)
        ensures
            r@ == render_type_ref(self@),
    {
        match self {
            MetaTypeName::Named(name) => String::from_str(name),
            MetaTypeName::NonNull(name) => {
                let mut s = String::from_str(name);
                s.append("!");
                proof {
                    reveal_strlit("!");
                    assert(s@ =~= name@.push('!'));
                }
                s
            },
            MetaTypeName::List(name) => {
                let mut s = String::from_str("[");
                s.append(name);
                s.append("]");
                proof {
                    reveal_strlit("[");
                    reveal_strlit("]");
                }
                s
            },
        }
    }
}

/// Whether two texts are equal.
pub fn same_text(a: &str, b: &str) -> (r: bool)
    ensures
        r == (a@ == b@),
{
    let x = String::from_str(a);
    let y = String::from_str(b);
    x == y
}

} // verus!
