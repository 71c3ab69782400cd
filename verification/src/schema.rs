//! A GraphQL schema as the rules read it: its types with their fields,
//! interfaces and members, its directive definitions and its root
//! operation types.
use vstd::prelude::*;
use crate::text::{chars_of, chars_eq};

verus! {

/// A type reference: a named type or a list, each nullable or not.
#[derive(Debug)]
pub enum TypeRef {
    Named(String),
    NonNullNamed(String),
    List(Box<TypeRef>),
    NonNullList(Box<TypeRef>),
}

/// The name of the type a reference finally names, through its lists.
pub open spec fn base_name(t: TypeRef) -> Seq<char>
    decreases t,
{
    match t {
        TypeRef::Named(n) => n@,
        TypeRef::NonNullNamed(n) => n@,
        TypeRef::List(inner) => base_name(*inner),
        TypeRef::NonNullList(inner) => base_name(*inner),
    }
}

impl TypeRef {
    /// The name of the type this reference finally names.
    pub fn base(&self) -> (r: &str)
        ensures r@ == base_name(*self),
        decreases self,
    {
        match self {
            TypeRef::Named(n) => n.as_str(),
            TypeRef::NonNullNamed(n) => n.as_str(),
            TypeRef::List(inner) => inner.base(),
            TypeRef::NonNullList(inner) => inner.base(),
        }
    }
}

/// An argument: its name, its type, and whether it is deprecated. A
/// deprecation is `Some(reason)`, the reason being the string value of the
/// `@deprecated` directive's `reason` argument (its default applied) if
/// that value is a string.
#[derive(Debug)]
pub struct InputValueDef {
    pub name: String,
    pub ty: TypeRef,
    pub deprecated: Option<Option<String>>,
}

/// A field of an object, interface or input object type, with its
/// arguments (none for input fields) and its deprecation, as for an
/// argument.
#[derive(Debug)]
pub struct FieldDef {
    pub name: String,
    pub ty: TypeRef,
    pub arguments: Vec<InputValueDef>,
    pub deprecated: Option<Option<String>>,
}

/// A value of an enum type and its deprecation, as for an argument.
#[derive(Debug)]
pub struct EnumValueDef {
    pub name: String,
    pub deprecated: Option<Option<String>>,
}

/// The kinds of named types.
#[derive(Debug, Clone, Copy, PartialEq, Eq, Structural)]
pub enum TypeKind {
    Scalar,
    Object,
    Interface,
    Union,
    Enum,
    InputObject,
}

/// A named type: its fields (objects, interfaces, input objects), the
/// interfaces it implements (objects, interfaces), its members (unions)
/// and its values (enums).
#[derive(Debug)]
pub struct TypeDef {
    pub name: String,
    pub kind: TypeKind,
    pub fields: Vec<FieldDef>,
    pub interfaces: Vec<String>,
    pub members: Vec<String>,
    pub values: Vec<EnumValueDef>,
}

/// A directive definition and its arguments.
#[derive(Debug)]
pub struct DirectiveDef {
    pub name: String,
    pub arguments: Vec<InputValueDef>,
}

/// A schema: its types, directive definitions and root operation types.
#[derive(Debug)]
pub struct Schema {
    pub types: Vec<TypeDef>,
    pub directives: Vec<DirectiveDef>,
    pub query: Option<String>,
    pub mutation: Option<String>,
    pub subscription: Option<String>,
}

/// The position of the type named `name` (the first, should two share it).
pub open spec fn type_index(types: Seq<TypeDef>, name: Seq<char>) -> Option<int>
    decreases types.len(),
{
    if types.len() == 0 {
        None
    } else {
        match type_index(types.drop_last(), name) {
            Some(k) => Some(k),
            None => if types.last().name@ == name { Some(types.len() - 1) } else { None },
        }
    }
}

pub proof fn lemma_type_index(types: Seq<TypeDef>, name: Seq<char>)
    ensures
        match type_index(types, name) {
            Some(k) => 0 <= k < types.len() && types[k].name@ == name
                && forall|j: int| 0 <= j < k ==> #[trigger] types[j].name@ != name,
            None => forall|j: int| 0 <= j < types.len() ==> #[trigger] types[j].name@ != name,
        },
    decreases types.len(),
{
    if types.len() > 0 {
        let d = types.drop_last();
        lemma_type_index(d, name);
        assert forall|j: int| 0 <= j < types.len() - 1 implies #[trigger] types[j] == d[j] by {}
    }
}

/// The position of the type named `name` in `types`.
pub fn find_type(types: &Vec<TypeDef>, name: &str) -> (r: Option<usize>)
    ensures
        match r {
            Some(k) => type_index(types@, name@) == Some(k as int) && k < types@.len(),
            None => type_index(types@, name@) is None,
        },
{
    let nc = chars_of(name);
    proof { lemma_type_index(types@, name@); }
    for i in 0..types.len()
        invariant
            nc@ == name@,
            forall|j: int| 0 <= j < i ==> #[trigger] types@[j].name@ != name@,
    {
        if chars_eq(&chars_of(types[i].name.as_str()), &nc) {
            proof {
                lemma_type_index(types@, name@);
                if type_index(types@, name@) != Some(i as int) {
                    let k = type_index(types@, name@).unwrap();
                    assert(types@[k].name@ == name@);
                }
            }
            return Some(i);
        }
    }
    proof {
        lemma_type_index(types@, name@);
        if let Some(k) = type_index(types@, name@) {
            assert(types@[k].name@ != name@);
        }
    }
    None
}


/// The position of the field named `name` (the first, should two share it).
pub open spec fn field_index(fields: Seq<FieldDef>, name: Seq<char>) -> Option<int>
    decreases fields.len(),
{
    if fields.len() == 0 {
        None
    } else {
        match field_index(fields.drop_last(), name) {
            Some(k) => Some(k),
            None => if fields.last().name@ == name { Some(fields.len() - 1) } else { None },
        }
    }
}

pub proof fn lemma_field_index(fields: Seq<FieldDef>, name: Seq<char>)
    ensures
        match field_index(fields, name) {
            Some(k) => 0 <= k < fields.len() && fields[k].name@ == name
                && forall|j: int| 0 <= j < k ==> #[trigger] fields[j].name@ != name,
            None => forall|j: int| 0 <= j < fields.len() ==> #[trigger] fields[j].name@ != name,
        },
    decreases fields.len(),
{
    if fields.len() > 0 {
        let d = fields.drop_last();
        lemma_field_index(d, name);
        assert forall|j: int| 0 <= j < fields.len() - 1 implies #[trigger] fields[j] == d[j] by {}
    }
}

/// The position of the field named `name` in `fields`.
pub fn find_field(fields: &Vec<FieldDef>, name: &str) -> (r: Option<usize>)
    ensures
        match r {
            Some(k) => field_index(fields@, name@) == Some(k as int) && k < fields@.len(),
            None => field_index(fields@, name@) is None,
        },
{
    let nc = chars_of(name);
    proof { lemma_field_index(fields@, name@); }
    for i in 0..fields.len()
        invariant
            nc@ == name@,
            forall|j: int| 0 <= j < i ==> #[trigger] fields@[j].name@ != name@,
    {
        if chars_eq(&chars_of(fields[i].name.as_str()), &nc) {
            proof {
                lemma_field_index(fields@, name@);
                if field_index(fields@, name@) != Some(i as int) {
                    let k = field_index(fields@, name@).unwrap();
                    assert(fields@[k].name@ == name@);
                }
            }
            return Some(i);
        }
    }
    proof {
        lemma_field_index(fields@, name@);
        if let Some(k) = field_index(fields@, name@) {
            assert(fields@[k].name@ != name@);
        }
    }
    None
}

/// The type that the field `f` of the type `ty` returns, as `type_field` of
/// `apollo_compiler::Schema` finds the field: declared on an object or
/// interface, else `__typename` on an object, interface or union, else
/// `__schema` and `__type` on the query type.
pub open spec fn type_field_type(s: Schema, ty: Seq<char>, f: Seq<char>) -> Option<Seq<char>> {
    match type_index(s.types@, ty) {
        None => None,
        Some(k) => {
            let d = s.types@[k];
            let explicit = if d.kind == TypeKind::Object || d.kind == TypeKind::Interface {
                field_index(d.fields@, f)
            } else {
                None
            };
            let on_query = s.query matches Some(q) && q@ == ty;
            match explicit {
                Some(j) => Some(base_name(d.fields@[j].ty)),
                None => if f == "__typename"@ && (d.kind == TypeKind::Object || d.kind == TypeKind::Interface || d.kind == TypeKind::Union) {
                    Some("String"@)
                } else if on_query && f == "__schema"@ {
                    Some("__Schema"@)
                } else if on_query && f == "__type"@ {
                    Some("__Type"@)
                } else {
                    None
                },
            }
        },
    }
}

/// The type that the field `f` of the type `ty` returns.
pub fn field_type(s: &Schema, ty: &str, f: &str) -> (r: Option<String>)
    ensures
        match r {
            Some(t) => type_field_type(*s, ty@, f@) == Some(t@),
            None => type_field_type(*s, ty@, f@) is None,
        },
{
    match find_type(&s.types, ty) {
        None => None,
        Some(k) => {
            let d = &s.types[k];
            let explicit = if d.kind == TypeKind::Object || d.kind == TypeKind::Interface {
                find_field(&d.fields, f)
            } else {
                None
            };
            let fc = chars_of(f);
            let on_query = match &s.query {
                Some(q) => chars_eq(&chars_of(q.as_str()), &chars_of(ty)),
                None => false,
            };
            match explicit {
                Some(j) => Some(crate::text::string_of(&chars_of(d.fields[j].ty.base()))),
                None => if chars_eq(&fc, &chars_of("__typename"))
                    && (d.kind == TypeKind::Object || d.kind == TypeKind::Interface || d.kind == TypeKind::Union) {
                    Some(crate::text::string_of(&chars_of("String")))
                } else if on_query && chars_eq(&fc, &chars_of("__schema")) {
                    Some(crate::text::string_of(&chars_of("__Schema")))
                } else if on_query && chars_eq(&fc, &chars_of("__type")) {
                    Some(crate::text::string_of(&chars_of("__Type")))
                } else {
                    None
                },
            }
        },
    }
}

} // verus!
