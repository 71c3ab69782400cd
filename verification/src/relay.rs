//! Predicates on the schema for the Relay cursor-connection rules.
use vstd::prelude::*;
use crate::pattern::{Pattern, regex_compiles, regex_matches};
use crate::schema::{FieldDef, Schema, TypeDef, TypeKind, TypeRef, base_name, type_index, find_type, field_index, find_field};
use crate::text::{chars_of, chars_eq};

verus! {

/// The names the Relay rules go by: the pattern of Connection type names,
/// that of Edge type names, and the name of the PageInfo type.
pub struct RelayOpts {
    pub connection_pattern: Pattern,
    pub edge_pattern: Pattern,
    pub page_info_name: String,
}

impl RelayOpts {
    /// The standard names: `Connection$`, `Edge$` and `PageInfo`; `None`
    /// only if the regex crate refuses one of the two patterns.
    pub fn standard() -> (r: Option<RelayOpts>)
        ensures
            r is Some <==> regex_compiles("Connection$"@) && regex_compiles("Edge$"@),
            r matches Some(o) ==> o.connection_pattern@ == "Connection$"@ && o.edge_pattern@ == "Edge$"@
                && o.page_info_name@ == "PageInfo"@,
    {
        let c = Pattern::compile("Connection$");
        let e = Pattern::compile("Edge$");
        match (c, e) {
            (Some(c), Some(e)) => Some(RelayOpts { connection_pattern: c, edge_pattern: e, page_info_name: String::from_str("PageInfo") }),
            _ => None,
        }
    }
}

/// The type has a field named `f`.
pub open spec fn spec_has_field(t: TypeDef, f: Seq<char>) -> bool {
    field_index(t.fields@, f) is Some
}

fn has_field(t: &TypeDef, f: &str) -> (r: bool)
    ensures r == spec_has_field(*t, f@),
{
    find_field(&t.fields, f).is_some()
}

/// Whether the object `object` is named like a Connection and has the
/// fields `edges` and `pageInfo`.
pub fn is_connection_type(object: &TypeDef, opts: &RelayOpts) -> (r: bool)
    ensures
        r == (regex_matches(opts.connection_pattern@, object.name@)
            && spec_has_field(*object, "edges"@) && spec_has_field(*object, "pageInfo"@)),
{
    opts.connection_pattern.is_match(object.name.as_str()) && has_field(object, "edges") && has_field(object, "pageInfo")
}

/// Whether the object `object` is named like an Edge and has the fields
/// `node` and `cursor`.
pub fn is_edge_type(object: &TypeDef, opts: &RelayOpts) -> (r: bool)
    ensures
        r == (regex_matches(opts.edge_pattern@, object.name@)
            && spec_has_field(*object, "node"@) && spec_has_field(*object, "cursor"@)),
{
    opts.edge_pattern.is_match(object.name.as_str()) && has_field(object, "node") && has_field(object, "cursor")
}

/// Whether the object `object` has the PageInfo name and the four
/// standard fields.
pub fn is_page_info_type(object: &TypeDef, opts: &RelayOpts) -> (r: bool)
    ensures
        r == (object.name@ == opts.page_info_name@
            && spec_has_field(*object, "hasNextPage"@) && spec_has_field(*object, "hasPreviousPage"@)
            && spec_has_field(*object, "startCursor"@) && spec_has_field(*object, "endCursor"@)),
{
    chars_eq(&chars_of(object.name.as_str()), &chars_of(opts.page_info_name.as_str()))
        && has_field(object, "hasNextPage") && has_field(object, "hasPreviousPage")
        && has_field(object, "startCursor") && has_field(object, "endCursor")
}

/// The object type of the schema named `n`, if there is one.
pub open spec fn object_named(s: Schema, n: Seq<char>) -> Option<int> {
    match type_index(s.types@, n) {
        Some(k) => if s.types@[k].kind == TypeKind::Object { Some(k) } else { None },
        None => None,
    }
}

fn find_object<'a>(s: &'a Schema, n: &str) -> (r: Option<&'a TypeDef>)
    ensures
        match r {
            Some(t) => object_named(*s, n@) matches Some(k) && *t == s.types@[k],
            None => object_named(*s, n@) is None,
        },
{
    match find_type(&s.types, n) {
        Some(k) => if s.types[k].kind == TypeKind::Object { Some(&s.types[k]) } else { None },
        None => None,
    }
}

/// The object that the field `field` returns, if its type's name matches
/// the Connection pattern and names an object type of the schema.
pub fn connection_for_field<'a>(field: &FieldDef, schema: &'a Schema, opts: &RelayOpts) -> (r: Option<&'a TypeDef>)
    ensures
        match r {
            Some(t) => regex_matches(opts.connection_pattern@, base_name(field.ty))
                && (object_named(*schema, base_name(field.ty)) matches Some(k) && *t == schema.types@[k]),
            None => !regex_matches(opts.connection_pattern@, base_name(field.ty))
                || object_named(*schema, base_name(field.ty)) is None,
        },
{
    let name = field.ty.base();
    if !opts.connection_pattern.is_match(name) {
        return None;
    }
    find_object(schema, name)
}

/// The object that the `edges` field of the Connection `connection` holds
/// a list of, if that field is a list of an object type of the schema.
pub fn edge_of_connection<'a>(connection: &TypeDef, schema: &'a Schema) -> (r: Option<&'a TypeDef>)
    ensures
        match field_index(connection.fields@, "edges"@) {
            Some(j) => {
                let ty = connection.fields@[j].ty;
                match r {
                    Some(t) => (ty is List || ty is NonNullList)
                        && (object_named(*schema, base_name(ty)) matches Some(k) && *t == schema.types@[k]),
                    None => !(ty is List || ty is NonNullList) || object_named(*schema, base_name(ty)) is None,
                }
            },
            None => r is None,
        },
{
    match find_field(&connection.fields, "edges") {
        Some(j) => {
            let ty = &connection.fields[j].ty;
            match ty {
                TypeRef::List(_) | TypeRef::NonNullList(_) => find_object(schema, ty.base()),
                _ => None,
            }
        },
        None => None,
    }
}

/// The same as `edge_of_connection`.
pub fn edge_for_connection<'a>(connection: &TypeDef, schema: &'a Schema) -> (r: Option<&'a TypeDef>)
    ensures
        match field_index(connection.fields@, "edges"@) {
            Some(j) => {
                let ty = connection.fields@[j].ty;
                match r {
                    Some(t) => (ty is List || ty is NonNullList)
                        && (object_named(*schema, base_name(ty)) matches Some(k) && *t == schema.types@[k]),
                    None => !(ty is List || ty is NonNullList) || object_named(*schema, base_name(ty)) is None,
                }
            },
            None => r is None,
        },
{
    edge_of_connection(connection, schema)
}

/// The field has an argument named `a`.
pub open spec fn spec_has_argument(field: FieldDef, a: Seq<char>) -> bool {
    exists|i: int| 0 <= i < field.arguments@.len() && #[trigger] field.arguments@[i].name@ == a
}

fn has_argument(field: &FieldDef, a: &str) -> (r: bool)
    ensures r == spec_has_argument(*field, a@),
{
    let ac = chars_of(a);
    for i in 0..field.arguments.len()
        invariant
            ac@ == a@,
            forall|j: int| 0 <= j < i ==> #[trigger] field.arguments@[j].name@ != a@,
    {
        if chars_eq(&chars_of(field.arguments[i].name.as_str()), &ac) {
            return true;
        }
    }
    false
}

/// The field has both forward pagination arguments.
pub open spec fn spec_forward(field: FieldDef) -> bool {
    spec_has_argument(field, "first"@) && spec_has_argument(field, "after"@)
}

/// The field has both backward pagination arguments.
pub open spec fn spec_backward(field: FieldDef) -> bool {
    spec_has_argument(field, "last"@) && spec_has_argument(field, "before"@)
}

/// Whether the field has both `first` and `after`.
pub fn has_forward_pagination(field: &FieldDef) -> (r: bool)
    ensures r == spec_forward(*field),
{
    has_argument(field, "first") && has_argument(field, "after")
}

/// Whether the field has both `last` and `before`.
pub fn has_backward_pagination(field: &FieldDef) -> (r: bool)
    ensures r == spec_backward(*field),
{
    has_argument(field, "last") && has_argument(field, "before")
}

/// Whether the field paginates forward and not backward.
pub fn is_forward_only(field: &FieldDef) -> (r: bool)
    ensures r == (spec_forward(*field) && !spec_backward(*field)),
{
    has_forward_pagination(field) && !has_backward_pagination(field)
}

/// Whether the field paginates backward and not forward.
pub fn is_backward_only(field: &FieldDef) -> (r: bool)
    ensures r == (spec_backward(*field) && !spec_forward(*field)),
{
    has_backward_pagination(field) && !has_forward_pagination(field)
}

} // verus!
