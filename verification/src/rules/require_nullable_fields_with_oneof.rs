//! `require-nullable-fields-with-oneof`: the fields of a type or input
//! marked `@oneOf` are nullable.
use vstd::prelude::*;
use crate::model::{Diagnostic, Node, Span, SyntaxKind, Tree, diag_views, plain_diag, push_diag, find_up, find_up_exec};
use crate::schema::{Schema, TypeKind, TypeRef, type_index, find_type, field_index, find_field};
use crate::text::{chars_of, push_str};

verus! {

/// The `require-nullable-fields-with-oneof` rule.
pub struct RequireNullableFieldsWithOneof;

/// The type is non-null at its outermost level.
pub open spec fn spec_is_outer_non_null(t: TypeRef) -> bool {
    t is NonNullNamed || t is NonNullList
}

/// Whether `ty` is non-null at its outermost level.
pub fn is_outer_non_null(ty: &TypeRef) -> (r: bool)
    ensures r == spec_is_outer_non_null(*ty),
{
    match ty {
        TypeRef::NonNullNamed(_) | TypeRef::NonNullList(_) => true,
        _ => false,
    }
}

/// The kinds of definitions `@oneOf` applies to here.
pub open spec fn oneof_kinds() -> Seq<SyntaxKind> {
    seq![SyntaxKind::INPUT_OBJECT_TYPE_DEFINITION, SyntaxKind::OBJECT_TYPE_DEFINITION]
}

/// A `@oneOf` directive sits in a definition with the span `span`.
pub open spec fn oneof_at(nodes: Seq<Node>, span: Span) -> bool {
    exists|j: int| 0 <= j < nodes.len() && #[trigger] nodes[j].kind == SyntaxKind::DIRECTIVE
        && nodes[j].name is Some && nodes[j].name.unwrap()@ == "oneOf"@
        && (find_up(nodes, j, oneof_kinds()) matches Some(d) && nodes[d].span == Some(span))
}

/// The type of the field `f` of `container` as the schema has it: of an
/// object for an object definition, of an input object for an input
/// definition.
pub open spec fn schema_field_type(s: Schema, kind: SyntaxKind, container: Seq<char>, f: Seq<char>) -> Option<TypeRef> {
    match type_index(s.types@, container) {
        Some(k) => {
            let t = s.types@[k];
            if (kind == SyntaxKind::OBJECT_TYPE_DEFINITION && t.kind == TypeKind::Object)
                || (kind == SyntaxKind::INPUT_OBJECT_TYPE_DEFINITION && t.kind == TypeKind::InputObject) {
                match field_index(t.fields@, f) {
                    Some(j) => Some(t.fields@[j].ty),
                    None => None,
                }
            } else {
                None
            }
        },
        None => None,
    }
}

/// The finding for node `i`, if any: the name of a field (or input field)
/// of a definition marked `@oneOf` whose schema type is non-null.
pub open spec fn oneof_finding(nodes: Seq<Node>, s: Schema, i: int) -> Option<(Seq<char>, Span, Seq<(Seq<char>, Span, Seq<char>)>)> {
    let n = nodes[i];
    if n.kind == SyntaxKind::NAME && n.parent is Some && n.span is Some {
        let p = n.parent.unwrap() as int;
        let pk = nodes[p].kind;
        if pk == SyntaxKind::FIELD_DEFINITION || pk == SyntaxKind::INPUT_VALUE_DEFINITION {
            match find_up(nodes, p, oneof_kinds()) {
                Some(d) => {
                    let dn = nodes[d];
                    if dn.span is Some && dn.name is Some
                        && !(pk == SyntaxKind::INPUT_VALUE_DEFINITION && dn.kind != SyntaxKind::INPUT_OBJECT_TYPE_DEFINITION) {
                        let field = match nodes[p].name { Some(x) => x@, None => Seq::empty() };
                        let container = dn.name.unwrap()@;
                        if oneof_at(nodes, dn.span.unwrap()) {
                            match schema_field_type(s, dn.kind, container, field) {
                                Some(t) => if spec_is_outer_non_null(t) {
                                    let label = if dn.kind == SyntaxKind::INPUT_OBJECT_TYPE_DEFINITION { "input"@ } else { "type"@ };
                                    Some(plain_diag(
                                        "field \""@ + field + "\" in "@ + label + " \""@ + container + "\" must be nullable when \"@oneOf\" is in use"@,
                                        n.span.unwrap(),
                                    ))
                                } else {
                                    None
                                },
                                None => None,
                            }
                        } else {
                            None
                        }
                    } else {
                        None
                    }
                },
                None => None,
            }
        } else {
            None
        }
    } else {
        None
    }
}

/// The findings among the first `n` nodes, in order.
pub open spec fn oneof_findings(nodes: Seq<Node>, s: Schema, n: int) -> Seq<(Seq<char>, Span, Seq<(Seq<char>, Span, Seq<char>)>)>
    decreases n,
{
    if n <= 0 {
        Seq::empty()
    } else {
        match oneof_finding(nodes, s, n - 1) {
            Some(d) => oneof_findings(nodes, s, n - 1).push(d),
            None => oneof_findings(nodes, s, n - 1),
        }
    }
}

fn exec_oneof_at(tree: &Tree, kinds: &Vec<SyntaxKind>, span: Span) -> (r: bool)
    requires
        tree.wf(),
        kinds@ == oneof_kinds(),
    ensures r == oneof_at(tree.nodes@, span),
{
    for j in 0..tree.nodes.len()
        invariant
            tree.wf(),
            kinds@ == oneof_kinds(),
            forall|q: int| 0 <= q < j ==> !(#[trigger] tree.nodes@[q].kind == SyntaxKind::DIRECTIVE
                && tree.nodes@[q].name is Some && tree.nodes@[q].name.unwrap()@ == "oneOf"@
                && (find_up(tree.nodes@, q, oneof_kinds()) matches Some(d) && tree.nodes@[d].span == Some(span))),
    {
        let n = &tree.nodes[j];
        if n.kind == SyntaxKind::DIRECTIVE && crate::rules::require_deprecation_reason::is_named(n, "oneOf") {
            match find_up_exec(tree, j, kinds) {
                Some(d) => {
                    if tree.nodes[d].span == Some(span) {
                        return true;
                    }
                },
                None => {},
            }
        }
    }
    false
}

impl RequireNullableFieldsWithOneof {
    /// Reports the name of every field of the document `tree` that belongs
    /// to a type or input marked `@oneOf` and is non-null in the schema `s`.
    pub fn check(&self, tree: &Tree, s: &Schema) -> (r: Vec<Diagnostic>)
        requires tree.wf(),
        ensures diag_views(r@) == oneof_findings(tree.nodes@, *s, tree.nodes@.len() as int),
    {
        let kinds = vec![SyntaxKind::INPUT_OBJECT_TYPE_DEFINITION, SyntaxKind::OBJECT_TYPE_DEFINITION];
        proof { assert(kinds@ == oneof_kinds()); }
        let mut out: Vec<Diagnostic> = Vec::new();
        for i in 0..tree.nodes.len()
            invariant
                tree.wf(),
                kinds@ == oneof_kinds(),
                diag_views(out@) == oneof_findings(tree.nodes@, *s, i as int),
        {
            let n = &tree.nodes[i];
            if n.kind == SyntaxKind::NAME {
                match (n.parent, n.span) {
                    (Some(p), Some(name_span)) => {
                        let pk = tree.nodes[p].kind;
                        if pk == SyntaxKind::FIELD_DEFINITION || pk == SyntaxKind::INPUT_VALUE_DEFINITION {
                            match find_up_exec(tree, p, &kinds) {
                                Some(d) => {
                                    let dn = &tree.nodes[d];
                                    match (dn.span, &dn.name) {
                                        (Some(dspan), Some(container)) => {
                                            if !(pk == SyntaxKind::INPUT_VALUE_DEFINITION && dn.kind != SyntaxKind::INPUT_OBJECT_TYPE_DEFINITION)
                                                && exec_oneof_at(tree, &kinds, dspan) {
                                                let field = match &tree.nodes[p].name { Some(x) => chars_of(x.as_str()), None => Vec::new() };
                                                let fs = crate::text::string_of(&field);
                                                let ty = match find_type(&s.types, container.as_str()) {
                                                    Some(k) => {
                                                        let t = &s.types[k];
                                                        if (dn.kind == SyntaxKind::OBJECT_TYPE_DEFINITION && t.kind == TypeKind::Object)
                                                            || (dn.kind == SyntaxKind::INPUT_OBJECT_TYPE_DEFINITION && t.kind == TypeKind::InputObject) {
                                                            match find_field(&t.fields, fs.as_str()) {
                                                                Some(j) => Some(&t.fields[j].ty),
                                                                None => None,
                                                            }
                                                        } else {
                                                            None
                                                        }
                                                    },
                                                    None => None,
                                                };
                                                match ty {
                                                    Some(t) => {
                                                        if is_outer_non_null(t) {
                                                            let mut m: Vec<char> = Vec::new();
                                                            push_str(&mut m, "field \"");
                                                            crate::text::push_all(&mut m, &field);
                                                            push_str(&mut m, "\" in ");
                                                            push_str(&mut m, if dn.kind == SyntaxKind::INPUT_OBJECT_TYPE_DEFINITION { "input" } else { "type" });
                                                            push_str(&mut m, " \"");
                                                            push_str(&mut m, container.as_str());
                                                            push_str(&mut m, "\" must be nullable when \"@oneOf\" is in use");
                                                            push_diag(&mut out, &m, name_span);
                                                        }
                                                    },
                                                    None => {},
                                                }
                                            }
                                        },
                                        _ => {},
                                    }
                                },
                                None => {},
                            }
                        }
                    },
                    _ => {},
                }
            }
        }
        out
    }
}

} // verus!
