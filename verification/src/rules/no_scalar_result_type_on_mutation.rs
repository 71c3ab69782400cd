//! `no-scalar-result-type-on-mutation`: mutation fields do not return
//! scalars.
use vstd::prelude::*;
use crate::model::{Diagnostic, Node, Span, SyntaxKind, Tree, diag_views, plain_diag, push_diag, find_up, find_up_exec};
use crate::schema::{Schema, TypeKind, type_index, find_type, field_index, find_field};
use crate::text::{chars_of, chars_eq, push_str, has_text, string_of};
use crate::case::views;

verus! {

/// The `no-scalar-result-type-on-mutation` rule.
pub struct NoScalarResultTypeOnMutation;

/// The name of the mutation type: the schema's, else `Mutation`.
pub open spec fn mutation_name(s: Schema) -> Seq<char> {
    match s.mutation {
        Some(n) => n@,
        None => "Mutation"@,
    }
}

/// `name` is a scalar: built in, or a scalar type of the schema.
pub open spec fn is_scalar(s: Schema, name: Seq<char>) -> bool {
    ||| name == "String"@ || name == "Int"@ || name == "Float"@ || name == "Boolean"@ || name == "ID"@
    ||| (type_index(s.types@, name) matches Some(k) && s.types@[k].kind == TypeKind::Scalar)
}

/// The field definition a named type at node `i` is the result of (not an
/// argument's type), and the object type around it: (field, type).
pub open spec fn result_owner(nodes: Seq<Node>, i: int) -> Option<(int, int)> {
    match nodes[i].parent {
        Some(p) => match find_up(nodes, p as int, seq![SyntaxKind::INPUT_VALUE_DEFINITION, SyntaxKind::FIELD_DEFINITION]) {
            Some(f) => if nodes[f].kind == SyntaxKind::FIELD_DEFINITION {
                match nodes[f].parent {
                    Some(q) => match find_up(nodes, q as int, seq![SyntaxKind::OBJECT_TYPE_DEFINITION, SyntaxKind::OBJECT_TYPE_EXTENSION]) {
                        Some(t) => Some((f, t)),
                        None => None,
                    },
                    None => None,
                }
            } else {
                None
            },
            None => None,
        },
        None => None,
    }
}

/// The finding for node `i`, if any: a named type with a span that is the
/// result of a field of the mutation type, names a scalar and is not
/// allowed.
pub open spec fn scalar_finding(nodes: Seq<Node>, s: Schema, allowed: Seq<Seq<char>>, i: int) -> Option<(Seq<char>, Span, Seq<(Seq<char>, Span, Seq<char>)>)> {
    let n = nodes[i];
    let m = mutation_name(s);
    match type_index(s.types@, m) {
        Some(mk) => if s.types@[mk].kind == TypeKind::Object && n.kind == SyntaxKind::NAMED_TYPE && n.name is Some && n.span is Some {
            match result_owner(nodes, i) {
                Some((f, t)) => match (nodes[f].name, nodes[t].name) {
                    (Some(fname), Some(tname)) => {
                        let base = n.name.unwrap()@;
                        if tname@ == m && field_index(s.types@[mk].fields@, fname@) is Some
                            && !allowed.contains(base) && is_scalar(s, base) {
                            Some(plain_diag(
                                "Unexpected scalar result type `"@ + base + "` for field \""@ + fname@ + "\" in type \""@ + tname@ + "\""@,
                                n.span.unwrap(),
                            ))
                        } else {
                            None
                        }
                    },
                    _ => None,
                },
                None => None,
            }
        } else {
            None
        },
        None => None,
    }
}

/// The findings among the first `n` nodes, in order.
pub open spec fn scalar_findings(nodes: Seq<Node>, s: Schema, allowed: Seq<Seq<char>>, n: int) -> Seq<(Seq<char>, Span, Seq<(Seq<char>, Span, Seq<char>)>)>
    decreases n,
{
    if n <= 0 {
        Seq::empty()
    } else {
        match scalar_finding(nodes, s, allowed, n - 1) {
            Some(d) => scalar_findings(nodes, s, allowed, n - 1).push(d),
            None => scalar_findings(nodes, s, allowed, n - 1),
        }
    }
}

fn exec_is_scalar(s: &Schema, name: &str) -> (r: bool)
    ensures r == is_scalar(*s, name@),
{
    let c = chars_of(name);
    if chars_eq(&c, &chars_of("String")) || chars_eq(&c, &chars_of("Int")) || chars_eq(&c, &chars_of("Float"))
        || chars_eq(&c, &chars_of("Boolean")) || chars_eq(&c, &chars_of("ID")) {
        return true;
    }
    match find_type(&s.types, name) {
        Some(k) => s.types[k].kind == TypeKind::Scalar,
        None => false,
    }
}

impl NoScalarResultTypeOnMutation {
    /// Reports every named type of the document `tree` that is the result
    /// of a field of the schema's mutation type and names a scalar not in
    /// `allowed`.
    pub fn check(&self, tree: &Tree, s: &Schema, allowed: &Vec<String>) -> (r: Vec<Diagnostic>)
        requires tree.wf(),
        ensures diag_views(r@) == scalar_findings(tree.nodes@, *s, views(allowed@), tree.nodes@.len() as int),
    {
        let mut out: Vec<Diagnostic> = Vec::new();
        let m = match &s.mutation { Some(n) => n.clone(), None => string_of(&chars_of("Mutation")) };
        let mk = match find_type(&s.types, m.as_str()) {
            Some(k) => k,
            None => {
                proof {
                    assert forall|i: int| 0 <= i <= tree.nodes@.len() implies #[trigger] scalar_findings(tree.nodes@, *s, views(allowed@), i) == Seq::<(Seq<char>, Span, Seq<(Seq<char>, Span, Seq<char>)>)>::empty() by {
                        lemma_no_mutation(tree.nodes@, *s, views(allowed@), i);
                    }
                }
                return out;
            },
        };
        let fields_or_vals = vec![SyntaxKind::INPUT_VALUE_DEFINITION, SyntaxKind::FIELD_DEFINITION];
        let objects = vec![SyntaxKind::OBJECT_TYPE_DEFINITION, SyntaxKind::OBJECT_TYPE_EXTENSION];
        proof {
            assert(fields_or_vals@ == seq![SyntaxKind::INPUT_VALUE_DEFINITION, SyntaxKind::FIELD_DEFINITION]);
            assert(objects@ == seq![SyntaxKind::OBJECT_TYPE_DEFINITION, SyntaxKind::OBJECT_TYPE_EXTENSION]);
        }
        let is_object = s.types[mk].kind == TypeKind::Object;
        let mc = chars_of(m.as_str());
        for i in 0..tree.nodes.len()
            invariant
                tree.wf(),
                mc@ == mutation_name(*s),
                type_index(s.types@, mc@) == Some(mk as int),
                mk < s.types@.len(),
                is_object == (s.types@[mk as int].kind == TypeKind::Object),
                fields_or_vals@ == seq![SyntaxKind::INPUT_VALUE_DEFINITION, SyntaxKind::FIELD_DEFINITION],
                objects@ == seq![SyntaxKind::OBJECT_TYPE_DEFINITION, SyntaxKind::OBJECT_TYPE_EXTENSION],
                diag_views(out@) == scalar_findings(tree.nodes@, *s, views(allowed@), i as int),
        {
            let n = &tree.nodes[i];
            if is_object && n.kind == SyntaxKind::NAMED_TYPE {
                match (&n.name, n.span, n.parent) {
                    (Some(base), Some(span), Some(p)) => {
                        match find_up_exec(tree, p, &fields_or_vals) {
                            Some(f) => if tree.nodes[f].kind == SyntaxKind::FIELD_DEFINITION {
                                match tree.nodes[f].parent {
                                    Some(q) => match find_up_exec(tree, q, &objects) {
                                        Some(t) => match (&tree.nodes[f].name, &tree.nodes[t].name) {
                                            (Some(fname), Some(tname)) => {
                                                if chars_eq(&chars_of(tname.as_str()), &mc)
                                                    && find_field(&s.types[mk].fields, fname.as_str()).is_some()
                                                    && !has_text(allowed, base.as_str()) && exec_is_scalar(s, base.as_str()) {
                                                    let mut msg: Vec<char> = Vec::new();
                                                    push_str(&mut msg, "Unexpected scalar result type `");
                                                    push_str(&mut msg, base.as_str());
                                                    push_str(&mut msg, "` for field \"");
                                                    push_str(&mut msg, fname.as_str());
                                                    push_str(&mut msg, "\" in type \"");
                                                    push_str(&mut msg, tname.as_str());
                                                    push_str(&mut msg, "\"");
                                                    push_diag(&mut out, &msg, span);
                                                }
                                            },
                                            _ => {},
                                        },
                                        None => {},
                                    },
                                    None => {},
                                }
                            },
                            None => {},
                        }
                    },
                    _ => {},
                }
            }
        }
        out
    }
}

proof fn lemma_no_mutation(nodes: Seq<Node>, s: Schema, allowed: Seq<Seq<char>>, n: int)
    requires type_index(s.types@, mutation_name(s)) is None,
    ensures scalar_findings(nodes, s, allowed, n) == Seq::<(Seq<char>, Span, Seq<(Seq<char>, Span, Seq<char>)>)>::empty(),
    decreases n,
{
    if n > 0 {
        lemma_no_mutation(nodes, s, allowed, n - 1);
    }
}

} // verus!
