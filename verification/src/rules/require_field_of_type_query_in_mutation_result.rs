//! `require-field-of-type-query-in-mutation-result`: the result types of
//! mutations have a field of the query type.
use vstd::prelude::*;
use crate::model::{Diagnostic, Node, Span, SyntaxKind, Tree, diag_views, plain_diag, push_diag, find_up_exec};
use crate::rules::no_scalar_result_type_on_mutation::{mutation_name, result_owner};
use crate::schema::{Schema, FieldDef, TypeKind, base_name, type_index, find_type, field_index, find_field};
use crate::text::{chars_of, chars_eq, push_str, string_of};

verus! {

/// The `require-field-of-type-query-in-mutation-result` rule.
pub struct RequireFieldOfTypeQueryInMutationResult;

/// The query type's name when neither the schema nor the options name one.
pub fn default_query() -> (r: String)
    ensures r@ == "Query"@,
{
    string_of(&chars_of("Query"))
}

/// The object type named `name`, if there is one.
pub open spec fn object_index(s: Schema, name: Seq<char>) -> Option<int> {
    match type_index(s.types@, name) {
        Some(k) => if s.types@[k].kind == TypeKind::Object { Some(k) } else { None },
        None => None,
    }
}

/// Some field of `fs` has `q` as its base type.
pub open spec fn has_field_of_type(fs: Seq<FieldDef>, q: Seq<char>) -> bool {
    exists|i: int| 0 <= i < fs.len() && base_name(#[trigger] fs[i].ty) == q
}

/// The finding for node `i`, if any: the result type of a field of the
/// mutation type is an object without a field of the query type `q`.
pub open spec fn query_field_finding(nodes: Seq<Node>, s: Schema, q: Seq<char>, i: int) -> Option<(Seq<char>, Span, Seq<(Seq<char>, Span, Seq<char>)>)> {
    let n = nodes[i];
    let m = mutation_name(s);
    match (object_index(s, m), object_index(s, q)) {
        (Some(mk), Some(_)) => if n.kind == SyntaxKind::NAMED_TYPE && n.name is Some && n.span is Some {
            match result_owner(nodes, i) {
                Some((f, t)) => match (nodes[f].name, nodes[t].name) {
                    (Some(fname), Some(tname)) => {
                        let result = n.name.unwrap()@;
                        match object_index(s, result) {
                            Some(rk) => if tname@ == m && field_index(s.types@[mk].fields@, fname@) is Some
                                && !has_field_of_type(s.types@[rk].fields@, q) {
                                Some(plain_diag("Mutation result type \""@ + result + "\" must contain field of type \""@ + q + "\""@, n.span.unwrap()))
                            } else {
                                None
                            },
                            None => None,
                        }
                    },
                    _ => None,
                },
                None => None,
            }
        } else {
            None
        },
        _ => None,
    }
}

/// The findings among the first `n` nodes, in order.
pub open spec fn query_field_findings(nodes: Seq<Node>, s: Schema, q: Seq<char>, n: int) -> Seq<(Seq<char>, Span, Seq<(Seq<char>, Span, Seq<char>)>)>
    decreases n,
{
    if n <= 0 {
        Seq::empty()
    } else {
        match query_field_finding(nodes, s, q, n - 1) {
            Some(d) => query_field_findings(nodes, s, q, n - 1).push(d),
            None => query_field_findings(nodes, s, q, n - 1),
        }
    }
}

/// The query type's name: the schema's, else the configured one.
pub open spec fn query_name(s: Schema, configured: Seq<char>) -> Seq<char> {
    match s.query {
        Some(n) => n@,
        None => configured,
    }
}

fn find_object(s: &Schema, name: &str) -> (r: Option<usize>)
    ensures
        match r {
            Some(k) => object_index(*s, name@) == Some(k as int) && k < s.types@.len(),
            None => object_index(*s, name@) is None,
        },
{
    match find_type(&s.types, name) {
        Some(k) => if s.types[k].kind == TypeKind::Object { Some(k) } else { None },
        None => None,
    }
}

fn exec_has_field_of_type(fs: &Vec<FieldDef>, q: &Vec<char>) -> (r: bool)
    ensures r == has_field_of_type(fs@, q@),
{
    for i in 0..fs.len()
        invariant forall|j: int| 0 <= j < i ==> base_name(#[trigger] fs@[j].ty) != q@,
    {
        if chars_eq(&chars_of(fs[i].ty.base()), q) {
            return true;
        }
    }
    false
}

proof fn lemma_nothing(nodes: Seq<Node>, s: Schema, q: Seq<char>, n: int)
    requires object_index(s, mutation_name(s)) is None || object_index(s, q) is None,
    ensures query_field_findings(nodes, s, q, n) == Seq::<(Seq<char>, Span, Seq<(Seq<char>, Span, Seq<char>)>)>::empty(),
    decreases n,
{
    if n > 0 {
        lemma_nothing(nodes, s, q, n - 1);
    }
}

impl RequireFieldOfTypeQueryInMutationResult {
    /// Reports every result type of a field of the mutation type (in the
    /// document `tree`) that is an object of `s` without a field of the
    /// query type (the schema's, else `query_type_name`).
    pub fn check(&self, tree: &Tree, s: &Schema, query_type_name: &str) -> (r: Vec<Diagnostic>)
        requires tree.wf(),
        ensures
            diag_views(r@) == query_field_findings(tree.nodes@, *s, query_name(*s, query_type_name@), tree.nodes@.len() as int),
    {
        let mut out: Vec<Diagnostic> = Vec::new();
        let m = match &s.mutation { Some(n) => n.clone(), None => string_of(&chars_of("Mutation")) };
        let q = match &s.query { Some(n) => n.clone(), None => string_of(&chars_of(query_type_name)) };
        let ghost qv = query_name(*s, query_type_name@);
        let (mk, _qk) = match (find_object(s, m.as_str()), find_object(s, q.as_str())) {
            (Some(mk), Some(qk)) => (mk, qk),
            _ => {
                proof { lemma_nothing(tree.nodes@, *s, qv, tree.nodes@.len() as int); }
                return out;
            },
        };
        let fields_or_vals = vec![SyntaxKind::INPUT_VALUE_DEFINITION, SyntaxKind::FIELD_DEFINITION];
        let objects = vec![SyntaxKind::OBJECT_TYPE_DEFINITION, SyntaxKind::OBJECT_TYPE_EXTENSION];
        proof {
            assert(fields_or_vals@ == seq![SyntaxKind::INPUT_VALUE_DEFINITION, SyntaxKind::FIELD_DEFINITION]);
            assert(objects@ == seq![SyntaxKind::OBJECT_TYPE_DEFINITION, SyntaxKind::OBJECT_TYPE_EXTENSION]);
        }
        let mc = chars_of(m.as_str());
        let qc = chars_of(q.as_str());
        for i in 0..tree.nodes.len()
            invariant
                tree.wf(),
                mc@ == mutation_name(*s),
                qc@ == qv,
                object_index(*s, mc@) == Some(mk as int),
                object_index(*s, qv) is Some,
                mk < s.types@.len(),
                fields_or_vals@ == seq![SyntaxKind::INPUT_VALUE_DEFINITION, SyntaxKind::FIELD_DEFINITION],
                objects@ == seq![SyntaxKind::OBJECT_TYPE_DEFINITION, SyntaxKind::OBJECT_TYPE_EXTENSION],
                diag_views(out@) == query_field_findings(tree.nodes@, *s, qv, i as int),
        {
            let n = &tree.nodes[i];
            if n.kind == SyntaxKind::NAMED_TYPE {
                match (&n.name, n.span, n.parent) {
                    (Some(result), Some(span), Some(p)) => {
                        match find_up_exec(tree, p, &fields_or_vals) {
                            Some(f) => if tree.nodes[f].kind == SyntaxKind::FIELD_DEFINITION {
                                match tree.nodes[f].parent {
                                    Some(pp) => match find_up_exec(tree, pp, &objects) {
                                        Some(t) => match (&tree.nodes[f].name, &tree.nodes[t].name) {
                                            (Some(fname), Some(tname)) => match find_object(s, result.as_str()) {
                                                Some(rk) => {
                                                    if chars_eq(&chars_of(tname.as_str()), &mc)
                                                        && find_field(&s.types[mk].fields, fname.as_str()).is_some()
                                                        && !exec_has_field_of_type(&s.types[rk].fields, &qc) {
                                                        let mut msg: Vec<char> = Vec::new();
                                                        push_str(&mut msg, "Mutation result type \"");
                                                        push_str(&mut msg, result.as_str());
                                                        push_str(&mut msg, "\" must contain field of type \"");
                                                        crate::text::push_all(&mut msg, &qc);
                                                        push_str(&mut msg, "\"");
                                                        push_diag(&mut out, &msg, span);
                                                    }
                                                },
                                                None => {},
                                            },
                                            _ => {},
                                        },
                                        None => {},
                                    },
                                    None => {},
                                }
                            },
                            None => {},
                        }
                    },
                    _ => {},
                }
            }
        }
        out
    }
}

} // verus!
