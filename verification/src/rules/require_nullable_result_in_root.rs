//! `require-nullable-result-in-root`: the fields of the root types return
//! nullable results.
use vstd::prelude::*;
use crate::model::{Diagnostic, Node, Span, Suggestion, SyntaxKind, Tree, diag_views, find_up, find_up_exec, push_diag_with, sugg_view, suggestion};
use crate::rules::no_root_type::{RootKind, root_type_name};
use crate::schema::{Schema, TypeKind, type_index, find_type};
use crate::text::{chars_of, chars_eq, push_str, push_all, is_ws, exec_is_ws, ws_prefix_len, skip_ws};

verus! {

/// The `require-nullable-result-in-root` rule.
pub struct RequireNullableResultInRoot;

/// Every root type: the default for the option `root`.
pub fn all_roots() -> (r: Vec<RootKind>)
    ensures r@ == seq![RootKind::Query, RootKind::Mutation, RootKind::Subscription],
{
    vec![RootKind::Query, RootKind::Mutation, RootKind::Subscription]
}

/// Where the `!` right after a type (white space allowed between) is.
pub open spec fn spec_trailing_bang_span(source: Seq<char>, span: Span) -> Option<Span> {
    let end = span.offset + span.len;
    if end > source.len() {
        None
    } else {
        let bang = end + ws_prefix_len(source.skip(end));
        if bang < source.len() && source[bang] == '!' {
            Some(Span { offset: bang as usize, len: 1 })
        } else {
            None
        }
    }
}

/// The span of the `!` that follows the type at `type_span`, if any.
pub fn trailing_bang_span(source: &str, type_span: Span) -> (r: Option<Span>)
    ensures r == spec_trailing_bang_span(source@, type_span),
{
    let s = chars_of(source);
    let n = s.len();
    if type_span.len > n || type_span.offset > n - type_span.len {
        return None;
    }
    let end = type_span.offset + type_span.len;
    let bang = skip_ws(&s, end, n);
    proof { assert(s@.subrange(end as int, n as int) =~= s@.skip(end as int)); }
    if bang < n && s[bang] == '!' {
        Some(Span::new(bang, 1))
    } else {
        None
    }
}

/// How messages name the kind of the type `name`.
pub open spec fn type_kind_label(s: Schema, name: Seq<char>) -> Seq<char> {
    if name == "String"@ || name == "Int"@ || name == "Float"@ || name == "Boolean"@ || name == "ID"@ {
        "scalar"@
    } else {
        match type_index(s.types@, name) {
            Some(k) => match s.types@[k].kind {
                TypeKind::Scalar => "scalar"@,
                TypeKind::Object => "type"@,
                TypeKind::Interface => "interface"@,
                TypeKind::Union => "union"@,
                TypeKind::Enum => "enum"@,
                TypeKind::InputObject => "input"@,
            },
            None => "type"@,
        }
    }
}

fn exec_type_kind_label(s: &Schema, name: &str) -> (r: &'static str)
    ensures r@ == type_kind_label(*s, name@),
{
    let c = chars_of(name);
    if chars_eq(&c, &chars_of("String")) || chars_eq(&c, &chars_of("Int")) || chars_eq(&c, &chars_of("Float"))
        || chars_eq(&c, &chars_of("Boolean")) || chars_eq(&c, &chars_of("ID")) {
        return "scalar";
    }
    match find_type(&s.types, name) {
        Some(k) => match s.types[k].kind {
            TypeKind::Scalar => "scalar",
            TypeKind::Object => "type",
            TypeKind::Interface => "interface",
            TypeKind::Union => "union",
            TypeKind::Enum => "enum",
            TypeKind::InputObject => "input",
        },
        None => "type",
    }
}

/// For a named type at node `i` written non-null directly as the result
/// of a field (not inside a list or an argument): the object type the
/// field belongs to.
pub open spec fn root_owner(nodes: Seq<Node>, i: int) -> Option<int> {
    match nodes[i].parent {
        None => None,
        Some(p) => {
            if nodes[p as int].kind != SyntaxKind::NON_NULL_TYPE {
                None
            } else {
                match nodes[p as int].parent {
                    None => None,
                    Some(q) => {
                        let stop = find_up(nodes, q as int, seq![SyntaxKind::FIELD_DEFINITION, SyntaxKind::LIST_TYPE, SyntaxKind::INPUT_VALUE_DEFINITION]);
                        match stop {
                            None => None,
                            Some(f) => {
                                if nodes[f].kind != SyntaxKind::FIELD_DEFINITION {
                                    None
                                } else {
                                    match nodes[f].parent {
                                        Some(r) => find_up(nodes, r as int, seq![SyntaxKind::OBJECT_TYPE_DEFINITION, SyntaxKind::OBJECT_TYPE_EXTENSION]),
                                        None => None,
                                    }
                                }
                            },
                        }
                    },
                }
            }
        },
    }
}

/// The configured roots' names.
pub open spec fn root_names_of(roots: Seq<RootKind>, s: Schema) -> Seq<Seq<char>> {
    roots.map_values(|k: RootKind| root_type_name(k, Some(s)))
}

/// The finding for node `i`, if any.
pub open spec fn nullable_finding(nodes: Seq<Node>, src: Seq<char>, s: Schema, roots: Seq<RootKind>, i: int) -> Option<(Seq<char>, Span, Seq<(Seq<char>, Span, Seq<char>)>)> {
    let n = nodes[i];
    if n.kind == SyntaxKind::NAMED_TYPE && n.name is Some && n.span is Some {
        match root_owner(nodes, i) {
            Some(t) => match nodes[t].name {
                Some(tn) => {
                    let result = n.name.unwrap()@;
                    let span = n.span.unwrap();
                    if root_names_of(roots, s).contains(tn@) {
                        match spec_trailing_bang_span(src, span) {
                            Some(bang) => {
                                let label = type_kind_label(s, result);
                                let desc = if label == "scalar"@ {
                                    "Make "@ + result + " nullable"@
                                } else {
                                    "Make "@ + label + " \""@ + result + "\" nullable"@
                                };
                                Some((
                                    "Unexpected non-null result "@ + label + " \""@ + result + "\" in type \""@ + tn@ + "\""@,
                                    span,
                                    seq![(desc, bang, Seq::empty())],
                                ))
                            },
                            None => None,
                        }
                    } else {
                        None
                    }
                },
                None => None,
            },
            None => None,
        }
    } else {
        None
    }
}

/// The findings among the first `n` nodes, in order.
pub open spec fn nullable_findings(nodes: Seq<Node>, src: Seq<char>, s: Schema, roots: Seq<RootKind>, n: int) -> Seq<(Seq<char>, Span, Seq<(Seq<char>, Span, Seq<char>)>)>
    decreases n,
{
    if n <= 0 {
        Seq::empty()
    } else {
        match nullable_finding(nodes, src, s, roots, n - 1) {
            Some(d) => nullable_findings(nodes, src, s, roots, n - 1).push(d),
            None => nullable_findings(nodes, src, s, roots, n - 1),
        }
    }
}

fn exec_root_owner(tree: &Tree, i: usize) -> (r: Option<usize>)
    requires
        tree.wf(),
        i < tree.nodes@.len(),
    ensures
        match r {
            Some(t) => root_owner(tree.nodes@, i as int) == Some(t as int) && t < tree.nodes@.len(),
            None => root_owner(tree.nodes@, i as int) is None,
        },
{
    let stops = vec![SyntaxKind::FIELD_DEFINITION, SyntaxKind::LIST_TYPE, SyntaxKind::INPUT_VALUE_DEFINITION];
    let objects = vec![SyntaxKind::OBJECT_TYPE_DEFINITION, SyntaxKind::OBJECT_TYPE_EXTENSION];
    proof {
        assert(stops@ == seq![SyntaxKind::FIELD_DEFINITION, SyntaxKind::LIST_TYPE, SyntaxKind::INPUT_VALUE_DEFINITION]);
        assert(objects@ == seq![SyntaxKind::OBJECT_TYPE_DEFINITION, SyntaxKind::OBJECT_TYPE_EXTENSION]);
    }
    let p = match tree.nodes[i].parent { Some(p) => p, None => return None };
    if tree.nodes[p].kind != SyntaxKind::NON_NULL_TYPE {
        return None;
    }
    let q = match tree.nodes[p].parent { Some(q) => q, None => return None };
    let f = match find_up_exec(tree, q, &stops) { Some(f) => f, None => return None };
    if tree.nodes[f].kind != SyntaxKind::FIELD_DEFINITION {
        return None;
    }
    match tree.nodes[f].parent {
        Some(r) => find_up_exec(tree, r, &objects),
        None => None,
    }
}

fn is_configured_root(roots: &Vec<RootKind>, s: &Schema, name: &Vec<char>) -> (r: bool)
    ensures r == root_names_of(roots@, *s).contains(name@),
{
    for k in 0..roots.len()
        invariant forall|j: int| 0 <= j < k ==> #[trigger] root_names_of(roots@, *s)[j] != name@,
    {
        let rn = roots[k].resolved_name(Some(s));
        if chars_eq(&chars_of(rn.as_str()), name) {
            proof { assert(root_names_of(roots@, *s)[k as int] == name@); }
            return true;
        }
    }
    false
}

impl RequireNullableResultInRoot {
    /// Reports every non-null result type of a field of one of the `roots`
    /// (by their names in `s`) in the document `tree` (text `source`), with
    /// the suggestion to remove its `!`.
    pub fn check(&self, tree: &Tree, source: &str, s: &Schema, roots: &Vec<RootKind>) -> (r: Vec<Diagnostic>)
        requires tree.wf(),
        ensures diag_views(r@) == nullable_findings(tree.nodes@, source@, *s, roots@, tree.nodes@.len() as int),
    {
        let mut out: Vec<Diagnostic> = Vec::new();
        for i in 0..tree.nodes.len()
            invariant
                tree.wf(),
                diag_views(out@) == nullable_findings(tree.nodes@, source@, *s, roots@, i as int),
        {
            let n = &tree.nodes[i];
            if n.kind == SyntaxKind::NAMED_TYPE {
                match (&n.name, n.span) {
                    (Some(result), Some(span)) => match exec_root_owner(tree, i) {
                        Some(t) => match &tree.nodes[t].name {
                            Some(tn) => {
                                if is_configured_root(roots, s, &chars_of(tn.as_str())) {
                                    match trailing_bang_span(source, span) {
                                        Some(bang) => {
                                            let label = exec_type_kind_label(s, result.as_str());
                                            let mut desc: Vec<char> = Vec::new();
                                            push_str(&mut desc, "Make ");
                                            if chars_eq(&chars_of(label), &chars_of("scalar")) {
                                                push_str(&mut desc, result.as_str());
                                                push_str(&mut desc, " nullable");
                                            } else {
                                                push_str(&mut desc, label);
                                                push_str(&mut desc, " \"");
                                                push_str(&mut desc, result.as_str());
                                                push_str(&mut desc, "\" nullable");
                                            }
                                            let mut m: Vec<char> = Vec::new();
                                            push_str(&mut m, "Unexpected non-null result ");
                                            push_str(&mut m, label);
                                            push_str(&mut m, " \"");
                                            push_str(&mut m, result.as_str());
                                            push_str(&mut m, "\" in type \"");
                                            push_str(&mut m, tn.as_str());
                                            push_str(&mut m, "\"");
                                            let sg = vec![suggestion(&desc, bang, &Vec::new())];
                                            proof {
                                                assert(label@ == type_kind_label(*s, result@));
                                                assert(sugg_view(sg@[0]) == (desc@, bang, Seq::<char>::empty()));
                                                assert(nullable_finding(tree.nodes@, source@, *s, roots@, i as int)
                                                    == Some((m@, span, seq![(desc@, bang, Seq::<char>::empty())])));
                                                assert(sg@.map_values(|x: Suggestion| sugg_view(x)) =~= seq![(desc@, bang, Seq::<char>::empty())]);
                                            }
                                            push_diag_with(&mut out, &m, span, sg);
                                        },
                                        None => {},
                                    }
                                }
                            },
                            None => {},
                        },
                        None => {},
                    },
                    _ => {},
                }
            }
        }
        out
    }
}

} // verus!
