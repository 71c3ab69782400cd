//! `require-type-pattern-with-oneof`: an object type marked `@oneOf`
//! declares the fields `error` and `ok` in its own definition.
use vstd::prelude::*;
use crate::model::{Diagnostic, Node, Span, SyntaxKind, Tree, diag_views, plain_diag, push_diag, find_up, find_up_exec};
use crate::rules::require_deprecation_reason::is_named;
use crate::schema::Schema;
use crate::text::{chars_of, push_str};

verus! {

/// The `require-type-pattern-with-oneof` rule.
pub struct RequireTypePatternWithOneof;

/// Node `c` is an object type definition with a name and a span.
pub open spec fn is_object_def(nodes: Seq<Node>, c: int) -> bool {
    nodes[c].kind == SyntaxKind::OBJECT_TYPE_DEFINITION && nodes[c].name is Some && nodes[c].span is Some
}

/// Node `c` is the first named object type definition with the span `sp`:
/// the one that the nodes inside any definition with that span count for.
pub open spec fn first_def_with(nodes: Seq<Node>, sp: Span, c: int) -> bool {
    &&& 0 <= c < nodes.len()
    &&& is_object_def(nodes, c)
    &&& nodes[c].span == Some(sp)
    &&& forall|k: int| 0 <= k < c ==> !(#[trigger] is_object_def(nodes, k) && nodes[k].span == Some(sp))
}

/// Node `j` counts for definition `c`: the object definition around it
/// has a span whose first definition is `c`, and `c` comes before `j`.
pub open spec fn owned_by(nodes: Seq<Node>, j: int, c: int) -> bool {
    &&& c < j
    &&& find_up(nodes, j, seq![SyntaxKind::OBJECT_TYPE_DEFINITION]) matches Some(d)
    &&& nodes[d].span matches Some(sp)
    &&& first_def_with(nodes, sp, c)
}

/// Node `j` is a `@oneOf` directive.
pub open spec fn is_oneof_directive(nodes: Seq<Node>, j: int) -> bool {
    nodes[j].kind == SyntaxKind::DIRECTIVE && nodes[j].name is Some && nodes[j].name.unwrap()@ == "oneOf"@
}

/// Node `j` is a field definition named `f`.
pub open spec fn is_field_named(nodes: Seq<Node>, j: int, f: Seq<char>) -> bool {
    nodes[j].kind == SyntaxKind::FIELD_DEFINITION && nodes[j].name is Some && nodes[j].name.unwrap()@ == f
}

/// Definition `c` is marked `@oneOf`.
pub open spec fn marked_oneof(nodes: Seq<Node>, c: int) -> bool {
    exists|j: int| 0 <= j < nodes.len() && #[trigger] is_oneof_directive(nodes, j) && owned_by(nodes, j, c)
}

/// Definition `c` declares a field named `f`.
pub open spec fn declares_field(nodes: Seq<Node>, c: int, f: Seq<char>) -> bool {
    exists|j: int| 0 <= j < nodes.len() && #[trigger] is_field_named(nodes, j, f) && owned_by(nodes, j, c)
}

/// Node `j` is the name of definition `c`.
pub open spec fn names_def(nodes: Seq<Node>, j: int, c: int) -> bool {
    &&& nodes[j].kind == SyntaxKind::NAME
    &&& nodes[j].span is Some
    &&& c < j
    &&& nodes[j].parent matches Some(p)
    &&& p < nodes.len()
    &&& nodes[p as int].kind == SyntaxKind::OBJECT_TYPE_DEFINITION
    &&& nodes[p as int].span matches Some(sp)
    &&& first_def_with(nodes, sp, c)
}

/// Where definition `c` is reported, reading the first `n` nodes: the span
/// of the last name node of it among them, else the definition's own span.
pub open spec fn name_span_upto(nodes: Seq<Node>, c: int, n: int) -> Span
    decreases n,
{
    if n <= 0 {
        nodes[c].span.unwrap()
    } else if names_def(nodes, n - 1, c) {
        nodes[n - 1].span.unwrap()
    } else {
        name_span_upto(nodes, c, n - 1)
    }
}

/// The finding for definition `c` missing the field `f`.
pub open spec fn missing_field_diag(nodes: Seq<Node>, c: int, f: Seq<char>) -> (Seq<char>, Span, Seq<(Seq<char>, Span, Seq<char>)>) {
    plain_diag(
        "type \""@ + nodes[c].name.unwrap()@ + "\" is defined as output with \"@oneOf\" and must be defined with \""@ + f + "\" field"@,
        name_span_upto(nodes, c, nodes.len() as int),
    )
}

/// The findings for node `c`: one for each of `error` and `ok` that a
/// definition marked `@oneOf` lacks.
pub open spec fn pattern_findings_at(nodes: Seq<Node>, c: int) -> Seq<(Seq<char>, Span, Seq<(Seq<char>, Span, Seq<char>)>)> {
    if is_object_def(nodes, c) && marked_oneof(nodes, c) {
        let e = if declares_field(nodes, c, "error"@) { Seq::empty() } else { seq![missing_field_diag(nodes, c, "error"@)] };
        let o = if declares_field(nodes, c, "ok"@) { Seq::empty() } else { seq![missing_field_diag(nodes, c, "ok"@)] };
        e + o
    } else {
        Seq::empty()
    }
}

/// The findings for the first `n` nodes, in order.
pub open spec fn pattern_findings(nodes: Seq<Node>, n: int) -> Seq<(Seq<char>, Span, Seq<(Seq<char>, Span, Seq<char>)>)>
    decreases n,
{
    if n <= 0 {
        Seq::empty()
    } else {
        pattern_findings(nodes, n - 1) + pattern_findings_at(nodes, n - 1)
    }
}

/// Whether definition `c` is the first with its own span.
fn exec_is_first_def(tree: &Tree, c: usize) -> (r: bool)
    requires
        c < tree.nodes@.len(),
        is_object_def(tree.nodes@, c as int),
    ensures r == first_def_with(tree.nodes@, tree.nodes@[c as int].span.unwrap(), c as int),
{
    let sp = tree.nodes[c].span;
    for k in 0..c
        invariant
            c < tree.nodes@.len(),
            sp == tree.nodes@[c as int].span,
            forall|q: int| 0 <= q < k ==> !(#[trigger] is_object_def(tree.nodes@, q) && tree.nodes@[q].span == sp),
    {
        let n = &tree.nodes[k];
        if n.kind == SyntaxKind::OBJECT_TYPE_DEFINITION && n.name.is_some() && n.span.is_some() && n.span == sp {
            proof { assert(is_object_def(tree.nodes@, k as int)); }
            return false;
        }
    }
    true
}

/// Whether node `j` counts for the first definition `c`, whose span is `sp`.
fn exec_owned_by(tree: &Tree, kinds: &Vec<SyntaxKind>, j: usize, c: usize, sp: Span) -> (r: bool)
    requires
        tree.wf(),
        j < tree.nodes@.len(),
        kinds@ == seq![SyntaxKind::OBJECT_TYPE_DEFINITION],
        first_def_with(tree.nodes@, sp, c as int),
    ensures r == owned_by(tree.nodes@, j as int, c as int),
{
    if c >= j {
        return false;
    }
    match find_up_exec(tree, j, kinds) {
        Some(d) => {
            match tree.nodes[d].span {
                Some(dsp) => {
                    proof {
                        if first_def_with(tree.nodes@, dsp, c as int) {
                            assert(tree.nodes@[c as int].span == Some(dsp));
                        }
                    }
                    dsp == sp
                },
                None => false,
            }
        },
        None => false,
    }
}

fn exec_marked_oneof(tree: &Tree, kinds: &Vec<SyntaxKind>, c: usize, sp: Span) -> (r: bool)
    requires
        tree.wf(),
        kinds@ == seq![SyntaxKind::OBJECT_TYPE_DEFINITION],
        first_def_with(tree.nodes@, sp, c as int),
    ensures r == marked_oneof(tree.nodes@, c as int),
{
    for j in 0..tree.nodes.len()
        invariant
            tree.wf(),
            kinds@ == seq![SyntaxKind::OBJECT_TYPE_DEFINITION],
            first_def_with(tree.nodes@, sp, c as int),
            forall|q: int| 0 <= q < j ==> !(#[trigger] is_oneof_directive(tree.nodes@, q) && owned_by(tree.nodes@, q, c as int)),
    {
        let n = &tree.nodes[j];
        if n.kind == SyntaxKind::DIRECTIVE && is_named(n, "oneOf") && exec_owned_by(tree, kinds, j, c, sp) {
            proof { assert(is_oneof_directive(tree.nodes@, j as int)); }
            return true;
        }
    }
    false
}

fn exec_declares_field(tree: &Tree, kinds: &Vec<SyntaxKind>, c: usize, sp: Span, f: &str) -> (r: bool)
    requires
        tree.wf(),
        kinds@ == seq![SyntaxKind::OBJECT_TYPE_DEFINITION],
        first_def_with(tree.nodes@, sp, c as int),
    ensures r == declares_field(tree.nodes@, c as int, f@),
{
    for j in 0..tree.nodes.len()
        invariant
            tree.wf(),
            kinds@ == seq![SyntaxKind::OBJECT_TYPE_DEFINITION],
            first_def_with(tree.nodes@, sp, c as int),
            forall|q: int| 0 <= q < j ==> !(#[trigger] is_field_named(tree.nodes@, q, f@) && owned_by(tree.nodes@, q, c as int)),
    {
        let n = &tree.nodes[j];
        if n.kind == SyntaxKind::FIELD_DEFINITION && is_named(n, f) && exec_owned_by(tree, kinds, j, c, sp) {
            proof { assert(is_field_named(tree.nodes@, j as int, f@)); }
            return true;
        }
    }
    false
}

fn exec_name_span(tree: &Tree, c: usize, sp: Span) -> (r: Span)
    requires
        tree.wf(),
        first_def_with(tree.nodes@, sp, c as int),
    ensures r == name_span_upto(tree.nodes@, c as int, tree.nodes@.len() as int),
{
    let mut ns = sp;
    for j in 0..tree.nodes.len()
        invariant
            tree.wf(),
            first_def_with(tree.nodes@, sp, c as int),
            ns == name_span_upto(tree.nodes@, c as int, j as int),
    {
        let n = &tree.nodes[j];
        if n.kind == SyntaxKind::NAME && c < j {
            match (n.span, n.parent) {
                (Some(nsp), Some(p)) => {
                    let pn = &tree.nodes[p];
                    if pn.kind == SyntaxKind::OBJECT_TYPE_DEFINITION && pn.span == Some(sp) {
                        ns = nsp;
                    } else {
                        proof {
                            if pn.kind == SyntaxKind::OBJECT_TYPE_DEFINITION && pn.span is Some
                                && first_def_with(tree.nodes@, pn.span.unwrap(), c as int) {
                                assert(tree.nodes@[c as int].span == pn.span);
                            }
                        }
                    }
                },
                _ => {},
            }
        }
    }
    ns
}

fn push_missing(out: &mut Vec<Diagnostic>, name: &str, f: &str, at: Span)
    ensures
        diag_views(final(out)@) == diag_views(old(out)@).push(plain_diag(
            "type \""@ + name@ + "\" is defined as output with \"@oneOf\" and must be defined with \""@ + f@ + "\" field"@,
            at,
        )),
{
    let mut m: Vec<char> = Vec::new();
    push_str(&mut m, "type \"");
    push_str(&mut m, name);
    push_str(&mut m, "\" is defined as output with \"@oneOf\" and must be defined with \"");
    push_str(&mut m, f);
    push_str(&mut m, "\" field");
    push_diag(out, &m, at);
}

impl RequireTypePatternWithOneof {
    /// Reports, at the name of each object type of the document `tree`
    /// marked `@oneOf`, each of the fields `error` and `ok` that the
    /// definition does not declare. The rule needs a schema: without one it
    /// reports nothing.
    pub fn check(&self, tree: &Tree, schema: Option<&Schema>) -> (r: Vec<Diagnostic>)
        requires tree.wf(),
        ensures
            schema is None ==> r@.len() == 0,
            schema is Some ==> diag_views(r@) == pattern_findings(tree.nodes@, tree.nodes@.len() as int),
    {
        let mut out: Vec<Diagnostic> = Vec::new();
        if schema.is_none() {
            return out;
        }
        let kinds = vec![SyntaxKind::OBJECT_TYPE_DEFINITION];
        proof { assert(kinds@ == seq![SyntaxKind::OBJECT_TYPE_DEFINITION]); }
        let ghost nodes = tree.nodes@;
        for c in 0..tree.nodes.len()
            invariant
                tree.wf(),
                nodes == tree.nodes@,
                kinds@ == seq![SyntaxKind::OBJECT_TYPE_DEFINITION],
                diag_views(out@) == pattern_findings(nodes, c as int),
        {
            let n = &tree.nodes[c];
            proof { assert(pattern_findings(nodes, c + 1) == pattern_findings(nodes, c as int) + pattern_findings_at(nodes, c as int)); }
            if n.kind == SyntaxKind::OBJECT_TYPE_DEFINITION {
                match (&n.name, n.span) {
                    (Some(name), Some(sp)) => {
                        proof { assert(is_object_def(nodes, c as int)); }
                        if exec_is_first_def(tree, c) && exec_marked_oneof(tree, &kinds, c, sp) {
                            let at = exec_name_span(tree, c, sp);
                            let ghost before = diag_views(out@);
                            let has_error = exec_declares_field(tree, &kinds, c, sp, "error");
                            if !has_error {
                                push_missing(&mut out, name.as_str(), "error", at);
                            }
                            let ghost mid = diag_views(out@);
                            let has_ok = exec_declares_field(tree, &kinds, c, sp, "ok");
                            if !has_ok {
                                push_missing(&mut out, name.as_str(), "ok", at);
                            }
                            proof {
                                let e = if has_error { Seq::empty() } else { seq![missing_field_diag(nodes, c as int, "error"@)] };
                                let o = if has_ok { Seq::empty() } else { seq![missing_field_diag(nodes, c as int, "ok"@)] };
                                assert(mid == before + e);
                                assert(diag_views(out@) == mid + o);
                                assert(pattern_findings_at(nodes, c as int) == e + o);
                                assert(diag_views(out@) == before + (e + o));
                            }
                        } else {
                            proof {
                                if marked_oneof(nodes, c as int) {
                                    let j = choose|j: int| 0 <= j < nodes.len() && #[trigger] is_oneof_directive(nodes, j) && owned_by(nodes, j, c as int);
                                    assert(first_def_with(nodes, sp, c as int));
                                }
                                assert(pattern_findings_at(nodes, c as int) == Seq::<(Seq<char>, Span, Seq<(Seq<char>, Span, Seq<char>)>)>::empty());
                                assert(diag_views(out@) == pattern_findings(nodes, c as int) + pattern_findings_at(nodes, c as int));
                            }
                        }
                    },
                    _ => {
                        proof { assert(diag_views(out@) == pattern_findings(nodes, c as int) + pattern_findings_at(nodes, c as int)); }
                    },
                }
            } else {
                proof { assert(diag_views(out@) == pattern_findings(nodes, c as int) + pattern_findings_at(nodes, c as int)); }
            }
        }
        out
    }
}

} // verus!
