//! `no-typename-prefix`: a field's name does not start with its type's name.
use vstd::prelude::*;
use crate::model::{Diagnostic, Node, Span, SyntaxKind, Tree, diag_views, plain_diag, push_diag, find_up, find_up_exec, span_or_zero, exec_span_or_zero, unicode_lower, to_lowercase};
use crate::text::{chars_of, push_str, starts_with, exec_starts_with};

verus! {

/// The `no-typename-prefix` rule.
pub struct NoTypenamePrefix;

/// Object and interface definitions and extensions.
pub open spec fn field_owner_kinds() -> Seq<SyntaxKind> {
    seq![
        SyntaxKind::OBJECT_TYPE_DEFINITION,
        SyntaxKind::OBJECT_TYPE_EXTENSION,
        SyntaxKind::INTERFACE_TYPE_DEFINITION,
        SyntaxKind::INTERFACE_TYPE_EXTENSION,
    ]
}

/// The finding for node `i`, if any: a named field definition whose
/// lowercase name starts with the lowercase name of the type it is in.
pub open spec fn prefix_finding(t: Tree, i: int) -> Option<(Seq<char>, Span, Seq<(Seq<char>, Span, Seq<char>)>)> {
    let n = t.nodes@[i];
    if n.kind == SyntaxKind::FIELD_DEFINITION && n.name is Some && n.parent is Some {
        match find_up(t.nodes@, n.parent.unwrap() as int, field_owner_kinds()) {
            Some(c) => match t.nodes@[c].name {
                Some(tn) => {
                    let f = n.name.unwrap()@;
                    if starts_with(unicode_lower(f), unicode_lower(tn@)) {
                        Some(plain_diag(
                            "Field \""@ + f + "\" starts with the name of the parent type \""@ + tn@ + "\""@,
                            span_or_zero(t, i),
                        ))
                    } else {
                        None
                    }
                },
                None => None,
            },
            None => None,
        }
    } else {
        None
    }
}

/// The findings among the first `n` nodes, in order.
pub open spec fn prefix_findings(t: Tree, n: int) -> Seq<(Seq<char>, Span, Seq<(Seq<char>, Span, Seq<char>)>)>
    decreases n,
{
    if n <= 0 {
        Seq::empty()
    } else {
        match prefix_finding(t, n - 1) {
            Some(d) => prefix_findings(t, n - 1).push(d),
            None => prefix_findings(t, n - 1),
        }
    }
}

impl NoTypenamePrefix {
    /// Reports every field definition whose name starts with its type's
    /// name, ignoring case.
    pub fn check(&self, tree: &Tree) -> (r: Vec<Diagnostic>)
        requires tree.wf(),
        ensures diag_views(r@) == prefix_findings(*tree, tree.nodes@.len() as int),
    {
        let owners = vec![
            SyntaxKind::OBJECT_TYPE_DEFINITION,
            SyntaxKind::OBJECT_TYPE_EXTENSION,
            SyntaxKind::INTERFACE_TYPE_DEFINITION,
            SyntaxKind::INTERFACE_TYPE_EXTENSION,
        ];
        proof { assert(owners@ == field_owner_kinds()); }
        let mut out: Vec<Diagnostic> = Vec::new();
        for i in 0..tree.nodes.len()
            invariant
                tree.wf(),
                owners@ == field_owner_kinds(),
                diag_views(out@) == prefix_findings(*tree, i as int),
        {
            let n = &tree.nodes[i];
            if n.kind == SyntaxKind::FIELD_DEFINITION {
                match (&n.name, n.parent) {
                    (Some(f), Some(p)) => {
                        match find_up_exec(tree, p, &owners) {
                            Some(c) => match &tree.nodes[c].name {
                                Some(tn) => {
                                    let fl = chars_of(to_lowercase(f.as_str()).as_str());
                                    let tl = chars_of(to_lowercase(tn.as_str()).as_str());
                                    if exec_starts_with(&fl, &tl) {
                                        let mut m: Vec<char> = Vec::new();
                                        push_str(&mut m, "Field \"");
                                        push_str(&mut m, f.as_str());
                                        push_str(&mut m, "\" starts with the name of the parent type \"");
                                        push_str(&mut m, tn.as_str());
                                        push_str(&mut m, "\"");
                                        push_diag(&mut out, &m, exec_span_or_zero(tree, i));
                                    }
                                },
                                None => {},
                            },
                            None => {},
                        }
                    },
                    _ => {},
                }
            }
        }
        out
    }
}

} // verus!
