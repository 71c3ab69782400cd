//! `no-anonymous-operations`: every operation must have a name.
use vstd::prelude::*;
use crate::model::{Diagnostic, Node, Span, SyntaxKind, Tree, diag_views, plain_diag, push_diag};
use crate::text::chars_of;

verus! {

/// The `no-anonymous-operations` rule.
pub struct NoAnonymousOperations;

/// The span of a node, or the empty span at 0 when it has none.
pub open spec fn node_span(n: Node) -> Span {
    match n.span {
        Some(s) => s,
        None => Span { offset: 0, len: 0 },
    }
}

/// The findings for the nodes `nodes`, in order: one empty span at the
/// start of every operation definition that has no name.
pub open spec fn anonymous_findings(nodes: Seq<Node>) -> Seq<(Seq<char>, Span, Seq<(Seq<char>, Span, Seq<char>)>)>
    decreases nodes.len(),
{
    if nodes.len() == 0 {
        Seq::empty()
    } else {
        let prev = anonymous_findings(nodes.drop_last());
        let n = nodes.last();
        if n.kind == SyntaxKind::OPERATION_DEFINITION && n.name is None {
            prev.push(plain_diag(
                "Anonymous GraphQL operations are banned. Please give your operation a name"@,
                Span { offset: node_span(n).offset, len: 0 },
            ))
        } else {
            prev
        }
    }
}

impl NoAnonymousOperations {
    /// Reports every anonymous operation of the document.
    pub fn check(&self, tree: &Tree) -> (r: Vec<Diagnostic>)
        ensures diag_views(r@) == anonymous_findings(tree.nodes@),
    {
        let message = chars_of("Anonymous GraphQL operations are banned. Please give your operation a name");
        let mut out: Vec<Diagnostic> = Vec::new();
        for i in 0..tree.nodes.len()
            invariant
                message@ == "Anonymous GraphQL operations are banned. Please give your operation a name"@,
                diag_views(out@) == anonymous_findings(tree.nodes@.take(i as int)),
        {
            proof {
                assert(tree.nodes@.take(i + 1).drop_last() == tree.nodes@.take(i as int));
                assert(tree.nodes@.take(i + 1).last() == tree.nodes@[i as int]);
            }
            let n = &tree.nodes[i];
            if n.kind == SyntaxKind::OPERATION_DEFINITION && n.name.is_none() {
                let offset = match n.span {
                    Some(s) => s.offset,
                    None => 0,
                };
                push_diag(&mut out, &message, Span::new(offset, 0));
            }
        }
        proof { assert(tree.nodes@.take(tree.nodes@.len() as int) == tree.nodes@); }
        out
    }
}

} // verus!
