//! `no-hashtag-description`: descriptions are written as strings, not as
//! `#` comments above a definition.
use vstd::prelude::*;
use crate::model::{Diagnostic, Node, Span, SyntaxKind, Tree, diag_views, plain_diag, push_diag};
use crate::comments::{preceding_comments, preceding_from, line_start_of, comment_views};
use crate::text::chars_of;

verus! {

/// The `no-hashtag-description` rule.
pub struct NoHashtagDescription;

/// The kinds of nodes that can carry a description.
pub open spec fn describable(k: SyntaxKind) -> bool {
    ||| k == SyntaxKind::OBJECT_TYPE_DEFINITION
    ||| k == SyntaxKind::OBJECT_TYPE_EXTENSION
    ||| k == SyntaxKind::INTERFACE_TYPE_DEFINITION
    ||| k == SyntaxKind::INTERFACE_TYPE_EXTENSION
    ||| k == SyntaxKind::INPUT_OBJECT_TYPE_DEFINITION
    ||| k == SyntaxKind::INPUT_OBJECT_TYPE_EXTENSION
    ||| k == SyntaxKind::ENUM_TYPE_DEFINITION
    ||| k == SyntaxKind::ENUM_TYPE_EXTENSION
    ||| k == SyntaxKind::SCALAR_TYPE_DEFINITION
    ||| k == SyntaxKind::SCALAR_TYPE_EXTENSION
    ||| k == SyntaxKind::UNION_TYPE_DEFINITION
    ||| k == SyntaxKind::UNION_TYPE_EXTENSION
    ||| k == SyntaxKind::FIELD_DEFINITION
    ||| k == SyntaxKind::INPUT_VALUE_DEFINITION
    ||| k == SyntaxKind::ENUM_VALUE_DEFINITION
    ||| k == SyntaxKind::DIRECTIVE_DEFINITION
    ||| k == SyntaxKind::SCHEMA_DEFINITION
    ||| k == SyntaxKind::SCHEMA_EXTENSION
}

fn exec_describable(k: SyntaxKind) -> (r: bool)
    ensures r == describable(k),
{
    match k {
        SyntaxKind::OBJECT_TYPE_DEFINITION | SyntaxKind::OBJECT_TYPE_EXTENSION
        | SyntaxKind::INTERFACE_TYPE_DEFINITION | SyntaxKind::INTERFACE_TYPE_EXTENSION
        | SyntaxKind::INPUT_OBJECT_TYPE_DEFINITION | SyntaxKind::INPUT_OBJECT_TYPE_EXTENSION
        | SyntaxKind::ENUM_TYPE_DEFINITION | SyntaxKind::ENUM_TYPE_EXTENSION
        | SyntaxKind::SCALAR_TYPE_DEFINITION | SyntaxKind::SCALAR_TYPE_EXTENSION
        | SyntaxKind::UNION_TYPE_DEFINITION | SyntaxKind::UNION_TYPE_EXTENSION
        | SyntaxKind::FIELD_DEFINITION | SyntaxKind::INPUT_VALUE_DEFINITION
        | SyntaxKind::ENUM_VALUE_DEFINITION | SyntaxKind::DIRECTIVE_DEFINITION
        | SyntaxKind::SCHEMA_DEFINITION | SyntaxKind::SCHEMA_EXTENSION => true,
        _ => false,
    }
}

/// Every describable node with a span starts within the source.
pub open spec fn spans_in_source(nodes: Seq<Node>, src: Seq<char>) -> bool {
    forall|i: int|
        0 <= i < nodes.len() && describable(#[trigger] nodes[i].kind) && nodes[i].span is Some
            ==> nodes[i].span.unwrap().offset <= src.len()
}

/// The findings among the first `n` nodes: for each describable node with
/// comments directly above it, one at the first of those comments.
pub open spec fn hashtag_findings(nodes: Seq<Node>, src: Seq<char>, n: int) -> Seq<(Seq<char>, Span, Seq<(Seq<char>, Span, Seq<char>)>)>
    decreases n,
{
    if n <= 0 {
        Seq::empty()
    } else {
        let prev = hashtag_findings(nodes, src, n - 1);
        let d = nodes[n - 1];
        if describable(d.kind) && d.span is Some {
            let cs = preceding_from(src, line_start_of(src, d.span.unwrap().offset as int));
            if cs.len() > 0 {
                prev.push(plain_diag("Use \"\"\"description\"\"\" instead of #description"@, cs[0].0))
            } else {
                prev
            }
        } else {
            prev
        }
    }
}

impl NoHashtagDescription {
    /// Reports the comment above each describable node of the document
    /// `tree`, whose text is `source`.
    pub fn check(&self, tree: &Tree, source: &str) -> (r: Vec<Diagnostic>)
        requires spans_in_source(tree.nodes@, source@),
        ensures diag_views(r@) == hashtag_findings(tree.nodes@, source@, tree.nodes@.len() as int),
    {
        let message = chars_of("Use \"\"\"description\"\"\" instead of #description");
        let mut out: Vec<Diagnostic> = Vec::new();
        for i in 0..tree.nodes.len()
            invariant
                spans_in_source(tree.nodes@, source@),
                message@ == "Use \"\"\"description\"\"\" instead of #description"@,
                diag_views(out@) == hashtag_findings(tree.nodes@, source@, i as int),
        {
            let n = &tree.nodes[i];
            if exec_describable(n.kind) {
                match n.span {
                    Some(sp) => {
                        proof { assert(describable(tree.nodes@[i as int].kind)); }
                        let cs = preceding_comments(source, sp);
                        if cs.len() > 0 {
                            proof { assert(comment_views(cs@)[0] == (cs@[0].span, cs@[0].text@)); }
                            push_diag(&mut out, &message, cs[0].span);
                        }
                    },
                    None => {},
                }
            }
        }
        out
    }
}

} // verus!
