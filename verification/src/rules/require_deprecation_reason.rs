//! `require-deprecation-reason`: every `@deprecated` gives a non-empty
//! reason.
use vstd::prelude::*;
use crate::model::{Diagnostic, Node, Span, SyntaxKind, Tree, diag_views, plain_diag, push_diag, find_up, find_up_exec};
use crate::text::{all_ws, chars_of, chars_eq, exec_all_ws, starts_with, exec_starts_with, find_from, exec_find_from, find_seq_from, exec_find_seq_from, trim_start, trim_start_chars, skip_chars, sub_chars};

verus! {

/// The `require-deprecation-reason` rule.
pub struct RequireDeprecationReason;

/// Whether `text` starts with a string literal whose content is empty or
/// white space (a block string `"""..."""` or a plain `"..."`).
pub open spec fn spec_is_empty_or_whitespace_string(text: Seq<char>) -> bool {
    if starts_with(text, "\"\"\""@) {
        let inner = text.skip(3);
        match find_seq_from(inner, "\"\"\""@, 0) {
            Some(e) => all_ws(inner.take(e)),
            None => false,
        }
    } else if starts_with(text, "\""@) {
        let inner = text.skip(1);
        match find_from(inner, '"', 0, inner.len() as int) {
            Some(e) => all_ws(inner.take(e)),
            None => false,
        }
    } else {
        false
    }
}

proof fn lemma_find_seq_bound(s: Seq<char>, p: Seq<char>, from: int)
    ensures find_seq_from(s, p, from) matches Some(k) ==> from <= k && k + p.len() <= s.len(),
    decreases s.len() + 1 - from,
{
    if !(from < 0 || from + p.len() > s.len()) && s.subrange(from, from + p.len()) != p {
        lemma_find_seq_bound(s, p, from + 1);
    }
}

proof fn lemma_find_from_bound(s: Seq<char>, c: char, from: int, to: int)
    ensures find_from(s, c, from, to) matches Some(k) ==> from <= k < to,
    decreases to - from,
{
    if from < to && s[from] != c {
        lemma_find_from_bound(s, c, from + 1, to);
    }
}

/// Whether `text` is a string literal with empty or white-space content.
pub fn is_empty_or_whitespace_string(text: &str) -> (r: bool)
    ensures r == spec_is_empty_or_whitespace_string(text@),
{
    let t = chars_of(text);
    proof {
        reveal_strlit("\"\"\"");
        reveal_strlit("\"");
    }
    if exec_starts_with(&t, &chars_of("\"\"\"")) {
        let inner = skip_chars(&t, 3);
        match exec_find_seq_from(&inner, &chars_of("\"\"\""), 0) {
            Some(e) => {
                let r = exec_all_ws(&inner, 0, e);
                proof { assert(inner@.subrange(0, e as int) =~= inner@.take(e as int)); }
                r
            },
            None => false,
        }
    } else if exec_starts_with(&t, &chars_of("\"")) {
        let inner = skip_chars(&t, 1);
        match exec_find_from(&inner, '"', 0, inner.len()) {
            Some(e) => {
                let r = exec_all_ws(&inner, 0, e);
                proof { assert(inner@.subrange(0, e as int) =~= inner@.take(e as int)); }
                r
            },
            None => false,
        }
    } else {
        false
    }
}

/// Node `i` is an `@deprecated` directive with a span.
pub open spec fn is_deprecated_directive(nodes: Seq<Node>, i: int) -> bool {
    let n = nodes[i];
    n.kind == SyntaxKind::DIRECTIVE && n.name is Some && n.name.unwrap()@ == "deprecated"@ && n.span is Some
}

/// For a `reason` argument with a span whose nearest enclosing directive is
/// an `@deprecated` with a span: that directive's offset and the argument's
/// span.
pub open spec fn reason_entry(nodes: Seq<Node>, j: int) -> Option<(usize, Span)> {
    let n = nodes[j];
    if n.kind == SyntaxKind::ARGUMENT && n.name is Some && n.name.unwrap()@ == "reason"@ && n.parent is Some
        && n.span is Some {
        match find_up(nodes, n.parent.unwrap() as int, seq![SyntaxKind::DIRECTIVE]) {
            Some(d) => if nodes[d].name is Some && nodes[d].name.unwrap()@ == "deprecated"@ && nodes[d].span is Some {
                Some((nodes[d].span.unwrap().offset, n.span.unwrap()))
            } else {
                None
            },
            None => None,
        }
    } else {
        None
    }
}

/// The span of the last `reason` argument (among the first `n` nodes) of
/// the `@deprecated` directive at `offset`.
pub open spec fn last_reason(nodes: Seq<Node>, offset: usize, n: int) -> Option<Span>
    decreases n,
{
    if n <= 0 {
        None
    } else {
        match reason_entry(nodes, n - 1) {
            Some((o, s)) if o == offset => Some(s),
            _ => last_reason(nodes, offset, n - 1),
        }
    }
}

/// No later `@deprecated` directive has the same offset as node `i`.
pub open spec fn last_at_offset(nodes: Seq<Node>, i: int) -> bool {
    forall|k: int| i < k < nodes.len() && #[trigger] is_deprecated_directive(nodes, k) ==> nodes[k].span.unwrap().offset != nodes[i].span.unwrap().offset
}

/// The text of the argument at `arg` lacks a usable reason: after its `:`
/// (white space skipped) comes an empty or white-space string literal.
pub open spec fn reason_is_blank(src: Seq<char>, arg: Span) -> bool {
    let text = src.subrange(arg.offset as int, arg.offset + arg.len);
    match find_from(text, ':', 0, text.len() as int) {
        Some(pos) => spec_is_empty_or_whitespace_string(trim_start(text.skip(pos + 1))),
        None => false,
    }
}

/// Every `reason` argument of an `@deprecated` lies within the source.
pub open spec fn reasons_in_source(nodes: Seq<Node>, src: Seq<char>) -> bool {
    forall|j: int|
        0 <= j < nodes.len() && (#[trigger] reason_entry(nodes, j)) is Some ==> reason_entry(nodes, j).unwrap().1.offset
            + reason_entry(nodes, j).unwrap().1.len <= src.len()
}

/// The findings among the first `n` nodes: each `@deprecated` directive
/// (the last one at its offset) without a `reason`, or whose reason is
/// blank.
pub open spec fn reason_findings(nodes: Seq<Node>, src: Seq<char>, n: int) -> Seq<(Seq<char>, Span, Seq<(Seq<char>, Span, Seq<char>)>)>
    decreases n,
{
    if n <= 0 {
        Seq::empty()
    } else {
        let prev = reason_findings(nodes, src, n - 1);
        let i = n - 1;
        if is_deprecated_directive(nodes, i) && last_at_offset(nodes, i) {
            let sp = nodes[i].span.unwrap();
            let report = match last_reason(nodes, sp.offset, nodes.len() as int) {
                Some(arg) => reason_is_blank(src, arg),
                None => true,
            };
            if report {
                prev.push(plain_diag("@deprecated should have a reason"@, sp))
            } else {
                prev
            }
        } else {
            prev
        }
    }
}

pub(crate) fn is_named(n: &Node, lit: &str) -> (r: bool)
    ensures r == (n.name is Some && n.name.unwrap()@ == lit@),
{
    match &n.name {
        Some(s) => chars_eq(&chars_of(s.as_str()), &chars_of(lit)),
        None => false,
    }
}

impl RequireDeprecationReason {
    /// Reports every `@deprecated` directive of the document `tree` (with
    /// text `source`) that gives no reason or a blank one.
    pub fn check(&self, tree: &Tree, source: &str) -> (r: Vec<Diagnostic>)
        requires
            tree.wf(),
            reasons_in_source(tree.nodes@, source@),
        ensures diag_views(r@) == reason_findings(tree.nodes@, source@, tree.nodes@.len() as int),
    {
        let ghost nodes = tree.nodes@;
        let src = chars_of(source);
        let dir_kinds = vec![SyntaxKind::DIRECTIVE];
        // reason entries, in document order
        let mut entries: Vec<Option<(usize, Span)>> = Vec::new();
        for j in 0..tree.nodes.len()
            invariant
                nodes == tree.nodes@,
                tree.wf(),
                dir_kinds@ == seq![SyntaxKind::DIRECTIVE],
                entries@.len() == j,
                forall|k: int| 0 <= k < j ==> #[trigger] entries@[k] == reason_entry(nodes, k),
        {
            let n = &tree.nodes[j];
            let mut e: Option<(usize, Span)> = None;
            if n.kind == SyntaxKind::ARGUMENT && is_named(n, "reason") {
                match (n.parent, n.span) {
                    (Some(p), Some(asp)) => {
                        match find_up_exec(tree, p, &dir_kinds) {
                            Some(d) => {
                                let dn = &tree.nodes[d];
                                if is_named(dn, "deprecated") {
                                    match dn.span {
                                        Some(ds) => { e = Some((ds.offset, asp)); },
                                        None => {},
                                    }
                                }
                            },
                            None => {},
                        }
                    },
                    _ => {},
                }
            }
            entries.push(e);
        }
        let mut out: Vec<Diagnostic> = Vec::new();
        let src_len = src.len();
        for i in 0..tree.nodes.len()
            invariant
                nodes == tree.nodes@,
                src@ == source@,
                src_len == src@.len(),
                reasons_in_source(nodes, source@),
                entries@.len() == nodes.len(),
                forall|k: int| 0 <= k < nodes.len() ==> #[trigger] entries@[k] == reason_entry(nodes, k),
                diag_views(out@) == reason_findings(nodes, source@, i as int),
        {
            let n = &tree.nodes[i];
            if n.kind == SyntaxKind::DIRECTIVE && is_named(n, "deprecated") && n.span.is_some() {
                let sp = match n.span { Some(s) => s, None => Span::new(0, 0) };
                // only the last directive at this offset counts
                let mut last = true;
                for k in (i + 1)..tree.nodes.len()
                    invariant
                        nodes == tree.nodes@,
                        i < nodes.len(),
                        nodes[i as int].span == Some(sp),
                        last == (forall|q: int| i < q < k && #[trigger] is_deprecated_directive(nodes, q) ==> nodes[q].span.unwrap().offset != sp.offset),
                {
                    let m = &tree.nodes[k];
                    proof {
                        assert(is_deprecated_directive(nodes, k as int) == (m.kind == SyntaxKind::DIRECTIVE && m.name is Some && m.name.unwrap()@ == "deprecated"@ && m.span is Some));
                    }
                    if m.kind == SyntaxKind::DIRECTIVE && is_named(m, "deprecated") {
                        match m.span {
                            Some(s2) => {
                                if s2.offset == sp.offset {
                                    last = false;
                                }
                            },
                            None => {},
                        }
                    }
                }
                if last {
                    // the last reason argument of this directive
                    let mut found: Option<Span> = None;
                    for j in 0..entries.len()
                        invariant
                            entries@.len() == nodes.len(),
                            forall|k: int| 0 <= k < nodes.len() ==> #[trigger] entries@[k] == reason_entry(nodes, k),
                            found == last_reason(nodes, sp.offset, j as int),
                            found matches Some(f) ==> exists|q: int| 0 <= q < j && reason_entry(nodes, q) == Some((sp.offset, f)),
                    {
                        match entries[j] {
                            Some((o, s)) => {
                                if o == sp.offset {
                                    found = Some(s);
                                }
                            },
                            None => {},
                        }
                    }
                    let report = match found {
                        Some(arg) => {
                            proof {
                                let j = choose|j: int| 0 <= j < entries@.len() && reason_entry(nodes, j) == Some((sp.offset, arg));
                                assert(reason_entry(nodes, j) is Some);
                                assert(arg.offset + arg.len <= source@.len());
                                assert(source@.len() == src@.len());
                                assert(arg.offset + arg.len <= src_len);
                            }
                            let text = sub_chars(&src, arg.offset, arg.offset + arg.len);
                            match exec_find_from(&text, ':', 0, text.len()) {
                                Some(pos) => {
                                    let value = trim_start_chars(&skip_chars(&text, pos + 1));
                                    is_empty_or_whitespace_string(crate::text::string_of(&value).as_str())
                                },
                                None => false,
                            }
                        },
                        None => true,
                    };
                    if report {
                        push_diag(&mut out, &chars_of("@deprecated should have a reason"), sp);
                    }
                }
            }
        }
        out
    }
}

} // verus!
