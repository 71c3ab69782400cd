//! `lone-executable-definition`: a document holds one operation or fragment.
use vstd::prelude::*;
use crate::cst::{parse_tree, parses_to};
use crate::model::{Diagnostic, Node, Span, SyntaxKind, Tree, diag_views, plain_diag, push_diag};
use crate::text::{chars_of, chars_eq, push_str};
use crate::case::views;

verus! {

/// The `lone-executable-definition` rule.
pub struct LoneExecutableDefinition;

/// Whether a definition of kind `kind` (`"Query"`, `"Mutation"`,
/// `"Subscription"` or `"Fragment"`) is left out by the `ignore` option:
/// `"fragment"` leaves out fragments, `"operation"` every operation, and
/// `"query"`, `"mutation"`, `"subscription"` the operations of that type.
pub open spec fn spec_is_ignored(kind: Seq<char>, ignore: Seq<Seq<char>>) -> bool {
    exists|i: int|
        0 <= i < ignore.len() && {
            let e = #[trigger] ignore[i];
            ||| (e == "fragment"@ && kind == "Fragment"@)
            ||| (e == "operation"@ && kind != "Fragment"@)
            ||| (e == "query"@ && kind == "Query"@)
            ||| (e == "mutation"@ && kind == "Mutation"@)
            ||| (e == "subscription"@ && kind == "Subscription"@)
        }
}

fn str_is(s: &Vec<char>, lit: &str) -> (r: bool)
    ensures r == (s@ == lit@),
{
    chars_eq(s, &chars_of(lit))
}

/// Whether a definition of kind `kind` is left out by the `ignore` option.
pub fn is_ignored(kind: &str, ignore: &[String]) -> (r: bool)
    ensures r == spec_is_ignored(kind@, views(ignore@)),
{
    let k = chars_of(kind);
    for i in 0..ignore.len()
        invariant
            k@ == kind@,
            forall|j: int| 0 <= j < i ==> !({
                let e = #[trigger] views(ignore@)[j];
                ||| (e == "fragment"@ && kind@ == "Fragment"@)
                ||| (e == "operation"@ && kind@ != "Fragment"@)
                ||| (e == "query"@ && kind@ == "Query"@)
                ||| (e == "mutation"@ && kind@ == "Mutation"@)
                ||| (e == "subscription"@ && kind@ == "Subscription"@)
            }),
    {
        let e = chars_of(ignore[i].as_str());
        let hit = (str_is(&e, "fragment") && str_is(&k, "Fragment"))
            || (str_is(&e, "operation") && !str_is(&k, "Fragment"))
            || (str_is(&e, "query") && str_is(&k, "Query"))
            || (str_is(&e, "mutation") && str_is(&k, "Mutation"))
            || (str_is(&e, "subscription") && str_is(&k, "Subscription"));
        proof { assert(views(ignore@)[i as int] == e@); }
        if hit {
            return true;
        }
    }
    false
}

/// The first child of node `p` among the first `n` nodes that has kind
/// `OPERATION_TYPE`.
pub open spec fn first_operation_type(nodes: Seq<Node>, p: int, n: int) -> Option<int>
    decreases n,
{
    if n <= 0 {
        None
    } else {
        match first_operation_type(nodes, p, n - 1) {
            Some(k) => Some(k),
            None => if nodes[n - 1].parent == Some(p as usize) && nodes[n - 1].kind == SyntaxKind::OPERATION_TYPE {
                Some(n - 1)
            } else {
                None
            },
        }
    }
}

/// The type of operation `p`: its keyword (`mutation`, `subscription`) or
/// `Query` when it has none or another.
pub open spec fn operation_kind(nodes: Seq<Node>, p: int) -> Seq<char> {
    match first_operation_type(nodes, p, nodes.len() as int) {
        Some(k) => match nodes[k].name {
            Some(w) => if w@ == "mutation"@ {
                "Mutation"@
            } else if w@ == "subscription"@ {
                "Subscription"@
            } else {
                "Query"@
            },
            None => "Query"@,
        },
        None => "Query"@,
    }
}

/// The top-level definitions among the first `n` nodes, as (kind, name):
/// operations with their type, fragments as `Fragment`.
pub open spec fn top_definitions(nodes: Seq<Node>, n: int) -> Seq<(Seq<char>, Option<Seq<char>>)>
    decreases n,
{
    if n <= 0 {
        Seq::empty()
    } else {
        let prev = top_definitions(nodes, n - 1);
        let d = nodes[n - 1];
        let name = match d.name {
            Some(s) => Some(s@),
            None => None,
        };
        let top = match d.parent {
            Some(p) => nodes[p as int].kind == SyntaxKind::DOCUMENT,
            None => false,
        };
        if top && d.kind == SyntaxKind::OPERATION_DEFINITION {
            prev.push((operation_kind(nodes, n - 1), name))
        } else if top && d.kind == SyntaxKind::FRAGMENT_DEFINITION {
            prev.push(("Fragment"@, name))
        } else {
            prev
        }
    }
}

/// The message for a definition that should be in its own file.
pub open spec fn separate_file_message(def: (Seq<char>, Option<Seq<char>>)) -> Seq<char> {
    match def.1 {
        Some(name) => def.0 + " \""@ + name + "\" should be in a separate file."@,
        None => def.0 + " should be in a separate file."@,
    }
}

/// The findings: when more than one definition is left after `ignore`,
/// one for each after the first, at the start of the file.
pub open spec fn lone_findings(defs: Seq<(Seq<char>, Option<Seq<char>>)>) -> Seq<(Seq<char>, Span, Seq<(Seq<char>, Span, Seq<char>)>)> {
    if defs.len() <= 1 {
        Seq::empty()
    } else {
        Seq::new((defs.len() - 1) as nat, |i: int| plain_diag(separate_file_message(defs[i + 1]), Span { offset: 0, len: 0 }))
    }
}

/// Definitions as plain values.
pub open spec fn defs_view(v: Seq<(Vec<char>, Option<String>)>) -> Seq<(Seq<char>, Option<Seq<char>>)> {
    v.map_values(|d: (Vec<char>, Option<String>)| (d.0@, match d.1 { Some(s) => Some(s@), None => None }))
}

fn operation_kind_of(tree: &Tree, p: usize) -> (r: Vec<char>)
    requires p < tree.nodes@.len(),
    ensures r@ == operation_kind(tree.nodes@, p as int),
{
    let ghost nodes = tree.nodes@;
    let mut found: Option<usize> = None;
    for k in 0..tree.nodes.len()
        invariant
            nodes == tree.nodes@,
            match found {
                Some(x) => first_operation_type(nodes, p as int, k as int) == Some(x as int) && x < k,
                None => first_operation_type(nodes, p as int, k as int) is None,
            },
    {
        if found.is_none() && tree.nodes[k].parent == Some(p) && tree.nodes[k].kind == SyntaxKind::OPERATION_TYPE {
            found = Some(k);
        }
    }
    match found {
        Some(k) => match &tree.nodes[k].name {
            Some(w) => {
                let wc = chars_of(w.as_str());
                if str_is(&wc, "mutation") {
                    chars_of("Mutation")
                } else if str_is(&wc, "subscription") {
                    chars_of("Subscription")
                } else {
                    chars_of("Query")
                }
            },
            None => chars_of("Query"),
        },
        None => chars_of("Query"),
    }
}

impl LoneExecutableDefinition {
    /// Parses `source` and reports every top-level operation or fragment
    /// after the first one that `ignore` does not leave out.
    pub fn check_source(&self, source: &str, ignore: &[String]) -> (r: Vec<Diagnostic>)
        ensures
            exists|t: Tree| #[trigger] parses_to(source@, t)
                && diag_views(r@) == lone_findings(
                    top_definitions(t.nodes@, t.nodes@.len() as int).filter(
                        |d: (Seq<char>, Option<Seq<char>>)| !spec_is_ignored(d.0, views(ignore@)),
                    ),
                ),
    {
        let t = parse_tree(source);
        let r = self.check(&t, ignore);
        proof {
            assert(parses_to(source@, t) && diag_views(r@) == lone_findings(
                top_definitions(t.nodes@, t.nodes@.len() as int).filter(
                    |d: (Seq<char>, Option<Seq<char>>)| !spec_is_ignored(d.0, views(ignore@)),
                ),
            ));
        }
        r
    }

    /// The top-level operation and fragment definitions of the document, in
    /// order, as (kind, name).
    pub fn definitions(&self, tree: &Tree) -> (r: Vec<(Vec<char>, Option<String>)>)
        requires tree.wf(),
        ensures
            defs_view(r@) == top_definitions(tree.nodes@, tree.nodes@.len() as int),
    {
        let ghost nodes = tree.nodes@;
        let mut out: Vec<(Vec<char>, Option<String>)> = Vec::new();
        for i in 0..tree.nodes.len()
            invariant
                nodes == tree.nodes@,
                tree.wf(),
                defs_view(out@) == top_definitions(nodes, i as int),
        {
            let n = &tree.nodes[i];
            let top = match n.parent {
                Some(p) => {
                    proof { assert(tree.nodes@[i as int].parent matches Some(q) && q < i); }
                    tree.nodes[p].kind == SyntaxKind::DOCUMENT
                },
                None => false,
            };
            if top && n.kind == SyntaxKind::OPERATION_DEFINITION {
                let k = operation_kind_of(tree, i);
                let name = match &n.name { Some(s) => Some(s.clone()), None => None };
                out.push((k, name));
                proof { assert(defs_view(out@) =~= top_definitions(nodes, i + 1)); }
            } else if top && n.kind == SyntaxKind::FRAGMENT_DEFINITION {
                let name = match &n.name { Some(s) => Some(s.clone()), None => None };
                out.push((chars_of("Fragment"), name));
                proof { assert(defs_view(out@) =~= top_definitions(nodes, i + 1)); }
            }
        }
        out
    }

    /// Reports every top-level operation or fragment after the first one
    /// that `ignore` does not leave out.
    pub fn check(&self, tree: &Tree, ignore: &[String]) -> (r: Vec<Diagnostic>)
        requires tree.wf(),
        ensures
            diag_views(r@) == lone_findings(
                top_definitions(tree.nodes@, tree.nodes@.len() as int).filter(
                    |d: (Seq<char>, Option<Seq<char>>)| !spec_is_ignored(d.0, views(ignore@)),
                ),
            ),
    {
        let all = self.definitions(tree);
        let ghost alld = top_definitions(tree.nodes@, tree.nodes@.len() as int);
        let ghost pred = |d: (Seq<char>, Option<Seq<char>>)| !spec_is_ignored(d.0, views(ignore@));
        let mut kept: Vec<(Vec<char>, Option<Vec<char>>)> = Vec::new();
        for i in 0..all.len()
            invariant
                defs_view(all@) == alld,
                pred == (|d: (Seq<char>, Option<Seq<char>>)| !spec_is_ignored(d.0, views(ignore@))),
                kept@.map_values(|k: (Vec<char>, Option<Vec<char>>)| (k.0@, match k.1 { Some(s) => Some(s@), None => None })) == alld.take(i as int).filter(pred),
        {
            proof {
                reveal_with_fuel(Seq::<_>::filter, 1);
                assert(alld.take(i + 1).drop_last() == alld.take(i as int));
                assert(all@[i as int].0@ == defs_view(all@)[i as int].0);
            }
            let kind_str = crate::text::string_of(&all[i].0);
            if !is_ignored(kind_str.as_str(), ignore) {
                let name = match &all[i].1 {
                    Some(s) => Some(chars_of(s.as_str())),
                    None => None,
                };
                let k0 = crate::text::sub_chars(&all[i].0, 0, all[i].0.len());
                proof { assert(k0@ =~= all@[i as int].0@); }
                kept.push((k0, name));
                proof {
                    assert(kept@.map_values(|k: (Vec<char>, Option<Vec<char>>)| (k.0@, match k.1 { Some(s) => Some(s@), None => None }))
                        =~= alld.take(i as int).filter(pred).push(alld[i as int]));
                }
            }
        }
        proof { assert(alld.take(alld.len() as int) == alld); }
        let ghost defs = alld.filter(pred);
        let mut out: Vec<Diagnostic> = Vec::new();
        if kept.len() <= 1 {
            return out;
        }
        for i in 1..kept.len()
            invariant
                kept@.len() == defs.len(),
                kept@.len() > 1,
                kept@.map_values(|k: (Vec<char>, Option<Vec<char>>)| (k.0@, match k.1 { Some(s) => Some(s@), None => None })) == defs,
                diag_views(out@) == lone_findings(defs).take(i - 1),
        {
            let mut m: Vec<char> = Vec::new();
            crate::text::push_all(&mut m, &kept[i].0);
            match &kept[i].1 {
                Some(name) => {
                    push_str(&mut m, " \"");
                    crate::text::push_all(&mut m, name);
                    push_str(&mut m, "\" should be in a separate file.");
                },
                None => {
                    push_str(&mut m, " should be in a separate file.");
                },
            }
            proof {
                let k = kept@[i as int];
                assert(defs[i as int] == (k.0@, match k.1 { Some(s) => Some(s@), None => None }));
                assert(m@ == separate_file_message(defs[i as int]));
            }
            push_diag(&mut out, &m, Span::new(0, 0));
            proof {
                assert(lone_findings(defs).take(i as int) == lone_findings(defs).take(i - 1).push(lone_findings(defs)[i - 1]));
            }
        }
        proof { assert(lone_findings(defs).take(kept@.len() - 1) == lone_findings(defs)); }
        out
    }
}

} // verus!
