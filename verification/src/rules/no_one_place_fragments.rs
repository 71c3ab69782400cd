//! `no-one-place-fragments`: a fragment spread in exactly one place should
//! be inlined there.
use vstd::prelude::*;
use crate::model::{Diagnostic, Node, Span, SyntaxKind, Tree, diag_views, plain_diag, push_diag};
use crate::executable::{ExecutableDef, list_spreads, tag_with, pairs_view, collect_list_spreads};
use crate::paths::{spec_file_name, path_file_name};
use crate::text::{chars_of, chars_eq, push_str, push_all, string_of};

verus! {

/// The `no-one-place-fragments` rule.
pub struct NoOnePlaceFragments;

/// The name shown for a file: its file name, or the whole path when it has
/// none.
pub open spec fn spec_display_file_name(p: Seq<char>) -> Seq<char> {
    match spec_file_name(p) {
        Some(n) => n,
        None => p,
    }
}

/// The name shown for the file at `path`.
pub fn display_file_name(path: &str) -> (r: String)
    ensures r@ == spec_display_file_name(path@),
{
    match path_file_name(path) {
        Some(n) => n,
        None => string_of(&chars_of(path)),
    }
}

/// Every spread in `defs`, in order, with the shown name of its file.
pub open spec fn uses_in(defs: Seq<ExecutableDef>) -> Seq<(Seq<char>, Seq<char>)>
    decreases defs.len(),
{
    if defs.len() == 0 {
        Seq::empty()
    } else {
        uses_in(defs.drop_last()) + tag_with(
            list_spreads(defs.last().selection_set.selections@),
            spec_display_file_name(defs.last().file@),
        )
    }
}

/// The fragment definitions among the first `n` nodes, as (name, span): the
/// fragment names whose parent is a fragment definition.
pub open spec fn fragment_definitions(nodes: Seq<Node>, n: int) -> Seq<(Seq<char>, Span)>
    decreases n,
{
    if n <= 0 {
        Seq::empty()
    } else {
        let prev = fragment_definitions(nodes, n - 1);
        let d = nodes[n - 1];
        let under_def = match d.parent {
            Some(p) => 0 <= p < nodes.len() && nodes[p as int].kind == SyntaxKind::FRAGMENT_DEFINITION,
            None => false,
        };
        if d.kind == SyntaxKind::FRAGMENT_NAME && under_def && d.name is Some && d.span is Some {
            prev.push((d.name.unwrap()@, d.span.unwrap()))
        } else {
            prev
        }
    }
}

proof fn lemma_findings_step(fd: Seq<(Seq<char>, Span)>, name: Seq<char>, span: Span, uses: Seq<(Seq<char>, Seq<char>)>)
    ensures
        one_place_findings(fd.push((name, span)), uses) == ({
            let mine = uses_of(uses, name);
            if mine.len() == 1 {
                one_place_findings(fd, uses).push(plain_diag("Fragment `"@ + name + "` used only once. Inline him in \""@ + mine[0].1 + "\"."@, span))
            } else {
                one_place_findings(fd, uses)
            }
        }),
{
    assert(fd.push((name, span)).drop_last() == fd);
    assert(fd.push((name, span)).last() == (name, span));
}

/// The spreads of the fragment `name`, in order.
pub open spec fn uses_of(uses: Seq<(Seq<char>, Seq<char>)>, name: Seq<char>) -> Seq<(Seq<char>, Seq<char>)> {
    uses.filter(|u: (Seq<char>, Seq<char>)| u.0 == name)
}

/// The findings: a fragment of this document spread exactly once in the
/// project, naming the file of that spread.
pub open spec fn one_place_findings(defs: Seq<(Seq<char>, Span)>, uses: Seq<(Seq<char>, Seq<char>)>) -> Seq<(Seq<char>, Span, Seq<(Seq<char>, Span, Seq<char>)>)>
    decreases defs.len(),
{
    if defs.len() == 0 {
        Seq::empty()
    } else {
        let prev = one_place_findings(defs.drop_last(), uses);
        let (name, span) = defs.last();
        let mine = uses_of(uses, name);
        if mine.len() == 1 {
            prev.push(plain_diag("Fragment `"@ + name + "` used only once. Inline him in \""@ + mine[0].1 + "\"."@, span))
        } else {
            prev
        }
    }
}

fn collect_uses(defs: &[ExecutableDef], out: &mut Vec<(Vec<char>, Vec<char>)>)
    ensures pairs_view(final(out)@) == pairs_view(old(out)@) + uses_in(defs@),
{
    let ghost start = pairs_view(out@);
    for i in 0..defs.len()
        invariant
            pairs_view(out@) == start + uses_in(defs@.take(i as int)),
    {
        proof {
            assert(defs@.take(i + 1).drop_last() == defs@.take(i as int));
            assert(defs@.take(i + 1).last() == defs@[i as int]);
        }
        let file = chars_of(display_file_name(defs[i].file.as_str()).as_str());
        collect_list_spreads(&defs[i].selection_set.selections, &file, out);
        proof {
            assert(start + uses_in(defs@.take(i + 1)) =~= start + uses_in(defs@.take(i as int)) + tag_with(list_spreads(defs@[i as int].selection_set.selections@), file@));
        }
    }
    proof { assert(defs@.take(defs@.len() as int) == defs@); }
}

impl NoOnePlaceFragments {
    /// Reports every fragment defined in the document `tree` that the
    /// project (its `operations`, then its `fragments`) spreads exactly once.
    pub fn check(&self, tree: &Tree, operations: &[ExecutableDef], fragments: &[ExecutableDef]) -> (r: Vec<Diagnostic>)
        ensures
            diag_views(r@) == one_place_findings(
                fragment_definitions(tree.nodes@, tree.nodes@.len() as int),
                uses_in(operations@) + uses_in(fragments@),
            ),
    {
        let mut uses: Vec<(Vec<char>, Vec<char>)> = Vec::new();
        collect_uses(operations, &mut uses);
        collect_uses(fragments, &mut uses);
        proof { assert(pairs_view(uses@) =~= uses_in(operations@) + uses_in(fragments@)); }
        let ghost uv = pairs_view(uses@);
        let ghost nodes = tree.nodes@;
        let mut out: Vec<Diagnostic> = Vec::new();
        for i in 0..tree.nodes.len()
            invariant
                nodes == tree.nodes@,
                uv == pairs_view(uses@),
                diag_views(out@) == one_place_findings(fragment_definitions(nodes, i as int), uv),
        {
            let n = &tree.nodes[i];
            let ghost fd = fragment_definitions(nodes, i as int);
            let under_def = match n.parent {
                Some(p) => p < tree.nodes.len() && tree.nodes[p].kind == SyntaxKind::FRAGMENT_DEFINITION,
                None => false,
            };
            if n.kind == SyntaxKind::FRAGMENT_NAME && under_def {
                match (&n.name, n.span) {
                    (Some(name), Some(span)) => {
                        let nc = chars_of(name.as_str());
                        let ghost pred = |u: (Seq<char>, Seq<char>)| u.0 == nc@;
                        let mut count: usize = 0;
                        let mut first: Option<usize> = None;
                        for k in 0..uses.len()
                            invariant
                                uv == pairs_view(uses@),
                                pred == (|u: (Seq<char>, Seq<char>)| u.0 == nc@),
                                count == uv.take(k as int).filter(pred).len(),
                                count <= k,
                                count == 0 <==> first is None,
                                first matches Some(f) ==> f < k && uv.take(k as int).filter(pred)[0] == uv[f as int],
                        {
                            proof {
                                reveal_with_fuel(Seq::<_>::filter, 1);
                                assert(uv.take(k + 1).drop_last() == uv.take(k as int));
                            }
                            if chars_eq(&uses[k].0, &nc) {
                                if first.is_none() {
                                    first = Some(k);
                                    proof { assert(uv.take(k as int).filter(pred).len() == 0); }
                                }
                                proof {
                                    assert(uv.take(k + 1).filter(pred) == uv.take(k as int).filter(pred).push(uv[k as int]));
                                }
                                count = count + 1;
                            }
                        }
                        proof {
                            assert(uv.take(uv.len() as int) == uv);
                            assert(fragment_definitions(nodes, i + 1) == fd.push((nc@, span)));
                            assert(fd.push((nc@, span)).drop_last() == fd);
                            assert(pred =~= (|u: (Seq<char>, Seq<char>)| u.0 == nc@));
                            assert(count == uv.filter(pred).len());
                            assert(uv.filter(pred) == uses_of(uv, nc@));
                            lemma_findings_step(fd, nc@, span, uv);
                        }
                        if count == 1 {
                            let f = match first { Some(f) => f, None => 0 };
                            let mut m: Vec<char> = Vec::new();
                            push_str(&mut m, "Fragment `");
                            push_all(&mut m, &nc);
                            push_str(&mut m, "` used only once. Inline him in \"");
                            push_all(&mut m, &uses[f].1);
                            push_str(&mut m, "\".");
                            proof {
                                assert(uv.filter(pred)[0] == uv[f as int]);
                                assert(m@ == "Fragment `"@ + nc@ + "` used only once. Inline him in \""@ + uv.filter(pred)[0].1 + "\"."@);
                            }
                            push_diag(&mut out, &m, span);
                        }
                    },
                    _ => {
                        assert(fragment_definitions(nodes, i + 1) == fd);
                    },
                }
            } else {
                assert(fragment_definitions(nodes, i + 1) == fd);
            }
        }
        out
    }
}

} // verus!
