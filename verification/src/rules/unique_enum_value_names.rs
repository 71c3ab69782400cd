//! `unique-enum-value-names`: the values of an enum differ even ignoring
//! case.
use vstd::prelude::*;
use crate::model::{Diagnostic, Node, Span, SyntaxKind, Tree, diag_views, plain_diag, push_diag, find_up, find_up_exec, entries_view, seen_before, exec_seen_before, span_or_zero, exec_span_or_zero, unicode_lower, to_lowercase};
use crate::text::{chars_of, push_str};

verus! {

/// The `unique-enum-value-names` rule.
pub struct UniqueEnumValueNames;

/// Enum definitions and extensions.
pub open spec fn enum_containers() -> Seq<SyntaxKind> {
    seq![SyntaxKind::ENUM_TYPE_DEFINITION, SyntaxKind::ENUM_TYPE_EXTENSION]
}

/// The enum (by the offset of its span) and lowercase name of node `i` when
/// it is a named enum value inside an enum.
pub open spec fn enum_value_entry(t: Tree, i: int) -> Option<(usize, Seq<char>)> {
    let n = t.nodes@[i];
    if n.kind == SyntaxKind::ENUM_VALUE && n.name is Some && n.parent is Some {
        match find_up(t.nodes@, n.parent.unwrap() as int, enum_containers()) {
            Some(c) => Some((span_or_zero(t, c).offset, unicode_lower(n.name.unwrap()@))),
            None => None,
        }
    } else {
        None
    }
}

/// The entries of all nodes.
pub open spec fn enum_value_entries(t: Tree) -> Seq<Option<(usize, Seq<char>)>> {
    Seq::new(t.nodes@.len(), |i: int| enum_value_entry(t, i))
}

/// The findings among the first `n` nodes: every enum value whose
/// lowercase name already occurred in the same enum.
pub open spec fn enum_value_findings(t: Tree, n: int) -> Seq<(Seq<char>, Span, Seq<(Seq<char>, Span, Seq<char>)>)>
    decreases n,
{
    if n <= 0 {
        Seq::empty()
    } else {
        let prev = enum_value_findings(t, n - 1);
        if seen_before(enum_value_entries(t), n - 1) {
            prev.push(plain_diag(
                "Unexpected case-insensitive enum values duplicates for "@ + t.nodes@[n - 1].name.unwrap()@,
                Span { offset: span_or_zero(t, n - 1).offset, len: 0 },
            ))
        } else {
            prev
        }
    }
}

impl UniqueEnumValueNames {
    /// Reports every enum value that repeats an earlier one of its enum,
    /// ignoring case.
    pub fn check(&self, tree: &Tree) -> (r: Vec<Diagnostic>)
        requires tree.wf(),
        ensures diag_views(r@) == enum_value_findings(*tree, tree.nodes@.len() as int),
    {
        let containers = vec![SyntaxKind::ENUM_TYPE_DEFINITION, SyntaxKind::ENUM_TYPE_EXTENSION];
        proof { assert(containers@ == enum_containers()); }
        let mut entries: Vec<Option<(usize, Vec<char>)>> = Vec::new();
        for i in 0..tree.nodes.len()
            invariant
                tree.wf(),
                containers@ == enum_containers(),
                entries_view(entries@) == enum_value_entries(*tree).take(i as int),
        {
            let n = &tree.nodes[i];
            let mut e: Option<(usize, Vec<char>)> = None;
            if n.kind == SyntaxKind::ENUM_VALUE {
                match (&n.name, n.parent) {
                    (Some(name), Some(p)) => {
                        match find_up_exec(tree, p, &containers) {
                            Some(c) => {
                                let lower = to_lowercase(name.as_str());
                                e = Some((exec_span_or_zero(tree, c).offset, chars_of(lower.as_str())));
                            },
                            None => {},
                        }
                    },
                    _ => {},
                }
            }
            proof { assert((match e { Some(x) => Some((x.0, x.1@)), None => None }) == enum_value_entry(*tree, i as int)); }
            let ghost before = entries@;
            entries.push(e);
            proof {
                assert(entries_view(entries@) =~= entries_view(before).push(enum_value_entry(*tree, i as int)));
                assert(enum_value_entries(*tree).take(i + 1) =~= enum_value_entries(*tree).take(i as int).push(enum_value_entry(*tree, i as int)));
            }
        }
        proof { assert(enum_value_entries(*tree).take(tree.nodes@.len() as int) =~= enum_value_entries(*tree)); }
        let mut out: Vec<Diagnostic> = Vec::new();
        for i in 0..tree.nodes.len()
            invariant
                entries_view(entries@) == enum_value_entries(*tree),
                entries@.len() == tree.nodes@.len(),
                diag_views(out@) == enum_value_findings(*tree, i as int),
        {
            if exec_seen_before(&entries, i) {
                let mut m: Vec<char> = Vec::new();
                push_str(&mut m, "Unexpected case-insensitive enum values duplicates for ");
                match &tree.nodes[i].name {
                    Some(name) => push_str(&mut m, name.as_str()),
                    None => {},
                }
                let off = exec_span_or_zero(tree, i).offset;
                push_diag(&mut out, &m, Span::new(off, 0));
            }
        }
        out
    }
}

proof fn lemma_enum_finding_kept(t: Tree, i: int, n: int)
    requires 0 <= i < n <= t.nodes@.len(), seen_before(enum_value_entries(t), i),
    ensures
        enum_value_findings(t, n).contains(plain_diag(
            "Unexpected case-insensitive enum values duplicates for "@ + t.nodes@[i].name.unwrap()@,
            Span { offset: span_or_zero(t, i).offset, len: 0 },
        )),
    decreases n,
{
    let d = plain_diag(
        "Unexpected case-insensitive enum values duplicates for "@ + t.nodes@[i].name.unwrap()@,
        Span { offset: span_or_zero(t, i).offset, len: 0 },
    );
    if i == n - 1 {
        let r = enum_value_findings(t, n);
        assert(r[r.len() - 1] == d);
    } else {
        lemma_enum_finding_kept(t, i, n - 1);
        let prev = enum_value_findings(t, n - 1);
        let k = choose|k: int| 0 <= k < prev.len() && prev[k] == d;
        let r = enum_value_findings(t, n);
        if seen_before(enum_value_entries(t), n - 1) {
            assert(r[k] == prev[k]);
        }
    }
}

/// Enum values are compared ignoring case: two values under the same node
/// of an enum whose names have the same lowercase form make the later one
/// a finding, at its start.
pub proof fn law_values_equal_ignoring_case_reported(t: Tree, j: int, i: int)
    requires
        0 <= j < i < t.nodes@.len(),
        t.nodes@[i].kind == SyntaxKind::ENUM_VALUE,
        t.nodes@[j].kind == SyntaxKind::ENUM_VALUE,
        t.nodes@[i].name is Some,
        t.nodes@[j].name is Some,
        unicode_lower(t.nodes@[i].name.unwrap()@) == unicode_lower(t.nodes@[j].name.unwrap()@),
        t.nodes@[i].parent is Some,
        t.nodes@[i].parent == t.nodes@[j].parent,
        find_up(t.nodes@, t.nodes@[i].parent.unwrap() as int, enum_containers()) is Some,
    ensures
        enum_value_findings(t, t.nodes@.len() as int).contains(plain_diag(
            "Unexpected case-insensitive enum values duplicates for "@ + t.nodes@[i].name.unwrap()@,
            Span { offset: span_or_zero(t, i).offset, len: 0 },
        )),
{
    let es = enum_value_entries(t);
    assert(es[i] == enum_value_entry(t, i));
    assert(es[j] == enum_value_entry(t, j));
    assert(es[j] == es[i]);
    assert(seen_before(es, i));
    lemma_enum_finding_kept(t, i, t.nodes@.len() as int);
}

} // verus!
