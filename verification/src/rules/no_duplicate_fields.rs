//! `no-duplicate-fields`: a field is defined (in a type) or selected (in a
//! selection set) at most once.
use vstd::prelude::*;
use crate::model::{Diagnostic, Node, Span, SyntaxKind, Tree, diag_views, plain_diag, push_diag, find_up, find_up_exec, entries_view, seen_before, exec_seen_before, span_or_zero, exec_span_or_zero};
use crate::text::{chars_of, push_str};

verus! {

/// The `no-duplicate-fields` rule.
pub struct NoDuplicateFields;

/// The kinds whose fields must be unique.
pub open spec fn field_containers() -> Seq<SyntaxKind> {
    seq![
        SyntaxKind::OBJECT_TYPE_DEFINITION,
        SyntaxKind::OBJECT_TYPE_EXTENSION,
        SyntaxKind::INTERFACE_TYPE_DEFINITION,
        SyntaxKind::INTERFACE_TYPE_EXTENSION,
        SyntaxKind::INPUT_OBJECT_TYPE_DEFINITION,
        SyntaxKind::INPUT_OBJECT_TYPE_EXTENSION,
        SyntaxKind::SELECTION_SET,
    ]
}

fn field_containers_exec() -> (r: Vec<SyntaxKind>)
    ensures r@ == field_containers(),
{
    vec![
        SyntaxKind::OBJECT_TYPE_DEFINITION,
        SyntaxKind::OBJECT_TYPE_EXTENSION,
        SyntaxKind::INTERFACE_TYPE_DEFINITION,
        SyntaxKind::INTERFACE_TYPE_EXTENSION,
        SyntaxKind::INPUT_OBJECT_TYPE_DEFINITION,
        SyntaxKind::INPUT_OBJECT_TYPE_EXTENSION,
        SyntaxKind::SELECTION_SET,
    ]
}

/// Whether node kind `k` is a field, a field definition or an input value.
pub open spec fn is_field_kind(k: SyntaxKind) -> bool {
    k == SyntaxKind::FIELD_DEFINITION || k == SyntaxKind::INPUT_VALUE_DEFINITION || k == SyntaxKind::FIELD
}

/// The container (by the offset of its span) and name of node `i` when it
/// is a named field with a container above it.
pub open spec fn field_entry(t: Tree, i: int) -> Option<(usize, Seq<char>)> {
    let n = t.nodes@[i];
    if is_field_kind(n.kind) && n.name is Some && n.parent is Some {
        match find_up(t.nodes@, n.parent.unwrap() as int, field_containers()) {
            Some(c) => Some((span_or_zero(t, c).offset, n.name.unwrap()@)),
            None => None,
        }
    } else {
        None
    }
}

/// The entries of all nodes.
pub open spec fn field_entries(t: Tree) -> Seq<Option<(usize, Seq<char>)>> {
    Seq::new(t.nodes@.len(), |i: int| field_entry(t, i))
}

/// The findings among the first `n` nodes: every field whose name already
/// occurred in the same container, at an empty span at its start.
pub open spec fn duplicate_field_findings(t: Tree, n: int) -> Seq<(Seq<char>, Span, Seq<(Seq<char>, Span, Seq<char>)>)>
    decreases n,
{
    if n <= 0 {
        Seq::empty()
    } else {
        let prev = duplicate_field_findings(t, n - 1);
        let node = t.nodes@[n - 1];
        if seen_before(field_entries(t), n - 1) {
            let name = node.name.unwrap()@;
            let message = if node.kind == SyntaxKind::FIELD {
                "Field \""@ + name + "\" is selected multiple times"@
            } else {
                "Field \""@ + name + "\" is defined multiple times"@
            };
            prev.push(plain_diag(message, Span { offset: span_or_zero(t, n - 1).offset, len: 0 }))
        } else {
            prev
        }
    }
}

impl NoDuplicateFields {
    /// Reports every repeated field of the document.
    pub fn check(&self, tree: &Tree) -> (r: Vec<Diagnostic>)
        requires tree.wf(),
        ensures diag_views(r@) == duplicate_field_findings(*tree, tree.nodes@.len() as int),
    {
        let containers = field_containers_exec();
        let mut entries: Vec<Option<(usize, Vec<char>)>> = Vec::new();
        for i in 0..tree.nodes.len()
            invariant
                tree.wf(),
                containers@ == field_containers(),
                entries_view(entries@) == field_entries(*tree).take(i as int),
        {
            let n = &tree.nodes[i];
            let mut e: Option<(usize, Vec<char>)> = None;
            if n.kind == SyntaxKind::FIELD_DEFINITION || n.kind == SyntaxKind::INPUT_VALUE_DEFINITION || n.kind == SyntaxKind::FIELD {
                match (&n.name, n.parent) {
                    (Some(name), Some(p)) => {
                        match find_up_exec(tree, p, &containers) {
                            Some(c) => {
                                e = Some((exec_span_or_zero(tree, c).offset, chars_of(name.as_str())));
                            },
                            None => {},
                        }
                    },
                    _ => {},
                }
            }
            proof { assert((match e { Some(x) => Some((x.0, x.1@)), None => None }) == field_entry(*tree, i as int)); }
            let ghost before = entries@;
            entries.push(e);
            proof {
                assert(entries_view(entries@) =~= entries_view(before).push(field_entry(*tree, i as int)));
                assert(field_entries(*tree).take(i + 1) =~= field_entries(*tree).take(i as int).push(field_entry(*tree, i as int)));
            }
        }
        proof { assert(field_entries(*tree).take(tree.nodes@.len() as int) =~= field_entries(*tree)); }
        let mut out: Vec<Diagnostic> = Vec::new();
        for i in 0..tree.nodes.len()
            invariant
                entries_view(entries@) == field_entries(*tree),
                entries@.len() == tree.nodes@.len(),
                diag_views(out@) == duplicate_field_findings(*tree, i as int),
        {
            if exec_seen_before(&entries, i) {
                let n = &tree.nodes[i];
                let mut m: Vec<char> = Vec::new();
                push_str(&mut m, "Field \"");
                match &n.name {
                    Some(name) => push_str(&mut m, name.as_str()),
                    None => {},
                }
                if n.kind == SyntaxKind::FIELD {
                    push_str(&mut m, "\" is selected multiple times");
                } else {
                    push_str(&mut m, "\" is defined multiple times");
                }
                let off = exec_span_or_zero(tree, i).offset;
                push_diag(&mut out, &m, Span::new(off, 0));
            }
        }
        out
    }
}

proof fn lemma_finding_kept(t: Tree, i: int, n: int)
    requires 0 <= i < n <= t.nodes@.len(), seen_before(field_entries(t), i),
    ensures
        duplicate_field_findings(t, n).contains(plain_diag(
            if t.nodes@[i].kind == SyntaxKind::FIELD {
                "Field \""@ + t.nodes@[i].name.unwrap()@ + "\" is selected multiple times"@
            } else {
                "Field \""@ + t.nodes@[i].name.unwrap()@ + "\" is defined multiple times"@
            },
            Span { offset: span_or_zero(t, i).offset, len: 0 },
        )),
    decreases n,
{
    let d = plain_diag(
        if t.nodes@[i].kind == SyntaxKind::FIELD {
            "Field \""@ + t.nodes@[i].name.unwrap()@ + "\" is selected multiple times"@
        } else {
            "Field \""@ + t.nodes@[i].name.unwrap()@ + "\" is defined multiple times"@
        },
        Span { offset: span_or_zero(t, i).offset, len: 0 },
    );
    if i == n - 1 {
        let r = duplicate_field_findings(t, n);
        assert(r[r.len() - 1] == d);
    } else {
        lemma_finding_kept(t, i, n - 1);
        let prev = duplicate_field_findings(t, n - 1);
        let k = choose|k: int| 0 <= k < prev.len() && prev[k] == d;
        let r = duplicate_field_findings(t, n);
        if seen_before(field_entries(t), n - 1) {
            assert(r[k] == prev[k]);
        }
    }
}

/// A field selected twice in one selection set is reported at its second
/// selection: two field nodes with the same name under the same selection
/// set make the later one a finding, `Field "name" is selected multiple
/// times`, at its start.
pub proof fn law_repeated_selection_reported(t: Tree, j: int, i: int)
    requires
        0 <= j < i < t.nodes@.len(),
        t.nodes@[i].kind == SyntaxKind::FIELD,
        t.nodes@[j].kind == SyntaxKind::FIELD,
        t.nodes@[i].name is Some,
        t.nodes@[j].name is Some,
        t.nodes@[i].name.unwrap()@ == t.nodes@[j].name.unwrap()@,
        t.nodes@[i].parent is Some,
        t.nodes@[i].parent == t.nodes@[j].parent,
        (t.nodes@[i].parent.unwrap() as int) < t.nodes@.len(),
        t.nodes@[t.nodes@[i].parent.unwrap() as int].kind == SyntaxKind::SELECTION_SET,
    ensures
        duplicate_field_findings(t, t.nodes@.len() as int).contains(plain_diag(
            "Field \""@ + t.nodes@[i].name.unwrap()@ + "\" is selected multiple times"@,
            Span { offset: span_or_zero(t, i).offset, len: 0 },
        )),
{
    let p = t.nodes@[i].parent.unwrap() as int;
    assert(field_containers().contains(SyntaxKind::SELECTION_SET)) by {
        assert(field_containers()[6] == SyntaxKind::SELECTION_SET);
    }
    assert(find_up(t.nodes@, p, field_containers()) == Some(p));
    let es = field_entries(t);
    assert(es[i] == field_entry(t, i));
    assert(es[j] == field_entry(t, j));
    assert(es[j] == es[i]);
    assert(seen_before(es, i));
    lemma_finding_kept(t, i, t.nodes@.len() as int);
}

} // verus!
