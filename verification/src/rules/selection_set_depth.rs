//! `selection-set-depth`: no operation nests its selections deeper than
//! the configured limit.
use vstd::prelude::*;
use vstd::set_lib::{set_int_range, lemma_int_range, lemma_len_subset};
use crate::executable::{ExecutableDef, FieldSelection, Selection, SelectionSet};
use crate::model::{Diagnostic, Span, diag_views, plain_diag, push_diag};
use crate::schema::{Schema, TypeKind, type_index, find_type};
use crate::text::{chars_of, chars_eq, dec, push_dec, push_str};
use crate::usage::{def_name, frag_lookup, find_fragment};

verus! {

/// The `selection-set-depth` rule.
pub struct SelectionSetDepth;

/// The options of the rule: the greatest depth allowed, the fields not
/// counted (by name, or as `Type.field`), and fixed depths for some
/// `Type.field` selections.
pub struct DepthOptions {
    pub max_depth: usize,
    pub ignore: Vec<String>,
    pub depths: Vec<(String, usize)>,
}

impl DepthOptions {
    /// The default options: a limit of 7, nothing ignored, no fixed depth.
    pub fn new() -> (o: DepthOptions)
        ensures o.max_depth == 7, o.ignore@.len() == 0, o.depths@.len() == 0,
    {
        DepthOptions { max_depth: 7, ignore: Vec::new(), depths: Vec::new() }
    }
}

/// The field named `f`, or `Type.field` as `q`, is ignored.
pub open spec fn is_ignored(o: DepthOptions, f: Seq<char>, q: Seq<char>) -> bool {
    exists|i: int| 0 <= i < o.ignore@.len() && (#[trigger] o.ignore@[i]@ == f || o.ignore@[i]@ == q)
}

/// The fixed depth for `Type.field` written `q`: that of the first entry
/// with that key.
pub open spec fn fixed_depth(d: Seq<(String, usize)>, q: Seq<char>) -> Option<usize>
    decreases d.len(),
{
    if d.len() == 0 {
        None
    } else {
        match fixed_depth(d.drop_last(), q) {
            Some(v) => Some(v),
            None => if d.last().0@ == q { Some(d.last().1) } else { None },
        }
    }
}

/// A field of type `t` ends the walk: `t` is a scalar or enum of the
/// schema, or one of the built-in scalars.
pub open spec fn is_leaf_type(s: Schema, t: Seq<char>) -> bool {
    (type_index(s.types@, t) matches Some(k) && (s.types@[k].kind == TypeKind::Scalar || s.types@[k].kind == TypeKind::Enum))
        || t == "String"@ || t == "Int"@ || t == "Float"@ || t == "Boolean"@ || t == "ID"@
}

/// The fragments being walked: distinct positions in a list of `n`
/// fragments.
pub open spec fn walk_ok(ip: Seq<usize>, n: nat) -> bool {
    ip.no_duplicates() && forall|i: int| 0 <= i < ip.len() ==> (#[trigger] ip[i]) < n
}

/// The depth of a selection in a selection set of type `ty`, while the
/// fragments at the positions `ip` are being walked: a field counts one
/// more than its own selections unless it is ignored, has a fixed depth,
/// has no selections or returns a leaf type; a spread of a fragment being
/// walked counts nothing.
pub open spec fn sel_depth(s: Schema, frags: Seq<ExecutableDef>, o: DepthOptions, ty: Seq<char>, sel: Selection, ip: Seq<usize>) -> int
    decreases frags.len() - ip.len(), sel,
{
    match sel {
        Selection::Field(f) => {
            let q = ty + "."@ + f.name@;
            if is_ignored(o, f.name@, q) {
                0
            } else {
                match fixed_depth(o.depths@, q) {
                    Some(v) => v as int,
                    None => if f.selection_set.selections@.len() == 0 || is_leaf_type(s, f.result_type@) {
                        0
                    } else {
                        1 + list_depth(s, frags, o, f.selection_set.ty@, f.selection_set.selections@, ip)
                    },
                }
            }
        },
        Selection::InlineFragment { selection_set: ss, .. } => list_depth(s, frags, o, ss.ty@, ss.selections@, ip),
        Selection::FragmentSpread { name: n, .. } => match frag_lookup(frags, n@) {
            Some(k) => if ip.contains(k as usize) || ip.len() >= frags.len() {
                0
            } else {
                list_depth(s, frags, o, frags[k].selection_set.ty@, frags[k].selection_set.selections@, ip.push(k as usize))
            },
            None => 0,
        },
    }
}

/// The depth of a list of selections: the greatest of theirs, 0 for none.
pub open spec fn list_depth(s: Schema, frags: Seq<ExecutableDef>, o: DepthOptions, ty: Seq<char>, l: Seq<Selection>, ip: Seq<usize>) -> int
    decreases frags.len() - ip.len(), l,
{
    if l.len() == 0 {
        0
    } else {
        let a = list_depth(s, frags, o, ty, l.drop_last(), ip);
        let b = sel_depth(s, frags, o, ty, l.last(), ip);
        if a >= b { a } else { b }
    }
}

/// The depth of an operation's selection set, no fragment being walked.
pub open spec fn operation_depth(s: Schema, frags: Seq<ExecutableDef>, o: DepthOptions, op: ExecutableDef) -> int {
    list_depth(s, frags, o, op.selection_set.ty@, op.selection_set.selections@, Seq::empty())
}

pub proof fn lemma_walk_room(ip: Seq<usize>, n: nat, k: usize)
    requires walk_ok(ip, n), k < n, !ip.contains(k),
    ensures ip.len() < n, walk_ok(ip.push(k), n),
{
    let t = ip.push(k);
    assert forall|i: int, j: int| 0 <= i < t.len() && 0 <= j < t.len() && i != j implies t[i] != t[j] by {
        if i < ip.len() && j < ip.len() {
        } else if i == ip.len() {
            assert(ip[j] == t[j]);
        } else {
            assert(ip[i] == t[i]);
        }
    }
    assert(t.no_duplicates());
    let m = t.map_values(|x: usize| x as int);
    assert forall|i: int, j: int| 0 <= i < m.len() && 0 <= j < m.len() && i != j implies m[i] != m[j] by {
        assert(t[i] != t[j]);
    }
    assert(m.no_duplicates());
    m.unique_seq_to_set();
    assert forall|x: int| m.to_set().contains(x) implies set_int_range(0, n as int).contains(x) by {
        let i = choose|i: int| 0 <= i < m.len() && m[i] == x;
        if i < ip.len() {
            assert(t[i] == ip[i]);
        }
    }
    lemma_int_range(0, n as int);
    lemma_len_subset(m.to_set(), set_int_range(0, n as int));
}

proof fn lemma_list_depth_bounds(s: Schema, frags: Seq<ExecutableDef>, o: DepthOptions, ty: Seq<char>, l: Seq<Selection>, ip: Seq<usize>, i: int)
    requires 0 <= i < l.len(),
    ensures
        sel_depth(s, frags, o, ty, l[i], ip) <= list_depth(s, frags, o, ty, l, ip),
        list_depth(s, frags, o, ty, l.take(i), ip) <= list_depth(s, frags, o, ty, l, ip),
    decreases l.len(),
{
    if i < l.len() - 1 {
        lemma_list_depth_bounds(s, frags, o, ty, l.drop_last(), ip, i);
        assert(l.drop_last()[i] == l[i]);
        assert(l.drop_last().take(i) == l.take(i));
    } else {
        assert(l.take(i) == l.drop_last());
    }
}

proof fn lemma_list_depth_nonneg(s: Schema, frags: Seq<ExecutableDef>, o: DepthOptions, ty: Seq<char>, l: Seq<Selection>, ip: Seq<usize>)
    ensures list_depth(s, frags, o, ty, l, ip) >= 0,
    decreases l.len(),
{
    if l.len() > 0 {
        lemma_list_depth_nonneg(s, frags, o, ty, l.drop_last(), ip);
    }
}

/// An inline fragment adds no level: appended to a selection list, it
/// raises the list's depth to that of its own selections and no further,
/// and alone it has exactly the depth of its own selections.
pub proof fn law_inline_fragment_adds_no_depth(s: Schema, frags: Seq<ExecutableDef>, o: DepthOptions, ty: Seq<char>, l: Seq<Selection>, tc: Option<String>, ss: SelectionSet, ip: Seq<usize>)
    ensures
        list_depth(s, frags, o, ty, l.push(Selection::InlineFragment { type_condition: tc, selection_set: ss }), ip)
            == if list_depth(s, frags, o, ty, l, ip) >= list_depth(s, frags, o, ss.ty@, ss.selections@, ip) {
                list_depth(s, frags, o, ty, l, ip)
            } else {
                list_depth(s, frags, o, ss.ty@, ss.selections@, ip)
            },
        list_depth(s, frags, o, ty, seq![Selection::InlineFragment { type_condition: tc, selection_set: ss }], ip)
            == list_depth(s, frags, o, ss.ty@, ss.selections@, ip),
{
    let x = Selection::InlineFragment { type_condition: tc, selection_set: ss };
    let inner = list_depth(s, frags, o, ss.ty@, ss.selections@, ip);
    assert(sel_depth(s, frags, o, ty, x, ip) == inner);
    assert(l.push(x).drop_last() == l);
    assert(l.push(x).last() == x);
    assert(list_depth(s, frags, o, ty, l.push(x), ip) == if list_depth(s, frags, o, ty, l, ip) >= inner { list_depth(s, frags, o, ty, l, ip) } else { inner });
    assert(seq![x].drop_last() == Seq::<Selection>::empty());
    assert(seq![x].last() == x);
    assert(list_depth(s, frags, o, ty, Seq::<Selection>::empty(), ip) == 0);
    lemma_list_depth_nonneg(s, frags, o, ss.ty@, ss.selections@, ip);
    assert(list_depth(s, frags, o, ty, seq![x], ip) == inner);
}

/// Wrapping the selections of a field in an inline fragment leaves the
/// field's depth as it is: a field `f` whose selections are one inline
/// fragment over `ss` is as deep as the same field `g` selecting `ss`
/// itself.
pub proof fn law_field_through_inline_fragment(s: Schema, frags: Seq<ExecutableDef>, o: DepthOptions, ty: Seq<char>, f: FieldSelection, g: FieldSelection, tc: Option<String>, ss: SelectionSet, ip: Seq<usize>)
    requires
        f.selection_set.selections@ == seq![Selection::InlineFragment { type_condition: tc, selection_set: ss }],
        g.name@ == f.name@,
        g.result_type@ == f.result_type@,
        g.selection_set == ss,
        ss.selections@.len() > 0,
    ensures
        sel_depth(s, frags, o, ty, Selection::Field(f), ip) == sel_depth(s, frags, o, ty, Selection::Field(g), ip),
{
    law_inline_fragment_adds_no_depth(s, frags, o, f.selection_set.ty@, Seq::empty(), tc, ss, ip);
    assert(Seq::<Selection>::empty().push(Selection::InlineFragment { type_condition: tc, selection_set: ss })
        == seq![Selection::InlineFragment { type_condition: tc, selection_set: ss }]);
}

fn exec_is_ignored(o: &DepthOptions, f: &Vec<char>, q: &Vec<char>) -> (r: bool)
    ensures r == is_ignored(*o, f@, q@),
{
    for i in 0..o.ignore.len()
        invariant forall|j: int| 0 <= j < i ==> !(#[trigger] o.ignore@[j]@ == f@ || o.ignore@[j]@ == q@),
    {
        let ig = chars_of(o.ignore[i].as_str());
        if chars_eq(&ig, f) || chars_eq(&ig, q) {
            return true;
        }
    }
    false
}

proof fn lemma_fixed_depth(d: Seq<(String, usize)>, q: Seq<char>)
    ensures
        match fixed_depth(d, q) {
            Some(v) => exists|k: int| 0 <= k < d.len() && d[k].0@ == q && d[k].1 == v
                && forall|j: int| 0 <= j < k ==> (#[trigger] d[j]).0@ != q,
            None => forall|j: int| 0 <= j < d.len() ==> (#[trigger] d[j]).0@ != q,
        },
    decreases d.len(),
{
    if d.len() > 0 {
        lemma_fixed_depth(d.drop_last(), q);
        assert forall|j: int| 0 <= j < d.len() - 1 implies #[trigger] d[j] == d.drop_last()[j] by {}
        match fixed_depth(d.drop_last(), q) {
            Some(v) => {
                let k = choose|k: int| 0 <= k < d.drop_last().len() && d.drop_last()[k].0@ == q && d.drop_last()[k].1 == v
                    && forall|j: int| 0 <= j < k ==> (#[trigger] d.drop_last()[j]).0@ != q;
                assert(d[k] == d.drop_last()[k]);
                assert forall|j: int| 0 <= j < k implies (#[trigger] d[j]).0@ != q by {
                    assert(d[j] == d.drop_last()[j]);
                }
            },
            None => {},
        }
    }
}

fn exec_fixed_depth(d: &Vec<(String, usize)>, q: &Vec<char>) -> (r: Option<usize>)
    ensures r == fixed_depth(d@, q@),
{
    proof { lemma_fixed_depth(d@, q@); }
    for i in 0..d.len()
        invariant forall|j: int| 0 <= j < i ==> (#[trigger] d@[j]).0@ != q@,
    {
        if chars_eq(&chars_of(d[i].0.as_str()), q) {
            proof {
                lemma_fixed_depth(d@, q@);
                match fixed_depth(d@, q@) {
                    Some(v) => {
                        let k = choose|k: int| 0 <= k < d@.len() && d@[k].0@ == q@ && d@[k].1 == v
                            && forall|j: int| 0 <= j < k ==> (#[trigger] d@[j]).0@ != q@;
                        if k < i {
                            assert(d@[k].0@ != q@);
                        } else if k > i {
                            assert(d@[i as int].0@ != q@);
                        }
                    },
                    None => { assert(d@[i as int].0@ != q@); },
                }
            }
            return Some(d[i].1);
        }
    }
    proof {
        if let Some(v) = fixed_depth(d@, q@) {
            let k = choose|k: int| 0 <= k < d@.len() && d@[k].0@ == q@ && d@[k].1 == v
                && forall|j: int| 0 <= j < k ==> (#[trigger] d@[j]).0@ != q@;
            assert(d@[k].0@ != q@);
        }
    }
    None
}

fn exec_is_leaf_type(s: &Schema, t: &str) -> (r: bool)
    ensures r == is_leaf_type(*s, t@),
{
    let tc = chars_of(t);
    let known = match find_type(&s.types, t) {
        Some(k) => s.types[k].kind == TypeKind::Scalar || s.types[k].kind == TypeKind::Enum,
        None => false,
    };
    known || chars_eq(&tc, &chars_of("String")) || chars_eq(&tc, &chars_of("Int"))
        || chars_eq(&tc, &chars_of("Float")) || chars_eq(&tc, &chars_of("Boolean"))
        || chars_eq(&tc, &chars_of("ID"))
}

fn exec_field_depth(s: &Schema, frags: &[ExecutableDef], o: &DepthOptions, ty: &str, f: &FieldSelection, ip: &mut Vec<usize>) -> (r: usize)
    requires
        walk_ok(old(ip)@, frags@.len()),
        sel_depth(*s, frags@, *o, ty@, Selection::Field(*f), old(ip)@) <= usize::MAX,
    ensures
        final(ip)@ == old(ip)@,
        r == sel_depth(*s, frags@, *o, ty@, Selection::Field(*f), old(ip)@),
    decreases frags@.len() - old(ip)@.len(), Selection::Field(*f), 0nat,
{
    let fname = chars_of(f.name.as_str());
    let mut q = chars_of(ty);
    q.push('.');
    crate::text::push_all(&mut q, &fname);
    proof { assert(q@ == ty@ + "."@ + f.name@) by { reveal_strlit("."); } }
    if exec_is_ignored(o, &fname, &q) {
        return 0;
    }
    match exec_fixed_depth(&o.depths, &q) {
        Some(v) => v,
        None => {
            if f.selection_set.selections.len() == 0 || exec_is_leaf_type(s, f.result_type.as_str()) {
                0
            } else {
                let d = exec_list_depth(s, frags, o, f.selection_set.ty.as_str(), &f.selection_set.selections, ip);
                1 + d
            }
        },
    }
}

/// The depth of one selection in a selection set of type `ty`, while the
/// fragments at the positions in `ip` are being walked.
pub fn exec_sel_depth(s: &Schema, frags: &[ExecutableDef], o: &DepthOptions, ty: &str, sel: &Selection, ip: &mut Vec<usize>) -> (r: usize)
    requires
        walk_ok(old(ip)@, frags@.len()),
        sel_depth(*s, frags@, *o, ty@, *sel, old(ip)@) <= usize::MAX,
    ensures
        final(ip)@ == old(ip)@,
        r == sel_depth(*s, frags@, *o, ty@, *sel, old(ip)@),
    decreases frags@.len() - old(ip)@.len(), *sel, 1nat,
{
    match sel {
        Selection::Field(f) => exec_field_depth(s, frags, o, ty, f, ip),
        Selection::InlineFragment { selection_set: ss, .. } => exec_list_depth(s, frags, o, ss.ty.as_str(), &ss.selections, ip),
        Selection::FragmentSpread { name: n, .. } => {
            match find_fragment(frags, &chars_of(n.as_str())) {
                Some(k) => {
                    let mut seen = false;
                    for i in 0..ip.len()
                        invariant seen == exists|j: int| 0 <= j < i && ip@[j] == k,
                    {
                        if ip[i] == k {
                            seen = true;
                        }
                    }
                    proof {
                        if ip@.contains(k) {
                            let j = choose|j: int| 0 <= j < ip@.len() && ip@[j] == k;
                        }
                    }
                    if seen {
                        0
                    } else {
                        proof { lemma_walk_room(ip@, frags@.len(), k); }
                        let ghost before = ip@;
                        ip.push(k);
                        let d = exec_list_depth(s, frags, o, frags[k].selection_set.ty.as_str(), &frags[k].selection_set.selections, ip);
                        ip.pop();
                        proof { assert(ip@ == before); }
                        d
                    }
                },
                None => 0,
            }
        },
    }
}

/// The depth of a list of selections in a selection set of type `ty`.
pub fn exec_list_depth(s: &Schema, frags: &[ExecutableDef], o: &DepthOptions, ty: &str, l: &Vec<Selection>, ip: &mut Vec<usize>) -> (r: usize)
    requires
        walk_ok(old(ip)@, frags@.len()),
        list_depth(*s, frags@, *o, ty@, l@, old(ip)@) <= usize::MAX,
    ensures
        final(ip)@ == old(ip)@,
        r == list_depth(*s, frags@, *o, ty@, l@, old(ip)@),
    decreases frags@.len() - old(ip)@.len(), l@, 2nat,
{
    let ghost ip0 = ip@;
    let mut acc: usize = 0;
    for i in 0..l.len()
        invariant
            ip@ == ip0,
            old(ip)@ == ip0,
            walk_ok(ip0, frags@.len()),
            list_depth(*s, frags@, *o, ty@, l@, ip0) <= usize::MAX,
            acc == list_depth(*s, frags@, *o, ty@, l@.take(i as int), ip0),
    {
        proof {
            lemma_list_depth_bounds(*s, frags@, *o, ty@, l@, ip0, i as int);
            assert(l@.take(i + 1).drop_last() == l@.take(i as int));
            assert(l@.take(i + 1).last() == l@[i as int]);
        }
        let d = exec_sel_depth(s, frags, o, ty, &l[i], ip);
        if d > acc {
            acc = d;
        }
    }
    proof { assert(l@.take(l@.len() as int) == l@); }
    acc
}

/// The depth of a selection set whose fragments are looked up in `frags`,
/// no fragment being walked at the start.
pub fn selection_set_depth(s: &Schema, frags: &[ExecutableDef], o: &DepthOptions, ss: &SelectionSet) -> (r: usize)
    requires list_depth(*s, frags@, *o, ss.ty@, ss.selections@, Seq::empty()) <= usize::MAX,
    ensures r == list_depth(*s, frags@, *o, ss.ty@, ss.selections@, Seq::empty()),
{
    let mut ip: Vec<usize> = Vec::new();
    proof { assert(walk_ok(ip@, frags@.len())); }
    exec_list_depth(s, frags, o, ss.ty.as_str(), &ss.selections, &mut ip)
}

/// The finding for operation `op` of the file `file`, if it is deeper than
/// allowed.
pub open spec fn depth_finding(s: Schema, frags: Seq<ExecutableDef>, o: DepthOptions, file: Seq<char>, op: ExecutableDef) -> Option<(Seq<char>, Span, Seq<(Seq<char>, Span, Seq<char>)>)> {
    if op.file@ == file && operation_depth(s, frags, o, op) > o.max_depth {
        let name = match op.name { Some(n) => n@, None => Seq::empty() };
        Some(plain_diag(
            "'"@ + name + "' exceeds maximum operation depth of "@ + dec(o.max_depth as nat),
            Span { offset: 0, len: 0 },
        ))
    } else {
        None
    }
}

/// The findings for the first `n` operations, in order.
pub open spec fn depth_findings(s: Schema, frags: Seq<ExecutableDef>, o: DepthOptions, file: Seq<char>, ops: Seq<ExecutableDef>, n: int) -> Seq<(Seq<char>, Span, Seq<(Seq<char>, Span, Seq<char>)>)>
    decreases n,
{
    if n <= 0 {
        Seq::empty()
    } else {
        match depth_finding(s, frags, o, file, ops[n - 1]) {
            Some(d) => depth_findings(s, frags, o, file, ops, n - 1).push(d),
            None => depth_findings(s, frags, o, file, ops, n - 1),
        }
    }
}

impl SelectionSetDepth {
    /// Reports, at the start of the file `file`, each operation of that file
    /// (among the project's operations `ops`, with the fragments `frags`)
    /// whose depth exceeds the limit. The rule needs a schema: without one
    /// it reports nothing.
    pub fn check(&self, ops: &[ExecutableDef], frags: &[ExecutableDef], file: &str, schema: Option<&Schema>, o: &DepthOptions) -> (r: Vec<Diagnostic>)
        requires
            forall|i: int| 0 <= i < ops@.len() && (#[trigger] ops@[i]).file@ == file@ && schema is Some
                ==> operation_depth(*schema.unwrap(), frags@, *o, ops@[i]) <= usize::MAX,
        ensures
            schema is None ==> r@.len() == 0,
            schema is Some ==> diag_views(r@) == depth_findings(*schema.unwrap(), frags@, *o, file@, ops@, ops@.len() as int),
    {
        let mut out: Vec<Diagnostic> = Vec::new();
        let s = match schema {
            Some(s) => s,
            None => return out,
        };
        let fc = chars_of(file);
        for i in 0..ops.len()
            invariant
                schema == Some(s),
                fc@ == file@,
                forall|i: int| 0 <= i < ops@.len() && (#[trigger] ops@[i]).file@ == file@
                    ==> operation_depth(*s, frags@, *o, ops@[i]) <= usize::MAX,
                diag_views(out@) == depth_findings(*s, frags@, *o, file@, ops@, i as int),
        {
            let op = &ops[i];
            if chars_eq(&chars_of(op.file.as_str()), &fc) {
                let d = selection_set_depth(s, frags, o, &op.selection_set);
                if d > o.max_depth {
                    let mut m: Vec<char> = Vec::new();
                    push_str(&mut m, "'");
                    match &op.name {
                        Some(n) => push_str(&mut m, n.as_str()),
                        None => {},
                    }
                    push_str(&mut m, "' exceeds maximum operation depth of ");
                    push_dec(&mut m, o.max_depth);
                    proof {
                        let name = match &op.name { Some(n) => n@, None => Seq::<char>::empty() };
                        assert(m@ == "'"@ + name + "' exceeds maximum operation depth of "@ + dec(o.max_depth as nat));
                    }
                    push_diag(&mut out, &m, Span::new(0, 0));
                }
            }
        }
        out
    }
}

} // verus!
