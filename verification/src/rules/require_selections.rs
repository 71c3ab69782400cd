//! `require-selections`: a selection set on a type that has one of the
//! configured fields (by default `id`) selects it.
use vstd::prelude::*;
use crate::text::{chars_of, chars_eq, push_str, push_all, string_of};
use crate::model::{Diagnostic, Span, Suggestion, diag_views, push_diag_with, sugg_view, suggestion};
use crate::case::{join, views};
use crate::executable::{ExecutableDef, FieldSelection, Selection, SelectionSet};
use crate::reach::{names, contains_name};
use crate::schema::{Schema, TypeDef, TypeKind, type_index, find_type, field_index, find_field};
use crate::usage::{def_name, frag_lookup, find_fragment, lemma_frag_lookup};
use crate::rules::selection_set_depth::{walk_ok, lemma_walk_room};

verus! {

/// The `require-selections` rule.
pub struct RequireSelections;

/// The options of the rule: the fields wanted (by default `id`) and
/// whether every one of them that the type has must be selected, rather
/// than any one.
pub struct SelectionOptions {
    pub field_name: Vec<String>,
    pub require_all_fields: bool,
}

impl SelectionOptions {
    /// The default options: the field `id`, any one wanted field enough.
    pub fn new() -> (o: SelectionOptions)
        ensures views(o.field_name@) == seq!["id"@], !o.require_all_fields,
    {
        let v = vec![String::from_str("id")];
        proof { assert(views(v@) =~= seq!["id"@]); }
        SelectionOptions { field_name: v, require_all_fields: false }
    }
}

// ---------------------------------------------------------------------
// What a selection set selects.

/// The names a field selection selects: its name, and its alias if any.
pub open spec fn field_names(f: FieldSelection) -> Seq<Seq<char>> {
    match f.alias {
        Some(a) => seq![f.name@, a@],
        None => seq![f.name@],
    }
}

/// Some name in `used` names the fragment at position `k`.
pub open spec fn named_in(frags: Seq<ExecutableDef>, used: Seq<Seq<char>>, k: usize) -> bool {
    exists|m: Seq<char>| used.contains(m) && #[trigger] frag_lookup(frags, m) == Some(k as int)
}

/// The walk state is sound: `found` holds distinct positions in `frags`,
/// exactly those of the fragments named in `used`.
pub open spec fn walk_rel(frags: Seq<ExecutableDef>, used: Seq<Seq<char>>, found: Seq<usize>) -> bool {
    &&& walk_ok(found, frags.len())
    &&& forall|i: int| 0 <= i < found.len() ==> #[trigger] named_in(frags, used, found[i])
    &&& forall|m: Seq<char>| #[trigger] used.contains(m) ==> (frag_lookup(frags, m) matches Some(k) ==> found.contains(k as usize))
}

/// Walking a selection: the names it selects (through inline fragments and
/// fragment spreads, each fragment once), and the walk state after it: the
/// fragments spread so far in the order first met, and their positions.
pub open spec fn sel_selected(frags: Seq<ExecutableDef>, sel: Selection, used: Seq<Seq<char>>, found: Seq<usize>) -> (Seq<Seq<char>>, Seq<Seq<char>>, Seq<usize>)
    decreases frags.len() - found.len(), sel,
{
    match sel {
        Selection::Field(f) => (field_names(f), used, found),
        Selection::InlineFragment { selection_set: ss, .. } => list_selected(frags, ss.selections@, used, found),
        Selection::FragmentSpread { name: n, .. } => {
            if used.contains(n@) {
                (Seq::empty(), used, found)
            } else {
                match frag_lookup(frags, n@) {
                    Some(k) => if found.contains(k as usize) || found.len() >= frags.len() {
                        (Seq::empty(), used.push(n@), found)
                    } else {
                        list_selected(frags, frags[k].selection_set.selections@, used.push(n@), found.push(k as usize))
                    },
                    None => (Seq::empty(), used.push(n@), found),
                }
            }
        },
    }
}

/// Walking a list of selections in order.
pub open spec fn list_selected(frags: Seq<ExecutableDef>, l: Seq<Selection>, used: Seq<Seq<char>>, found: Seq<usize>) -> (Seq<Seq<char>>, Seq<Seq<char>>, Seq<usize>)
    decreases frags.len() - found.len(), l,
{
    if l.len() == 0 {
        (Seq::empty(), used, found)
    } else {
        let r1 = list_selected(frags, l.drop_last(), used, found);
        if r1.2.len() < found.len() || r1.2.len() > frags.len() {
            r1
        } else {
            let r2 = sel_selected(frags, l.last(), r1.1, r1.2);
            (r1.0 + r2.0, r2.1, r2.2)
        }
    }
}

fn push_names(out: &mut Vec<Vec<char>>, f: &FieldSelection)
    ensures names(final(out)@) == names(old(out)@) + field_names(*f),
{
    let ghost before = names(out@);
    out.push(chars_of(f.name.as_str()));
    match &f.alias {
        Some(a) => { out.push(chars_of(a.as_str())); },
        None => {},
    }
    proof { assert(names(out@) =~= before + field_names(*f)); }
}

fn exec_sel_selected(frags: &[ExecutableDef], sel: &Selection, out: &mut Vec<Vec<char>>, used: &mut Vec<Vec<char>>, Ghost(found): Ghost<Seq<usize>>) -> (found2: Ghost<Seq<usize>>)
    requires walk_rel(frags@, names(old(used)@), found),
    ensures
        names(final(out)@) == names(old(out)@) + sel_selected(frags@, *sel, names(old(used)@), found).0,
        names(final(used)@) == sel_selected(frags@, *sel, names(old(used)@), found).1,
        found2@ == sel_selected(frags@, *sel, names(old(used)@), found).2,
        walk_rel(frags@, names(final(used)@), found2@),
        found.len() <= found2@.len() <= frags@.len(),
    decreases frags@.len() - found.len(), *sel, 1nat,
{
    proof { lemma_walk_len(found, frags@.len()); }
    match sel {
        Selection::Field(f) => {
            push_names(out, f);
            Ghost(found)
        },
        Selection::InlineFragment { selection_set: ss, .. } => exec_list_selected(frags, &ss.selections, out, used, Ghost(found)),
        Selection::FragmentSpread { name: n, .. } => {
            let nc = chars_of(n.as_str());
            if contains_name(used, &nc) {
                return Ghost(found);
            }
            let ghost u0 = names(used@);
            used.push(nc);
            proof { assert(names(used@) =~= u0.push(n@)); }
            match find_fragment(frags, &chars_of(n.as_str())) {
                Some(k) => {
                    proof {
                        lemma_frag_lookup(frags@, n@);
                        if found.contains(k) {
                            let i = choose|i: int| 0 <= i < found.len() && found[i] == k;
                            assert(named_in(frags@, u0, found[i]));
                            let m = choose|m: Seq<char>| u0.contains(m) && #[trigger] frag_lookup(frags@, m) == Some(found[i] as int);
                            lemma_frag_lookup(frags@, m);
                            assert(u0.contains(n@));
                            assert(false);
                        }
                        lemma_walk_room(found, frags@.len(), k);
                        assert(walk_ok(found.push(k), frags@.len()));
                        let f2 = found.push(k);
                        let u2 = u0.push(n@);
                        assert forall|i: int| 0 <= i < f2.len() implies #[trigger] named_in(frags@, u2, f2[i]) by {
                            if i < found.len() {
                                assert(named_in(frags@, u0, found[i]));
                                let m = choose|m: Seq<char>| u0.contains(m) && #[trigger] frag_lookup(frags@, m) == Some(found[i] as int);
                                let j = choose|j: int| 0 <= j < u0.len() && u0[j] == m;
                                assert(u2[j] == m);
                                assert(u2.contains(m));
                                assert(f2[i] == found[i]);
                            } else {
                                assert(f2[i] == k);
                                assert(u2[u0.len() as int] == n@);
                                assert(u2.contains(n@));
                            }
                        }
                        assert forall|m: Seq<char>| #[trigger] u2.contains(m) implies (frag_lookup(frags@, m) matches Some(j) ==> f2.contains(j as usize)) by {
                            if m == n@ {
                                assert(f2[found.len() as int] == k);
                            } else {
                                let i = choose|i: int| 0 <= i < u2.len() && u2[i] == m;
                                assert(u0[i] == m);
                                assert(u0.contains(m));
                                if let Some(j) = frag_lookup(frags@, m) {
                                    let q = choose|q: int| 0 <= q < found.len() && found[q] == j as usize;
                                    assert(f2[q] == j as usize);
                                }
                            }
                        }
                        assert(walk_ok(f2, frags@.len()));
                        assert(walk_rel(frags@, u2, f2));
                    }
                    exec_list_selected(frags, &frags[k].selection_set.selections, out, used, Ghost(found.push(k)))
                },
                None => {
                    proof {
                        let u2 = u0.push(n@);
                        assert forall|i: int| 0 <= i < found.len() implies #[trigger] named_in(frags@, u2, found[i]) by {
                            assert(named_in(frags@, u0, found[i]));
                            let m = choose|m: Seq<char>| u0.contains(m) && #[trigger] frag_lookup(frags@, m) == Some(found[i] as int);
                            let j = choose|j: int| 0 <= j < u0.len() && u0[j] == m;
                            assert(u2[j] == m);
                            assert(u2.contains(m));
                        }
                        assert forall|m: Seq<char>| #[trigger] u2.contains(m) implies (frag_lookup(frags@, m) matches Some(j) ==> found.contains(j as usize)) by {
                            if m != n@ {
                                let i = choose|i: int| 0 <= i < u2.len() && u2[i] == m;
                                assert(u0[i] == m);
                                assert(u0.contains(m));
                            }
                        }
                    }
                    Ghost(found)
                },
            }
        },
    }
}

proof fn lemma_walk_len(found: Seq<usize>, n: nat)
    requires walk_ok(found, n),
    ensures found.len() <= n,
    decreases found.len(),
{
    if found.len() > 0 {
        let d = found.drop_last();
        assert(walk_ok(d, n)) by {
            assert forall|i: int, j: int| 0 <= i < d.len() && 0 <= j < d.len() && i != j implies d[i] != d[j] by {
                assert(found[i] != found[j]);
            }
            assert forall|i: int| 0 <= i < d.len() implies (#[trigger] d[i]) < n by {
                assert(found[i] < n);
            }
        }
        assert(!d.contains(found.last())) by {
            if d.contains(found.last()) {
                let i = choose|i: int| 0 <= i < d.len() && d[i] == found.last();
                assert(found[i] == found[found.len() - 1]);
            }
        }
        lemma_walk_room(d, n, found.last());
    }
}

fn exec_list_selected(frags: &[ExecutableDef], l: &Vec<Selection>, out: &mut Vec<Vec<char>>, used: &mut Vec<Vec<char>>, Ghost(found): Ghost<Seq<usize>>) -> (found2: Ghost<Seq<usize>>)
    requires walk_rel(frags@, names(old(used)@), found),
    ensures
        names(final(out)@) == names(old(out)@) + list_selected(frags@, l@, names(old(used)@), found).0,
        names(final(used)@) == list_selected(frags@, l@, names(old(used)@), found).1,
        found2@ == list_selected(frags@, l@, names(old(used)@), found).2,
        walk_rel(frags@, names(final(used)@), found2@),
        found.len() <= found2@.len() <= frags@.len(),
    decreases frags@.len() - found.len(), l@, 2nat,
{
    proof { lemma_walk_len(found, frags@.len()); }
    let ghost out0 = names(out@);
    let ghost used0 = names(used@);
    let ghost mut cur = found;
    for i in 0..l.len()
        invariant
            names(old(used)@) == used0,
            walk_rel(frags@, used0, found),
            found.len() <= cur.len() <= frags@.len(),
            walk_rel(frags@, names(used@), cur),
            names(out@) == out0 + list_selected(frags@, l@.take(i as int), used0, found).0,
            names(used@) == list_selected(frags@, l@.take(i as int), used0, found).1,
            cur == list_selected(frags@, l@.take(i as int), used0, found).2,
    {
        proof {
            assert(l@.take(i + 1).drop_last() == l@.take(i as int));
            assert(l@.take(i + 1).last() == l@[i as int]);
        }
        let ghost o1 = names(out@);
        let Ghost(next) = exec_sel_selected(frags, &l[i], out, used, Ghost(cur));
        proof {
            assert(names(out@) =~= out0 + list_selected(frags@, l@.take(i + 1), used0, found).0);
            cur = next;
        }
    }
    proof { assert(l@.take(l@.len() as int) == l@); }
    Ghost(cur)
}

fn strings_of(v: &Vec<Vec<char>>) -> (r: Vec<String>)
    ensures views(r@) == names(v@),
{
    let mut r: Vec<String> = Vec::new();
    for i in 0..v.len()
        invariant views(r@) == names(v@.take(i as int)),
    {
        let ghost before = views(r@);
        r.push(string_of(&v[i]));
        proof {
            assert(views(r@) =~= before.push(v@[i as int]@));
            assert(names(v@.take(i + 1)) =~= names(v@.take(i as int)).push(v@[i as int]@));
        }
    }
    proof { assert(v@.take(v@.len() as int) == v@); }
    r
}

/// The names the selection set `ss` selects (field names and aliases,
/// through inline fragments and, once each, the fragments of `frags` it
/// spreads), and the fragments it spreads in the order first met.
pub fn selected_fields(frags: &[ExecutableDef], ss: &SelectionSet) -> (r: (Vec<String>, Vec<String>))
    ensures
        views(r.0@) == list_selected(frags@, ss.selections@, Seq::empty(), Seq::empty()).0,
        views(r.1@) == list_selected(frags@, ss.selections@, Seq::empty(), Seq::empty()).1,
{
    let mut selected: Vec<Vec<char>> = Vec::new();
    let mut used: Vec<Vec<char>> = Vec::new();
    proof {
        assert(names(used@) =~= Seq::<Seq<char>>::empty());
        assert(walk_rel(frags@, Seq::empty(), Seq::empty()));
    }
    let _ = exec_list_selected(frags, &ss.selections, &mut selected, &mut used, Ghost(Seq::empty()));
    proof { assert(names(selected@) =~= list_selected(frags@, ss.selections@, Seq::empty(), Seq::empty()).0); }
    (strings_of(&selected), strings_of(&used))
}

proof fn lemma_sel_walk_len(frags: Seq<ExecutableDef>, sel: Selection, used: Seq<Seq<char>>, found: Seq<usize>)
    requires found.len() <= frags.len(),
    ensures
        found.len() <= sel_selected(frags, sel, used, found).2.len() <= frags.len(),
    decreases frags.len() - found.len(), sel,
{
    match sel {
        Selection::Field(f) => {},
        Selection::InlineFragment { selection_set: ss, .. } => {
            lemma_list_walk_len(frags, ss.selections@, used, found);
        },
        Selection::FragmentSpread { name: n, .. } => {
            if !used.contains(n@) {
                match frag_lookup(frags, n@) {
                    Some(k) => if !(found.contains(k as usize) || found.len() >= frags.len()) {
                        lemma_list_walk_len(frags, frags[k].selection_set.selections@, used.push(n@), found.push(k as usize));
                    },
                    None => {},
                }
            }
        },
    }
}

proof fn lemma_list_walk_len(frags: Seq<ExecutableDef>, l: Seq<Selection>, used: Seq<Seq<char>>, found: Seq<usize>)
    requires found.len() <= frags.len(),
    ensures
        found.len() <= list_selected(frags, l, used, found).2.len() <= frags.len(),
    decreases frags.len() - found.len(), l,
{
    if l.len() > 0 {
        lemma_list_walk_len(frags, l.drop_last(), used, found);
        let r1 = list_selected(frags, l.drop_last(), used, found);
        lemma_sel_walk_len(frags, l.last(), r1.1, r1.2);
    }
}

proof fn lemma_list_selects_field(frags: Seq<ExecutableDef>, l: Seq<Selection>, used: Seq<Seq<char>>, found: Seq<usize>, i: int, f: FieldSelection)
    requires
        found.len() <= frags.len(),
        0 <= i < l.len(),
        l[i] == Selection::Field(f),
    ensures
        list_selected(frags, l, used, found).0.contains(f.name@),
        f.alias matches Some(a) ==> list_selected(frags, l, used, found).0.contains(a@),
    decreases l.len(),
{
    lemma_list_walk_len(frags, l.drop_last(), used, found);
    let r1 = list_selected(frags, l.drop_last(), used, found);
    let r2 = sel_selected(frags, l.last(), r1.1, r1.2);
    let r = list_selected(frags, l, used, found);
    assert(r.0 == r1.0 + r2.0);
    if i == l.len() - 1 {
        assert(r2.0 == field_names(f));
        assert(r.0[r1.0.len() as int] == f.name@);
        if let Some(a) = f.alias {
            assert(r.0[r1.0.len() as int + 1] == a@);
        }
    } else {
        assert(l.drop_last()[i] == l[i]);
        lemma_list_selects_field(frags, l.drop_last(), used, found, i, f);
        let k = choose|k: int| 0 <= k < r1.0.len() && r1.0[k] == f.name@;
        assert(r.0[k] == f.name@);
        if let Some(a) = f.alias {
            let k2 = choose|k: int| 0 <= k < r1.0.len() && r1.0[k] == a@;
            assert(r.0[k2] == a@);
        }
    }
}

/// A field selected directly in a selection set selects its own name,
/// whether or not it has an alias, and its alias too when it has one.
pub proof fn law_field_selects_its_own_name(frags: Seq<ExecutableDef>, ss: SelectionSet, i: int, f: FieldSelection)
    requires
        0 <= i < ss.selections@.len(),
        ss.selections@[i] == Selection::Field(f),
    ensures
        list_selected(frags, ss.selections@, Seq::empty(), Seq::empty()).0.contains(f.name@),
        f.alias matches Some(a) ==> list_selected(frags, ss.selections@, Seq::empty(), Seq::empty()).0.contains(a@),
{
    lemma_list_selects_field(frags, ss.selections@, Seq::empty(), Seq::empty(), i, f);
}

/// With the default options, a selection set that directly selects a field
/// available on its type, under an alias or not, gets no finding of its own.
pub proof fn law_available_field_selected_suffices(s: Schema, frags: Seq<ExecutableDef>, o: SelectionOptions, source: Seq<char>, ss: SelectionSet, start: usize, label: Seq<char>, in_frag: bool, i: int, f: FieldSelection)
    requires
        !o.require_all_fields,
        0 <= i < ss.selections@.len(),
        ss.selections@[i] == Selection::Field(f),
        available_names(s, frags, views(o.field_name@), ss).contains(f.name@),
    ensures missing_findings(s, frags, o, source, ss, start, label, in_frag) == Seq::<(Seq<char>, Span, Seq<(Seq<char>, Span, Seq<char>)>)>::empty(),
{
    law_field_selects_its_own_name(frags, ss, i, f);
    let av = available_names(s, frags, views(o.field_name@), ss);
    let k = choose|k: int| 0 <= k < av.len() && av[k] == f.name@;
    law_one_available_field_suffices(s, frags, o, source, ss, start, label, in_frag, k);
}

// ---------------------------------------------------------------------
// Which wanted fields a selection set's type offers.

/// The wanted names that the type `t` has a field for, in the order wanted.
pub open spec fn present_names(want: Seq<Seq<char>>, t: TypeDef) -> Seq<Seq<char>>
    decreases want.len(),
{
    if want.len() == 0 {
        Seq::empty()
    } else {
        let r = present_names(want.drop_last(), t);
        if field_index(t.fields@, want.last()) is Some { r.push(want.last()) } else { r }
    }
}

/// The wanted names that the type named `tn` offers: those it has a field
/// for if it is an object or interface type, else none.
pub open spec fn type_fields(s: Schema, want: Seq<Seq<char>>, tn: Seq<char>) -> Seq<Seq<char>> {
    match type_index(s.types@, tn) {
        Some(k) => if s.types@[k].kind == TypeKind::Object || s.types@[k].kind == TypeKind::Interface {
            present_names(want, s.types@[k])
        } else {
            Seq::empty()
        },
        None => Seq::empty(),
    }
}

/// `acc` followed by the names of `xs` it does not hold yet, each once.
pub open spec fn add_new(acc: Seq<Seq<char>>, xs: Seq<Seq<char>>) -> Seq<Seq<char>>
    decreases xs.len(),
{
    if xs.len() == 0 {
        acc
    } else {
        let a = add_new(acc, xs.drop_last());
        if a.contains(xs.last()) { a } else { a.push(xs.last()) }
    }
}

/// The type named `tn` is the union `u` or one of its members.
pub open spec fn in_union(u: TypeDef, tn: Seq<char>) -> bool {
    tn == u.name@ || exists|i: int| 0 <= i < u.members@.len() && #[trigger] u.members@[i]@ == tn
}

/// The type a selection of a union's selection set narrows to: the type
/// condition of an inline fragment, or the type of a spread fragment.
pub open spec fn narrowed_type(frags: Seq<ExecutableDef>, sel: Selection) -> Option<Seq<char>> {
    match sel {
        Selection::InlineFragment { type_condition: Some(c), .. } => Some(c@),
        Selection::FragmentSpread { name: n, .. } => match frag_lookup(frags, n@) {
            Some(k) => Some(frags[k].selection_set.ty@),
            None => None,
        },
        _ => None,
    }
}

/// The wanted names offered through the selections `l` of a selection set
/// on the union `u`, in the order met, each once.
pub open spec fn union_names(s: Schema, frags: Seq<ExecutableDef>, want: Seq<Seq<char>>, u: TypeDef, l: Seq<Selection>) -> Seq<Seq<char>>
    decreases l.len(),
{
    if l.len() == 0 {
        Seq::empty()
    } else {
        let acc = union_names(s, frags, want, u, l.drop_last());
        match narrowed_type(frags, l.last()) {
            Some(t) => if in_union(u, t) { add_new(acc, type_fields(s, want, t)) } else { acc },
            None => acc,
        }
    }
}

/// The wanted names available in a selection set: by its type's fields
/// for an object or interface, through its narrowing selections for a
/// union, none otherwise.
pub open spec fn available_names(s: Schema, frags: Seq<ExecutableDef>, want: Seq<Seq<char>>, ss: SelectionSet) -> Seq<Seq<char>> {
    match type_index(s.types@, ss.ty@) {
        Some(k) => {
            let t = s.types@[k];
            if t.kind == TypeKind::Object || t.kind == TypeKind::Interface {
                present_names(want, t)
            } else if t.kind == TypeKind::Union {
                union_names(s, frags, want, t, ss.selections@)
            } else {
                Seq::empty()
            }
        },
        None => Seq::empty(),
    }
}

fn exec_present_names(want: &Vec<String>, t: &TypeDef) -> (r: Vec<Vec<char>>)
    ensures names(r@) == present_names(views(want@), *t),
{
    let ghost w = views(want@);
    let mut r: Vec<Vec<char>> = Vec::new();
    for i in 0..want.len()
        invariant
            w == views(want@),
            names(r@) == present_names(w.take(i as int), *t),
    {
        proof {
            assert(w.take(i + 1).drop_last() == w.take(i as int));
            assert(w.take(i + 1).last() == want@[i as int]@);
        }
        let ghost before = names(r@);
        if find_field(&t.fields, want[i].as_str()).is_some() {
            r.push(chars_of(want[i].as_str()));
            proof { assert(names(r@) =~= before.push(want@[i as int]@)); }
        }
    }
    proof { assert(w.take(want@.len() as int) == w); }
    r
}

fn exec_type_fields(s: &Schema, want: &Vec<String>, tn: &str) -> (r: Vec<Vec<char>>)
    ensures names(r@) == type_fields(*s, views(want@), tn@),
{
    match find_type(&s.types, tn) {
        Some(k) => {
            if s.types[k].kind == TypeKind::Object || s.types[k].kind == TypeKind::Interface {
                exec_present_names(want, &s.types[k])
            } else {
                let r: Vec<Vec<char>> = Vec::new();
                proof { assert(names(r@) =~= Seq::<Seq<char>>::empty()); }
                r
            }
        },
        None => {
            let r: Vec<Vec<char>> = Vec::new();
            proof { assert(names(r@) =~= Seq::<Seq<char>>::empty()); }
            r
        },
    }
}

fn exec_add_new(acc: &mut Vec<Vec<char>>, xs: &Vec<Vec<char>>)
    ensures names(final(acc)@) == add_new(names(old(acc)@), names(xs@)),
{
    let ghost a0 = names(acc@);
    let ghost x = names(xs@);
    for i in 0..xs.len()
        invariant
            x == names(xs@),
            names(acc@) == add_new(a0, x.take(i as int)),
    {
        proof {
            assert(x.take(i + 1).drop_last() == x.take(i as int));
            assert(x.take(i + 1).last() == xs@[i as int]@);
        }
        let ghost before = names(acc@);
        if !contains_name(acc, &xs[i]) {
            let c = crate::text::sub_chars(&xs[i], 0, xs[i].len());
            proof { assert(c@ =~= xs@[i as int]@); }
            acc.push(c);
            proof { assert(names(acc@) =~= before.push(xs@[i as int]@)); }
        }
    }
    proof { assert(x.take(xs@.len() as int) == x); }
}

fn exec_in_union(u: &TypeDef, tn: &Vec<char>) -> (r: bool)
    ensures r == in_union(*u, tn@),
{
    if chars_eq(&chars_of(u.name.as_str()), tn) {
        return true;
    }
    for i in 0..u.members.len()
        invariant forall|j: int| 0 <= j < i ==> #[trigger] u.members@[j]@ != tn@,
    {
        if chars_eq(&chars_of(u.members[i].as_str()), tn) {
            return true;
        }
    }
    false
}

fn exec_narrowed_type(frags: &[ExecutableDef], sel: &Selection) -> (r: Option<Vec<char>>)
    ensures
        match r {
            Some(t) => narrowed_type(frags@, *sel) == Some(t@),
            None => narrowed_type(frags@, *sel) is None,
        },
{
    match sel {
        Selection::InlineFragment { type_condition: Some(c), .. } => Some(chars_of(c.as_str())),
        Selection::FragmentSpread { name: n, .. } => match find_fragment(frags, &chars_of(n.as_str())) {
            Some(k) => Some(chars_of(frags[k].selection_set.ty.as_str())),
            None => None,
        },
        _ => None,
    }
}

fn exec_available(s: &Schema, frags: &[ExecutableDef], want: &Vec<String>, ss: &SelectionSet) -> (r: Vec<Vec<char>>)
    ensures names(r@) == available_names(*s, frags@, views(want@), *ss),
{
    let ghost w = views(want@);
    let mut r: Vec<Vec<char>> = Vec::new();
    match find_type(&s.types, ss.ty.as_str()) {
        Some(k) => {
            let t = &s.types[k];
            if t.kind == TypeKind::Object || t.kind == TypeKind::Interface {
                return exec_present_names(want, t);
            } else if t.kind == TypeKind::Union {
                let l = &ss.selections;
                for i in 0..l.len()
                    invariant
                        w == views(want@),
                        type_index(s.types@, ss.ty@) == Some(k as int),
                        k < s.types@.len(),
                        *t == s.types@[k as int],
                        *l == ss.selections,
                        names(r@) == union_names(*s, frags@, w, *t, l@.take(i as int)),
                {
                    proof {
                        assert(l@.take(i + 1).drop_last() == l@.take(i as int));
                        assert(l@.take(i + 1).last() == l@[i as int]);
                    }
                    match exec_narrowed_type(frags, &l[i]) {
                        Some(tn) => {
                            if exec_in_union(t, &tn) {
                                let fs = exec_type_fields(s, want, string_of(&tn).as_str());
                                exec_add_new(&mut r, &fs);
                            }
                        },
                        None => {},
                    }
                }
                proof { assert(l@.take(l@.len() as int) == l@); }
            }
        },
        None => {},
    }
    proof {
        if type_index(s.types@, ss.ty@) is None {
            assert(names(r@) =~= Seq::<Seq<char>>::empty());
        } else {
            let t = s.types@[type_index(s.types@, ss.ty@).unwrap()];
            if t.kind != TypeKind::Union {
                assert(names(r@) =~= Seq::<Seq<char>>::empty());
            }
        }
    }
    r
}

/// Items joined as an English list with "or": `a`, `a or b`,
/// `a, b, or c`.
pub open spec fn spec_english_join(items: Seq<Seq<char>>) -> Seq<char> {
    if items.len() == 0 {
        Seq::empty()
    } else if items.len() == 1 {
        items[0]
    } else if items.len() == 2 {
        items[0] + " or "@ + items[1]
    } else {
        join(items.drop_last(), ", "@) + ", or "@ + items.last()
    }
}

/// `items` joined as an English list with "or".
pub fn english_join(items: &[String]) -> (r: String)
    ensures r@ == spec_english_join(views(items@)),
{
    let ghost v = views(items@);
    let n = items.len();
    if n == 0 {
        return String::new();
    }
    if n == 1 {
        return items[0].clone();
    }
    let mut out: Vec<char> = Vec::new();
    if n == 2 {
        push_str(&mut out, items[0].as_str());
        push_str(&mut out, " or ");
        push_str(&mut out, items[1].as_str());
        return string_of(&out);
    }
    push_str(&mut out, items[0].as_str());
    proof { assert(v.take(1).len() == 1); }
    for i in 1..n - 1
        invariant
            n == items@.len(),
            n > 2,
            v == views(items@),
            out@ == join(v.take(i as int), ", "@),
    {
        push_str(&mut out, ", ");
        push_str(&mut out, items[i].as_str());
        proof {
            assert(v.take(i + 1).drop_last() == v.take(i as int));
            assert(v.take(i + 1).last() == v[i as int]);
        }
    }
    push_str(&mut out, ", or ");
    push_str(&mut out, items[n - 1].as_str());
    proof { assert(v.take(n - 1) == v.drop_last()); }
    string_of(&out)
}


// ---------------------------------------------------------------------
// Where and what to report.

/// The names of `av` not among `sel`, in order.
pub open spec fn missing_names(av: Seq<Seq<char>>, sel: Seq<Seq<char>>) -> Seq<Seq<char>>
    decreases av.len(),
{
    if av.len() == 0 {
        Seq::empty()
    } else {
        let r = missing_names(av.drop_last(), sel);
        if sel.contains(av.last()) { r } else { r.push(av.last()) }
    }
}

/// Where the scan for the opening brace of a selection set stands: in
/// plain text, a comment, a string or a block string.
pub enum ScanMode {
    Code,
    Comment,
    Text,
    BlockText,
}

/// Three double quotes start at `i`.
pub open spec fn triple_quote_at(s: Seq<char>, i: int) -> bool {
    i + 3 <= s.len() && s[i] == '"' && s[i + 1] == '"' && s[i + 2] == '"'
}

/// The first `{` at or after `i` that is outside comments and strings,
/// scanning in the mode `mode`.
pub open spec fn scan_brace(s: Seq<char>, i: int, mode: ScanMode) -> Option<int>
    decreases s.len() - i,
{
    if i < 0 || i >= s.len() {
        None
    } else {
        match mode {
            ScanMode::Code => if s[i] == '#' {
                scan_brace(s, i + 1, ScanMode::Comment)
            } else if s[i] == '"' {
                if triple_quote_at(s, i) {
                    scan_brace(s, i + 3, ScanMode::BlockText)
                } else {
                    scan_brace(s, i + 1, ScanMode::Text)
                }
            } else if s[i] == '{' {
                Some(i)
            } else {
                scan_brace(s, i + 1, ScanMode::Code)
            },
            ScanMode::Comment => if s[i] == '\n' {
                scan_brace(s, i + 1, ScanMode::Code)
            } else {
                scan_brace(s, i + 1, ScanMode::Comment)
            },
            ScanMode::Text => if s[i] == '"' && !(i > 0 && s[i - 1] == '\\') {
                scan_brace(s, i + 1, ScanMode::Code)
            } else {
                scan_brace(s, i + 1, ScanMode::Text)
            },
            ScanMode::BlockText => if i + 2 < s.len() {
                if triple_quote_at(s, i) {
                    scan_brace(s, i + 3, ScanMode::Code)
                } else {
                    scan_brace(s, i + 1, ScanMode::BlockText)
                }
            } else {
                None
            },
        }
    }
}

/// Where a finding for a selection set anchored at `start` is reported:
/// at the first brace from there, else at `start`.
pub open spec fn report_at(source: Seq<char>, start: usize) -> Span {
    let i = if start < source.len() { start as int } else { source.len() as int };
    Span {
        offset: match scan_brace(source, i, ScanMode::Code) {
            Some(j) => j as usize,
            None => start,
        },
        len: 0,
    }
}

/// The offset of the first selection of a selection set, looking into an
/// inline fragment that comes first.
pub open spec fn first_offset(ss: SelectionSet) -> Option<usize>
    decreases ss,
{
    if ss.selections@.len() == 0 {
        None
    } else {
        match ss.selections@[0] {
            Selection::Field(f) => f.offset,
            Selection::FragmentSpread { offset: o, .. } => o,
            Selection::InlineFragment { selection_set: inner, .. } => first_offset(inner),
        }
    }
}

/// Each name of `g` as `` `label.name` ``.
pub open spec fn ticked_fields(g: Seq<Seq<char>>, label: Seq<char>) -> Seq<Seq<char>>
    decreases g.len(),
{
    if g.len() == 0 {
        Seq::empty()
    } else {
        ticked_fields(g.drop_last(), label).push("`"@ + label + "."@ + g.last() + "`"@)
    }
}

/// Each name of `g` in backticks.
pub open spec fn ticked(g: Seq<Seq<char>>) -> Seq<Seq<char>>
    decreases g.len(),
{
    if g.len() == 0 {
        Seq::empty()
    } else {
        ticked(g.drop_last()).push("`"@ + g.last() + "`"@)
    }
}

/// The hint that names the fragments spread in the selection set.
pub open spec fn fragment_hint(used: Seq<Seq<char>>) -> Seq<char> {
    if used.len() == 0 {
        Seq::empty()
    } else {
        " or add to used fragment"@ + (if used.len() > 1 { "s"@ } else { Seq::empty() }) + " "@ + spec_english_join(ticked(used))
    }
}

/// The message for the wanted fields `g` missing under the label `label`.
pub open spec fn missing_message(g: Seq<Seq<char>>, label: Seq<char>, used: Seq<Seq<char>>) -> Seq<char> {
    "Field"@ + (if g.len() > 1 { "s"@ } else { Seq::empty() }) + " "@ + spec_english_join(ticked_fields(g, label))
        + " must be selected when it's available on a type.\nInclude it in your selection set"@ + fragment_hint(used) + "."@
}

/// The suggestions to insert each name of `g` at `off`, if there is one.
pub open spec fn add_suggestions(g: Seq<Seq<char>>, off: Option<usize>) -> Seq<(Seq<char>, Span, Seq<char>)>
    decreases g.len(),
{
    match off {
        None => Seq::empty(),
        Some(o) => if g.len() == 0 {
            Seq::empty()
        } else {
            add_suggestions(g.drop_last(), off).push(("Add `"@ + g.last() + "` selection"@, Span { offset: o, len: 0 }, g.last() + " "@))
        },
    }
}

/// The finding for the group of missing names `g`.
pub open spec fn group_diag(g: Seq<Seq<char>>, label: Seq<char>, used: Seq<Seq<char>>, at: Span, off: Option<usize>) -> (Seq<char>, Span, Seq<(Seq<char>, Span, Seq<char>)>) {
    (missing_message(g, label, used), at, add_suggestions(g, off))
}

/// One finding for each missing name.
pub open spec fn each_diags(miss: Seq<Seq<char>>, label: Seq<char>, used: Seq<Seq<char>>, at: Span, off: Option<usize>) -> Seq<(Seq<char>, Span, Seq<(Seq<char>, Span, Seq<char>)>)>
    decreases miss.len(),
{
    if miss.len() == 0 {
        Seq::empty()
    } else {
        each_diags(miss.drop_last(), label, used, at, off).push(group_diag(seq![miss.last()], label, used, at, off))
    }
}

/// The findings for the selection set `ss` anchored at `start` under the
/// label `label`: nothing if no wanted field is available, or if the
/// selection already has what the options ask for; else one finding for
/// all the available fields, or one per missing field when every one is
/// required. Suggestions are offered outside fragments.
pub open spec fn missing_findings(s: Schema, frags: Seq<ExecutableDef>, o: SelectionOptions, source: Seq<char>, ss: SelectionSet, start: usize, label: Seq<char>, in_frag: bool) -> Seq<(Seq<char>, Span, Seq<(Seq<char>, Span, Seq<char>)>)> {
    let av = available_names(s, frags, views(o.field_name@), ss);
    let w = list_selected(frags, ss.selections@, Seq::empty(), Seq::empty());
    let miss = missing_names(av, w.0);
    let off = if in_frag { None } else { first_offset(ss) };
    let at = report_at(source, start);
    if av.len() == 0 || miss.len() == 0 || (!o.require_all_fields && miss.len() < av.len()) {
        Seq::empty()
    } else if o.require_all_fields {
        each_diags(miss, label, w.1, at, off)
    } else {
        seq![group_diag(av, label, w.1, at, off)]
    }
}

proof fn lemma_missing_shorter(av: Seq<Seq<char>>, sel: Seq<Seq<char>>, i: int)
    requires 0 <= i < av.len(), sel.contains(av[i]),
    ensures missing_names(av, sel).len() < av.len(),
    decreases av.len(),
{
    lemma_missing_len(av.drop_last(), sel);
    if i < av.len() - 1 {
        assert(av.drop_last()[i] == av[i]);
        lemma_missing_shorter(av.drop_last(), sel, i);
    }
}

proof fn lemma_missing_len(av: Seq<Seq<char>>, sel: Seq<Seq<char>>)
    ensures missing_names(av, sel).len() <= av.len(),
    decreases av.len(),
{
    if av.len() > 0 {
        lemma_missing_len(av.drop_last(), sel);
    }
}

/// With the default options, one selected field among those available
/// satisfies the rule: the selection set gets no finding of its own.
pub proof fn law_one_available_field_suffices(s: Schema, frags: Seq<ExecutableDef>, o: SelectionOptions, source: Seq<char>, ss: SelectionSet, start: usize, label: Seq<char>, in_frag: bool, i: int)
    requires
        !o.require_all_fields,
        0 <= i < available_names(s, frags, views(o.field_name@), ss).len(),
        list_selected(frags, ss.selections@, Seq::empty(), Seq::empty()).0.contains(available_names(s, frags, views(o.field_name@), ss)[i]),
    ensures missing_findings(s, frags, o, source, ss, start, label, in_frag) == Seq::<(Seq<char>, Span, Seq<(Seq<char>, Span, Seq<char>)>)>::empty(),
{
    let av = available_names(s, frags, views(o.field_name@), ss);
    let w = list_selected(frags, ss.selections@, Seq::empty(), Seq::empty());
    lemma_missing_shorter(av, w.0, i);
}

/// The label of a field selection: its alias, else its name.
pub open spec fn field_label(f: FieldSelection) -> Seq<char> {
    match f.alias {
        Some(a) => a@,
        None => f.name@,
    }
}

/// The findings in a selection set: its own, when it is checked and has
/// an anchor, then those in its selections. A field with selections and an
/// offset is checked under its own anchor; an inline fragment is not
/// checked itself, nor is what it holds counted as in a fragment.
pub open spec fn set_findings(s: Schema, frags: Seq<ExecutableDef>, o: SelectionOptions, source: Seq<char>, ss: SelectionSet, anchor: Option<(usize, Seq<char>, bool)>, check: bool) -> Seq<(Seq<char>, Span, Seq<(Seq<char>, Span, Seq<char>)>)>
    decreases ss,
{
    let own = match anchor {
        Some(a) => if check { missing_findings(s, frags, o, source, ss, a.0, a.1, a.2) } else { Seq::empty() },
        None => Seq::empty(),
    };
    own + sels_findings(s, frags, o, source, ss.selections@, anchor matches Some(a) && a.2)
}

/// The findings in a list of selections, in order.
pub open spec fn sels_findings(s: Schema, frags: Seq<ExecutableDef>, o: SelectionOptions, source: Seq<char>, l: Seq<Selection>, in_frag: bool) -> Seq<(Seq<char>, Span, Seq<(Seq<char>, Span, Seq<char>)>)>
    decreases l,
{
    if l.len() == 0 {
        Seq::empty()
    } else {
        sels_findings(s, frags, o, source, l.drop_last(), in_frag) + sel_findings(s, frags, o, source, l.last(), in_frag)
    }
}

/// The findings in one selection.
pub open spec fn sel_findings(s: Schema, frags: Seq<ExecutableDef>, o: SelectionOptions, source: Seq<char>, sel: Selection, in_frag: bool) -> Seq<(Seq<char>, Span, Seq<(Seq<char>, Span, Seq<char>)>)>
    decreases sel,
{
    match sel {
        Selection::Field(f) => if f.selection_set.selections@.len() > 0 && f.offset is Some {
            set_findings(s, frags, o, source, f.selection_set, Some((f.offset.unwrap(), field_label(f), in_frag)), true)
        } else {
            Seq::empty()
        },
        Selection::InlineFragment { selection_set: inner, .. } => set_findings(s, frags, o, source, inner, None, false),
        Selection::FragmentSpread { .. } => Seq::empty(),
    }
}

/// The findings in the operations of the file `file` among the first `n`.
pub open spec fn op_findings(s: Schema, frags: Seq<ExecutableDef>, o: SelectionOptions, source: Seq<char>, file: Seq<char>, ops: Seq<ExecutableDef>, n: int) -> Seq<(Seq<char>, Span, Seq<(Seq<char>, Span, Seq<char>)>)>
    decreases n,
{
    if n <= 0 {
        Seq::empty()
    } else {
        op_findings(s, frags, o, source, file, ops, n - 1) + (if ops[n - 1].file@ == file {
            set_findings(s, frags, o, source, ops[n - 1].selection_set, None, false)
        } else {
            Seq::empty()
        })
    }
}

/// The findings in the fragments of the file `file` among the first `n`,
/// each checked under its own name from its own start.
pub open spec fn frag_findings(s: Schema, frags: Seq<ExecutableDef>, o: SelectionOptions, source: Seq<char>, file: Seq<char>, n: int) -> Seq<(Seq<char>, Span, Seq<(Seq<char>, Span, Seq<char>)>)>
    decreases n,
{
    if n <= 0 {
        Seq::empty()
    } else {
        let d = frags[n - 1];
        let label = match d.name { Some(x) => x@, None => Seq::empty() };
        frag_findings(s, frags, o, source, file, n - 1) + (if d.file@ == file {
            set_findings(s, frags, o, source, d.selection_set, Some((d.span.offset, label, true)), true)
        } else {
            Seq::empty()
        })
    }
}

fn exec_missing_names(av: &Vec<Vec<char>>, sel: &Vec<Vec<char>>) -> (r: Vec<Vec<char>>)
    ensures names(r@) == missing_names(names(av@), names(sel@)),
{
    let ghost a = names(av@);
    let mut r: Vec<Vec<char>> = Vec::new();
    for i in 0..av.len()
        invariant
            a == names(av@),
            names(r@) == missing_names(a.take(i as int), names(sel@)),
    {
        proof {
            assert(a.take(i + 1).drop_last() == a.take(i as int));
            assert(a.take(i + 1).last() == av@[i as int]@);
        }
        let ghost before = names(r@);
        if !contains_name(sel, &av[i]) {
            let c = crate::text::sub_chars(&av[i], 0, av[i].len());
            proof { assert(c@ =~= av@[i as int]@); }
            r.push(c);
            proof { assert(names(r@) =~= before.push(av@[i as int]@)); }
        }
    }
    proof { assert(a.take(av@.len() as int) == a); }
    r
}

fn exec_scan_brace(s: &Vec<char>, start: usize) -> (r: Option<usize>)
    ensures
        match r {
            Some(j) => scan_brace(s@, (if start < s@.len() { start as int } else { s@.len() as int }), ScanMode::Code) == Some(j as int),
            None => scan_brace(s@, (if start < s@.len() { start as int } else { s@.len() as int }), ScanMode::Code) is None,
        },
{
    let n = s.len();
    let mut i: usize = if start < n { start } else { n };
    let ghost i0 = i as int;
    let mut mode = ScanMode::Code;
    while i < n
        invariant
            n == s@.len(),
            i <= n,
            i0 == (if start < s@.len() { start as int } else { s@.len() as int }),
            scan_brace(s@, i0, ScanMode::Code) == scan_brace(s@, i as int, mode),
        decreases n - i,
    {
        let c = s[i];
        match mode {
            ScanMode::Code => {
                if c == '#' {
                    mode = ScanMode::Comment;
                    i = i + 1;
                } else if c == '"' {
                    if n - i >= 3 && s[i + 1] == '"' && s[i + 2] == '"' {
                        mode = ScanMode::BlockText;
                        i = i + 3;
                    } else {
                        mode = ScanMode::Text;
                        i = i + 1;
                    }
                } else if c == '{' {
                    proof { assert(scan_brace(s@, i as int, mode) == Some(i as int)); }
                    return Some(i);
                } else {
                    i = i + 1;
                }
            },
            ScanMode::Comment => {
                if c == '\n' {
                    mode = ScanMode::Code;
                }
                i = i + 1;
            },
            ScanMode::Text => {
                if c == '"' && !(i > 0 && s[i - 1] == '\\') {
                    mode = ScanMode::Code;
                }
                i = i + 1;
            },
            ScanMode::BlockText => {
                if n - i > 2 {
                    if s[i] == '"' && s[i + 1] == '"' && s[i + 2] == '"' {
                        mode = ScanMode::Code;
                        i = i + 3;
                    } else {
                        i = i + 1;
                    }
                } else {
                    return None;
                }
            },
        }
    }
    None
}

fn exec_first_offset(ss: &SelectionSet) -> (r: Option<usize>)
    ensures r == first_offset(*ss),
    decreases *ss,
{
    if ss.selections.len() == 0 {
        None
    } else {
        match &ss.selections[0] {
            Selection::Field(f) => f.offset,
            Selection::FragmentSpread { offset: o, .. } => *o,
            Selection::InlineFragment { selection_set: inner, .. } => exec_first_offset(inner),
        }
    }
}

fn exec_ticked_fields(g: &Vec<Vec<char>>, label: &Vec<char>) -> (r: Vec<String>)
    ensures views(r@) == ticked_fields(names(g@), label@),
{
    let ghost gn = names(g@);
    let mut r: Vec<String> = Vec::new();
    for i in 0..g.len()
        invariant
            gn == names(g@),
            views(r@) == ticked_fields(gn.take(i as int), label@),
    {
        proof {
            assert(gn.take(i + 1).drop_last() == gn.take(i as int));
            assert(gn.take(i + 1).last() == g@[i as int]@);
        }
        let mut t: Vec<char> = Vec::new();
        push_str(&mut t, "`");
        push_all(&mut t, label);
        push_str(&mut t, ".");
        push_all(&mut t, &g[i]);
        push_str(&mut t, "`");
        let ghost before = views(r@);
        let ts = string_of(&t);
        r.push(ts);
        proof { assert(views(r@) =~= before.push("`"@ + label@ + "."@ + g@[i as int]@ + "`"@)); }
    }
    proof { assert(gn.take(g@.len() as int) == gn); }
    r
}

fn exec_ticked(g: &Vec<Vec<char>>) -> (r: Vec<String>)
    ensures views(r@) == ticked(names(g@)),
{
    let ghost gn = names(g@);
    let mut r: Vec<String> = Vec::new();
    for i in 0..g.len()
        invariant
            gn == names(g@),
            views(r@) == ticked(gn.take(i as int)),
    {
        proof {
            assert(gn.take(i + 1).drop_last() == gn.take(i as int));
            assert(gn.take(i + 1).last() == g@[i as int]@);
        }
        let mut t: Vec<char> = Vec::new();
        push_str(&mut t, "`");
        push_all(&mut t, &g[i]);
        push_str(&mut t, "`");
        let ghost before = views(r@);
        let ts = string_of(&t);
        r.push(ts);
        proof { assert(views(r@) =~= before.push("`"@ + g@[i as int]@ + "`"@)); }
    }
    proof { assert(gn.take(g@.len() as int) == gn); }
    r
}

fn exec_missing_message(g: &Vec<Vec<char>>, label: &Vec<char>, used: &Vec<Vec<char>>) -> (r: Vec<char>)
    ensures r@ == missing_message(names(g@), label@, names(used@)),
{
    let mut m: Vec<char> = Vec::new();
    push_str(&mut m, "Field");
    if g.len() > 1 {
        push_str(&mut m, "s");
    }
    push_str(&mut m, " ");
    let fields = english_join(exec_ticked_fields(g, label).as_slice());
    push_str(&mut m, fields.as_str());
    push_str(&mut m, " must be selected when it's available on a type.\nInclude it in your selection set");
    let ghost head = m@;
    if used.len() > 0 {
        push_str(&mut m, " or add to used fragment");
        if used.len() > 1 {
            push_str(&mut m, "s");
        }
        push_str(&mut m, " ");
        let frs = english_join(exec_ticked(used).as_slice());
        push_str(&mut m, frs.as_str());
    }
    proof {
        let un = names(used@);
        if un.len() > 0 {
            assert(m@ =~= head + fragment_hint(un));
        } else {
            assert(m@ =~= head + fragment_hint(un));
        }
    }
    push_str(&mut m, ".");
    proof {
        let gn = names(g@);
        assert(m@ =~= missing_message(gn, label@, names(used@)));
    }
    m
}

fn exec_add_suggestions(g: &Vec<Vec<char>>, off: Option<usize>) -> (r: Vec<Suggestion>)
    ensures r@.map_values(|x: Suggestion| sugg_view(x)) == add_suggestions(names(g@), off),
{
    let ghost gn = names(g@);
    let mut r: Vec<Suggestion> = Vec::new();
    match off {
        None => {
            proof { assert(r@.map_values(|x: Suggestion| sugg_view(x)) =~= add_suggestions(gn, off)); }
            r
        },
        Some(o) => {
            for i in 0..g.len()
                invariant
                    gn == names(g@),
                    off == Some(o),
                    r@.map_values(|x: Suggestion| sugg_view(x)) == add_suggestions(gn.take(i as int), off),
            {
                proof {
                    assert(gn.take(i + 1).drop_last() == gn.take(i as int));
                    assert(gn.take(i + 1).last() == g@[i as int]@);
                }
                let mut d: Vec<char> = Vec::new();
                push_str(&mut d, "Add `");
                push_all(&mut d, &g[i]);
                push_str(&mut d, "` selection");
                let mut t = crate::text::sub_chars(&g[i], 0, g[i].len());
                push_str(&mut t, " ");
                let ghost before = r@.map_values(|x: Suggestion| sugg_view(x));
                let sg = suggestion(&d, Span::new(o, 0), &t);
                r.push(sg);
                proof {
                    assert(t@ =~= g@[i as int]@ + " "@);
                    assert(r@.map_values(|x: Suggestion| sugg_view(x)) =~= before.push(
                        ("Add `"@ + g@[i as int]@ + "` selection"@, Span { offset: o, len: 0 }, g@[i as int]@ + " "@)));
                }
            }
            proof { assert(gn.take(g@.len() as int) == gn); }
            r
        },
    }
}

fn push_group(out: &mut Vec<Diagnostic>, g: &Vec<Vec<char>>, label: &Vec<char>, used: &Vec<Vec<char>>, at: Span, off: Option<usize>)
    ensures diag_views(final(out)@) == diag_views(old(out)@).push(group_diag(names(g@), label@, names(used@), at, off)),
{
    let m = exec_missing_message(g, label, used);
    let sg = exec_add_suggestions(g, off);
    push_diag_with(out, &m, at, sg);
}

fn exec_missing_findings(s: &Schema, frags: &[ExecutableDef], o: &SelectionOptions, source: &Vec<char>, ss: &SelectionSet, start: usize, label: &Vec<char>, in_frag: bool, out: &mut Vec<Diagnostic>)
    ensures diag_views(final(out)@) == diag_views(old(out)@) + missing_findings(*s, frags@, *o, source@, *ss, start, label@, in_frag),
{
    let ghost before = diag_views(out@);
    let av = exec_available(s, frags, &o.field_name, ss);
    if av.len() == 0 {
        proof { assert(diag_views(out@) =~= before + missing_findings(*s, frags@, *o, source@, *ss, start, label@, in_frag)); }
        return;
    }
    let mut selected: Vec<Vec<char>> = Vec::new();
    let mut used: Vec<Vec<char>> = Vec::new();
    proof {
        assert(names(used@) =~= Seq::<Seq<char>>::empty());
        assert(walk_rel(frags@, Seq::empty(), Seq::empty()));
    }
    let _ = exec_list_selected(frags, &ss.selections, &mut selected, &mut used, Ghost(Seq::empty()));
    proof { assert(names(selected@) =~= list_selected(frags@, ss.selections@, Seq::empty(), Seq::empty()).0); }
    let miss = exec_missing_names(&av, &selected);
    if miss.len() == 0 || (!o.require_all_fields && miss.len() < av.len()) {
        proof { assert(diag_views(out@) =~= before + missing_findings(*s, frags@, *o, source@, *ss, start, label@, in_frag)); }
        return;
    }
    let off = if in_frag { None } else { exec_first_offset(ss) };
    let at = Span::new(match exec_scan_brace(source, start) { Some(j) => j, None => start }, 0);
    if o.require_all_fields {
        let ghost mn = names(miss@);
        for i in 0..miss.len()
            invariant
                mn == names(miss@),
                diag_views(out@) == before + each_diags(mn.take(i as int), label@, names(used@), at, off),
        {
            proof {
                assert(mn.take(i + 1).drop_last() == mn.take(i as int));
                assert(mn.take(i + 1).last() == miss@[i as int]@);
            }
            let c = crate::text::sub_chars(&miss[i], 0, miss[i].len());
            proof { assert(c@ =~= miss@[i as int]@); }
            let one = vec![c];
            proof { assert(names(one@) =~= seq![miss@[i as int]@]); }
            push_group(out, &one, label, &used, at, off);
        }
        proof { assert(mn.take(miss@.len() as int) == mn); }
    } else {
        push_group(out, &av, label, &used, at, off);
        proof { assert(diag_views(out@) =~= before + seq![group_diag(names(av@), label@, names(used@), at, off)]); }
    }
}

fn exec_set_findings(s: &Schema, frags: &[ExecutableDef], o: &SelectionOptions, source: &Vec<char>, ss: &SelectionSet, anchor: Option<(usize, &Vec<char>, bool)>, check: bool, out: &mut Vec<Diagnostic>)
    ensures
        diag_views(final(out)@) == diag_views(old(out)@) + set_findings(*s, frags@, *o, source@, *ss,
            (match anchor { Some(a) => Some((a.0, a.1@, a.2)), None => None }), check),
    decreases *ss, 2nat,
{
    let ghost before = diag_views(out@);
    let ghost sa = match anchor { Some(a) => Some((a.0, a.1@, a.2)), None => None };
    let mut in_frag = false;
    match anchor {
        Some(a) => {
            if check {
                exec_missing_findings(s, frags, o, source, ss, a.0, a.1, a.2, out);
            }
            in_frag = a.2;
        },
        None => {},
    }
    let ghost mid = diag_views(out@);
    exec_sels_findings(s, frags, o, source, &ss.selections, in_frag, out);
    proof {
        assert(in_frag == (sa matches Some(a) && a.2));
        assert(diag_views(out@) =~= before + set_findings(*s, frags@, *o, source@, *ss, sa, check));
    }
}

fn exec_sels_findings(s: &Schema, frags: &[ExecutableDef], o: &SelectionOptions, source: &Vec<char>, l: &Vec<Selection>, in_frag: bool, out: &mut Vec<Diagnostic>)
    ensures diag_views(final(out)@) == diag_views(old(out)@) + sels_findings(*s, frags@, *o, source@, l@, in_frag),
    decreases l@, 1nat,
{
    let ghost before = diag_views(out@);
    for i in 0..l.len()
        invariant diag_views(out@) == before + sels_findings(*s, frags@, *o, source@, l@.take(i as int), in_frag),
    {
        proof {
            assert(l@.take(i + 1).drop_last() == l@.take(i as int));
            assert(l@.take(i + 1).last() == l@[i as int]);
        }
        let ghost mid = diag_views(out@);
        exec_sel_findings(s, frags, o, source, &l[i], in_frag, out);
        proof { assert(diag_views(out@) =~= before + sels_findings(*s, frags@, *o, source@, l@.take(i + 1), in_frag)); }
    }
    proof { assert(l@.take(l@.len() as int) == l@); }
}

fn exec_sel_findings(s: &Schema, frags: &[ExecutableDef], o: &SelectionOptions, source: &Vec<char>, sel: &Selection, in_frag: bool, out: &mut Vec<Diagnostic>)
    ensures diag_views(final(out)@) == diag_views(old(out)@) + sel_findings(*s, frags@, *o, source@, *sel, in_frag),
    decreases *sel, 0nat,
{
    match sel {
        Selection::Field(f) => {
            match f.offset {
                Some(at) => {
                    if f.selection_set.selections.len() > 0 {
                        let label = match &f.alias {
                            Some(a) => chars_of(a.as_str()),
                            None => chars_of(f.name.as_str()),
                        };
                        exec_set_findings(s, frags, o, source, &f.selection_set, Some((at, &label, in_frag)), true, out);
                        return;
                    }
                },
                None => {},
            }
            proof { assert(diag_views(out@) =~= diag_views(out@) + Seq::<(Seq<char>, Span, Seq<(Seq<char>, Span, Seq<char>)>)>::empty()); }
        },
        Selection::InlineFragment { selection_set: inner, .. } => {
            exec_set_findings(s, frags, o, source, inner, None, false, out);
        },
        Selection::FragmentSpread { .. } => {
            proof { assert(diag_views(out@) =~= diag_views(out@) + Seq::<(Seq<char>, Span, Seq<(Seq<char>, Span, Seq<char>)>)>::empty()); }
        },
    }
}

impl RequireSelections {
    /// Reports the selection sets of the file `file` (text `source`) that
    /// leave out the wanted fields their type offers: those of the fields
    /// with selections in its operations (among `ops`), and those of its
    /// fragments (among `frags`, which spreads are looked up in) and of the
    /// fields inside them. The rule needs a schema: without one it reports
    /// nothing.
    pub fn check(&self, ops: &[ExecutableDef], frags: &[ExecutableDef], file: &str, source: &str, schema: Option<&Schema>, o: &SelectionOptions) -> (r: Vec<Diagnostic>)
        ensures
            schema is None ==> r@.len() == 0,
            schema is Some ==> diag_views(r@) == op_findings(*schema.unwrap(), frags@, *o, source@, file@, ops@, ops@.len() as int)
                + frag_findings(*schema.unwrap(), frags@, *o, source@, file@, frags@.len() as int),
    {
        let mut out: Vec<Diagnostic> = Vec::new();
        let s = match schema {
            Some(s) => s,
            None => return out,
        };
        let fc = chars_of(file);
        let src = chars_of(source);
        for i in 0..ops.len()
            invariant
                schema == Some(s),
                fc@ == file@,
                src@ == source@,
                diag_views(out@) == op_findings(*s, frags@, *o, source@, file@, ops@, i as int),
        {
            let ghost before = diag_views(out@);
            if chars_eq(&chars_of(ops[i].file.as_str()), &fc) {
                exec_set_findings(s, frags, o, &src, &ops[i].selection_set, None, false, &mut out);
            } else {
                proof { assert(diag_views(out@) =~= before + Seq::<(Seq<char>, Span, Seq<(Seq<char>, Span, Seq<char>)>)>::empty()); }
            }
        }
        let ghost ops_part = diag_views(out@);
        for i in 0..frags.len()
            invariant
                schema == Some(s),
                fc@ == file@,
                src@ == source@,
                diag_views(out@) == ops_part + frag_findings(*s, frags@, *o, source@, file@, i as int),
        {
            let ghost before = diag_views(out@);
            let d = &frags[i];
            if chars_eq(&chars_of(d.file.as_str()), &fc) {
                let label = match &d.name {
                    Some(x) => chars_of(x.as_str()),
                    None => Vec::new(),
                };
                proof { assert(label@ == (match d.name { Some(x) => x@, None => Seq::<char>::empty() })); }
                exec_set_findings(s, frags, o, &src, &d.selection_set, Some((d.span.offset, &label, true)), true, &mut out);
                proof { assert(diag_views(out@) =~= ops_part + frag_findings(*s, frags@, *o, source@, file@, i + 1)); }
            } else {
                proof { assert(diag_views(out@) =~= ops_part + frag_findings(*s, frags@, *o, source@, file@, i + 1)); }
            }
        }
        out
    }
}
} // verus!
