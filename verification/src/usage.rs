//! Which schema fields the executable definitions of a project select,
//! through their own selections and the fragments they spread.
use vstd::prelude::*;
use crate::executable::{ExecutableDef, Selection, SelectionSet, sel_spreads, list_spreads};
use crate::reach::{names, contains_name};
use crate::text::{chars_of, chars_eq, sub_chars, string_of};
use crate::executable::pairs_view;
use crate::schema::{Schema, TypeKind, type_index, find_type};
use crate::case::views;

verus! {

/// Appends the names of the fragments spread in `s`.
pub fn collect_sel_names(s: &Selection, out: &mut Vec<Vec<char>>)
    ensures names(final(out)@) == names(old(out)@) + sel_spreads(*s),
    decreases *s,
{
    match s {
        Selection::FragmentSpread { name: n, .. } => {
            let ghost before = names(out@);
            out.push(chars_of(n.as_str()));
            proof { assert(names(out@) =~= before + seq![n@]); }
        },
        Selection::Field(f) => collect_list_names(&f.selection_set.selections, out),
        Selection::InlineFragment { selection_set: ss, .. } => collect_list_names(&ss.selections, out),
    }
}

/// Appends the names of the fragments spread in `l`, in order.
pub fn collect_list_names(l: &Vec<Selection>, out: &mut Vec<Vec<char>>)
    ensures names(final(out)@) == names(old(out)@) + list_spreads(l@),
    decreases l@,
{
    let ghost start = names(out@);
    for i in 0..l.len()
        invariant names(out@) == start + list_spreads(l@.take(i as int)),
    {
        proof {
            assert(l@.take(i + 1).drop_last() == l@.take(i as int));
            assert(l@.take(i + 1).last() == l@[i as int]);
        }
        let ghost mid = names(out@);
        collect_sel_names(&l[i], out);
        proof {
            assert(start + list_spreads(l@.take(i + 1)) =~= mid + sel_spreads(l@[i as int]));
        }
    }
    proof { assert(l@.take(l@.len() as int) == l@); }
}

/// The name of a definition as characters, if it has one.
pub open spec fn def_name(d: ExecutableDef) -> Option<Seq<char>> {
    match d.name {
        Some(n) => Some(n@),
        None => None,
    }
}

/// The first fragment named `name` in `frags`.
pub open spec fn frag_lookup(frags: Seq<ExecutableDef>, name: Seq<char>) -> Option<int>
    decreases frags.len(),
{
    if frags.len() == 0 {
        None
    } else {
        match frag_lookup(frags.drop_last(), name) {
            Some(k) => Some(k),
            None => if def_name(frags.last()) == Some(name) { Some(frags.len() - 1) } else { None },
        }
    }
}

pub proof fn lemma_frag_lookup(frags: Seq<ExecutableDef>, name: Seq<char>)
    ensures
        match frag_lookup(frags, name) {
            Some(k) => 0 <= k < frags.len() && def_name(frags[k]) == Some(name)
                && forall|j: int| 0 <= j < k ==> #[trigger] def_name(frags[j]) != Some(name),
            None => forall|j: int| 0 <= j < frags.len() ==> #[trigger] def_name(frags[j]) != Some(name),
        },
    decreases frags.len(),
{
    if frags.len() > 0 {
        let d = frags.drop_last();
        lemma_frag_lookup(d, name);
        assert forall|j: int| 0 <= j < frags.len() - 1 implies #[trigger] frags[j] == d[j] by {}
    }
}

/// The position of the first fragment named `name`.
pub fn find_fragment(frags: &[ExecutableDef], name: &Vec<char>) -> (r: Option<usize>)
    ensures
        match r {
            Some(k) => frag_lookup(frags@, name@) == Some(k as int) && k < frags@.len(),
            None => frag_lookup(frags@, name@) is None,
        },
{
    proof { lemma_frag_lookup(frags@, name@); }
    for i in 0..frags.len()
        invariant forall|j: int| 0 <= j < i ==> #[trigger] def_name(frags@[j]) != Some(name@),
    {
        let hit = match &frags[i].name {
            Some(n) => chars_eq(&chars_of(n.as_str()), name),
            None => false,
        };
        if hit {
            proof {
                assert(def_name(frags@[i as int]) == Some(name@));
                lemma_frag_lookup(frags@, name@);
                if frag_lookup(frags@, name@) != Some(i as int) {
                    let k = frag_lookup(frags@, name@).unwrap();
                    assert(def_name(frags@[k]) == Some(name@));
                }
            }
            return Some(i);
        }
        proof { assert(def_name(frags@[i as int]) != Some(name@)); }
    }
    proof {
        lemma_frag_lookup(frags@, name@);
        if let Some(k) = frag_lookup(frags@, name@) {
            assert(def_name(frags@[k]) != Some(name@));
        }
    }
    None
}

/// The fragments the fragment `name` spreads (none if it is not defined).
pub open spec fn frag_spreads(frags: Seq<ExecutableDef>, name: Seq<char>) -> Seq<Seq<char>> {
    match frag_lookup(frags, name) {
        Some(k) => list_spreads(frags[k].selection_set.selections@),
        None => Seq::empty(),
    }
}

/// `r` holds the names `start` and every name spread by a fragment it
/// holds.
pub open spec fn frags_closed(frags: Seq<ExecutableDef>, start: Seq<Seq<char>>, r: Set<Seq<char>>) -> bool {
    &&& forall|x: Seq<char>| #[trigger] start.contains(x) ==> r.contains(x)
    &&& forall|n: Seq<char>, x: Seq<char>| #[trigger] r.contains(n) && #[trigger] frag_spreads(frags, n).contains(x) ==> r.contains(x)
}

/// The fragment names reached from the spreads `start`: those in every
/// closed set.
pub open spec fn reached_fragments(frags: Seq<ExecutableDef>, start: Seq<Seq<char>>) -> Set<Seq<char>> {
    Set::new(|n: Seq<char>| forall|r: Set<Seq<char>>| #[trigger] frags_closed(frags, start, r) ==> r.contains(n))
}

/// Every spread name that the fragments of `frags` hold.
pub open spec fn all_spreads(frags: Seq<ExecutableDef>) -> Seq<Seq<char>>
    decreases frags.len(),
{
    if frags.len() == 0 {
        Seq::empty()
    } else {
        all_spreads(frags.drop_last()) + list_spreads(frags.last().selection_set.selections@)
    }
}

proof fn lemma_all_spreads(frags: Seq<ExecutableDef>, k: int, x: Seq<char>)
    requires
        0 <= k < frags.len(),
        list_spreads(frags[k].selection_set.selections@).contains(x),
    ensures all_spreads(frags).contains(x),
    decreases frags.len(),
{
    let d = frags.drop_last();
    let pre = all_spreads(d);
    let last = list_spreads(frags.last().selection_set.selections@);
    assert(all_spreads(frags) == pre + last);
    if k < frags.len() - 1 {
        assert(d[k] == frags[k]);
        lemma_all_spreads(d, k, x);
        let q = choose|q: int| 0 <= q < pre.len() && pre[q] == x;
        assert((pre + last)[q] == x);
    } else {
        let q = choose|q: int| 0 <= q < last.len() && last[q] == x;
        assert((pre + last)[pre.len() + q] == x);
    }
}

/// The state of the search for reached fragments: every found name lies in
/// every closed set, the start names are found, and the names before
/// `head` have their spreads found.
pub open spec fn frag_search(frags: Seq<ExecutableDef>, start: Seq<Seq<char>>, found: Seq<Seq<char>>, head: int) -> bool {
    &&& 0 <= head <= found.len()
    &&& found.no_duplicates()
    &&& forall|r: Set<Seq<char>>, x: Seq<char>| #[trigger] frags_closed(frags, start, r) && #[trigger] found.contains(x) ==> r.contains(x)
    &&& forall|x: Seq<char>| #[trigger] start.contains(x) ==> found.contains(x)
    &&& forall|i: int, x: Seq<char>| 0 <= i < head && #[trigger] frag_spreads(frags, found[i]).contains(x) ==> #[trigger] found.contains(x)
    &&& forall|i: int| 0 <= i < found.len() ==> (start + all_spreads(frags)).contains(#[trigger] found[i])
}

/// Adds `n` to `found` unless it is there.
fn add_name(found: &mut Vec<Vec<char>>, n: &Vec<char>)
    ensures
        names(old(found)@).contains(n@) ==> names(final(found)@) == names(old(found)@),
        !names(old(found)@).contains(n@) ==> names(final(found)@) == names(old(found)@).push(n@),
{
    if !contains_name(found, n) {
        let a = sub_chars(n, 0, n.len());
        proof { assert(a@ =~= n@); }
        found.push(a);
        proof { assert(names(found@) =~= names(old(found)@).push(n@)); }
    }
}

proof fn lemma_add_keeps(f: Seq<Seq<char>>, nf: Seq<Seq<char>>, n: Seq<char>)
    requires
        f.contains(n) ==> nf == f,
        !f.contains(n) ==> nf == f.push(n),
    ensures
        nf.contains(n),
        forall|x: Seq<char>| #[trigger] f.contains(x) ==> nf.contains(x),
        forall|x: Seq<char>| #[trigger] nf.contains(x) ==> f.contains(x) || x == n,
        nf.len() >= f.len(),
        forall|i: int| 0 <= i < f.len() ==> #[trigger] nf[i] == f[i],
        f.no_duplicates() ==> nf.no_duplicates(),
{
    if !f.contains(n) {
        assert(nf[f.len() as int] == n);
        assert forall|x: Seq<char>| #[trigger] f.contains(x) implies nf.contains(x) by {
            let i = choose|i: int| 0 <= i < f.len() && f[i] == x;
            assert(nf[i] == x);
        }
        assert forall|x: Seq<char>| #[trigger] nf.contains(x) implies f.contains(x) || x == n by {
            let i = choose|i: int| 0 <= i < nf.len() && nf[i] == x;
            if i < f.len() { assert(f[i] == x); }
        }
        if f.no_duplicates() {
            assert forall|i: int, j: int| 0 <= i < nf.len() && 0 <= j < nf.len() && i != j implies nf[i] != nf[j] by {
                if i == nf.len() - 1 {
                    assert(f[j] == nf[j]);
                } else if j == nf.len() - 1 {
                    assert(f[i] == nf[i]);
                } else {
                    assert(f[i] == nf[i] && f[j] == nf[j]);
                }
            }
        }
    }
}

proof fn lemma_len_bound(f: Seq<Seq<char>>, u: Seq<Seq<char>>)
    requires
        f.no_duplicates(),
        forall|i: int| 0 <= i < f.len() ==> u.contains(#[trigger] f[i]),
    ensures f.len() <= u.len(),
{
    f.unique_seq_to_set();
    u.lemma_cardinality_of_set();
    assert(f.to_set().subset_of(u.to_set())) by {
        assert forall|x: Seq<char>| f.to_set().contains(x) implies u.to_set().contains(x) by {
            let i = choose|i: int| 0 <= i < f.len() && f[i] == x;
        }
    }
    broadcast use vstd::seq_lib::seq_to_set_is_finite;
    vstd::set_lib::lemma_len_subset(f.to_set(), u.to_set());
}

/// The fragments reached from the spreads of the selections `root`.
pub fn reach_fragments(frags: &[ExecutableDef], root: &Vec<Selection>) -> (r: Vec<Vec<char>>)
    ensures forall|x: Seq<char>| #[trigger] names(r@).contains(x) <==> reached_fragments(frags@, list_spreads(root@)).contains(x),
{
    let ghost start = list_spreads(root@);
    let ghost u = start + all_spreads(frags@);
    let mut initial: Vec<Vec<char>> = Vec::new();
    collect_list_names(root, &mut initial);
    proof { assert(names(initial@) =~= start); }
    let mut found: Vec<Vec<char>> = Vec::new();
    proof { assert(names(found@) =~= Seq::<Seq<char>>::empty()); }
    for i in 0..initial.len()
        invariant
            names(initial@) == start,
            u == start + all_spreads(frags@),
            names(found@).no_duplicates(),
            forall|x: Seq<char>| #[trigger] names(found@).contains(x) ==> start.contains(x),
            forall|j: int| 0 <= j < i ==> names(found@).contains(#[trigger] start[j]),
    {
        let ghost f0 = names(found@);
        add_name(&mut found, &initial[i]);
        proof {
            assert(start[i as int] == initial@[i as int]@);
            lemma_add_keeps(f0, names(found@), start[i as int]);
        }
    }
    proof {
        let f = names(found@);
        assert forall|x: Seq<char>| #[trigger] start.contains(x) implies f.contains(x) by {
            let j = choose|j: int| 0 <= j < start.len() && start[j] == x;
        }
        assert forall|r: Set<Seq<char>>, x: Seq<char>| #[trigger] frags_closed(frags@, start, r) && #[trigger] f.contains(x) implies r.contains(x) by {
            assert(start.contains(x));
        }
        assert forall|i: int| 0 <= i < f.len() implies u.contains(#[trigger] f[i]) by {
            assert(f.contains(f[i]));
            let q = choose|q: int| 0 <= q < start.len() && start[q] == f[i];
            assert(u[q] == f[i]);
        }
    }
    let mut head: usize = 0;
    while head < found.len()
        invariant
            u == start + all_spreads(frags@),
            frag_search(frags@, start, names(found@), head as int),
        decreases u.len() - head,
    {
        let ghost f0 = names(found@);
        proof { lemma_len_bound(f0, u); }
        let t = sub_chars(&found[head], 0, found[head].len());
        proof { assert(t@ == f0[head as int]); }
        match find_fragment(frags, &t) {
            Some(k) => {
                let mut sp: Vec<Vec<char>> = Vec::new();
                collect_list_names(&frags[k].selection_set.selections, &mut sp);
                proof { assert(names(sp@) =~= frag_spreads(frags@, t@)); }
                let ghost ns = names(sp@);
                for j in 0..sp.len()
                    invariant
                        ns == names(sp@),
                        ns == frag_spreads(frags@, t@),
                        f0.contains(t@),
                        head < f0.len(),
                        u == start + all_spreads(frags@),
                        frag_search(frags@, start, names(found@), head as int),
                        names(found@).len() >= f0.len(),
                        forall|q: int| 0 <= q < f0.len() ==> #[trigger] names(found@)[q] == f0[q],
                        forall|q: int| 0 <= q < j ==> names(found@).contains(#[trigger] ns[q]),
                        frag_lookup(frags@, t@) == Some(k as int),
                        k < frags@.len(),
                {
                    let ghost f1 = names(found@);
                    add_name(&mut found, &sp[j]);
                    proof {
                        let nf = names(found@);
                        let x = ns[j as int];
                        assert(x == sp@[j as int]@);
                        lemma_add_keeps(f1, nf, x);
                        assert forall|r: Set<Seq<char>>, y: Seq<char>| #[trigger] frags_closed(frags@, start, r) && #[trigger] nf.contains(y) implies r.contains(y) by {
                            if f1.contains(y) {
                            } else {
                                assert(y == x);
                                assert(f1.contains(t@)) by {
                                    let q = choose|q: int| 0 <= q < f0.len() && f0[q] == t@;
                                    assert(f1[q] == t@);
                                }
                                assert(r.contains(t@));
                                assert(frag_spreads(frags@, t@).contains(x)) by { assert(ns[j as int] == x); }
                            }
                        }
                        assert forall|i: int, y: Seq<char>| 0 <= i < head && #[trigger] frag_spreads(frags@, nf[i]).contains(y) implies #[trigger] nf.contains(y) by {
                            assert(nf[i] == f1[i]);
                            assert(f1.contains(y));
                        }
                        assert forall|i: int| 0 <= i < nf.len() implies u.contains(#[trigger] nf[i]) by {
                            if i < f1.len() {
                                assert(nf[i] == f1[i]);
                            } else {
                                assert(nf[i] == x);
                                lemma_all_spreads(frags@, k as int, x);
                                let q = choose|q: int| 0 <= q < all_spreads(frags@).len() && all_spreads(frags@)[q] == x;
                                assert(u[start.len() + q] == x);
                            }
                        }
                        assert forall|q: int| 0 <= q < j + 1 implies nf.contains(#[trigger] ns[q]) by {
                            if q < j { assert(f1.contains(ns[q])); }
                        }
                    }
                }
                proof {
                    let nf = names(found@);
                    assert forall|i: int, y: Seq<char>| 0 <= i < head + 1 && #[trigger] frag_spreads(frags@, nf[i]).contains(y) implies #[trigger] nf.contains(y) by {
                        if i == head {
                            assert(nf[i] == t@);
                            let q = choose|q: int| 0 <= q < ns.len() && ns[q] == y;
                        }
                    }
                    lemma_len_bound(nf, u);
                }
            },
            None => {
                proof {
                    let nf = names(found@);
                    assert forall|i: int, y: Seq<char>| 0 <= i < head + 1 && #[trigger] frag_spreads(frags@, nf[i]).contains(y) implies #[trigger] nf.contains(y) by {
                        if i == head {
                            assert(frag_spreads(frags@, t@) =~= Seq::<Seq<char>>::empty());
                        }
                    }
                }
            },
        }
        head += 1;
    }
    proof {
        let f = names(found@);
        let fs = Set::new(|x: Seq<char>| f.contains(x));
        assert(frags_closed(frags@, start, fs)) by {
            assert forall|n: Seq<char>, x: Seq<char>| #[trigger] fs.contains(n) && #[trigger] frag_spreads(frags@, n).contains(x) implies fs.contains(x) by {
                let i = choose|i: int| 0 <= i < f.len() && f[i] == n;
            }
        }
        assert forall|x: Seq<char>| #[trigger] f.contains(x) <==> reached_fragments(frags@, start).contains(x) by {
            if reached_fragments(frags@, start).contains(x) {
                assert(fs.contains(x));
            }
        }
    }
    found
}


/// The pairs (interface, field) for a field selected on the object type
/// `ty`, one per interface the object implements.
pub open spec fn iface_pairs(s: Schema, ty: Seq<char>, f: Seq<char>) -> Seq<(Seq<char>, Seq<char>)> {
    match type_index(s.types@, ty) {
        Some(k) => if s.types@[k].kind == TypeKind::Object {
            views(s.types@[k].interfaces@).map_values(|i: Seq<char>| (i, f))
        } else {
            Seq::empty()
        },
        None => Seq::empty(),
    }
}

/// The (type, field) pairs a selection on the type `ty` selects itself
/// (spreads aside): each field with that type and the interfaces the type
/// implements, and the pairs of nested selections.
pub open spec fn sel_pairs(s: Schema, ty: Seq<char>, sel: Selection) -> Seq<(Seq<char>, Seq<char>)>
    decreases sel,
{
    match sel {
        Selection::Field(f) => seq![(ty, f.name@)] + iface_pairs(s, ty, f.name@)
            + list_pairs(s, f.selection_set.ty@, f.selection_set.selections@),
        Selection::FragmentSpread { .. } => Seq::empty(),
        Selection::InlineFragment { selection_set: ss, .. } => list_pairs(s, ss.ty@, ss.selections@),
    }
}

/// The pairs a list of selections on the type `ty` selects itself.
pub open spec fn list_pairs(s: Schema, ty: Seq<char>, l: Seq<Selection>) -> Seq<(Seq<char>, Seq<char>)>
    decreases l,
{
    if l.len() == 0 {
        Seq::empty()
    } else {
        list_pairs(s, ty, l.drop_last()) + sel_pairs(s, ty, l.last())
    }
}

fn collect_iface_pairs(s: &Schema, ty: &Vec<char>, f: &Vec<char>, out: &mut Vec<(Vec<char>, Vec<char>)>)
    ensures pairs_view(final(out)@) == pairs_view(old(out)@) + iface_pairs(*s, ty@, f@),
{
    let ghost start = pairs_view(out@);
    match find_type(&s.types, string_of(ty).as_str()) {
        Some(k) => {
            if s.types[k].kind == TypeKind::Object {
                let ifs = &s.types[k].interfaces;
                let ghost all = views(ifs@).map_values(|i: Seq<char>| (i, f@));
                for i in 0..ifs.len()
                    invariant
                        ifs == &s.types@[k as int].interfaces,
                        all == views(ifs@).map_values(|i: Seq<char>| (i, f@)),
                        pairs_view(out@) == start + all.take(i as int),
                {
                    let ghost before = pairs_view(out@);
                    let fc = sub_chars(f, 0, f.len());
                    proof { assert(fc@ =~= f@); }
                    out.push((chars_of(ifs[i].as_str()), fc));
                    proof {
                        assert(pairs_view(out@) =~= before.push((ifs@[i as int]@, f@)));
                        assert(all.take(i + 1) =~= all.take(i as int).push(all[i as int]));
                    }
                }
                proof { assert(all.take(ifs@.len() as int) =~= all); }
            } else {
                proof { assert(pairs_view(out@) =~= start + Seq::<(Seq<char>, Seq<char>)>::empty()); }
            }
        },
        None => {
            proof { assert(pairs_view(out@) =~= start + Seq::<(Seq<char>, Seq<char>)>::empty()); }
        },
    }
}

/// Appends the pairs a selection on the type `ty` selects itself.
pub fn collect_sel_pairs(s: &Schema, ty: &Vec<char>, sel: &Selection, out: &mut Vec<(Vec<char>, Vec<char>)>)
    ensures pairs_view(final(out)@) == pairs_view(old(out)@) + sel_pairs(*s, ty@, *sel),
    decreases *sel,
{
    let ghost start = pairs_view(out@);
    match sel {
        Selection::Field(f) => {
            let fname = chars_of(f.name.as_str());
            let tc = sub_chars(ty, 0, ty.len());
            let fc = sub_chars(&fname, 0, fname.len());
            proof { assert(tc@ =~= ty@); assert(fc@ =~= fname@); }
            out.push((tc, fc));
            let ghost a = pairs_view(out@);
            proof { assert(a =~= start + seq![(ty@, f.name@)]); }
            collect_iface_pairs(s, ty, &fname, out);
            let ghost b = pairs_view(out@);
            collect_list_pairs(s, &chars_of(f.selection_set.ty.as_str()), &f.selection_set.selections, out);
            proof {
                assert(pairs_view(out@) =~= start + sel_pairs(*s, ty@, *sel));
            }
        },
        Selection::FragmentSpread { .. } => {
            proof { assert(pairs_view(out@) =~= start + Seq::<(Seq<char>, Seq<char>)>::empty()); }
        },
        Selection::InlineFragment { selection_set: ss, .. } => {
            collect_list_pairs(s, &chars_of(ss.ty.as_str()), &ss.selections, out);
        },
    }
}

/// Appends the pairs a list of selections on the type `ty` selects itself.
pub fn collect_list_pairs(s: &Schema, ty: &Vec<char>, l: &Vec<Selection>, out: &mut Vec<(Vec<char>, Vec<char>)>)
    ensures pairs_view(final(out)@) == pairs_view(old(out)@) + list_pairs(*s, ty@, l@),
    decreases l@,
{
    let ghost start = pairs_view(out@);
    for i in 0..l.len()
        invariant pairs_view(out@) == start + list_pairs(*s, ty@, l@.take(i as int)),
    {
        proof {
            assert(l@.take(i + 1).drop_last() == l@.take(i as int));
            assert(l@.take(i + 1).last() == l@[i as int]);
        }
        let ghost mid = pairs_view(out@);
        collect_sel_pairs(s, ty, &l[i], out);
        proof {
            assert(start + list_pairs(*s, ty@, l@.take(i + 1)) =~= mid + sel_pairs(*s, ty@, l@[i as int]));
        }
    }
    proof { assert(l@.take(l@.len() as int) == l@); }
}


/// The pairs the fragment `n` selects itself (none if undefined).
pub open spec fn frag_pairs(s: Schema, frags: Seq<ExecutableDef>, n: Seq<char>) -> Seq<(Seq<char>, Seq<char>)> {
    match frag_lookup(frags, n) {
        Some(k) => list_pairs(s, frags[k].selection_set.ty@, frags[k].selection_set.selections@),
        None => Seq::empty(),
    }
}

/// The (type, field) pairs a selection set selects, itself or through the
/// fragments it reaches.
pub open spec fn used_by(s: Schema, frags: Seq<ExecutableDef>, ss: SelectionSet) -> Set<(Seq<char>, Seq<char>)> {
    Set::new(|p: (Seq<char>, Seq<char>)|
        list_pairs(s, ss.ty@, ss.selections@).contains(p)
            || exists|n: Seq<char>| #[trigger] reached_fragments(frags, list_spreads(ss.selections@)).contains(n)
                && frag_pairs(s, frags, n).contains(p))
}

/// Adds the pairs that `ss` selects to `used`.
pub fn add_used(s: &Schema, frags: &[ExecutableDef], ss: &SelectionSet, used: &mut Vec<(Vec<char>, Vec<char>)>)
    ensures
        forall|p: (Seq<char>, Seq<char>)| #[trigger] pairs_view(final(used)@).contains(p)
            <==> pairs_view(old(used)@).contains(p) || used_by(*s, frags@, *ss).contains(p),
{
    let ghost u0 = pairs_view(used@);
    let ty = chars_of(ss.ty.as_str());
    collect_list_pairs(s, &ty, &ss.selections, used);
    let ghost u1 = pairs_view(used@);
    let reached = reach_fragments(frags, &ss.selections);
    let ghost rn = names(reached@);
    for i in 0..reached.len()
        invariant
            rn == names(reached@),
            u1 == u0 + list_pairs(*s, ss.ty@, ss.selections@),
            forall|x: Seq<char>| #[trigger] rn.contains(x) <==> reached_fragments(frags@, list_spreads(ss.selections@)).contains(x),
            forall|p: (Seq<char>, Seq<char>)| #[trigger] pairs_view(used@).contains(p)
                <==> u1.contains(p) || exists|j: int| 0 <= j < i && #[trigger] frag_pairs(*s, frags@, rn[j]).contains(p),
    {
        let ghost before = pairs_view(used@);
        match find_fragment(frags, &reached[i]) {
            Some(k) => {
                collect_list_pairs(s, &chars_of(frags[k].selection_set.ty.as_str()), &frags[k].selection_set.selections, used);
                proof {
                    assert(rn[i as int] == reached@[i as int]@);
                    let added = frag_pairs(*s, frags@, rn[i as int]);
                    assert(pairs_view(used@) == before + added);
                    assert forall|p: (Seq<char>, Seq<char>)| #[trigger] pairs_view(used@).contains(p)
                        <==> u1.contains(p) || exists|j: int| 0 <= j < i + 1 && #[trigger] frag_pairs(*s, frags@, rn[j]).contains(p) by {
                        if pairs_view(used@).contains(p) {
                            let q = choose|q: int| 0 <= q < pairs_view(used@).len() && pairs_view(used@)[q] == p;
                            if q < before.len() {
                                assert(before[q] == p);
                                assert(before.contains(p));
                            } else {
                                assert(added[q - before.len()] == p);
                                assert(added.contains(p));
                            }
                        }
                        if before.contains(p) {
                            let q = choose|q: int| 0 <= q < before.len() && before[q] == p;
                            assert(pairs_view(used@)[q] == p);
                        }
                        if exists|j: int| 0 <= j < i + 1 && #[trigger] frag_pairs(*s, frags@, rn[j]).contains(p) {
                            let j = choose|j: int| 0 <= j < i + 1 && #[trigger] frag_pairs(*s, frags@, rn[j]).contains(p);
                            if j == i {
                                let q = choose|q: int| 0 <= q < added.len() && added[q] == p;
                                assert(pairs_view(used@)[before.len() + q] == p);
                            } else {
                                assert(before.contains(p));
                                let q = choose|q: int| 0 <= q < before.len() && before[q] == p;
                                assert(pairs_view(used@)[q] == p);
                            }
                        }
                    }
                }
            },
            None => {
                proof {
                    assert(rn[i as int] == reached@[i as int]@);
                    assert(frag_pairs(*s, frags@, rn[i as int]) =~= Seq::<(Seq<char>, Seq<char>)>::empty());
                    assert forall|p: (Seq<char>, Seq<char>)| #[trigger] pairs_view(used@).contains(p)
                        <==> u1.contains(p) || exists|j: int| 0 <= j < i + 1 && #[trigger] frag_pairs(*s, frags@, rn[j]).contains(p) by {
                        if exists|j: int| 0 <= j < i + 1 && #[trigger] frag_pairs(*s, frags@, rn[j]).contains(p) {
                            let j = choose|j: int| 0 <= j < i + 1 && #[trigger] frag_pairs(*s, frags@, rn[j]).contains(p);
                            if j == i {
                                assert(!frag_pairs(*s, frags@, rn[i as int]).contains(p));
                            }
                        }
                    }
                }
            },
        }
    }
    proof {
        let root = list_pairs(*s, ss.ty@, ss.selections@);
        assert forall|p: (Seq<char>, Seq<char>)| #[trigger] pairs_view(used@).contains(p)
            <==> u0.contains(p) || used_by(*s, frags@, *ss).contains(p) by {
            if u1.contains(p) {
                let q = choose|q: int| 0 <= q < u1.len() && u1[q] == p;
                if q < u0.len() {
                    assert(u0[q] == p);
                } else {
                    assert(root[q - u0.len()] == p);
                    assert(root.contains(p));
                }
            }
            if u0.contains(p) {
                let q = choose|q: int| 0 <= q < u0.len() && u0[q] == p;
                assert(u1[q] == p);
            }
            if root.contains(p) {
                let q = choose|q: int| 0 <= q < root.len() && root[q] == p;
                assert(u1[u0.len() + q] == p);
            }
            if exists|j: int| 0 <= j < rn.len() && #[trigger] frag_pairs(*s, frags@, rn[j]).contains(p) {
                let j = choose|j: int| 0 <= j < rn.len() && #[trigger] frag_pairs(*s, frags@, rn[j]).contains(p);
                assert(rn.contains(rn[j]));
            }
            if exists|n: Seq<char>| #[trigger] reached_fragments(frags@, list_spreads(ss.selections@)).contains(n)
                && frag_pairs(*s, frags@, n).contains(p) {
                let n = choose|n: Seq<char>| #[trigger] reached_fragments(frags@, list_spreads(ss.selections@)).contains(n)
                    && frag_pairs(*s, frags@, n).contains(p);
                assert(rn.contains(n));
                let j = choose|j: int| 0 <= j < rn.len() && rn[j] == n;
                assert(frag_pairs(*s, frags@, rn[j]).contains(p));
            }
        }
    }
}

} // verus!
