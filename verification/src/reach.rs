//! The types of a schema reachable from its root operation types.
use vstd::prelude::*;
use crate::schema::{Schema, TypeDef, FieldDef, DirectiveDef, TypeKind, base_name, type_index, lemma_type_index, find_type};
use crate::text::{chars_of, chars_eq, has_text};
use crate::case::views;

verus! {

/// The built-in scalar types.
pub open spec fn builtin_scalars() -> Set<Seq<char>> {
    set!["String"@, "Int"@, "Float"@, "Boolean"@, "ID"@]
}

/// The names of the root operation types, `Query`, `Mutation` and
/// `Subscription` where the schema names none.
pub open spec fn root_names(s: Schema) -> Set<Seq<char>> {
    set![
        match s.query { Some(n) => n@, None => "Query"@ },
        match s.mutation { Some(n) => n@, None => "Mutation"@ },
        match s.subscription { Some(n) => n@, None => "Subscription"@ },
    ]
}

/// The types of the arguments of the directive definitions.
pub open spec fn directive_argument_types(ds: Seq<DirectiveDef>) -> Set<Seq<char>> {
    Set::new(|n: Seq<char>| exists|i: int, j: int|
        0 <= i < ds.len() && 0 <= j < ds[i].arguments@.len() && #[trigger] base_name(ds[i].arguments@[j].ty) == n)
}

/// Where the search starts: the root types, the built-in scalars and the
/// types of directive arguments.
pub open spec fn seeds(s: Schema) -> Set<Seq<char>> {
    root_names(s).union(builtin_scalars()).union(directive_argument_types(s.directives@))
}

/// Built-in scalars that are not roots: reached, but not searched through.
pub open spec fn unexpanded(s: Schema) -> Set<Seq<char>> {
    builtin_scalars().difference(root_names(s))
}

/// The types of a list of fields.
pub open spec fn field_types(fs: Seq<FieldDef>) -> Set<Seq<char>> {
    Set::new(|n: Seq<char>| exists|i: int| 0 <= i < fs.len() && #[trigger] base_name(fs[i].ty) == n)
}

/// The types of the arguments of a list of fields.
pub open spec fn argument_types(fs: Seq<FieldDef>) -> Set<Seq<char>> {
    Set::new(|n: Seq<char>| exists|i: int, j: int|
        0 <= i < fs.len() && 0 <= j < fs[i].arguments@.len() && #[trigger] base_name(fs[i].arguments@[j].ty) == n)
}

/// A list of names as a set.
pub open spec fn name_list(v: Seq<String>) -> Set<Seq<char>> {
    Set::new(|n: Seq<char>| views(v).contains(n))
}

/// The objects and interfaces that implement the interface `t`.
pub open spec fn implementers(types: Seq<TypeDef>, t: Seq<char>) -> Set<Seq<char>> {
    Set::new(|n: Seq<char>| exists|k: int|
        0 <= k < types.len() && (types[k].kind == TypeKind::Object || types[k].kind == TypeKind::Interface)
            && views(types[k].interfaces@).contains(t) && #[trigger] types[k].name@ == n)
}

/// The names one step away from the type `t`: for an object its
/// interfaces, field types and argument types; for an interface its
/// interfaces, field types and implementers; for a union its members.
pub open spec fn successors(s: Schema, t: Seq<char>) -> Set<Seq<char>> {
    match type_index(s.types@, t) {
        Some(k) => {
            let d = s.types@[k];
            if d.kind == TypeKind::Object {
                name_list(d.interfaces@).union(field_types(d.fields@)).union(argument_types(d.fields@))
            } else if d.kind == TypeKind::Interface {
                name_list(d.interfaces@).union(field_types(d.fields@)).union(implementers(s.types@, t))
            } else if d.kind == TypeKind::Union {
                name_list(d.members@)
            } else {
                Set::empty()
            }
        },
        None => Set::empty(),
    }
}

/// `r` holds the seeds and every successor of its searched members.
pub open spec fn closed(s: Schema, r: Set<Seq<char>>) -> bool {
    &&& seeds(s).subset_of(r)
    &&& forall|t: Seq<char>| #[trigger] r.contains(t) && !unexpanded(s).contains(t) ==> successors(s, t).subset_of(r)
}

/// The reachable types: the names in every closed set.
pub open spec fn reachable(s: Schema) -> Set<Seq<char>> {
    Set::new(|n: Seq<char>| forall|r: Set<Seq<char>>| #[trigger] closed(s, r) ==> r.contains(n))
}

/// The views of a list of character vectors.
pub open spec fn names(v: Seq<Vec<char>>) -> Seq<Seq<char>> {
    v.map_values(|x: Vec<char>| x@)
}

/// Whether `n` is among `v`.
pub fn contains_name(v: &Vec<Vec<char>>, n: &Vec<char>) -> (r: bool)
    ensures r == names(v@).contains(n@),
{
    for i in 0..v.len()
        invariant forall|j: int| 0 <= j < i ==> #[trigger] v@[j]@ != n@,
    {
        if chars_eq(&v[i], n) {
            proof { assert(names(v@)[i as int] == n@); }
            return true;
        }
    }
    proof {
        if names(v@).contains(n@) {
            let j = choose|j: int| 0 <= j < names(v@).len() && names(v@)[j] == n@;
            assert(v@[j]@ != n@);
        }
    }
    false
}

/// The state of the search: every found name lies in every closed set,
/// the queue holds exactly the found names that are searched, and the
/// names before `head` have all their successors found.
pub open spec fn search_inv(s: Schema, found: Seq<Seq<char>>, queue: Seq<Seq<char>>, head: int) -> bool {
    &&& 0 <= head <= queue.len()
    &&& forall|r: Set<Seq<char>>, x: Seq<char>| #[trigger] closed(s, r) && #[trigger] found.contains(x) ==> r.contains(x)
    &&& forall|i: int| 0 <= i < queue.len() ==> found.contains(#[trigger] queue[i]) && !unexpanded(s).contains(queue[i])
    &&& forall|t: Seq<char>| #[trigger] found.contains(t) && !unexpanded(s).contains(t) ==> queue.contains(t)
    &&& forall|i: int, x: Seq<char>| 0 <= i < head && #[trigger] successors(s, queue[i]).contains(x) ==> #[trigger] found.contains(x)
}

/// Adds `n` to the found names, and to the queue when it is new.
fn add_found(found: &mut Vec<Vec<char>>, queue: &mut Vec<Vec<char>>, n: &Vec<char>)
    ensures
        names(old(found)@).contains(n@) ==> names(final(found)@) == names(old(found)@) && names(final(queue)@) == names(old(queue)@),
        !names(old(found)@).contains(n@) ==> names(final(found)@) == names(old(found)@).push(n@)
            && names(final(queue)@) == names(old(queue)@).push(n@),
{
    if !contains_name(found, n) {
        let a = crate::text::sub_chars(n, 0, n.len());
        let b = crate::text::sub_chars(n, 0, n.len());
        proof { assert(a@ =~= n@); assert(b@ =~= n@); }
        found.push(a);
        queue.push(b);
        proof {
            assert(names(found@) =~= names(old(found)@).push(n@));
            assert(names(queue@) =~= names(old(queue)@).push(n@));
        }
    }
}


/// From `(of, oq)` to `(nf, nq)` names were only appended, each new, drawn
/// from `src` and not a built-in scalar, to both lists alike.
pub open spec fn grows(of: Seq<Seq<char>>, nf: Seq<Seq<char>>, oq: Seq<Seq<char>>, nq: Seq<Seq<char>>, src: Set<Seq<char>>) -> bool {
    &&& of.len() <= nf.len()
    &&& nf.take(of.len() as int) == of
    &&& nq == oq + nf.skip(of.len() as int)
    &&& forall|i: int| of.len() <= i < nf.len() ==> src.contains(#[trigger] nf[i]) && !builtin_scalars().contains(nf[i])
}

proof fn lemma_grows_refl(f: Seq<Seq<char>>, q: Seq<Seq<char>>, src: Set<Seq<char>>)
    ensures grows(f, f, q, q, src),
{
    assert(f.take(f.len() as int) =~= f);
    assert(q + f.skip(f.len() as int) =~= q);
}

proof fn lemma_grows_trans(a: Seq<Seq<char>>, b: Seq<Seq<char>>, c: Seq<Seq<char>>, qa: Seq<Seq<char>>, qb: Seq<Seq<char>>, qc: Seq<Seq<char>>, src: Set<Seq<char>>)
    requires
        grows(a, b, qa, qb, src),
        grows(b, c, qb, qc, src),
    ensures grows(a, c, qa, qc, src),
{
    assert(c.take(a.len() as int) =~= b.take(a.len() as int));
    assert(c.skip(a.len() as int) =~= b.skip(a.len() as int) + c.skip(b.len() as int));
    assert(qc =~= qa + c.skip(a.len() as int));
    assert forall|i: int| a.len() <= i < c.len() implies src.contains(#[trigger] c[i]) && !builtin_scalars().contains(c[i]) by {
        if i < b.len() {
            assert(c[i] == c.take(b.len() as int)[i]);
        }
    }
}

proof fn lemma_grows_keeps(of: Seq<Seq<char>>, nf: Seq<Seq<char>>, oq: Seq<Seq<char>>, nq: Seq<Seq<char>>, src: Set<Seq<char>>, x: Seq<char>)
    requires
        grows(of, nf, oq, nq, src),
        of.contains(x),
    ensures nf.contains(x),
{
    let i = choose|i: int| 0 <= i < of.len() && of[i] == x;
    assert(nf.take(of.len() as int)[i] == nf[i]);
}

/// Every built-in scalar is among `f`.
pub open spec fn has_builtins(f: Seq<Seq<char>>) -> bool {
    forall|b: Seq<char>| #[trigger] builtin_scalars().contains(b) ==> f.contains(b)
}

/// Every built-in scalar is among `f`, and no name is there twice.
pub open spec fn found_ok(f: Seq<Seq<char>>) -> bool {
    has_builtins(f) && f.no_duplicates()
}

/// Adds `n`, drawn from `src`, to the found names and the queue unless it
/// was found already.
fn add_from(found: &mut Vec<Vec<char>>, queue: &mut Vec<Vec<char>>, n: &Vec<char>, Ghost(src): Ghost<Set<Seq<char>>>)
    requires
        src.contains(n@),
        found_ok(names(old(found)@)),
    ensures
        grows(names(old(found)@), names(final(found)@), names(old(queue)@), names(final(queue)@), src),
        names(final(found)@).contains(n@),
        found_ok(names(final(found)@)),
{
    let ghost of = names(found@);
    let ghost oq = names(queue@);
    add_found(found, queue, n);
    proof {
        if of.contains(n@) {
            lemma_grows_refl(of, oq, src);
        } else {
            let nf = names(found@);
            assert(nf.take(of.len() as int) =~= of);
            assert(nf.skip(of.len() as int) =~= seq![n@]);
            assert(names(queue@) =~= oq + nf.skip(of.len() as int));
            assert(nf[of.len() as int] == n@);
            if builtin_scalars().contains(n@) {
                assert(of.contains(n@));
            }
            assert(!builtin_scalars().contains(n@));
            assert forall|b: Seq<char>| #[trigger] builtin_scalars().contains(b) implies nf.contains(b) by {
                let i = choose|i: int| 0 <= i < of.len() && of[i] == b;
                assert(nf[i] == b);
            }
            assert(nf[nf.len() - 1] == n@);
            assert(nf =~= of.push(n@));
            assert forall|i: int, j: int| 0 <= i < nf.len() && 0 <= j < nf.len() && i != j implies nf[i] != nf[j] by {
                if i == nf.len() - 1 {
                    assert(of[j] == nf[j]);
                } else if j == nf.len() - 1 {
                    assert(of[i] == nf[i]);
                } else {
                    assert(of[i] == nf[i] && of[j] == nf[j]);
                }
            }
        }
    }
}

/// Adds every name of `v`, each drawn from `src`.
fn add_names(found: &mut Vec<Vec<char>>, queue: &mut Vec<Vec<char>>, v: &Vec<String>, Ghost(src): Ghost<Set<Seq<char>>>)
    requires
        forall|j: int| 0 <= j < v@.len() ==> src.contains(#[trigger] v@[j]@),
        found_ok(names(old(found)@)),
    ensures
        grows(names(old(found)@), names(final(found)@), names(old(queue)@), names(final(queue)@), src),
        forall|j: int| 0 <= j < v@.len() ==> names(final(found)@).contains(#[trigger] v@[j]@),
        found_ok(names(final(found)@)),
{
    let ghost of = names(found@);
    let ghost oq = names(queue@);
    proof { lemma_grows_refl(of, oq, src); }
    for i in 0..v.len()
        invariant
            forall|j: int| 0 <= j < v@.len() ==> src.contains(#[trigger] v@[j]@),
            grows(of, names(found@), oq, names(queue@), src),
            forall|j: int| 0 <= j < i ==> names(found@).contains(#[trigger] v@[j]@),
            found_ok(names(found@)),
    {
        let ghost f1 = names(found@);
        let ghost q1 = names(queue@);
        add_from(found, queue, &chars_of(v[i].as_str()), Ghost(src));
        proof {
            lemma_grows_trans(of, f1, names(found@), oq, q1, names(queue@), src);
            assert forall|j: int| 0 <= j < i + 1 implies names(found@).contains(#[trigger] v@[j]@) by {
                if j < i {
                    lemma_grows_keeps(f1, names(found@), q1, names(queue@), src, v@[j]@);
                }
            }
        }
    }
}

/// Adds the type of every field of `fs`, each drawn from `src`.
fn add_field_types(found: &mut Vec<Vec<char>>, queue: &mut Vec<Vec<char>>, fs: &Vec<FieldDef>, Ghost(src): Ghost<Set<Seq<char>>>)
    requires
        field_types(fs@).subset_of(src),
        found_ok(names(old(found)@)),
    ensures
        grows(names(old(found)@), names(final(found)@), names(old(queue)@), names(final(queue)@), src),
        forall|x: Seq<char>| #[trigger] field_types(fs@).contains(x) ==> names(final(found)@).contains(x),
        found_ok(names(final(found)@)),
{
    let ghost of = names(found@);
    let ghost oq = names(queue@);
    proof { lemma_grows_refl(of, oq, src); }
    for i in 0..fs.len()
        invariant
            field_types(fs@).subset_of(src),
            grows(of, names(found@), oq, names(queue@), src),
            forall|j: int| 0 <= j < i ==> names(found@).contains(#[trigger] base_name(fs@[j].ty)),
            found_ok(names(found@)),
    {
        let ghost f1 = names(found@);
        let ghost q1 = names(queue@);
        proof { assert(field_types(fs@).contains(base_name(fs@[i as int].ty))); }
        add_from(found, queue, &chars_of(fs[i].ty.base()), Ghost(src));
        proof {
            lemma_grows_trans(of, f1, names(found@), oq, q1, names(queue@), src);
            assert forall|j: int| 0 <= j < i + 1 implies names(found@).contains(#[trigger] base_name(fs@[j].ty)) by {
                if j < i {
                    lemma_grows_keeps(f1, names(found@), q1, names(queue@), src, base_name(fs@[j].ty));
                }
            }
        }
    }
    proof {
        assert forall|x: Seq<char>| #[trigger] field_types(fs@).contains(x) implies names(found@).contains(x) by {
            let i = choose|i: int| 0 <= i < fs@.len() && #[trigger] base_name(fs@[i].ty) == x;
        }
    }
}

/// Adds the type of every argument of the fields `fs`, each drawn from `src`.
fn add_argument_types(found: &mut Vec<Vec<char>>, queue: &mut Vec<Vec<char>>, fs: &Vec<FieldDef>, Ghost(src): Ghost<Set<Seq<char>>>)
    requires
        argument_types(fs@).subset_of(src),
        found_ok(names(old(found)@)),
    ensures
        grows(names(old(found)@), names(final(found)@), names(old(queue)@), names(final(queue)@), src),
        forall|x: Seq<char>| #[trigger] argument_types(fs@).contains(x) ==> names(final(found)@).contains(x),
        found_ok(names(final(found)@)),
{
    let ghost of = names(found@);
    let ghost oq = names(queue@);
    proof { lemma_grows_refl(of, oq, src); }
    for i in 0..fs.len()
        invariant
            argument_types(fs@).subset_of(src),
            grows(of, names(found@), oq, names(queue@), src),
            forall|j: int, a: int| 0 <= j < i && 0 <= a < fs@[j].arguments@.len()
                ==> names(found@).contains(#[trigger] base_name(fs@[j].arguments@[a].ty)),
            found_ok(names(found@)),
    {
        let n_args = fs[i].arguments.len();
        for a in 0..n_args
            invariant
                i < fs@.len(),
                n_args == fs@[i as int].arguments@.len(),
                argument_types(fs@).subset_of(src),
                grows(of, names(found@), oq, names(queue@), src),
                forall|j: int, b: int| 0 <= j < i && 0 <= b < fs@[j].arguments@.len()
                    ==> names(found@).contains(#[trigger] base_name(fs@[j].arguments@[b].ty)),
                forall|b: int| 0 <= b < a ==> names(found@).contains(#[trigger] base_name(fs@[i as int].arguments@[b].ty)),
                found_ok(names(found@)),
        {
            let ghost f1 = names(found@);
            let ghost q1 = names(queue@);
            proof { assert(argument_types(fs@).contains(base_name(fs@[i as int].arguments@[a as int].ty))); }
            add_from(found, queue, &chars_of(fs[i].arguments[a].ty.base()), Ghost(src));
            proof {
                lemma_grows_trans(of, f1, names(found@), oq, q1, names(queue@), src);
                assert forall|j: int, b: int| 0 <= j < i && 0 <= b < fs@[j].arguments@.len()
                    implies names(found@).contains(#[trigger] base_name(fs@[j].arguments@[b].ty)) by {
                    lemma_grows_keeps(f1, names(found@), q1, names(queue@), src, base_name(fs@[j].arguments@[b].ty));
                }
                assert forall|b: int| 0 <= b < a + 1 implies names(found@).contains(#[trigger] base_name(fs@[i as int].arguments@[b].ty)) by {
                    if b < a {
                        lemma_grows_keeps(f1, names(found@), q1, names(queue@), src, base_name(fs@[i as int].arguments@[b].ty));
                    }
                }
            }
        }
    }
    proof {
        assert forall|x: Seq<char>| #[trigger] argument_types(fs@).contains(x) implies names(found@).contains(x) by {
            let (i, a) = choose|i: int, a: int| 0 <= i < fs@.len() && 0 <= a < fs@[i].arguments@.len()
                && #[trigger] base_name(fs@[i].arguments@[a].ty) == x;
        }
    }
}


/// Adds every object or interface of `types` that implements `t`, each
/// drawn from `src`.
fn add_implementers(found: &mut Vec<Vec<char>>, queue: &mut Vec<Vec<char>>, types: &Vec<TypeDef>, t: &str, Ghost(src): Ghost<Set<Seq<char>>>)
    requires
        implementers(types@, t@).subset_of(src),
        found_ok(names(old(found)@)),
    ensures
        grows(names(old(found)@), names(final(found)@), names(old(queue)@), names(final(queue)@), src),
        forall|x: Seq<char>| #[trigger] implementers(types@, t@).contains(x) ==> names(final(found)@).contains(x),
        found_ok(names(final(found)@)),
{
    let ghost of = names(found@);
    let ghost oq = names(queue@);
    proof { lemma_grows_refl(of, oq, src); }
    for k in 0..types.len()
        invariant
            implementers(types@, t@).subset_of(src),
            grows(of, names(found@), oq, names(queue@), src),
            forall|j: int| 0 <= j < k && (types@[j].kind == TypeKind::Object || types@[j].kind == TypeKind::Interface)
                && views(types@[j].interfaces@).contains(t@) ==> names(found@).contains(#[trigger] types@[j].name@),
            found_ok(names(found@)),
    {
        let d = &types[k];
        if (d.kind == TypeKind::Object || d.kind == TypeKind::Interface) && has_text(&d.interfaces, t) {
            let ghost f1 = names(found@);
            let ghost q1 = names(queue@);
            proof { assert(implementers(types@, t@).contains(types@[k as int].name@)); }
            add_from(found, queue, &chars_of(d.name.as_str()), Ghost(src));
            proof {
                lemma_grows_trans(of, f1, names(found@), oq, q1, names(queue@), src);
                assert forall|j: int| 0 <= j < k + 1 && (types@[j].kind == TypeKind::Object || types@[j].kind == TypeKind::Interface)
                    && views(types@[j].interfaces@).contains(t@) implies names(found@).contains(#[trigger] types@[j].name@) by {
                    if j < k {
                        lemma_grows_keeps(f1, names(found@), q1, names(queue@), src, types@[j].name@);
                    }
                }
            }
        }
    }
    proof {
        assert forall|x: Seq<char>| #[trigger] implementers(types@, t@).contains(x) implies names(found@).contains(x) by {
            let k = choose|k: int| 0 <= k < types@.len() && (types@[k].kind == TypeKind::Object || types@[k].kind == TypeKind::Interface)
                && views(types@[k].interfaces@).contains(t@) && #[trigger] types@[k].name@ == x;
        }
    }
}

/// Adds every successor of the type `t`.
fn expand(s: &Schema, t: &Vec<char>, found: &mut Vec<Vec<char>>, queue: &mut Vec<Vec<char>>)
    requires found_ok(names(old(found)@)),
    ensures
        grows(names(old(found)@), names(final(found)@), names(old(queue)@), names(final(queue)@), successors(*s, t@)),
        forall|x: Seq<char>| #[trigger] successors(*s, t@).contains(x) ==> names(final(found)@).contains(x),
        found_ok(names(final(found)@)),
{
    let ghost src = successors(*s, t@);
    let ghost of = names(found@);
    let ghost oq = names(queue@);
    let ts = crate::text::string_of(t);
    match find_type(&s.types, ts.as_str()) {
        Some(k) => {
            let d = &s.types[k];
            if d.kind == TypeKind::Object {
                proof {
                    assert forall|j: int| 0 <= j < d.interfaces@.len() implies src.contains(#[trigger] d.interfaces@[j]@) by {
                        assert(views(d.interfaces@)[j] == d.interfaces@[j]@);
                    }
                }
                add_names(found, queue, &d.interfaces, Ghost(src));
                let ghost f1 = names(found@);
                let ghost q1 = names(queue@);
                add_field_types(found, queue, &d.fields, Ghost(src));
                let ghost f2 = names(found@);
                let ghost q2 = names(queue@);
                add_argument_types(found, queue, &d.fields, Ghost(src));
                proof {
                    lemma_grows_trans(of, f1, f2, oq, q1, q2, src);
                    lemma_grows_trans(of, f2, names(found@), oq, q2, names(queue@), src);
                    assert forall|x: Seq<char>| #[trigger] src.contains(x) implies names(found@).contains(x) by {
                        if name_list(d.interfaces@).contains(x) {
                            let j = choose|j: int| 0 <= j < views(d.interfaces@).len() && views(d.interfaces@)[j] == x;
                            assert(d.interfaces@[j]@ == x);
                            lemma_grows_keeps(f1, f2, q1, q2, src, x);
                            lemma_grows_keeps(f2, names(found@), q2, names(queue@), src, x);
                        } else if field_types(d.fields@).contains(x) {
                            lemma_grows_keeps(f2, names(found@), q2, names(queue@), src, x);
                        }
                    }
                }
            } else if d.kind == TypeKind::Interface {
                proof {
                    assert forall|j: int| 0 <= j < d.interfaces@.len() implies src.contains(#[trigger] d.interfaces@[j]@) by {
                        assert(views(d.interfaces@)[j] == d.interfaces@[j]@);
                    }
                }
                add_names(found, queue, &d.interfaces, Ghost(src));
                let ghost f1 = names(found@);
                let ghost q1 = names(queue@);
                add_field_types(found, queue, &d.fields, Ghost(src));
                let ghost f2 = names(found@);
                let ghost q2 = names(queue@);
                add_implementers(found, queue, &s.types, ts.as_str(), Ghost(src));
                proof {
                    lemma_grows_trans(of, f1, f2, oq, q1, q2, src);
                    lemma_grows_trans(of, f2, names(found@), oq, q2, names(queue@), src);
                    assert forall|x: Seq<char>| #[trigger] src.contains(x) implies names(found@).contains(x) by {
                        if name_list(d.interfaces@).contains(x) {
                            let j = choose|j: int| 0 <= j < views(d.interfaces@).len() && views(d.interfaces@)[j] == x;
                            assert(d.interfaces@[j]@ == x);
                            lemma_grows_keeps(f1, f2, q1, q2, src, x);
                            lemma_grows_keeps(f2, names(found@), q2, names(queue@), src, x);
                        } else if field_types(d.fields@).contains(x) {
                            lemma_grows_keeps(f2, names(found@), q2, names(queue@), src, x);
                        }
                    }
                }
            } else if d.kind == TypeKind::Union {
                proof {
                    assert forall|j: int| 0 <= j < d.members@.len() implies src.contains(#[trigger] d.members@[j]@) by {
                        assert(views(d.members@)[j] == d.members@[j]@);
                    }
                }
                add_names(found, queue, &d.members, Ghost(src));
                proof {
                    assert forall|x: Seq<char>| #[trigger] src.contains(x) implies names(found@).contains(x) by {
                        let j = choose|j: int| 0 <= j < views(d.members@).len() && views(d.members@)[j] == x;
                        assert(d.members@[j]@ == x);
                    }
                }
            } else {
                proof { lemma_grows_refl(of, oq, src); }
            }
        },
        None => {
            proof { lemma_grows_refl(of, oq, src); }
        },
    }
}


/// The types of a list of arguments.
pub open spec fn arg_names(a: Seq<crate::schema::InputValueDef>) -> Seq<Seq<char>> {
    a.map_values(|x: crate::schema::InputValueDef| base_name(x.ty))
}

/// Every type named by a list of fields or their arguments.
pub open spec fn field_names(fs: Seq<FieldDef>) -> Seq<Seq<char>>
    decreases fs.len(),
{
    if fs.len() == 0 {
        Seq::empty()
    } else {
        field_names(fs.drop_last()) + seq![base_name(fs.last().ty)] + arg_names(fs.last().arguments@)
    }
}

/// Every name a list of types holds: its names, interfaces, members and
/// field types.
pub open spec fn type_names(ts: Seq<TypeDef>) -> Seq<Seq<char>>
    decreases ts.len(),
{
    if ts.len() == 0 {
        Seq::empty()
    } else {
        let d = ts.last();
        type_names(ts.drop_last()) + seq![d.name@] + views(d.interfaces@) + views(d.members@) + field_names(d.fields@)
    }
}

/// Every type named by the arguments of directive definitions.
pub open spec fn directive_names(ds: Seq<DirectiveDef>) -> Seq<Seq<char>>
    decreases ds.len(),
{
    if ds.len() == 0 {
        Seq::empty()
    } else {
        directive_names(ds.drop_last()) + arg_names(ds.last().arguments@)
    }
}

/// Every name the search can meet.
pub open spec fn universe(s: Schema) -> Seq<Seq<char>> {
    seq![
        match s.query { Some(n) => n@, None => "Query"@ },
        match s.mutation { Some(n) => n@, None => "Mutation"@ },
        match s.subscription { Some(n) => n@, None => "Subscription"@ },
        "String"@, "Int"@, "Float"@, "Boolean"@, "ID"@,
    ] + directive_names(s.directives@) + type_names(s.types@)
}

proof fn lemma_field_names(fs: Seq<FieldDef>, i: int, a: int)
    requires 0 <= i < fs.len(),
    ensures
        field_names(fs).contains(base_name(fs[i].ty)),
        0 <= a < fs[i].arguments@.len() ==> field_names(fs).contains(base_name(fs[i].arguments@[a].ty)),
    decreases fs.len(),
{
    let d = fs.drop_last();
    let pre = field_names(d);
    let f = fs.last();
    let all = pre + seq![base_name(f.ty)] + arg_names(f.arguments@);
    assert(field_names(fs) == all);
    if i < fs.len() - 1 {
        assert(d[i] == fs[i]);
        lemma_field_names(d, i, a);
        let k = choose|k: int| 0 <= k < pre.len() && pre[k] == base_name(fs[i].ty);
        assert(all[k] == pre[k]);
        if 0 <= a < fs[i].arguments@.len() {
            let k2 = choose|k2: int| 0 <= k2 < pre.len() && pre[k2] == base_name(fs[i].arguments@[a].ty);
            assert(all[k2] == pre[k2]);
        }
    } else {
        assert(all[pre.len() as int] == base_name(f.ty));
        if 0 <= a < fs[i].arguments@.len() {
            assert(all[pre.len() + 1 + a] == arg_names(f.arguments@)[a]);
        }
    }
}

proof fn lemma_type_names(ts: Seq<TypeDef>, k: int)
    requires 0 <= k < ts.len(),
    ensures
        type_names(ts).contains(ts[k].name@),
        forall|j: int| 0 <= j < ts[k].interfaces@.len() ==> type_names(ts).contains(#[trigger] ts[k].interfaces@[j]@),
        forall|j: int| 0 <= j < ts[k].members@.len() ==> type_names(ts).contains(#[trigger] ts[k].members@[j]@),
        forall|x: Seq<char>| #[trigger] field_names(ts[k].fields@).contains(x) ==> type_names(ts).contains(x),
    decreases ts.len(),
{
    let d = ts.drop_last();
    let pre = type_names(d);
    let t = ts.last();
    let all = pre + seq![t.name@] + views(t.interfaces@) + views(t.members@) + field_names(t.fields@);
    assert(type_names(ts) == all);
    let ni = views(t.interfaces@).len();
    let nm = views(t.members@).len();
    if k < ts.len() - 1 {
        assert(d[k] == ts[k]);
        lemma_type_names(d, k);
        assert forall|x: Seq<char>| pre.contains(x) implies all.contains(x) by {
            let q = choose|q: int| 0 <= q < pre.len() && pre[q] == x;
            assert(all[q] == pre[q]);
        }
        assert(pre.contains(ts[k].name@));
        assert forall|j: int| 0 <= j < ts[k].interfaces@.len() implies type_names(ts).contains(#[trigger] ts[k].interfaces@[j]@) by {
            assert(pre.contains(ts[k].interfaces@[j]@));
        }
        assert forall|j: int| 0 <= j < ts[k].members@.len() implies type_names(ts).contains(#[trigger] ts[k].members@[j]@) by {
            assert(pre.contains(ts[k].members@[j]@));
        }
    } else {
        assert(all[pre.len() as int] == t.name@);
        assert forall|j: int| 0 <= j < ts[k].interfaces@.len() implies type_names(ts).contains(#[trigger] ts[k].interfaces@[j]@) by {
            assert(all[pre.len() + 1 + j] == views(t.interfaces@)[j]);
        }
        assert forall|j: int| 0 <= j < ts[k].members@.len() implies type_names(ts).contains(#[trigger] ts[k].members@[j]@) by {
            assert(all[pre.len() + 1 + ni + j] == views(t.members@)[j]);
        }
        assert forall|x: Seq<char>| #[trigger] field_names(ts[k].fields@).contains(x) implies type_names(ts).contains(x) by {
            let q = choose|q: int| 0 <= q < field_names(t.fields@).len() && field_names(t.fields@)[q] == x;
            assert(all[pre.len() + 1 + ni + nm + q] == x);
        }
    }
}

proof fn lemma_directive_names(ds: Seq<DirectiveDef>, i: int, a: int)
    requires
        0 <= i < ds.len(),
        0 <= a < ds[i].arguments@.len(),
    ensures directive_names(ds).contains(base_name(ds[i].arguments@[a].ty)),
    decreases ds.len(),
{
    let d = ds.drop_last();
    let pre = directive_names(d);
    let all = pre + arg_names(ds.last().arguments@);
    assert(directive_names(ds) == all);
    if i < ds.len() - 1 {
        assert(d[i] == ds[i]);
        lemma_directive_names(d, i, a);
        let k = choose|k: int| 0 <= k < pre.len() && pre[k] == base_name(ds[i].arguments@[a].ty);
        assert(all[k] == pre[k]);
    } else {
        assert(all[pre.len() + a] == arg_names(ds.last().arguments@)[a]);
    }
}

/// Every seed and every successor lies in the universe.
proof fn lemma_universe(s: Schema)
    ensures
        forall|x: Seq<char>| #[trigger] seeds(s).contains(x) ==> universe(s).contains(x),
        forall|t: Seq<char>, x: Seq<char>| #[trigger] successors(s, t).contains(x) ==> universe(s).contains(x),
{
    let u = universe(s);
    let head = seq![
        match s.query { Some(n) => n@, None => "Query"@ },
        match s.mutation { Some(n) => n@, None => "Mutation"@ },
        match s.subscription { Some(n) => n@, None => "Subscription"@ },
        "String"@, "Int"@, "Float"@, "Boolean"@, "ID"@,
    ];
    let dn = directive_names(s.directives@);
    let tn = type_names(s.types@);
    assert(u == head + dn + tn);
    assert forall|x: Seq<char>| dn.contains(x) implies u.contains(x) by {
        let q = choose|q: int| 0 <= q < dn.len() && dn[q] == x;
        assert(u[head.len() + q] == x);
    }
    assert forall|x: Seq<char>| tn.contains(x) implies u.contains(x) by {
        let q = choose|q: int| 0 <= q < tn.len() && tn[q] == x;
        assert(u[head.len() + dn.len() + q] == x);
    }
    assert forall|x: Seq<char>| #[trigger] seeds(s).contains(x) implies u.contains(x) by {
        if root_names(s).contains(x) || builtin_scalars().contains(x) {
            assert(u[0] == head[0] && u[1] == head[1] && u[2] == head[2] && u[3] == head[3]);
            assert(u[4] == head[4] && u[5] == head[5] && u[6] == head[6] && u[7] == head[7]);
        } else {
            let (i, j) = choose|i: int, j: int| 0 <= i < s.directives@.len() && 0 <= j < s.directives@[i].arguments@.len()
                && #[trigger] base_name(s.directives@[i].arguments@[j].ty) == x;
            lemma_directive_names(s.directives@, i, j);
        }
    }
    assert forall|t: Seq<char>, x: Seq<char>| #[trigger] successors(s, t).contains(x) implies u.contains(x) by {
        lemma_type_index(s.types@, t);
        let k = type_index(s.types@, t).unwrap();
        let d = s.types@[k];
        lemma_type_names(s.types@, k);
        if name_list(d.interfaces@).contains(x) {
            let j = choose|j: int| 0 <= j < views(d.interfaces@).len() && views(d.interfaces@)[j] == x;
            assert(d.interfaces@[j]@ == x);
        } else if name_list(d.members@).contains(x) && d.kind == TypeKind::Union {
            let j = choose|j: int| 0 <= j < views(d.members@).len() && views(d.members@)[j] == x;
            assert(d.members@[j]@ == x);
        } else if field_types(d.fields@).contains(x) {
            let i = choose|i: int| 0 <= i < d.fields@.len() && #[trigger] base_name(d.fields@[i].ty) == x;
            lemma_field_names(d.fields@, i, 0);
        } else if argument_types(d.fields@).contains(x) && d.kind == TypeKind::Object {
            let (i, a) = choose|i: int, a: int| 0 <= i < d.fields@.len() && 0 <= a < d.fields@[i].arguments@.len()
                && #[trigger] base_name(d.fields@[i].arguments@[a].ty) == x;
            lemma_field_names(d.fields@, i, a);
        } else {
            let q = choose|q: int| 0 <= q < s.types@.len() && (s.types@[q].kind == TypeKind::Object || s.types@[q].kind == TypeKind::Interface)
                && views(s.types@[q].interfaces@).contains(t) && #[trigger] s.types@[q].name@ == x;
            lemma_type_names(s.types@, q);
        }
    }
}


/// Growing the found names and the queue by names that lie in every closed
/// set keeps the state of the search.
proof fn lemma_inv_grow(s: Schema, of: Seq<Seq<char>>, nf: Seq<Seq<char>>, oq: Seq<Seq<char>>, nq: Seq<Seq<char>>, src: Set<Seq<char>>, head: int)
    requires
        search_inv(s, of, oq, head),
        grows(of, nf, oq, nq, src),
        forall|r: Set<Seq<char>>, x: Seq<char>| #[trigger] closed(s, r) && #[trigger] src.contains(x) ==> r.contains(x),
    ensures search_inv(s, nf, nq, head),
{
    assert forall|x: Seq<char>| #[trigger] of.contains(x) implies nf.contains(x) by {
        lemma_grows_keeps(of, nf, oq, nq, src, x);
    }
    assert forall|i: int| 0 <= i < oq.len() implies #[trigger] nq[i] == oq[i] by {}
    assert forall|r: Set<Seq<char>>, x: Seq<char>| #[trigger] closed(s, r) && #[trigger] nf.contains(x) implies r.contains(x) by {
        let i = choose|i: int| 0 <= i < nf.len() && nf[i] == x;
        if i < of.len() {
            assert(nf.take(of.len() as int)[i] == nf[i]);
            assert(of.contains(x));
        } else {
            assert(src.contains(nf[i]));
        }
    }
    assert forall|i: int| 0 <= i < nq.len() implies nf.contains(#[trigger] nq[i]) && !unexpanded(s).contains(nq[i]) by {
        if i < oq.len() {
            assert(of.contains(oq[i]));
        } else {
            let k = of.len() + (i - oq.len());
            assert(nq[i] == nf.skip(of.len() as int)[i - oq.len()]);
            assert(nq[i] == nf[k]);
            assert(!builtin_scalars().contains(nf[k]));
        }
    }
    assert forall|t: Seq<char>| #[trigger] nf.contains(t) && !unexpanded(s).contains(t) implies nq.contains(t) by {
        let i = choose|i: int| 0 <= i < nf.len() && nf[i] == t;
        if i < of.len() {
            assert(nf.take(of.len() as int)[i] == nf[i]);
            assert(of.contains(t));
            let j = choose|j: int| 0 <= j < oq.len() && oq[j] == t;
            assert(nq[j] == t);
        } else {
            assert(nq[oq.len() + (i - of.len())] == nf.skip(of.len() as int)[i - of.len()]);
        }
    }
    assert forall|i: int, x: Seq<char>| 0 <= i < head && #[trigger] successors(s, nq[i]).contains(x) implies #[trigger] nf.contains(x) by {
        assert(nq[i] == oq[i]);
        assert(of.contains(x));
    }
}

proof fn lemma_add_step(f: Seq<Seq<char>>, nf: Seq<Seq<char>>, n: Seq<char>)
    requires
        f.contains(n) ==> nf == f,
        !f.contains(n) ==> nf == f.push(n),
    ensures
        nf.contains(n),
        forall|x: Seq<char>| #[trigger] f.contains(x) ==> nf.contains(x),
        forall|x: Seq<char>| #[trigger] nf.contains(x) ==> f.contains(x) || x == n,
{
    if !f.contains(n) {
        assert(nf[f.len() as int] == n);
        assert forall|x: Seq<char>| #[trigger] f.contains(x) implies nf.contains(x) by {
            let i = choose|i: int| 0 <= i < f.len() && f[i] == x;
            assert(nf[i] == x);
        }
        assert forall|x: Seq<char>| #[trigger] nf.contains(x) implies f.contains(x) || x == n by {
            let i = choose|i: int| 0 <= i < nf.len() && nf[i] == x;
            if i < f.len() { assert(f[i] == x); }
        }
    }
}

/// Adding a built-in scalar, unsearched, keeps the state of the search
/// while every root is found.
proof fn lemma_add_builtin(s: Schema, f: Seq<Seq<char>>, nf: Seq<Seq<char>>, q: Seq<Seq<char>>, b: Seq<char>)
    requires
        search_inv(s, f, q, 0),
        forall|x: Seq<char>| #[trigger] root_names(s).contains(x) ==> f.contains(x),
        f.no_duplicates(),
        builtin_scalars().contains(b),
        f.contains(b) ==> nf == f,
        !f.contains(b) ==> nf == f.push(b),
    ensures
        search_inv(s, nf, q, 0),
        forall|x: Seq<char>| #[trigger] root_names(s).contains(x) ==> nf.contains(x),
        nf.no_duplicates(),
        nf.contains(b),
        forall|x: Seq<char>| #[trigger] f.contains(x) ==> nf.contains(x),
{
    if !f.contains(b) {
        lemma_push_no_dup(f, b);
        assert forall|x: Seq<char>| #[trigger] f.contains(x) implies nf.contains(x) by {
            let i = choose|i: int| 0 <= i < f.len() && f[i] == x;
            assert(nf[i] == x);
        }
        assert(nf[f.len() as int] == b);
        assert forall|r: Set<Seq<char>>, x: Seq<char>| #[trigger] closed(s, r) && #[trigger] nf.contains(x) implies r.contains(x) by {
            let i = choose|i: int| 0 <= i < nf.len() && nf[i] == x;
            if i < f.len() {
                assert(f[i] == x);
                assert(f.contains(x));
            } else {
                assert(x == b);
                assert(seeds(s).contains(b));
                assert(seeds(s).subset_of(r));
            }
        }
        assert forall|t: Seq<char>| #[trigger] nf.contains(t) && !unexpanded(s).contains(t) implies q.contains(t) by {
            let i = choose|i: int| 0 <= i < nf.len() && nf[i] == t;
            if i < f.len() {
                assert(f[i] == t);
                assert(f.contains(t));
            } else {
                assert(t == b);
                assert(root_names(s).contains(b));
                assert(f.contains(b));
            }
        }
    }
}

/// Adds `n` to the found names only, unless it is there.
fn add_unsearched(found: &mut Vec<Vec<char>>, n: &Vec<char>)
    ensures
        names(old(found)@).contains(n@) ==> names(final(found)@) == names(old(found)@),
        !names(old(found)@).contains(n@) ==> names(final(found)@) == names(old(found)@).push(n@),
{
    if !contains_name(found, n) {
        let a = crate::text::sub_chars(n, 0, n.len());
        proof { assert(a@ =~= n@); }
        found.push(a);
        proof { assert(names(found@) =~= names(old(found)@).push(n@)); }
    }
}

proof fn lemma_push_no_dup(f: Seq<Seq<char>>, n: Seq<char>)
    requires
        f.no_duplicates(),
        !f.contains(n),
    ensures f.push(n).no_duplicates(),
{
    let g = f.push(n);
    assert forall|i: int, j: int| 0 <= i < g.len() && 0 <= j < g.len() && i != j implies g[i] != g[j] by {
        if i == g.len() - 1 {
            assert(f[j] == g[j]);
        } else if j == g.len() - 1 {
            assert(f[i] == g[i]);
        } else {
            assert(f[i] == g[i] && f[j] == g[j]);
        }
    }
}

proof fn lemma_len_bound(f: Seq<Seq<char>>, u: Seq<Seq<char>>)
    requires
        f.no_duplicates(),
        forall|i: int| 0 <= i < f.len() ==> u.contains(#[trigger] f[i]),
    ensures f.len() <= u.len(),
{
    f.unique_seq_to_set();
    u.lemma_cardinality_of_set();
    assert(f.to_set().subset_of(u.to_set())) by {
        assert forall|x: Seq<char>| f.to_set().contains(x) implies u.to_set().contains(x) by {
            let i = choose|i: int| 0 <= i < f.len() && f[i] == x;
        }
    }
    broadcast use vstd::seq_lib::seq_to_set_is_finite;
    vstd::set_lib::lemma_len_subset(f.to_set(), u.to_set());
}

/// The root type name, or `default` where the schema names none.
fn root_or(n: &Option<String>, default: &str) -> (r: Vec<char>)
    ensures r@ == (match n { Some(x) => x@, None => default@ }),
{
    match n {
        Some(x) => chars_of(x.as_str()),
        None => chars_of(default),
    }
}

/// The types reachable in `s` from its root types, the built-in scalars and
/// the types of directive arguments, through interfaces, field and argument
/// types, implementers and union members.
pub fn reachable_types(s: &Schema) -> (r: Vec<Vec<char>>)
    ensures forall|x: Seq<char>| #[trigger] names(r@).contains(x) <==> reachable(*s).contains(x),
{
    let ghost sd = *s;
    let mut found: Vec<Vec<char>> = Vec::new();
    let mut queue: Vec<Vec<char>> = Vec::new();
    let q = root_or(&s.query, "Query");
    let m = root_or(&s.mutation, "Mutation");
    let sub = root_or(&s.subscription, "Subscription");
    proof {
        assert(names(found@) =~= Seq::<Seq<char>>::empty());
        assert(names(queue@) =~= Seq::<Seq<char>>::empty());
        assert(root_names(sd).contains(q@) && root_names(sd).contains(m@) && root_names(sd).contains(sub@));
    }
    let ghost f0 = names(found@);
    add_found(&mut found, &mut queue, &q);
    proof { if !f0.contains(q@) { lemma_push_no_dup(f0, q@); } lemma_add_step(f0, names(found@), q@); }
    let ghost f1 = names(found@);
    add_found(&mut found, &mut queue, &m);
    proof { if !f1.contains(m@) { lemma_push_no_dup(f1, m@); } lemma_add_step(f1, names(found@), m@); }
    let ghost f2 = names(found@);
    add_found(&mut found, &mut queue, &sub);
    proof {
        if !f2.contains(sub@) { lemma_push_no_dup(f2, sub@); }
        lemma_add_step(f2, names(found@), sub@);
        let f = names(found@);
        assert(f == names(queue@));
        assert(f.contains(q@) && f.contains(m@) && f.contains(sub@));
        assert forall|x: Seq<char>| #[trigger] f.contains(x) implies root_names(sd).contains(x) by {
            if !f2.contains(x) { assert(x == sub@); }
            else if !f1.contains(x) { assert(x == m@); }
            else { assert(!f0.contains(x)); assert(x == q@); }
        }
        assert(search_inv(sd, f, f, 0));
        assert forall|x: Seq<char>| #[trigger] root_names(sd).contains(x) implies f.contains(x) by {}
    }
    let ghost b0 = names(found@);
    add_unsearched(&mut found, &chars_of("String"));
    proof { lemma_add_builtin(sd, b0, names(found@), names(queue@), "String"@); }
    let ghost b1 = names(found@);
    add_unsearched(&mut found, &chars_of("Int"));
    proof { lemma_add_builtin(sd, b1, names(found@), names(queue@), "Int"@); }
    let ghost b2 = names(found@);
    add_unsearched(&mut found, &chars_of("Float"));
    proof { lemma_add_builtin(sd, b2, names(found@), names(queue@), "Float"@); }
    let ghost b3 = names(found@);
    add_unsearched(&mut found, &chars_of("Boolean"));
    proof { lemma_add_builtin(sd, b3, names(found@), names(queue@), "Boolean"@); }
    let ghost b4 = names(found@);
    add_unsearched(&mut found, &chars_of("ID"));
    proof {
        lemma_add_builtin(sd, b4, names(found@), names(queue@), "ID"@);
        let f = names(found@);
        assert(b1.contains("String"@) && b2.contains("String"@) && b3.contains("String"@) && b4.contains("String"@));
        assert(b2.contains("Int"@) && b3.contains("Int"@) && b4.contains("Int"@));
        assert(b3.contains("Float"@) && b4.contains("Float"@));
        assert(b4.contains("Boolean"@));
        assert(f.contains("String"@) && f.contains("Int"@) && f.contains("Float"@) && f.contains("Boolean"@) && f.contains("ID"@));
        assert(found_ok(f));
    }
    let ghost dsrc = directive_argument_types(sd.directives@);
    for i in 0..s.directives.len()
        invariant
            sd == *s,
            dsrc == directive_argument_types(sd.directives@),
            search_inv(sd, names(found@), names(queue@), 0),
            found_ok(names(found@)),
            forall|x: Seq<char>| #[trigger] root_names(sd).contains(x) ==> names(found@).contains(x),
            forall|k: int, a: int| 0 <= k < i && 0 <= a < sd.directives@[k].arguments@.len()
                ==> names(found@).contains(#[trigger] base_name(sd.directives@[k].arguments@[a].ty)),
    {
        let n_args = s.directives[i].arguments.len();
        for a in 0..n_args
            invariant
                sd == *s,
                i < sd.directives@.len(),
                n_args == sd.directives@[i as int].arguments@.len(),
                dsrc == directive_argument_types(sd.directives@),
                search_inv(sd, names(found@), names(queue@), 0),
                found_ok(names(found@)),
                forall|x: Seq<char>| #[trigger] root_names(sd).contains(x) ==> names(found@).contains(x),
                forall|k: int, b: int| 0 <= k < i && 0 <= b < sd.directives@[k].arguments@.len()
                    ==> names(found@).contains(#[trigger] base_name(sd.directives@[k].arguments@[b].ty)),
                forall|b: int| 0 <= b < a ==> names(found@).contains(#[trigger] base_name(sd.directives@[i as int].arguments@[b].ty)),
        {
            let ghost of = names(found@);
            let ghost oq = names(queue@);
            proof { assert(dsrc.contains(base_name(sd.directives@[i as int].arguments@[a as int].ty))); }
            add_from(&mut found, &mut queue, &chars_of(s.directives[i].arguments[a].ty.base()), Ghost(dsrc));
            proof {
                let nf = names(found@);
                let nq = names(queue@);
                assert forall|r: Set<Seq<char>>, x: Seq<char>| #[trigger] closed(sd, r) && #[trigger] dsrc.contains(x) implies r.contains(x) by {
                    assert(seeds(sd).contains(x));
                }
                lemma_inv_grow(sd, of, nf, oq, nq, dsrc, 0);
                assert forall|x: Seq<char>| #[trigger] root_names(sd).contains(x) implies nf.contains(x) by {
                    lemma_grows_keeps(of, nf, oq, nq, dsrc, x);
                }
                assert forall|k: int, b: int| 0 <= k < i && 0 <= b < sd.directives@[k].arguments@.len()
                    implies nf.contains(#[trigger] base_name(sd.directives@[k].arguments@[b].ty)) by {
                    lemma_grows_keeps(of, nf, oq, nq, dsrc, base_name(sd.directives@[k].arguments@[b].ty));
                }
                assert forall|b: int| 0 <= b < a + 1 implies nf.contains(#[trigger] base_name(sd.directives@[i as int].arguments@[b].ty)) by {
                    if b < a {
                        lemma_grows_keeps(of, nf, oq, nq, dsrc, base_name(sd.directives@[i as int].arguments@[b].ty));
                    }
                }
            }
        }
    }
    proof {
        let f = names(found@);
        assert forall|x: Seq<char>| #[trigger] seeds(sd).contains(x) implies f.contains(x) by {
            if !root_names(sd).contains(x) && !builtin_scalars().contains(x) {
                let (k, a) = choose|k: int, a: int| 0 <= k < sd.directives@.len() && 0 <= a < sd.directives@[k].arguments@.len()
                    && #[trigger] base_name(sd.directives@[k].arguments@[a].ty) == x;
            }
        }
        lemma_universe(sd);
        assert forall|i: int| 0 <= i < f.len() implies universe(sd).contains(#[trigger] f[i]) by {
            let r = Set::new(|y: Seq<char>| seeds(sd).contains(y) || universe(sd).contains(y));
            assert(closed(sd, r));
            assert(f.contains(f[i]));
            assert(r.contains(f[i]));
        }
    }
    let mut head: usize = 0;
    while head < queue.len()
        invariant
            search_inv(sd, names(found@), names(queue@), head as int),
            found_ok(names(found@)),
            forall|x: Seq<char>| #[trigger] seeds(sd).contains(x) ==> names(found@).contains(x),
            forall|i: int| 0 <= i < names(found@).len() ==> universe(sd).contains(#[trigger] names(found@)[i]),
            sd == *s,
        decreases universe(sd).len() - names(found@).len() + names(queue@).len() - head,
    {
        let t = crate::text::sub_chars(&queue[head], 0, queue[head].len());
        let ghost of = names(found@);
        let ghost oq = names(queue@);
        proof {
            assert(t@ == oq[head as int]);
            lemma_len_bound(of, universe(sd));
        }
        expand(s, &t, &mut found, &mut queue);
        proof {
            let nf = names(found@);
            let nq = names(queue@);
            let src = successors(sd, t@);
            assert(of.contains(t@));
            assert(!unexpanded(sd).contains(t@));
            assert forall|r: Set<Seq<char>>, x: Seq<char>| #[trigger] closed(sd, r) && #[trigger] src.contains(x) implies r.contains(x) by {
                assert(r.contains(t@));
            }
            lemma_inv_grow(sd, of, nf, oq, nq, src, head as int);
            assert forall|i: int, x: Seq<char>| 0 <= i < head + 1 && #[trigger] successors(sd, nq[i]).contains(x) implies #[trigger] nf.contains(x) by {
                if i == head {
                    assert(nq[i] == oq[i]);
                }
            }
            lemma_universe(sd);
            assert forall|i: int| 0 <= i < nf.len() implies universe(sd).contains(#[trigger] nf[i]) by {
                if i < of.len() {
                    assert(nf.take(of.len() as int)[i] == nf[i]);
                } else {
                    assert(src.contains(nf[i]));
                }
            }
            assert forall|x: Seq<char>| #[trigger] seeds(sd).contains(x) implies nf.contains(x) by {
                lemma_grows_keeps(of, nf, oq, nq, src, x);
            }
            lemma_len_bound(nf, universe(sd));
        }
        head += 1;
    }
    proof {
        let f = names(found@);
        let fs = Set::new(|x: Seq<char>| f.contains(x));
        assert(closed(sd, fs)) by {
            assert forall|t: Seq<char>| #[trigger] fs.contains(t) && !unexpanded(sd).contains(t) implies successors(sd, t).subset_of(fs) by {
                let i = choose|i: int| 0 <= i < names(queue@).len() && names(queue@)[i] == t;
                assert forall|x: Seq<char>| successors(sd, t).contains(x) implies fs.contains(x) by {
                    assert(successors(sd, names(queue@)[i]).contains(x));
                }
            }
        }
        assert forall|x: Seq<char>| #[trigger] f.contains(x) <==> reachable(sd).contains(x) by {
            if reachable(sd).contains(x) {
                assert(fs.contains(x));
            }
        }
    }
    found
}


/// The root types, the built-in scalars and the types of directive
/// arguments are always reachable, and every successor of a reachable type
/// that is searched is reachable.
pub proof fn law_reachable_closed(s: Schema, t: Seq<char>, x: Seq<char>)
    ensures
        seeds(s).contains(x) ==> reachable(s).contains(x),
        reachable(s).contains(t) && !unexpanded(s).contains(t) && successors(s, t).contains(x)
            ==> reachable(s).contains(x),
{
    if reachable(s).contains(t) && !unexpanded(s).contains(t) && successors(s, t).contains(x) {
        assert forall|r: Set<Seq<char>>| #[trigger] closed(s, r) implies r.contains(x) by {
            assert(r.contains(t));
            assert(successors(s, t).subset_of(r));
        }
    }
    if seeds(s).contains(x) {
        assert forall|r: Set<Seq<char>>| #[trigger] closed(s, r) implies r.contains(x) by {
            assert(seeds(s).subset_of(r));
        }
    }
}

} // verus!
