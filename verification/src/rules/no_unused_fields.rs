//! `no-unused-fields`: every field of the schema's objects and interfaces
//! is selected somewhere in the project's operations and fragments.
use vstd::prelude::*;
use crate::model::{Diagnostic, Span, SyntaxKind, Tree, diag_views, plain_diag, push_diag};
use crate::executable::{ExecutableDef, pairs_view};
use crate::usage::{used_by, add_used, def_name};
use crate::schema::{Schema, TypeDef, TypeKind};
use crate::text::{chars_of, chars_eq, push_str, starts_with, exec_starts_with, has_text};
use crate::case::views;

verus! {

/// The `no-unused-fields` rule.
pub struct NoUnusedFields;

/// The pairs the first `m` operations select.
pub open spec fn ops_used(s: Schema, frags: Seq<ExecutableDef>, ops: Seq<ExecutableDef>, m: int) -> Set<(Seq<char>, Seq<char>)>
    decreases m,
{
    if m <= 0 {
        Set::empty()
    } else {
        ops_used(s, frags, ops, m - 1).union(used_by(s, frags, ops[m - 1].selection_set))
    }
}

/// The pairs selected once the operations and the first `m` fragments are
/// taken in: a fragment whose own name already counts as a field of its
/// type is passed over.
pub open spec fn frags_used(s: Schema, frags: Seq<ExecutableDef>, ops: Seq<ExecutableDef>, m: int) -> Set<(Seq<char>, Seq<char>)>
    decreases m,
{
    if m <= 0 {
        ops_used(s, frags, ops, ops.len() as int)
    } else {
        let prev = frags_used(s, frags, ops, m - 1);
        let f = frags[m - 1];
        let skip = match def_name(f) {
            Some(n) => prev.contains((f.selection_set.ty@, n)),
            None => false,
        };
        if skip { prev } else { prev.union(used_by(s, frags, f.selection_set)) }
    }
}

/// The findings for the first `n` fields of the type `t`.
pub open spec fn field_findings(t: TypeDef, used: Set<(Seq<char>, Seq<char>)>, ignore_field: Seq<Seq<char>>, n: int) -> Seq<(Seq<char>, Span, Seq<(Seq<char>, Span, Seq<char>)>)>
    decreases n,
{
    if n <= 0 {
        Seq::empty()
    } else {
        let prev = field_findings(t, used, ignore_field, n - 1);
        let f = t.fields@[n - 1].name@;
        if ignore_field.contains(t.name@ + "."@ + f) || ignore_field.contains(f) || used.contains((t.name@, f)) {
            prev
        } else {
            prev.push(plain_diag("Field \""@ + f + "\" is unused"@, Span { offset: 0, len: 0 }))
        }
    }
}

/// The findings for the type `t`: none for introspection types, ignored
/// types and types without fields.
pub open spec fn type_findings(t: TypeDef, used: Set<(Seq<char>, Seq<char>)>, ignore_type: Seq<Seq<char>>, ignore_field: Seq<Seq<char>>) -> Seq<(Seq<char>, Span, Seq<(Seq<char>, Span, Seq<char>)>)> {
    if starts_with(t.name@, "__"@) || ignore_type.contains(t.name@) || !(t.kind == TypeKind::Object || t.kind == TypeKind::Interface) {
        Seq::empty()
    } else {
        field_findings(t, used, ignore_field, t.fields@.len() as int)
    }
}

/// The findings for the first `n` types of the schema.
pub open spec fn unused_findings(types: Seq<TypeDef>, used: Set<(Seq<char>, Seq<char>)>, ignore_type: Seq<Seq<char>>, ignore_field: Seq<Seq<char>>, n: int) -> Seq<(Seq<char>, Span, Seq<(Seq<char>, Span, Seq<char>)>)>
    decreases n,
{
    if n <= 0 {
        Seq::empty()
    } else {
        unused_findings(types, used, ignore_type, ignore_field, n - 1) + type_findings(types[n - 1], used, ignore_type, ignore_field)
    }
}

/// The document defines a field (it is a schema document).
pub open spec fn defines_fields(t: Tree) -> bool {
    exists|i: int| 0 <= i < t.nodes@.len() && #[trigger] t.nodes@[i].kind == SyntaxKind::FIELD_DEFINITION
}

/// What the rule reports on a document: for a schema document, every field
/// of an object or interface of `s` that no operation or fragment selects.
pub open spec fn no_unused_findings(t: Tree, s: Schema, ops: Seq<ExecutableDef>, frags: Seq<ExecutableDef>, ignore_type: Seq<Seq<char>>, ignore_field: Seq<Seq<char>>) -> Seq<(Seq<char>, Span, Seq<(Seq<char>, Span, Seq<char>)>)> {
    if !defines_fields(t) {
        Seq::empty()
    } else {
        unused_findings(s.types@, frags_used(s, frags, ops, frags.len() as int), ignore_type, ignore_field, s.types@.len() as int)
    }
}

fn contains_pair(v: &Vec<(Vec<char>, Vec<char>)>, t: &Vec<char>, f: &Vec<char>) -> (r: bool)
    ensures r == pairs_view(v@).contains((t@, f@)),
{
    for i in 0..v.len()
        invariant forall|j: int| 0 <= j < i ==> #[trigger] pairs_view(v@)[j] != (t@, f@),
    {
        if chars_eq(&v[i].0, t) && chars_eq(&v[i].1, f) {
            proof { assert(pairs_view(v@)[i as int] == (t@, f@)); }
            return true;
        }
    }
    proof {
        if pairs_view(v@).contains((t@, f@)) {
            let j = choose|j: int| 0 <= j < pairs_view(v@).len() && pairs_view(v@)[j] == (t@, f@);
        }
    }
    false
}

impl NoUnusedFields {
    /// On a schema document `tree`, reports every field of an object or
    /// interface of `s` that neither the `operations` nor the `fragments`
    /// of the project select (through their own selections and the
    /// fragments they spread), save the types in `ignore_type` and the
    /// fields in `ignore_field` (as `field` or `Type.field`).
    pub fn check(&self, tree: &Tree, s: &Schema, operations: &[ExecutableDef], fragments: &[ExecutableDef], ignore_type: &Vec<String>, ignore_field: &Vec<String>) -> (r: Vec<Diagnostic>)
        ensures
            diag_views(r@) == no_unused_findings(*tree, *s, operations@, fragments@, views(ignore_type@), views(ignore_field@)),
    {
        let mut out: Vec<Diagnostic> = Vec::new();
        let mut schema_doc = false;
        for i in 0..tree.nodes.len()
            invariant schema_doc == exists|j: int| 0 <= j < i && #[trigger] tree.nodes@[j].kind == SyntaxKind::FIELD_DEFINITION,
        {
            if tree.nodes[i].kind == SyntaxKind::FIELD_DEFINITION {
                schema_doc = true;
            }
        }
        if !schema_doc {
            return out;
        }
        let ghost frags = fragments@;
        let mut used: Vec<(Vec<char>, Vec<char>)> = Vec::new();
        for i in 0..operations.len()
            invariant
                frags == fragments@,
                forall|p: (Seq<char>, Seq<char>)| #[trigger] pairs_view(used@).contains(p) <==> ops_used(*s, frags, operations@, i as int).contains(p),
        {
            add_used(s, fragments, &operations[i].selection_set, &mut used);
        }
        for i in 0..fragments.len()
            invariant
                frags == fragments@,
                forall|p: (Seq<char>, Seq<char>)| #[trigger] pairs_view(used@).contains(p) <==> frags_used(*s, frags, operations@, i as int).contains(p),
        {
            let f = &fragments[i];
            let skip = match &f.name {
                Some(n) => contains_pair(&used, &chars_of(f.selection_set.ty.as_str()), &chars_of(n.as_str())),
                None => false,
            };
            if !skip {
                add_used(s, fragments, &f.selection_set, &mut used);
            }
        }
        let ghost u = frags_used(*s, frags, operations@, frags.len() as int);
        let ghost it = views(ignore_type@);
        let ghost ifd = views(ignore_field@);
        for k in 0..s.types.len()
            invariant
                forall|p: (Seq<char>, Seq<char>)| #[trigger] pairs_view(used@).contains(p) <==> u.contains(p),
                it == views(ignore_type@),
                ifd == views(ignore_field@),
                diag_views(out@) == unused_findings(s.types@, u, it, ifd, k as int),
        {
            let t = &s.types[k];
            let tn = chars_of(t.name.as_str());
            let ghost before = diag_views(out@);
            if !(exec_starts_with(&tn, &chars_of("__")) || has_text(ignore_type, t.name.as_str())
                || !(t.kind == TypeKind::Object || t.kind == TypeKind::Interface)) {
                for j in 0..t.fields.len()
                    invariant
                        forall|p: (Seq<char>, Seq<char>)| #[trigger] pairs_view(used@).contains(p) <==> u.contains(p),
                        ifd == views(ignore_field@),
                        tn@ == t.name@,
                        diag_views(out@) == before + field_findings(*t, u, ifd, j as int),
                {
                    let fname = chars_of(t.fields[j].name.as_str());
                    let mut q: Vec<char> = Vec::new();
                    crate::text::push_all(&mut q, &tn);
                    push_str(&mut q, ".");
                    crate::text::push_all(&mut q, &fname);
                    let qs = crate::text::string_of(&q);
                    let ghost b2 = diag_views(out@);
                    if !(has_text(ignore_field, qs.as_str()) || has_text(ignore_field, t.fields[j].name.as_str()) || contains_pair(&used, &tn, &fname)) {
                        let mut m: Vec<char> = Vec::new();
                        push_str(&mut m, "Field \"");
                        crate::text::push_all(&mut m, &fname);
                        push_str(&mut m, "\" is unused");
                        push_diag(&mut out, &m, Span::new(0, 0));
                        proof { assert(diag_views(out@) =~= before + field_findings(*t, u, ifd, j + 1)); }
                    }
                }
            }
            proof { assert(diag_views(out@) =~= unused_findings(s.types@, u, it, ifd, k + 1)); }
        }
        proof {
            assert(defines_fields(*tree));
        }
        out
    }
}

} // verus!
