//! `relay-connection-types`: a Connection type is an object type named
//! `...Connection`, with an `edges` field of a list type and a non-null
//! `pageInfo: PageInfo!` field.
use vstd::prelude::*;
use crate::model::{Diagnostic, Node, Span, SyntaxKind, Tree, diag_views, plain_diag, push_diag, find_up, find_up_exec};
use crate::schema::{Schema, TypeKind, TypeRef, type_index, find_type, field_index, find_field};
use crate::text::{chars_of, chars_eq, ends_with, exec_ends_with, push_str};

verus! {

/// The `relay-connection-types` rule.
pub struct RelayConnectionTypes;

/// The kinds of object type definitions and extensions.
pub open spec fn object_kinds() -> Seq<SyntaxKind> {
    seq![SyntaxKind::OBJECT_TYPE_DEFINITION, SyntaxKind::OBJECT_TYPE_EXTENSION]
}

/// The kinds of the other type definitions and extensions the rule reads.
pub open spec fn other_type_kinds() -> Seq<SyntaxKind> {
    seq![
        SyntaxKind::SCALAR_TYPE_DEFINITION,
        SyntaxKind::UNION_TYPE_DEFINITION,
        SyntaxKind::UNION_TYPE_EXTENSION,
        SyntaxKind::INPUT_OBJECT_TYPE_DEFINITION,
        SyntaxKind::INPUT_OBJECT_TYPE_EXTENSION,
        SyntaxKind::ENUM_TYPE_DEFINITION,
        SyntaxKind::ENUM_TYPE_EXTENSION,
        SyntaxKind::INTERFACE_TYPE_DEFINITION,
        SyntaxKind::INTERFACE_TYPE_EXTENSION,
    ]
}

/// Node `c` is the name node of a named type definition or extension.
pub open spec fn is_def_name(nodes: Seq<Node>, c: int) -> bool {
    &&& 0 <= c < nodes.len()
    &&& nodes[c].kind == SyntaxKind::NAME
    &&& nodes[c].span is Some
    &&& nodes[c].parent matches Some(p)
    &&& p < nodes.len()
    &&& (object_kinds().contains(nodes[p as int].kind) || other_type_kinds().contains(nodes[p as int].kind))
    &&& nodes[p as int].name is Some
}

/// The definition that name node `c` names.
pub open spec fn def_node(nodes: Seq<Node>, c: int) -> int {
    nodes[c].parent.unwrap() as int
}

/// The name of the definition that name node `c` names.
pub open spec fn def_name_of(nodes: Seq<Node>, c: int) -> Seq<char> {
    nodes[def_node(nodes, c)].name.unwrap()@
}

/// The span by which fields find the definition named at `c`: the
/// definition's own, else the name's.
pub open spec fn def_span(nodes: Seq<Node>, c: int) -> Span {
    match nodes[def_node(nodes, c)].span {
        Some(s) => s,
        None => nodes[c].span.unwrap(),
    }
}

/// Node `c` names the first definition recorded with the span `sp`.
pub open spec fn first_def_at(nodes: Seq<Node>, sp: Span, c: int) -> bool {
    &&& is_def_name(nodes, c)
    &&& def_span(nodes, c) == sp
    &&& forall|k: int| 0 <= k < c ==> !(#[trigger] is_def_name(nodes, k) && def_span(nodes, k) == sp)
}

/// Field node `j` counts for the definition named at `c`: its object's
/// span leads to `c`, which comes earlier and has the object's name.
pub open spec fn field_of(nodes: Seq<Node>, j: int, c: int) -> bool {
    &&& c < j
    &&& nodes[j].kind == SyntaxKind::FIELD_DEFINITION
    &&& nodes[j].name is Some
    &&& find_up(nodes, j, object_kinds()) matches Some(o)
    &&& nodes[o].name is Some
    &&& nodes[o].span matches Some(osp)
    &&& first_def_at(nodes, osp, c)
    &&& def_name_of(nodes, c) == nodes[o].name.unwrap()@
}

/// The definition named at `c` has a field named `f`.
pub open spec fn def_has_field(nodes: Seq<Node>, c: int, f: Seq<char>) -> bool {
    exists|j: int| 0 <= j < nodes.len() && #[trigger] field_of(nodes, j, c) && nodes[j].name.unwrap()@ == f
}

/// The findings for the definition named at `c`.
pub open spec fn def_findings_at(nodes: Seq<Node>, c: int) -> Seq<(Seq<char>, Span, Seq<(Seq<char>, Span, Seq<char>)>)> {
    if is_def_name(nodes, c) {
        let sp = nodes[c].span.unwrap();
        let is_object = object_kinds().contains(nodes[def_node(nodes, c)].kind);
        let edges = def_has_field(nodes, c, "edges"@);
        let page_info = def_has_field(nodes, c, "pageInfo"@);
        if ends_with(def_name_of(nodes, c), "Connection"@) {
            if !is_object {
                seq![plain_diag("Connection type must be an Object type."@, sp)]
            } else {
                (if edges { Seq::empty() } else {
                    seq![plain_diag("Connection type must contain a field `edges` that return a list type."@, sp)]
                }) + (if page_info { Seq::empty() } else {
                    seq![plain_diag("Connection type must contain a field `pageInfo` that return a non-null `PageInfo` Object type."@, sp)]
                })
            }
        } else if is_object && edges && page_info {
            seq![plain_diag("Connection type must have `Connection` suffix."@, sp)]
        } else {
            Seq::empty()
        }
    } else {
        Seq::empty()
    }
}

/// The definition findings for the first `n` nodes, in order.
pub open spec fn def_findings(nodes: Seq<Node>, n: int) -> Seq<(Seq<char>, Span, Seq<(Seq<char>, Span, Seq<char>)>)>
    decreases n,
{
    if n <= 0 { Seq::empty() } else { def_findings(nodes, n - 1) + def_findings_at(nodes, n - 1) }
}

/// The field `f` of the object type named `t` in the schema.
pub open spec fn object_field_type(s: Schema, t: Seq<char>, f: Seq<char>) -> Option<TypeRef> {
    match type_index(s.types@, t) {
        Some(k) => if s.types@[k].kind == TypeKind::Object {
            match field_index(s.types@[k].fields@, f) {
                Some(j) => Some(s.types@[k].fields@[j].ty),
                None => None,
            }
        } else {
            None
        },
        None => None,
    }
}

/// The type is a list, nullable or not.
pub open spec fn is_list_type(t: TypeRef) -> bool {
    t is List || t is NonNullList
}

/// The finding for node `t`: the outer type node of an `edges` or
/// `pageInfo` field of an object, when the schema's type of that field is
/// not a list (for `edges`), or not `PageInfo!` (for `pageInfo`).
pub open spec fn type_finding(nodes: Seq<Node>, s: Schema, t: int) -> Option<(Seq<char>, Span, Seq<(Seq<char>, Span, Seq<char>)>)> {
    let n = nodes[t];
    if (n.kind == SyntaxKind::NAMED_TYPE || n.kind == SyntaxKind::LIST_TYPE || n.kind == SyntaxKind::NON_NULL_TYPE)
        && n.span is Some && n.parent is Some && n.parent.unwrap() < nodes.len() {
        let f = n.parent.unwrap() as int;
        let fname = match nodes[f].name { Some(x) => x@, None => Seq::empty() };
        if nodes[f].kind == SyntaxKind::FIELD_DEFINITION && nodes[f].name is Some && (fname == "edges"@ || fname == "pageInfo"@) {
            match find_up(nodes, f, object_kinds()) {
                Some(o) => if nodes[o].name is Some {
                    match object_field_type(s, nodes[o].name.unwrap()@, fname) {
                        Some(ty) => {
                            if fname == "edges"@ {
                                let valid = n.kind == SyntaxKind::LIST_TYPE || (n.kind == SyntaxKind::NON_NULL_TYPE && is_list_type(ty));
                                if valid { None } else { Some(plain_diag("`edges` field must return a list type."@, n.span.unwrap())) }
                            } else {
                                let valid = n.kind == SyntaxKind::NON_NULL_TYPE && (ty matches TypeRef::NonNullNamed(x) && x@ == "PageInfo"@);
                                if valid { None } else { Some(plain_diag("`pageInfo` field must return a non-null `PageInfo` Object type."@, n.span.unwrap())) }
                            }
                        },
                        None => None,
                    }
                } else {
                    None
                },
                None => None,
            }
        } else {
            None
        }
    } else {
        None
    }
}

/// The type findings for the first `n` nodes, in order.
pub open spec fn type_findings(nodes: Seq<Node>, s: Schema, n: int) -> Seq<(Seq<char>, Span, Seq<(Seq<char>, Span, Seq<char>)>)>
    decreases n,
{
    if n <= 0 {
        Seq::empty()
    } else {
        match type_finding(nodes, s, n - 1) {
            Some(d) => type_findings(nodes, s, n - 1).push(d),
            None => type_findings(nodes, s, n - 1),
        }
    }
}

fn kind_is_object(k: SyntaxKind) -> (r: bool)
    ensures r == object_kinds().contains(k),
{
    let r = k == SyntaxKind::OBJECT_TYPE_DEFINITION || k == SyntaxKind::OBJECT_TYPE_EXTENSION;
    proof {
        if object_kinds().contains(k) {
            let i = choose|i: int| 0 <= i < object_kinds().len() && object_kinds()[i] == k;
        }
        if k == SyntaxKind::OBJECT_TYPE_DEFINITION { assert(object_kinds()[0] == k); }
        if k == SyntaxKind::OBJECT_TYPE_EXTENSION { assert(object_kinds()[1] == k); }
    }
    r
}

fn kind_is_other(k: SyntaxKind) -> (r: bool)
    ensures r == other_type_kinds().contains(k),
{
    let ks = vec![
        SyntaxKind::SCALAR_TYPE_DEFINITION,
        SyntaxKind::UNION_TYPE_DEFINITION,
        SyntaxKind::UNION_TYPE_EXTENSION,
        SyntaxKind::INPUT_OBJECT_TYPE_DEFINITION,
        SyntaxKind::INPUT_OBJECT_TYPE_EXTENSION,
        SyntaxKind::ENUM_TYPE_DEFINITION,
        SyntaxKind::ENUM_TYPE_EXTENSION,
        SyntaxKind::INTERFACE_TYPE_DEFINITION,
        SyntaxKind::INTERFACE_TYPE_EXTENSION,
    ];
    proof { assert(ks@ == other_type_kinds()); }
    for i in 0..ks.len()
        invariant
            ks@ == other_type_kinds(),
            forall|j: int| 0 <= j < i ==> ks@[j] != k,
    {
        if ks[i] == k {
            proof { assert(ks@[i as int] == k); }
            return true;
        }
    }
    false
}

fn exec_is_def_name(tree: &Tree, c: usize) -> (r: bool)
    requires tree.wf(), c < tree.nodes@.len(),
    ensures r == is_def_name(tree.nodes@, c as int),
{
    let n = &tree.nodes[c];
    if n.kind != SyntaxKind::NAME || n.span.is_none() {
        return false;
    }
    match n.parent {
        Some(p) => {
            let pk = tree.nodes[p].kind;
            (kind_is_object(pk) || kind_is_other(pk)) && tree.nodes[p].name.is_some()
        },
        None => false,
    }
}

fn exec_def_span(tree: &Tree, c: usize) -> (r: Span)
    requires tree.wf(), is_def_name(tree.nodes@, c as int),
    ensures r == def_span(tree.nodes@, c as int),
{
    let p = tree.nodes[c].parent.unwrap();
    match tree.nodes[p].span {
        Some(s) => s,
        None => tree.nodes[c].span.unwrap(),
    }
}

fn exec_first_def_at(tree: &Tree, c: usize, sp: Span) -> (r: bool)
    requires tree.wf(), is_def_name(tree.nodes@, c as int), def_span(tree.nodes@, c as int) == sp,
    ensures r == first_def_at(tree.nodes@, sp, c as int),
{
    for k in 0..c
        invariant
            tree.wf(),
            c < tree.nodes@.len(),
            forall|q: int| 0 <= q < k ==> !(#[trigger] is_def_name(tree.nodes@, q) && def_span(tree.nodes@, q) == sp),
    {
        if exec_is_def_name(tree, k) && exec_def_span(tree, k) == sp {
            return false;
        }
    }
    true
}

/// Whether field node `j` counts for the first definition named at `c`,
/// whose span is `sp` and whose name is `name`.
fn exec_field_of(tree: &Tree, kinds: &Vec<SyntaxKind>, j: usize, c: usize, sp: Span, name: &Vec<char>) -> (r: bool)
    requires
        tree.wf(),
        j < tree.nodes@.len(),
        kinds@ == object_kinds(),
        first_def_at(tree.nodes@, sp, c as int),
        name@ == def_name_of(tree.nodes@, c as int),
    ensures r == field_of(tree.nodes@, j as int, c as int),
{
    let n = &tree.nodes[j];
    if c >= j || n.kind != SyntaxKind::FIELD_DEFINITION || n.name.is_none() {
        return false;
    }
    match find_up_exec(tree, j, kinds) {
        Some(o) => {
            let on = &tree.nodes[o];
            match (&on.name, on.span) {
                (Some(oname), Some(osp)) => {
                    proof {
                        if first_def_at(tree.nodes@, osp, c as int) {
                            assert(def_span(tree.nodes@, c as int) == osp);
                        }
                    }
                    osp == sp && chars_eq(name, &chars_of(oname.as_str()))
                },
                _ => false,
            }
        },
        None => false,
    }
}

fn exec_def_has_field(tree: &Tree, kinds: &Vec<SyntaxKind>, c: usize, sp: Span, name: &Vec<char>, f: &str) -> (r: bool)
    requires
        tree.wf(),
        kinds@ == object_kinds(),
        first_def_at(tree.nodes@, sp, c as int),
        name@ == def_name_of(tree.nodes@, c as int),
    ensures r == def_has_field(tree.nodes@, c as int, f@),
{
    for j in 0..tree.nodes.len()
        invariant
            tree.wf(),
            kinds@ == object_kinds(),
            first_def_at(tree.nodes@, sp, c as int),
            name@ == def_name_of(tree.nodes@, c as int),
            forall|q: int| 0 <= q < j ==> !(#[trigger] field_of(tree.nodes@, q, c as int) && tree.nodes@[q].name.unwrap()@ == f@),
    {
        if exec_field_of(tree, kinds, j, c, sp, name) {
            let fname = tree.nodes[j].name.as_ref().unwrap();
            if chars_eq(&chars_of(fname.as_str()), &chars_of(f)) {
                return true;
            }
        }
    }
    false
}

fn exec_object_field_type<'a>(s: &'a Schema, t: &str, f: &str) -> (r: Option<&'a TypeRef>)
    ensures
        match r {
            Some(ty) => object_field_type(*s, t@, f@) == Some(*ty),
            None => object_field_type(*s, t@, f@) is None,
        },
{
    match find_type(&s.types, t) {
        Some(k) => {
            if s.types[k].kind == TypeKind::Object {
                match find_field(&s.types[k].fields, f) {
                    Some(j) => Some(&s.types[k].fields[j].ty),
                    None => None,
                }
            } else {
                None
            }
        },
        None => None,
    }
}

/// Whether the type is exactly `PageInfo!`.
pub fn is_page_info_ref(ty: &TypeRef) -> (r: bool)
    ensures r == (ty matches TypeRef::NonNullNamed(x) && x@ == "PageInfo"@),
{
    match ty {
        TypeRef::NonNullNamed(x) => chars_eq(&chars_of(x.as_str()), &chars_of("PageInfo")),
        _ => false,
    }
}

fn push_msg(out: &mut Vec<Diagnostic>, msg: &str, at: Span)
    ensures diag_views(final(out)@) == diag_views(old(out)@).push(plain_diag(msg@, at)),
{
    push_diag(out, &chars_of(msg), at);
}

impl RelayConnectionTypes {
    /// Reports the type definitions of the document `tree` that break the
    /// Connection pattern (each at its name), then the `edges` and
    /// `pageInfo` fields of objects whose type in the schema `schema` has
    /// the wrong shape (each at its type). The rule needs a schema: without
    /// one it reports nothing.
    pub fn check(&self, tree: &Tree, schema: Option<&Schema>) -> (r: Vec<Diagnostic>)
        requires tree.wf(),
        ensures
            schema is None ==> r@.len() == 0,
            schema is Some ==> diag_views(r@) == def_findings(tree.nodes@, tree.nodes@.len() as int)
                + type_findings(tree.nodes@, *schema.unwrap(), tree.nodes@.len() as int),
    {
        let mut out: Vec<Diagnostic> = Vec::new();
        let s = match schema {
            Some(s) => s,
            None => return out,
        };
        let kinds = vec![SyntaxKind::OBJECT_TYPE_DEFINITION, SyntaxKind::OBJECT_TYPE_EXTENSION];
        proof { assert(kinds@ == object_kinds()); }
        let ghost nodes = tree.nodes@;
        for c in 0..tree.nodes.len()
            invariant
                tree.wf(),
                nodes == tree.nodes@,
                kinds@ == object_kinds(),
                diag_views(out@) == def_findings(nodes, c as int),
        {
            let ghost before = diag_views(out@);
            if exec_is_def_name(tree, c) {
                let sp = tree.nodes[c].span.unwrap();
                let p = tree.nodes[c].parent.unwrap();
                let name = chars_of(tree.nodes[p].name.as_ref().unwrap().as_str());
                let is_object = kind_is_object(tree.nodes[p].kind);
                let dsp = exec_def_span(tree, c);
                let first = exec_first_def_at(tree, c, dsp);
                let edges = first && exec_def_has_field(tree, &kinds, c, dsp, &name, "edges");
                let page_info = first && exec_def_has_field(tree, &kinds, c, dsp, &name, "pageInfo");
                proof {
                    if !first {
                        if def_has_field(nodes, c as int, "edges"@) {
                            let j = choose|j: int| 0 <= j < nodes.len() && #[trigger] field_of(nodes, j, c as int) && nodes[j].name.unwrap()@ == "edges"@;
                            let o = find_up(nodes, j, object_kinds()).unwrap();
                            assert(def_span(nodes, c as int) == nodes[o].span.unwrap());
                        }
                        if def_has_field(nodes, c as int, "pageInfo"@) {
                            let j = choose|j: int| 0 <= j < nodes.len() && #[trigger] field_of(nodes, j, c as int) && nodes[j].name.unwrap()@ == "pageInfo"@;
                            let o = find_up(nodes, j, object_kinds()).unwrap();
                            assert(def_span(nodes, c as int) == nodes[o].span.unwrap());
                        }
                    }
                    assert(edges == def_has_field(nodes, c as int, "edges"@));
                    assert(page_info == def_has_field(nodes, c as int, "pageInfo"@));
                }
                if exec_ends_with(&name, &chars_of("Connection")) {
                    if !is_object {
                        push_msg(&mut out, "Connection type must be an Object type.", sp);
                    } else {
                        if !edges {
                            push_msg(&mut out, "Connection type must contain a field `edges` that return a list type.", sp);
                        }
                        if !page_info {
                            push_msg(&mut out, "Connection type must contain a field `pageInfo` that return a non-null `PageInfo` Object type.", sp);
                        }
                    }
                } else if is_object && edges && page_info {
                    push_msg(&mut out, "Connection type must have `Connection` suffix.", sp);
                }
                proof { assert(diag_views(out@) =~= before + def_findings_at(nodes, c as int)); }
            } else {
                proof { assert(diag_views(out@) =~= before + def_findings_at(nodes, c as int)); }
            }
        }
        let ghost defs = diag_views(out@);
        for t in 0..tree.nodes.len()
            invariant
                tree.wf(),
                nodes == tree.nodes@,
                kinds@ == object_kinds(),
                diag_views(out@) == defs + type_findings(nodes, *s, t as int),
        {
            let n = &tree.nodes[t];
            if n.kind == SyntaxKind::NAMED_TYPE || n.kind == SyntaxKind::LIST_TYPE || n.kind == SyntaxKind::NON_NULL_TYPE {
                match (n.span, n.parent) {
                    (Some(sp), Some(f)) => {
                        let fnode = &tree.nodes[f];
                        if fnode.kind == SyntaxKind::FIELD_DEFINITION && fnode.name.is_some() {
                            let fname = chars_of(fnode.name.as_ref().unwrap().as_str());
                            let is_edges = chars_eq(&fname, &chars_of("edges"));
                            let is_page_info = chars_eq(&fname, &chars_of("pageInfo"));
                            if is_edges || is_page_info {
                                match find_up_exec(tree, f, &kinds) {
                                    Some(o) => {
                                        match &tree.nodes[o].name {
                                            Some(oname) => {
                                                match exec_object_field_type(s, oname.as_str(), fnode.name.as_ref().unwrap().as_str()) {
                                                    Some(ty) => {
                                                        if is_edges {
                                                            let is_list = match ty {
                                                                TypeRef::List(_) | TypeRef::NonNullList(_) => true,
                                                                _ => false,
                                                            };
                                                            let valid = n.kind == SyntaxKind::LIST_TYPE || (n.kind == SyntaxKind::NON_NULL_TYPE && is_list);
                                                            if !valid {
                                                                push_msg(&mut out, "`edges` field must return a list type.", sp);
                                                            }
                                                        } else {
                                                            let page_info_type = is_page_info_ref(ty);
                                                            let valid = n.kind == SyntaxKind::NON_NULL_TYPE && page_info_type;
                                                            if !valid {
                                                                push_msg(&mut out, "`pageInfo` field must return a non-null `PageInfo` Object type.", sp);
                                                            }
                                                        }
                                                    },
                                                    None => {},
                                                }
                                            },
                                            None => {},
                                        }
                                    },
                                    None => {},
                                }
                            }
                        }
                    },
                    _ => {},
                }
            }
        }
        out
    }
}

} // verus!
