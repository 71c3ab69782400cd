//! `relay-edge-types`: the types that Connections' `edges` lists hold are
//! object types named `...Edge`, with a `node` field of a named type that
//! implements `Node` and a `cursor` field of a string or scalar type; list
//! fields hold only such edge types.
use vstd::prelude::*;
use crate::model::{Diagnostic, Node, Span, SyntaxKind, Tree, diag_views, plain_diag, push_diag, find_up, find_up_exec};
use crate::rules::relay_connection_types::{object_kinds, object_field_type};
use crate::schema::{Schema, TypeDef, TypeKind, TypeRef, base_name, type_index, find_type, field_index, find_field};
use crate::text::{chars_of, chars_eq, ends_with, exec_ends_with, push_str};

verus! {

/// The `relay-edge-types` rule.
pub struct RelayEdgeTypes;

/// The options of the rule: whether edge types must end in `Edge`, whether
/// their `node` field's type must implement `Node`, and whether list fields
/// may hold only edge types. All are on by default.
pub struct EdgeOptions {
    pub with_edge_suffix: bool,
    pub should_implement_node: bool,
    pub list_type_can_wrap_only_edge_type: bool,
}

impl EdgeOptions {
    /// The default options: every check on.
    pub fn new() -> (o: EdgeOptions)
        ensures o.with_edge_suffix, o.should_implement_node, o.list_type_can_wrap_only_edge_type,
    {
        EdgeOptions { with_edge_suffix: true, should_implement_node: true, list_type_can_wrap_only_edge_type: true }
    }
}

/// The type named `n` is an object type of the schema.
pub open spec fn is_object_type(s: Schema, n: Seq<char>) -> bool {
    type_index(s.types@, n) matches Some(k) && s.types@[k].kind == TypeKind::Object
}

/// The type named `n` is `String`, another built-in scalar, or a scalar of
/// the schema.
pub open spec fn is_scalar_type(s: Schema, n: Seq<char>) -> bool {
    n == "String"@ || n == "Int"@ || n == "Float"@ || n == "Boolean"@ || n == "ID"@
        || (type_index(s.types@, n) matches Some(k) && s.types@[k].kind == TypeKind::Scalar)
}

/// The type is a named type, nullable or not (no list).
pub open spec fn is_named_ref(t: TypeRef) -> bool {
    t is Named || t is NonNullNamed
}

/// Node `t` names the type held by the `edges` field of a type whose name
/// ends in `Connection`.
pub open spec fn edge_ref(nodes: Seq<Node>, t: int) -> bool {
    &&& nodes[t].kind == SyntaxKind::NAMED_TYPE
    &&& nodes[t].name is Some
    &&& nodes[t].span is Some
    &&& find_up(nodes, t, seq![SyntaxKind::FIELD_DEFINITION]) matches Some(f)
    &&& nodes[f].name is Some
    &&& nodes[f].name.unwrap()@ == "edges"@
    &&& find_up(nodes, f, object_kinds()) matches Some(o)
    &&& nodes[o].name is Some
    &&& ends_with(nodes[o].name.unwrap()@, "Connection"@)
}

/// The type named `n` is an edge type: an object type that some
/// Connection's `edges` field names.
pub open spec fn is_edge_type(nodes: Seq<Node>, s: Schema, n: Seq<char>) -> bool {
    is_object_type(s, n) && exists|t: int| 0 <= t < nodes.len() && #[trigger] edge_ref(nodes, t) && nodes[t].name.unwrap()@ == n
}

/// Node `c` is a named object type definition or extension with a span.
pub open spec fn obj_def(nodes: Seq<Node>, c: int) -> bool {
    object_kinds().contains(nodes[c].kind) && nodes[c].name is Some && nodes[c].span is Some
}

/// Node `c` is the first object definition recorded with the span `sp`.
pub open spec fn first_obj_def(nodes: Seq<Node>, sp: Span, c: int) -> bool {
    &&& 0 <= c < nodes.len()
    &&& obj_def(nodes, c)
    &&& nodes[c].span == Some(sp)
    &&& forall|k: int| 0 <= k < c ==> !(#[trigger] obj_def(nodes, k) && nodes[k].span == Some(sp))
}

/// Node `j` is a name of the object definition `c`.
pub open spec fn names_obj_def(nodes: Seq<Node>, j: int, c: int) -> bool {
    &&& nodes[j].kind == SyntaxKind::NAME
    &&& nodes[j].span is Some
    &&& c < j
    &&& nodes[j].parent matches Some(p)
    &&& p < nodes.len()
    &&& object_kinds().contains(nodes[p as int].kind)
    &&& nodes[p as int].span matches Some(sp)
    &&& first_obj_def(nodes, sp, c)
}

/// Where definition `c` is reported, reading the first `n` nodes: the
/// span of its last name node, else its own span.
pub open spec fn edge_name_span(nodes: Seq<Node>, c: int, n: int) -> Span
    decreases n,
{
    if n <= 0 {
        nodes[c].span.unwrap()
    } else if names_obj_def(nodes, n - 1, c) {
        nodes[n - 1].span.unwrap()
    } else {
        edge_name_span(nodes, c, n - 1)
    }
}

/// Node `j` is a field, named `f`, of an object whose span is `sp`.
pub open spec fn field_in(nodes: Seq<Node>, j: int, sp: Span, f: Seq<char>) -> bool {
    &&& nodes[j].kind == SyntaxKind::FIELD_DEFINITION
    &&& nodes[j].name is Some
    &&& nodes[j].name.unwrap()@ == f
    &&& nodes[j].span is Some
    &&& find_up(nodes, j, object_kinds()) matches Some(o)
    &&& nodes[o].span == Some(sp)
}

/// The first of the first `n` nodes that is a field named `f` of an object
/// with the span `sp`.
pub open spec fn first_field_in(nodes: Seq<Node>, sp: Span, f: Seq<char>, n: int) -> Option<int>
    decreases n,
{
    if n <= 0 {
        None
    } else {
        match first_field_in(nodes, sp, f, n - 1) {
            Some(j) => Some(j),
            None => if field_in(nodes, n - 1, sp, f) { Some(n - 1) } else { None },
        }
    }
}

/// The end of the messages about the `node` field.
pub open spec fn node_type_text() -> Seq<char> {
    "either a Scalar, Enum, Object, Interface, Union, or a non-null wrapper around one of those types."@
}

/// The end of the messages about the `cursor` field.
pub open spec fn cursor_type_text() -> Seq<char> {
    "either a String, Scalar, or a non-null wrapper wrapper around one of those types."@
}

/// The type named `n` is an object type of the schema that does not
/// implement `Node`.
pub open spec fn object_without_node(s: Schema, n: Seq<char>) -> bool {
    type_index(s.types@, n) matches Some(k) && s.types@[k].kind == TypeKind::Object
        && !(exists|i: int| 0 <= i < s.types@[k].interfaces@.len() && #[trigger] s.types@[k].interfaces@[i]@ == "Node"@)
}

/// The findings about the `node` field of the edge definition `c`.
pub open spec fn node_findings(nodes: Seq<Node>, s: Schema, o: EdgeOptions, c: int) -> Seq<(Seq<char>, Span, Seq<(Seq<char>, Span, Seq<char>)>)> {
    let ns = edge_name_span(nodes, c, nodes.len() as int);
    let name = nodes[c].name.unwrap()@;
    match first_field_in(nodes, nodes[c].span.unwrap(), "node"@, nodes.len() as int) {
        None => seq![plain_diag("Edge type must contain a field `node` that return "@ + node_type_text(), ns)],
        Some(j) => match object_field_type(s, name, "node"@) {
            None => Seq::empty(),
            Some(ty) => if !is_named_ref(ty) {
                seq![plain_diag("Field `node` must return "@ + node_type_text(), nodes[j].span.unwrap())]
            } else if o.should_implement_node && object_without_node(s, base_name(ty)) {
                seq![plain_diag("Edge type's field `node` must implement `Node` interface."@, ns)]
            } else {
                Seq::empty()
            },
        },
    }
}

/// The findings about the `cursor` field of the edge definition `c`.
pub open spec fn cursor_findings(nodes: Seq<Node>, s: Schema, c: int) -> Seq<(Seq<char>, Span, Seq<(Seq<char>, Span, Seq<char>)>)> {
    let ns = edge_name_span(nodes, c, nodes.len() as int);
    let name = nodes[c].name.unwrap()@;
    match first_field_in(nodes, nodes[c].span.unwrap(), "cursor"@, nodes.len() as int) {
        None => seq![plain_diag("Edge type must contain a field `cursor` that return "@ + cursor_type_text(), ns)],
        Some(j) => match object_field_type(s, name, "cursor"@) {
            None => Seq::empty(),
            Some(ty) => if !is_named_ref(ty) || (base_name(ty) != "String"@ && !is_scalar_type(s, base_name(ty))) {
                seq![plain_diag("Field `cursor` must return "@ + cursor_type_text(), nodes[j].span.unwrap())]
            } else {
                Seq::empty()
            },
        },
    }
}

/// The findings for node `c`, an object definition whose name is an edge
/// type: its `node` field, its `cursor` field, then its name's suffix.
pub open spec fn edge_def_findings_at(nodes: Seq<Node>, s: Schema, o: EdgeOptions, c: int) -> Seq<(Seq<char>, Span, Seq<(Seq<char>, Span, Seq<char>)>)> {
    if obj_def(nodes, c) && is_edge_type(nodes, s, nodes[c].name.unwrap()@) {
        node_findings(nodes, s, o, c) + cursor_findings(nodes, s, c) + (
            if o.with_edge_suffix && !ends_with(nodes[c].name.unwrap()@, "Edge"@) {
                seq![plain_diag("Edge type must have \"Edge\" suffix."@, edge_name_span(nodes, c, nodes.len() as int))]
            } else {
                Seq::empty()
            })
    } else {
        Seq::empty()
    }
}

/// The definition findings for the first `n` nodes.
pub open spec fn edge_def_findings(nodes: Seq<Node>, s: Schema, o: EdgeOptions, n: int) -> Seq<(Seq<char>, Span, Seq<(Seq<char>, Span, Seq<char>)>)>
    decreases n,
{
    if n <= 0 { Seq::empty() } else { edge_def_findings(nodes, s, o, n - 1) + edge_def_findings_at(nodes, s, o, n - 1) }
}

/// The finding for node `t`, if it names the type of a Connection's
/// `edges` that is not an object type.
pub open spec fn ref_finding(nodes: Seq<Node>, s: Schema, t: int) -> Option<(Seq<char>, Span, Seq<(Seq<char>, Span, Seq<char>)>)> {
    if edge_ref(nodes, t) && !is_object_type(s, nodes[t].name.unwrap()@) {
        Some(plain_diag("Edge type must be an Object type."@, nodes[t].span.unwrap()))
    } else {
        None
    }
}

/// The finding for node `t`, if it is the outer list or non-null type of
/// an object's field whose schema type is a list of something that is not
/// an edge type.
pub open spec fn list_finding(nodes: Seq<Node>, s: Schema, t: int) -> Option<(Seq<char>, Span, Seq<(Seq<char>, Span, Seq<char>)>)> {
    let n = nodes[t];
    if (n.kind == SyntaxKind::LIST_TYPE || n.kind == SyntaxKind::NON_NULL_TYPE) && n.span is Some
        && n.parent is Some && n.parent.unwrap() < nodes.len() {
        let p = n.parent.unwrap() as int;
        if nodes[p].kind == SyntaxKind::FIELD_DEFINITION && nodes[p].name is Some {
            match find_up(nodes, p, object_kinds()) {
                Some(ob) => if nodes[ob].name is Some {
                    match object_field_type(s, nodes[ob].name.unwrap()@, nodes[p].name.unwrap()@) {
                        Some(ty) => if (ty is List || ty is NonNullList) && !is_edge_type(nodes, s, base_name(ty)) {
                            Some(plain_diag("A list type should only wrap an edge type."@, n.span.unwrap()))
                        } else {
                            None
                        },
                        None => None,
                    }
                } else {
                    None
                },
                None => None,
            }
        } else {
            None
        }
    } else {
        None
    }
}

/// The findings of a kind `which` (0: edge references, 1: list fields)
/// among the first `n` nodes, in order.
pub open spec fn node_scan(nodes: Seq<Node>, s: Schema, which: int, n: int) -> Seq<(Seq<char>, Span, Seq<(Seq<char>, Span, Seq<char>)>)>
    decreases n,
{
    if n <= 0 {
        Seq::empty()
    } else {
        let f = if which == 0 { ref_finding(nodes, s, n - 1) } else { list_finding(nodes, s, n - 1) };
        match f {
            Some(d) => node_scan(nodes, s, which, n - 1).push(d),
            None => node_scan(nodes, s, which, n - 1),
        }
    }
}

/// All the findings: the edge references, the list fields (when the
/// option asks), then the edge definitions.
pub open spec fn edge_findings(nodes: Seq<Node>, s: Schema, o: EdgeOptions) -> Seq<(Seq<char>, Span, Seq<(Seq<char>, Span, Seq<char>)>)> {
    node_scan(nodes, s, 0, nodes.len() as int)
        + (if o.list_type_can_wrap_only_edge_type { node_scan(nodes, s, 1, nodes.len() as int) } else { Seq::empty() })
        + edge_def_findings(nodes, s, o, nodes.len() as int)
}

fn kind_is_object(k: SyntaxKind) -> (r: bool)
    ensures r == object_kinds().contains(k),
{
    let r = k == SyntaxKind::OBJECT_TYPE_DEFINITION || k == SyntaxKind::OBJECT_TYPE_EXTENSION;
    proof {
        if object_kinds().contains(k) {
            let i = choose|i: int| 0 <= i < object_kinds().len() && object_kinds()[i] == k;
        }
        if k == SyntaxKind::OBJECT_TYPE_DEFINITION { assert(object_kinds()[0] == k); }
        if k == SyntaxKind::OBJECT_TYPE_EXTENSION { assert(object_kinds()[1] == k); }
    }
    r
}

fn exec_is_object_type(s: &Schema, n: &str) -> (r: bool)
    ensures r == is_object_type(*s, n@),
{
    match find_type(&s.types, n) {
        Some(k) => s.types[k].kind == TypeKind::Object,
        None => false,
    }
}

pub(crate) fn exec_is_scalar_type(s: &Schema, n: &str) -> (r: bool)
    ensures r == is_scalar_type(*s, n@),
{
    let nc = chars_of(n);
    let builtin = chars_eq(&nc, &chars_of("String")) || chars_eq(&nc, &chars_of("Int")) || chars_eq(&nc, &chars_of("Float"))
        || chars_eq(&nc, &chars_of("Boolean")) || chars_eq(&nc, &chars_of("ID"));
    builtin || match find_type(&s.types, n) {
        Some(k) => s.types[k].kind == TypeKind::Scalar,
        None => false,
    }
}

fn exec_edge_ref(tree: &Tree, fk: &Vec<SyntaxKind>, ok: &Vec<SyntaxKind>, t: usize) -> (r: bool)
    requires
        tree.wf(),
        t < tree.nodes@.len(),
        fk@ == seq![SyntaxKind::FIELD_DEFINITION],
        ok@ == object_kinds(),
    ensures r == edge_ref(tree.nodes@, t as int),
{
    let n = &tree.nodes[t];
    if n.kind != SyntaxKind::NAMED_TYPE || n.name.is_none() || n.span.is_none() {
        return false;
    }
    match find_up_exec(tree, t, fk) {
        Some(f) => {
            match &tree.nodes[f].name {
                Some(fname) => {
                    if !chars_eq(&chars_of(fname.as_str()), &chars_of("edges")) {
                        return false;
                    }
                    match find_up_exec(tree, f, ok) {
                        Some(o) => match &tree.nodes[o].name {
                            Some(oname) => exec_ends_with(&chars_of(oname.as_str()), &chars_of("Connection")),
                            None => false,
                        },
                        None => false,
                    }
                },
                None => false,
            }
        },
        None => false,
    }
}

fn exec_is_edge_type(tree: &Tree, s: &Schema, fk: &Vec<SyntaxKind>, ok: &Vec<SyntaxKind>, n: &str) -> (r: bool)
    requires
        tree.wf(),
        fk@ == seq![SyntaxKind::FIELD_DEFINITION],
        ok@ == object_kinds(),
    ensures r == is_edge_type(tree.nodes@, *s, n@),
{
    if !exec_is_object_type(s, n) {
        return false;
    }
    let nc = chars_of(n);
    for t in 0..tree.nodes.len()
        invariant
            tree.wf(),
            fk@ == seq![SyntaxKind::FIELD_DEFINITION],
            ok@ == object_kinds(),
            nc@ == n@,
            is_object_type(*s, n@),
            forall|q: int| 0 <= q < t ==> !(#[trigger] edge_ref(tree.nodes@, q) && tree.nodes@[q].name.unwrap()@ == n@),
    {
        if exec_edge_ref(tree, fk, ok, t) {
            if chars_eq(&chars_of(tree.nodes[t].name.as_ref().unwrap().as_str()), &nc) {
                proof { assert(edge_ref(tree.nodes@, t as int) && tree.nodes@[t as int].name.unwrap()@ == n@); }
                return true;
            }
        }
    }
    false
}

fn exec_first_obj_def(tree: &Tree, c: usize) -> (r: bool)
    requires c < tree.nodes@.len(), obj_def(tree.nodes@, c as int),
    ensures r == first_obj_def(tree.nodes@, tree.nodes@[c as int].span.unwrap(), c as int),
{
    let sp = tree.nodes[c].span;
    for k in 0..c
        invariant
            c < tree.nodes@.len(),
            sp == tree.nodes@[c as int].span,
            forall|q: int| 0 <= q < k ==> !(#[trigger] obj_def(tree.nodes@, q) && tree.nodes@[q].span == sp),
    {
        let n = &tree.nodes[k];
        if kind_is_object(n.kind) && n.name.is_some() && n.span.is_some() && n.span == sp {
            proof { assert(obj_def(tree.nodes@, k as int)); }
            return false;
        }
    }
    true
}

fn exec_edge_name_span(tree: &Tree, c: usize) -> (r: Span)
    requires tree.wf(), c < tree.nodes@.len(), obj_def(tree.nodes@, c as int),
    ensures r == edge_name_span(tree.nodes@, c as int, tree.nodes@.len() as int),
{
    let sp = tree.nodes[c].span.unwrap();
    let first = exec_first_obj_def(tree, c);
    let mut ns = sp;
    for j in 0..tree.nodes.len()
        invariant
            tree.wf(),
            c < tree.nodes@.len(),
            obj_def(tree.nodes@, c as int),
            sp == tree.nodes@[c as int].span.unwrap(),
            first == first_obj_def(tree.nodes@, sp, c as int),
            ns == edge_name_span(tree.nodes@, c as int, j as int),
    {
        let n = &tree.nodes[j];
        if first && n.kind == SyntaxKind::NAME && c < j {
            match (n.span, n.parent) {
                (Some(nsp), Some(p)) => {
                    let pn = &tree.nodes[p];
                    if kind_is_object(pn.kind) && pn.span == Some(sp) {
                        ns = nsp;
                    } else {
                        proof {
                            if object_kinds().contains(pn.kind) && pn.span is Some && first_obj_def(tree.nodes@, pn.span.unwrap(), c as int) {
                                assert(tree.nodes@[c as int].span == pn.span);
                            }
                        }
                    }
                },
                _ => {},
            }
        } else {
            proof {
                if !first && names_obj_def(tree.nodes@, j as int, c as int) {
                    let p = tree.nodes@[j as int].parent.unwrap() as int;
                    assert(tree.nodes@[c as int].span == tree.nodes@[p].span);
                }
            }
        }
    }
    ns
}

fn exec_first_field_in(tree: &Tree, ok: &Vec<SyntaxKind>, sp: Span, f: &str) -> (r: Option<usize>)
    requires tree.wf(), ok@ == object_kinds(),
    ensures
        match r {
            Some(j) => first_field_in(tree.nodes@, sp, f@, tree.nodes@.len() as int) == Some(j as int) && j < tree.nodes@.len()
                && field_in(tree.nodes@, j as int, sp, f@),
            None => first_field_in(tree.nodes@, sp, f@, tree.nodes@.len() as int) is None,
        },
{
    let fc = chars_of(f);
    for j in 0..tree.nodes.len()
        invariant
            tree.wf(),
            ok@ == object_kinds(),
            fc@ == f@,
            first_field_in(tree.nodes@, sp, f@, j as int) is None,
    {
        let n = &tree.nodes[j];
        if n.kind == SyntaxKind::FIELD_DEFINITION && n.span.is_some() {
            match &n.name {
                Some(nm) => {
                    if chars_eq(&chars_of(nm.as_str()), &fc) {
                        match find_up_exec(tree, j, ok) {
                            Some(o) => {
                                if tree.nodes[o].span == Some(sp) {
                                    proof { lemma_first_field_stays(tree.nodes@, sp, f@, j as int + 1, tree.nodes@.len() as int); }
                                    return Some(j);
                                }
                            },
                            None => {},
                        }
                    }
                },
                None => {},
            }
        }
    }
    None
}

proof fn lemma_first_field_stays(nodes: Seq<Node>, sp: Span, f: Seq<char>, m: int, n: int)
    requires m <= n, first_field_in(nodes, sp, f, m) is Some,
    ensures first_field_in(nodes, sp, f, n) == first_field_in(nodes, sp, f, m),
    decreases n - m,
{
    if m < n {
        lemma_first_field_stays(nodes, sp, f, m, n - 1);
    }
}

fn exec_object_without_node(s: &Schema, n: &str) -> (r: bool)
    ensures r == object_without_node(*s, n@),
{
    match find_type(&s.types, n) {
        Some(k) => {
            if s.types[k].kind != TypeKind::Object {
                return false;
            }
            let t = &s.types[k];
            for i in 0..t.interfaces.len()
                invariant
                    k < s.types@.len(),
                    *t == s.types@[k as int],
                    type_index(s.types@, n@) == Some(k as int),
                    t.kind == TypeKind::Object,
                    forall|q: int| 0 <= q < i ==> #[trigger] t.interfaces@[q]@ != "Node"@,
            {
                if chars_eq(&chars_of(t.interfaces[i].as_str()), &chars_of("Node")) {
                    proof { assert(s.types@[k as int].interfaces@[i as int]@ == "Node"@); }
                    return false;
                }
            }
            true
        },
        None => false,
    }
}

pub(crate) fn exec_object_field_type<'a>(s: &'a Schema, t: &str, f: &str) -> (r: Option<&'a TypeRef>)
    ensures
        match r {
            Some(ty) => object_field_type(*s, t@, f@) == Some(*ty),
            None => object_field_type(*s, t@, f@) is None,
        },
{
    match find_type(&s.types, t) {
        Some(k) => {
            if s.types[k].kind == TypeKind::Object {
                match find_field(&s.types[k].fields, f) {
                    Some(j) => Some(&s.types[k].fields[j].ty),
                    None => None,
                }
            } else {
                None
            }
        },
        None => None,
    }
}

/// Whether the type is a named type, nullable or not (no list).
pub fn is_named_or_non_null_named(ty: &TypeRef) -> (r: bool)
    ensures r == is_named_ref(*ty),
{
    match ty {
        TypeRef::Named(_) | TypeRef::NonNullNamed(_) => true,
        _ => false,
    }
}

fn push_msg(out: &mut Vec<Diagnostic>, msg: &str, at: Span)
    ensures diag_views(final(out)@) == diag_views(old(out)@).push(plain_diag(msg@, at)),
{
    push_diag(out, &chars_of(msg), at);
}

fn push_msg2(out: &mut Vec<Diagnostic>, a: &str, b: &str, at: Span)
    ensures diag_views(final(out)@) == diag_views(old(out)@).push(plain_diag(a@ + b@, at)),
{
    let mut m: Vec<char> = Vec::new();
    push_str(&mut m, a);
    push_str(&mut m, b);
    push_diag(out, &m, at);
}

fn exec_node_findings(tree: &Tree, s: &Schema, o: &EdgeOptions, ok: &Vec<SyntaxKind>, c: usize, ns: Span, out: &mut Vec<Diagnostic>)
    requires
        tree.wf(),
        ok@ == object_kinds(),
        c < tree.nodes@.len(),
        obj_def(tree.nodes@, c as int),
        ns == edge_name_span(tree.nodes@, c as int, tree.nodes@.len() as int),
    ensures diag_views(final(out)@) == diag_views(old(out)@) + node_findings(tree.nodes@, *s, *o, c as int),
{
    let ghost before = diag_views(out@);
    let name = tree.nodes[c].name.as_ref().unwrap();
    let text = "either a Scalar, Enum, Object, Interface, Union, or a non-null wrapper around one of those types.";
    match exec_first_field_in(tree, ok, tree.nodes[c].span.unwrap(), "node") {
        None => {
            push_msg2(out, "Edge type must contain a field `node` that return ", text, ns);
        },
        Some(j) => {
            match exec_object_field_type(s, name.as_str(), "node") {
                None => {},
                Some(ty) => {
                    let named = is_named_or_non_null_named(ty);
                    if !named {
                        push_msg2(out, "Field `node` must return ", text, tree.nodes[j].span.unwrap());
                    } else if o.should_implement_node && exec_object_without_node(s, ty.base()) {
                        push_msg(out, "Edge type's field `node` must implement `Node` interface.", ns);
                    }
                },
            }
        },
    }
    proof { assert(diag_views(out@) =~= before + node_findings(tree.nodes@, *s, *o, c as int)); }
}

fn exec_cursor_findings(tree: &Tree, s: &Schema, ok: &Vec<SyntaxKind>, c: usize, ns: Span, out: &mut Vec<Diagnostic>)
    requires
        tree.wf(),
        ok@ == object_kinds(),
        c < tree.nodes@.len(),
        obj_def(tree.nodes@, c as int),
        ns == edge_name_span(tree.nodes@, c as int, tree.nodes@.len() as int),
    ensures diag_views(final(out)@) == diag_views(old(out)@) + cursor_findings(tree.nodes@, *s, c as int),
{
    let ghost before = diag_views(out@);
    let name = tree.nodes[c].name.as_ref().unwrap();
    let text = "either a String, Scalar, or a non-null wrapper wrapper around one of those types.";
    match exec_first_field_in(tree, ok, tree.nodes[c].span.unwrap(), "cursor") {
        None => {
            push_msg2(out, "Edge type must contain a field `cursor` that return ", text, ns);
        },
        Some(j) => {
            match exec_object_field_type(s, name.as_str(), "cursor") {
                None => {},
                Some(ty) => {
                    let named = is_named_or_non_null_named(ty);
                    let base = ty.base();
                    if !named || (!chars_eq(&chars_of(base), &chars_of("String")) && !exec_is_scalar_type(s, base)) {
                        push_msg2(out, "Field `cursor` must return ", text, tree.nodes[j].span.unwrap());
                    }
                },
            }
        },
    }
    proof { assert(diag_views(out@) =~= before + cursor_findings(tree.nodes@, *s, c as int)); }
}

impl RelayEdgeTypes {
    /// Reports, for the document `tree` and the schema `schema`: the types
    /// held by Connections' `edges` fields that are not object types; the
    /// list fields of objects whose items are not edge types (if the
    /// option asks); and, for each object definition of an edge type, a
    /// missing or ill-typed `node` or `cursor` field and a missing `Edge`
    /// suffix. The rule needs a schema: without one it reports nothing.
    pub fn check(&self, tree: &Tree, schema: Option<&Schema>, o: &EdgeOptions) -> (r: Vec<Diagnostic>)
        requires tree.wf(),
        ensures
            schema is None ==> r@.len() == 0,
            schema is Some ==> diag_views(r@) == edge_findings(tree.nodes@, *schema.unwrap(), *o),
    {
        let mut out: Vec<Diagnostic> = Vec::new();
        let s = match schema {
            Some(s) => s,
            None => return out,
        };
        let fk = vec![SyntaxKind::FIELD_DEFINITION];
        let ok = vec![SyntaxKind::OBJECT_TYPE_DEFINITION, SyntaxKind::OBJECT_TYPE_EXTENSION];
        proof {
            assert(fk@ == seq![SyntaxKind::FIELD_DEFINITION]);
            assert(ok@ == object_kinds());
        }
        let ghost nodes = tree.nodes@;
        for t in 0..tree.nodes.len()
            invariant
                tree.wf(),
                nodes == tree.nodes@,
                fk@ == seq![SyntaxKind::FIELD_DEFINITION],
                ok@ == object_kinds(),
                diag_views(out@) == node_scan(nodes, *s, 0, t as int),
        {
            if exec_edge_ref(tree, &fk, &ok, t) {
                let n = &tree.nodes[t];
                if !exec_is_object_type(s, n.name.as_ref().unwrap().as_str()) {
                    push_msg(&mut out, "Edge type must be an Object type.", n.span.unwrap());
                }
            }
        }
        let ghost part1 = diag_views(out@);
        if o.list_type_can_wrap_only_edge_type {
            for t in 0..tree.nodes.len()
                invariant
                    tree.wf(),
                    nodes == tree.nodes@,
                    fk@ == seq![SyntaxKind::FIELD_DEFINITION],
                    ok@ == object_kinds(),
                    diag_views(out@) == part1 + node_scan(nodes, *s, 1, t as int),
            {
                let n = &tree.nodes[t];
                if n.kind == SyntaxKind::LIST_TYPE || n.kind == SyntaxKind::NON_NULL_TYPE {
                    match (n.span, n.parent) {
                        (Some(sp), Some(p)) => {
                            let pn = &tree.nodes[p];
                            if pn.kind == SyntaxKind::FIELD_DEFINITION && pn.name.is_some() {
                                match find_up_exec(tree, p, &ok) {
                                    Some(ob) => match &tree.nodes[ob].name {
                                        Some(oname) => {
                                            match exec_object_field_type(s, oname.as_str(), pn.name.as_ref().unwrap().as_str()) {
                                                Some(ty) => {
                                                    let is_list = match ty {
                                                        TypeRef::List(_) | TypeRef::NonNullList(_) => true,
                                                        _ => false,
                                                    };
                                                    if is_list && !exec_is_edge_type(tree, s, &fk, &ok, ty.base()) {
                                                        push_msg(&mut out, "A list type should only wrap an edge type.", sp);
                                                    }
                                                },
                                                None => {},
                                            }
                                        },
                                        None => {},
                                    },
                                    None => {},
                                }
                            }
                        },
                        _ => {},
                    }
                }
            }
        } else {
            proof { assert(diag_views(out@) =~= part1 + Seq::<(Seq<char>, Span, Seq<(Seq<char>, Span, Seq<char>)>)>::empty()); }
        }
        let ghost part2 = diag_views(out@);
        for c in 0..tree.nodes.len()
            invariant
                tree.wf(),
                nodes == tree.nodes@,
                fk@ == seq![SyntaxKind::FIELD_DEFINITION],
                ok@ == object_kinds(),
                diag_views(out@) == part2 + edge_def_findings(nodes, *s, *o, c as int),
        {
            let ghost before = diag_views(out@);
            let n = &tree.nodes[c];
            if kind_is_object(n.kind) && n.span.is_some() {
                match &n.name {
                    Some(name) => {
                        proof { assert(obj_def(nodes, c as int)); }
                        if exec_is_edge_type(tree, s, &fk, &ok, name.as_str()) {
                            let ns = exec_edge_name_span(tree, c);
                            exec_node_findings(tree, s, o, &ok, c, ns, &mut out);
                            exec_cursor_findings(tree, s, &ok, c, ns, &mut out);
                            if o.with_edge_suffix && !exec_ends_with(&chars_of(name.as_str()), &chars_of("Edge")) {
                                push_msg(&mut out, "Edge type must have \"Edge\" suffix.", ns);
                            }
                            proof { assert(diag_views(out@) =~= before + edge_def_findings_at(nodes, *s, *o, c as int)); }
                        } else {
                            proof { assert(diag_views(out@) =~= before + edge_def_findings_at(nodes, *s, *o, c as int)); }
                        }
                    },
                    None => {
                        proof { assert(diag_views(out@) =~= before + edge_def_findings_at(nodes, *s, *o, c as int)); }
                    },
                }
            } else {
                proof { assert(diag_views(out@) =~= before + edge_def_findings_at(nodes, *s, *o, c as int)); }
            }
        }
        out
    }
}

} // verus!
