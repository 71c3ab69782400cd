//! `relay-page-info`: the PageInfo type is an object type that the schema
//! provides, with `hasPreviousPage` and `hasNextPage` fields of type
//! `Boolean!` and nullable `startCursor` and `endCursor` fields of a string
//! or scalar type.
use vstd::prelude::*;
use crate::model::{Diagnostic, Node, Span, SyntaxKind, Tree, diag_views, plain_diag, push_diag, find_up, find_up_exec};
use crate::rules::relay_connection_types::{object_kinds, object_field_type};
use crate::rules::relay_edge_types::is_scalar_type;
use crate::schema::{Schema, TypeKind, TypeRef, type_index, find_type, find_field};
use crate::text::{chars_of, chars_eq, push_str};

verus! {

/// The `relay-page-info` rule.
pub struct RelayPageInfo;

/// The options of the rule: the name of the PageInfo type (by default
/// `PageInfo`).
pub struct PageInfoOptions {
    pub page_info_name: String,
}

impl PageInfoOptions {
    /// The default options.
    pub fn new() -> (o: PageInfoOptions)
        ensures o.page_info_name@ == "PageInfo"@,
    {
        PageInfoOptions { page_info_name: String::from_str("PageInfo") }
    }
}

/// The kinds of the non-object type definitions and extensions the rule
/// reads.
pub open spec fn non_object_kinds() -> Seq<SyntaxKind> {
    seq![
        SyntaxKind::SCALAR_TYPE_DEFINITION,
        SyntaxKind::SCALAR_TYPE_EXTENSION,
        SyntaxKind::UNION_TYPE_DEFINITION,
        SyntaxKind::UNION_TYPE_EXTENSION,
        SyntaxKind::INPUT_OBJECT_TYPE_DEFINITION,
        SyntaxKind::INPUT_OBJECT_TYPE_EXTENSION,
        SyntaxKind::ENUM_TYPE_DEFINITION,
        SyntaxKind::ENUM_TYPE_EXTENSION,
        SyntaxKind::INTERFACE_TYPE_DEFINITION,
        SyntaxKind::INTERFACE_TYPE_EXTENSION,
    ]
}

/// Node `c` is the name of a type definition the rule records: an object
/// type definition or one of the other kinds, with a name and a span.
pub open spec fn pi_def(nodes: Seq<Node>, c: int) -> bool {
    &&& 0 <= c < nodes.len()
    &&& nodes[c].kind == SyntaxKind::NAME
    &&& nodes[c].span is Some
    &&& nodes[c].parent matches Some(p)
    &&& p < nodes.len()
    &&& (nodes[p as int].kind == SyntaxKind::OBJECT_TYPE_DEFINITION || non_object_kinds().contains(nodes[p as int].kind))
    &&& nodes[p as int].name is Some
    &&& nodes[p as int].span is Some
}

/// The definition named at `c`.
pub open spec fn pi_parent(nodes: Seq<Node>, c: int) -> int {
    nodes[c].parent.unwrap() as int
}

/// Node `j` is a field named `f` of an object type definition with span
/// `sp`.
pub open spec fn pi_field(nodes: Seq<Node>, j: int, sp: Span, f: Seq<char>) -> bool {
    &&& nodes[j].kind == SyntaxKind::FIELD_DEFINITION
    &&& nodes[j].name is Some
    &&& nodes[j].name.unwrap()@ == f
    &&& nodes[j].span is Some
    &&& find_up(nodes, j, object_kinds()) matches Some(o)
    &&& nodes[o].kind == SyntaxKind::OBJECT_TYPE_DEFINITION
    &&& nodes[o].span == Some(sp)
}

/// The last of the first `n` nodes that is a field named `f` of the object
/// definition with span `sp`.
pub open spec fn last_field_in(nodes: Seq<Node>, sp: Span, f: Seq<char>, n: int) -> Option<int>
    decreases n,
{
    if n <= 0 {
        None
    } else if pi_field(nodes, n - 1, sp, f) {
        Some(n - 1)
    } else {
        last_field_in(nodes, sp, f, n - 1)
    }
}

/// The schema type `ty` suits the field: `Boolean!` for the page flags,
/// a nullable string or scalar type for the cursors.
pub open spec fn allows(s: Schema, boolean: bool, ty: TypeRef) -> bool {
    if boolean {
        ty matches TypeRef::NonNullNamed(n) && n@ == "Boolean"@
    } else {
        ty matches TypeRef::Named(n) && (n@ == "String"@ || is_scalar_type(s, n@))
    }
}

/// What a field must return, in words.
pub open spec fn expected_text(boolean: bool) -> Seq<char> {
    if boolean { "non-null Boolean"@ } else { "either String or Scalar, which can be null if there are no results"@ }
}

/// The findings for field `f` of the PageInfo object definition named at
/// `c`.
pub open spec fn field_findings(nodes: Seq<Node>, s: Schema, p: Seq<char>, c: int, f: Seq<char>, boolean: bool) -> Seq<(Seq<char>, Span, Seq<(Seq<char>, Span, Seq<char>)>)> {
    match last_field_in(nodes, nodes[pi_parent(nodes, c)].span.unwrap(), f, nodes.len() as int) {
        None => seq![plain_diag(
            "`"@ + p + "` must contain a field `"@ + f + "`, that return "@ + expected_text(boolean) + "."@,
            nodes[c].span.unwrap(),
        )],
        Some(j) => if object_field_type(s, p, f) matches Some(ty) && allows(s, boolean, ty) {
            Seq::empty()
        } else {
            seq![plain_diag("Field `"@ + f + "` must return "@ + expected_text(boolean) + "."@, nodes[j].span.unwrap())]
        },
    }
}

/// The finding for node `c` if it names a non-object definition of the
/// PageInfo type.
pub open spec fn kind_finding(nodes: Seq<Node>, p: Seq<char>, c: int) -> Option<(Seq<char>, Span, Seq<(Seq<char>, Span, Seq<char>)>)> {
    if pi_def(nodes, c) && nodes[pi_parent(nodes, c)].name.unwrap()@ == p && nodes[pi_parent(nodes, c)].kind != SyntaxKind::OBJECT_TYPE_DEFINITION {
        Some(plain_diag("`"@ + p + "` must be an Object type."@, nodes[c].span.unwrap()))
    } else {
        None
    }
}

/// The kind findings among the first `n` nodes.
pub open spec fn kind_findings(nodes: Seq<Node>, p: Seq<char>, n: int) -> Seq<(Seq<char>, Span, Seq<(Seq<char>, Span, Seq<char>)>)>
    decreases n,
{
    if n <= 0 {
        Seq::empty()
    } else {
        match kind_finding(nodes, p, n - 1) {
            Some(d) => kind_findings(nodes, p, n - 1).push(d),
            None => kind_findings(nodes, p, n - 1),
        }
    }
}

/// The field findings for node `c`, if it names an object definition of
/// the PageInfo type: each of the four fields in turn.
pub open spec fn shape_findings_at(nodes: Seq<Node>, s: Schema, p: Seq<char>, c: int) -> Seq<(Seq<char>, Span, Seq<(Seq<char>, Span, Seq<char>)>)> {
    if pi_def(nodes, c) && nodes[pi_parent(nodes, c)].name.unwrap()@ == p && nodes[pi_parent(nodes, c)].kind == SyntaxKind::OBJECT_TYPE_DEFINITION {
        field_findings(nodes, s, p, c, "hasPreviousPage"@, true)
            + field_findings(nodes, s, p, c, "hasNextPage"@, true)
            + field_findings(nodes, s, p, c, "startCursor"@, false)
            + field_findings(nodes, s, p, c, "endCursor"@, false)
    } else {
        Seq::empty()
    }
}

/// The field findings among the first `n` nodes.
pub open spec fn shape_findings(nodes: Seq<Node>, s: Schema, p: Seq<char>, n: int) -> Seq<(Seq<char>, Span, Seq<(Seq<char>, Span, Seq<char>)>)>
    decreases n,
{
    if n <= 0 { Seq::empty() } else { shape_findings(nodes, s, p, n - 1) + shape_findings_at(nodes, s, p, n - 1) }
}

/// All findings: the non-object PageInfo definitions; then, when the
/// document defines some type but the schema has no PageInfo type, one at
/// the start of the file; then the fields of PageInfo object definitions.
pub open spec fn page_info_findings(nodes: Seq<Node>, s: Schema, p: Seq<char>) -> Seq<(Seq<char>, Span, Seq<(Seq<char>, Span, Seq<char>)>)> {
    kind_findings(nodes, p, nodes.len() as int)
        + (if (exists|c: int| #[trigger] pi_def(nodes, c)) && type_index(s.types@, p) is None {
            seq![plain_diag("The server must provide a `"@ + p + "` object."@, Span { offset: 0, len: 0 })]
        } else {
            Seq::empty()
        })
        + shape_findings(nodes, s, p, nodes.len() as int)
}

fn kind_is_non_object(k: SyntaxKind) -> (r: bool)
    ensures r == non_object_kinds().contains(k),
{
    let ks = vec![
        SyntaxKind::SCALAR_TYPE_DEFINITION,
        SyntaxKind::SCALAR_TYPE_EXTENSION,
        SyntaxKind::UNION_TYPE_DEFINITION,
        SyntaxKind::UNION_TYPE_EXTENSION,
        SyntaxKind::INPUT_OBJECT_TYPE_DEFINITION,
        SyntaxKind::INPUT_OBJECT_TYPE_EXTENSION,
        SyntaxKind::ENUM_TYPE_DEFINITION,
        SyntaxKind::ENUM_TYPE_EXTENSION,
        SyntaxKind::INTERFACE_TYPE_DEFINITION,
        SyntaxKind::INTERFACE_TYPE_EXTENSION,
    ];
    proof { assert(ks@ == non_object_kinds()); }
    for i in 0..ks.len()
        invariant
            ks@ == non_object_kinds(),
            forall|j: int| 0 <= j < i ==> ks@[j] != k,
    {
        if ks[i] == k {
            proof { assert(ks@[i as int] == k); }
            return true;
        }
    }
    false
}

fn exec_pi_def(tree: &Tree, c: usize) -> (r: bool)
    requires tree.wf(), c < tree.nodes@.len(),
    ensures r == pi_def(tree.nodes@, c as int),
{
    let n = &tree.nodes[c];
    if n.kind != SyntaxKind::NAME || n.span.is_none() {
        return false;
    }
    match n.parent {
        Some(p) => {
            let pn = &tree.nodes[p];
            (pn.kind == SyntaxKind::OBJECT_TYPE_DEFINITION || kind_is_non_object(pn.kind)) && pn.name.is_some() && pn.span.is_some()
        },
        None => false,
    }
}

fn exec_last_field_in(tree: &Tree, ok: &Vec<SyntaxKind>, sp: Span, f: &str) -> (r: Option<usize>)
    requires tree.wf(), ok@ == object_kinds(),
    ensures
        match r {
            Some(j) => last_field_in(tree.nodes@, sp, f@, tree.nodes@.len() as int) == Some(j as int) && j < tree.nodes@.len()
                && pi_field(tree.nodes@, j as int, sp, f@),
            None => last_field_in(tree.nodes@, sp, f@, tree.nodes@.len() as int) is None,
        },
{
    let fc = chars_of(f);
    let mut found: Option<usize> = None;
    for j in 0..tree.nodes.len()
        invariant
            tree.wf(),
            ok@ == object_kinds(),
            fc@ == f@,
            match found {
                Some(q) => last_field_in(tree.nodes@, sp, f@, j as int) == Some(q as int) && q < tree.nodes@.len()
                    && pi_field(tree.nodes@, q as int, sp, f@),
                None => last_field_in(tree.nodes@, sp, f@, j as int) is None,
            },
    {
        let n = &tree.nodes[j];
        if n.kind == SyntaxKind::FIELD_DEFINITION && n.span.is_some() {
            match &n.name {
                Some(nm) => {
                    if chars_eq(&chars_of(nm.as_str()), &fc) {
                        match find_up_exec(tree, j, ok) {
                            Some(o) => {
                                if tree.nodes[o].kind == SyntaxKind::OBJECT_TYPE_DEFINITION && tree.nodes[o].span == Some(sp) {
                                    found = Some(j);
                                }
                            },
                            None => {},
                        }
                    }
                },
                None => {},
            }
        }
    }
    found
}

/// What a PageInfo field must return: a flag or a cursor.
#[derive(Debug, Clone, Copy, PartialEq, Eq, Structural)]
pub enum ExpectedType {
    Boolean,
    Cursor,
}

impl ExpectedType {
    /// Whether the schema type `ty` suits a field of this kind.
    pub fn allows(&self, ty: &TypeRef, s: &Schema) -> (r: bool)
        ensures r == allows(*s, *self == ExpectedType::Boolean, *ty),
    {
        exec_allows(s, *self == ExpectedType::Boolean, ty)
    }
}

fn exec_allows(s: &Schema, boolean: bool, ty: &TypeRef) -> (r: bool)
    ensures r == allows(*s, boolean, *ty),
{
    if boolean {
        match ty {
            TypeRef::NonNullNamed(n) => chars_eq(&chars_of(n.as_str()), &chars_of("Boolean")),
            _ => false,
        }
    } else {
        match ty {
            TypeRef::Named(n) => chars_eq(&chars_of(n.as_str()), &chars_of("String")) || crate::rules::relay_edge_types::exec_is_scalar_type(s, n.as_str()),
            _ => false,
        }
    }
}

fn exec_field_findings(tree: &Tree, s: &Schema, ok: &Vec<SyntaxKind>, p: &str, c: usize, f: &str, boolean: bool, out: &mut Vec<Diagnostic>)
    requires
        tree.wf(),
        ok@ == object_kinds(),
        c < tree.nodes@.len(),
        pi_def(tree.nodes@, c as int),
    ensures diag_views(final(out)@) == diag_views(old(out)@) + field_findings(tree.nodes@, *s, p@, c as int, f@, boolean),
{
    let ghost before = diag_views(out@);
    let text = if boolean { "non-null Boolean" } else { "either String or Scalar, which can be null if there are no results" };
    let par = tree.nodes[c].parent.unwrap();
    let dsp = tree.nodes[par].span.unwrap();
    match exec_last_field_in(tree, ok, dsp, f) {
        None => {
            let mut m: Vec<char> = Vec::new();
            push_str(&mut m, "`");
            push_str(&mut m, p);
            push_str(&mut m, "` must contain a field `");
            push_str(&mut m, f);
            push_str(&mut m, "`, that return ");
            push_str(&mut m, text);
            push_str(&mut m, ".");
            push_diag(out, &m, tree.nodes[c].span.unwrap());
        },
        Some(j) => {
            let valid = match crate::rules::relay_edge_types::exec_object_field_type(s, p, f) {
                Some(ty) => exec_allows(s, boolean, ty),
                None => false,
            };
            if !valid {
                let mut m: Vec<char> = Vec::new();
                push_str(&mut m, "Field `");
                push_str(&mut m, f);
                push_str(&mut m, "` must return ");
                push_str(&mut m, text);
                push_str(&mut m, ".");
                push_diag(out, &m, tree.nodes[j].span.unwrap());
            }
        },
    }
    proof { assert(diag_views(out@) =~= before + field_findings(tree.nodes@, *s, p@, c as int, f@, boolean)); }
}

impl RelayPageInfo {
    /// Reports, for the document `tree`: each definition of the PageInfo
    /// type (named by the options) that is not an object type; the
    /// schema's lack of that type, when the document defines any type; and
    /// each of the four PageInfo fields that an object definition of it
    /// lacks or types wrongly in the schema `schema`. The rule needs a
    /// schema: without one it reports nothing.
    pub fn check(&self, tree: &Tree, schema: Option<&Schema>, o: &PageInfoOptions) -> (r: Vec<Diagnostic>)
        requires tree.wf(),
        ensures
            schema is None ==> r@.len() == 0,
            schema is Some ==> diag_views(r@) == page_info_findings(tree.nodes@, *schema.unwrap(), o.page_info_name@),
    {
        let mut out: Vec<Diagnostic> = Vec::new();
        let s = match schema {
            Some(s) => s,
            None => return out,
        };
        let p = o.page_info_name.as_str();
        let pc = chars_of(p);
        let ok = vec![SyntaxKind::OBJECT_TYPE_DEFINITION, SyntaxKind::OBJECT_TYPE_EXTENSION];
        proof { assert(ok@ == object_kinds()); }
        let ghost nodes = tree.nodes@;
        let mut saw = false;
        for c in 0..tree.nodes.len()
            invariant
                tree.wf(),
                nodes == tree.nodes@,
                pc@ == p@,
                saw == exists|q: int| 0 <= q < c && #[trigger] pi_def(nodes, q),
                diag_views(out@) == kind_findings(nodes, p@, c as int),
        {
            if exec_pi_def(tree, c) {
                saw = true;
                let par = tree.nodes[c].parent.unwrap();
                let pn = &tree.nodes[par];
                if chars_eq(&chars_of(pn.name.as_ref().unwrap().as_str()), &pc) && pn.kind != SyntaxKind::OBJECT_TYPE_DEFINITION {
                    let mut m: Vec<char> = Vec::new();
                    push_str(&mut m, "`");
                    push_str(&mut m, p);
                    push_str(&mut m, "` must be an Object type.");
                    push_diag(&mut out, &m, tree.nodes[c].span.unwrap());
                }
            }
        }
        proof {
            if exists|q: int| #[trigger] pi_def(nodes, q) {
                let q = choose|q: int| #[trigger] pi_def(nodes, q);
                assert(0 <= q < nodes.len());
            }
        }
        let ghost part1 = diag_views(out@);
        if saw && find_type(&s.types, p).is_none() {
            let mut m: Vec<char> = Vec::new();
            push_str(&mut m, "The server must provide a `");
            push_str(&mut m, p);
            push_str(&mut m, "` object.");
            push_diag(&mut out, &m, Span::new(0, 0));
        }
        let ghost part2 = diag_views(out@);
        proof {
            assert(part2 == part1 + (if (exists|c: int| #[trigger] pi_def(nodes, c)) && type_index(s.types@, p@) is None {
                seq![plain_diag("The server must provide a `"@ + p@ + "` object."@, Span { offset: 0, len: 0 })]
            } else {
                Seq::empty()
            }));
        }
        for c in 0..tree.nodes.len()
            invariant
                tree.wf(),
                nodes == tree.nodes@,
                ok@ == object_kinds(),
                pc@ == p@,
                diag_views(out@) == part2 + shape_findings(nodes, *s, p@, c as int),
        {
            let ghost before = diag_views(out@);
            if exec_pi_def(tree, c) {
                let par = tree.nodes[c].parent.unwrap();
                let pn = &tree.nodes[par];
                if chars_eq(&chars_of(pn.name.as_ref().unwrap().as_str()), &pc) && pn.kind == SyntaxKind::OBJECT_TYPE_DEFINITION {
                    exec_field_findings(tree, s, &ok, p, c, "hasPreviousPage", true, &mut out);
                    exec_field_findings(tree, s, &ok, p, c, "hasNextPage", true, &mut out);
                    exec_field_findings(tree, s, &ok, p, c, "startCursor", false, &mut out);
                    exec_field_findings(tree, s, &ok, p, c, "endCursor", false, &mut out);
                    proof { assert(diag_views(out@) =~= before + shape_findings_at(nodes, *s, p@, c as int)); }
                } else {
                    proof { assert(diag_views(out@) =~= before + shape_findings_at(nodes, *s, p@, c as int)); }
                }
            } else {
                proof { assert(diag_views(out@) =~= before + shape_findings_at(nodes, *s, p@, c as int)); }
            }
        }
        out
    }
}

} // verus!
