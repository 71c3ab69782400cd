//! `require-description`: the definitions of the kinds the options name
//! carry a description.
use vstd::prelude::*;
use crate::model::{Diagnostic, Node, Span, SyntaxKind, Tree, diag_views, plain_diag, push_diag, find_up, find_up_exec};
use crate::text::{chars_of, chars_eq, push_all, push_str, sub_chars, starts_with, exec_starts_with, find_seq_from, exec_find_seq_from};

verus! {

/// The `require-description` rule.
pub struct RequireDescription;

/// The options of the rule: for each kind of definition, whether it must
/// be described (unset: not, but for type definitions when `types` is set).
pub struct RequireDescriptionOptions {
    pub types: Option<bool>,
    pub object_type_definition: Option<bool>,
    pub interface_type_definition: Option<bool>,
    pub enum_type_definition: Option<bool>,
    pub scalar_type_definition: Option<bool>,
    pub input_object_type_definition: Option<bool>,
    pub union_type_definition: Option<bool>,
    pub directive_definition: Option<bool>,
    pub field_definition: Option<bool>,
    pub input_value_definition: Option<bool>,
    pub enum_value_definition: Option<bool>,
    pub operation_definition: Option<bool>,
}

/// The kinds of type definitions and extensions.
pub open spec fn is_type_kind(k: SyntaxKind) -> bool {
    k == SyntaxKind::OBJECT_TYPE_DEFINITION || k == SyntaxKind::OBJECT_TYPE_EXTENSION
        || k == SyntaxKind::INTERFACE_TYPE_DEFINITION || k == SyntaxKind::INTERFACE_TYPE_EXTENSION
        || k == SyntaxKind::ENUM_TYPE_DEFINITION || k == SyntaxKind::ENUM_TYPE_EXTENSION
        || k == SyntaxKind::SCALAR_TYPE_DEFINITION || k == SyntaxKind::SCALAR_TYPE_EXTENSION
        || k == SyntaxKind::INPUT_OBJECT_TYPE_DEFINITION || k == SyntaxKind::INPUT_OBJECT_TYPE_EXTENSION
        || k == SyntaxKind::UNION_TYPE_DEFINITION || k == SyntaxKind::UNION_TYPE_EXTENSION
}

/// The option set for the kind `k` itself.
pub open spec fn specific_option(o: RequireDescriptionOptions, k: SyntaxKind) -> Option<bool> {
    match k {
        SyntaxKind::OBJECT_TYPE_DEFINITION | SyntaxKind::OBJECT_TYPE_EXTENSION => o.object_type_definition,
        SyntaxKind::INTERFACE_TYPE_DEFINITION | SyntaxKind::INTERFACE_TYPE_EXTENSION => o.interface_type_definition,
        SyntaxKind::ENUM_TYPE_DEFINITION | SyntaxKind::ENUM_TYPE_EXTENSION => o.enum_type_definition,
        SyntaxKind::SCALAR_TYPE_DEFINITION | SyntaxKind::SCALAR_TYPE_EXTENSION => o.scalar_type_definition,
        SyntaxKind::INPUT_OBJECT_TYPE_DEFINITION | SyntaxKind::INPUT_OBJECT_TYPE_EXTENSION => o.input_object_type_definition,
        SyntaxKind::UNION_TYPE_DEFINITION | SyntaxKind::UNION_TYPE_EXTENSION => o.union_type_definition,
        SyntaxKind::DIRECTIVE_DEFINITION => o.directive_definition,
        SyntaxKind::FIELD_DEFINITION => o.field_definition,
        SyntaxKind::INPUT_VALUE_DEFINITION => o.input_value_definition,
        SyntaxKind::ENUM_VALUE_DEFINITION => o.enum_value_definition,
        SyntaxKind::OPERATION_DEFINITION => o.operation_definition,
        _ => None,
    }
}

/// Definitions of kind `k` must be described: as the kind's own option
/// says, else as `types` says for a type definition, else not.
pub open spec fn spec_is_enabled(o: RequireDescriptionOptions, k: SyntaxKind) -> bool {
    match specific_option(o, k) {
        Some(b) => b,
        None => is_type_kind(k) && o.types == Some(true),
    }
}

impl RequireDescriptionOptions {
    /// The default options: no setting given, so nothing required.
    pub fn new() -> (o: RequireDescriptionOptions)
        ensures
            o.types is None,
            o.object_type_definition is None,
            o.interface_type_definition is None,
            o.enum_type_definition is None,
            o.scalar_type_definition is None,
            o.input_object_type_definition is None,
            o.union_type_definition is None,
            o.directive_definition is None,
            o.field_definition is None,
            o.input_value_definition is None,
            o.enum_value_definition is None,
            o.operation_definition is None,
            forall|k: SyntaxKind| !#[trigger] spec_is_enabled(o, k),
    {
        RequireDescriptionOptions {
            types: None,
            object_type_definition: None,
            interface_type_definition: None,
            enum_type_definition: None,
            scalar_type_definition: None,
            input_object_type_definition: None,
            union_type_definition: None,
            directive_definition: None,
            field_definition: None,
            input_value_definition: None,
            enum_value_definition: None,
            operation_definition: None,
        }
    }

    /// Whether definitions of kind `k` must be described.
    pub fn is_enabled(&self, k: SyntaxKind) -> (r: bool)
        ensures r == spec_is_enabled(*self, k),
    {
        let specific = match k {
            SyntaxKind::OBJECT_TYPE_DEFINITION | SyntaxKind::OBJECT_TYPE_EXTENSION => self.object_type_definition,
            SyntaxKind::INTERFACE_TYPE_DEFINITION | SyntaxKind::INTERFACE_TYPE_EXTENSION => self.interface_type_definition,
            SyntaxKind::ENUM_TYPE_DEFINITION | SyntaxKind::ENUM_TYPE_EXTENSION => self.enum_type_definition,
            SyntaxKind::SCALAR_TYPE_DEFINITION | SyntaxKind::SCALAR_TYPE_EXTENSION => self.scalar_type_definition,
            SyntaxKind::INPUT_OBJECT_TYPE_DEFINITION | SyntaxKind::INPUT_OBJECT_TYPE_EXTENSION => self.input_object_type_definition,
            SyntaxKind::UNION_TYPE_DEFINITION | SyntaxKind::UNION_TYPE_EXTENSION => self.union_type_definition,
            SyntaxKind::DIRECTIVE_DEFINITION => self.directive_definition,
            SyntaxKind::FIELD_DEFINITION => self.field_definition,
            SyntaxKind::INPUT_VALUE_DEFINITION => self.input_value_definition,
            SyntaxKind::ENUM_VALUE_DEFINITION => self.enum_value_definition,
            SyntaxKind::OPERATION_DEFINITION => self.operation_definition,
            _ => None,
        };
        let type_kind = k == SyntaxKind::OBJECT_TYPE_DEFINITION || k == SyntaxKind::OBJECT_TYPE_EXTENSION
            || k == SyntaxKind::INTERFACE_TYPE_DEFINITION || k == SyntaxKind::INTERFACE_TYPE_EXTENSION
            || k == SyntaxKind::ENUM_TYPE_DEFINITION || k == SyntaxKind::ENUM_TYPE_EXTENSION
            || k == SyntaxKind::SCALAR_TYPE_DEFINITION || k == SyntaxKind::SCALAR_TYPE_EXTENSION
            || k == SyntaxKind::INPUT_OBJECT_TYPE_DEFINITION || k == SyntaxKind::INPUT_OBJECT_TYPE_EXTENSION
            || k == SyntaxKind::UNION_TYPE_DEFINITION || k == SyntaxKind::UNION_TYPE_EXTENSION;
        match specific {
            Some(b) => b,
            None => type_kind && self.types == Some(true),
        }
    }
}

/// The kinds of definitions that messages name as containers.
pub open spec fn type_def_kinds() -> Seq<SyntaxKind> {
    seq![
        SyntaxKind::OBJECT_TYPE_DEFINITION,
        SyntaxKind::OBJECT_TYPE_EXTENSION,
        SyntaxKind::INTERFACE_TYPE_DEFINITION,
        SyntaxKind::INTERFACE_TYPE_EXTENSION,
        SyntaxKind::INPUT_OBJECT_TYPE_DEFINITION,
        SyntaxKind::INPUT_OBJECT_TYPE_EXTENSION,
        SyntaxKind::ENUM_TYPE_DEFINITION,
        SyntaxKind::ENUM_TYPE_EXTENSION,
        SyntaxKind::SCALAR_TYPE_DEFINITION,
        SyntaxKind::SCALAR_TYPE_EXTENSION,
        SyntaxKind::UNION_TYPE_DEFINITION,
        SyntaxKind::UNION_TYPE_EXTENSION,
        SyntaxKind::DIRECTIVE_DEFINITION,
        SyntaxKind::SCHEMA_DEFINITION,
        SyntaxKind::SCHEMA_EXTENSION,
    ]
}

/// How messages call a definition of kind `k`.
pub open spec fn def_label(k: SyntaxKind) -> Seq<char> {
    match k {
        SyntaxKind::OBJECT_TYPE_DEFINITION | SyntaxKind::OBJECT_TYPE_EXTENSION => "type"@,
        SyntaxKind::INTERFACE_TYPE_DEFINITION | SyntaxKind::INTERFACE_TYPE_EXTENSION => "interface"@,
        SyntaxKind::ENUM_TYPE_DEFINITION | SyntaxKind::ENUM_TYPE_EXTENSION => "enum"@,
        SyntaxKind::SCALAR_TYPE_DEFINITION | SyntaxKind::SCALAR_TYPE_EXTENSION => "scalar"@,
        SyntaxKind::INPUT_OBJECT_TYPE_DEFINITION | SyntaxKind::INPUT_OBJECT_TYPE_EXTENSION => "input"@,
        SyntaxKind::UNION_TYPE_DEFINITION | SyntaxKind::UNION_TYPE_EXTENSION => "union"@,
        SyntaxKind::DIRECTIVE_DEFINITION => "directive"@,
        SyntaxKind::SCHEMA_DEFINITION | SyntaxKind::SCHEMA_EXTENSION => "schema"@,
        SyntaxKind::FIELD_DEFINITION => "field"@,
        SyntaxKind::INPUT_VALUE_DEFINITION => "input value"@,
        SyntaxKind::ENUM_VALUE_DEFINITION => "enum value"@,
        SyntaxKind::OPERATION_DEFINITION => "operation"@,
        _ => ""@,
    }
}

/// A definition in a message: its label, and its name in quotes if it has
/// one.
pub open spec fn def_display(k: SyntaxKind, name: Option<Seq<char>>) -> Seq<char> {
    match name {
        Some(n) => def_label(k) + " \""@ + n + "\""@,
        None => def_label(k),
    }
}

/// The kind of operation whose text starts at `off`: `mutation`,
/// `subscription`, else `query`.
pub open spec fn operation_label(src: Seq<char>, off: int) -> Seq<char> {
    let rest = src.skip(off);
    if starts_with(rest, "mutation"@) {
        "mutation"@
    } else if starts_with(rest, "subscription"@) {
        "subscription"@
    } else {
        "query"@
    }
}

/// Node `d` is a description whose owner starts at `off`.
pub open spec fn describes(nodes: Seq<Node>, d: int, off: usize) -> bool {
    &&& nodes[d].kind == SyntaxKind::DESCRIPTION
    &&& nodes[d].parent matches Some(p)
    &&& p < nodes.len()
    &&& nodes[p as int].span matches Some(ps)
    &&& ps.offset == off
}

/// Some description's owner starts at `off`.
pub open spec fn described_at(nodes: Seq<Node>, off: usize) -> bool {
    exists|d: int| 0 <= d < nodes.len() && #[trigger] describes(nodes, d, off)
}

/// The name of the last enum value (among the first `n` nodes) whose
/// definition starts at `off`; `None` where there is no such value.
pub open spec fn last_enum_name(nodes: Seq<Node>, off: usize, n: int) -> Option<Option<Seq<char>>>
    decreases n,
{
    if n <= 0 {
        None
    } else {
        let v = nodes[n - 1];
        if v.kind == SyntaxKind::ENUM_VALUE && v.parent is Some && v.parent.unwrap() < nodes.len()
            && nodes[v.parent.unwrap() as int].kind == SyntaxKind::ENUM_VALUE_DEFINITION
            && (nodes[v.parent.unwrap() as int].span matches Some(ps) && ps.offset == off) {
            Some(match v.name { Some(x) => Some(x@), None => None })
        } else {
            last_enum_name(nodes, off, n - 1)
        }
    }
}

/// Where the finding for a definition with span `sp` and name `name` is
/// reported: at the first occurrence of the name in its text, else at the
/// whole definition.
pub open spec fn report_span(src: Seq<char>, sp: Span, name: Option<Seq<char>>) -> Span {
    match name {
        Some(n) => if sp.offset + sp.len <= src.len() {
            match find_seq_from(src.subrange(sp.offset as int, sp.offset + sp.len), n, 0) {
                Some(k) => Span { offset: (sp.offset + k) as usize, len: n.len() as usize },
                None => sp,
            }
        } else {
            sp
        },
        None => sp,
    }
}

/// The finding for node `j`: a definition whose kind must be described,
/// with a span at which no description's owner starts.
pub open spec fn description_finding(nodes: Seq<Node>, src: Seq<char>, o: RequireDescriptionOptions, j: int) -> Option<(Seq<char>, Span, Seq<(Seq<char>, Span, Seq<char>)>)> {
    let n = nodes[j];
    if n.kind != SyntaxKind::DESCRIPTION && n.kind != SyntaxKind::ENUM_VALUE && spec_is_enabled(o, n.kind) && n.span is Some
        && !described_at(nodes, n.span.unwrap().offset) {
        let sp = n.span.unwrap();
        let own = match n.name { Some(x) => Some(x@), None => None };
        let name = if n.kind == SyntaxKind::ENUM_VALUE_DEFINITION && own is None {
            match last_enum_name(nodes, sp.offset, nodes.len() as int) {
                Some(x) => x,
                None => None,
            }
        } else {
            own
        };
        let c = find_up(nodes, j, type_def_kinds());
        let ck = match c { Some(i) => nodes[i].kind, None => SyntaxKind::TOMBSTONE };
        let cn = match c { Some(i) => match nodes[i].name { Some(x) => Some(x@), None => None }, None => None };
        let what = if n.kind == SyntaxKind::OPERATION_DEFINITION {
            match name {
                Some(x) => operation_label(src, sp.offset as int) + " \""@ + x + "\""@,
                None => operation_label(src, sp.offset as int),
            }
        } else if n.kind == SyntaxKind::ENUM_VALUE_DEFINITION || n.kind == SyntaxKind::FIELD_DEFINITION
            || n.kind == SyntaxKind::INPUT_VALUE_DEFINITION {
            def_display(n.kind, name) + " in "@ + def_display(ck, cn)
        } else {
            def_display(n.kind, name)
        };
        let at = if n.kind == SyntaxKind::OPERATION_DEFINITION { sp } else { report_span(src, sp, name) };
        Some(plain_diag("Description is required for "@ + what, at))
    } else {
        None
    }
}

/// The findings among the first `n` nodes, in order.
pub open spec fn description_findings(nodes: Seq<Node>, src: Seq<char>, o: RequireDescriptionOptions, n: int) -> Seq<(Seq<char>, Span, Seq<(Seq<char>, Span, Seq<char>)>)>
    decreases n,
{
    if n <= 0 {
        Seq::empty()
    } else {
        match description_finding(nodes, src, o, n - 1) {
            Some(d) => description_findings(nodes, src, o, n - 1).push(d),
            None => description_findings(nodes, src, o, n - 1),
        }
    }
}

/// Every operation definition with a span starts within the text.
pub open spec fn operations_within(nodes: Seq<Node>, len: int) -> bool {
    forall|i: int| 0 <= i < nodes.len() && #[trigger] nodes[i].kind == SyntaxKind::OPERATION_DEFINITION && nodes[i].span is Some
        ==> nodes[i].span.unwrap().offset <= len
}

fn exec_def_label(k: SyntaxKind) -> (r: &'static str)
    ensures r@ == def_label(k),
{
    match k {
        SyntaxKind::OBJECT_TYPE_DEFINITION | SyntaxKind::OBJECT_TYPE_EXTENSION => "type",
        SyntaxKind::INTERFACE_TYPE_DEFINITION | SyntaxKind::INTERFACE_TYPE_EXTENSION => "interface",
        SyntaxKind::ENUM_TYPE_DEFINITION | SyntaxKind::ENUM_TYPE_EXTENSION => "enum",
        SyntaxKind::SCALAR_TYPE_DEFINITION | SyntaxKind::SCALAR_TYPE_EXTENSION => "scalar",
        SyntaxKind::INPUT_OBJECT_TYPE_DEFINITION | SyntaxKind::INPUT_OBJECT_TYPE_EXTENSION => "input",
        SyntaxKind::UNION_TYPE_DEFINITION | SyntaxKind::UNION_TYPE_EXTENSION => "union",
        SyntaxKind::DIRECTIVE_DEFINITION => "directive",
        SyntaxKind::SCHEMA_DEFINITION | SyntaxKind::SCHEMA_EXTENSION => "schema",
        SyntaxKind::FIELD_DEFINITION => "field",
        SyntaxKind::INPUT_VALUE_DEFINITION => "input value",
        SyntaxKind::ENUM_VALUE_DEFINITION => "enum value",
        SyntaxKind::OPERATION_DEFINITION => "operation",
        _ => "",
    }
}

fn push_def_display(m: &mut Vec<char>, k: SyntaxKind, name: &Option<Vec<char>>)
    ensures final(m)@ == old(m)@ + def_display(k, match name { Some(n) => Some(n@), None => None }),
{
    push_str(m, exec_def_label(k));
    match name {
        Some(n) => {
            push_str(m, " \"");
            push_all(m, n);
            push_str(m, "\"");
        },
        None => {},
    }
    proof {
        let nm = match name { Some(n) => Some(n@), None => None::<Seq<char>> };
        assert(final(m)@ =~= old(m)@ + def_display(k, nm));
    }
}

fn exec_described_at(tree: &Tree, off: usize) -> (r: bool)
    requires tree.wf(),
    ensures r == described_at(tree.nodes@, off),
{
    for d in 0..tree.nodes.len()
        invariant
            tree.wf(),
            forall|q: int| 0 <= q < d ==> !#[trigger] describes(tree.nodes@, q, off),
    {
        let n = &tree.nodes[d];
        if n.kind == SyntaxKind::DESCRIPTION {
            match n.parent {
                Some(p) => match tree.nodes[p].span {
                    Some(ps) => {
                        if ps.offset == off {
                            proof { assert(describes(tree.nodes@, d as int, off)); }
                            return true;
                        }
                    },
                    None => {},
                },
                None => {},
            }
        }
    }
    false
}

fn exec_last_enum_name(tree: &Tree, off: usize) -> (r: Option<Option<Vec<char>>>)
    requires tree.wf(),
    ensures
        match r {
            Some(Some(x)) => last_enum_name(tree.nodes@, off, tree.nodes@.len() as int) == Some(Some(x@)),
            Some(None) => last_enum_name(tree.nodes@, off, tree.nodes@.len() as int) == Some(None::<Seq<char>>),
            None => last_enum_name(tree.nodes@, off, tree.nodes@.len() as int) is None,
        },
{
    let mut k = tree.nodes.len();
    while k > 0
        invariant
            tree.wf(),
            k <= tree.nodes@.len(),
            last_enum_name(tree.nodes@, off, tree.nodes@.len() as int) == last_enum_name(tree.nodes@, off, k as int),
        decreases k,
    {
        let v = &tree.nodes[k - 1];
        if v.kind == SyntaxKind::ENUM_VALUE {
            match v.parent {
                Some(p) => {
                    if tree.nodes[p].kind == SyntaxKind::ENUM_VALUE_DEFINITION {
                        match tree.nodes[p].span {
                            Some(ps) => {
                                if ps.offset == off {
                                    return Some(match &v.name {
                                        Some(x) => Some(chars_of(x.as_str())),
                                        None => None,
                                    });
                                }
                            },
                            None => {},
                        }
                    }
                },
                None => {},
            }
        }
        k = k - 1;
    }
    None
}

fn exec_report_span(src: &Vec<char>, sp: Span, name: &Option<Vec<char>>) -> (r: Span)
    ensures r == report_span(src@, sp, match name { Some(n) => Some(n@), None => None }),
{
    match name {
        Some(n) => {
            if sp.offset <= src.len() && sp.len <= src.len() - sp.offset {
                let text = sub_chars(src, sp.offset, sp.offset + sp.len);
                match exec_find_seq_from(&text, n, 0) {
                    Some(k) => Span::new(sp.offset + k, n.len()),
                    None => sp,
                }
            } else {
                sp
            }
        },
        None => sp,
    }
}

fn exec_operation_label(src: &Vec<char>, off: usize) -> (r: &'static str)
    requires off <= src@.len(),
    ensures r@ == operation_label(src@, off as int),
{
    let rest = sub_chars(src, off, src.len());
    proof { assert(rest@ == src@.skip(off as int)); }
    if exec_starts_with(&rest, &chars_of("mutation")) {
        "mutation"
    } else if exec_starts_with(&rest, &chars_of("subscription")) {
        "subscription"
    } else {
        "query"
    }
}

fn push_description_finding(out: &mut Vec<Diagnostic>, tree: &Tree, src: &Vec<char>, tk: &Vec<SyntaxKind>, o: &RequireDescriptionOptions, j: usize)
    requires
        tree.wf(),
        j < tree.nodes@.len(),
        tk@ == type_def_kinds(),
        operations_within(tree.nodes@, src@.len() as int),
    ensures
        diag_views(final(out)@) == diag_views(old(out)@) + (match description_finding(tree.nodes@, src@, *o, j as int) {
            Some(d) => seq![d],
            None => Seq::empty(),
        }),
{
    let ghost before = diag_views(out@);
    let n = &tree.nodes[j];
    if n.kind != SyntaxKind::DESCRIPTION && n.kind != SyntaxKind::ENUM_VALUE && o.is_enabled(n.kind) && n.span.is_some()
        && !exec_described_at(tree, n.span.unwrap().offset) {
        let sp = n.span.unwrap();
        let own: Option<Vec<char>> = match &n.name {
            Some(x) => Some(chars_of(x.as_str())),
            None => None,
        };
        let name = if n.kind == SyntaxKind::ENUM_VALUE_DEFINITION && own.is_none() {
            match exec_last_enum_name(tree, sp.offset) {
                Some(x) => x,
                None => None,
            }
        } else {
            own
        };
        let (ck, cn): (SyntaxKind, Option<Vec<char>>) = match find_up_exec(tree, j, tk) {
            Some(c) => (tree.nodes[c].kind, match &tree.nodes[c].name {
                Some(x) => Some(chars_of(x.as_str())),
                None => None,
            }),
            None => (SyntaxKind::TOMBSTONE, None),
        };
        let mut m: Vec<char> = Vec::new();
        push_str(&mut m, "Description is required for ");
        let at;
        if n.kind == SyntaxKind::OPERATION_DEFINITION {
            proof { assert(tree.nodes@[j as int].kind == SyntaxKind::OPERATION_DEFINITION); }
            push_str(&mut m, exec_operation_label(src, sp.offset));
            match &name {
                Some(x) => {
                    push_str(&mut m, " \"");
                    push_all(&mut m, x);
                    push_str(&mut m, "\"");
                },
                None => {},
            }
            at = sp;
        } else {
            push_def_display(&mut m, n.kind, &name);
            if n.kind == SyntaxKind::ENUM_VALUE_DEFINITION || n.kind == SyntaxKind::FIELD_DEFINITION
                || n.kind == SyntaxKind::INPUT_VALUE_DEFINITION {
                push_str(&mut m, " in ");
                push_def_display(&mut m, ck, &cn);
            }
            at = exec_report_span(src, sp, &name);
        }
        proof {
            let nodes = tree.nodes@;
            let nv = match name { Some(x) => Some(x@), None => None::<Seq<char>> };
            let ownv = match nodes[j as int].name { Some(x) => Some(x@), None => None::<Seq<char>> };
            assert(nv == (if nodes[j as int].kind == SyntaxKind::ENUM_VALUE_DEFINITION && ownv is None {
                match last_enum_name(nodes, sp.offset, nodes.len() as int) {
                    Some(x) => x,
                    None => None,
                }
            } else {
                ownv
            }));
            assert(m@ =~= "Description is required for "@ + (if nodes[j as int].kind == SyntaxKind::OPERATION_DEFINITION {
                match nv {
                    Some(x) => operation_label(src@, sp.offset as int) + " \""@ + x + "\""@,
                    None => operation_label(src@, sp.offset as int),
                }
            } else if nodes[j as int].kind == SyntaxKind::ENUM_VALUE_DEFINITION || nodes[j as int].kind == SyntaxKind::FIELD_DEFINITION
                || nodes[j as int].kind == SyntaxKind::INPUT_VALUE_DEFINITION {
                def_display(nodes[j as int].kind, nv) + " in "@ + def_display(ck, match cn { Some(x) => Some(x@), None => None::<Seq<char>> })
            } else {
                def_display(nodes[j as int].kind, nv)
            }));
        }
        push_diag(out, &m, at);
    }
    proof {
        assert(diag_views(out@) =~= before + (match description_finding(tree.nodes@, src@, *o, j as int) {
            Some(d) => seq![d],
            None => Seq::<(Seq<char>, Span, Seq<(Seq<char>, Span, Seq<char>)>)>::empty(),
        }));
    }
}

impl RequireDescription {
    /// Reports each definition of the document `tree` (with text `source`)
    /// whose kind the options require to be described and that has no
    /// description, at its name (an operation at its whole span).
    pub fn check(&self, tree: &Tree, source: &str, o: &RequireDescriptionOptions) -> (r: Vec<Diagnostic>)
        requires
            tree.wf(),
            operations_within(tree.nodes@, source@.len() as int),
        ensures diag_views(r@) == description_findings(tree.nodes@, source@, *o, tree.nodes@.len() as int),
    {
        let src = chars_of(source);
        let tk = vec![
            SyntaxKind::OBJECT_TYPE_DEFINITION,
            SyntaxKind::OBJECT_TYPE_EXTENSION,
            SyntaxKind::INTERFACE_TYPE_DEFINITION,
            SyntaxKind::INTERFACE_TYPE_EXTENSION,
            SyntaxKind::INPUT_OBJECT_TYPE_DEFINITION,
            SyntaxKind::INPUT_OBJECT_TYPE_EXTENSION,
            SyntaxKind::ENUM_TYPE_DEFINITION,
            SyntaxKind::ENUM_TYPE_EXTENSION,
            SyntaxKind::SCALAR_TYPE_DEFINITION,
            SyntaxKind::SCALAR_TYPE_EXTENSION,
            SyntaxKind::UNION_TYPE_DEFINITION,
            SyntaxKind::UNION_TYPE_EXTENSION,
            SyntaxKind::DIRECTIVE_DEFINITION,
            SyntaxKind::SCHEMA_DEFINITION,
            SyntaxKind::SCHEMA_EXTENSION,
        ];
        proof { assert(tk@ == type_def_kinds()); }
        let mut out: Vec<Diagnostic> = Vec::new();
        for j in 0..tree.nodes.len()
            invariant
                tree.wf(),
                src@ == source@,
                tk@ == type_def_kinds(),
                operations_within(tree.nodes@, source@.len() as int),
                diag_views(out@) == description_findings(tree.nodes@, source@, *o, j as int),
        {
            push_description_finding(&mut out, tree, &src, &tk, o, j);
            proof { assert(diag_views(out@) =~= description_findings(tree.nodes@, source@, *o, j + 1)); }
        }
        out
    }
}

} // verus!
