//! `alphabetize`: fields, values, selections, variables, arguments and
//! definitions listed in alphabetical order.
use vstd::prelude::*;
use crate::model::{
    Diagnostic, Node, Span, Suggestion, SyntaxKind, Tree, diag_views, find_up, find_up_exec,
    push_diag_with, sugg_view, suggestion, unicode_lower, to_lowercase,
};
use crate::text::{chars_of, exec_lex_less, has_text, lex_less, position_of, first_index, push_all, push_str, sub_chars};
use crate::case::views;

verus! {

/// The `alphabetize` rule.
pub struct Alphabetize;

/// What the rule checks. `fields` names the kinds of type whose fields are
/// checked (`ObjectTypeDefinition`, `InterfaceTypeDefinition`,
/// `InputObjectTypeDefinition`); `selections` the definitions whose
/// selections are (`OperationDefinition`, `FragmentDefinition`); `arguments`
/// the places whose arguments are (`FieldDefinition`, `Field`,
/// `DirectiveDefinition`, `Directive`). `groups` orders names before the
/// alphabet: a name, `...` for fragments, `{` and `*` for the rest.
#[derive(Debug, Clone)]
pub struct AlphabetizeOptions {
    pub fields: Vec<String>,
    pub values: bool,
    pub selections: Vec<String>,
    pub variables: bool,
    pub arguments: Vec<String>,
    pub definitions: bool,
    pub groups: Vec<String>,
}

impl AlphabetizeOptions {
    /// Options that check nothing.
    pub fn new() -> (o: Self)
        ensures
            o.fields@.len() == 0,
            !o.values,
            o.selections@.len() == 0,
            !o.variables,
            o.arguments@.len() == 0,
            !o.definitions,
            o.groups@.len() == 0,
    {
        AlphabetizeOptions {
            fields: Vec::new(),
            values: false,
            selections: Vec::new(),
            variables: false,
            arguments: Vec::new(),
            definitions: false,
            groups: Vec::new(),
        }
    }
}

/// The list an entry belongs to.
#[derive(Debug, Clone, Copy, PartialEq, Eq, Structural)]
pub enum Mode {
    Fields,
    Values,
    Selections,
    Variables,
    Arguments,
    Definitions,
}

/// One item of a checked list: its node kind, its name, its span, the offset
/// of the list's owner and the list's mode.
#[derive(Debug, Clone)]
pub struct AlphaEntry {
    pub kind: SyntaxKind,
    pub name: Option<String>,
    pub span: Span,
    pub container: usize,
    pub mode: Mode,
}

/// An entry as plain values: (kind, name, span, owner offset, mode).
pub type EntryView = (SyntaxKind, Option<Seq<char>>, Span, usize, Mode);

pub open spec fn entry_view(e: AlphaEntry) -> EntryView {
    (e.kind, match e.name { Some(n) => Some(n@), None => None }, e.span, e.container, e.mode)
}

pub open spec fn entry_views(es: Seq<AlphaEntry>) -> Seq<EntryView> {
    es.map_values(|e: AlphaEntry| entry_view(e))
}

/// The span of a node, or the empty span at 0.
pub open spec fn node_span(n: Node) -> Span {
    match n.span {
        Some(s) => s,
        None => Span { offset: 0, len: 0 },
    }
}

/// The parent of the parent of node `i`.
pub open spec fn grandparent(nodes: Seq<Node>, i: int) -> Option<usize> {
    match nodes[i].parent {
        Some(p) => nodes[p as int].parent,
        None => None,
    }
}

/// The entry of a named node in the list owned at `container`.
pub open spec fn named_entry(n: Node, container: usize, mode: Mode) -> Option<EntryView> {
    match n.name {
        Some(nm) => Some((n.kind, Some(nm@), node_span(n), container, mode)),
        None => None,
    }
}

/// The selection set `s` lies in an operation and operations are checked,
/// or in a fragment and fragments are checked.
pub open spec fn selections_on(nodes: Seq<Node>, s: int, sels: Seq<Seq<char>>) -> bool {
    match nodes[s].parent {
        Some(p) => match find_up(nodes, p as int, seq![SyntaxKind::OPERATION_DEFINITION, SyntaxKind::FRAGMENT_DEFINITION]) {
            Some(a) => if nodes[a].kind == SyntaxKind::OPERATION_DEFINITION {
                sels.contains("OperationDefinition"@)
            } else {
                sels.contains("FragmentDefinition"@)
            },
            None => false,
        },
        None => false,
    }
}

/// The kinds that are top-level definitions.
pub open spec fn is_definition_kind(k: SyntaxKind) -> bool {
    ||| k == SyntaxKind::OBJECT_TYPE_DEFINITION
    ||| k == SyntaxKind::INTERFACE_TYPE_DEFINITION
    ||| k == SyntaxKind::INPUT_OBJECT_TYPE_DEFINITION
    ||| k == SyntaxKind::ENUM_TYPE_DEFINITION
    ||| k == SyntaxKind::SCALAR_TYPE_DEFINITION
    ||| k == SyntaxKind::UNION_TYPE_DEFINITION
    ||| k == SyntaxKind::DIRECTIVE_DEFINITION
    ||| k == SyntaxKind::FRAGMENT_DEFINITION
    ||| k == SyntaxKind::OPERATION_DEFINITION
    ||| k == SyntaxKind::SCHEMA_DEFINITION
    ||| k == SyntaxKind::OBJECT_TYPE_EXTENSION
    ||| k == SyntaxKind::INTERFACE_TYPE_EXTENSION
    ||| k == SyntaxKind::INPUT_OBJECT_TYPE_EXTENSION
    ||| k == SyntaxKind::ENUM_TYPE_EXTENSION
    ||| k == SyntaxKind::SCALAR_TYPE_EXTENSION
    ||| k == SyntaxKind::UNION_TYPE_EXTENSION
}

/// The entry of a field definition `i` in an object or interface.
pub open spec fn field_definition_entry(nodes: Seq<Node>, o: AlphabetizeOptions, i: int) -> Option<EntryView> {
    match grandparent(nodes, i) {
        Some(g) => {
            let gk = nodes[g as int].kind;
            let fields = views(o.fields@);
            let on = if gk == SyntaxKind::OBJECT_TYPE_DEFINITION || gk == SyntaxKind::OBJECT_TYPE_EXTENSION {
                fields.contains("ObjectTypeDefinition"@)
            } else if gk == SyntaxKind::INTERFACE_TYPE_DEFINITION || gk == SyntaxKind::INTERFACE_TYPE_EXTENSION {
                fields.contains("InterfaceTypeDefinition"@)
            } else {
                false
            };
            if on { named_entry(nodes[i], node_span(nodes[g as int]).offset, Mode::Fields) } else { None }
        },
        None => None,
    }
}

/// The entry of an input value definition `i`: an input field, or an
/// argument of a field or directive definition.
pub open spec fn input_value_entry(nodes: Seq<Node>, o: AlphabetizeOptions, i: int) -> Option<EntryView> {
    match grandparent(nodes, i) {
        Some(g) => {
            let pk = nodes[nodes[i].parent.unwrap() as int].kind;
            let gk = nodes[g as int].kind;
            let off = node_span(nodes[g as int]).offset;
            if pk == SyntaxKind::INPUT_FIELDS_DEFINITION {
                if (gk == SyntaxKind::INPUT_OBJECT_TYPE_DEFINITION || gk == SyntaxKind::INPUT_OBJECT_TYPE_EXTENSION)
                    && views(o.fields@).contains("InputObjectTypeDefinition"@) {
                    named_entry(nodes[i], off, Mode::Fields)
                } else {
                    None
                }
            } else if pk == SyntaxKind::ARGUMENTS_DEFINITION {
                let args = views(o.arguments@);
                if (gk == SyntaxKind::FIELD_DEFINITION && args.contains("FieldDefinition"@))
                    || (gk == SyntaxKind::DIRECTIVE_DEFINITION && args.contains("DirectiveDefinition"@)) {
                    named_entry(nodes[i], off, Mode::Arguments)
                } else {
                    None
                }
            } else {
                None
            }
        },
        None => None,
    }
}

/// The entry of an enum value `i` inside an enum type.
pub open spec fn enum_value_entry(nodes: Seq<Node>, o: AlphabetizeOptions, i: int) -> Option<EntryView> {
    if !o.values {
        None
    } else {
        match nodes[i].parent {
            Some(p) => match find_up(nodes, p as int, seq![SyntaxKind::ENUM_TYPE_DEFINITION, SyntaxKind::ENUM_TYPE_EXTENSION]) {
                Some(c) => named_entry(nodes[i], node_span(nodes[c]).offset, Mode::Values),
                None => None,
            },
            None => None,
        }
    }
}

/// The entry of a selection `i` (a field or an inline fragment) directly in
/// a checked selection set.
pub open spec fn selection_entry(nodes: Seq<Node>, o: AlphabetizeOptions, i: int) -> Option<EntryView> {
    match nodes[i].parent {
        Some(p) => if nodes[p as int].kind == SyntaxKind::SELECTION_SET && selections_on(nodes, p as int, views(o.selections@)) {
            let off = node_span(nodes[p as int]).offset;
            if nodes[i].kind == SyntaxKind::INLINE_FRAGMENT {
                Some((nodes[i].kind, None, node_span(nodes[i]), off, Mode::Selections))
            } else {
                named_entry(nodes[i], off, Mode::Selections)
            }
        } else {
            None
        },
        None => None,
    }
}

/// The entry of the name `i` of a fragment spread in a checked selection
/// set.
pub open spec fn spread_entry(nodes: Seq<Node>, o: AlphabetizeOptions, i: int) -> Option<EntryView> {
    match grandparent(nodes, i) {
        Some(q) => {
            let p = nodes[i].parent.unwrap();
            if nodes[p as int].kind == SyntaxKind::FRAGMENT_SPREAD && nodes[q as int].kind == SyntaxKind::SELECTION_SET
                && selections_on(nodes, q as int, views(o.selections@)) {
                named_entry(nodes[i], node_span(nodes[q as int]).offset, Mode::Selections)
            } else {
                None
            }
        },
        None => None,
    }
}

/// The entry of an argument `i` of a field or a directive.
pub open spec fn argument_entry(nodes: Seq<Node>, o: AlphabetizeOptions, i: int) -> Option<EntryView> {
    match grandparent(nodes, i) {
        Some(g) => {
            let gk = nodes[g as int].kind;
            let args = views(o.arguments@);
            if (gk == SyntaxKind::FIELD && args.contains("Field"@)) || (gk == SyntaxKind::DIRECTIVE && args.contains("Directive"@)) {
                named_entry(nodes[i], node_span(nodes[g as int]).offset, Mode::Arguments)
            } else {
                None
            }
        },
        None => None,
    }
}

/// The entry of a variable `i` declared by an operation.
pub open spec fn variable_entry(nodes: Seq<Node>, o: AlphabetizeOptions, i: int) -> Option<EntryView> {
    if !o.variables {
        None
    } else {
        match nodes[i].parent {
            Some(p) => if nodes[p as int].kind == SyntaxKind::VARIABLE_DEFINITION {
                match find_up(nodes, p as int, seq![SyntaxKind::OPERATION_DEFINITION]) {
                    Some(c) => named_entry(nodes[i], node_span(nodes[c]).offset, Mode::Variables),
                    None => None,
                }
            } else {
                None
            },
            None => None,
        }
    }
}

/// The entry of a top-level definition `i`.
pub open spec fn definition_entry(nodes: Seq<Node>, o: AlphabetizeOptions, i: int) -> Option<EntryView> {
    let n = nodes[i];
    if o.definitions && is_definition_kind(n.kind) {
        match n.parent {
            Some(p) => if nodes[p as int].kind == SyntaxKind::DOCUMENT {
                Some((n.kind, match n.name { Some(nm) => Some(nm@), None => None }, node_span(n), 0usize, Mode::Definitions))
            } else {
                None
            },
            None => None,
        }
    } else {
        None
    }
}

/// The entry that node `i` contributes, if any.
pub open spec fn entry_at(nodes: Seq<Node>, o: AlphabetizeOptions, i: int) -> Option<EntryView> {
    let k = nodes[i].kind;
    if k == SyntaxKind::FIELD_DEFINITION {
        field_definition_entry(nodes, o, i)
    } else if k == SyntaxKind::INPUT_VALUE_DEFINITION {
        input_value_entry(nodes, o, i)
    } else if k == SyntaxKind::ENUM_VALUE {
        enum_value_entry(nodes, o, i)
    } else if k == SyntaxKind::FIELD || k == SyntaxKind::INLINE_FRAGMENT {
        selection_entry(nodes, o, i)
    } else if k == SyntaxKind::FRAGMENT_NAME {
        spread_entry(nodes, o, i)
    } else if k == SyntaxKind::ARGUMENT {
        argument_entry(nodes, o, i)
    } else if k == SyntaxKind::VARIABLE {
        variable_entry(nodes, o, i)
    } else {
        definition_entry(nodes, o, i)
    }
}

/// The entries of the first `n` nodes, in document order.
pub open spec fn entries(nodes: Seq<Node>, o: AlphabetizeOptions, n: int) -> Seq<EntryView>
    decreases n,
{
    if n <= 0 {
        Seq::empty()
    } else {
        match entry_at(nodes, o, n - 1) {
            Some(e) => entries(nodes, o, n - 1).push(e),
            None => entries(nodes, o, n - 1),
        }
    }
}

/// Entries `k` and `j` are in the same list.
pub open spec fn same_list(es: Seq<EntryView>, k: int, j: int) -> bool {
    es[k].3 == es[j].3 && es[k].4 == es[j].4
}

/// Entry `k` comes before entry `j` once a list is sorted by offset (ties
/// keep document order).
pub open spec fn sorted_before(es: Seq<EntryView>, k: int, j: int) -> bool {
    es[k].2.offset < es[j].2.offset || (es[k].2.offset == es[j].2.offset && k < j)
}

/// Among the first `m` entries, the last one before entry `j` in its list.
pub open spec fn previous_in_list(es: Seq<EntryView>, j: int, m: int) -> Option<int>
    decreases m,
{
    if m <= 0 {
        None
    } else {
        let best = previous_in_list(es, j, m - 1);
        let k = m - 1;
        if same_list(es, k, j) && sorted_before(es, k, j)
            && (best matches Some(b) ==> sorted_before(es, b, k)) {
            Some(k)
        } else {
            best
        }
    }
}

/// The group position of a name: its own place in `groups`, else `...` for
/// fragments, else `{`, else `*`, else last of all.
pub open spec fn group_index(groups: Seq<Seq<char>>, name: Seq<char>, kind: SyntaxKind) -> int {
    match first_index(groups, name) {
        Some(x) => x,
        None => {
            let frag = kind == SyntaxKind::FRAGMENT_NAME || kind == SyntaxKind::INLINE_FRAGMENT;
            if frag && first_index(groups, "..."@) is Some {
                first_index(groups, "..."@).unwrap()
            } else {
                match first_index(groups, "{"@) {
                    Some(x) => x,
                    None => match first_index(groups, "*"@) {
                        Some(x) => x,
                        None => usize::MAX as int,
                    },
                }
            }
        },
    }
}

/// Whether a named entry `cur` placed right after `prev` is out of order.
pub open spec fn out_of_order(prev: EntryView, cur_name: Seq<char>, cur_kind: SyntaxKind, groups: Seq<Seq<char>>) -> bool {
    let by_name = match prev.1 {
        Some(pn) => lex_less(unicode_lower(cur_name), unicode_lower(pn)),
        None => false,
    };
    if groups.len() > 0 {
        let pi = group_index(groups, match prev.1 { Some(pn) => pn, None => Seq::empty() }, prev.0);
        let ci = group_index(groups, cur_name, cur_kind);
        if pi > ci {
            true
        } else if pi < ci {
            false
        } else {
            by_name
        }
    } else {
        by_name
    }
}

/// How an item of each kind is named in messages.
pub open spec fn kind_label(k: SyntaxKind) -> Seq<char> {
    if k == SyntaxKind::FIELD_DEFINITION || k == SyntaxKind::FIELD {
        "field"@
    } else if k == SyntaxKind::INPUT_VALUE_DEFINITION {
        "input value"@
    } else if k == SyntaxKind::ENUM_VALUE {
        "enum value"@
    } else if k == SyntaxKind::ARGUMENT {
        "argument"@
    } else if k == SyntaxKind::VARIABLE {
        "variable"@
    } else if k == SyntaxKind::FRAGMENT_NAME {
        "fragment spread"@
    } else if k == SyntaxKind::INLINE_FRAGMENT {
        "inline fragment"@
    } else if k == SyntaxKind::OBJECT_TYPE_DEFINITION || k == SyntaxKind::OBJECT_TYPE_EXTENSION {
        "type"@
    } else if k == SyntaxKind::INTERFACE_TYPE_DEFINITION || k == SyntaxKind::INTERFACE_TYPE_EXTENSION {
        "interface"@
    } else if k == SyntaxKind::INPUT_OBJECT_TYPE_DEFINITION || k == SyntaxKind::INPUT_OBJECT_TYPE_EXTENSION {
        "input"@
    } else if k == SyntaxKind::ENUM_TYPE_DEFINITION || k == SyntaxKind::ENUM_TYPE_EXTENSION {
        "enum"@
    } else if k == SyntaxKind::SCALAR_TYPE_DEFINITION || k == SyntaxKind::SCALAR_TYPE_EXTENSION {
        "scalar"@
    } else if k == SyntaxKind::UNION_TYPE_DEFINITION || k == SyntaxKind::UNION_TYPE_EXTENSION {
        "union"@
    } else if k == SyntaxKind::DIRECTIVE_DEFINITION {
        "directive"@
    } else if k == SyntaxKind::FRAGMENT_DEFINITION {
        "fragment"@
    } else if k == SyntaxKind::OPERATION_DEFINITION {
        "operation"@
    } else if k == SyntaxKind::SCHEMA_DEFINITION {
        "schema"@
    } else {
        ""@
    }
}

/// How an unnamed item of each kind is named in messages.
pub open spec fn unnamed_label(k: SyntaxKind) -> Seq<char> {
    if k == SyntaxKind::INLINE_FRAGMENT {
        "inline fragment"@
    } else if k == SyntaxKind::OPERATION_DEFINITION {
        "operation definition"@
    } else if k == SyntaxKind::SCHEMA_DEFINITION {
        "schema definition"@
    } else {
        ""@
    }
}

/// The text naming an entry in messages.
pub open spec fn entry_label(e: EntryView) -> Seq<char> {
    match e.1 {
        Some(n) => kind_label(e.0) + " \""@ + n + "\""@,
        None => unnamed_label(e.0),
    }
}

/// The source text under `span`, or nothing when the span runs past it.
pub open spec fn text_under(src: Seq<char>, span: Span) -> Seq<char> {
    if span.offset + span.len <= src.len() {
        src.subrange(span.offset as int, span.offset + span.len)
    } else {
        Seq::empty()
    }
}

/// The diagnostic for entry `cur` found out of order after `prev`: swap
/// either one's text for the other's.
pub open spec fn order_diag(prev: EntryView, cur: EntryView, src: Seq<char>) -> (Seq<char>, Span, Seq<(Seq<char>, Span, Seq<char>)>) {
    let c = entry_label(cur);
    let p = entry_label(prev);
    (
        c + " should be before "@ + p,
        cur.2,
        seq![
            ("Move "@ + c + " before "@ + p, cur.2, text_under(src, prev.2)),
            ("Move "@ + p + " after "@ + c, prev.2, text_under(src, cur.2)),
        ],
    )
}

/// The findings for the first `n` entries, in entry order.
pub open spec fn order_findings(es: Seq<EntryView>, groups: Seq<Seq<char>>, src: Seq<char>, n: int) -> Seq<(Seq<char>, Span, Seq<(Seq<char>, Span, Seq<char>)>)>
    decreases n,
{
    if n <= 0 {
        Seq::empty()
    } else {
        let prev = order_findings(es, groups, src, n - 1);
        let j = n - 1;
        match (previous_in_list(es, j, es.len() as int), es[j].1) {
            (Some(p), Some(cn)) => if out_of_order(es[p], cn, es[j].0, groups) {
                prev.push(order_diag(es[p], es[j], src))
            } else {
                prev
            },
            _ => prev,
        }
    }
}

/// What the rule reports on a document: nothing when `groups` is given
/// without `*`, else every entry found out of order.
pub open spec fn alphabetize_findings(nodes: Seq<Node>, o: AlphabetizeOptions, src: Seq<char>) -> Seq<(Seq<char>, Span, Seq<(Seq<char>, Span, Seq<char>)>)> {
    let groups = views(o.groups@);
    if groups.len() > 0 && !groups.contains("*"@) {
        Seq::empty()
    } else {
        order_findings(entries(nodes, o, nodes.len() as int), groups, src, entries(nodes, o, nodes.len() as int).len() as int)
    }
}


pub open spec fn opt_entry_view(e: Option<AlphaEntry>) -> Option<EntryView> {
    match e {
        Some(x) => Some(entry_view(x)),
        None => None,
    }
}

fn exec_node_span(n: &Node) -> (r: Span)
    ensures r == node_span(*n),
{
    match n.span {
        Some(s) => s,
        None => Span::new(0, 0),
    }
}

fn exec_named_entry(n: &Node, container: usize, mode: Mode) -> (r: Option<AlphaEntry>)
    ensures opt_entry_view(r) == named_entry(*n, container, mode),
{
    match &n.name {
        Some(nm) => Some(AlphaEntry { kind: n.kind, name: Some(nm.clone()), span: exec_node_span(n), container, mode }),
        None => None,
    }
}

fn exec_grandparent(tree: &Tree, i: usize) -> (r: Option<usize>)
    requires
        tree.wf(),
        i < tree.nodes@.len(),
    ensures
        r == grandparent(tree.nodes@, i as int),
        r matches Some(g) ==> g < i,
{
    match tree.nodes[i].parent {
        Some(p) => tree.nodes[p].parent,
        None => None,
    }
}

fn exec_selections_on(tree: &Tree, s: usize, sels: &Vec<String>) -> (r: bool)
    requires
        tree.wf(),
        s < tree.nodes@.len(),
    ensures r == selections_on(tree.nodes@, s as int, views(sels@)),
{
    let owners = vec![SyntaxKind::OPERATION_DEFINITION, SyntaxKind::FRAGMENT_DEFINITION];
    proof { assert(owners@ == seq![SyntaxKind::OPERATION_DEFINITION, SyntaxKind::FRAGMENT_DEFINITION]); }
    match tree.nodes[s].parent {
        Some(p) => match find_up_exec(tree, p, &owners) {
            Some(a) => if tree.nodes[a].kind == SyntaxKind::OPERATION_DEFINITION {
                has_text(sels, "OperationDefinition")
            } else {
                has_text(sels, "FragmentDefinition")
            },
            None => false,
        },
        None => false,
    }
}

fn exec_field_definition_entry(tree: &Tree, o: &AlphabetizeOptions, i: usize) -> (r: Option<AlphaEntry>)
    requires
        tree.wf(),
        i < tree.nodes@.len(),
    ensures opt_entry_view(r) == field_definition_entry(tree.nodes@, *o, i as int),
{
    match exec_grandparent(tree, i) {
        Some(g) => {
            let gk = tree.nodes[g].kind;
            let on = if gk == SyntaxKind::OBJECT_TYPE_DEFINITION || gk == SyntaxKind::OBJECT_TYPE_EXTENSION {
                has_text(&o.fields, "ObjectTypeDefinition")
            } else if gk == SyntaxKind::INTERFACE_TYPE_DEFINITION || gk == SyntaxKind::INTERFACE_TYPE_EXTENSION {
                has_text(&o.fields, "InterfaceTypeDefinition")
            } else {
                false
            };
            if on {
                exec_named_entry(&tree.nodes[i], exec_node_span(&tree.nodes[g]).offset, Mode::Fields)
            } else {
                None
            }
        },
        None => None,
    }
}

fn exec_input_value_entry(tree: &Tree, o: &AlphabetizeOptions, i: usize) -> (r: Option<AlphaEntry>)
    requires
        tree.wf(),
        i < tree.nodes@.len(),
    ensures opt_entry_view(r) == input_value_entry(tree.nodes@, *o, i as int),
{
    match (exec_grandparent(tree, i), tree.nodes[i].parent) {
        (Some(g), Some(p)) => {
            let pk = tree.nodes[p].kind;
            let gk = tree.nodes[g].kind;
            let off = exec_node_span(&tree.nodes[g]).offset;
            if pk == SyntaxKind::INPUT_FIELDS_DEFINITION {
                if (gk == SyntaxKind::INPUT_OBJECT_TYPE_DEFINITION || gk == SyntaxKind::INPUT_OBJECT_TYPE_EXTENSION)
                    && has_text(&o.fields, "InputObjectTypeDefinition") {
                    exec_named_entry(&tree.nodes[i], off, Mode::Fields)
                } else {
                    None
                }
            } else if pk == SyntaxKind::ARGUMENTS_DEFINITION {
                if (gk == SyntaxKind::FIELD_DEFINITION && has_text(&o.arguments, "FieldDefinition"))
                    || (gk == SyntaxKind::DIRECTIVE_DEFINITION && has_text(&o.arguments, "DirectiveDefinition")) {
                    exec_named_entry(&tree.nodes[i], off, Mode::Arguments)
                } else {
                    None
                }
            } else {
                None
            }
        },
        _ => None,
    }
}

fn exec_enum_value_entry(tree: &Tree, o: &AlphabetizeOptions, i: usize) -> (r: Option<AlphaEntry>)
    requires
        tree.wf(),
        i < tree.nodes@.len(),
    ensures opt_entry_view(r) == enum_value_entry(tree.nodes@, *o, i as int),
{
    if !o.values {
        return None;
    }
    let owners = vec![SyntaxKind::ENUM_TYPE_DEFINITION, SyntaxKind::ENUM_TYPE_EXTENSION];
    proof { assert(owners@ == seq![SyntaxKind::ENUM_TYPE_DEFINITION, SyntaxKind::ENUM_TYPE_EXTENSION]); }
    match tree.nodes[i].parent {
        Some(p) => match find_up_exec(tree, p, &owners) {
            Some(c) => exec_named_entry(&tree.nodes[i], exec_node_span(&tree.nodes[c]).offset, Mode::Values),
            None => None,
        },
        None => None,
    }
}

fn exec_selection_entry(tree: &Tree, o: &AlphabetizeOptions, i: usize) -> (r: Option<AlphaEntry>)
    requires
        tree.wf(),
        i < tree.nodes@.len(),
    ensures opt_entry_view(r) == selection_entry(tree.nodes@, *o, i as int),
{
    match tree.nodes[i].parent {
        Some(p) => if tree.nodes[p].kind == SyntaxKind::SELECTION_SET && exec_selections_on(tree, p, &o.selections) {
            let off = exec_node_span(&tree.nodes[p]).offset;
            if tree.nodes[i].kind == SyntaxKind::INLINE_FRAGMENT {
                Some(AlphaEntry { kind: tree.nodes[i].kind, name: None, span: exec_node_span(&tree.nodes[i]), container: off, mode: Mode::Selections })
            } else {
                exec_named_entry(&tree.nodes[i], off, Mode::Selections)
            }
        } else {
            None
        },
        None => None,
    }
}

fn exec_spread_entry(tree: &Tree, o: &AlphabetizeOptions, i: usize) -> (r: Option<AlphaEntry>)
    requires
        tree.wf(),
        i < tree.nodes@.len(),
    ensures opt_entry_view(r) == spread_entry(tree.nodes@, *o, i as int),
{
    match (exec_grandparent(tree, i), tree.nodes[i].parent) {
        (Some(q), Some(p)) => {
            if tree.nodes[p].kind == SyntaxKind::FRAGMENT_SPREAD && tree.nodes[q].kind == SyntaxKind::SELECTION_SET
                && exec_selections_on(tree, q, &o.selections) {
                exec_named_entry(&tree.nodes[i], exec_node_span(&tree.nodes[q]).offset, Mode::Selections)
            } else {
                None
            }
        },
        _ => None,
    }
}

fn exec_argument_entry(tree: &Tree, o: &AlphabetizeOptions, i: usize) -> (r: Option<AlphaEntry>)
    requires
        tree.wf(),
        i < tree.nodes@.len(),
    ensures opt_entry_view(r) == argument_entry(tree.nodes@, *o, i as int),
{
    match exec_grandparent(tree, i) {
        Some(g) => {
            let gk = tree.nodes[g].kind;
            if (gk == SyntaxKind::FIELD && has_text(&o.arguments, "Field"))
                || (gk == SyntaxKind::DIRECTIVE && has_text(&o.arguments, "Directive")) {
                exec_named_entry(&tree.nodes[i], exec_node_span(&tree.nodes[g]).offset, Mode::Arguments)
            } else {
                None
            }
        },
        None => None,
    }
}

fn exec_variable_entry(tree: &Tree, o: &AlphabetizeOptions, i: usize) -> (r: Option<AlphaEntry>)
    requires
        tree.wf(),
        i < tree.nodes@.len(),
    ensures opt_entry_view(r) == variable_entry(tree.nodes@, *o, i as int),
{
    if !o.variables {
        return None;
    }
    let owners = vec![SyntaxKind::OPERATION_DEFINITION];
    proof { assert(owners@ == seq![SyntaxKind::OPERATION_DEFINITION]); }
    match tree.nodes[i].parent {
        Some(p) => if tree.nodes[p].kind == SyntaxKind::VARIABLE_DEFINITION {
            match find_up_exec(tree, p, &owners) {
                Some(c) => exec_named_entry(&tree.nodes[i], exec_node_span(&tree.nodes[c]).offset, Mode::Variables),
                None => None,
            }
        } else {
            None
        },
        None => None,
    }
}

fn exec_is_definition_kind(k: SyntaxKind) -> (r: bool)
    ensures r == is_definition_kind(k),
{
    match k {
        SyntaxKind::OBJECT_TYPE_DEFINITION | SyntaxKind::INTERFACE_TYPE_DEFINITION
        | SyntaxKind::INPUT_OBJECT_TYPE_DEFINITION | SyntaxKind::ENUM_TYPE_DEFINITION
        | SyntaxKind::SCALAR_TYPE_DEFINITION | SyntaxKind::UNION_TYPE_DEFINITION
        | SyntaxKind::DIRECTIVE_DEFINITION | SyntaxKind::FRAGMENT_DEFINITION
        | SyntaxKind::OPERATION_DEFINITION | SyntaxKind::SCHEMA_DEFINITION
        | SyntaxKind::OBJECT_TYPE_EXTENSION | SyntaxKind::INTERFACE_TYPE_EXTENSION
        | SyntaxKind::INPUT_OBJECT_TYPE_EXTENSION | SyntaxKind::ENUM_TYPE_EXTENSION
        | SyntaxKind::SCALAR_TYPE_EXTENSION | SyntaxKind::UNION_TYPE_EXTENSION => true,
        _ => false,
    }
}

fn exec_definition_entry(tree: &Tree, o: &AlphabetizeOptions, i: usize) -> (r: Option<AlphaEntry>)
    requires
        tree.wf(),
        i < tree.nodes@.len(),
    ensures opt_entry_view(r) == definition_entry(tree.nodes@, *o, i as int),
{
    let n = &tree.nodes[i];
    if o.definitions && exec_is_definition_kind(n.kind) {
        match n.parent {
            Some(p) => if tree.nodes[p].kind == SyntaxKind::DOCUMENT {
                let name = match &n.name {
                    Some(nm) => Some(nm.clone()),
                    None => None,
                };
                Some(AlphaEntry { kind: n.kind, name, span: exec_node_span(n), container: 0, mode: Mode::Definitions })
            } else {
                None
            },
            None => None,
        }
    } else {
        None
    }
}

/// The entry that node `i` of `tree` contributes, if any.
pub fn entry_for(tree: &Tree, o: &AlphabetizeOptions, i: usize) -> (r: Option<AlphaEntry>)
    requires
        tree.wf(),
        i < tree.nodes@.len(),
    ensures opt_entry_view(r) == entry_at(tree.nodes@, *o, i as int),
{
    let k = tree.nodes[i].kind;
    if k == SyntaxKind::FIELD_DEFINITION {
        exec_field_definition_entry(tree, o, i)
    } else if k == SyntaxKind::INPUT_VALUE_DEFINITION {
        exec_input_value_entry(tree, o, i)
    } else if k == SyntaxKind::ENUM_VALUE {
        exec_enum_value_entry(tree, o, i)
    } else if k == SyntaxKind::FIELD || k == SyntaxKind::INLINE_FRAGMENT {
        exec_selection_entry(tree, o, i)
    } else if k == SyntaxKind::FRAGMENT_NAME {
        exec_spread_entry(tree, o, i)
    } else if k == SyntaxKind::ARGUMENT {
        exec_argument_entry(tree, o, i)
    } else if k == SyntaxKind::VARIABLE {
        exec_variable_entry(tree, o, i)
    } else {
        exec_definition_entry(tree, o, i)
    }
}

/// The entries of `tree`, in document order.
pub fn collect_entries(tree: &Tree, o: &AlphabetizeOptions) -> (r: Vec<AlphaEntry>)
    requires tree.wf(),
    ensures entry_views(r@) == entries(tree.nodes@, *o, tree.nodes@.len() as int),
{
    let mut out: Vec<AlphaEntry> = Vec::new();
    for i in 0..tree.nodes.len()
        invariant
            tree.wf(),
            entry_views(out@) == entries(tree.nodes@, *o, i as int),
    {
        let ghost before = out@;
        match entry_for(tree, o, i) {
            Some(e) => {
                out.push(e);
                proof { assert(entry_views(out@) =~= entry_views(before).push(entry_view(e))); }
            },
            None => {},
        }
    }
    out
}


fn exec_group_index(groups: &Vec<String>, name: &str, kind: SyntaxKind) -> (r: usize)
    ensures r as int == group_index(views(groups@), name@, kind),
{
    match position_of(groups, name) {
        Some(x) => x,
        None => {
            let frag = kind == SyntaxKind::FRAGMENT_NAME || kind == SyntaxKind::INLINE_FRAGMENT;
            let dots = position_of(groups, "...");
            if frag && dots.is_some() {
                match dots { Some(x) => x, None => 0 }
            } else {
                match position_of(groups, "{") {
                    Some(x) => x,
                    None => match position_of(groups, "*") {
                        Some(x) => x,
                        None => usize::MAX,
                    },
                }
            }
        },
    }
}

fn exec_kind_label(k: SyntaxKind) -> (r: &'static str)
    ensures r@ == kind_label(k),
{
    match k {
        SyntaxKind::FIELD_DEFINITION | SyntaxKind::FIELD => "field",
        SyntaxKind::INPUT_VALUE_DEFINITION => "input value",
        SyntaxKind::ENUM_VALUE => "enum value",
        SyntaxKind::ARGUMENT => "argument",
        SyntaxKind::VARIABLE => "variable",
        SyntaxKind::FRAGMENT_NAME => "fragment spread",
        SyntaxKind::INLINE_FRAGMENT => "inline fragment",
        SyntaxKind::OBJECT_TYPE_DEFINITION | SyntaxKind::OBJECT_TYPE_EXTENSION => "type",
        SyntaxKind::INTERFACE_TYPE_DEFINITION | SyntaxKind::INTERFACE_TYPE_EXTENSION => "interface",
        SyntaxKind::INPUT_OBJECT_TYPE_DEFINITION | SyntaxKind::INPUT_OBJECT_TYPE_EXTENSION => "input",
        SyntaxKind::ENUM_TYPE_DEFINITION | SyntaxKind::ENUM_TYPE_EXTENSION => "enum",
        SyntaxKind::SCALAR_TYPE_DEFINITION | SyntaxKind::SCALAR_TYPE_EXTENSION => "scalar",
        SyntaxKind::UNION_TYPE_DEFINITION | SyntaxKind::UNION_TYPE_EXTENSION => "union",
        SyntaxKind::DIRECTIVE_DEFINITION => "directive",
        SyntaxKind::FRAGMENT_DEFINITION => "fragment",
        SyntaxKind::OPERATION_DEFINITION => "operation",
        SyntaxKind::SCHEMA_DEFINITION => "schema",
        _ => "",
    }
}

fn exec_unnamed_label(k: SyntaxKind) -> (r: &'static str)
    ensures r@ == unnamed_label(k),
{
    match k {
        SyntaxKind::INLINE_FRAGMENT => "inline fragment",
        SyntaxKind::OPERATION_DEFINITION => "operation definition",
        SyntaxKind::SCHEMA_DEFINITION => "schema definition",
        _ => "",
    }
}

fn exec_entry_label(e: &AlphaEntry) -> (r: Vec<char>)
    ensures r@ == entry_label(entry_view(*e)),
{
    let mut m: Vec<char> = Vec::new();
    match &e.name {
        Some(n) => {
            push_str(&mut m, exec_kind_label(e.kind));
            push_str(&mut m, " \"");
            push_str(&mut m, n.as_str());
            push_str(&mut m, "\"");
        },
        None => {
            push_str(&mut m, exec_unnamed_label(e.kind));
        },
    }
    m
}

fn exec_text_under(src: &Vec<char>, span: Span) -> (r: Vec<char>)
    ensures r@ == text_under(src@, span),
{
    if span.len <= src.len() && span.offset <= src.len() - span.len {
        sub_chars(src, span.offset, span.offset + span.len)
    } else {
        Vec::new()
    }
}

fn exec_sorted_before(es: &Vec<AlphaEntry>, k: usize, j: usize) -> (r: bool)
    requires
        k < es@.len(),
        j < es@.len(),
    ensures r == sorted_before(entry_views(es@), k as int, j as int),
{
    es[k].span.offset < es[j].span.offset || (es[k].span.offset == es[j].span.offset && k < j)
}

fn exec_previous_in_list(es: &Vec<AlphaEntry>, j: usize) -> (r: Option<usize>)
    requires j < es@.len(),
    ensures
        match r {
            Some(p) => previous_in_list(entry_views(es@), j as int, es@.len() as int) == Some(p as int) && p < es@.len(),
            None => previous_in_list(entry_views(es@), j as int, es@.len() as int) is None,
        },
{
    let ghost ev = entry_views(es@);
    let mut best: Option<usize> = None;
    for k in 0..es.len()
        invariant
            j < es@.len(),
            ev == entry_views(es@),
            match best {
                Some(b) => previous_in_list(ev, j as int, k as int) == Some(b as int) && b < k,
                None => previous_in_list(ev, j as int, k as int) is None,
            },
    {
        let same = es[k].container == es[j].container && es[k].mode == es[j].mode;
        let take = same && exec_sorted_before(es, k, j) && match best {
            Some(b) => exec_sorted_before(es, b, k),
            None => true,
        };
        if take {
            best = Some(k);
        }
    }
    best
}

/// The diagnostic for entry `cur` found out of order after `prev`.
fn exec_order_diag(out: &mut Vec<Diagnostic>, prev: &AlphaEntry, cur: &AlphaEntry, src: &Vec<char>)
    ensures
        diag_views(final(out)@) == diag_views(old(out)@).push(order_diag(entry_view(*prev), entry_view(*cur), src@)),
{
    let c = exec_entry_label(cur);
    let p = exec_entry_label(prev);
    let mut m: Vec<char> = Vec::new();
    push_all(&mut m, &c);
    push_str(&mut m, " should be before ");
    push_all(&mut m, &p);
    let mut d1: Vec<char> = Vec::new();
    push_str(&mut d1, "Move ");
    push_all(&mut d1, &c);
    push_str(&mut d1, " before ");
    push_all(&mut d1, &p);
    let mut d2: Vec<char> = Vec::new();
    push_str(&mut d2, "Move ");
    push_all(&mut d2, &p);
    push_str(&mut d2, " after ");
    push_all(&mut d2, &c);
    let s1 = suggestion(&d1, cur.span, &exec_text_under(src, prev.span));
    let s2 = suggestion(&d2, prev.span, &exec_text_under(src, cur.span));
    let sugg = vec![s1, s2];
    proof {
        assert(sugg@.map_values(|s: Suggestion| sugg_view(s)) =~= order_diag(entry_view(*prev), entry_view(*cur), src@).2);
    }
    push_diag_with(out, &m, cur.span, sugg);
}

impl Alphabetize {
    /// Reports every checked item of the document `tree` (with text
    /// `source`) that comes out of order after the item before it in its
    /// list, with the suggestions to swap the two.
    pub fn check(&self, tree: &Tree, source: &str, opts: &AlphabetizeOptions) -> (r: Vec<Diagnostic>)
        requires tree.wf(),
        ensures diag_views(r@) == alphabetize_findings(tree.nodes@, *opts, source@),
    {
        let mut out: Vec<Diagnostic> = Vec::new();
        if opts.groups.len() > 0 && !has_text(&opts.groups, "*") {
            return out;
        }
        let es = collect_entries(tree, opts);
        let src = chars_of(source);
        let ghost ev = entry_views(es@);
        let ghost groups = views(opts.groups@);
        let has_groups = opts.groups.len() > 0;
        for j in 0..es.len()
            invariant
                ev == entry_views(es@),
                groups == views(opts.groups@),
                has_groups == (groups.len() > 0),
                src@ == source@,
                diag_views(out@) == order_findings(ev, groups, source@, j as int),
        {
            match (exec_previous_in_list(&es, j), &es[j].name) {
                (Some(p), Some(cn)) => {
                    let cl = chars_of(to_lowercase(cn.as_str()).as_str());
                    let by_name = match &es[p].name {
                        Some(pn) => exec_lex_less(&cl, &chars_of(to_lowercase(pn.as_str()).as_str())),
                        None => false,
                    };
                    let report = if has_groups {
                        let pi = match &es[p].name {
                            Some(pn) => exec_group_index(&opts.groups, pn.as_str(), es[p].kind),
                            None => exec_group_index(&opts.groups, "", es[p].kind),
                        };
                        let ci = exec_group_index(&opts.groups, cn.as_str(), es[j].kind);
                        if pi > ci {
                            true
                        } else if pi < ci {
                            false
                        } else {
                            by_name
                        }
                    } else {
                        by_name
                    };
                    proof {
                        reveal_strlit("");
                        assert(""@ =~= Seq::<char>::empty());
                        assert(ev[p as int] == entry_view(es@[p as int]));
                        assert(ev[j as int] == entry_view(es@[j as int]));
                        assert(report == out_of_order(ev[p as int], cn@, ev[j as int].0, groups));
                    }
                    if report {
                        exec_order_diag(&mut out, &es[p], &es[j], &src);
                    }
                },
                _ => {
                    proof { assert(ev[j as int] == entry_view(es@[j as int])); }
                },
            }
        }
        out
    }
}

} // verus!
