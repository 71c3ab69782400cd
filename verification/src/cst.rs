//! The syntax tree of a GraphQL document, built from what `apollo_parser`
//! gives: its elements (nodes and tokens) in document order, each with the
//! name of its kind, its text when it is a token, how many nodes enclose it
//! (a node counting itself) and its range of bytes.
use vstd::prelude::*;
use apollo_parser::cst::CstNode;
use crate::model::{Node, Span, SyntaxKind, Tree};
use crate::text::{chars_of, chars_eq, string_of};

verus! {

/// One element of a parsed document.
#[derive(Debug)]
pub struct CstElement {
    pub kind: String,
    pub token: Option<String>,
    pub depth: usize,
    pub start: usize,
    pub end: usize,
}

/// An element as plain values: kind name, token text, depth, byte range.
pub type ElemView = (Seq<char>, Option<Seq<char>>, int, int, int);

pub open spec fn elem_view(e: CstElement) -> ElemView {
    (e.kind@, match e.token { Some(t) => Some(t@), None => None }, e.depth as int, e.start as int, e.end as int)
}

pub open spec fn elems_view(es: Seq<CstElement>) -> Seq<ElemView> {
    es.map_values(|e: CstElement| elem_view(e))
}

/// The elements `apollo_parser` gives for the document `source`.
pub uninterp spec fn cst_elements(source: Seq<char>) -> Seq<ElemView>;

/// Calls `apollo_parser::Parser::new(source).parse()` and lists the
/// elements of its document's syntax node in document order
/// (`descendants_with_tokens`): the `Debug` name of each element's kind,
/// the token's text, the count of `ancestors`, and the text range. The
/// contract claims only that the list depends on `source` alone.
#[verifier::external_body]
fn parse_elements(source: &str) -> (r: Vec<CstElement>)
    ensures elems_view(r@) == cst_elements(source@),
{
    apollo_parser::Parser::new(source).parse().document().syntax().descendants_with_tokens()
        .map(|e| CstElement {
            kind: format!("{:?}", e.kind()),
            token: e.as_token().map(|t| t.text().to_owned()),
            depth: e.ancestors().count(),
            start: usize::from(e.text_range().start()),
            end: usize::from(e.text_range().end()),
        })
        .collect()
}

/// Whitespace, comments and commas, which carry no meaning.
pub open spec fn is_trivia(k: Seq<char>) -> bool {
    k == "WHITESPACE"@ || k == "COMMENT"@ || k == "COMMA"@
}

pub open spec fn is_node(e: ElemView) -> bool {
    e.1 is None
}

/// Element `j` lies after the subtree of node `i`: a node no deeper than
/// `i`, or a token of a node that encloses `i`.
pub open spec fn leaves(es: Seq<ElemView>, i: int, j: int) -> bool {
    if is_node(es[j]) { es[j].2 <= es[i].2 } else { es[j].2 < es[i].2 }
}

/// The end of the subtree of node `i`, searching from `j`.
pub open spec fn subtree_end(es: Seq<ElemView>, i: int, j: int) -> int
    decreases es.len() - j,
{
    if j >= es.len() { es.len() as int } else if leaves(es, i, j) { j } else { subtree_end(es, i, j + 1) }
}

/// A token that carries meaning.
pub open spec fn is_sig_token(e: ElemView) -> bool {
    !is_node(e) && !is_trivia(e.0)
}

/// The first meaningful token in `[j, end)`.
pub open spec fn first_sig(es: Seq<ElemView>, j: int, end: int) -> Option<int>
    decreases end - j,
{
    if j >= end { None } else if is_sig_token(es[j]) { Some(j) } else { first_sig(es, j + 1, end) }
}

/// The last meaningful token in `[j, end)`.
pub open spec fn last_sig(es: Seq<ElemView>, j: int, end: int) -> Option<int>
    decreases end - j,
{
    if j >= end { None } else if is_sig_token(es[end - 1]) { Some(end - 1) } else { last_sig(es, j, end - 1) }
}

/// The first meaningful token of node `i` itself in `[j, end)`.
pub open spec fn first_direct(es: Seq<ElemView>, i: int, j: int, end: int) -> Option<int>
    decreases end - j,
{
    if j >= end {
        None
    } else if is_sig_token(es[j]) && es[j].2 == es[i].2 {
        Some(j)
    } else {
        first_direct(es, i, j + 1, end)
    }
}

/// The first child node of node `i` of kind `k` in `[j, end)`.
pub open spec fn first_child(es: Seq<ElemView>, i: int, k: Seq<char>, j: int, end: int) -> Option<int>
    decreases end - j,
{
    if j >= end {
        None
    } else if is_node(es[j]) && es[j].2 == es[i].2 + 1 && es[j].0 == k {
        Some(j)
    } else {
        first_child(es, i, k, j + 1, end)
    }
}

/// The text of the first meaningful token of node `i` (empty without one).
pub open spec fn own_text(es: Seq<ElemView>, i: int) -> Seq<char> {
    match first_direct(es, i, i + 1, subtree_end(es, i, i + 1)) {
        Some(t) => es[t].1.unwrap(),
        None => Seq::empty(),
    }
}

/// A node's name: its own token for a `NAME` or an `OPERATION_TYPE`; else
/// that of its first `NAME` child, or of the `NAME` in its first
/// `FRAGMENT_NAME` child.
pub open spec fn elem_name(es: Seq<ElemView>, i: int) -> Option<Seq<char>> {
    let end = subtree_end(es, i, i + 1);
    if es[i].0 == "NAME"@ || es[i].0 == "OPERATION_TYPE"@ {
        Some(own_text(es, i))
    } else {
        match first_child(es, i, "NAME"@, i + 1, end) {
            Some(n) => Some(own_text(es, n)),
            None => match first_child(es, i, "FRAGMENT_NAME"@, i + 1, end) {
                Some(f) => match first_child(es, f, "NAME"@, f + 1, subtree_end(es, f, f + 1)) {
                    Some(n) => Some(own_text(es, n)),
                    None => None,
                },
                None => None,
            },
        }
    }
}

/// The bytes of a node: from its first to its last meaningful token, or
/// its whole range when it has none.
pub open spec fn elem_bytes(es: Seq<ElemView>, i: int) -> (int, int) {
    let end = subtree_end(es, i, i + 1);
    match (first_sig(es, i + 1, end), last_sig(es, i + 1, end)) {
        (Some(f), Some(l)) => (es[f].3, es[l].4),
        _ => (es[i].3, es[i].4),
    }
}

/// The number of UTF-8 bytes of `c`.
pub open spec fn utf8_len(c: char) -> int {
    if (c as int) < 0x80 { 1 } else if (c as int) < 0x800 { 2 } else if (c as int) < 0x10000 { 3 } else { 4 }
}

/// How many characters of `s` fit in its first `b` bytes.
pub open spec fn chars_in(s: Seq<char>, b: int) -> int
    decreases s.len(),
{
    if s.len() == 0 || utf8_len(s[0]) > b { 0 } else { 1 + chars_in(s.drop_first(), b - utf8_len(s[0])) }
}

/// The span, in characters of `src`, of the bytes `r`.
pub open spec fn char_span(src: Seq<char>, r: (int, int)) -> Span {
    let s = chars_in(src, r.0);
    let e = chars_in(src, r.1);
    Span { offset: s as usize, len: (if e >= s { e - s } else { 0 }) as usize }
}

/// The nearest earlier node that encloses element `i`, searching below `j`.
pub open spec fn parent_elem(es: Seq<ElemView>, i: int, j: int) -> Option<int>
    decreases j,
{
    if j <= 0 {
        None
    } else if is_node(es[j - 1]) && es[j - 1].2 + 1 == es[i].2 {
        Some(j - 1)
    } else {
        parent_elem(es, i, j - 1)
    }
}

/// The number of nodes among the first `n` elements.
pub open spec fn node_count(es: Seq<ElemView>, n: int) -> int
    decreases n,
{
    if n <= 0 { 0 } else { node_count(es, n - 1) + if is_node(es[n - 1]) { 1int } else { 0int } }
}

/// The model kind named `k`; kinds the rules do not read are `OTHER`.
pub open spec fn kind_named(k: Seq<char>) -> SyntaxKind {
    if k == "DOCUMENT"@ { SyntaxKind::DOCUMENT }
    else if k == "OPERATION_DEFINITION"@ { SyntaxKind::OPERATION_DEFINITION }
    else if k == "OPERATION_TYPE"@ { SyntaxKind::OPERATION_TYPE }
    else if k == "FRAGMENT_DEFINITION"@ { SyntaxKind::FRAGMENT_DEFINITION }
    else if k == "FRAGMENT_NAME"@ { SyntaxKind::FRAGMENT_NAME }
    else if k == "FRAGMENT_SPREAD"@ { SyntaxKind::FRAGMENT_SPREAD }
    else if k == "INLINE_FRAGMENT"@ { SyntaxKind::INLINE_FRAGMENT }
    else if k == "SELECTION_SET"@ { SyntaxKind::SELECTION_SET }
    else if k == "FIELD"@ { SyntaxKind::FIELD }
    else if k == "ARGUMENTS"@ { SyntaxKind::ARGUMENTS }
    else if k == "ARGUMENT"@ { SyntaxKind::ARGUMENT }
    else if k == "VARIABLE"@ { SyntaxKind::VARIABLE }
    else if k == "VARIABLE_DEFINITION"@ { SyntaxKind::VARIABLE_DEFINITION }
    else if k == "DIRECTIVE"@ { SyntaxKind::DIRECTIVE }
    else if k == "NAME"@ { SyntaxKind::NAME }
    else if k == "NAMED_TYPE"@ { SyntaxKind::NAMED_TYPE }
    else if k == "LIST_TYPE"@ { SyntaxKind::LIST_TYPE }
    else if k == "NON_NULL_TYPE"@ { SyntaxKind::NON_NULL_TYPE }
    else if k == "DESCRIPTION"@ { SyntaxKind::DESCRIPTION }
    else if k == "STRING_VALUE"@ { SyntaxKind::STRING_VALUE }
    else if k == "OBJECT_FIELD"@ { SyntaxKind::OBJECT_FIELD }
    else if k == "SCHEMA_DEFINITION"@ { SyntaxKind::SCHEMA_DEFINITION }
    else if k == "SCHEMA_EXTENSION"@ { SyntaxKind::SCHEMA_EXTENSION }
    else if k == "OBJECT_TYPE_DEFINITION"@ { SyntaxKind::OBJECT_TYPE_DEFINITION }
    else if k == "OBJECT_TYPE_EXTENSION"@ { SyntaxKind::OBJECT_TYPE_EXTENSION }
    else if k == "INTERFACE_TYPE_DEFINITION"@ { SyntaxKind::INTERFACE_TYPE_DEFINITION }
    else if k == "INTERFACE_TYPE_EXTENSION"@ { SyntaxKind::INTERFACE_TYPE_EXTENSION }
    else if k == "UNION_TYPE_DEFINITION"@ { SyntaxKind::UNION_TYPE_DEFINITION }
    else if k == "UNION_TYPE_EXTENSION"@ { SyntaxKind::UNION_TYPE_EXTENSION }
    else if k == "ENUM_TYPE_DEFINITION"@ { SyntaxKind::ENUM_TYPE_DEFINITION }
    else if k == "ENUM_TYPE_EXTENSION"@ { SyntaxKind::ENUM_TYPE_EXTENSION }
    else if k == "SCALAR_TYPE_DEFINITION"@ { SyntaxKind::SCALAR_TYPE_DEFINITION }
    else if k == "SCALAR_TYPE_EXTENSION"@ { SyntaxKind::SCALAR_TYPE_EXTENSION }
    else if k == "INPUT_OBJECT_TYPE_DEFINITION"@ { SyntaxKind::INPUT_OBJECT_TYPE_DEFINITION }
    else if k == "INPUT_OBJECT_TYPE_EXTENSION"@ { SyntaxKind::INPUT_OBJECT_TYPE_EXTENSION }
    else if k == "DIRECTIVE_DEFINITION"@ { SyntaxKind::DIRECTIVE_DEFINITION }
    else if k == "FIELDS_DEFINITION"@ { SyntaxKind::FIELDS_DEFINITION }
    else if k == "FIELD_DEFINITION"@ { SyntaxKind::FIELD_DEFINITION }
    else if k == "ARGUMENTS_DEFINITION"@ { SyntaxKind::ARGUMENTS_DEFINITION }
    else if k == "INPUT_FIELDS_DEFINITION"@ { SyntaxKind::INPUT_FIELDS_DEFINITION }
    else if k == "INPUT_VALUE_DEFINITION"@ { SyntaxKind::INPUT_VALUE_DEFINITION }
    else if k == "ENUM_VALUES_DEFINITION"@ { SyntaxKind::ENUM_VALUES_DEFINITION }
    else if k == "ENUM_VALUE_DEFINITION"@ { SyntaxKind::ENUM_VALUE_DEFINITION }
    else if k == "ENUM_VALUE"@ { SyntaxKind::ENUM_VALUE }
    else if k == "TOMBSTONE"@ { SyntaxKind::TOMBSTONE }
    else { SyntaxKind::OTHER }
}

/// A node of the model as plain values: kind, name, span, parent.
pub type NodeView = (SyntaxKind, Option<Seq<char>>, Option<Span>, Option<usize>);

pub open spec fn node_view(n: Node) -> NodeView {
    (n.kind, match n.name { Some(s) => Some(s@), None => None }, n.span, n.parent)
}

pub open spec fn nodes_view(ns: Seq<Node>) -> Seq<NodeView> {
    ns.map_values(|n: Node| node_view(n))
}

/// The model node of element `i` of the document `src`.
pub open spec fn elem_node(src: Seq<char>, es: Seq<ElemView>, i: int) -> NodeView {
    (
        kind_named(es[i].0),
        elem_name(es, i),
        Some(char_span(src, elem_bytes(es, i))),
        match parent_elem(es, i, i) {
            Some(p) => Some(node_count(es, p) as usize),
            None => None,
        },
    )
}

/// The model nodes of the first `n` elements, in order.
pub open spec fn nodes_upto(src: Seq<char>, es: Seq<ElemView>, n: int) -> Seq<NodeView>
    decreases n,
{
    if n <= 0 {
        Seq::empty()
    } else if is_node(es[n - 1]) {
        nodes_upto(src, es, n - 1).push(elem_node(src, es, n - 1))
    } else {
        nodes_upto(src, es, n - 1)
    }
}

/// The model of the document `src` whose elements are `es`.
pub open spec fn tree_view(src: Seq<char>, es: Seq<ElemView>) -> Seq<NodeView> {
    nodes_upto(src, es, es.len() as int)
}

/// The model of the document `source` as `apollo_parser` reads it.
pub open spec fn parsed_view(source: Seq<char>) -> Seq<NodeView> {
    tree_view(source, cst_elements(source))
}

proof fn lemma_first_sig(es: Seq<ElemView>, j: int, end: int)
    ensures first_sig(es, j, end) matches Some(k) ==> j <= k < end && is_sig_token(es[k]),
    decreases end - j,
{
    if j < end && !is_sig_token(es[j]) { lemma_first_sig(es, j + 1, end); }
}

proof fn lemma_last_sig(es: Seq<ElemView>, j: int, end: int)
    ensures last_sig(es, j, end) matches Some(k) ==> j <= k < end && is_sig_token(es[k]),
    decreases end - j,
{
    if j < end && !is_sig_token(es[end - 1]) { lemma_last_sig(es, j, end - 1); }
}

proof fn lemma_first_direct(es: Seq<ElemView>, i: int, j: int, end: int)
    ensures first_direct(es, i, j, end) matches Some(k) ==> j <= k < end && is_sig_token(es[k]),
    decreases end - j,
{
    if j < end && !(is_sig_token(es[j]) && es[j].2 == es[i].2) { lemma_first_direct(es, i, j + 1, end); }
}

proof fn lemma_first_child(es: Seq<ElemView>, i: int, k: Seq<char>, j: int, end: int)
    ensures first_child(es, i, k, j, end) matches Some(c) ==> j <= c < end,
    decreases end - j,
{
    if j < end && !(is_node(es[j]) && es[j].2 == es[i].2 + 1 && es[j].0 == k) { lemma_first_child(es, i, k, j + 1, end); }
}

proof fn lemma_parent_elem(es: Seq<ElemView>, i: int, j: int)
    ensures parent_elem(es, i, j) matches Some(p) ==> 0 <= p < j && is_node(es[p]),
    decreases j,
{
    if j > 0 && !(is_node(es[j - 1]) && es[j - 1].2 + 1 == es[i].2) { lemma_parent_elem(es, i, j - 1); }
}

proof fn lemma_count_after(es: Seq<ElemView>, p: int, i: int)
    requires 0 <= p < i, is_node(es[p]),
    ensures node_count(es, p) < node_count(es, i),
    decreases i - p,
{
    if i > p + 1 {
        lemma_count_after(es, p, i - 1);
    }
}

proof fn lemma_count_nonneg(es: Seq<ElemView>, n: int)
    ensures node_count(es, n) >= 0,
    decreases n,
{
    if n > 0 {
        lemma_count_nonneg(es, n - 1);
    }
}

fn is_str(k: &Vec<char>, lit: &str) -> (r: bool)
    ensures r == (k@ == lit@),
{
    chars_eq(k, &chars_of(lit))
}

fn exec_kind_named(k: &Vec<char>) -> (r: SyntaxKind)
    ensures r == kind_named(k@),
{
    if is_str(k, "DOCUMENT") { SyntaxKind::DOCUMENT }
    else if is_str(k, "OPERATION_DEFINITION") { SyntaxKind::OPERATION_DEFINITION }
    else if is_str(k, "OPERATION_TYPE") { SyntaxKind::OPERATION_TYPE }
    else if is_str(k, "FRAGMENT_DEFINITION") { SyntaxKind::FRAGMENT_DEFINITION }
    else if is_str(k, "FRAGMENT_NAME") { SyntaxKind::FRAGMENT_NAME }
    else if is_str(k, "FRAGMENT_SPREAD") { SyntaxKind::FRAGMENT_SPREAD }
    else if is_str(k, "INLINE_FRAGMENT") { SyntaxKind::INLINE_FRAGMENT }
    else if is_str(k, "SELECTION_SET") { SyntaxKind::SELECTION_SET }
    else if is_str(k, "FIELD") { SyntaxKind::FIELD }
    else if is_str(k, "ARGUMENTS") { SyntaxKind::ARGUMENTS }
    else if is_str(k, "ARGUMENT") { SyntaxKind::ARGUMENT }
    else if is_str(k, "VARIABLE") { SyntaxKind::VARIABLE }
    else if is_str(k, "VARIABLE_DEFINITION") { SyntaxKind::VARIABLE_DEFINITION }
    else if is_str(k, "DIRECTIVE") { SyntaxKind::DIRECTIVE }
    else if is_str(k, "NAME") { SyntaxKind::NAME }
    else if is_str(k, "NAMED_TYPE") { SyntaxKind::NAMED_TYPE }
    else if is_str(k, "LIST_TYPE") { SyntaxKind::LIST_TYPE }
    else if is_str(k, "NON_NULL_TYPE") { SyntaxKind::NON_NULL_TYPE }
    else if is_str(k, "DESCRIPTION") { SyntaxKind::DESCRIPTION }
    else if is_str(k, "STRING_VALUE") { SyntaxKind::STRING_VALUE }
    else if is_str(k, "OBJECT_FIELD") { SyntaxKind::OBJECT_FIELD }
    else if is_str(k, "SCHEMA_DEFINITION") { SyntaxKind::SCHEMA_DEFINITION }
    else if is_str(k, "SCHEMA_EXTENSION") { SyntaxKind::SCHEMA_EXTENSION }
    else if is_str(k, "OBJECT_TYPE_DEFINITION") { SyntaxKind::OBJECT_TYPE_DEFINITION }
    else if is_str(k, "OBJECT_TYPE_EXTENSION") { SyntaxKind::OBJECT_TYPE_EXTENSION }
    else if is_str(k, "INTERFACE_TYPE_DEFINITION") { SyntaxKind::INTERFACE_TYPE_DEFINITION }
    else if is_str(k, "INTERFACE_TYPE_EXTENSION") { SyntaxKind::INTERFACE_TYPE_EXTENSION }
    else if is_str(k, "UNION_TYPE_DEFINITION") { SyntaxKind::UNION_TYPE_DEFINITION }
    else if is_str(k, "UNION_TYPE_EXTENSION") { SyntaxKind::UNION_TYPE_EXTENSION }
    else if is_str(k, "ENUM_TYPE_DEFINITION") { SyntaxKind::ENUM_TYPE_DEFINITION }
    else if is_str(k, "ENUM_TYPE_EXTENSION") { SyntaxKind::ENUM_TYPE_EXTENSION }
    else if is_str(k, "SCALAR_TYPE_DEFINITION") { SyntaxKind::SCALAR_TYPE_DEFINITION }
    else if is_str(k, "SCALAR_TYPE_EXTENSION") { SyntaxKind::SCALAR_TYPE_EXTENSION }
    else if is_str(k, "INPUT_OBJECT_TYPE_DEFINITION") { SyntaxKind::INPUT_OBJECT_TYPE_DEFINITION }
    else if is_str(k, "INPUT_OBJECT_TYPE_EXTENSION") { SyntaxKind::INPUT_OBJECT_TYPE_EXTENSION }
    else if is_str(k, "DIRECTIVE_DEFINITION") { SyntaxKind::DIRECTIVE_DEFINITION }
    else if is_str(k, "FIELDS_DEFINITION") { SyntaxKind::FIELDS_DEFINITION }
    else if is_str(k, "FIELD_DEFINITION") { SyntaxKind::FIELD_DEFINITION }
    else if is_str(k, "ARGUMENTS_DEFINITION") { SyntaxKind::ARGUMENTS_DEFINITION }
    else if is_str(k, "INPUT_FIELDS_DEFINITION") { SyntaxKind::INPUT_FIELDS_DEFINITION }
    else if is_str(k, "INPUT_VALUE_DEFINITION") { SyntaxKind::INPUT_VALUE_DEFINITION }
    else if is_str(k, "ENUM_VALUES_DEFINITION") { SyntaxKind::ENUM_VALUES_DEFINITION }
    else if is_str(k, "ENUM_VALUE_DEFINITION") { SyntaxKind::ENUM_VALUE_DEFINITION }
    else if is_str(k, "ENUM_VALUE") { SyntaxKind::ENUM_VALUE }
    else if is_str(k, "TOMBSTONE") { SyntaxKind::TOMBSTONE }
    else { SyntaxKind::OTHER }
}

fn exec_is_sig(es: &Vec<CstElement>, j: usize) -> (r: bool)
    requires j < es@.len(),
    ensures r == is_sig_token(elems_view(es@)[j as int]),
{
    match &es[j].token {
        Some(_) => {
            let k = chars_of(es[j].kind.as_str());
            !(is_str(&k, "WHITESPACE") || is_str(&k, "COMMENT") || is_str(&k, "COMMA"))
        },
        None => false,
    }
}

fn exec_subtree_end(es: &Vec<CstElement>, i: usize) -> (r: usize)
    requires i < es@.len(),
    ensures r as int == subtree_end(elems_view(es@), i as int, i + 1), i < r <= es@.len(),
{
    let ghost ev = elems_view(es@);
    let n = es.len();
    let mut j = i + 1;
    while j < n
        invariant
            ev == elems_view(es@), i < j <= es@.len(), n == es@.len(),
            subtree_end(ev, i as int, j as int) == subtree_end(ev, i as int, i + 1),
        decreases es@.len() - j,
    {
        let leaves_here = match &es[j].token {
            None => es[j].depth <= es[i].depth,
            Some(_) => es[j].depth < es[i].depth,
        };
        if leaves_here {
            return j;
        }
        j = j + 1;
    }
    j
}

fn exec_first_sig(es: &Vec<CstElement>, from: usize, end: usize) -> (r: Option<usize>)
    requires from <= end <= es@.len(),
    ensures
        match first_sig(elems_view(es@), from as int, end as int) {
            Some(k) => r == Some(k as usize) && from <= k < end,
            None => r is None,
        },
{
    let ghost ev = elems_view(es@);
    proof { lemma_first_sig(ev, from as int, end as int); }
    let mut j = from;
    while j < end
        invariant
            ev == elems_view(es@), from <= j <= end, end <= es@.len(),
            first_sig(ev, j as int, end as int) == first_sig(ev, from as int, end as int),
        decreases end - j,
    {
        if exec_is_sig(es, j) {
            return Some(j);
        }
        j = j + 1;
    }
    None
}

fn exec_last_sig(es: &Vec<CstElement>, from: usize, end: usize) -> (r: Option<usize>)
    requires from <= end <= es@.len(),
    ensures
        match last_sig(elems_view(es@), from as int, end as int) {
            Some(k) => r == Some(k as usize) && from <= k < end,
            None => r is None,
        },
{
    let ghost ev = elems_view(es@);
    proof { lemma_last_sig(ev, from as int, end as int); }
    let mut e = end;
    while e > from
        invariant
            ev == elems_view(es@), from <= e <= end, end <= es@.len(),
            last_sig(ev, from as int, e as int) == last_sig(ev, from as int, end as int),
        decreases e,
    {
        if exec_is_sig(es, e - 1) {
            return Some(e - 1);
        }
        e = e - 1;
    }
    None
}

fn exec_first_direct(es: &Vec<CstElement>, i: usize, from: usize, end: usize) -> (r: Option<usize>)
    requires i < es@.len(), from <= end <= es@.len(),
    ensures
        match first_direct(elems_view(es@), i as int, from as int, end as int) {
            Some(k) => r == Some(k as usize) && from <= k < end,
            None => r is None,
        },
{
    let ghost ev = elems_view(es@);
    proof { lemma_first_direct(ev, i as int, from as int, end as int); }
    let mut j = from;
    while j < end
        invariant
            ev == elems_view(es@), from <= j <= end, end <= es@.len(), i < es@.len(),
            first_direct(ev, i as int, j as int, end as int) == first_direct(ev, i as int, from as int, end as int),
        decreases end - j,
    {
        if exec_is_sig(es, j) && es[j].depth == es[i].depth {
            return Some(j);
        }
        j = j + 1;
    }
    None
}

fn exec_first_child(es: &Vec<CstElement>, i: usize, k: &str, from: usize, end: usize) -> (r: Option<usize>)
    requires i < es@.len(), from <= end <= es@.len(),
    ensures
        match first_child(elems_view(es@), i as int, k@, from as int, end as int) {
            Some(c) => r == Some(c as usize) && from <= c < end,
            None => r is None,
        },
{
    let ghost ev = elems_view(es@);
    let kc = chars_of(k);
    proof { lemma_first_child(ev, i as int, k@, from as int, end as int); }
    let mut j = from;
    while j < end
        invariant
            ev == elems_view(es@), from <= j <= end, end <= es@.len(), i < es@.len(), kc@ == k@,
            first_child(ev, i as int, k@, j as int, end as int) == first_child(ev, i as int, k@, from as int, end as int),
        decreases end - j,
    {
        if es[j].token.is_none() && es[i].depth < usize::MAX && es[j].depth == es[i].depth + 1
            && chars_eq(&chars_of(es[j].kind.as_str()), &kc) {
            return Some(j);
        }
        j = j + 1;
    }
    None
}

fn exec_own_text(es: &Vec<CstElement>, i: usize) -> (r: String)
    requires i < es@.len(),
    ensures r@ == own_text(elems_view(es@), i as int),
{
    let end = exec_subtree_end(es, i);
    proof { lemma_first_direct(elems_view(es@), i as int, i + 1, end as int); }
    match exec_first_direct(es, i, i + 1, end) {
        Some(t) => match &es[t].token {
            Some(x) => x.clone(),
            None => string_of(&Vec::new()),
        },
        None => string_of(&Vec::new()),
    }
}

fn exec_elem_name(es: &Vec<CstElement>, i: usize) -> (r: Option<String>)
    requires i < es@.len(),
    ensures
        match elem_name(elems_view(es@), i as int) {
            Some(n) => r matches Some(x) && x@ == n,
            None => r is None,
        },
{
    let end = exec_subtree_end(es, i);
    let k = chars_of(es[i].kind.as_str());
    if is_str(&k, "NAME") || is_str(&k, "OPERATION_TYPE") {
        return Some(exec_own_text(es, i));
    }
    match exec_first_child(es, i, "NAME", i + 1, end) {
        Some(n) => Some(exec_own_text(es, n)),
        None => match exec_first_child(es, i, "FRAGMENT_NAME", i + 1, end) {
            Some(f) => {
                let fe = exec_subtree_end(es, f);
                match exec_first_child(es, f, "NAME", f + 1, fe) {
                    Some(n) => Some(exec_own_text(es, n)),
                    None => None,
                }
            },
            None => None,
        },
    }
}

pub(crate) fn exec_utf8_len(c: char) -> (r: usize)
    ensures r as int == utf8_len(c),
{
    let v = c as u32;
    if v < 0x80 { 1 } else if v < 0x800 { 2 } else if v < 0x10000 { 3 } else { 4 }
}

fn exec_chars_in(src: &Vec<char>, b: usize) -> (r: usize)
    ensures r as int == chars_in(src@, b as int),
{
    let mut k: usize = 0;
    let mut rem: usize = b;
    proof { assert(src@.skip(0) =~= src@); }
    while k < src.len()
        invariant
            k <= src@.len(),
            chars_in(src@, b as int) == k + chars_in(src@.skip(k as int), rem as int),
        decreases src@.len() - k,
    {
        let w = exec_utf8_len(src[k]);
        proof { assert(src@.skip(k as int)[0] == src@[k as int]); }
        if w > rem {
            return k;
        }
        proof { assert(src@.skip(k as int).drop_first() =~= src@.skip(k + 1)); }
        rem = rem - w;
        k = k + 1;
    }
    proof { assert(src@.skip(k as int).len() == 0); }
    k
}

fn exec_parent_elem(es: &Vec<CstElement>, i: usize) -> (r: Option<usize>)
    requires i < es@.len(),
    ensures
        match parent_elem(elems_view(es@), i as int, i as int) {
            Some(p) => r == Some(p as usize) && 0 <= p < i && is_node(elems_view(es@)[p]),
            None => r is None,
        },
{
    let ghost ev = elems_view(es@);
    proof { lemma_parent_elem(ev, i as int, i as int); }
    let mut j = i;
    while j > 0
        invariant
            ev == elems_view(es@), j <= i < es@.len(),
            parent_elem(ev, i as int, j as int) == parent_elem(ev, i as int, i as int),
        decreases j,
    {
        if es[j - 1].token.is_none() && es[j - 1].depth < usize::MAX && es[j - 1].depth + 1 == es[i].depth {
            return Some(j - 1);
        }
        j = j - 1;
    }
    None
}

fn node_at(src: &Vec<char>, es: &Vec<CstElement>, i: usize, node_of: &Vec<usize>) -> (r: Node)
    requires
        i < es@.len(),
        node_of@.len() > i,
        forall|k: int| 0 <= k <= i ==> node_of@[k] == node_count(elems_view(es@), k),
    ensures
        node_view(r) == elem_node(src@, elems_view(es@), i as int),
        r.parent matches Some(p) ==> p < node_count(elems_view(es@), i as int),
{
    let ghost ev = elems_view(es@);
    let end = exec_subtree_end(es, i);
    let (b0, b1) = match (exec_first_sig(es, i + 1, end), exec_last_sig(es, i + 1, end)) {
        (Some(f), Some(l)) => (es[f].start, es[l].end),
        _ => (es[i].start, es[i].end),
    };
    let s = exec_chars_in(src, b0);
    let e = exec_chars_in(src, b1);
    let span = Span::new(s, if e >= s { e - s } else { 0 });
    let parent = match exec_parent_elem(es, i) {
        Some(p) => {
            proof { lemma_count_after(ev, p as int, i as int); }
            Some(node_of[p])
        },
        None => None,
    };
    let kind = exec_kind_named(&chars_of(es[i].kind.as_str()));
    let name = exec_elem_name(es, i);
    Node { kind, name, span: Some(span), parent }
}

/// The model of the document `source` from its elements `es`: one node
/// per node element, in order.
pub fn tree_of_elements(source: &str, es: &Vec<CstElement>) -> (t: Tree)
    ensures
        nodes_view(t.nodes@) == tree_view(source@, elems_view(es@)),
        t.wf(),
{
    let src = chars_of(source);
    let ghost ev = elems_view(es@);
    let mut nodes: Vec<Node> = Vec::new();
    let mut node_of: Vec<usize> = Vec::new();
    for i in 0..es.len()
        invariant
            src@ == source@,
            ev == elems_view(es@),
            node_of@.len() == i,
            forall|k: int| 0 <= k < i ==> node_of@[k] == node_count(ev, k),
            nodes@.len() == node_count(ev, i as int),
            nodes_view(nodes@) == nodes_upto(source@, ev, i as int),
            forall|k: int| 0 <= k < nodes@.len() ==> ((#[trigger] nodes@[k]).parent matches Some(p) ==> p < k),
    {
        node_of.push(nodes.len());
        if es[i].token.is_none() {
            let n = node_at(&src, es, i, &node_of);
            let ghost before = nodes@;
            nodes.push(n);
            proof { assert(nodes_view(nodes@) =~= nodes_view(before).push(node_view(n))); }
        } else {
            proof { assert(!is_node(ev[i as int])); }
        }
    }
    Tree { nodes }
}

/// `t` is the model of the document `source` as `apollo_parser` reads it.
pub open spec fn parses_to(source: Seq<char>, t: Tree) -> bool {
    t.wf() && nodes_view(t.nodes@) == parsed_view(source)
}

/// The model of the document `source` as `apollo_parser` reads it.
pub fn parse_tree(source: &str) -> (t: Tree)
    ensures parses_to(source@, t),
{
    let es = parse_elements(source);
    tree_of_elements(source, &es)
}

} // verus!
