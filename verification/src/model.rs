//! The data the rules read: spans, the syntax tree of a GraphQL document as a
//! flat list of nodes, and the diagnostics the rules produce.
//!
//! Offsets and lengths count characters of the source text.
use vstd::prelude::*;

verus! {

/// A range of characters in a source text.
#[derive(Debug, Clone, Copy, PartialEq, Eq, Structural)]
pub struct Span {
    pub offset: usize,
    pub len: usize,
}

impl Span {
    pub fn new(offset: usize, len: usize) -> (s: Span)
        ensures
            s.offset == offset,
            s.len == len,
    {
        Span { offset, len }
    }
}

/// The kinds of syntax nodes that the rules look at. Nodes of any other
/// kind carry [`SyntaxKind::OTHER`].
#[allow(non_camel_case_types)]
#[derive(Debug, Clone, Copy, PartialEq, Eq, Structural)]
pub enum SyntaxKind {
    DOCUMENT,
    OPERATION_DEFINITION,
    OPERATION_TYPE,
    FRAGMENT_DEFINITION,
    FRAGMENT_NAME,
    FRAGMENT_SPREAD,
    INLINE_FRAGMENT,
    SELECTION_SET,
    FIELD,
    ARGUMENTS,
    ARGUMENT,
    VARIABLE,
    VARIABLE_DEFINITION,
    DIRECTIVE,
    NAME,
    NAMED_TYPE,
    LIST_TYPE,
    NON_NULL_TYPE,
    DESCRIPTION,
    STRING_VALUE,
    OBJECT_FIELD,
    SCHEMA_DEFINITION,
    SCHEMA_EXTENSION,
    OBJECT_TYPE_DEFINITION,
    OBJECT_TYPE_EXTENSION,
    INTERFACE_TYPE_DEFINITION,
    INTERFACE_TYPE_EXTENSION,
    UNION_TYPE_DEFINITION,
    UNION_TYPE_EXTENSION,
    ENUM_TYPE_DEFINITION,
    ENUM_TYPE_EXTENSION,
    SCALAR_TYPE_DEFINITION,
    SCALAR_TYPE_EXTENSION,
    INPUT_OBJECT_TYPE_DEFINITION,
    INPUT_OBJECT_TYPE_EXTENSION,
    DIRECTIVE_DEFINITION,
    FIELDS_DEFINITION,
    FIELD_DEFINITION,
    ARGUMENTS_DEFINITION,
    INPUT_FIELDS_DEFINITION,
    INPUT_VALUE_DEFINITION,
    ENUM_VALUES_DEFINITION,
    ENUM_VALUE_DEFINITION,
    ENUM_VALUE,
    TOMBSTONE,
    OTHER,
}

/// One node of a document's syntax tree: its kind, its name (the text of
/// its first name child, if it has one; the keyword of an operation type),
/// its span, and the index of its parent in the tree.
#[derive(Debug, Clone)]
pub struct Node {
    pub kind: SyntaxKind,
    pub name: Option<String>,
    pub span: Option<Span>,
    pub parent: Option<usize>,
}

/// A syntax tree, its nodes listed in document order (a parent before its
/// children).
#[derive(Debug, Clone)]
pub struct Tree {
    pub nodes: Vec<Node>,
}

impl Tree {
    /// Every parent index points at an earlier node.
    pub open spec fn wf(&self) -> bool {
        forall|i: int|
            0 <= i < self.nodes@.len() ==> ((#[trigger] self.nodes@[i]).parent matches Some(p) ==> p < i)
    }

    pub open spec fn kind(&self, i: int) -> SyntaxKind {
        self.nodes@[i].kind
    }

    pub open spec fn parent(&self, i: int) -> Option<usize> {
        self.nodes@[i].parent
    }
}

/// A replacement of the text under `span` by `text`, offered to the user
/// under the label `desc`.
#[derive(Debug, Clone)]
pub struct Suggestion {
    pub desc: String,
    pub span: Span,
    pub text: String,
}

/// One finding of a rule in the file being linted.
#[derive(Debug, Clone)]
pub struct Diagnostic {
    pub message: String,
    pub span: Span,
    pub suggestions: Vec<Suggestion>,
}

/// A diagnostic without suggestions.
pub fn diag(message: String, span: Span) -> (d: Diagnostic)
    ensures
        d.message@ == message@,
        d.span == span,
        d.suggestions@.len() == 0,
{
    Diagnostic { message, span, suggestions: Vec::new() }
}


/// A suggestion as plain values: label, span, replacement.
pub open spec fn sugg_view(s: Suggestion) -> (Seq<char>, Span, Seq<char>) {
    (s.desc@, s.span, s.text@)
}

/// A diagnostic as plain values: message, span, suggestions.
pub open spec fn diag_view(d: Diagnostic) -> (Seq<char>, Span, Seq<(Seq<char>, Span, Seq<char>)>) {
    (d.message@, d.span, d.suggestions@.map_values(|s: Suggestion| sugg_view(s)))
}

/// A list of diagnostics as plain values.
pub open spec fn diag_views(ds: Seq<Diagnostic>) -> Seq<(Seq<char>, Span, Seq<(Seq<char>, Span, Seq<char>)>)> {
    ds.map_values(|d: Diagnostic| diag_view(d))
}

/// The plain value of a diagnostic with `message` at `span` and no
/// suggestions.
pub open spec fn plain_diag(message: Seq<char>, span: Span) -> (Seq<char>, Span, Seq<(Seq<char>, Span, Seq<char>)>) {
    (message, span, Seq::empty())
}

/// Appends a diagnostic without suggestions.
pub fn push_diag(out: &mut Vec<Diagnostic>, message: &Vec<char>, span: Span)
    ensures diag_views(final(out)@) == diag_views(old(out)@).push(plain_diag(message@, span)),
{
    let d = Diagnostic { message: crate::text::string_of(message), span, suggestions: Vec::new() };
    out.push(d);
    proof {
        assert(diag_view(d).2 =~= Seq::<(Seq<char>, Span, Seq<char>)>::empty());
        assert(diag_views(out@) =~= diag_views(old(out)@).push(plain_diag(message@, span)));
    }
}

/// A suggestion to replace the text under `span` by `text`.
pub fn suggestion(desc: &Vec<char>, span: Span, text: &Vec<char>) -> (s: Suggestion)
    ensures sugg_view(s) == (desc@, span, text@),
{
    Suggestion { desc: crate::text::string_of(desc), span, text: crate::text::string_of(text) }
}

/// Appends a diagnostic with suggestions.
pub fn push_diag_with(out: &mut Vec<Diagnostic>, message: &Vec<char>, span: Span, suggestions: Vec<Suggestion>)
    ensures
        diag_views(final(out)@) == diag_views(old(out)@).push(
            (message@, span, suggestions@.map_values(|s: Suggestion| sugg_view(s))),
        ),
{
    let ghost sv = suggestions@.map_values(|s: Suggestion| sugg_view(s));
    let d = Diagnostic { message: crate::text::string_of(message), span, suggestions };
    out.push(d);
    proof {
        assert(diag_view(d).2 =~= sv);
        assert(diag_views(out@) =~= diag_views(old(out)@).push((message@, span, sv)));
    }
}

/// The span of node `i`, or the empty span at offset 0 when it has none.
pub open spec fn span_or_zero(t: Tree, i: int) -> Span {
    match t.nodes@[i].span {
        Some(s) => s,
        None => Span { offset: 0, len: 0 },
    }
}

pub fn exec_span_or_zero(t: &Tree, i: usize) -> (s: Span)
    requires i < t.nodes@.len(),
    ensures s == span_or_zero(*t, i as int),
{
    match t.nodes[i].span {
        Some(s) => s,
        None => Span::new(0, 0),
    }
}


/// A named definition somewhere in the project: an operation (its name may
/// be absent) or a fragment, with the file it lives in and its span there.
#[derive(Debug, Clone)]
pub struct Definition {
    pub name: Option<String>,
    pub file: String,
    pub span: Span,
}

/// The name of a definition as characters.
pub open spec fn def_name(d: Definition) -> Option<Seq<char>> {
    match d.name {
        Some(n) => Some(n@),
        None => None,
    }
}

/// An earlier definition in `defs` has the same (present) name as `defs[i]`.
pub open spec fn named_earlier(defs: Seq<Definition>, i: int) -> bool {
    def_name(defs[i]) is Some && exists|j: int| 0 <= j < i && #[trigger] def_name(defs[j]) == def_name(defs[i])
}

/// Whether definition `i` repeats a name defined earlier.
pub fn exec_named_earlier(defs: &[Definition], i: usize) -> (r: bool)
    requires i < defs@.len(),
    ensures r == named_earlier(defs@, i as int),
{
    match &defs[i].name {
        None => false,
        Some(n) => {
            let nc = crate::text::chars_of(n.as_str());
            let mut j: usize = 0;
            while j < i
                invariant
                    i < defs@.len(),
                    j <= i,
                    defs@[i as int].name matches Some(m) && m@ == nc@,
                    forall|k: int| 0 <= k < j ==> def_name(#[trigger] defs@[k]) != def_name(defs@[i as int]),
                decreases i - j,
            {
                let same = match &defs[j].name {
                    Some(m) => crate::text::chars_eq(&crate::text::chars_of(m.as_str()), &nc),
                    None => false,
                };
                if same {
                    proof { assert(def_name(defs@[j as int]) == def_name(defs@[i as int])); }
                    return true;
                }
                j += 1;
            }
            false
        },
    }
}


/// The first node, walking up from node `start` (itself included) through
/// its ancestors, whose kind is in `kinds`.
pub open spec fn find_up(nodes: Seq<Node>, start: int, kinds: Seq<SyntaxKind>) -> Option<int>
    decreases start,
{
    if start < 0 || start >= nodes.len() {
        None
    } else if kinds.contains(nodes[start].kind) {
        Some(start)
    } else {
        match nodes[start].parent {
            Some(p) => if p < start {
                find_up(nodes, p as int, kinds)
            } else {
                None
            },
            None => None,
        }
    }
}

proof fn lemma_find_up_range(nodes: Seq<Node>, start: int, kinds: Seq<SyntaxKind>)
    ensures
        find_up(nodes, start, kinds) matches Some(k) ==> 0 <= k <= start && k < nodes.len() && kinds.contains(nodes[k].kind),
    decreases start,
{
    if 0 <= start < nodes.len() && !kinds.contains(nodes[start].kind) {
        if let Some(p) = nodes[start].parent {
            if p < start {
                lemma_find_up_range(nodes, p as int, kinds);
            }
        }
    }
}

fn kind_in(kinds: &Vec<SyntaxKind>, k: SyntaxKind) -> (r: bool)
    ensures r == kinds@.contains(k),
{
    for i in 0..kinds.len()
        invariant
            forall|j: int| 0 <= j < i ==> kinds@[j] != k,
    {
        if kinds[i] == k {
            proof { assert(kinds@[i as int] == k); }
            return true;
        }
    }
    false
}

/// The first node at or above `start` whose kind is in `kinds`.
pub fn find_up_exec(tree: &Tree, start: usize, kinds: &Vec<SyntaxKind>) -> (r: Option<usize>)
    requires tree.wf(),
    ensures
        match r {
            Some(k) => find_up(tree.nodes@, start as int, kinds@) == Some(k as int) && k < tree.nodes@.len(),
            None => find_up(tree.nodes@, start as int, kinds@) is None,
        },
{
    if start >= tree.nodes.len() {
        return None;
    }
    let mut cur = start;
    loop
        invariant
            tree.wf(),
            cur < tree.nodes@.len(),
            find_up(tree.nodes@, start as int, kinds@) == find_up(tree.nodes@, cur as int, kinds@),
        decreases cur,
    {
        if kind_in(kinds, tree.nodes[cur].kind) {
            return Some(cur);
        }
        match tree.nodes[cur].parent {
            Some(p) => {
                proof { assert(tree.nodes@[cur as int].parent matches Some(q) && q < cur); }
                cur = p;
            },
            None => return None,
        }
    }
}

/// The lowercase form of `s` (std's `str::to_lowercase`, the Unicode
/// `Lowercase` mapping).
pub uninterp spec fn unicode_lower(s: Seq<char>) -> Seq<char>;

/// std's `str::to_lowercase` of `s`.
#[verifier::external_body]
pub(crate) fn to_lowercase(s: &str) -> (r: String)
    ensures r@ == unicode_lower(s@),
{
    s.to_lowercase()
}


/// Keyed names as plain values.
pub open spec fn entries_view(v: Seq<Option<(usize, Vec<char>)>>) -> Seq<Option<(usize, Seq<char>)>> {
    v.map_values(|e: Option<(usize, Vec<char>)>| match e {
        Some(x) => Some((x.0, x.1@)),
        None => None,
    })
}

/// Entry `i` is present and an earlier entry equals it.
pub open spec fn seen_before(entries: Seq<Option<(usize, Seq<char>)>>, i: int) -> bool {
    entries[i] is Some && exists|j: int| 0 <= j < i && #[trigger] entries[j] == entries[i]
}

/// Whether entry `i` repeats an earlier one.
pub fn exec_seen_before(entries: &Vec<Option<(usize, Vec<char>)>>, i: usize) -> (r: bool)
    requires i < entries@.len(),
    ensures r == seen_before(entries_view(entries@), i as int),
{
    let ghost ev = entries_view(entries@);
    match &entries[i] {
        None => false,
        Some((key, name)) => {
            for j in 0..i
                invariant
                    i < entries@.len(),
                    ev == entries_view(entries@),
                    ev[i as int] == Some((*key, name@)),
                    forall|k: int| 0 <= k < j ==> #[trigger] ev[k] != ev[i as int],
            {
                match &entries[j] {
                    Some((k2, n2)) => {
                        if *k2 == *key && crate::text::chars_eq(n2, name) {
                            proof { assert(ev[j as int] == ev[i as int]); }
                            return true;
                        }
                    },
                    None => {},
                }
            }
            false
        },
    }
}

} // verus!
