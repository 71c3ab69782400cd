//! `description-style`: descriptions are written in one style, block
//! (`"""..."""`, the default) or inline (`"..."`).
use vstd::prelude::*;
use crate::case::join;
use crate::model::{Diagnostic, Node, Span, Suggestion, SyntaxKind, Tree, diag_views, find_up, find_up_exec, push_diag_with, sugg_view, suggestion};
use crate::text::{chars_of, is_ws, exec_is_ws, push_all, push_str, sub_chars};

verus! {

/// The `description-style` rule.
pub struct DescriptionStyle;

/// The style descriptions must have.
#[derive(Debug, Clone, Copy, PartialEq, Eq, Structural)]
pub enum DescStyle {
    Block,
    Single,
}

/// The options of the rule: the style wanted (block by default).
pub struct DescriptionOptions {
    pub style: DescStyle,
}

impl DescriptionOptions {
    /// The default options: block descriptions.
    pub fn new() -> (o: DescriptionOptions)
        ensures o.style == DescStyle::Block,
    {
        DescriptionOptions { style: DescStyle::Block }
    }
}

/// The kinds of nodes that name the place of a description's owner in
/// messages ("field ... in type ...").
pub open spec fn desc_container_kinds() -> Seq<SyntaxKind> {
    seq![
        SyntaxKind::OBJECT_TYPE_DEFINITION,
        SyntaxKind::OBJECT_TYPE_EXTENSION,
        SyntaxKind::INTERFACE_TYPE_DEFINITION,
        SyntaxKind::INTERFACE_TYPE_EXTENSION,
        SyntaxKind::INPUT_OBJECT_TYPE_DEFINITION,
        SyntaxKind::INPUT_OBJECT_TYPE_EXTENSION,
        SyntaxKind::ENUM_TYPE_DEFINITION,
        SyntaxKind::ENUM_TYPE_EXTENSION,
        SyntaxKind::SCALAR_TYPE_DEFINITION,
        SyntaxKind::SCALAR_TYPE_EXTENSION,
        SyntaxKind::UNION_TYPE_DEFINITION,
        SyntaxKind::UNION_TYPE_EXTENSION,
        SyntaxKind::DIRECTIVE_DEFINITION,
        SyntaxKind::SCHEMA_DEFINITION,
        SyntaxKind::SCHEMA_EXTENSION,
        SyntaxKind::FRAGMENT_DEFINITION,
        SyntaxKind::OPERATION_DEFINITION,
        SyntaxKind::SELECTION_SET,
    ]
}

/// How messages call a node of kind `k`.
pub open spec fn kind_label(k: SyntaxKind) -> Seq<char> {
    match k {
        SyntaxKind::OBJECT_TYPE_DEFINITION | SyntaxKind::OBJECT_TYPE_EXTENSION => "type"@,
        SyntaxKind::INTERFACE_TYPE_DEFINITION | SyntaxKind::INTERFACE_TYPE_EXTENSION => "interface"@,
        SyntaxKind::INPUT_OBJECT_TYPE_DEFINITION | SyntaxKind::INPUT_OBJECT_TYPE_EXTENSION => "input"@,
        SyntaxKind::ENUM_TYPE_DEFINITION | SyntaxKind::ENUM_TYPE_EXTENSION => "enum"@,
        SyntaxKind::SCALAR_TYPE_DEFINITION | SyntaxKind::SCALAR_TYPE_EXTENSION => "scalar"@,
        SyntaxKind::UNION_TYPE_DEFINITION | SyntaxKind::UNION_TYPE_EXTENSION => "union"@,
        SyntaxKind::DIRECTIVE_DEFINITION => "directive"@,
        SyntaxKind::SCHEMA_DEFINITION | SyntaxKind::SCHEMA_EXTENSION => "schema"@,
        SyntaxKind::FIELD_DEFINITION => "field"@,
        SyntaxKind::INPUT_VALUE_DEFINITION => "input value"@,
        SyntaxKind::ENUM_VALUE | SyntaxKind::ENUM_VALUE_DEFINITION => "enum value"@,
        SyntaxKind::FRAGMENT_DEFINITION => "fragment"@,
        SyntaxKind::FRAGMENT_SPREAD => "fragment spread"@,
        SyntaxKind::OPERATION_DEFINITION => "operation"@,
        SyntaxKind::SELECTION_SET => "selection set"@,
        _ => ""@,
    }
}

/// A node of kind `k` and name `name` in a message: `label "name"`.
pub open spec fn display_name(k: SyntaxKind, name: Option<Seq<char>>) -> Seq<char> {
    kind_label(k) + " \""@ + (match name { Some(n) => n, None => Seq::empty() }) + "\""@
}

/// The owner of a description in a message, with its container for the
/// members of types.
pub open spec fn owner_text(pk: SyntaxKind, pname: Option<Seq<char>>, ck: SyntaxKind, cname: Option<Seq<char>>) -> Seq<char> {
    if pk == SyntaxKind::FIELD_DEFINITION || pk == SyntaxKind::INPUT_VALUE_DEFINITION
        || pk == SyntaxKind::ENUM_VALUE || pk == SyntaxKind::ENUM_VALUE_DEFINITION {
        display_name(pk, pname) + " in "@ + display_name(ck, cname)
    } else {
        display_name(pk, pname)
    }
}

/// The kind and name of the container at or above node `p`
/// (`TOMBSTONE` and no name where there is none).
pub open spec fn container_of(nodes: Seq<Node>, p: int) -> (SyntaxKind, Option<Seq<char>>) {
    match find_up(nodes, p, desc_container_kinds()) {
        Some(c) => (nodes[c].kind, match nodes[c].name { Some(n) => Some(n@), None => None }),
        None => (SyntaxKind::TOMBSTONE, None),
    }
}

/// The name of the last enum value, among the first `n` nodes, whose
/// definition starts at `off`.
pub open spec fn enum_value_name(nodes: Seq<Node>, off: usize, n: int) -> Option<Seq<char>>
    decreases n,
{
    if n <= 0 {
        None
    } else {
        let v = nodes[n - 1];
        if v.kind == SyntaxKind::ENUM_VALUE && v.name is Some && v.parent is Some && v.parent.unwrap() < nodes.len()
            && (nodes[v.parent.unwrap() as int].span matches Some(ps) && ps.offset == off) {
            Some(v.name.unwrap()@)
        } else {
            enum_value_name(nodes, off, n - 1)
        }
    }
}

/// The words of `s`: its maximal runs of non-white-space characters.
pub open spec fn words(s: Seq<char>) -> Seq<Seq<char>>
    decreases s.len(),
{
    if s.len() == 0 {
        Seq::empty()
    } else {
        let w = words(s.drop_last());
        let c = s.last();
        if is_ws(c) {
            w
        } else if s.len() >= 2 && !is_ws(s[s.len() - 2]) && w.len() > 0 {
            w.update(w.len() - 1, w.last().push(c))
        } else {
            w.push(seq![c])
        }
    }
}

/// An inline description rewritten as a block one: the text between its
/// quotes (the whole text if it is not quoted) in triple quotes.
pub open spec fn to_block(raw: Seq<char>) -> Seq<char> {
    let inner = if raw.len() >= 2 && raw[0] == '"' && raw.last() == '"' { raw.subrange(1, raw.len() - 1) } else { raw };
    "\"\"\""@ + inner + "\"\"\""@
}

/// A block description rewritten as an inline one: the words between its
/// triple quotes (of the whole text if it is not so quoted), joined by
/// single spaces, in quotes.
pub open spec fn to_inline(raw: Seq<char>) -> Seq<char> {
    let inner = if raw.len() >= 6 && raw.subrange(0, 3) == "\"\"\""@ && raw.subrange(raw.len() - 3, raw.len() as int) == "\"\"\""@ {
        raw.subrange(3, raw.len() - 3)
    } else {
        raw
    };
    "\""@ + join(words(inner), " "@) + "\""@
}

/// The owner of a description, node `p` (starting at `off`), in a
/// message: an unnamed enum value definition goes by the name of its value.
pub open spec fn desc_owner_text(nodes: Seq<Node>, p: int, off: usize) -> Seq<char> {
    let pname = match nodes[p].name { Some(x) => Some(x@), None => None };
    let name = if nodes[p].kind == SyntaxKind::ENUM_VALUE_DEFINITION && pname is None {
        enum_value_name(nodes, off, nodes.len() as int)
    } else {
        pname
    };
    let c = container_of(nodes, p);
    owner_text(nodes[p].kind, name, c.0, c.1)
}

/// Every description with an owner and a span lies within the text.
pub open spec fn descriptions_within(nodes: Seq<Node>, len: int) -> bool {
    forall|i: int| 0 <= i < nodes.len() && #[trigger] nodes[i].kind == SyntaxKind::DESCRIPTION && nodes[i].parent is Some
        && nodes[i].span is Some ==> nodes[i].span.unwrap().offset + nodes[i].span.unwrap().len <= len
}

/// The finding for node `i`: a description in the other style than the
/// one wanted, with a suggestion to rewrite it.
pub open spec fn style_finding(nodes: Seq<Node>, src: Seq<char>, want_block: bool, i: int) -> Option<(Seq<char>, Span, Seq<(Seq<char>, Span, Seq<char>)>)> {
    let n = nodes[i];
    if n.kind == SyntaxKind::DESCRIPTION && n.parent is Some && n.parent.unwrap() < nodes.len() && n.span is Some {
        let sp = n.span.unwrap();
        let raw = src.subrange(sp.offset as int, sp.offset + sp.len);
        let starts_block = raw.len() >= 3 && raw.subrange(0, 3) == "\"\"\""@;
        let starts_quote = raw.len() >= 1 && raw[0] == '"';
        if !starts_quote || starts_block == want_block {
            None
        } else {
            let p = n.parent.unwrap() as int;
            let wanted = if want_block { "block"@ } else { "inline"@ };
            let found = if starts_block { "block"@ } else { "inline"@ };
            Some((
                "Unexpected "@ + found + " description for "@ + desc_owner_text(nodes, p, sp.offset),
                sp,
                seq![("Change to "@ + wanted + " style description"@, sp, if want_block { to_block(raw) } else { to_inline(raw) })],
            ))
        }
    } else {
        None
    }
}

/// The findings among the first `n` nodes, in order.
pub open spec fn style_findings(nodes: Seq<Node>, src: Seq<char>, want_block: bool, n: int) -> Seq<(Seq<char>, Span, Seq<(Seq<char>, Span, Seq<char>)>)>
    decreases n,
{
    if n <= 0 {
        Seq::empty()
    } else {
        match style_finding(nodes, src, want_block, n - 1) {
            Some(d) => style_findings(nodes, src, want_block, n - 1).push(d),
            None => style_findings(nodes, src, want_block, n - 1),
        }
    }
}

fn exec_kind_label(k: SyntaxKind) -> (r: &'static str)
    ensures r@ == kind_label(k),
{
    match k {
        SyntaxKind::OBJECT_TYPE_DEFINITION | SyntaxKind::OBJECT_TYPE_EXTENSION => "type",
        SyntaxKind::INTERFACE_TYPE_DEFINITION | SyntaxKind::INTERFACE_TYPE_EXTENSION => "interface",
        SyntaxKind::INPUT_OBJECT_TYPE_DEFINITION | SyntaxKind::INPUT_OBJECT_TYPE_EXTENSION => "input",
        SyntaxKind::ENUM_TYPE_DEFINITION | SyntaxKind::ENUM_TYPE_EXTENSION => "enum",
        SyntaxKind::SCALAR_TYPE_DEFINITION | SyntaxKind::SCALAR_TYPE_EXTENSION => "scalar",
        SyntaxKind::UNION_TYPE_DEFINITION | SyntaxKind::UNION_TYPE_EXTENSION => "union",
        SyntaxKind::DIRECTIVE_DEFINITION => "directive",
        SyntaxKind::SCHEMA_DEFINITION | SyntaxKind::SCHEMA_EXTENSION => "schema",
        SyntaxKind::FIELD_DEFINITION => "field",
        SyntaxKind::INPUT_VALUE_DEFINITION => "input value",
        SyntaxKind::ENUM_VALUE | SyntaxKind::ENUM_VALUE_DEFINITION => "enum value",
        SyntaxKind::FRAGMENT_DEFINITION => "fragment",
        SyntaxKind::FRAGMENT_SPREAD => "fragment spread",
        SyntaxKind::OPERATION_DEFINITION => "operation",
        SyntaxKind::SELECTION_SET => "selection set",
        _ => "",
    }
}

fn push_display(m: &mut Vec<char>, k: SyntaxKind, name: &Option<Vec<char>>)
    ensures
        final(m)@ == old(m)@ + display_name(k, match name { Some(n) => Some(n@), None => None }),
{
    push_str(m, exec_kind_label(k));
    push_str(m, " \"");
    match name {
        Some(n) => push_all(m, n),
        None => {},
    }
    push_str(m, "\"");
    proof {
        let nm = match name { Some(n) => Some(n@), None => None::<Seq<char>> };
        assert(final(m)@ =~= old(m)@ + display_name(k, nm));
    }
}

fn exec_enum_value_name(tree: &Tree, off: usize) -> (r: Option<Vec<char>>)
    requires tree.wf(),
    ensures
        match r {
            Some(n) => enum_value_name(tree.nodes@, off, tree.nodes@.len() as int) == Some(n@),
            None => enum_value_name(tree.nodes@, off, tree.nodes@.len() as int) is None,
        },
{
    let mut k = tree.nodes.len();
    while k > 0
        invariant
            tree.wf(),
            k <= tree.nodes@.len(),
            enum_value_name(tree.nodes@, off, tree.nodes@.len() as int) == enum_value_name(tree.nodes@, off, k as int),
        decreases k,
    {
        let v = &tree.nodes[k - 1];
        if v.kind == SyntaxKind::ENUM_VALUE && v.name.is_some() {
            match v.parent {
                Some(p) => {
                    match tree.nodes[p].span {
                        Some(ps) => {
                            if ps.offset == off {
                                return Some(chars_of(v.name.as_ref().unwrap().as_str()));
                            }
                        },
                        None => {},
                    }
                },
                None => {},
            }
        }
        k = k - 1;
    }
    None
}

fn exec_words(s: &Vec<char>) -> (r: Vec<Vec<char>>)
    ensures crate::reach::names(r@) == words(s@),
{
    let mut w: Vec<Vec<char>> = Vec::new();
    for i in 0..s.len()
        invariant crate::reach::names(w@) == words(s@.take(i as int)),
    {
        let c = s[i];
        proof {
            assert(s@.take(i + 1).drop_last() == s@.take(i as int));
            assert(s@.take(i + 1).last() == c);
        }
        let ghost before = crate::reach::names(w@);
        if exec_is_ws(c) {
        } else if i >= 1 && !exec_is_ws(s[i - 1]) && w.len() > 0 {
            proof { assert(s@.take(i + 1)[i - 1] == s@[i - 1]); }
            let last = w.len() - 1;
            let mut cur = sub_chars(&w[last], 0, w[last].len());
            proof { assert(cur@ =~= w@[last as int]@); }
            cur.push(c);
            w.set(last, cur);
            proof { assert(crate::reach::names(w@) =~= before.update(before.len() - 1, before.last().push(c))); }
        } else {
            proof {
                if i >= 1 {
                    assert(s@.take(i + 1)[i - 1] == s@[i - 1]);
                }
            }
            let one = vec![c];
            proof { assert(one@ =~= seq![c]); }
            w.push(one);
            proof { assert(crate::reach::names(w@) =~= before.push(seq![c])); }
        }
    }
    proof { assert(s@.take(s@.len() as int) == s@); }
    w
}

fn exec_to_block(raw: &Vec<char>) -> (r: Vec<char>)
    ensures r@ == to_block(raw@),
{
    let n = raw.len();
    let inner = if n >= 2 && raw[0] == '"' && raw[n - 1] == '"' { sub_chars(raw, 1, n - 1) } else { sub_chars(raw, 0, n) };
    let mut out: Vec<char> = Vec::new();
    push_str(&mut out, "\"\"\"");
    push_all(&mut out, &inner);
    push_str(&mut out, "\"\"\"");
    proof { assert(raw@.subrange(0, n as int) == raw@); }
    out
}

fn exec_to_inline(raw: &Vec<char>) -> (r: Vec<char>)
    ensures r@ == to_inline(raw@),
{
    let n = raw.len();
    let q3 = chars_of("\"\"\"");
    let stripped = n >= 6 && crate::text::chars_eq(&sub_chars(raw, 0, 3), &q3) && crate::text::chars_eq(&sub_chars(raw, n - 3, n), &q3);
    let inner = if stripped { sub_chars(raw, 3, n - 3) } else { sub_chars(raw, 0, n) };
    proof { assert(raw@.subrange(0, n as int) == raw@); }
    let ws = exec_words(&inner);
    let ghost wv = crate::reach::names(ws@);
    let mut out: Vec<char> = Vec::new();
    push_str(&mut out, "\"");
    let ghost head = out@;
    for i in 0..ws.len()
        invariant
            wv == crate::reach::names(ws@),
            out@ == head + join(wv.take(i as int), " "@),
    {
        proof {
            assert(wv.take(i + 1).drop_last() == wv.take(i as int));
            assert(wv.take(i + 1).last() == ws@[i as int]@);
        }
        if i > 0 {
            push_str(&mut out, " ");
        } else {
            proof { assert(wv.take(1) == seq![ws@[0]@]); }
        }
        push_all(&mut out, &ws[i]);
        proof { assert(out@ =~= head + join(wv.take(i + 1), " "@)); }
    }
    proof { assert(wv.take(wv.len() as int) == wv); }
    push_str(&mut out, "\"");
    out
}

fn exec_owner_text(tree: &Tree, ck: &Vec<SyntaxKind>, p: usize, off: usize) -> (r: Vec<char>)
    requires
        tree.wf(),
        p < tree.nodes@.len(),
        ck@ == desc_container_kinds(),
    ensures r@ == desc_owner_text(tree.nodes@, p as int, off),
{
    let pn = &tree.nodes[p];
    let pname: Option<Vec<char>> = match &pn.name {
        Some(x) => Some(chars_of(x.as_str())),
        None => None,
    };
    let name = if pn.kind == SyntaxKind::ENUM_VALUE_DEFINITION && pname.is_none() {
        exec_enum_value_name(tree, off)
    } else {
        pname
    };
    let (ckind, cname): (SyntaxKind, Option<Vec<char>>) = match find_up_exec(tree, p, ck) {
        Some(c) => (tree.nodes[c].kind, match &tree.nodes[c].name {
            Some(x) => Some(chars_of(x.as_str())),
            None => None,
        }),
        None => (SyntaxKind::TOMBSTONE, None),
    };
    let mut m: Vec<char> = Vec::new();
    push_display(&mut m, pn.kind, &name);
    if pn.kind == SyntaxKind::FIELD_DEFINITION || pn.kind == SyntaxKind::INPUT_VALUE_DEFINITION
        || pn.kind == SyntaxKind::ENUM_VALUE || pn.kind == SyntaxKind::ENUM_VALUE_DEFINITION {
        push_str(&mut m, " in ");
        push_display(&mut m, ckind, &cname);
    }
    proof {
        let nodes = tree.nodes@;
        let pname_v = match nodes[p as int].name { Some(x) => Some(x@), None => None::<Seq<char>> };
        let name_v = match name { Some(x) => Some(x@), None => None::<Seq<char>> };
        assert(name_v == (if nodes[p as int].kind == SyntaxKind::ENUM_VALUE_DEFINITION && pname_v is None {
            enum_value_name(nodes, off, nodes.len() as int)
        } else {
            pname_v
        }));
        let cv = container_of(nodes, p as int);
        assert(cv.0 == ckind);
        assert(cv.1 == (match cname { Some(x) => Some(x@), None => None::<Seq<char>> }));
        assert(m@ =~= owner_text(nodes[p as int].kind, name_v, cv.0, cv.1));
    }
    m
}

fn push_style_finding(out: &mut Vec<Diagnostic>, tree: &Tree, src: &Vec<char>, ck: &Vec<SyntaxKind>, want_block: bool, i: usize)
    requires
        tree.wf(),
        i < tree.nodes@.len(),
        ck@ == desc_container_kinds(),
        descriptions_within(tree.nodes@, src@.len() as int),
    ensures
        diag_views(final(out)@) == diag_views(old(out)@) + (match style_finding(tree.nodes@, src@, want_block, i as int) {
            Some(d) => seq![d],
            None => Seq::empty(),
        }),
{
    let ghost before = diag_views(out@);
    let n = &tree.nodes[i];
        if n.kind == SyntaxKind::DESCRIPTION {
            match (n.parent, n.span) {
                (Some(p), Some(sp)) => {
                    let total = src.len();
                    proof {
                        let nodes = tree.nodes@;
                        assert(nodes[i as int].kind == SyntaxKind::DESCRIPTION && nodes[i as int].parent is Some && nodes[i as int].span is Some);
                        assert(nodes[i as int].span.unwrap().offset + nodes[i as int].span.unwrap().len <= src@.len());
                        assert(sp.offset + sp.len <= total);
                    }
                    let raw = sub_chars(src, sp.offset, sp.offset + sp.len);
                    let starts_block = raw.len() >= 3 && raw[0] == '"' && raw[1] == '"' && raw[2] == '"';
                    let starts_quote = raw.len() >= 1 && raw[0] == '"';
                    proof {
                        if raw@.len() >= 3 {
                            reveal_strlit("\"\"\"");
                            let q = "\"\"\""@;
                            assert(q.len() == 3 && q[0] == '"' && q[1] == '"' && q[2] == '"');
                            let sub = raw@.subrange(0, 3);
                            assert(sub[0] == raw@[0] && sub[1] == raw@[1] && sub[2] == raw@[2]);
                            if raw@[0] == '"' && raw@[1] == '"' && raw@[2] == '"' {
                                assert(sub =~= q);
                            }
                        }
                    }
                    if starts_quote && starts_block != want_block {
                        let mut m: Vec<char> = Vec::new();
                        push_str(&mut m, "Unexpected ");
                        push_str(&mut m, if starts_block { "block" } else { "inline" });
                        push_str(&mut m, " description for ");
                        let owner = exec_owner_text(tree, ck, p, sp.offset);
                        push_all(&mut m, &owner);
                        let mut d: Vec<char> = Vec::new();
                        push_str(&mut d, "Change to ");
                        push_str(&mut d, if want_block { "block" } else { "inline" });
                        push_str(&mut d, " style description");
                        let text = if want_block { exec_to_block(&raw) } else { exec_to_inline(&raw) };
                        let sg = vec![suggestion(&d, sp, &text)];
                        proof {
                            assert(m@ =~= "Unexpected "@ + (if starts_block { "block"@ } else { "inline"@ }) + " description for "@
                                + desc_owner_text(tree.nodes@, p as int, sp.offset));
                            assert(sg@.map_values(|x: Suggestion| sugg_view(x)) =~= seq![(d@, sp, text@)]);
                        }
                        push_diag_with(out, &m, sp, sg);
                    }
                },
                _ => {},
            }
        }
        proof {
        assert(diag_views(out@) =~= before + (match style_finding(tree.nodes@, src@, want_block, i as int) {
            Some(d) => seq![d],
            None => Seq::<(Seq<char>, Span, Seq<(Seq<char>, Span, Seq<char>)>)>::empty(),
        }));
    }
}

impl DescriptionStyle {
    /// Reports each description of the document `tree` (with text
    /// `source`) in the other style than `o.style`, with a suggestion that
    /// rewrites it in the wanted style.
    pub fn check(&self, tree: &Tree, source: &str, o: &DescriptionOptions) -> (r: Vec<Diagnostic>)
        requires
            tree.wf(),
            descriptions_within(tree.nodes@, source@.len() as int),
        ensures diag_views(r@) == style_findings(tree.nodes@, source@, o.style == DescStyle::Block, tree.nodes@.len() as int),
    {
        let want_block = o.style == DescStyle::Block;
        let src = chars_of(source);
        let ck = vec![
            SyntaxKind::OBJECT_TYPE_DEFINITION,
            SyntaxKind::OBJECT_TYPE_EXTENSION,
            SyntaxKind::INTERFACE_TYPE_DEFINITION,
            SyntaxKind::INTERFACE_TYPE_EXTENSION,
            SyntaxKind::INPUT_OBJECT_TYPE_DEFINITION,
            SyntaxKind::INPUT_OBJECT_TYPE_EXTENSION,
            SyntaxKind::ENUM_TYPE_DEFINITION,
            SyntaxKind::ENUM_TYPE_EXTENSION,
            SyntaxKind::SCALAR_TYPE_DEFINITION,
            SyntaxKind::SCALAR_TYPE_EXTENSION,
            SyntaxKind::UNION_TYPE_DEFINITION,
            SyntaxKind::UNION_TYPE_EXTENSION,
            SyntaxKind::DIRECTIVE_DEFINITION,
            SyntaxKind::SCHEMA_DEFINITION,
            SyntaxKind::SCHEMA_EXTENSION,
            SyntaxKind::FRAGMENT_DEFINITION,
            SyntaxKind::OPERATION_DEFINITION,
            SyntaxKind::SELECTION_SET,
        ];
        proof { assert(ck@ == desc_container_kinds()); }
        let mut out: Vec<Diagnostic> = Vec::new();
        for i in 0..tree.nodes.len()
            invariant
                tree.wf(),
                src@ == source@,
                want_block == (o.style == DescStyle::Block),
                ck@ == desc_container_kinds(),
                descriptions_within(tree.nodes@, source@.len() as int),
                diag_views(out@) == style_findings(tree.nodes@, source@, want_block, i as int),
        {
            let ghost before = diag_views(out@);
            push_style_finding(&mut out, tree, &src, &ck, want_block, i);
            proof { assert(diag_views(out@) =~= style_findings(tree.nodes@, source@, want_block, i + 1)); }
        }
        out
    }
}

} // verus!
