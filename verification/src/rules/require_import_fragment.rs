//! `require-import-fragment`: a fragment spread whose fragment is defined in
//! another file needs an import comment for that file.
use vstd::prelude::*;
use crate::model::{Definition, Diagnostic, Node, Span, SyntaxKind, Tree, diag_views, plain_diag, push_diag};
use crate::text::{chars_of, chars_eq, push_str, push_all, starts_with, exec_starts_with, trim_start, trim_start_chars, skip_chars, starts_non_ws, exec_is_ws, find_from, exec_find_from, sub_chars, string_of};
use crate::paths::{spec_components, spec_normalize_path, normalize_path, parts_eq, same_path, parts_view};
use crate::comments::{Comment, all_comments, comments_from, comment_views};

verus! {

/// The `require-import-fragment` rule.
pub struct RequireImportFragment;

/// The path an import comment names, when the comment imports
/// `fragment_name` by name (`# import Name from 'path'`) or imports a whole
/// file (`# import 'path'`); quotes may be single or double.
pub open spec fn spec_imported_path(comment: Seq<char>, name: Seq<char>) -> Option<Seq<char>> {
    if !(comment.len() > 0 && comment[0] == '#') {
        None
    } else {
        let v1 = trim_start(comment.skip(1));
        if !starts_with(v1, "import"@) {
            None
        } else {
            let v2 = v1.skip(6);
            if starts_non_ws(v2) {
                None
            } else {
                let v3 = trim_start(v2);
                let v4 = if starts_with(v3, name) {
                    let rest = v3.skip(name.len() as int);
                    if starts_non_ws(rest) {
                        None
                    } else {
                        let r2 = trim_start(rest);
                        if !starts_with(r2, "from"@) {
                            None
                        } else {
                            let r3 = r2.skip(4);
                            if starts_non_ws(r3) {
                                None
                            } else {
                                Some(trim_start(r3))
                            }
                        }
                    }
                } else {
                    Some(v3)
                };
                match v4 {
                    None => None,
                    Some(v) => if v.len() == 0 || (v[0] != '\'' && v[0] != '"') {
                        None
                    } else {
                        match find_from(v, v[0], 1, v.len() as int) {
                            Some(e) => Some(v.subrange(1, e)),
                            None => None,
                        }
                    },
                }
            }
        }
    }
}

fn non_ws_first(v: &Vec<char>) -> (r: bool)
    ensures r == starts_non_ws(v@),
{
    v.len() > 0 && !exec_is_ws(v[0])
}

proof fn lemma_find_from_bounds(s: Seq<char>, c: char, from: int, to: int)
    ensures find_from(s, c, from, to) matches Some(k) ==> from <= k < to,
    decreases to - from,
{
    if from < to && s[from] != c {
        lemma_find_from_bounds(s, c, from + 1, to);
    }
}

/// The path an import comment names for `fragment_name`, if any.
pub fn imported_fragment_path(comment: &str, fragment_name: &str) -> (r: Option<String>)
    ensures
        match r {
            Some(p) => spec_imported_path(comment@, fragment_name@) == Some(p@),
            None => spec_imported_path(comment@, fragment_name@) is None,
        },
{
    let c = chars_of(comment);
    let name = chars_of(fragment_name);
    proof {
        reveal_strlit("import");
        reveal_strlit("from");
    }
    if !(c.len() > 0 && c[0] == '#') {
        return None;
    }
    let v1 = trim_start_chars(&skip_chars(&c, 1));
    if !exec_starts_with(&v1, &chars_of("import")) {
        return None;
    }
    let v2 = skip_chars(&v1, 6);
    if non_ws_first(&v2) {
        return None;
    }
    let v3 = trim_start_chars(&v2);
    let v = if exec_starts_with(&v3, &name) {
        let rest = skip_chars(&v3, name.len());
        if non_ws_first(&rest) {
            return None;
        }
        let r2 = trim_start_chars(&rest);
        if !exec_starts_with(&r2, &chars_of("from")) {
            return None;
        }
        let r3 = skip_chars(&r2, 4);
        if non_ws_first(&r3) {
            return None;
        }
        trim_start_chars(&r3)
    } else {
        v3
    };
    if v.len() == 0 || (v[0] != '\'' && v[0] != '"') {
        return None;
    }
    let q = v[0];
    proof { lemma_find_from_bounds(v@, q, 1, v@.len() as int); }
    match exec_find_from(&v, q, 1, v.len()) {
        Some(e) => Some(string_of(&sub_chars(&v, 1, e))),
        None => None,
    }
}

/// The fragment spreads among the first `n` nodes, as (name, span): the
/// fragment names whose parent is a spread and that have a name and a span.
pub open spec fn spreads(nodes: Seq<Node>, n: int) -> Seq<(Seq<char>, Span)>
    decreases n,
{
    if n <= 0 {
        Seq::empty()
    } else {
        let prev = spreads(nodes, n - 1);
        let d = nodes[n - 1];
        let under_spread = match d.parent {
            Some(p) => 0 <= p < nodes.len() && nodes[p as int].kind == SyntaxKind::FRAGMENT_SPREAD,
            None => false,
        };
        if d.kind == SyntaxKind::FRAGMENT_NAME && under_spread && d.name is Some && d.span is Some {
            prev.push((d.name.unwrap()@, d.span.unwrap()))
        } else {
            prev
        }
    }
}

/// Some definition of fragment `name` lives in `file`.
pub open spec fn defined_in(fragments: Seq<Definition>, name: Seq<char>, file: Seq<char>) -> bool {
    exists|j: int|
        0 <= j < fragments.len() && named(#[trigger] fragments[j], name)
            && spec_components(fragments[j].file@) == spec_components(file)
}

/// Definition `d` has the name `name`.
pub open spec fn named(d: Definition, name: Seq<char>) -> bool {
    d.name is Some && d.name.unwrap()@ == name
}

/// Comment text `c` imports, for fragment `name`, the file holding `d`.
pub open spec fn imports_def(c: Seq<char>, name: Seq<char>, d: Definition, file: Seq<char>) -> bool {
    spec_imported_path(c, name) is Some && named(d, name)
        && spec_normalize_path("."@, d.file@) == spec_normalize_path(file, spec_imported_path(c, name).unwrap())
}

/// Some comment of the file imports a file that defines fragment `name`.
pub open spec fn imported(comments: Seq<(Span, Seq<char>)>, fragments: Seq<Definition>, name: Seq<char>, file: Seq<char>) -> bool {
    exists|i: int, j: int|
        0 <= i < comments.len() && 0 <= j < fragments.len() && imports_def(#[trigger] comments[i].1, name, #[trigger] fragments[j], file)
}

/// The findings: a spread of a fragment that is neither defined in `file`
/// nor imported by one of its comments.
pub open spec fn import_findings(spr: Seq<(Seq<char>, Span)>, fragments: Seq<Definition>, comments: Seq<(Span, Seq<char>)>, file: Seq<char>) -> Seq<(Seq<char>, Span, Seq<(Seq<char>, Span, Seq<char>)>)>
    decreases spr.len(),
{
    if spr.len() == 0 {
        Seq::empty()
    } else {
        let prev = import_findings(spr.drop_last(), fragments, comments, file);
        let (name, span) = spr.last();
        if defined_in(fragments, name, file) || imported(comments, fragments, name, file) {
            prev
        } else {
            prev.push(plain_diag("Expected \""@ + name + "\" fragment to be imported."@, span))
        }
    }
}

fn collect_spreads(tree: &Tree) -> (r: Vec<(Vec<char>, Span)>)
    ensures r@.map_values(|x: (Vec<char>, Span)| (x.0@, x.1)) == spreads(tree.nodes@, tree.nodes@.len() as int),
{
    let ghost nodes = tree.nodes@;
    let mut out: Vec<(Vec<char>, Span)> = Vec::new();
    for i in 0..tree.nodes.len()
        invariant
            nodes == tree.nodes@,
            out@.map_values(|x: (Vec<char>, Span)| (x.0@, x.1)) == spreads(nodes, i as int),
    {
        let n = &tree.nodes[i];
        let under_spread = match n.parent {
            Some(p) => p < tree.nodes.len() && tree.nodes[p].kind == SyntaxKind::FRAGMENT_SPREAD,
            None => false,
        };
        if n.kind == SyntaxKind::FRAGMENT_NAME && under_spread {
            match (&n.name, n.span) {
                (Some(name), Some(span)) => {
                    out.push((chars_of(name.as_str()), span));
                },
                _ => {},
            }
        }
        proof { assert(out@.map_values(|x: (Vec<char>, Span)| (x.0@, x.1)) =~= spreads(nodes, i + 1)); }
    }
    out
}

fn exec_defined_in(fragments: &[Definition], name: &Vec<char>, file: &str) -> (r: bool)
    ensures r == defined_in(fragments@, name@, file@),
{
    for j in 0..fragments.len()
        invariant
            forall|k: int| 0 <= k < j ==> !(named(#[trigger] fragments@[k], name@)
                && spec_components(fragments@[k].file@) == spec_components(file@)),
    {
        match &fragments[j].name {
            Some(n) => {
                if chars_eq(&chars_of(n.as_str()), name) && same_path(fragments[j].file.as_str(), file) {
                    return true;
                }
            },
            None => {},
        }
    }
    false
}

fn exec_imported(comments: &Vec<Comment>, fragments: &[Definition], name: &Vec<char>, file: &str) -> (r: bool)
    ensures r == imported(comment_views(comments@), fragments@, name@, file@),
{
    let name_s = string_of(name);
    let ghost cs = comment_views(comments@);
    for i in 0..comments.len()
        invariant
            name_s@ == name@,
            cs == comment_views(comments@),
            forall|a: int, j: int|
                0 <= a < i && 0 <= j < fragments@.len() ==> !imports_def(#[trigger] cs[a].1, name@, #[trigger] fragments@[j], file@),
    {
        match imported_fragment_path(comments[i].text.as_str(), name_s.as_str()) {
            Some(p) => {
                let imported_path = normalize_path(file, p.as_str());
                for j in 0..fragments.len()
                    invariant
                        name_s@ == name@,
                        cs == comment_views(comments@),
                        i < comments@.len(),
                        spec_imported_path(cs[i as int].1, name@) == Some(p@),
                        parts_view(imported_path@) == spec_normalize_path(file@, p@),
                        forall|a: int, k: int|
                            0 <= a < i && 0 <= k < fragments@.len() ==> !imports_def(#[trigger] cs[a].1, name@, #[trigger] fragments@[k], file@),
                        forall|k: int| 0 <= k < j ==> !imports_def(cs[i as int].1, name@, #[trigger] fragments@[k], file@),
                {
                    match &fragments[j].name {
                        Some(n) => {
                            if chars_eq(&chars_of(n.as_str()), name) {
                                let def_path = normalize_path(".", fragments[j].file.as_str());
                                if parts_eq(&def_path, &imported_path) {
                                    proof {
                                        assert(imports_def(cs[i as int].1, name@, fragments@[j as int], file@));
                                        assert(cs.len() == comments@.len());
                                        assert(0 <= i < cs.len() && 0 <= j < fragments@.len());
                                        assert(imported(cs, fragments@, name@, file@));
                                    }
                                    return true;
                                }
                            }
                        },
                        None => {},
                    }
                }
            },
            None => {},
        }
    }
    false
}

impl RequireImportFragment {
    /// Checks every fragment spread of the document `tree` (the file `file`
    /// with text `source`) against `fragments`, every fragment definition of
    /// the project in order.
    pub fn check(&self, tree: &Tree, file: &str, source: &str, fragments: &[Definition]) -> (r: Vec<Diagnostic>)
        requires source@.len() < usize::MAX,
        ensures
            diag_views(r@) == import_findings(
                spreads(tree.nodes@, tree.nodes@.len() as int),
                fragments@,
                comments_from(source@, 0),
                file@,
            ),
    {
        let comments = all_comments(source);
        let spr = collect_spreads(tree);
        let ghost sv = spr@.map_values(|x: (Vec<char>, Span)| (x.0@, x.1));
        let mut out: Vec<Diagnostic> = Vec::new();
        for i in 0..spr.len()
            invariant
                sv == spr@.map_values(|x: (Vec<char>, Span)| (x.0@, x.1)),
                comment_views(comments@) == comments_from(source@, 0),
                diag_views(out@) == import_findings(sv.take(i as int), fragments@, comments_from(source@, 0), file@),
        {
            proof {
                assert(sv.take(i + 1).drop_last() == sv.take(i as int));
                assert(sv.take(i + 1).last() == (spr@[i as int].0@, spr@[i as int].1));
            }
            let name = &spr[i].0;
            if !exec_defined_in(fragments, name, file) && !exec_imported(&comments, fragments, name, file) {
                let mut m: Vec<char> = Vec::new();
                push_str(&mut m, "Expected \"");
                push_all(&mut m, name);
                push_str(&mut m, "\" fragment to be imported.");
                push_diag(&mut out, &m, spr[i].1);
            }
        }
        proof { assert(sv.take(sv.len() as int) == sv); }
        out
    }
}

} // verus!
