//! `match-document-filename`: a document's file name follows the name of its
//! first definition.
use vstd::prelude::*;
use crate::cst::{parse_tree, parses_to};
use crate::model::{Diagnostic, Node, Span, SyntaxKind, Tree, diag_views, plain_diag, push_diag};
use crate::text::{chars_of, chars_eq, push_str, push_all, clone_opt};
use crate::case::{CaseStyle, spec_convert_case, convert_case_chars, views};
use crate::paths::{spec_extension, spec_file_stem, path_extension, path_file_stem};
use crate::rules::lone_executable_definition::first_operation_type;

verus! {

/// The `match-document-filename` rule.
pub struct MatchDocumentFilename;

/// The per-type settings: a naming style, a prefix and a suffix.
#[derive(Clone, Debug)]
pub struct PerTypeOpts {
    pub style: Option<String>,
    pub suffix: Option<String>,
    pub prefix: Option<String>,
}

/// A per-type setting, given either as a style name or in full.
#[derive(Clone, Debug)]
pub enum TypeOption {
    Style(String),
    Object(PerTypeOpts),
}

/// The options of the rule.
#[derive(Clone, Debug)]
pub struct MatchOpts {
    pub file_extension: Option<String>,
    pub query: Option<TypeOption>,
    pub mutation: Option<TypeOption>,
    pub subscription: Option<TypeOption>,
    pub fragment: Option<TypeOption>,
}

/// The style named by an option value, among the five this rule accepts.
pub open spec fn spec_parse_style(s: Seq<char>) -> Option<CaseStyle> {
    if s == "camelCase"@ {
        Some(CaseStyle::Camel)
    } else if s == "PascalCase"@ {
        Some(CaseStyle::Pascal)
    } else if s == "snake_case"@ {
        Some(CaseStyle::Snake)
    } else if s == "UPPER_CASE"@ {
        Some(CaseStyle::ScreamingSnake)
    } else if s == "kebab-case"@ {
        Some(CaseStyle::Kebab)
    } else {
        None
    }
}

/// The style named by an option value.
pub fn parse_style(s: &str) -> (r: Option<CaseStyle>)
    ensures r == spec_parse_style(s@),
{
    let c = chars_of(s);
    if chars_eq(&c, &chars_of("camelCase")) {
        Some(CaseStyle::Camel)
    } else if chars_eq(&c, &chars_of("PascalCase")) {
        Some(CaseStyle::Pascal)
    } else if chars_eq(&c, &chars_of("snake_case")) {
        Some(CaseStyle::Snake)
    } else if chars_eq(&c, &chars_of("UPPER_CASE")) {
        Some(CaseStyle::ScreamingSnake)
    } else if chars_eq(&c, &chars_of("kebab-case")) {
        Some(CaseStyle::Kebab)
    } else {
        None
    }
}

/// The style setting of per-type options.
pub fn get_style(opt: &PerTypeOpts) -> (r: Option<&str>)
    ensures
        r matches Some(s) ==> opt.style matches Some(t) && s@ == t@,
        r is None <==> opt.style is None,
{
    match &opt.style {
        Some(s) => Some(s.as_str()),
        None => None,
    }
}

/// Text of an optional setting, empty when absent.
pub open spec fn text_or_empty(o: Option<String>) -> Seq<char> {
    match o {
        Some(s) => s@,
        None => Seq::empty(),
    }
}

/// The first top-level definition among the first `n` nodes that is an
/// operation or a fragment and has a name.
pub open spec fn first_named_definition(nodes: Seq<Node>, n: int) -> Option<int>
    decreases n,
{
    if n <= 0 {
        None
    } else {
        match first_named_definition(nodes, n - 1) {
            Some(k) => Some(k),
            None => {
                let d = nodes[n - 1];
                let top = match d.parent {
                    Some(p) => nodes[p as int].kind == SyntaxKind::DOCUMENT,
                    None => false,
                };
                if top && (d.kind == SyntaxKind::OPERATION_DEFINITION || d.kind == SyntaxKind::FRAGMENT_DEFINITION)
                    && d.name is Some {
                    Some(n - 1)
                } else {
                    None
                }
            },
        }
    }
}

/// The option key for definition `k`: `fragment`, or the operation's
/// keyword (`query` when it has none).
pub open spec fn type_key(nodes: Seq<Node>, k: int) -> Seq<char> {
    if nodes[k].kind == SyntaxKind::FRAGMENT_DEFINITION {
        "fragment"@
    } else {
        match first_operation_type(nodes, k, nodes.len() as int) {
            Some(t) => match nodes[t].name {
                Some(w) => if w@ == "mutation"@ {
                    "mutation"@
                } else if w@ == "subscription"@ {
                    "subscription"@
                } else {
                    "query"@
                },
                None => "query"@,
            },
            None => "query"@,
        }
    }
}

/// The option for a type key.
pub open spec fn option_for(opts: MatchOpts, key: Seq<char>) -> Option<TypeOption> {
    if key == "query"@ {
        opts.query
    } else if key == "mutation"@ {
        opts.mutation
    } else if key == "subscription"@ {
        opts.subscription
    } else {
        opts.fragment
    }
}

/// The per-type settings an option stands for.
pub open spec fn per_type(o: TypeOption) -> PerTypeOpts {
    match o {
        TypeOption::Style(s) => PerTypeOpts { style: Some(s), suffix: None, prefix: None },
        TypeOption::Object(p) => p,
    }
}

/// The file's extension with its dot, or empty.
pub open spec fn file_ext(path: Seq<char>) -> Seq<char> {
    match spec_extension(path) {
        Some(e) => seq!['.'] + e,
        None => Seq::empty(),
    }
}

/// The file's stem, or empty.
pub open spec fn file_stem(path: Seq<char>) -> Seq<char> {
    match spec_file_stem(path) {
        Some(s) => s,
        None => Seq::empty(),
    }
}

/// The file name a document with first definition named `name` should
/// have under the per-type settings `p`: prefix, then the name (as is for
/// `matchDocumentStyle`, converted for a known style, nothing for an
/// unknown one) or the current stem when no style is set, then suffix and
/// extension.
pub open spec fn expected_filename(p: PerTypeOpts, name: Seq<char>, stem: Seq<char>, ext: Seq<char>) -> Seq<char> {
    text_or_empty(p.prefix) + middle_part(p, name, stem) + text_or_empty(p.suffix) + ext
}

/// The part of the expected file name that comes from the definition's
/// name (or the current stem).
pub open spec fn middle_part(p: PerTypeOpts, name: Seq<char>, stem: Seq<char>) -> Seq<char> {
    match p.style {
        Some(s) => if s@ == "matchDocumentStyle"@ {
            name
        } else {
            match spec_parse_style(s@) {
                Some(cs) => spec_convert_case(name, cs, Seq::empty()),
                None => Seq::empty(),
            }
        },
        None => stem,
    }
}

/// The findings for a document at `path`.
pub open spec fn filename_findings(path: Seq<char>, nodes: Seq<Node>, opts: MatchOpts) -> Seq<(Seq<char>, Span, Seq<(Seq<char>, Span, Seq<char>)>)> {
    let ext = file_ext(path);
    let stem = file_stem(path);
    let zero = Span { offset: 0, len: 0 };
    match opts.file_extension {
        Some(x) if x@ != ext => seq![plain_diag(
            "File extension \""@ + ext + "\" don't match extension \""@ + x@ + "\""@,
            zero,
        )],
        _ => match first_named_definition(nodes, nodes.len() as int) {
            None => Seq::empty(),
            Some(k) => match option_for(opts, type_key(nodes, k)) {
                None => Seq::empty(),
                Some(o) => {
                    let want_ext = match opts.file_extension {
                        Some(x) => x@,
                        None => ext,
                    };
                    let expected = expected_filename(per_type(o), nodes[k].name.unwrap()@, stem, want_ext);
                    let actual = stem + ext;
                    if expected != actual {
                        seq![plain_diag(
                            "Unexpected filename \""@ + actual + "\". Rename it to \""@ + expected + "\""@,
                            zero,
                        )]
                    } else {
                        Seq::empty()
                    }
                },
            },
        },
    }
}

fn first_named(tree: &Tree) -> (r: Option<usize>)
    requires tree.wf(),
    ensures
        match r {
            Some(k) => first_named_definition(tree.nodes@, tree.nodes@.len() as int) == Some(k as int) && k < tree.nodes@.len() && tree.nodes@[k as int].name is Some,
            None => first_named_definition(tree.nodes@, tree.nodes@.len() as int) is None,
        },
{
    let ghost nodes = tree.nodes@;
    for i in 0..tree.nodes.len()
        invariant
            nodes == tree.nodes@,
            tree.wf(),
            first_named_definition(nodes, i as int) is None,
    {
        let n = &tree.nodes[i];
        let top = match n.parent {
            Some(p) => {
                proof { assert(tree.nodes@[i as int].parent matches Some(q) && q < i); }
                tree.nodes[p].kind == SyntaxKind::DOCUMENT
            },
            None => false,
        };
        if top && (n.kind == SyntaxKind::OPERATION_DEFINITION || n.kind == SyntaxKind::FRAGMENT_DEFINITION)
            && n.name.is_some() {
            proof { assert(first_named_definition(nodes, i + 1) == Some(i as int)); }
            proof { lemma_first_named_stable(nodes, i + 1, nodes.len() as int); }
            return Some(i);
        }
    }
    None
}

proof fn lemma_first_named_stable(nodes: Seq<Node>, a: int, b: int)
    requires
        a <= b,
        first_named_definition(nodes, a) is Some,
    ensures
        first_named_definition(nodes, b) == first_named_definition(nodes, a),
    decreases b - a,
{
    if a < b {
        lemma_first_named_stable(nodes, a, b - 1);
    }
}

fn key_of(tree: &Tree, k: usize) -> (r: Vec<char>)
    requires k < tree.nodes@.len(),
    ensures r@ == type_key(tree.nodes@, k as int),
{
    if tree.nodes[k].kind == SyntaxKind::FRAGMENT_DEFINITION {
        return chars_of("fragment");
    }
    let ghost nodes = tree.nodes@;
    let mut found: Option<usize> = None;
    for j in 0..tree.nodes.len()
        invariant
            nodes == tree.nodes@,
            match found {
                Some(x) => first_operation_type(nodes, k as int, j as int) == Some(x as int) && x < j,
                None => first_operation_type(nodes, k as int, j as int) is None,
            },
    {
        if found.is_none() && tree.nodes[j].parent == Some(k) && tree.nodes[j].kind == SyntaxKind::OPERATION_TYPE {
            found = Some(j);
        }
    }
    match found {
        Some(t) => match &tree.nodes[t].name {
            Some(w) => {
                let wc = chars_of(w.as_str());
                if chars_eq(&wc, &chars_of("mutation")) {
                    chars_of("mutation")
                } else if chars_eq(&wc, &chars_of("subscription")) {
                    chars_of("subscription")
                } else {
                    chars_of("query")
                }
            },
            None => chars_of("query"),
        },
        None => chars_of("query"),
    }
}

fn opt_text(o: &Option<String>) -> (r: Vec<char>)
    ensures r@ == text_or_empty(*o),
{
    match o {
        Some(s) => chars_of(s.as_str()),
        None => Vec::new(),
    }
}

impl MatchDocumentFilename {
    /// Parses `source`, the text of the file at `path`, and checks its name.
    pub fn check_source(&self, path: &str, source: &str, opts: &MatchOpts) -> (r: Vec<Diagnostic>)
        ensures
            exists|t: Tree| #[trigger] parses_to(source@, t)
                && diag_views(r@) == filename_findings(path@, t.nodes@, *opts),
    {
        let t = parse_tree(source);
        let r = self.check(path, &t, opts);
        proof { assert(parses_to(source@, t) && diag_views(r@) == filename_findings(path@, t.nodes@, *opts)); }
        r
    }

    /// Checks the name of the file at `path` holding the document `tree`.
    pub fn check(&self, path: &str, tree: &Tree, opts: &MatchOpts) -> (r: Vec<Diagnostic>)
        requires tree.wf(),
        ensures diag_views(r@) == filename_findings(path@, tree.nodes@, *opts),
    {
        let mut out: Vec<Diagnostic> = Vec::new();
        let ext: Vec<char> = match path_extension(path) {
            Some(e) => {
                let mut v: Vec<char> = Vec::new();
                v.push('.');
                push_str(&mut v, e.as_str());
                v
            },
            None => Vec::new(),
        };
        let stem: Vec<char> = match path_file_stem(path) {
            Some(s) => chars_of(s.as_str()),
            None => Vec::new(),
        };
        proof {
            assert(ext@ == file_ext(path@));
            assert(stem@ == file_stem(path@));
        }
        if let Some(x) = &opts.file_extension {
            let xc = chars_of(x.as_str());
            if !chars_eq(&xc, &ext) {
                let mut m: Vec<char> = Vec::new();
                push_str(&mut m, "File extension \"");
                push_all(&mut m, &ext);
                push_str(&mut m, "\" don't match extension \"");
                push_all(&mut m, &xc);
                push_str(&mut m, "\"");
                push_diag(&mut out, &m, Span::new(0, 0));
                return out;
            }
        }
        let k = match first_named(tree) {
            Some(k) => k,
            None => return out,
        };
        let key = key_of(tree, k);
        let option = if chars_eq(&key, &chars_of("query")) {
            &opts.query
        } else if chars_eq(&key, &chars_of("mutation")) {
            &opts.mutation
        } else if chars_eq(&key, &chars_of("subscription")) {
            &opts.subscription
        } else {
            &opts.fragment
        };
        proof { assert(*option == option_for(*opts, key@)); }
        let o = match option {
            Some(o) => o,
            None => return out,
        };
        let p: PerTypeOpts = match o {
            TypeOption::Style(s) => PerTypeOpts { style: Some(s.clone()), suffix: None, prefix: None },
            TypeOption::Object(q) => PerTypeOpts { style: clone_opt(&q.style), suffix: clone_opt(&q.suffix), prefix: clone_opt(&q.prefix) },
        };
        proof { assert(p == per_type(*o)); }
        let name = match &tree.nodes[k].name {
            Some(n) => chars_of(n.as_str()),
            None => Vec::new(),
        };
        let mut expected: Vec<char> = Vec::new();
        match &p.prefix {
            Some(pf) => push_str(&mut expected, pf.as_str()),
            None => {},
        }
        proof { assert(expected@ =~= text_or_empty(p.prefix)); }
        match &p.style {
            Some(s) => {
                let sc = chars_of(s.as_str());
                if chars_eq(&sc, &chars_of("matchDocumentStyle")) {
                    push_all(&mut expected, &name);
                } else {
                    match parse_style(s.as_str()) {
                        Some(cs) => {
                            let no_acronyms: Vec<String> = Vec::new();
                            let converted = convert_case_chars(&name, cs, no_acronyms.as_slice());
                            proof { assert(views(no_acronyms@) =~= Seq::<Seq<char>>::empty()); }
                            push_all(&mut expected, &converted);
                        },
                        None => {},
                    }
                }
            },
            None => push_all(&mut expected, &stem),
        }
        proof { assert(expected@ =~= text_or_empty(p.prefix) + middle_part(p, name@, stem@)); }
        match &p.suffix {
            Some(sf) => push_str(&mut expected, sf.as_str()),
            None => {},
        }
        match &opts.file_extension {
            Some(x) => push_str(&mut expected, x.as_str()),
            None => push_all(&mut expected, &ext),
        }
        let mut actual: Vec<char> = Vec::new();
        push_all(&mut actual, &stem);
        push_all(&mut actual, &ext);
        proof {
            assert(expected@ =~= expected_filename(p, name@, stem@, match opts.file_extension { Some(x) => x@, None => ext@ }));
        }
        if !chars_eq(&expected, &actual) {
            let mut m: Vec<char> = Vec::new();
            push_str(&mut m, "Unexpected filename \"");
            push_all(&mut m, &actual);
            push_str(&mut m, "\". Rename it to \"");
            push_all(&mut m, &expected);
            push_str(&mut m, "\"");
            push_diag(&mut out, &m, Span::new(0, 0));
        }
        out
    }
}

/// The rule reports a document at most once, at the start of the file.
pub proof fn law_at_most_one_filename_finding(path: Seq<char>, nodes: Seq<Node>, opts: MatchOpts)
    ensures
        filename_findings(path, nodes, opts).len() <= 1,
        forall|i: int| 0 <= i < filename_findings(path, nodes, opts).len()
            ==> (#[trigger] filename_findings(path, nodes, opts)[i]).1 == (Span { offset: 0, len: 0 }),
{
}

} // verus!
