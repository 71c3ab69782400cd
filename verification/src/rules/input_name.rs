//! `input-name`: the arguments of the fields of `Mutation` (and, if asked,
//! `Query`) are named `input`, and (if asked) their types are named after
//! the field with an `Input` suffix.
use vstd::prelude::*;
use crate::model::{Diagnostic, Node, Span, Suggestion, SyntaxKind, Tree, diag_views, find_up, find_up_exec, push_diag_with, sugg_view, suggestion};
use crate::text::{chars_of, chars_eq, lower_seq, exec_lower_seq, push_all, push_str};

verus! {

/// The `input-name` rule.
pub struct InputName;

/// The options of the rule: whether argument types are checked, whether
/// that check minds case, and which of the `Query` and `Mutation` types
/// are checked.
pub struct InputNameOptions {
    pub check_input_type: bool,
    pub case_sensitive_input_type: bool,
    pub check_queries: bool,
    pub check_mutations: bool,
}

impl InputNameOptions {
    /// The default options: argument names of `Mutation` fields only,
    /// types not checked (case-sensitively when they are).
    pub fn new() -> (o: InputNameOptions)
        ensures !o.check_input_type, o.case_sensitive_input_type, !o.check_queries, o.check_mutations,
    {
        InputNameOptions { check_input_type: false, case_sensitive_input_type: true, check_queries: false, check_mutations: true }
    }
}

/// The kinds of object and input object definitions and extensions, past
/// which no argument or field is looked for.
pub open spec fn fence_kinds() -> Seq<SyntaxKind> {
    seq![
        SyntaxKind::OBJECT_TYPE_DEFINITION,
        SyntaxKind::OBJECT_TYPE_EXTENSION,
        SyntaxKind::INPUT_OBJECT_TYPE_DEFINITION,
        SyntaxKind::INPUT_OBJECT_TYPE_EXTENSION,
    ]
}

/// Walking up from node `j` (itself included), the argument reached
/// before any field or type definition.
pub open spec fn argument_above(nodes: Seq<Node>, j: int) -> Option<int> {
    match find_up(nodes, j, seq![SyntaxKind::INPUT_VALUE_DEFINITION, SyntaxKind::FIELD_DEFINITION] + fence_kinds()) {
        Some(a) => if nodes[a].kind == SyntaxKind::INPUT_VALUE_DEFINITION { Some(a) } else { None },
        None => None,
    }
}

/// Walking up from node `j` (itself included), the field reached before
/// any type definition.
pub open spec fn field_above(nodes: Seq<Node>, j: int) -> Option<int> {
    match find_up(nodes, j, seq![SyntaxKind::FIELD_DEFINITION] + fence_kinds()) {
        Some(f) => if nodes[f].kind == SyntaxKind::FIELD_DEFINITION { Some(f) } else { None },
        None => None,
    }
}

/// The object type definition or extension at or above node `j`.
pub open spec fn root_above(nodes: Seq<Node>, j: int) -> Option<int> {
    find_up(nodes, j, seq![SyntaxKind::OBJECT_TYPE_DEFINITION, SyntaxKind::OBJECT_TYPE_EXTENSION])
}

/// The options check the fields of the type named `name`.
pub open spec fn checks_root(o: InputNameOptions, name: Option<String>) -> bool {
    match name {
        Some(n) => if n@ == "Mutation"@ { o.check_mutations } else if n@ == "Query"@ { o.check_queries } else { false },
        None => false,
    }
}

/// The field and root type of the argument `a`, when the root is checked
/// and both have names.
pub open spec fn owner_of(nodes: Seq<Node>, o: InputNameOptions, a: int) -> Option<(Seq<char>, Seq<char>)> {
    match field_above(nodes, a) {
        Some(f) => match root_above(nodes, f) {
            Some(r) => if checks_root(o, nodes[r].name) && nodes[f].name is Some {
                Some((nodes[r].name.unwrap()@, nodes[f].name.unwrap()@))
            } else {
                None
            },
            None => None,
        },
        None => None,
    }
}

/// The finding for node `j`: the name of an argument not named `input`,
/// or (if asked) the type of an argument not named after its field.
pub open spec fn input_finding(nodes: Seq<Node>, o: InputNameOptions, j: int) -> Option<(Seq<char>, Span, Seq<(Seq<char>, Span, Seq<char>)>)> {
    let n = nodes[j];
    if n.kind == SyntaxKind::NAME {
        match n.parent {
            Some(a) => if a < nodes.len() && nodes[a as int].kind == SyntaxKind::INPUT_VALUE_DEFINITION
                && nodes[a as int].name is Some && nodes[a as int].name.unwrap()@ != "input"@ && n.span is Some {
                match owner_of(nodes, o, a as int) {
                    Some((root, field)) => Some((
                        "Input \""@ + nodes[a as int].name.unwrap()@ + "\" should be named \"input\" for \""@ + root + "."@ + field + "\""@,
                        n.span.unwrap(),
                        seq![("Rename to `input`"@, n.span.unwrap(), "input"@)],
                    )),
                    None => None,
                }
            } else {
                None
            },
            None => None,
        }
    } else if n.kind == SyntaxKind::NAMED_TYPE && o.check_input_type && n.name is Some && n.span is Some {
        match argument_above(nodes, j) {
            Some(a) => match owner_of(nodes, o, a) {
                Some((root, field)) => {
                    let actual = n.name.unwrap()@;
                    let expected = field + "Input"@;
                    let same = if o.case_sensitive_input_type { actual == expected } else { lower_seq(actual) == lower_seq(expected) };
                    if same {
                        None
                    } else {
                        Some((
                            "Input type `"@ + actual + "` name should be `"@ + expected + "`."@,
                            n.span.unwrap(),
                            seq![("Rename to `"@ + expected + "`"@, n.span.unwrap(), expected)],
                        ))
                    }
                },
                None => None,
            },
            None => None,
        }
    } else {
        None
    }
}

/// The findings among the first `n` nodes, in order.
pub open spec fn input_findings(nodes: Seq<Node>, o: InputNameOptions, n: int) -> Seq<(Seq<char>, Span, Seq<(Seq<char>, Span, Seq<char>)>)>
    decreases n,
{
    if n <= 0 {
        Seq::empty()
    } else {
        match input_finding(nodes, o, n - 1) {
            Some(d) => input_findings(nodes, o, n - 1).push(d),
            None => input_findings(nodes, o, n - 1),
        }
    }
}

fn exec_checks_root(o: &InputNameOptions, name: &Option<String>) -> (r: bool)
    ensures r == checks_root(*o, *name),
{
    match name {
        Some(n) => {
            let nc = chars_of(n.as_str());
            if chars_eq(&nc, &chars_of("Mutation")) {
                o.check_mutations
            } else if chars_eq(&nc, &chars_of("Query")) {
                o.check_queries
            } else {
                false
            }
        },
        None => false,
    }
}

struct Walks {
    arg_kinds: Vec<SyntaxKind>,
    field_kinds: Vec<SyntaxKind>,
    root_kinds: Vec<SyntaxKind>,
}

impl Walks {
    spec fn ok(&self) -> bool {
        &&& self.arg_kinds@ == seq![SyntaxKind::INPUT_VALUE_DEFINITION, SyntaxKind::FIELD_DEFINITION] + fence_kinds()
        &&& self.field_kinds@ == seq![SyntaxKind::FIELD_DEFINITION] + fence_kinds()
        &&& self.root_kinds@ == seq![SyntaxKind::OBJECT_TYPE_DEFINITION, SyntaxKind::OBJECT_TYPE_EXTENSION]
    }

    fn new() -> (w: Walks)
        ensures w.ok(),
    {
        let w = Walks {
            arg_kinds: vec![
                SyntaxKind::INPUT_VALUE_DEFINITION,
                SyntaxKind::FIELD_DEFINITION,
                SyntaxKind::OBJECT_TYPE_DEFINITION,
                SyntaxKind::OBJECT_TYPE_EXTENSION,
                SyntaxKind::INPUT_OBJECT_TYPE_DEFINITION,
                SyntaxKind::INPUT_OBJECT_TYPE_EXTENSION,
            ],
            field_kinds: vec![
                SyntaxKind::FIELD_DEFINITION,
                SyntaxKind::OBJECT_TYPE_DEFINITION,
                SyntaxKind::OBJECT_TYPE_EXTENSION,
                SyntaxKind::INPUT_OBJECT_TYPE_DEFINITION,
                SyntaxKind::INPUT_OBJECT_TYPE_EXTENSION,
            ],
            root_kinds: vec![SyntaxKind::OBJECT_TYPE_DEFINITION, SyntaxKind::OBJECT_TYPE_EXTENSION],
        };
        proof {
            assert(w.arg_kinds@ =~= seq![SyntaxKind::INPUT_VALUE_DEFINITION, SyntaxKind::FIELD_DEFINITION] + fence_kinds());
            assert(w.field_kinds@ =~= seq![SyntaxKind::FIELD_DEFINITION] + fence_kinds());
        }
        w
    }
}

fn exec_owner_of(tree: &Tree, w: &Walks, o: &InputNameOptions, a: usize) -> (r: Option<(Vec<char>, Vec<char>)>)
    requires tree.wf(), w.ok(),
    ensures
        match r {
            Some(x) => owner_of(tree.nodes@, *o, a as int) == Some((x.0@, x.1@)),
            None => owner_of(tree.nodes@, *o, a as int) is None,
        },
{
    let f = match find_up_exec(tree, a, &w.field_kinds) {
        Some(f) => f,
        None => return None,
    };
    if tree.nodes[f].kind != SyntaxKind::FIELD_DEFINITION {
        return None;
    }
    let r = match find_up_exec(tree, f, &w.root_kinds) {
        Some(r) => r,
        None => return None,
    };
    if exec_checks_root(o, &tree.nodes[r].name) && tree.nodes[f].name.is_some() {
        Some((chars_of(tree.nodes[r].name.as_ref().unwrap().as_str()), chars_of(tree.nodes[f].name.as_ref().unwrap().as_str())))
    } else {
        None
    }
}

fn push_input_finding(out: &mut Vec<Diagnostic>, tree: &Tree, w: &Walks, o: &InputNameOptions, j: usize)
    requires tree.wf(), w.ok(), j < tree.nodes@.len(),
    ensures
        diag_views(final(out)@) == diag_views(old(out)@) + (match input_finding(tree.nodes@, *o, j as int) {
            Some(d) => seq![d],
            None => Seq::empty(),
        }),
{
    let ghost before = diag_views(out@);
    let n = &tree.nodes[j];
    if n.kind == SyntaxKind::NAME {
        match (n.parent, n.span) {
            (Some(a), Some(sp)) => {
                let an = &tree.nodes[a];
                if an.kind == SyntaxKind::INPUT_VALUE_DEFINITION && an.name.is_some() {
                    let actual = chars_of(an.name.as_ref().unwrap().as_str());
                    if !chars_eq(&actual, &chars_of("input")) {
                        match exec_owner_of(tree, w, o, a) {
                            Some((root, field)) => {
                                let mut m: Vec<char> = Vec::new();
                                push_str(&mut m, "Input \"");
                                push_all(&mut m, &actual);
                                push_str(&mut m, "\" should be named \"input\" for \"");
                                push_all(&mut m, &root);
                                push_str(&mut m, ".");
                                push_all(&mut m, &field);
                                push_str(&mut m, "\"");
                                let sg = vec![suggestion(&chars_of("Rename to `input`"), sp, &chars_of("input"))];
                                proof { assert(sg@.map_values(|x: Suggestion| sugg_view(x)) =~= seq![("Rename to `input`"@, sp, "input"@)]); }
                                push_diag_with(out, &m, sp, sg);
                            },
                            None => {},
                        }
                    }
                }
            },
            _ => {},
        }
    } else if n.kind == SyntaxKind::NAMED_TYPE && o.check_input_type && n.name.is_some() && n.span.is_some() {
        let sp = n.span.unwrap();
        match find_up_exec(tree, j, &w.arg_kinds) {
            Some(a) => {
                if tree.nodes[a].kind == SyntaxKind::INPUT_VALUE_DEFINITION {
                    match exec_owner_of(tree, w, o, a) {
                        Some((root, field)) => {
                            let actual = chars_of(n.name.as_ref().unwrap().as_str());
                            let mut expected = crate::text::sub_chars(&field, 0, field.len());
                            push_str(&mut expected, "Input");
                            proof { assert(field@.subrange(0, field@.len() as int) == field@); }
                            let same = if o.case_sensitive_input_type {
                                chars_eq(&actual, &expected)
                            } else {
                                chars_eq(&exec_lower_seq(&actual), &exec_lower_seq(&expected))
                            };
                            if !same {
                                let mut m: Vec<char> = Vec::new();
                                push_str(&mut m, "Input type `");
                                push_all(&mut m, &actual);
                                push_str(&mut m, "` name should be `");
                                push_all(&mut m, &expected);
                                push_str(&mut m, "`.");
                                let mut d: Vec<char> = Vec::new();
                                push_str(&mut d, "Rename to `");
                                push_all(&mut d, &expected);
                                push_str(&mut d, "`");
                                let sg = vec![suggestion(&d, sp, &expected)];
                                proof { assert(sg@.map_values(|x: Suggestion| sugg_view(x)) =~= seq![(d@, sp, expected@)]); }
                                push_diag_with(out, &m, sp, sg);
                            }
                        },
                        None => {},
                    }
                }
            },
            None => {},
        }
    }
    proof {
        assert(diag_views(out@) =~= before + (match input_finding(tree.nodes@, *o, j as int) {
            Some(d) => seq![d],
            None => Seq::<(Seq<char>, Span, Seq<(Seq<char>, Span, Seq<char>)>)>::empty(),
        }));
    }
}

impl InputName {
    /// Reports, in the document `tree`, the arguments of the fields of the
    /// checked root types that are not named `input` (at their name), and,
    /// if asked, the argument types not named after the field with an
    /// `Input` suffix (at the type); each with a suggestion to rename.
    pub fn check(&self, tree: &Tree, o: &InputNameOptions) -> (r: Vec<Diagnostic>)
        requires tree.wf(),
        ensures diag_views(r@) == input_findings(tree.nodes@, *o, tree.nodes@.len() as int),
    {
        let w = Walks::new();
        let mut out: Vec<Diagnostic> = Vec::new();
        for j in 0..tree.nodes.len()
            invariant
                tree.wf(),
                w.ok(),
                diag_views(out@) == input_findings(tree.nodes@, *o, j as int),
        {
            push_input_finding(&mut out, tree, &w, o, j);
            proof { assert(diag_views(out@) =~= input_findings(tree.nodes@, *o, j + 1)); }
        }
        out
    }
}

} // verus!
