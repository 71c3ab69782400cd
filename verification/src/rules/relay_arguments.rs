//! `relay-arguments`: a field that returns a Connection type takes the
//! forward pagination arguments (`first: Int`, `after: String`), the
//! backward ones (`last: Int`, `before: String`), or both.
use vstd::prelude::*;
use crate::model::{Diagnostic, Node, Span, SyntaxKind, Tree, diag_views, plain_diag, push_diag, find_up, find_up_exec};
use crate::pattern::regex_matches;
use crate::relay::RelayOpts;
use crate::rules::relay_edge_types::is_scalar_type;
use crate::schema::{FieldDef, InputValueDef, Schema, TypeKind, TypeRef, base_name, type_index, find_type, field_index, find_field};
use crate::text::{chars_of, chars_eq, push_str};

verus! {

/// The `relay-arguments` rule.
pub struct RelayArguments;

/// The options of the rule: whether both pairs of arguments are checked
/// whenever one of them is present (the default), or only the pairs the
/// field has an argument of.
pub struct ArgumentOptions {
    pub include_both: bool,
}

impl ArgumentOptions {
    /// The default options.
    pub fn new() -> (o: ArgumentOptions)
        ensures o.include_both,
    {
        ArgumentOptions { include_both: true }
    }
}

/// The kinds of definitions whose fields the rule reads.
pub open spec fn container_kinds() -> Seq<SyntaxKind> {
    seq![
        SyntaxKind::OBJECT_TYPE_DEFINITION,
        SyntaxKind::OBJECT_TYPE_EXTENSION,
        SyntaxKind::INTERFACE_TYPE_DEFINITION,
        SyntaxKind::INTERFACE_TYPE_EXTENSION,
    ]
}

/// The name of the object or interface around node `j`, if that has one.
pub open spec fn container_name(nodes: Seq<Node>, j: int) -> Option<Seq<char>> {
    match find_up(nodes, j, container_kinds()) {
        Some(o) => match nodes[o].name {
            Some(n) => Some(n@),
            None => None,
        },
        None => None,
    }
}

/// Node `c` is a field the rule records: a field definition with a name
/// and a span, inside a named object or interface.
pub open spec fn is_candidate(nodes: Seq<Node>, c: int) -> bool {
    &&& 0 <= c < nodes.len()
    &&& nodes[c].kind == SyntaxKind::FIELD_DEFINITION
    &&& nodes[c].name is Some
    &&& nodes[c].span is Some
    &&& container_name(nodes, c) is Some
}

/// The key of a recorded field: its type's name and its own.
pub open spec fn candidate_key(nodes: Seq<Node>, c: int) -> (Seq<char>, Seq<char>) {
    (container_name(nodes, c).unwrap(), nodes[c].name.unwrap()@)
}

/// The last recorded field before `n` with the key `key`.
pub open spec fn last_candidate(nodes: Seq<Node>, key: (Seq<char>, Seq<char>), n: int) -> Option<int>
    decreases n,
{
    if n <= 0 {
        None
    } else if is_candidate(nodes, n - 1) && candidate_key(nodes, n - 1) == key {
        Some(n - 1)
    } else {
        last_candidate(nodes, key, n - 1)
    }
}

/// Node `j` is an argument of a field definition, with a name and a span,
/// whose field has a name and sits in a named object or interface.
pub open spec fn is_argument(nodes: Seq<Node>, j: int) -> bool {
    &&& nodes[j].kind == SyntaxKind::INPUT_VALUE_DEFINITION
    &&& nodes[j].name is Some
    &&& nodes[j].span is Some
    &&& nodes[j].parent matches Some(p)
    &&& p < nodes.len()
    &&& nodes[p as int].kind == SyntaxKind::ARGUMENTS_DEFINITION
    &&& nodes[p as int].parent matches Some(q)
    &&& q < nodes.len()
    &&& nodes[q as int].kind == SyntaxKind::FIELD_DEFINITION
    &&& find_up(nodes, j, seq![SyntaxKind::FIELD_DEFINITION]) matches Some(f)
    &&& nodes[f].name is Some
    &&& container_name(nodes, f) is Some
}

/// The key of the field that argument `j` belongs to.
pub open spec fn argument_key(nodes: Seq<Node>, j: int) -> (Seq<char>, Seq<char>) {
    let f = find_up(nodes, j, seq![SyntaxKind::FIELD_DEFINITION]).unwrap();
    (container_name(nodes, f).unwrap(), nodes[f].name.unwrap()@)
}

/// Argument `j` counts for the recorded field `c`: `c` is the last field
/// recorded before `j` with the key of `j`'s field.
pub open spec fn argument_of(nodes: Seq<Node>, j: int, c: int) -> bool {
    is_argument(nodes, j) && last_candidate(nodes, argument_key(nodes, j), j) == Some(c)
}

/// The last argument named `a` among the first `n` nodes that counts for
/// `c`.
pub open spec fn argument_at(nodes: Seq<Node>, c: int, a: Seq<char>, n: int) -> Option<int>
    decreases n,
{
    if n <= 0 {
        None
    } else if argument_of(nodes, n - 1, c) && nodes[n - 1].name.unwrap()@ == a {
        Some(n - 1)
    } else {
        argument_at(nodes, c, a, n - 1)
    }
}

/// The field `f` of the object or interface type named `t`.
pub open spec fn container_field(s: Schema, t: Seq<char>, f: Seq<char>) -> Option<FieldDef> {
    match type_index(s.types@, t) {
        Some(k) => if s.types@[k].kind == TypeKind::Object || s.types@[k].kind == TypeKind::Interface {
            match field_index(s.types@[k].fields@, f) {
                Some(j) => Some(s.types@[k].fields@[j]),
                None => None,
            }
        } else {
            None
        },
        None => None,
    }
}

/// The first argument named `a` in `args`.
pub open spec fn arg_index(args: Seq<InputValueDef>, a: Seq<char>) -> Option<int>
    decreases args.len(),
{
    if args.len() == 0 {
        None
    } else {
        match arg_index(args.drop_last(), a) {
            Some(i) => Some(i),
            None => if args.last().name@ == a { Some(args.len() - 1) } else { None },
        }
    }
}

/// An argument type suits: a named type (nullable or not) that is `Int`
/// for `first` and `last`, a string or scalar type for `after` and
/// `before`.
pub open spec fn argument_allowed(s: Schema, ty: TypeRef, is_int: bool) -> bool {
    match ty {
        TypeRef::Named(n) => if is_int { n@ == "Int"@ } else { n@ == "String"@ || is_scalar_type(s, n@) },
        TypeRef::NonNullNamed(n) => if is_int { n@ == "Int"@ } else { n@ == "String"@ || is_scalar_type(s, n@) },
        _ => false,
    }
}

/// What an argument must return, in words.
pub open spec fn return_text(is_int: bool) -> Seq<char> {
    if is_int { "Int"@ } else { "String or Scalar"@ }
}

/// The findings for the argument `a` of the recorded field `c`, whose
/// schema definition is `fd`.
pub open spec fn argument_findings(nodes: Seq<Node>, s: Schema, c: int, fd: FieldDef, a: Seq<char>, is_int: bool) -> Seq<(Seq<char>, Span, Seq<(Seq<char>, Span, Seq<char>)>)> {
    let at = argument_at(nodes, c, a, nodes.len() as int);
    let valid = at is Some && (arg_index(fd.arguments@, a) matches Some(i) && argument_allowed(s, fd.arguments@[i].ty, is_int));
    if valid {
        Seq::empty()
    } else if at is Some {
        seq![plain_diag("Argument `"@ + a + "` must return "@ + return_text(is_int) + "."@, nodes[at.unwrap()].span.unwrap())]
    } else {
        seq![plain_diag(
            "Field `"@ + nodes[c].name.unwrap()@ + "` must contain an argument `"@ + a + "`, that return "@ + return_text(is_int) + "."@,
            nodes[c].span.unwrap(),
        )]
    }
}

/// The findings for node `c`, a recorded field whose schema type's name
/// matches the Connection pattern: no complete pair of arguments, or each
/// argument of a checked pair that is missing or ill-typed.
pub open spec fn arguments_findings_at(nodes: Seq<Node>, s: Schema, relay: RelayOpts, o: ArgumentOptions, c: int) -> Seq<(Seq<char>, Span, Seq<(Seq<char>, Span, Seq<char>)>)> {
    if is_candidate(nodes, c) {
        match container_field(s, candidate_key(nodes, c).0, candidate_key(nodes, c).1) {
            Some(fd) => if regex_matches(relay.connection_pattern@, base_name(fd.ty)) {
                let has = |a: Seq<char>| argument_at(nodes, c, a, nodes.len() as int) is Some;
                let forward = has("first"@) && has("after"@);
                let backward = has("last"@) && has("before"@);
                if !forward && !backward {
                    seq![plain_diag(
                        "A field that returns a Connection type must include forward pagination arguments (`first` and `after`), backward pagination arguments (`last` and `before`), or both."@,
                        nodes[c].span.unwrap(),
                    )]
                } else {
                    (if o.include_both || has("first"@) || has("after"@) {
                        argument_findings(nodes, s, c, fd, "first"@, true) + argument_findings(nodes, s, c, fd, "after"@, false)
                    } else {
                        Seq::empty()
                    }) + (if o.include_both || has("last"@) || has("before"@) {
                        argument_findings(nodes, s, c, fd, "last"@, true) + argument_findings(nodes, s, c, fd, "before"@, false)
                    } else {
                        Seq::empty()
                    })
                }
            } else {
                Seq::empty()
            },
            None => Seq::empty(),
        }
    } else {
        Seq::empty()
    }
}

/// The findings for the first `n` nodes, in order.
pub open spec fn arguments_findings(nodes: Seq<Node>, s: Schema, relay: RelayOpts, o: ArgumentOptions, n: int) -> Seq<(Seq<char>, Span, Seq<(Seq<char>, Span, Seq<char>)>)>
    decreases n,
{
    if n <= 0 {
        Seq::empty()
    } else {
        arguments_findings(nodes, s, relay, o, n - 1) + arguments_findings_at(nodes, s, relay, o, n - 1)
    }
}

fn exec_container_name(tree: &Tree, ck: &Vec<SyntaxKind>, j: usize) -> (r: Option<Vec<char>>)
    requires tree.wf(), ck@ == container_kinds(),
    ensures
        match r {
            Some(n) => container_name(tree.nodes@, j as int) == Some(n@),
            None => container_name(tree.nodes@, j as int) is None,
        },
{
    match find_up_exec(tree, j, ck) {
        Some(o) => match &tree.nodes[o].name {
            Some(n) => Some(chars_of(n.as_str())),
            None => None,
        },
        None => None,
    }
}

fn exec_is_candidate(tree: &Tree, ck: &Vec<SyntaxKind>, c: usize) -> (r: Option<Vec<char>>)
    requires tree.wf(), ck@ == container_kinds(), c < tree.nodes@.len(),
    ensures
        match r {
            Some(t) => is_candidate(tree.nodes@, c as int) && candidate_key(tree.nodes@, c as int).0 == t@,
            None => !is_candidate(tree.nodes@, c as int),
        },
{
    let n = &tree.nodes[c];
    if n.kind != SyntaxKind::FIELD_DEFINITION || n.name.is_none() || n.span.is_none() {
        return None;
    }
    exec_container_name(tree, ck, c)
}

fn exec_last_candidate(tree: &Tree, ck: &Vec<SyntaxKind>, t: &Vec<char>, f: &Vec<char>, before: usize) -> (r: Option<usize>)
    requires tree.wf(), ck@ == container_kinds(), before <= tree.nodes@.len(),
    ensures
        match r {
            Some(c) => last_candidate(tree.nodes@, (t@, f@), before as int) == Some(c as int),
            None => last_candidate(tree.nodes@, (t@, f@), before as int) is None,
        },
{
    let mut k = before;
    while k > 0
        invariant
            tree.wf(),
            ck@ == container_kinds(),
            k <= before <= tree.nodes@.len(),
            last_candidate(tree.nodes@, (t@, f@), before as int) == last_candidate(tree.nodes@, (t@, f@), k as int),
        decreases k,
    {
        let c = k - 1;
        match exec_is_candidate(tree, ck, c) {
            Some(ct) => {
                let fname = chars_of(tree.nodes[c].name.as_ref().unwrap().as_str());
                if chars_eq(&ct, t) && chars_eq(&fname, f) {
                    return Some(c);
                }
            },
            None => {},
        }
        k = c;
    }
    None
}

/// Whether node `j` is an argument counting for the recorded field `c`.
fn exec_argument_of(tree: &Tree, ck: &Vec<SyntaxKind>, fk: &Vec<SyntaxKind>, j: usize, c: usize) -> (r: bool)
    requires
        tree.wf(),
        ck@ == container_kinds(),
        fk@ == seq![SyntaxKind::FIELD_DEFINITION],
        j < tree.nodes@.len(),
    ensures r == argument_of(tree.nodes@, j as int, c as int),
{
    let n = &tree.nodes[j];
    if n.kind != SyntaxKind::INPUT_VALUE_DEFINITION || n.name.is_none() || n.span.is_none() {
        return false;
    }
    let p = match n.parent { Some(p) => p, None => return false };
    if tree.nodes[p].kind != SyntaxKind::ARGUMENTS_DEFINITION {
        return false;
    }
    let q = match tree.nodes[p].parent { Some(q) => q, None => return false };
    if tree.nodes[q].kind != SyntaxKind::FIELD_DEFINITION {
        return false;
    }
    let f = match find_up_exec(tree, j, fk) { Some(f) => f, None => return false };
    let fname = match &tree.nodes[f].name { Some(x) => chars_of(x.as_str()), None => return false };
    let t = match exec_container_name(tree, ck, f) { Some(t) => t, None => return false };
    match exec_last_candidate(tree, ck, &t, &fname, j) {
        Some(k) => k == c,
        None => false,
    }
}

fn exec_argument_at(tree: &Tree, ck: &Vec<SyntaxKind>, fk: &Vec<SyntaxKind>, c: usize, a: &str) -> (r: Option<usize>)
    requires
        tree.wf(),
        ck@ == container_kinds(),
        fk@ == seq![SyntaxKind::FIELD_DEFINITION],
    ensures
        match r {
            Some(j) => argument_at(tree.nodes@, c as int, a@, tree.nodes@.len() as int) == Some(j as int) && j < tree.nodes@.len()
                && tree.nodes@[j as int].span is Some,
            None => argument_at(tree.nodes@, c as int, a@, tree.nodes@.len() as int) is None,
        },
{
    let ac = chars_of(a);
    let mut found: Option<usize> = None;
    for j in 0..tree.nodes.len()
        invariant
            tree.wf(),
            ck@ == container_kinds(),
            fk@ == seq![SyntaxKind::FIELD_DEFINITION],
            ac@ == a@,
            match found {
                Some(q) => argument_at(tree.nodes@, c as int, a@, j as int) == Some(q as int) && q < tree.nodes@.len()
                    && tree.nodes@[q as int].span is Some,
                None => argument_at(tree.nodes@, c as int, a@, j as int) is None,
            },
    {
        if exec_argument_of(tree, ck, fk, j, c) {
            if chars_eq(&chars_of(tree.nodes[j].name.as_ref().unwrap().as_str()), &ac) {
                found = Some(j);
            }
        }
    }
    found
}

fn exec_container_field<'a>(s: &'a Schema, t: &Vec<char>, f: &Vec<char>) -> (r: Option<&'a FieldDef>)
    ensures
        match r {
            Some(fd) => container_field(*s, t@, f@) == Some(*fd),
            None => container_field(*s, t@, f@) is None,
        },
{
    let ts = crate::text::string_of(t);
    let fs = crate::text::string_of(f);
    match find_type(&s.types, ts.as_str()) {
        Some(k) => {
            if s.types[k].kind == TypeKind::Object || s.types[k].kind == TypeKind::Interface {
                match find_field(&s.types[k].fields, fs.as_str()) {
                    Some(j) => Some(&s.types[k].fields[j]),
                    None => None,
                }
            } else {
                None
            }
        },
        None => None,
    }
}

proof fn lemma_arg_index(args: Seq<InputValueDef>, a: Seq<char>)
    ensures
        match arg_index(args, a) {
            Some(i) => 0 <= i < args.len() && args[i].name@ == a
                && forall|j: int| 0 <= j < i ==> (#[trigger] args[j]).name@ != a,
            None => forall|j: int| 0 <= j < args.len() ==> (#[trigger] args[j]).name@ != a,
        },
    decreases args.len(),
{
    if args.len() > 0 {
        lemma_arg_index(args.drop_last(), a);
        assert forall|j: int| 0 <= j < args.len() - 1 implies #[trigger] args[j] == args.drop_last()[j] by {}
    }
}

fn exec_arg_index(args: &Vec<InputValueDef>, a: &str) -> (r: Option<usize>)
    ensures
        match r {
            Some(i) => arg_index(args@, a@) == Some(i as int) && i < args@.len(),
            None => arg_index(args@, a@) is None,
        },
{
    proof { lemma_arg_index(args@, a@); }
    let ac = chars_of(a);
    for i in 0..args.len()
        invariant
            ac@ == a@,
            forall|j: int| 0 <= j < i ==> (#[trigger] args@[j]).name@ != a@,
    {
        if chars_eq(&chars_of(args[i].name.as_str()), &ac) {
            proof {
                lemma_arg_index(args@, a@);
                if let Some(k) = arg_index(args@, a@) {
                    if k > i { assert(args@[i as int].name@ != a@); }
                } else {
                    assert(args@[i as int].name@ != a@);
                }
            }
            return Some(i);
        }
    }
    proof {
        if let Some(k) = arg_index(args@, a@) {
            assert(args@[k].name@ != a@);
        }
    }
    None
}

/// The name a type names directly, nullable or not; `None` for a list.
pub fn named_type(ty: &TypeRef) -> (r: Option<&str>)
    ensures
        match ty {
            TypeRef::Named(n) => r is Some && r.unwrap()@ == n@,
            TypeRef::NonNullNamed(n) => r is Some && r.unwrap()@ == n@,
            _ => r is None,
        },
{
    match ty {
        TypeRef::Named(n) => Some(n.as_str()),
        TypeRef::NonNullNamed(n) => Some(n.as_str()),
        _ => None,
    }
}

fn exec_argument_allowed(s: &Schema, ty: &TypeRef, is_int: bool) -> (r: bool)
    ensures r == argument_allowed(*s, *ty, is_int),
{
    let n = match named_type(ty) {
        Some(n) => n,
        None => return false,
    };
    if is_int {
        chars_eq(&chars_of(n), &chars_of("Int"))
    } else {
        chars_eq(&chars_of(n), &chars_of("String")) || crate::rules::relay_edge_types::exec_is_scalar_type(s, n)
    }
}

fn exec_argument_findings(tree: &Tree, s: &Schema, ck: &Vec<SyntaxKind>, fk: &Vec<SyntaxKind>, c: usize, fd: &FieldDef, a: &str, is_int: bool, out: &mut Vec<Diagnostic>)
    requires
        tree.wf(),
        ck@ == container_kinds(),
        fk@ == seq![SyntaxKind::FIELD_DEFINITION],
        is_candidate(tree.nodes@, c as int),
    ensures diag_views(final(out)@) == diag_views(old(out)@) + argument_findings(tree.nodes@, *s, c as int, *fd, a@, is_int),
{
    let ghost before = diag_views(out@);
    let text = if is_int { "Int" } else { "String or Scalar" };
    let at = exec_argument_at(tree, ck, fk, c, a);
    let valid = at.is_some() && match exec_arg_index(&fd.arguments, a) {
        Some(i) => exec_argument_allowed(s, &fd.arguments[i].ty, is_int),
        None => false,
    };
    if !valid {
        let mut m: Vec<char> = Vec::new();
        match at {
            Some(j) => {
                push_str(&mut m, "Argument `");
                push_str(&mut m, a);
                push_str(&mut m, "` must return ");
                push_str(&mut m, text);
                push_str(&mut m, ".");
                push_diag(out, &m, tree.nodes[j].span.unwrap());
            },
            None => {
                push_str(&mut m, "Field `");
                push_str(&mut m, tree.nodes[c].name.as_ref().unwrap().as_str());
                push_str(&mut m, "` must contain an argument `");
                push_str(&mut m, a);
                push_str(&mut m, "`, that return ");
                push_str(&mut m, text);
                push_str(&mut m, ".");
                push_diag(out, &m, tree.nodes[c].span.unwrap());
            },
        }
    }
    proof { assert(diag_views(out@) =~= before + argument_findings(tree.nodes@, *s, c as int, *fd, a@, is_int)); }
}

fn push_candidate_findings(out: &mut Vec<Diagnostic>, tree: &Tree, s: &Schema, relay: &RelayOpts, o: &ArgumentOptions, ck: &Vec<SyntaxKind>, fk: &Vec<SyntaxKind>, c: usize)
    requires
        tree.wf(),
        c < tree.nodes@.len(),
        ck@ == container_kinds(),
        fk@ == seq![SyntaxKind::FIELD_DEFINITION],
    ensures diag_views(final(out)@) == diag_views(old(out)@) + arguments_findings_at(tree.nodes@, *s, *relay, *o, c as int),
{
    let ghost before = diag_views(out@);
    match exec_is_candidate(tree, ck, c) {
        Some(t) => {
            let fname = chars_of(tree.nodes[c].name.as_ref().unwrap().as_str());
            match exec_container_field(s, &t, &fname) {
                Some(fd) => {
                    if relay.connection_pattern.is_match(fd.ty.base()) {
                        let first = exec_argument_at(tree, ck, fk, c, "first").is_some();
                        let after = exec_argument_at(tree, ck, fk, c, "after").is_some();
                        let last = exec_argument_at(tree, ck, fk, c, "last").is_some();
                        let before_arg = exec_argument_at(tree, ck, fk, c, "before").is_some();
                        if !(first && after) && !(last && before_arg) {
                            push_diag(out, &chars_of("A field that returns a Connection type must include forward pagination arguments (`first` and `after`), backward pagination arguments (`last` and `before`), or both."), tree.nodes[c].span.unwrap());
                        } else {
                            if o.include_both || first || after {
                                exec_argument_findings(tree, s, ck, fk, c, fd, "first", true, out);
                                exec_argument_findings(tree, s, ck, fk, c, fd, "after", false, out);
                            }
                            if o.include_both || last || before_arg {
                                exec_argument_findings(tree, s, ck, fk, c, fd, "last", true, out);
                                exec_argument_findings(tree, s, ck, fk, c, fd, "before", false, out);
                            }
                        }
                    }
                },
                None => {},
            }
            proof { assert(diag_views(out@) =~= before + arguments_findings_at(tree.nodes@, *s, *relay, *o, c as int)); }
        },
        None => {
            proof { assert(diag_views(out@) =~= before + arguments_findings_at(tree.nodes@, *s, *relay, *o, c as int)); }
        },
    }
}

impl RelayArguments {
    /// Reports the fields of the document `tree` whose type in the schema
    /// `schema` is named like a Connection (by `relay`) and that lack a
    /// complete pair of pagination arguments, or whose checked pagination
    /// arguments are missing or ill-typed. The rule needs a schema: without
    /// one it reports nothing.
    pub fn check(&self, tree: &Tree, schema: Option<&Schema>, relay: &RelayOpts, o: &ArgumentOptions) -> (r: Vec<Diagnostic>)
        requires tree.wf(),
        ensures
            schema is None ==> r@.len() == 0,
            schema is Some ==> diag_views(r@) == arguments_findings(tree.nodes@, *schema.unwrap(), *relay, *o, tree.nodes@.len() as int),
    {
        let mut out: Vec<Diagnostic> = Vec::new();
        let s = match schema {
            Some(s) => s,
            None => return out,
        };
        let ck = vec![
            SyntaxKind::OBJECT_TYPE_DEFINITION,
            SyntaxKind::OBJECT_TYPE_EXTENSION,
            SyntaxKind::INTERFACE_TYPE_DEFINITION,
            SyntaxKind::INTERFACE_TYPE_EXTENSION,
        ];
        let fk = vec![SyntaxKind::FIELD_DEFINITION];
        proof {
            assert(ck@ == container_kinds());
            assert(fk@ == seq![SyntaxKind::FIELD_DEFINITION]);
        }
        let ghost nodes = tree.nodes@;
        for c in 0..tree.nodes.len()
            invariant
                tree.wf(),
                nodes == tree.nodes@,
                ck@ == container_kinds(),
                fk@ == seq![SyntaxKind::FIELD_DEFINITION],
                diag_views(out@) == arguments_findings(nodes, *s, *relay, *o, c as int),
        {
            push_candidate_findings(&mut out, tree, s, relay, o, &ck, &fk, c);
        }
        out
    }
}

} // verus!
