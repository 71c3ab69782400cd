//! `no-deprecated`: operations use no field, argument, enum value or input
//! field that the schema marks `@deprecated`.
use vstd::prelude::*;
use crate::model::{Diagnostic, Node, Span, SyntaxKind, Tree, diag_views, plain_diag, push_diag};
use crate::rules::no_root_type::{RootKind, root_type_name};
use crate::schema::{FieldDef, InputValueDef, EnumValueDef, Schema, TypeKind, base_name, type_index, find_type, field_index, find_field};
use crate::text::{chars_of, chars_eq, push_all, push_str};

verus! {

/// The `no-deprecated` rule.
pub struct NoDeprecated;

/// The reason given for a deprecation: its own, else "No longer
/// supported".
pub open spec fn reason_text(d: Option<String>) -> Seq<char> {
    match d {
        Some(x) => x@,
        None => "No longer supported"@,
    }
}

/// The message for the deprecated `label` named `name`.
pub open spec fn deprecated_message(label: Seq<char>, name: Seq<char>, reason: Seq<char>) -> Seq<char> {
    if reason.len() == 0 {
        label + " \""@ + name + "\" is marked as deprecated in your GraphQL schema"@
    } else {
        label + " \""@ + name + "\" is marked as deprecated in your GraphQL schema"@ + " (reason: "@ + reason + ")"@
    }
}

/// Walking up from node `p` (itself included), the name of the topmost
/// named field, or `acc` if there is none.
pub open spec fn top_field_from(nodes: Seq<Node>, p: int, acc: Option<Seq<char>>) -> Option<Seq<char>>
    decreases p,
{
    if p < 0 || p >= nodes.len() {
        acc
    } else {
        let acc2 = if nodes[p].kind == SyntaxKind::FIELD && nodes[p].name is Some { Some(nodes[p].name.unwrap()@) } else { acc };
        match nodes[p].parent {
            Some(q) => if q < p { top_field_from(nodes, q as int, acc2) } else { acc2 },
            None => acc2,
        }
    }
}

/// Walking up from node `p` (itself included), the name of the nearest
/// named argument.
pub open spec fn nearest_argument(nodes: Seq<Node>, p: int) -> Option<Seq<char>>
    decreases p,
{
    if p < 0 || p >= nodes.len() {
        None
    } else if nodes[p].kind == SyntaxKind::ARGUMENT && nodes[p].name is Some {
        Some(nodes[p].name.unwrap()@)
    } else {
        match nodes[p].parent {
            Some(q) => if q < p { nearest_argument(nodes, q as int) } else { None },
            None => None,
        }
    }
}

/// The field `f` of the object or interface type named `root`.
pub open spec fn root_field(s: Schema, root: Seq<char>, f: Seq<char>) -> Option<FieldDef> {
    match type_index(s.types@, root) {
        Some(k) => if s.types@[k].kind == TypeKind::Object || s.types@[k].kind == TypeKind::Interface {
            match field_index(s.types@[k].fields@, f) {
                Some(j) => Some(s.types@[k].fields@[j]),
                None => None,
            }
        } else {
            None
        },
        None => None,
    }
}

/// The field `f` of the first of the root types (query, mutation,
/// subscription) that has one.
pub open spec fn find_root_field(s: Schema, f: Seq<char>) -> Option<FieldDef> {
    match root_field(s, root_type_name(RootKind::Query, Some(s)), f) {
        Some(d) => Some(d),
        None => match root_field(s, root_type_name(RootKind::Mutation, Some(s)), f) {
            Some(d) => Some(d),
            None => root_field(s, root_type_name(RootKind::Subscription, Some(s)), f),
        },
    }
}

/// The first argument of `args` named `a`.
pub open spec fn argument_named(args: Seq<InputValueDef>, a: Seq<char>) -> Option<InputValueDef>
    decreases args.len(),
{
    if args.len() == 0 {
        None
    } else {
        match argument_named(args.drop_last(), a) {
            Some(x) => Some(x),
            None => if args.last().name@ == a { Some(args.last()) } else { None },
        }
    }
}

/// The first value of `vals` named `v`.
pub open spec fn value_named(vals: Seq<EnumValueDef>, v: Seq<char>) -> Option<EnumValueDef>
    decreases vals.len(),
{
    if vals.len() == 0 {
        None
    } else {
        match value_named(vals.drop_last(), v) {
            Some(x) => Some(x),
            None => if vals.last().name@ == v { Some(vals.last()) } else { None },
        }
    }
}

/// The deprecation of what node `j` uses, with the label of its kind:
/// a root field, an argument of the root field it sits under, or a value
/// or input field of the type of the argument it sits in.
pub open spec fn used_deprecation(nodes: Seq<Node>, s: Schema, j: int) -> Option<(Seq<char>, Option<Option<String>>)> {
    let n = nodes[j];
    let name = n.name.unwrap()@;
    let up = match n.parent { Some(p) => if p < j { p as int } else { -1 }, None => -1 };
    let top = top_field_from(nodes, up, None);
    let arg = nearest_argument(nodes, up);
    if n.kind == SyntaxKind::FIELD {
        match find_root_field(s, name) {
            Some(fd) => Some(("Field"@, fd.deprecated)),
            None => None,
        }
    } else if n.kind == SyntaxKind::ARGUMENT {
        match top {
            Some(t) => match find_root_field(s, t) {
                Some(fd) => match argument_named(fd.arguments@, name) {
                    Some(a) => Some(("Argument"@, a.deprecated)),
                    None => None,
                },
                None => None,
            },
            None => None,
        }
    } else if n.kind == SyntaxKind::ENUM_VALUE || n.kind == SyntaxKind::OBJECT_FIELD {
        match (top, arg) {
            (Some(t), Some(an)) => match find_root_field(s, t) {
                Some(fd) => match argument_named(fd.arguments@, an) {
                    Some(a) => match type_index(s.types@, base_name(a.ty)) {
                        Some(k) => if n.kind == SyntaxKind::ENUM_VALUE {
                            if s.types@[k].kind == TypeKind::Enum {
                                match value_named(s.types@[k].values@, name) {
                                    Some(v) => Some(("Enum"@, v.deprecated)),
                                    None => None,
                                }
                            } else {
                                None
                            }
                        } else {
                            if s.types@[k].kind == TypeKind::InputObject {
                                match field_index(s.types@[k].fields@, name) {
                                    Some(i) => Some(("Object field"@, s.types@[k].fields@[i].deprecated)),
                                    None => None,
                                }
                            } else {
                                None
                            }
                        },
                        None => None,
                    },
                    None => None,
                },
                None => None,
            },
            _ => None,
        }
    } else {
        None
    }
}

/// The finding for node `j`: a named field, argument, enum value or input
/// field with a span whose schema definition is deprecated.
pub open spec fn deprecated_finding(nodes: Seq<Node>, s: Schema, j: int) -> Option<(Seq<char>, Span, Seq<(Seq<char>, Span, Seq<char>)>)> {
    let n = nodes[j];
    if n.name is Some && n.span is Some {
        match used_deprecation(nodes, s, j) {
            Some((label, Some(reason))) => Some(plain_diag(deprecated_message(label, n.name.unwrap()@, reason_text(reason)), n.span.unwrap())),
            _ => None,
        }
    } else {
        None
    }
}

/// The findings among the first `n` nodes, in order.
pub open spec fn deprecated_findings(nodes: Seq<Node>, s: Schema, n: int) -> Seq<(Seq<char>, Span, Seq<(Seq<char>, Span, Seq<char>)>)>
    decreases n,
{
    if n <= 0 {
        Seq::empty()
    } else {
        match deprecated_finding(nodes, s, n - 1) {
            Some(d) => deprecated_findings(nodes, s, n - 1).push(d),
            None => deprecated_findings(nodes, s, n - 1),
        }
    }
}

fn exec_top_field(tree: &Tree, start: Option<usize>) -> (r: Option<Vec<char>>)
    requires tree.wf(),
    ensures
        match r {
            Some(x) => top_field_from(tree.nodes@, (match start { Some(p) => p as int, None => -1 }), None) == Some(x@),
            None => top_field_from(tree.nodes@, (match start { Some(p) => p as int, None => -1 }), None) is None,
        },
{
    let mut acc: Option<Vec<char>> = None;
    let mut cur = match start {
        Some(p) => p,
        None => return None,
    };
    if cur >= tree.nodes.len() {
        return None;
    }
    loop
        invariant
            tree.wf(),
            cur < tree.nodes@.len(),
            start is Some,
            top_field_from(tree.nodes@, start.unwrap() as int, None) == top_field_from(tree.nodes@, cur as int, match acc { Some(x) => Some(x@), None => None }),
        decreases cur,
    {
        let n = &tree.nodes[cur];
        if n.kind == SyntaxKind::FIELD && n.name.is_some() {
            acc = Some(chars_of(n.name.as_ref().unwrap().as_str()));
        }
        match n.parent {
            Some(q) => {
                proof { assert(tree.nodes@[cur as int].parent matches Some(x) && x < cur); }
                cur = q;
            },
            None => return acc,
        }
    }
}

fn exec_nearest_argument(tree: &Tree, start: Option<usize>) -> (r: Option<Vec<char>>)
    requires tree.wf(),
    ensures
        match r {
            Some(x) => nearest_argument(tree.nodes@, (match start { Some(p) => p as int, None => -1 })) == Some(x@),
            None => nearest_argument(tree.nodes@, (match start { Some(p) => p as int, None => -1 })) is None,
        },
{
    let mut cur = match start {
        Some(p) => p,
        None => return None,
    };
    if cur >= tree.nodes.len() {
        return None;
    }
    loop
        invariant
            tree.wf(),
            cur < tree.nodes@.len(),
            start is Some,
            nearest_argument(tree.nodes@, start.unwrap() as int) == nearest_argument(tree.nodes@, cur as int),
        decreases cur,
    {
        let n = &tree.nodes[cur];
        if n.kind == SyntaxKind::ARGUMENT && n.name.is_some() {
            return Some(chars_of(n.name.as_ref().unwrap().as_str()));
        }
        match n.parent {
            Some(q) => {
                proof { assert(tree.nodes@[cur as int].parent matches Some(x) && x < cur); }
                cur = q;
            },
            None => return None,
        }
    }
}

fn exec_root_field<'a>(s: &'a Schema, root: &str, f: &str) -> (r: Option<&'a FieldDef>)
    ensures
        match r {
            Some(d) => root_field(*s, root@, f@) == Some(*d),
            None => root_field(*s, root@, f@) is None,
        },
{
    match find_type(&s.types, root) {
        Some(k) => {
            if s.types[k].kind == TypeKind::Object || s.types[k].kind == TypeKind::Interface {
                match find_field(&s.types[k].fields, f) {
                    Some(j) => Some(&s.types[k].fields[j]),
                    None => None,
                }
            } else {
                None
            }
        },
        None => None,
    }
}

fn exec_find_root_field<'a>(s: &'a Schema, f: &str) -> (r: Option<&'a FieldDef>)
    ensures
        match r {
            Some(d) => find_root_field(*s, f@) == Some(*d),
            None => find_root_field(*s, f@) is None,
        },
{
    let q = RootKind::Query.resolved_name(Some(s));
    match exec_root_field(s, q.as_str(), f) {
        Some(d) => return Some(d),
        None => {},
    }
    let m = RootKind::Mutation.resolved_name(Some(s));
    match exec_root_field(s, m.as_str(), f) {
        Some(d) => return Some(d),
        None => {},
    }
    let sub = RootKind::Subscription.resolved_name(Some(s));
    exec_root_field(s, sub.as_str(), f)
}

proof fn lemma_argument_named(args: Seq<InputValueDef>, a: Seq<char>)
    ensures
        match argument_named(args, a) {
            Some(x) => exists|i: int| 0 <= i < args.len() && args[i] == x && args[i].name@ == a
                && forall|j: int| 0 <= j < i ==> (#[trigger] args[j]).name@ != a,
            None => forall|j: int| 0 <= j < args.len() ==> (#[trigger] args[j]).name@ != a,
        },
    decreases args.len(),
{
    if args.len() > 0 {
        let d = args.drop_last();
        lemma_argument_named(d, a);
        assert forall|j: int| 0 <= j < args.len() - 1 implies #[trigger] args[j] == d[j] by {}
        if let Some(x) = argument_named(d, a) {
            let i = choose|i: int| 0 <= i < d.len() && d[i] == x && d[i].name@ == a
                && forall|j: int| 0 <= j < i ==> (#[trigger] d[j]).name@ != a;
            assert(args[i] == d[i]);
            assert forall|j: int| 0 <= j < i implies (#[trigger] args[j]).name@ != a by { assert(args[j] == d[j]); }
        } else if args.last().name@ == a {
            assert(args[args.len() - 1] == args.last());
        }
    }
}

fn exec_argument_named<'a>(args: &'a Vec<InputValueDef>, a: &Vec<char>) -> (r: Option<&'a InputValueDef>)
    ensures
        match r {
            Some(x) => argument_named(args@, a@) == Some(*x),
            None => argument_named(args@, a@) is None,
        },
{
    proof { lemma_argument_named(args@, a@); }
    for i in 0..args.len()
        invariant forall|j: int| 0 <= j < i ==> (#[trigger] args@[j]).name@ != a@,
    {
        if chars_eq(&chars_of(args[i].name.as_str()), a) {
            proof {
                lemma_argument_named(args@, a@);
                match argument_named(args@, a@) {
                    Some(x) => {
                        let k = choose|k: int| 0 <= k < args@.len() && args@[k] == x && args@[k].name@ == a@
                            && forall|j: int| 0 <= j < k ==> (#[trigger] args@[j]).name@ != a@;
                        if k < i { assert(args@[k].name@ != a@); }
                        if k > i { assert(args@[i as int].name@ != a@); }
                    },
                    None => { assert(args@[i as int].name@ != a@); },
                }
            }
            return Some(&args[i]);
        }
    }
    proof {
        if let Some(x) = argument_named(args@, a@) {
            let k = choose|k: int| 0 <= k < args@.len() && args@[k] == x && args@[k].name@ == a@
                && forall|j: int| 0 <= j < k ==> (#[trigger] args@[j]).name@ != a@;
            assert(args@[k].name@ != a@);
        }
    }
    None
}

proof fn lemma_value_named(vals: Seq<EnumValueDef>, v: Seq<char>)
    ensures
        match value_named(vals, v) {
            Some(x) => exists|i: int| 0 <= i < vals.len() && vals[i] == x && vals[i].name@ == v
                && forall|j: int| 0 <= j < i ==> (#[trigger] vals[j]).name@ != v,
            None => forall|j: int| 0 <= j < vals.len() ==> (#[trigger] vals[j]).name@ != v,
        },
    decreases vals.len(),
{
    if vals.len() > 0 {
        let d = vals.drop_last();
        lemma_value_named(d, v);
        assert forall|j: int| 0 <= j < vals.len() - 1 implies #[trigger] vals[j] == d[j] by {}
        if let Some(x) = value_named(d, v) {
            let i = choose|i: int| 0 <= i < d.len() && d[i] == x && d[i].name@ == v
                && forall|j: int| 0 <= j < i ==> (#[trigger] d[j]).name@ != v;
            assert(vals[i] == d[i]);
            assert forall|j: int| 0 <= j < i implies (#[trigger] vals[j]).name@ != v by { assert(vals[j] == d[j]); }
        } else if vals.last().name@ == v {
            assert(vals[vals.len() - 1] == vals.last());
        }
    }
}

fn exec_value_named<'a>(vals: &'a Vec<EnumValueDef>, v: &Vec<char>) -> (r: Option<&'a EnumValueDef>)
    ensures
        match r {
            Some(x) => value_named(vals@, v@) == Some(*x),
            None => value_named(vals@, v@) is None,
        },
{
    proof { lemma_value_named(vals@, v@); }
    for i in 0..vals.len()
        invariant forall|j: int| 0 <= j < i ==> (#[trigger] vals@[j]).name@ != v@,
    {
        if chars_eq(&chars_of(vals[i].name.as_str()), v) {
            proof {
                lemma_value_named(vals@, v@);
                match value_named(vals@, v@) {
                    Some(x) => {
                        let k = choose|k: int| 0 <= k < vals@.len() && vals@[k] == x && vals@[k].name@ == v@
                            && forall|j: int| 0 <= j < k ==> (#[trigger] vals@[j]).name@ != v@;
                        if k < i { assert(vals@[k].name@ != v@); }
                        if k > i { assert(vals@[i as int].name@ != v@); }
                    },
                    None => { assert(vals@[i as int].name@ != v@); },
                }
            }
            return Some(&vals[i]);
        }
    }
    proof {
        if let Some(x) = value_named(vals@, v@) {
            let k = choose|k: int| 0 <= k < vals@.len() && vals@[k] == x && vals@[k].name@ == v@
                && forall|j: int| 0 <= j < k ==> (#[trigger] vals@[j]).name@ != v@;
            assert(vals@[k].name@ != v@);
        }
    }
    None
}

fn exec_used_deprecation<'a>(tree: &Tree, s: &'a Schema, j: usize) -> (r: Option<(&'static str, &'a Option<Option<String>>)>)
    requires tree.wf(), j < tree.nodes@.len(), tree.nodes@[j as int].name is Some,
    ensures
        match r {
            Some(x) => used_deprecation(tree.nodes@, *s, j as int) == Some((x.0@, *x.1)),
            None => used_deprecation(tree.nodes@, *s, j as int) is None,
        },
{
    let n = &tree.nodes[j];
    let name = n.name.as_ref().unwrap();
    if n.kind == SyntaxKind::FIELD {
        return match exec_find_root_field(s, name.as_str()) {
            Some(fd) => Some(("Field", &fd.deprecated)),
            None => None,
        };
    }
    if n.kind != SyntaxKind::ARGUMENT && n.kind != SyntaxKind::ENUM_VALUE && n.kind != SyntaxKind::OBJECT_FIELD {
        return None;
    }
    let up = match n.parent {
        Some(p) => Some(p),
        None => None,
    };
    proof {
        if let Some(p) = n.parent {
            assert(tree.nodes@[j as int].parent matches Some(x) && x < j);
        }
    }
    let top = match exec_top_field(tree, up) {
        Some(t) => t,
        None => return None,
    };
    let fd = match exec_find_root_field(s, crate::text::string_of(&top).as_str()) {
        Some(fd) => fd,
        None => return None,
    };
    let nc = chars_of(name.as_str());
    if n.kind == SyntaxKind::ARGUMENT {
        return match exec_argument_named(&fd.arguments, &nc) {
            Some(a) => Some(("Argument", &a.deprecated)),
            None => None,
        };
    }
    let an = match exec_nearest_argument(tree, up) {
        Some(an) => an,
        None => return None,
    };
    let a = match exec_argument_named(&fd.arguments, &an) {
        Some(a) => a,
        None => return None,
    };
    let k = match find_type(&s.types, a.ty.base()) {
        Some(k) => k,
        None => return None,
    };
    let t = &s.types[k];
    if n.kind == SyntaxKind::ENUM_VALUE {
        if t.kind == TypeKind::Enum {
            match exec_value_named(&t.values, &nc) {
                Some(v) => Some(("Enum", &v.deprecated)),
                None => None,
            }
        } else {
            None
        }
    } else {
        if t.kind == TypeKind::InputObject {
            match find_field(&t.fields, name.as_str()) {
                Some(i) => Some(("Object field", &t.fields[i].deprecated)),
                None => None,
            }
        } else {
            None
        }
    }
}

fn exec_deprecated_message(label: &str, name: &str, reason: &Option<String>) -> (m: Vec<char>)
    ensures m@ == deprecated_message(label@, name@, reason_text(*reason)),
{
    let rc = match reason {
        Some(x) => chars_of(x.as_str()),
        None => chars_of("No longer supported"),
    };
    let mut m: Vec<char> = Vec::new();
    push_str(&mut m, label);
    push_str(&mut m, " \"");
    push_str(&mut m, name);
    push_str(&mut m, "\" is marked as deprecated in your GraphQL schema");
    if rc.len() > 0 {
        push_str(&mut m, " (reason: ");
        push_all(&mut m, &rc);
        push_str(&mut m, ")");
        proof { assert(m@ =~= deprecated_message(label@, name@, reason_text(*reason))); }
    } else {
        proof { assert(m@ =~= deprecated_message(label@, name@, reason_text(*reason))); }
    }
    m
}

impl NoDeprecated {
    /// Reports each field, argument, enum value and input field used in the
    /// operations of the document `tree` whose definition the schema
    /// `schema` marks deprecated (looked up, as the rule does, through the
    /// root types' fields), with the deprecation's reason. The rule needs a
    /// schema: without one it reports nothing.
    pub fn check(&self, tree: &Tree, schema: Option<&Schema>) -> (r: Vec<Diagnostic>)
        requires tree.wf(),
        ensures
            schema is None ==> r@.len() == 0,
            schema is Some ==> diag_views(r@) == deprecated_findings(tree.nodes@, *schema.unwrap(), tree.nodes@.len() as int),
    {
        let mut out: Vec<Diagnostic> = Vec::new();
        let s = match schema {
            Some(s) => s,
            None => return out,
        };
        for j in 0..tree.nodes.len()
            invariant
                tree.wf(),
                diag_views(out@) == deprecated_findings(tree.nodes@, *s, j as int),
        {
            let n = &tree.nodes[j];
            match (&n.name, n.span) {
                (Some(name), Some(sp)) => {
                    match exec_used_deprecation(tree, s, j) {
                        Some((label, Some(reason))) => {
                            let m = exec_deprecated_message(label, name.as_str(), reason);
                            push_diag(&mut out, &m, sp);
                        },
                        _ => {},
                    }
                },
                _ => {},
            }
        }
        out
    }
}

} // verus!
