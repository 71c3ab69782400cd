//! `no-root-type`: the document defines none of the forbidden root types.
use vstd::prelude::*;
use crate::model::{Diagnostic, Node, Span, SyntaxKind, Tree, diag_views, plain_diag, push_diag};
use crate::schema::Schema;
use crate::text::{chars_of, chars_eq, push_str};

verus! {

/// The `no-root-type` rule.
pub struct NoRootType;

/// A root operation type.
#[derive(Debug, Clone, Copy, PartialEq, Eq, Structural)]
pub enum RootKind {
    Query,
    Mutation,
    Subscription,
}

/// The name a root type has when the schema names none.
pub open spec fn spec_default_name(k: RootKind) -> Seq<char> {
    match k {
        RootKind::Query => "Query"@,
        RootKind::Mutation => "Mutation"@,
        RootKind::Subscription => "Subscription"@,
    }
}

/// The name of the root type `k`: the schema's, else the default.
pub open spec fn root_type_name(k: RootKind, s: Option<Schema>) -> Seq<char> {
    let named = match s {
        Some(sc) => match k {
            RootKind::Query => sc.query,
            RootKind::Mutation => sc.mutation,
            RootKind::Subscription => sc.subscription,
        },
        None => None,
    };
    match named {
        Some(n) => n@,
        None => spec_default_name(k),
    }
}

impl RootKind {
    /// The name this root type has when the schema names none.
    pub fn default_name(&self) -> (r: String)
        ensures r@ == spec_default_name(*self),
    {
        let s = match self {
            RootKind::Query => "Query",
            RootKind::Mutation => "Mutation",
            RootKind::Subscription => "Subscription",
        };
        crate::text::string_of(&chars_of(s))
    }

    /// The name of this root type in `schema`.
    pub fn resolved_name(&self, schema: Option<&Schema>) -> (r: String)
        ensures r@ == root_type_name(*self, match schema { Some(s) => Some(*s), None => None }),
    {
        let named = match schema {
            Some(s) => match self {
                RootKind::Query => &s.query,
                RootKind::Mutation => &s.mutation,
                RootKind::Subscription => &s.subscription,
            },
            None => return self.default_name(),
        };
        match named {
            Some(n) => n.clone(),
            None => self.default_name(),
        }
    }
}

/// The root types forbidden by default: all three.
pub fn default_forbidden() -> (r: Vec<RootKind>)
    ensures r@ == seq![RootKind::Query, RootKind::Mutation, RootKind::Subscription],
{
    vec![RootKind::Query, RootKind::Mutation, RootKind::Subscription]
}

/// The first object type definition or extension (with a span) among the
/// first `n` nodes named `name`.
pub open spec fn first_object_named(nodes: Seq<Node>, name: Seq<char>, n: int) -> Option<int>
    decreases n,
{
    if n <= 0 {
        None
    } else {
        match first_object_named(nodes, name, n - 1) {
            Some(k) => Some(k),
            None => {
                let d = nodes[n - 1];
                if (d.kind == SyntaxKind::OBJECT_TYPE_DEFINITION || d.kind == SyntaxKind::OBJECT_TYPE_EXTENSION)
                    && d.span is Some && d.name is Some && d.name.unwrap()@ == name {
                    Some(n - 1)
                } else {
                    None
                }
            },
        }
    }
}

proof fn lemma_first_object(nodes: Seq<Node>, name: Seq<char>, n: int)
    ensures
        first_object_named(nodes, name, n) matches Some(k) ==> 0 <= k < n && nodes[k].span is Some
            && (nodes[k].kind == SyntaxKind::OBJECT_TYPE_DEFINITION || nodes[k].kind == SyntaxKind::OBJECT_TYPE_EXTENSION),
    decreases n,
{
    if n > 0 {
        lemma_first_object(nodes, name, n - 1);
    }
}

/// The findings for the first `m` forbidden kinds: each forbidden root type
/// the document defines, at its first definition.
pub open spec fn root_findings(nodes: Seq<Node>, forbidden: Seq<RootKind>, s: Option<Schema>, m: int) -> Seq<(Seq<char>, Span, Seq<(Seq<char>, Span, Seq<char>)>)>
    decreases m,
{
    if m <= 0 {
        Seq::empty()
    } else {
        let prev = root_findings(nodes, forbidden, s, m - 1);
        let name = root_type_name(forbidden[m - 1], s);
        match first_object_named(nodes, name, nodes.len() as int) {
            Some(k) => prev.push(plain_diag("Root type \""@ + name + "\" is forbidden"@, nodes[k].span.unwrap())),
            None => prev,
        }
    }
}

impl NoRootType {
    /// Reports, for each root type in `forbidden` (in order), the first
    /// object type of the document `tree` that defines it.
    pub fn check(&self, tree: &Tree, forbidden: &Vec<RootKind>, schema: Option<&Schema>) -> (r: Vec<Diagnostic>)
        ensures
            diag_views(r@) == root_findings(tree.nodes@, forbidden@, match schema { Some(s) => Some(*s), None => None },
                forbidden@.len() as int),
    {
        let ghost sch = match schema { Some(s) => Some(*s), None => None::<Schema> };
        let mut out: Vec<Diagnostic> = Vec::new();
        for m in 0..forbidden.len()
            invariant
                sch == (match schema { Some(s) => Some(*s), None => None::<Schema> }),
                diag_views(out@) == root_findings(tree.nodes@, forbidden@, sch, m as int),
        {
            let name = forbidden[m].resolved_name(schema);
            let nc = chars_of(name.as_str());
            let mut found: Option<usize> = None;
            for k in 0..tree.nodes.len()
                invariant
                    nc@ == root_type_name(forbidden@[m as int], sch),
                    found == (match first_object_named(tree.nodes@, nc@, k as int) { Some(x) => Some(x as usize), None => None }),
                    found matches Some(x) ==> x < k,
                    first_object_named(tree.nodes@, nc@, k as int) matches Some(x) ==> 0 <= x < k,
            {
                if found.is_none() {
                    let d = &tree.nodes[k];
                    if (d.kind == SyntaxKind::OBJECT_TYPE_DEFINITION || d.kind == SyntaxKind::OBJECT_TYPE_EXTENSION) && d.span.is_some() {
                        match &d.name {
                            Some(dn) => {
                                if chars_eq(&chars_of(dn.as_str()), &nc) {
                                    found = Some(k);
                                }
                            },
                            None => {},
                        }
                    }
                }
            }
            proof { lemma_first_object(tree.nodes@, nc@, tree.nodes@.len() as int); }
            match found {
                Some(k) => {
                    let mut msg: Vec<char> = Vec::new();
                    push_str(&mut msg, "Root type \"");
                    crate::text::push_all(&mut msg, &nc);
                    push_str(&mut msg, "\" is forbidden");
                    let sp = match tree.nodes[k].span { Some(s) => s, None => Span::new(0, 0) };
                    push_diag(&mut out, &msg, sp);
                },
                None => {},
            }
        }
        out
    }
}

} // verus!
