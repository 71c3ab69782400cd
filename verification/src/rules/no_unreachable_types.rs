//! `no-unreachable-types`: every type a document defines can be reached from
//! the schema's root types.
use vstd::prelude::*;
use crate::model::{Diagnostic, Node, Span, SyntaxKind, Tree, diag_views, plain_diag, push_diag};
use crate::reach::{reachable, reachable_types, names, contains_name, builtin_scalars};
use crate::schema::{Schema, type_index, find_type};
use crate::text::{chars_of, push_str, starts_with, exec_starts_with, has_text, string_of};
use crate::case::views;

verus! {

/// The `no-unreachable-types` rule.
pub struct NoUnreachableTypes;

/// The kinds of definitions the rule reports.
#[derive(Debug, Clone, Copy, PartialEq, Eq, Structural)]
pub enum DefKind {
    Scalar,
    Object,
    Interface,
    Union,
    Enum,
    InputObject,
    Directive,
}

/// The kind a definition node reports as, if any.
pub open spec fn spec_def_kind(k: SyntaxKind) -> Option<DefKind> {
    if k == SyntaxKind::SCALAR_TYPE_DEFINITION || k == SyntaxKind::SCALAR_TYPE_EXTENSION {
        Some(DefKind::Scalar)
    } else if k == SyntaxKind::OBJECT_TYPE_DEFINITION || k == SyntaxKind::OBJECT_TYPE_EXTENSION {
        Some(DefKind::Object)
    } else if k == SyntaxKind::INTERFACE_TYPE_DEFINITION || k == SyntaxKind::INTERFACE_TYPE_EXTENSION {
        Some(DefKind::Interface)
    } else if k == SyntaxKind::UNION_TYPE_DEFINITION || k == SyntaxKind::UNION_TYPE_EXTENSION {
        Some(DefKind::Union)
    } else if k == SyntaxKind::ENUM_TYPE_DEFINITION || k == SyntaxKind::ENUM_TYPE_EXTENSION {
        Some(DefKind::Enum)
    } else if k == SyntaxKind::INPUT_OBJECT_TYPE_DEFINITION || k == SyntaxKind::INPUT_OBJECT_TYPE_EXTENSION {
        Some(DefKind::InputObject)
    } else if k == SyntaxKind::DIRECTIVE_DEFINITION {
        Some(DefKind::Directive)
    } else {
        None
    }
}

/// The word that opens a message about a definition of kind `k`.
pub open spec fn spec_message_prefix(k: DefKind) -> Seq<char> {
    match k {
        DefKind::Scalar => "Scalar"@,
        DefKind::Object => "Object"@,
        DefKind::Interface => "Interface"@,
        DefKind::Union => "Union"@,
        DefKind::Enum => "Enum"@,
        DefKind::InputObject => "Input object"@,
        DefKind::Directive => "Directive"@,
    }
}

impl DefKind {
    /// The word that opens a message about a definition of this kind.
    pub fn message_prefix(&self) -> (r: &'static str)
        ensures r@ == spec_message_prefix(*self),
    {
        match self {
            DefKind::Scalar => "Scalar",
            DefKind::Object => "Object",
            DefKind::Interface => "Interface",
            DefKind::Union => "Union",
            DefKind::Enum => "Enum",
            DefKind::InputObject => "Input object",
            DefKind::Directive => "Directive",
        }
    }

    /// The kind a definition node of syntax kind `k` reports as.
    pub fn from_kind(k: SyntaxKind) -> (r: Option<DefKind>)
        ensures r == spec_def_kind(k),
    {
        match k {
            SyntaxKind::SCALAR_TYPE_DEFINITION | SyntaxKind::SCALAR_TYPE_EXTENSION => Some(DefKind::Scalar),
            SyntaxKind::OBJECT_TYPE_DEFINITION | SyntaxKind::OBJECT_TYPE_EXTENSION => Some(DefKind::Object),
            SyntaxKind::INTERFACE_TYPE_DEFINITION | SyntaxKind::INTERFACE_TYPE_EXTENSION => Some(DefKind::Interface),
            SyntaxKind::UNION_TYPE_DEFINITION | SyntaxKind::UNION_TYPE_EXTENSION => Some(DefKind::Union),
            SyntaxKind::ENUM_TYPE_DEFINITION | SyntaxKind::ENUM_TYPE_EXTENSION => Some(DefKind::Enum),
            SyntaxKind::INPUT_OBJECT_TYPE_DEFINITION | SyntaxKind::INPUT_OBJECT_TYPE_EXTENSION => Some(DefKind::InputObject),
            SyntaxKind::DIRECTIVE_DEFINITION => Some(DefKind::Directive),
            _ => None,
        }
    }
}

/// A reachable name that is a type of the schema, neither built in nor
/// introspective.
pub open spec fn user_type(s: Schema, x: Seq<char>) -> bool {
    !starts_with(x, "__"@) && !builtin_scalars().contains(x) && type_index(s.types@, x) is Some
}

/// Some user type of the schema is reachable.
pub open spec fn has_user_reachable(s: Schema) -> bool {
    exists|x: Seq<char>| #[trigger] reachable(s).contains(x) && user_type(s, x)
}

/// The finding for node `i`, if any.
pub open spec fn unreachable_finding(nodes: Seq<Node>, s: Schema, ignore: Seq<Seq<char>>, i: int) -> Option<(Seq<char>, Span, Seq<(Seq<char>, Span, Seq<char>)>)> {
    let n = nodes[i];
    match (n.name, spec_def_kind(n.kind)) {
        (Some(nm), Some(k)) => {
            let name = nm@;
            if k == DefKind::Directive {
                if has_user_reachable(s) {
                    None
                } else {
                    Some(plain_diag("Directive `"@ + name + "` is unreachable."@, Span { offset: 0, len: 0 }))
                }
            } else if starts_with(name, "__"@) || ignore.contains(name) || reachable(s).contains(name) {
                None
            } else {
                Some(plain_diag(spec_message_prefix(k) + " type `"@ + name + "` is unreachable."@, Span { offset: 0, len: 0 }))
            }
        },
        _ => None,
    }
}

/// The findings among the first `n` nodes, in order.
pub open spec fn unreachable_findings(nodes: Seq<Node>, s: Schema, ignore: Seq<Seq<char>>, n: int) -> Seq<(Seq<char>, Span, Seq<(Seq<char>, Span, Seq<char>)>)>
    decreases n,
{
    if n <= 0 {
        Seq::empty()
    } else {
        match unreachable_finding(nodes, s, ignore, n - 1) {
            Some(d) => unreachable_findings(nodes, s, ignore, n - 1).push(d),
            None => unreachable_findings(nodes, s, ignore, n - 1),
        }
    }
}

fn exec_user_type(s: &Schema, x: &Vec<char>) -> (r: bool)
    ensures r == user_type(*s, x@),
{
    let u = chars_of("__");
    if exec_starts_with(x, &u) {
        return false;
    }
    let xs = string_of(x);
    proof {
        reveal_strlit("String");
        reveal_strlit("Int");
        reveal_strlit("Float");
        reveal_strlit("Boolean");
        reveal_strlit("ID");
    }
    if chars_eq_str(x, "String") || chars_eq_str(x, "Int") || chars_eq_str(x, "Float")
        || chars_eq_str(x, "Boolean") || chars_eq_str(x, "ID") {
        return false;
    }
    find_type(&s.types, xs.as_str()).is_some()
}

fn chars_eq_str(x: &Vec<char>, lit: &str) -> (r: bool)
    ensures r == (x@ == lit@),
{
    crate::text::chars_eq(x, &chars_of(lit))
}

impl NoUnreachableTypes {
    /// Reports every type the document `tree` defines that the schema `s`
    /// cannot reach (save names in `ignore_type` and introspection types),
    /// and every directive it defines when no type of the schema is
    /// reachable.
    pub fn check(&self, tree: &Tree, s: &Schema, ignore_type: &Vec<String>) -> (r: Vec<Diagnostic>)
        ensures diag_views(r@) == unreachable_findings(tree.nodes@, *s, views(ignore_type@), tree.nodes@.len() as int),
    {
        let found = reachable_types(s);
        let mut has_user = false;
        for i in 0..found.len()
            invariant
                forall|x: Seq<char>| #[trigger] names(found@).contains(x) <==> reachable(*s).contains(x),
                has_user == exists|j: int| 0 <= j < i && #[trigger] user_type(*s, found@[j]@),
        {
            if exec_user_type(s, &found[i]) {
                has_user = true;
                proof { assert(user_type(*s, found@[i as int]@)); }
            }
        }
        proof {
            if has_user {
                let j = choose|j: int| 0 <= j < found@.len() && #[trigger] user_type(*s, found@[j]@);
                assert(names(found@)[j] == found@[j]@);
                assert(names(found@).contains(found@[j]@));
                assert(reachable(*s).contains(found@[j]@));
            } else {
                if has_user_reachable(*s) {
                    let x = choose|x: Seq<char>| #[trigger] reachable(*s).contains(x) && user_type(*s, x);
                    assert(names(found@).contains(x));
                    let j = choose|j: int| 0 <= j < names(found@).len() && names(found@)[j] == x;
                    assert(found@[j]@ == x);
                }
            }
        }
        let mut out: Vec<Diagnostic> = Vec::new();
        for i in 0..tree.nodes.len()
            invariant
                forall|x: Seq<char>| #[trigger] names(found@).contains(x) <==> reachable(*s).contains(x),
                has_user == has_user_reachable(*s),
                diag_views(out@) == unreachable_findings(tree.nodes@, *s, views(ignore_type@), i as int),
        {
            let n = &tree.nodes[i];
            match (&n.name, DefKind::from_kind(n.kind)) {
                (Some(nm), Some(k)) => {
                    let name = chars_of(nm.as_str());
                    if k == DefKind::Directive {
                        if !has_user {
                            let mut m: Vec<char> = Vec::new();
                            push_str(&mut m, "Directive `");
                            push_all_chars(&mut m, &name);
                            push_str(&mut m, "` is unreachable.");
                            push_diag(&mut out, &m, Span::new(0, 0));
                        }
                    } else if !(exec_starts_with(&name, &chars_of("__")) || has_text(ignore_type, nm.as_str()) || contains_name(&found, &name)) {
                        let mut m: Vec<char> = Vec::new();
                        push_str(&mut m, k.message_prefix());
                        push_str(&mut m, " type `");
                        push_all_chars(&mut m, &name);
                        push_str(&mut m, "` is unreachable.");
                        push_diag(&mut out, &m, Span::new(0, 0));
                    }
                },
                _ => {},
            }
        }
        out
    }
}

fn push_all_chars(v: &mut Vec<char>, w: &Vec<char>)
    ensures final(v)@ == old(v)@ + w@,
{
    crate::text::push_all(v, w);
}

} // verus!
