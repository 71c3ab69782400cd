//! `strict-id-in-types`: every object and interface type has exactly one
//! non-null unique identifier field of an accepted name and type.
use vstd::prelude::*;
use crate::text::{push_str, string_of, chars_of, ends_with, exec_ends_with, has_text, push_all};
use crate::model::{Diagnostic, Node, Span, SyntaxKind, Tree, diag_views, plain_diag, push_diag};
use crate::schema::{Schema, TypeDef, TypeKind, FieldDef, TypeRef, type_index, find_type};
use crate::case::{join, views};
use crate::rules::require_selections::spec_english_join;

verus! {

/// The `strict-id-in-types` rule.
pub struct StrictIdInTypes;

/// The first `k` words, each followed by `, `.
pub open spec fn comma_list(words: Seq<Seq<char>>, k: int) -> Seq<char>
    decreases k,
{
    if k <= 0 {
        Seq::empty()
    } else {
        comma_list(words, k - 1) + words[k - 1] + ", "@
    }
}

/// Words joined as an English list: `a`, `a or b`, `a, b, or c`.
pub open spec fn spec_english_join_words(words: Seq<Seq<char>>) -> Seq<char> {
    if words.len() == 0 {
        Seq::empty()
    } else if words.len() == 1 {
        words[0]
    } else if words.len() == 2 {
        words[0] + " or "@ + words[1]
    } else {
        comma_list(words, words.len() - 1) + "or "@ + words.last()
    }
}

/// `words` joined as an English list with "or".
pub fn english_join_words(words: &[String]) -> (r: String)
    ensures r@ == spec_english_join_words(views(words@)),
{
    let ghost v = views(words@);
    let n = words.len();
    if n == 0 {
        return String::new();
    }
    if n == 1 {
        return words[0].clone();
    }
    let mut out: Vec<char> = Vec::new();
    if n == 2 {
        push_str(&mut out, words[0].as_str());
        push_str(&mut out, " or ");
        push_str(&mut out, words[1].as_str());
        return string_of(&out);
    }
    for i in 0..n
        invariant
            n == words@.len(),
            n > 2,
            v == views(words@),
            i < n ==> out@ == comma_list(v, i as int),
            i == n ==> out@ == comma_list(v, n - 1) + "or "@ + v[n - 1],
    {
        if i == n - 1 {
            push_str(&mut out, "or ");
            push_str(&mut out, words[i].as_str());
        } else {
            push_str(&mut out, words[i].as_str());
            push_str(&mut out, ", ");
        }
    }
    string_of(&out)
}

proof fn lemma_comma_list_join(words: Seq<Seq<char>>, k: int)
    requires 1 <= k <= words.len(),
    ensures comma_list(words, k) == join(words.take(k), ", "@) + ", "@,
    decreases k,
{
    if k == 1 {
        assert(comma_list(words, 0) == Seq::<char>::empty());
        assert(words.take(1).len() == 1);
        assert(Seq::<char>::empty() + words[0] =~= words[0]);
    } else {
        lemma_comma_list_join(words, k - 1);
        assert(words.take(k).drop_last() == words.take(k - 1));
        assert(words.take(k).last() == words[k - 1]);
        assert(comma_list(words, k) =~= join(words.take(k), ", "@) + ", "@);
    }
}

/// Both ways of joining words as an English list give the same text.
pub proof fn law_english_joins_agree(words: Seq<Seq<char>>)
    ensures spec_english_join_words(words) == spec_english_join(words),
{
    if words.len() > 2 {
        lemma_comma_list_join(words, words.len() - 1);
        assert(words.take(words.len() - 1) == words.drop_last());
        reveal_strlit(", ");
        reveal_strlit("or ");
        reveal_strlit(", or ");
        assert(spec_english_join_words(words) =~= spec_english_join(words));
    }
}


/// The rule's options: the accepted identifier names and types, and the
/// types exempted by name or by suffix.
#[derive(Debug)]
pub struct StrictIdOptions {
    pub accepted_id_names: Vec<String>,
    pub accepted_id_types: Vec<String>,
    pub exception_types: Vec<String>,
    pub exception_suffixes: Vec<String>,
}

/// The identifier names accepted by default.
pub fn default_id_names() -> (r: Vec<String>)
    ensures views(r@) == seq!["id"@],
{
    let r = vec![string_of(&chars_of("id"))];
    proof { assert(views(r@) =~= seq!["id"@]); }
    r
}

/// The identifier types accepted by default.
pub fn default_id_types() -> (r: Vec<String>)
    ensures views(r@) == seq!["ID"@],
{
    let r = vec![string_of(&chars_of("ID"))];
    proof { assert(views(r@) =~= seq!["ID"@]); }
    r
}

impl StrictIdOptions {
    /// The default options: `id` of type `ID`, no exceptions.
    pub fn new() -> (o: Self)
        ensures
            views(o.accepted_id_names@) == seq!["id"@],
            views(o.accepted_id_types@) == seq!["ID"@],
            o.exception_types@.len() == 0,
            o.exception_suffixes@.len() == 0,
    {
        StrictIdOptions {
            accepted_id_names: default_id_names(),
            accepted_id_types: default_id_types(),
            exception_types: Vec::new(),
            exception_suffixes: Vec::new(),
        }
    }
}

/// A field is an accepted identifier: an accepted name and a non-null
/// accepted named type.
pub open spec fn is_id_field(f: FieldDef, names: Seq<Seq<char>>, types: Seq<Seq<char>>) -> bool {
    names.contains(f.name@) && match f.ty {
        TypeRef::NonNullNamed(t) => types.contains(t@),
        _ => false,
    }
}

/// The number of identifier fields among the first `n` fields.
pub open spec fn id_field_count(fs: Seq<FieldDef>, names: Seq<Seq<char>>, types: Seq<Seq<char>>, n: int) -> nat
    decreases n,
{
    if n <= 0 {
        0
    } else {
        id_field_count(fs, names, types, n - 1) + if is_id_field(fs[n - 1], names, types) { 1nat } else { 0nat }
    }
}

/// The identifier fields of the type named `name` (none for other kinds
/// and unknown types).
pub open spec fn id_fields_of(s: Schema, name: Seq<char>, names: Seq<Seq<char>>, types: Seq<Seq<char>>) -> nat {
    match type_index(s.types@, name) {
        Some(k) => if s.types@[k].kind == TypeKind::Object || s.types@[k].kind == TypeKind::Interface {
            id_field_count(s.types@[k].fields@, names, types, s.types@[k].fields@.len() as int)
        } else {
            0
        },
        None => 0,
    }
}

/// The root operation type names, defaults where the schema names none.
pub open spec fn root_type_names(s: Schema) -> Seq<Seq<char>> {
    seq![
        match s.query { Some(n) => n@, None => "Query"@ },
        match s.mutation { Some(n) => n@, None => "Mutation"@ },
        match s.subscription { Some(n) => n@, None => "Subscription"@ },
    ]
}

/// A type the rule does not check: a root type, an exception, or a name
/// ending in an exempted suffix.
pub open spec fn exempt(s: Schema, o: StrictIdOptions, name: Seq<char>) -> bool {
    ||| root_type_names(s).contains(name)
    ||| views(o.exception_types@).contains(name)
    ||| exists|i: int| 0 <= i < o.exception_suffixes@.len() && ends_with(name, #[trigger] o.exception_suffixes@[i]@)
}

/// The message for a type without exactly one identifier.
pub open spec fn id_message(name: Seq<char>, o: StrictIdOptions) -> Seq<char> {
    let names = views(o.accepted_id_names@);
    let types = views(o.accepted_id_types@);
    "type \""@ + name + "\" must have exactly one non-nullable unique identifier.\nAccepted name"@
        + (if names.len() > 1 { "s"@ } else { ""@ }) + ": "@ + spec_english_join_words(names)
        + ".\nAccepted type"@ + (if types.len() > 1 { "s"@ } else { ""@ }) + ": "@ + spec_english_join_words(types) + "."@
}

/// The finding for node `i`, if any.
pub open spec fn id_finding(nodes: Seq<Node>, s: Schema, o: StrictIdOptions, i: int) -> Option<(Seq<char>, Span, Seq<(Seq<char>, Span, Seq<char>)>)> {
    let n = nodes[i];
    let k = n.kind;
    if (k == SyntaxKind::OBJECT_TYPE_DEFINITION || k == SyntaxKind::INTERFACE_TYPE_DEFINITION
        || k == SyntaxKind::OBJECT_TYPE_EXTENSION || k == SyntaxKind::INTERFACE_TYPE_EXTENSION)
        && n.name is Some && n.span is Some {
        let name = n.name.unwrap()@;
        if exempt(s, o, name) || id_fields_of(s, name, views(o.accepted_id_names@), views(o.accepted_id_types@)) == 1 {
            None
        } else {
            Some(plain_diag(id_message(name, o), n.span.unwrap()))
        }
    } else {
        None
    }
}

/// The findings among the first `n` nodes, in order.
pub open spec fn id_findings(nodes: Seq<Node>, s: Schema, o: StrictIdOptions, n: int) -> Seq<(Seq<char>, Span, Seq<(Seq<char>, Span, Seq<char>)>)>
    decreases n,
{
    if n <= 0 {
        Seq::empty()
    } else {
        match id_finding(nodes, s, o, n - 1) {
            Some(d) => id_findings(nodes, s, o, n - 1).push(d),
            None => id_findings(nodes, s, o, n - 1),
        }
    }
}

fn exec_is_id_field(f: &FieldDef, o: &StrictIdOptions) -> (r: bool)
    ensures r == is_id_field(*f, views(o.accepted_id_names@), views(o.accepted_id_types@)),
{
    has_text(&o.accepted_id_names, f.name.as_str()) && match &f.ty {
        TypeRef::NonNullNamed(t) => has_text(&o.accepted_id_types, t.as_str()),
        _ => false,
    }
}

fn exec_id_fields_of(s: &Schema, name: &str, o: &StrictIdOptions) -> (r: u64)
    ensures r == id_fields_of(*s, name@, views(o.accepted_id_names@), views(o.accepted_id_types@)),
{
    match find_type(&s.types, name) {
        Some(k) => {
            let t = &s.types[k];
            if t.kind == TypeKind::Object || t.kind == TypeKind::Interface {
                let mut c: u64 = 0;
                for j in 0..t.fields.len()
                    invariant
                        c == id_field_count(t.fields@, views(o.accepted_id_names@), views(o.accepted_id_types@), j as int),
                        c <= j,
                        j <= t.fields@.len(),
                        t.fields@.len() <= usize::MAX,
                {
                    if exec_is_id_field(&t.fields[j], o) {
                        c = c + 1;
                    }
                }
                c
            } else {
                0
            }
        },
        None => 0,
    }
}

fn exec_exempt(s: &Schema, o: &StrictIdOptions, name: &str) -> (r: bool)
    ensures r == exempt(*s, *o, name@),
{
    let nc = chars_of(name);
    let q = match &s.query { Some(n) => chars_of(n.as_str()), None => chars_of("Query") };
    let m = match &s.mutation { Some(n) => chars_of(n.as_str()), None => chars_of("Mutation") };
    let sub = match &s.subscription { Some(n) => chars_of(n.as_str()), None => chars_of("Subscription") };
    let is_root = crate::text::chars_eq(&nc, &q) || crate::text::chars_eq(&nc, &m) || crate::text::chars_eq(&nc, &sub);
    proof {
        let r = root_type_names(*s);
        assert(r[0] == q@ && r[1] == m@ && r[2] == sub@);
        if r.contains(name@) {
            let j = choose|j: int| 0 <= j < 3 && r[j] == name@;
        }
    }
    if is_root || has_text(&o.exception_types, name) {
        return true;
    }
    for i in 0..o.exception_suffixes.len()
        invariant
            nc@ == name@,
            forall|j: int| 0 <= j < i ==> !ends_with(name@, #[trigger] o.exception_suffixes@[j]@),
    {
        if exec_ends_with(&nc, &chars_of(o.exception_suffixes[i].as_str())) {
            return true;
        }
    }
    false
}

impl StrictIdInTypes {
    /// Reports every object or interface type of the document `tree` that
    /// is not exempt and has, in the schema `s`, not exactly one accepted
    /// identifier field.
    pub fn check(&self, tree: &Tree, s: &Schema, opts: &StrictIdOptions) -> (r: Vec<Diagnostic>)
        ensures diag_views(r@) == id_findings(tree.nodes@, *s, *opts, tree.nodes@.len() as int),
    {
        let mut out: Vec<Diagnostic> = Vec::new();
        for i in 0..tree.nodes.len()
            invariant diag_views(out@) == id_findings(tree.nodes@, *s, *opts, i as int),
        {
            let n = &tree.nodes[i];
            let k = n.kind;
            if k == SyntaxKind::OBJECT_TYPE_DEFINITION || k == SyntaxKind::INTERFACE_TYPE_DEFINITION
                || k == SyntaxKind::OBJECT_TYPE_EXTENSION || k == SyntaxKind::INTERFACE_TYPE_EXTENSION {
                match (&n.name, n.span) {
                    (Some(name), Some(span)) => {
                        if !exec_exempt(s, opts, name.as_str()) && exec_id_fields_of(s, name.as_str(), opts) != 1 {
                            let mut m: Vec<char> = Vec::new();
                            push_str(&mut m, "type \"");
                            push_str(&mut m, name.as_str());
                            push_str(&mut m, "\" must have exactly one non-nullable unique identifier.\nAccepted name");
                            push_str(&mut m, if opts.accepted_id_names.len() > 1 { "s" } else { "" });
                            push_str(&mut m, ": ");
                            push_str(&mut m, english_join_words(opts.accepted_id_names.as_slice()).as_str());
                            push_str(&mut m, ".\nAccepted type");
                            push_str(&mut m, if opts.accepted_id_types.len() > 1 { "s" } else { "" });
                            push_str(&mut m, ": ");
                            push_str(&mut m, english_join_words(opts.accepted_id_types.as_slice()).as_str());
                            push_str(&mut m, ".");
                            proof { assert(m@ =~= id_message(name@, *opts)); }
                            push_diag(&mut out, &m, span);
                        }
                    },
                    _ => {},
                }
            }
        }
        out
    }
}

} // verus!
