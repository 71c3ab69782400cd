//! What a fixture case is made of: the kind of its source, and the choice of
//! its files by name suffix.
use vstd::prelude::*;
use crate::text::{chars_of, chars_eq, ends_with, exec_ends_with, find_seq_from, exec_find_seq_from, trim, trim_chars, sub_chars, string_of};
use crate::case::views;
use crate::json::{Json, member, find_member, as_text, as_bool, opt_text, member_texts, member_text, member_text_list, member_bool};
use crate::paths::{spec_join, path_join};

verus! {

/// Which kind of GraphQL source a fixture's `.graphql` file holds.
#[derive(Clone, Copy, Debug, PartialEq, Eq, Structural)]
pub enum DocKind {
    /// An operation document (the default).
    Operations,
    /// A schema, linted as the project's schema.
    Schema,
}

impl DocKind {
    /// The kind named by a `kind = "..."` setting: `"schema"` is
    /// [`DocKind::Schema`], anything else [`DocKind::Operations`].
    pub fn from_kebab(s: &str) -> (k: Self)
        ensures k == (if s@ == "schema"@ { DocKind::Schema } else { DocKind::Operations }),
    {
        if chars_eq(&chars_of(s), &chars_of("schema")) {
            DocKind::Schema
        } else {
            DocKind::Operations
        }
    }

    /// The default kind.
    pub fn default_kind() -> (k: Self)
        ensures k == DocKind::Operations,
    {
        DocKind::Operations
    }
}

/// Why a fixture's main source could not be chosen.
#[derive(Clone, Debug)]
pub enum SourceChoiceError {
    /// No file has the suffix.
    NoSource,
    /// Several files have the suffix; they are listed.
    ManySources(Vec<String>),
    /// Several files remain after leaving out the sibling documents; they
    /// are listed.
    ManySourcesExcluding(Vec<String>),
}

/// The names in `names` that end with `suffix`, in order.
pub open spec fn with_suffix(names: Seq<Seq<char>>, suffix: Seq<char>) -> Seq<Seq<char>> {
    names.filter(|n: Seq<char>| ends_with(n, suffix))
}

/// The names in `names` that end with `suffix` and are not in `exclude`.
pub open spec fn with_suffix_excluding(names: Seq<Seq<char>>, suffix: Seq<char>, exclude: Seq<Seq<char>>) -> Seq<Seq<char>> {
    names.filter(|n: Seq<char>| ends_with(n, suffix) && !exclude.contains(n))
}

fn listed(exclude: &[String], name: &Vec<char>) -> (r: bool)
    ensures r == views(exclude@).contains(name@),
{
    for i in 0..exclude.len()
        invariant
            forall|j: int| 0 <= j < i ==> exclude@[j]@ != name@,
    {
        if chars_eq(&chars_of(exclude[i].as_str()), name) {
            proof { assert(views(exclude@)[i as int] == name@); }
            return true;
        }
    }
    proof {
        if views(exclude@).contains(name@) {
            let k = choose|k: int| 0 <= k < views(exclude@).len() && views(exclude@)[k] == name@;
            assert(exclude@[k]@ == name@);
        }
    }
    false
}

/// The names (paths of the files of a case directory, in sorted order) that
/// end with `suffix` and are not listed in `exclude`, in order.
pub fn names_with_suffix(names: &[String], suffix: &str, exclude: &[String]) -> (r: Vec<String>)
    ensures
        views(r@) == with_suffix_excluding(views(names@), suffix@, views(exclude@)),
{
    let suf = chars_of(suffix);
    let ghost pred = |n: Seq<char>| ends_with(n, suffix@) && !views(exclude@).contains(n);
    let mut r: Vec<String> = Vec::new();
    for i in 0..names.len()
        invariant
            suf@ == suffix@,
            pred == (|n: Seq<char>| ends_with(n, suffix@) && !views(exclude@).contains(n)),
            views(r@) == views(names@).take(i as int).filter(pred),
    {
        proof {
            reveal_with_fuel(Seq::<_>::filter, 1);
            assert(views(names@).take(i + 1).drop_last() == views(names@).take(i as int));
        }
        let n = chars_of(names[i].as_str());
        if exec_ends_with(&n, &suf) && !listed(exclude, &n) {
            r.push(names[i].clone());
            proof { assert(views(r@) =~= views(names@).take(i as int).filter(pred).push(names@[i as int]@)); }
        }
    }
    proof { assert(views(names@).take(names@.len() as int) == views(names@)); }
    r
}

/// The one name ending with `suffix`: an error when there is none or more
/// than one.
pub fn find_one_suffix(names: &[String], suffix: &str) -> (r: Result<String, SourceChoiceError>)
    ensures
        ({
            let hits = with_suffix(views(names@), suffix@);
            &&& hits.len() == 0 <==> (r matches Err(SourceChoiceError::NoSource))
            &&& hits.len() == 1 <==> r is Ok
            &&& (r matches Ok(n) ==> n@ == hits[0])
            &&& hits.len() > 1 <==> (r matches Err(SourceChoiceError::ManySources(_)))
            &&& (r matches Err(SourceChoiceError::ManySources(files)) ==> views(files@) == hits)
            &&& !(r matches Err(SourceChoiceError::ManySourcesExcluding(_)))
        }),
{
    let none: Vec<String> = Vec::new();
    let hits = names_with_suffix(names, suffix, &none);
    proof {
        assert(views(none@) =~= Seq::<Seq<char>>::empty());
        assert(with_suffix_excluding(views(names@), suffix@, views(none@)) =~= with_suffix(views(names@), suffix@)) by {
            assert((|n: Seq<char>| ends_with(n, suffix@) && !views(none@).contains(n)) =~= (|n: Seq<char>| ends_with(n, suffix@)));
        }
    }
    if hits.len() == 0 {
        Err(SourceChoiceError::NoSource)
    } else if hits.len() == 1 {
        Ok(hits[0].clone())
    } else {
        Err(SourceChoiceError::ManySources(hits))
    }
}

/// The one name ending with `suffix` once the names in `exclude` are left
/// out: an error when there is none or more than one.
pub fn find_one_suffix_excluding(names: &[String], suffix: &str, exclude: &[String]) -> (r: Result<String, SourceChoiceError>)
    ensures
        ({
            let hits = with_suffix_excluding(views(names@), suffix@, views(exclude@));
            &&& hits.len() == 0 <==> (r matches Err(SourceChoiceError::NoSource))
            &&& hits.len() == 1 <==> r is Ok
            &&& (r matches Ok(n) ==> n@ == hits[0])
            &&& hits.len() > 1 <==> (r matches Err(SourceChoiceError::ManySourcesExcluding(_)))
            &&& (r matches Err(SourceChoiceError::ManySourcesExcluding(files)) ==> views(files@) == hits)
            &&& !(r matches Err(SourceChoiceError::ManySources(_)))
        }),
{
    let hits = names_with_suffix(names, suffix, exclude);
    if hits.len() == 0 {
        Err(SourceChoiceError::NoSource)
    } else if hits.len() == 1 {
        Ok(hits[0].clone())
    } else {
        Err(SourceChoiceError::ManySourcesExcluding(hits))
    }
}

/// The name ending with `suffix`, if one does: `None` when none does, and
/// an error listing them when several do (a case directory holds at most
/// one of each part; duplicates are a configuration mistake).
pub fn find_opt_suffix(names: &[String], suffix: &str) -> (r: Result<Option<String>, SourceChoiceError>)
    ensures
        ({
            let hits = with_suffix(views(names@), suffix@);
            &&& hits.len() == 0 <==> (r matches Ok(None))
            &&& hits.len() == 1 <==> (r matches Ok(Some(_)))
            &&& (r matches Ok(Some(n)) ==> n@ == hits[0])
            &&& hits.len() > 1 <==> (r matches Err(SourceChoiceError::ManySources(_)))
            &&& (r matches Err(SourceChoiceError::ManySources(files)) ==> views(files@) == hits)
            &&& !(r matches Err(SourceChoiceError::NoSource))
            &&& !(r matches Err(SourceChoiceError::ManySourcesExcluding(_)))
        }),
{
    match find_one_suffix(names, suffix) {
        Ok(n) => Ok(Some(n)),
        Err(SourceChoiceError::NoSource) => Ok(None),
        Err(e) => Err(e),
    }
}

/// The settings of a case's `config.toml` other than the rule options: an
/// inline schema or the path of one, the kind of the source, whether
/// messages are compared, the sibling documents and inline documents.
#[derive(Clone, Debug)]
pub struct FixtureSettings {
    pub schema: Option<String>,
    pub schema_path: Option<String>,
    pub kind: DocKind,
    pub loose_message: bool,
    pub sibling_documents: Vec<String>,
    pub documents: Option<String>,
}

/// `s` are the settings that the members `o` of a configuration give, for
/// a case in the directory `dir`: string members are taken when they are
/// strings, `schema_path` joined to `dir`; `kind` is `schema` or else
/// operations; `loose_message` is off unless set; the sibling documents
/// are the strings of that array.
pub open spec fn settings_from(o: Seq<(String, Json)>, dir: Seq<char>, s: FixtureSettings) -> bool {
    &&& opt_text(s.schema) == as_text(member(o, "schema"@))
    &&& opt_text(s.schema_path) == match as_text(member(o, "schema_path"@)) {
        Some(p) => Some(spec_join(dir, p)),
        None => None,
    }
    &&& s.kind == match as_text(member(o, "kind"@)) {
        Some(k) => if k == "schema"@ { DocKind::Schema } else { DocKind::Operations },
        None => DocKind::Operations,
    }
    &&& s.loose_message == match as_bool(member(o, "loose_message"@)) {
        Some(b) => b,
        None => false,
    }
    &&& views(s.sibling_documents@) == member_texts(o, "sibling_documents"@)
    &&& opt_text(s.documents) == as_text(member(o, "documents"@))
}

/// The settings that the configuration `config` gives a case in the
/// directory `case_dir`; `None` when its root is not a table.
pub fn fixture_settings(config: &Json, case_dir: &str) -> (r: Option<FixtureSettings>)
    ensures
        match *config {
            Json::Object(o) => r matches Some(s) && settings_from(o@, case_dir@, s),
            _ => r is None,
        },
{
    match config {
        Json::Object(o) => {
            let schema_path = match member_text(o, "schema_path") {
                Some(p) => Some(path_join(case_dir, p.as_str())),
                None => None,
            };
            let kind = match member_text(o, "kind") {
                Some(k) => DocKind::from_kebab(k.as_str()),
                None => DocKind::default_kind(),
            };
            let loose_message = match member_bool(o, "loose_message") {
                Some(b) => b,
                None => false,
            };
            Some(FixtureSettings {
                schema: member_text(o, "schema"),
                schema_path,
                kind,
                loose_message,
                sibling_documents: member_text_list(o, "sibling_documents"),
                documents: member_text(o, "documents"),
            })
        },
        _ => None,
    }
}

/// The choice of a case's main source among the files that are not
/// sibling documents: the one `.graphql` file; several `.graphql` files
/// are an error listing them; with none, the one `.gql` file, and the
/// `.gql` choice's error when there is none or several.
pub open spec fn main_source_choice(names: Seq<Seq<char>>, exclude: Seq<Seq<char>>) -> Result<Seq<char>, (nat, Seq<Seq<char>>)> {
    let g = with_suffix_excluding(names, ".graphql"@, exclude);
    let q = with_suffix_excluding(names, ".gql"@, exclude);
    if g.len() == 1 {
        Ok(g[0])
    } else if g.len() > 1 {
        Err((g.len(), g))
    } else if q.len() == 1 {
        Ok(q[0])
    } else {
        Err((q.len(), q))
    }
}

/// The main source among `names`, sibling documents in `exclude` left out:
/// the one `.graphql` file, else (when there is no `.graphql` file) the one
/// `.gql` file. Several candidates are an error listing them; none is the
/// no-source error.
pub fn find_main_source(names: &[String], exclude: &[String]) -> (r: Result<String, SourceChoiceError>)
    ensures
        match main_source_choice(views(names@), views(exclude@)) {
            Ok(n) => r matches Ok(m) && m@ == n,
            Err((k, files)) => if k == 0 {
                r matches Err(SourceChoiceError::NoSource)
            } else {
                r matches Err(SourceChoiceError::ManySourcesExcluding(f)) && views(f@) == files
            },
        },
{
    match find_one_suffix_excluding(names, ".graphql", exclude) {
        Ok(n) => Ok(n),
        Err(SourceChoiceError::NoSource) => find_one_suffix_excluding(names, ".gql", exclude),
        Err(e) => Err(e),
    }
}

/// The entries of an `expected.json` document: the items of its `errors`
/// member when that is an array; `None` for any other shape.
pub open spec fn spec_expected_entries(v: Json) -> Option<Seq<Json>> {
    match v {
        Json::Object(o) => match member(o@, "errors"@) {
            Some(Json::Array(items)) => Some(items@),
            _ => None,
        },
        _ => None,
    }
}

/// The entries of the `expected.json` document `v`, or `None` when its top
/// level is not an object with an `errors` array.
pub fn expected_entries(v: &Json) -> (r: Option<&Vec<Json>>)
    ensures
        match spec_expected_entries(*v) {
            Some(items) => r matches Some(x) && x@ == items,
            None => r is None,
        },
{
    match v {
        Json::Object(o) => match find_member(o, "errors") {
            Some(k) => match &o[k].1 {
                Json::Array(items) => Some(items),
                _ => None,
            },
            None => None,
        },
        _ => None,
    }
}

/// The documents of an inline `documents` setting from `from` on: the text
/// is cut at each blank line (`"\n\n"`), each piece trimmed of white space,
/// and empty pieces dropped.
pub open spec fn documents_from(s: Seq<char>, from: int) -> Seq<Seq<char>>
    decreases s.len() + 1 - from,
{
    if from < 0 || from > s.len() {
        Seq::empty()
    } else {
        match find_seq_from(s, seq!['\n', '\n'], from) {
            Some(k) => {
                let t = trim(s.subrange(from, k));
                (if t.len() > 0 { seq![t] } else { Seq::empty() }) + (if from < k + 2 <= s.len() { documents_from(s, k + 2) } else { Seq::empty() })
            },
            None => {
                let t = trim(s.subrange(from, s.len() as int));
                if t.len() > 0 { seq![t] } else { Seq::empty() }
            },
        }
    }
}

/// The operation documents of an inline `documents` setting: cut at each
/// blank line, trimmed, the empty ones dropped.
pub fn inline_documents(documents: &str) -> (r: Vec<String>)
    ensures views(r@) == documents_from(documents@, 0),
{
    let s = chars_of(documents);
    let sep: Vec<char> = vec!['\n', '\n'];
    proof { assert(sep@ =~= seq!['\n', '\n']); }
    let mut out: Vec<String> = Vec::new();
    let mut from: usize = 0;
    let n = s.len();
    loop
        invariant
            s@ == documents@, sep@ == seq!['\n', '\n'], n == s@.len(),
            from <= s@.len(),
            views(out@) + documents_from(s@, from as int) == documents_from(s@, 0),
        decreases s@.len() + 1 - from,
    {
        let ghost before = out@;
        assert(sep@.len() == 2);
        match exec_find_seq_from(&s, &sep, from) {
            Some(k) => {
                let t = trim_chars(&sub_chars(&s, from, k));
                if t.len() > 0 {
                    out.push(string_of(&t));
                }
                proof {
                    if t@.len() > 0 {
                        assert(views(out@) =~= views(before).push(t@));
                    } else {
                        assert(views(out@) =~= views(before));
                    }
                    assert(views(out@) + documents_from(s@, k + 2) =~= views(before) + documents_from(s@, from as int));
                }
                from = k + 2;
            },
            None => {
                let t = trim_chars(&sub_chars(&s, from, s.len()));
                if t.len() > 0 {
                    out.push(string_of(&t));
                }
                proof {
                    if t@.len() > 0 {
                        assert(views(out@) =~= views(before).push(t@));
                    } else {
                        assert(views(out@) =~= views(before));
                    }
                    assert(views(out@) =~= views(before) + documents_from(s@, from as int));
                }
                return out;
            },
        }
    }
}

} // verus!
