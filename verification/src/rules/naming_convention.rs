//! `naming-convention`: names follow the configured style, prefixes,
//! suffixes and patterns for their kind of definition.
use vstd::prelude::*;
use crate::case::{CaseStyle, views, spec_detect_case, detect_case, letters_upper, contains_char, exec_letters_upper, spec_convert_case, convert_case};
use crate::model::{Diagnostic, Node, Span, SyntaxKind, Tree, Suggestion, diag_views, plain_diag, push_diag, push_diag_with, sugg_view, suggestion};
use crate::schema::{Schema, type_field_type, field_type};
use crate::pattern::regex_matches;
use crate::json::{Json, member, as_text, as_bool, texts, find_member, collect_texts, opt_text, member_texts, member_text, member_text_list, member_bool};
use crate::pattern::{Pattern, regex_compiles};
use crate::text::{
    chars_of, chars_eq, string_of, find_from, exec_find_from, rfind_before, exec_rfind_before,
    find_seq_from, exec_find_seq_from, trim, trim_chars, strip_both, exec_strip_both, sub_chars,
    is_upper, is_lower, exec_is_upper, exec_is_lower, upper_char, exec_upper_char, is_ws, exec_is_ws,
    trim_start, trim_start_chars, strip_leading, strip_trailing, exec_strip_leading, exec_strip_trailing,
    starts_with, ends_with, exec_starts_with, exec_ends_with, push_str, push_all,
};

verus! {

/// The `naming-convention` rule.
pub struct NamingConvention;

/// What a selector's condition compares.
#[derive(Debug, Clone, Copy, PartialEq, Eq, Structural)]
pub enum PredicateKind {
    ParentNameEquals,
    ParentNameNotEquals,
    GqlTypeNameEquals,
    GqlTypeGqlTypeNameEquals,
}

/// The condition of a selector key such as
/// `FieldDefinition[parent.name.value=Query]`.
#[derive(Debug)]
pub struct SelectorPredicate {
    pub kind: PredicateKind,
    pub value: String,
}

/// A condition as plain values.
pub open spec fn pred_view(p: Option<SelectorPredicate>) -> Option<(PredicateKind, Seq<char>)> {
    match p {
        Some(x) => Some((x.kind, x.value@)),
        None => None,
    }
}

/// The style named by an option value.
pub open spec fn spec_parse_case_style(s: Seq<char>) -> Option<CaseStyle> {
    if s == "camelCase"@ {
        Some(CaseStyle::Camel)
    } else if s == "PascalCase"@ {
        Some(CaseStyle::Pascal)
    } else if s == "StrictPascalCase"@ {
        Some(CaseStyle::StrictPascal)
    } else if s == "snake_case"@ {
        Some(CaseStyle::Snake)
    } else if s == "UPPER_CASE"@ {
        Some(CaseStyle::ScreamingSnake)
    } else if s == "kebab-case"@ {
        Some(CaseStyle::Kebab)
    } else if s == "SCREAMING-KEBAB-CASE"@ {
        Some(CaseStyle::ScreamingKebab)
    } else {
        None
    }
}

/// The style named by `s`, with `s` itself for messages.
pub fn parse_case_style(s: &str) -> (r: Option<(CaseStyle, String)>)
    ensures
        match r {
            Some((st, name)) => spec_parse_case_style(s@) == Some(st) && name@ == s@,
            None => spec_parse_case_style(s@) is None,
        },
{
    let c = chars_of(s);
    let st = if chars_eq(&c, &chars_of("camelCase")) {
        Some(CaseStyle::Camel)
    } else if chars_eq(&c, &chars_of("PascalCase")) {
        Some(CaseStyle::Pascal)
    } else if chars_eq(&c, &chars_of("StrictPascalCase")) {
        Some(CaseStyle::StrictPascal)
    } else if chars_eq(&c, &chars_of("snake_case")) {
        Some(CaseStyle::Snake)
    } else if chars_eq(&c, &chars_of("UPPER_CASE")) {
        Some(CaseStyle::ScreamingSnake)
    } else if chars_eq(&c, &chars_of("kebab-case")) {
        Some(CaseStyle::Kebab)
    } else if chars_eq(&c, &chars_of("SCREAMING-KEBAB-CASE")) {
        Some(CaseStyle::ScreamingKebab)
    } else {
        None
    };
    match st {
        Some(x) => Some((x, string_of(&c))),
        None => None,
    }
}

/// The condition written inside a selector's brackets: `field!=value` or
/// `field=value`, the value trimmed and unquoted.
pub open spec fn spec_parse_predicate(s: Seq<char>) -> Option<(PredicateKind, Seq<char>)> {
    match find_seq_from(s, "!="@, 0) {
        Some(pos) => {
            let field = trim(s.take(pos));
            let value = strip_both(trim(s.skip(pos + 2)), '"');
            if field == "parent.name.value"@ {
                Some((PredicateKind::ParentNameNotEquals, value))
            } else {
                None
            }
        },
        None => match find_from(s, '=', 0, s.len() as int) {
            Some(pos) => {
                let field = trim(s.take(pos));
                let value = strip_both(trim(s.skip(pos + 1)), '"');
                if field == "parent.name.value"@ {
                    Some((PredicateKind::ParentNameEquals, value))
                } else if field == "gqlType.name.value"@ {
                    Some((PredicateKind::GqlTypeNameEquals, value))
                } else if field == "gqlType.gqlType.name.value"@ {
                    Some((PredicateKind::GqlTypeGqlTypeNameEquals, value))
                } else {
                    None
                }
            },
            None => None,
        },
    }
}

/// The condition written inside a selector's brackets.
pub fn parse_predicate(s: &str) -> (r: Option<SelectorPredicate>)
    ensures pred_view(r) == spec_parse_predicate(s@),
{
    let c = chars_of(s);
    let ne = chars_of("!=");
    proof { reveal_strlit("!="); assert(ne@.len() == 2); }
    let clen = c.len();
    match exec_find_seq_from(&c, &ne, 0) {
        Some(pos) => {
            proof { assert(pos + 2 <= clen); }
            let field = trim_chars(&sub_chars(&c, 0, pos));
            let value = exec_strip_both(&trim_chars(&sub_chars(&c, pos + 2, c.len())), '"');
            proof {
                assert(c@.subrange(0, pos as int) =~= c@.take(pos as int));
                assert(c@.subrange(pos + 2, c@.len() as int) =~= c@.skip(pos + 2));
            }
            if chars_eq(&field, &chars_of("parent.name.value")) {
                Some(SelectorPredicate { kind: PredicateKind::ParentNameNotEquals, value: string_of(&value) })
            } else {
                None
            }
        },
        None => match exec_find_from(&c, '=', 0, c.len()) {
            Some(pos) => {
                let field = trim_chars(&sub_chars(&c, 0, pos));
                let value = exec_strip_both(&trim_chars(&sub_chars(&c, pos + 1, c.len())), '"');
                proof {
                    assert(c@.subrange(0, pos as int) =~= c@.take(pos as int));
                    assert(c@.subrange(pos + 1, c@.len() as int) =~= c@.skip(pos + 1));
                }
                let kind = if chars_eq(&field, &chars_of("parent.name.value")) {
                    Some(PredicateKind::ParentNameEquals)
                } else if chars_eq(&field, &chars_of("gqlType.name.value")) {
                    Some(PredicateKind::GqlTypeNameEquals)
                } else if chars_eq(&field, &chars_of("gqlType.gqlType.name.value")) {
                    Some(PredicateKind::GqlTypeGqlTypeNameEquals)
                } else {
                    None
                };
                match kind {
                    Some(k) => Some(SelectorPredicate { kind: k, value: string_of(&value) }),
                    None => None,
                }
            },
            None => None,
        },
    }
}

/// A selector key whose last `]` comes before its first `[` (on which the
/// key cannot be cut).
pub open spec fn key_misbracketed(key: Seq<char>) -> bool {
    match (find_from(key, '[', 0, key.len() as int), rfind_before(key, ']', 0, key.len() as int)) {
        (Some(st), Some(en)) => en < st,
        _ => false,
    }
}

/// A selector key cut into the kind it names and its condition.
pub open spec fn spec_parse_selector_key(key: Seq<char>) -> (Seq<char>, Option<(PredicateKind, Seq<char>)>) {
    match (find_from(key, '[', 0, key.len() as int), rfind_before(key, ']', 0, key.len() as int)) {
        (Some(st), Some(en)) => (key.take(st), spec_parse_predicate(key.subrange(st + 1, en))),
        _ => (key, None),
    }
}

/// The kind a selector key names and its condition, if it has one.
pub fn parse_selector_key(key: &str) -> (r: (String, Option<SelectorPredicate>))
    requires !key_misbracketed(key@),
    ensures (r.0@, pred_view(r.1)) == spec_parse_selector_key(key@),
{
    let c = chars_of(key);
    match (exec_find_from(&c, '[', 0, c.len()), exec_rfind_before(&c, ']', 0, c.len())) {
        (Some(st), Some(en)) => {
            proof {
                assert(c@[st as int] == '[');
                assert(c@[en as int] == ']');
            }
            let kind = sub_chars(&c, 0, st);
            let inner = sub_chars(&c, st + 1, en);
            proof { assert(kind@ =~= c@.take(st as int)); }
            (string_of(&kind), parse_predicate(string_of(&inner).as_str()))
        },
        _ => (string_of(&c), None),
    }
}


/// What one selector asks of names: a style, a prefix or suffix, prefixes
/// and suffixes forbidden or required, and patterns forbidden, required or
/// exempting a name from all checks.
#[derive(Debug)]
pub struct KindConfig {
    pub style: Option<(CaseStyle, String)>,
    pub prefix: Option<String>,
    pub suffix: Option<String>,
    pub forbidden_prefixes: Vec<String>,
    pub forbidden_suffixes: Vec<String>,
    pub required_prefixes: Vec<String>,
    pub required_suffixes: Vec<String>,
    pub forbidden_patterns: Vec<Pattern>,
    pub required_pattern: Option<Pattern>,
    pub ignore_pattern: Option<Pattern>,
}

/// A kind of definition, an optional condition, and what names of that
/// kind must satisfy.
#[derive(Debug)]
pub struct KindSelector {
    pub kind_name: String,
    pub predicate: Option<SelectorPredicate>,
    pub config: KindConfig,
}

/// The rule's options.
#[derive(Debug)]
pub struct NamingOptions {
    pub allow_leading_underscore: bool,
    pub allow_trailing_underscore: bool,
    pub kind_configs: Vec<KindSelector>,
}


pub open spec fn style_view(o: Option<(CaseStyle, String)>) -> Option<(CaseStyle, Seq<char>)> {
    match o {
        Some((st, n)) => Some((st, n@)),
        None => None,
    }
}

pub open spec fn pattern_view(o: Option<Pattern>) -> Option<Seq<char>> {
    match o {
        Some(p) => Some(p@),
        None => None,
    }
}

pub open spec fn patterns_view(v: Seq<Pattern>) -> Seq<Seq<char>> {
    v.map_values(|p: Pattern| p@)
}

/// A pattern written between slashes loses them.
pub open spec fn strip_slashes(s: Seq<char>) -> Seq<char> {
    if s.len() >= 2 && s[0] == '/' && s.last() == '/' {
        s.subrange(1, s.len() - 1)
    } else {
        s
    }
}

/// The patterns, unslashed, that compile.
pub open spec fn compiled_patterns(ts: Seq<Seq<char>>) -> Seq<Seq<char>>
    decreases ts.len(),
{
    if ts.len() == 0 {
        Seq::empty()
    } else {
        let p = strip_slashes(ts.last());
        if regex_compiles(p) {
            compiled_patterns(ts.drop_last()).push(p)
        } else {
            compiled_patterns(ts.drop_last())
        }
    }
}


/// A single compiled pattern from the string member `key`, unslashed when
/// `unslash`.
pub open spec fn member_pattern(o: Seq<(String, Json)>, key: Seq<char>, unslash: bool) -> Option<Seq<char>> {
    match as_text(member(o, key)) {
        Some(t) => {
            let p = if unslash { strip_slashes(t) } else { t };
            if regex_compiles(p) { Some(p) } else { None }
        },
        None => None,
    }
}

/// `c` is the configuration that the option value `v` describes: a style
/// name alone, or an object of the configuration's members.
pub open spec fn config_from(c: KindConfig, v: Json) -> bool {
    match v {
        Json::Str(s) => {
            &&& style_view(c.style) == match spec_parse_case_style(s@) { Some(st) => Some((st, s@)), None => None }
            &&& c.prefix is None && c.suffix is None
            &&& c.forbidden_prefixes@.len() == 0 && c.forbidden_suffixes@.len() == 0
            &&& c.required_prefixes@.len() == 0 && c.required_suffixes@.len() == 0
            &&& c.forbidden_patterns@.len() == 0 && c.required_pattern is None && c.ignore_pattern is None
        },
        Json::Object(o) => {
            &&& style_view(c.style) == match as_text(member(o@, "style"@)) {
                Some(t) => match spec_parse_case_style(t) { Some(st) => Some((st, t)), None => None },
                None => None,
            }
            &&& opt_text(c.prefix) == as_text(member(o@, "prefix"@))
            &&& opt_text(c.suffix) == as_text(member(o@, "suffix"@))
            &&& views(c.forbidden_prefixes@) == member_texts(o@, "forbiddenPrefixes"@)
            &&& views(c.forbidden_suffixes@) == member_texts(o@, "forbiddenSuffixes"@)
            &&& views(c.required_prefixes@) == member_texts(o@, "requiredPrefixes"@)
            &&& views(c.required_suffixes@) == member_texts(o@, "requiredSuffixes"@)
            &&& patterns_view(c.forbidden_patterns@) == compiled_patterns(member_texts(o@, "forbiddenPatterns"@))
            &&& pattern_view(c.required_pattern) == member_pattern(o@, "requiredPattern"@, true)
            &&& pattern_view(c.ignore_pattern) == member_pattern(o@, "ignorePattern"@, false)
        },
        _ => {
            &&& c.style is None && c.prefix is None && c.suffix is None
            &&& c.forbidden_prefixes@.len() == 0 && c.forbidden_suffixes@.len() == 0
            &&& c.required_prefixes@.len() == 0 && c.required_suffixes@.len() == 0
            &&& c.forbidden_patterns@.len() == 0 && c.required_pattern is None && c.ignore_pattern is None
        },
    }
}

fn empty_config() -> (c: KindConfig)
    ensures
        c.style is None && c.prefix is None && c.suffix is None,
        c.forbidden_prefixes@.len() == 0 && c.forbidden_suffixes@.len() == 0,
        c.required_prefixes@.len() == 0 && c.required_suffixes@.len() == 0,
        c.forbidden_patterns@.len() == 0 && c.required_pattern is None && c.ignore_pattern is None,
{
    KindConfig {
        style: None,
        prefix: None,
        suffix: None,
        forbidden_prefixes: Vec::new(),
        forbidden_suffixes: Vec::new(),
        required_prefixes: Vec::new(),
        required_suffixes: Vec::new(),
        forbidden_patterns: Vec::new(),
        required_pattern: None,
        ignore_pattern: None,
    }
}

fn exec_strip_slashes(s: &str) -> (r: String)
    ensures r@ == strip_slashes(s@),
{
    let c = chars_of(s);
    if c.len() >= 2 && c[0] == '/' && c[c.len() - 1] == '/' {
        string_of(&sub_chars(&c, 1, c.len() - 1))
    } else {
        string_of(&c)
    }
}



fn compile_all(ts: &Vec<String>) -> (r: Vec<Pattern>)
    ensures patterns_view(r@) == compiled_patterns(views(ts@)),
{
    let mut out: Vec<Pattern> = Vec::new();
    for i in 0..ts.len()
        invariant patterns_view(out@) == compiled_patterns(views(ts@).take(i as int)),
    {
        proof {
            assert(views(ts@).take(i + 1).drop_last() == views(ts@).take(i as int));
            assert(views(ts@).take(i + 1).last() == ts@[i as int]@);
        }
        let p = exec_strip_slashes(ts[i].as_str());
        let ghost before = out@;
        match Pattern::compile(p.as_str()) {
            Some(x) => {
                out.push(x);
                proof { assert(patterns_view(out@) =~= patterns_view(before).push(x@)); }
            },
            None => {},
        }
    }
    proof { assert(views(ts@).take(ts@.len() as int) == views(ts@)); }
    out
}

fn member_compiled(o: &Vec<(String, Json)>, key: &str, unslash: bool) -> (r: Option<Pattern>)
    ensures pattern_view(r) == member_pattern(o@, key@, unslash),
{
    match member_text(o, key) {
        Some(t) => {
            let p = if unslash { exec_strip_slashes(t.as_str()) } else { t };
            Pattern::compile(p.as_str())
        },
        None => None,
    }
}

/// The configuration an option value describes.
pub fn parse_kind_config(v: &Json) -> (c: KindConfig)
    ensures config_from(c, *v),
{
    match v {
        Json::Str(s) => {
            let mut c = empty_config();
            c.style = parse_case_style(s.as_str());
            c
        },
        Json::Object(o) => {
            let style = match member_text(o, "style") {
                Some(t) => parse_case_style(t.as_str()),
                None => None,
            };
            KindConfig {
                style,
                prefix: member_text(o, "prefix"),
                suffix: member_text(o, "suffix"),
                forbidden_prefixes: member_text_list(o, "forbiddenPrefixes"),
                forbidden_suffixes: member_text_list(o, "forbiddenSuffixes"),
                required_prefixes: member_text_list(o, "requiredPrefixes"),
                required_suffixes: member_text_list(o, "requiredSuffixes"),
                forbidden_patterns: compile_all(&member_text_list(o, "forbiddenPatterns")),
                required_pattern: member_compiled(o, "requiredPattern", true),
                ignore_pattern: member_compiled(o, "ignorePattern", false),
            }
        },
        _ => empty_config(),
    }
}


/// The kinds a `types` selector stands for.
pub open spec fn type_kind_names() -> Seq<Seq<char>> {
    seq![
        "ObjectTypeDefinition"@,
        "InterfaceTypeDefinition"@,
        "UnionTypeDefinition"@,
        "InputObjectTypeDefinition"@,
        "EnumTypeDefinition"@,
        "ScalarTypeDefinition"@,
    ]
}

/// What the option member `key: v` selects: nothing for the two
/// underscore switches, every kind of type for a `types` key, else the kind
/// the key names; each with the key's condition and the value.
pub open spec fn member_specs(key: Seq<char>, v: Json) -> Seq<(Seq<char>, Option<(PredicateKind, Seq<char>)>, Json)> {
    if key == "allowLeadingUnderscore"@ || key == "allowTrailingUnderscore"@ {
        Seq::empty()
    } else {
        let (kind, pred) = spec_parse_selector_key(key);
        if kind == "types"@ {
            type_kind_names().map_values(|k: Seq<char>| (k, pred, v))
        } else {
            seq![(kind, pred, v)]
        }
    }
}

/// What the option members `o` select, in order.
pub open spec fn selector_specs(o: Seq<(String, Json)>) -> Seq<(Seq<char>, Option<(PredicateKind, Seq<char>)>, Json)>
    decreases o.len(),
{
    if o.len() == 0 {
        Seq::empty()
    } else {
        selector_specs(o.drop_last()) + member_specs(o.last().0@, o.last().1)
    }
}

/// The selectors `sels` are those the specs describe.
pub open spec fn selectors_from(sels: Seq<KindSelector>, specs: Seq<(Seq<char>, Option<(PredicateKind, Seq<char>)>, Json)>) -> bool {
    &&& sels.len() == specs.len()
    &&& forall|i: int| 0 <= i < sels.len() ==> {
        &&& #[trigger] sels[i].kind_name@ == specs[i].0
        &&& pred_view(sels[i].predicate) == specs[i].1
        &&& config_from(sels[i].config, specs[i].2)
    }
}

/// No selector key of the options is misbracketed.
pub open spec fn keys_well_bracketed(raw: Json) -> bool {
    match raw {
        Json::Object(o) => forall|i: int| 0 <= i < o@.len() ==> !key_misbracketed(#[trigger] o@[i].0@),
        _ => true,
    }
}

/// `opts` are the options that `raw` describes: leading underscores refused
/// and trailing ones allowed unless said otherwise, and the selectors of
/// the other members.
pub open spec fn options_from(opts: NamingOptions, raw: Json) -> bool {
    match raw {
        Json::Object(o) => {
            &&& opts.allow_leading_underscore == match as_bool(member(o@, "allowLeadingUnderscore"@)) { Some(b) => b, None => false }
            &&& opts.allow_trailing_underscore == match as_bool(member(o@, "allowTrailingUnderscore"@)) { Some(b) => b, None => true }
            &&& selectors_from(opts.kind_configs@, selector_specs(o@))
        },
        _ => !opts.allow_leading_underscore && opts.allow_trailing_underscore && opts.kind_configs@.len() == 0,
    }
}

fn clone_pred(p: &Option<SelectorPredicate>) -> (r: Option<SelectorPredicate>)
    ensures pred_view(r) == pred_view(*p),
{
    match p {
        Some(x) => Some(SelectorPredicate { kind: x.kind, value: x.value.clone() }),
        None => None,
    }
}


proof fn lemma_selectors_concat(a: Seq<KindSelector>, sa: Seq<(Seq<char>, Option<(PredicateKind, Seq<char>)>, Json)>, b: Seq<KindSelector>, sb: Seq<(Seq<char>, Option<(PredicateKind, Seq<char>)>, Json)>)
    requires
        selectors_from(a, sa),
        selectors_from(b, sb),
    ensures selectors_from(a + b, sa + sb),
{
    let ab = a + b;
    let sab = sa + sb;
    assert forall|i: int| 0 <= i < ab.len() implies {
        &&& #[trigger] ab[i].kind_name@ == sab[i].0
        &&& pred_view(ab[i].predicate) == sab[i].1
        &&& config_from(ab[i].config, sab[i].2)
    } by {
        if i < a.len() {
            assert(ab[i] == a[i]);
            assert(sab[i] == sa[i]);
            assert(a[i].kind_name@ == sa[i].0);
        } else {
            let k = i - a.len();
            assert(ab[i] == b[k]);
            assert(sab[i] == sb[k]);
            assert(b[k].kind_name@ == sb[k].0);
        }
    }
}

/// The selectors of one option member.
fn member_selectors(key: &str, v: &Json) -> (r: Vec<KindSelector>)
    requires !key_misbracketed(key@),
    ensures selectors_from(r@, member_specs(key@, *v)),
{
    let mut sels: Vec<KindSelector> = Vec::new();
    let kc = chars_of(key);
    if chars_eq(&kc, &chars_of("allowLeadingUnderscore")) || chars_eq(&kc, &chars_of("allowTrailingUnderscore")) {
        return sels;
    }
    let (kind, pred) = parse_selector_key(key);
    if chars_eq(&chars_of(kind.as_str()), &chars_of("types")) {
        let kinds = vec![
            "ObjectTypeDefinition", "InterfaceTypeDefinition",
            "UnionTypeDefinition", "InputObjectTypeDefinition",
            "EnumTypeDefinition", "ScalarTypeDefinition",
        ];
        let ghost tail = type_kind_names().map_values(|k: Seq<char>| (k, pred_view(pred), *v));
        proof { assert(member_specs(key@, *v) =~= tail); }
        for t in 0..6
            invariant
                kinds@.len() == 6,
                kinds@[0]@ == type_kind_names()[0], kinds@[1]@ == type_kind_names()[1],
                kinds@[2]@ == type_kind_names()[2], kinds@[3]@ == type_kind_names()[3],
                kinds@[4]@ == type_kind_names()[4], kinds@[5]@ == type_kind_names()[5],
                tail == type_kind_names().map_values(|k: Seq<char>| (k, pred_view(pred), *v)),
                selectors_from(sels@, tail.take(t as int)),
        {
            let sel = KindSelector {
                kind_name: string_of(&chars_of(kinds[t])),
                predicate: clone_pred(&pred),
                config: parse_kind_config(v),
            };
            let ghost before = sels@;
            sels.push(sel);
            proof {
                assert(tail.take(t + 1) =~= tail.take(t as int).push(tail[t as int]));
                assert(tail[t as int] == (type_kind_names()[t as int], pred_view(pred), *v));
                assert(selectors_from(seq![sel], seq![tail[t as int]]));
                lemma_selectors_concat(before, tail.take(t as int), seq![sel], seq![tail[t as int]]);
                assert(sels@ =~= before + seq![sel]);
                assert(tail.take(t as int) + seq![tail[t as int]] =~= tail.take(t + 1));
            }
        }
        proof { assert(tail.take(6) =~= tail); }
    } else {
        let sel = KindSelector { kind_name: kind, predicate: pred, config: parse_kind_config(v) };
        sels.push(sel);
        proof { assert(selectors_from(sels@, member_specs(key@, *v))); }
    }
    sels
}

/// The rule's options from their JSON form.
pub fn parse_options(raw: &Json) -> (opts: NamingOptions)
    requires keys_well_bracketed(*raw),
    ensures options_from(opts, *raw),
{
    let mut opts = NamingOptions { allow_leading_underscore: false, allow_trailing_underscore: true, kind_configs: Vec::new() };
    let o = match raw {
        Json::Object(o) => o,
        _ => return opts,
    };
    match member_bool(o, "allowLeadingUnderscore") {
        Some(b) => { opts.allow_leading_underscore = b; },
        None => {},
    }
    match member_bool(o, "allowTrailingUnderscore") {
        Some(b) => { opts.allow_trailing_underscore = b; },
        None => {},
    }
    let mut sels: Vec<KindSelector> = Vec::new();
    for i in 0..o.len()
        invariant
            forall|j: int| 0 <= j < o@.len() ==> !key_misbracketed(#[trigger] o@[j].0@),
            selectors_from(sels@, selector_specs(o@.take(i as int))),
    {
        proof {
            assert(o@.take(i + 1).drop_last() == o@.take(i as int));
            assert(o@.take(i + 1).last() == o@[i as int]);
            assert(!key_misbracketed(o@[i as int].0@));
        }
        let mut more = member_selectors(o[i].0.as_str(), &o[i].1);
        let ghost before = sels@;
        let ghost added = more@;
        sels.append(&mut more);
        proof {
            lemma_selectors_concat(before, selector_specs(o@.take(i as int)), added, member_specs(o@[i as int].0@, o@[i as int].1));
            assert(sels@ =~= before + added);
        }
    }
    proof { assert(o@.take(o@.len() as int) == o@); }
    opts.kind_configs = sels;
    opts
}

/// The kind name selectors use for nodes of kind `k` (empty for kinds the
/// rule ignores).
pub open spec fn kind_name(k: SyntaxKind) -> Seq<char> {
    if k == SyntaxKind::FIELD_DEFINITION { "FieldDefinition"@ }
    else if k == SyntaxKind::INPUT_VALUE_DEFINITION { "InputValueDefinition"@ }
    else if k == SyntaxKind::ENUM_VALUE_DEFINITION || k == SyntaxKind::ENUM_VALUE { "EnumValueDefinition"@ }
    else if k == SyntaxKind::OBJECT_TYPE_DEFINITION || k == SyntaxKind::OBJECT_TYPE_EXTENSION { "ObjectTypeDefinition"@ }
    else if k == SyntaxKind::INTERFACE_TYPE_DEFINITION || k == SyntaxKind::INTERFACE_TYPE_EXTENSION { "InterfaceTypeDefinition"@ }
    else if k == SyntaxKind::UNION_TYPE_DEFINITION || k == SyntaxKind::UNION_TYPE_EXTENSION { "UnionTypeDefinition"@ }
    else if k == SyntaxKind::ENUM_TYPE_DEFINITION || k == SyntaxKind::ENUM_TYPE_EXTENSION { "EnumTypeDefinition"@ }
    else if k == SyntaxKind::SCALAR_TYPE_DEFINITION || k == SyntaxKind::SCALAR_TYPE_EXTENSION { "ScalarTypeDefinition"@ }
    else if k == SyntaxKind::INPUT_OBJECT_TYPE_DEFINITION || k == SyntaxKind::INPUT_OBJECT_TYPE_EXTENSION { "InputObjectTypeDefinition"@ }
    else if k == SyntaxKind::DIRECTIVE_DEFINITION { "DirectiveDefinition"@ }
    else if k == SyntaxKind::OPERATION_DEFINITION { "OperationDefinition"@ }
    else if k == SyntaxKind::FRAGMENT_DEFINITION { "FragmentDefinition"@ }
    else if k == SyntaxKind::VARIABLE_DEFINITION { "VariableDefinition"@ }
    else if k == SyntaxKind::FIELD { "Field"@ }
    else { ""@ }
}

fn exec_kind_name(k: SyntaxKind) -> (r: &'static str)
    ensures r@ == kind_name(k),
{
    match k {
        SyntaxKind::FIELD_DEFINITION => "FieldDefinition",
        SyntaxKind::INPUT_VALUE_DEFINITION => "InputValueDefinition",
        SyntaxKind::ENUM_VALUE_DEFINITION | SyntaxKind::ENUM_VALUE => "EnumValueDefinition",
        SyntaxKind::OBJECT_TYPE_DEFINITION | SyntaxKind::OBJECT_TYPE_EXTENSION => "ObjectTypeDefinition",
        SyntaxKind::INTERFACE_TYPE_DEFINITION | SyntaxKind::INTERFACE_TYPE_EXTENSION => "InterfaceTypeDefinition",
        SyntaxKind::UNION_TYPE_DEFINITION | SyntaxKind::UNION_TYPE_EXTENSION => "UnionTypeDefinition",
        SyntaxKind::ENUM_TYPE_DEFINITION | SyntaxKind::ENUM_TYPE_EXTENSION => "EnumTypeDefinition",
        SyntaxKind::SCALAR_TYPE_DEFINITION | SyntaxKind::SCALAR_TYPE_EXTENSION => "ScalarTypeDefinition",
        SyntaxKind::INPUT_OBJECT_TYPE_DEFINITION | SyntaxKind::INPUT_OBJECT_TYPE_EXTENSION => "InputObjectTypeDefinition",
        SyntaxKind::DIRECTIVE_DEFINITION => "DirectiveDefinition",
        SyntaxKind::OPERATION_DEFINITION => "OperationDefinition",
        SyntaxKind::FRAGMENT_DEFINITION => "FragmentDefinition",
        SyntaxKind::VARIABLE_DEFINITION => "VariableDefinition",
        SyntaxKind::FIELD => "Field",
        _ => "",
    }
}

/// How messages name a node of kind `k`.
pub open spec fn display_name(k: SyntaxKind) -> Seq<char> {
    if k == SyntaxKind::OBJECT_TYPE_DEFINITION || k == SyntaxKind::OBJECT_TYPE_EXTENSION { "type"@ }
    else if k == SyntaxKind::INTERFACE_TYPE_DEFINITION || k == SyntaxKind::INTERFACE_TYPE_EXTENSION { "interface"@ }
    else if k == SyntaxKind::UNION_TYPE_DEFINITION || k == SyntaxKind::UNION_TYPE_EXTENSION { "union"@ }
    else if k == SyntaxKind::ENUM_TYPE_DEFINITION || k == SyntaxKind::ENUM_TYPE_EXTENSION { "enum"@ }
    else if k == SyntaxKind::SCALAR_TYPE_DEFINITION || k == SyntaxKind::SCALAR_TYPE_EXTENSION { "scalar"@ }
    else if k == SyntaxKind::INPUT_OBJECT_TYPE_DEFINITION || k == SyntaxKind::INPUT_OBJECT_TYPE_EXTENSION { "input"@ }
    else if k == SyntaxKind::DIRECTIVE_DEFINITION { "directive"@ }
    else if k == SyntaxKind::FIELD_DEFINITION { "field"@ }
    else if k == SyntaxKind::INPUT_VALUE_DEFINITION { "input value"@ }
    else if k == SyntaxKind::ENUM_VALUE_DEFINITION || k == SyntaxKind::ENUM_VALUE { "enum value"@ }
    else if k == SyntaxKind::OPERATION_DEFINITION { "operation"@ }
    else if k == SyntaxKind::FRAGMENT_DEFINITION { "fragment"@ }
    else if k == SyntaxKind::VARIABLE_DEFINITION { "variable"@ }
    else if k == SyntaxKind::FIELD { "field"@ }
    else { ""@ }
}

fn exec_display_name(k: SyntaxKind) -> (r: &'static str)
    ensures r@ == display_name(k),
{
    match k {
        SyntaxKind::OBJECT_TYPE_DEFINITION | SyntaxKind::OBJECT_TYPE_EXTENSION => "type",
        SyntaxKind::INTERFACE_TYPE_DEFINITION | SyntaxKind::INTERFACE_TYPE_EXTENSION => "interface",
        SyntaxKind::UNION_TYPE_DEFINITION | SyntaxKind::UNION_TYPE_EXTENSION => "union",
        SyntaxKind::ENUM_TYPE_DEFINITION | SyntaxKind::ENUM_TYPE_EXTENSION => "enum",
        SyntaxKind::SCALAR_TYPE_DEFINITION | SyntaxKind::SCALAR_TYPE_EXTENSION => "scalar",
        SyntaxKind::INPUT_OBJECT_TYPE_DEFINITION | SyntaxKind::INPUT_OBJECT_TYPE_EXTENSION => "input",
        SyntaxKind::DIRECTIVE_DEFINITION => "directive",
        SyntaxKind::FIELD_DEFINITION => "field",
        SyntaxKind::INPUT_VALUE_DEFINITION => "input value",
        SyntaxKind::ENUM_VALUE_DEFINITION | SyntaxKind::ENUM_VALUE => "enum value",
        SyntaxKind::OPERATION_DEFINITION => "operation",
        SyntaxKind::FRAGMENT_DEFINITION => "fragment",
        SyntaxKind::VARIABLE_DEFINITION => "variable",
        SyntaxKind::FIELD => "field",
        _ => "",
    }
}

/// Type definitions and extensions.
pub open spec fn is_type_def(k: SyntaxKind) -> bool {
    ||| k == SyntaxKind::OBJECT_TYPE_DEFINITION || k == SyntaxKind::INTERFACE_TYPE_DEFINITION
    ||| k == SyntaxKind::UNION_TYPE_DEFINITION || k == SyntaxKind::ENUM_TYPE_DEFINITION
    ||| k == SyntaxKind::SCALAR_TYPE_DEFINITION || k == SyntaxKind::INPUT_OBJECT_TYPE_DEFINITION
    ||| k == SyntaxKind::OBJECT_TYPE_EXTENSION || k == SyntaxKind::INTERFACE_TYPE_EXTENSION
    ||| k == SyntaxKind::UNION_TYPE_EXTENSION || k == SyntaxKind::ENUM_TYPE_EXTENSION
    ||| k == SyntaxKind::SCALAR_TYPE_EXTENSION || k == SyntaxKind::INPUT_OBJECT_TYPE_EXTENSION
}

fn exec_is_type_def(k: SyntaxKind) -> (r: bool)
    ensures r == is_type_def(k),
{
    match k {
        SyntaxKind::OBJECT_TYPE_DEFINITION | SyntaxKind::INTERFACE_TYPE_DEFINITION
        | SyntaxKind::UNION_TYPE_DEFINITION | SyntaxKind::ENUM_TYPE_DEFINITION
        | SyntaxKind::SCALAR_TYPE_DEFINITION | SyntaxKind::INPUT_OBJECT_TYPE_DEFINITION
        | SyntaxKind::OBJECT_TYPE_EXTENSION | SyntaxKind::INTERFACE_TYPE_EXTENSION
        | SyntaxKind::UNION_TYPE_EXTENSION | SyntaxKind::ENUM_TYPE_EXTENSION
        | SyntaxKind::SCALAR_TYPE_EXTENSION | SyntaxKind::INPUT_OBJECT_TYPE_EXTENSION => true,
        _ => false,
    }
}

/// The name of the nearest named type or field at or above node `start`.
pub open spec fn name_above(nodes: Seq<Node>, start: int) -> Option<Seq<char>>
    decreases start,
{
    if start < 0 || start >= nodes.len() {
        None
    } else {
        let p = nodes[start];
        if (is_type_def(p.kind) || p.kind == SyntaxKind::FIELD) && p.name is Some {
            Some(p.name.unwrap()@)
        } else {
            match p.parent {
                Some(q) => if q < start { name_above(nodes, q as int) } else { None },
                None => None,
            }
        }
    }
}

/// The name of the nearest named type or field above node `i`.
pub open spec fn parent_name(nodes: Seq<Node>, i: int) -> Option<Seq<char>> {
    match nodes[i].parent {
        Some(p) => name_above(nodes, p as int),
        None => None,
    }
}

fn exec_parent_name(tree: &Tree, i: usize) -> (r: Option<String>)
    requires
        tree.wf(),
        i < tree.nodes@.len(),
    ensures opt_text(r) == parent_name(tree.nodes@, i as int),
{
    let mut cur = match tree.nodes[i].parent {
        Some(p) => p,
        None => return None,
    };
    loop
        invariant
            tree.wf(),
            cur < i < tree.nodes@.len(),
            parent_name(tree.nodes@, i as int) == name_above(tree.nodes@, cur as int),
        decreases cur,
    {
        let p = &tree.nodes[cur];
        if exec_is_type_def(p.kind) || p.kind == SyntaxKind::FIELD {
            match &p.name {
                Some(n) => return Some(n.clone()),
                None => {},
            }
        }
        match p.parent {
            Some(q) => { cur = q; },
            None => return None,
        }
    }
}

/// `s` with its first character in ASCII uppercase (`?` for nothing).
pub open spec fn capitalized(s: Seq<char>) -> Seq<char> {
    if s.len() == 0 { seq!['?'] } else { seq![upper_char(s[0])] + s.skip(1) }
}

fn exec_capitalized(s: &str) -> (r: Vec<char>)
    ensures r@ == capitalized(s@),
{
    let c = chars_of(s);
    if c.len() == 0 {
        return vec!['?'];
    }
    let mut r = vec![exec_upper_char(c[0])];
    push_all(&mut r, &crate::text::skip_chars(&c, 1));
    proof { assert(r@ =~= capitalized(s@)); }
    r
}

/// The number of leading characters of `s` that are not white space.
pub open spec fn word_len(s: Seq<char>) -> nat
    decreases s.len(),
{
    if s.len() > 0 && !is_ws(s[0]) { 1 + word_len(s.skip(1)) } else { 0 }
}

/// The operation keyword at `offset` in `src`: `query`, `mutation` or
/// `subscription` when the first word there is one, else `operation`.
pub open spec fn operation_word(src: Seq<char>, offset: int) -> Seq<char> {
    let rest = if offset <= src.len() { src.skip(offset) } else { Seq::empty() };
    let t = trim_start(rest);
    let w = t.take(word_len(t) as int);
    if t.len() > 0 && (w == "query"@ || w == "mutation"@ || w == "subscription"@) { w } else { "operation"@ }
}

proof fn lemma_word_len_bound(s: Seq<char>)
    ensures word_len(s) <= s.len(),
    decreases s.len(),
{
    if s.len() > 0 && !is_ws(s[0]) {
        lemma_word_len_bound(s.skip(1));
    }
}

fn exec_operation_word(src: &Vec<char>, offset: usize) -> (r: Vec<char>)
    ensures r@ == operation_word(src@, offset as int),
{
    let rest = if offset <= src.len() { crate::text::skip_chars(src, offset) } else { Vec::new() };
    let t = trim_start_chars(&rest);
    let mut k: usize = 0;
    proof { assert(t@.skip(0) =~= t@); }
    while k < t.len() && !exec_is_ws(t[k])
        invariant
            k <= t@.len(),
            word_len(t@) == k + word_len(t@.skip(k as int)),
        decreases t.len() - k,
    {
        proof { assert(t@.skip(k as int).skip(1) == t@.skip(k + 1)); }
        k += 1;
    }
    let w = sub_chars(&t, 0, k);
    proof { assert(w@ =~= t@.take(k as int)); }
    if t.len() > 0 && (chars_eq(&w, &chars_of("query")) || chars_eq(&w, &chars_of("mutation")) || chars_eq(&w, &chars_of("subscription"))) {
        w
    } else {
        chars_of("operation")
    }
}

/// The text before a `:` in the field at `span`, trimmed, if any: the
/// field's alias.
pub open spec fn alias_at(src: Seq<char>, span: Span) -> Option<Seq<char>> {
    let text = src.subrange(span.offset as int, span.offset + span.len);
    match find_from(text, ':', 0, text.len() as int) {
        Some(c) => {
            let before = trim(text.take(c));
            if before.len() > 0 { Some(before) } else { None }
        },
        None => None,
    }
}

fn exec_alias_at(src: &Vec<char>, span: Span) -> (r: Option<Vec<char>>)
    requires span.offset + span.len <= src@.len(),
    ensures
        match r {
            Some(a) => alias_at(src@, span) == Some(a@),
            None => alias_at(src@, span) is None,
        },
{
    let n = src.len();
    proof { assert(span.offset + span.len <= n); }
    let text = sub_chars(src, span.offset, span.offset + span.len);
    match exec_find_from(&text, ':', 0, text.len()) {
        Some(c) => {
            let t = sub_chars(&text, 0, c);
            proof { assert(t@ =~= text@.take(c as int)); }
            let before = trim_chars(&t);
            if before.len() > 0 { Some(before) } else { None }
        },
        None => None,
    }
}

/// The name checked against the style and affixes: without the leading
/// underscores (and, where they are allowed, the trailing ones) when
/// either is allowed, unless nothing would remain.
pub open spec fn checked_name(name: Seq<char>, lead: bool, trail: bool) -> Seq<char> {
    if lead || trail {
        let s1 = strip_leading(name, '_');
        let s2 = if trail { strip_trailing(s1, '_') } else { s1 };
        if s2.len() == 0 { name } else { s2 }
    } else {
        name
    }
}

fn exec_checked_name(name: &Vec<char>, lead: bool, trail: bool) -> (r: Vec<char>)
    ensures r@ == checked_name(name@, lead, trail),
{
    if lead || trail {
        let s1 = exec_strip_leading(name, '_');
        let s2 = if trail { exec_strip_trailing(&s1, '_') } else { s1 };
        if s2.len() == 0 { sub_chars(name, 0, name.len()) } else { s2 }
    } else {
        let r = sub_chars(name, 0, name.len());
        proof { assert(r@ =~= name@); }
        r
    }
}

/// Whether `name` passes as `style`: a name of at most one ASCII character
/// is judged by that character, a longer one by its detected style, where
/// `PascalCase` admits `StrictPascalCase` and the screaming styles admit any
/// all-uppercase name without the other separator.
pub open spec fn spec_is_case_loose(name: Seq<char>, style: CaseStyle) -> bool {
    if name.len() == 0 || (name.len() == 1 && (name[0] as u32) < 128) {
        match style {
            CaseStyle::Camel => name.len() == 1 && is_lower(name[0]),
            CaseStyle::Snake | CaseStyle::Kebab => true,
            _ => name.len() == 1 && is_upper(name[0]),
        }
    } else {
        let d = spec_detect_case(name);
        let shouting = letters_upper(name) && exists|i: int| 0 <= i < name.len() && is_upper(#[trigger] name[i]);
        match style {
            CaseStyle::Pascal => d == Some(CaseStyle::Pascal) || d == Some(CaseStyle::StrictPascal),
            CaseStyle::StrictPascal => d == Some(CaseStyle::StrictPascal),
            CaseStyle::ScreamingSnake => d == Some(CaseStyle::ScreamingSnake) || (!name.contains('-') && shouting),
            CaseStyle::ScreamingKebab => d == Some(CaseStyle::ScreamingKebab) || (!name.contains('_') && shouting),
            _ => d == Some(style),
        }
    }
}

fn has_upper(s: &Vec<char>) -> (r: bool)
    ensures r == exists|i: int| 0 <= i < s@.len() && is_upper(#[trigger] s@[i]),
{
    for i in 0..s.len()
        invariant forall|j: int| 0 <= j < i ==> !is_upper(#[trigger] s@[j]),
    {
        if exec_is_upper(s[i]) {
            return true;
        }
    }
    false
}

/// Whether `name` passes as `style`, loosely.
pub fn is_case_loose(name: &str, style: CaseStyle) -> (r: bool)
    ensures r == spec_is_case_loose(name@, style),
{
    let c = chars_of(name);
    if c.len() == 0 || (c.len() == 1 && (c[0] as u32) < 128) {
        return match style {
            CaseStyle::Camel => c.len() == 1 && exec_is_lower(c[0]),
            CaseStyle::Snake | CaseStyle::Kebab => true,
            _ => c.len() == 1 && exec_is_upper(c[0]),
        };
    }
    let d = detect_case(name);
    match style {
        CaseStyle::Pascal => d == Some(CaseStyle::Pascal) || d == Some(CaseStyle::StrictPascal),
        CaseStyle::StrictPascal => d == Some(CaseStyle::StrictPascal),
        CaseStyle::ScreamingSnake => d == Some(CaseStyle::ScreamingSnake)
            || (!contains_char(&c, '-') && exec_letters_upper(&c) && has_upper(&c)),
        CaseStyle::ScreamingKebab => d == Some(CaseStyle::ScreamingKebab)
            || (!contains_char(&c, '_') && exec_letters_upper(&c) && has_upper(&c)),
        _ => d == Some(style),
    }
}


/// A selector's condition holds for a node with parent `parent` and name
/// `name`.
pub open spec fn selector_holds(pred: Option<(PredicateKind, Seq<char>)>, parent: Option<Seq<char>>, name: Seq<char>, schema: Option<Schema>) -> bool {
    match pred {
        None => true,
        Some((k, v)) => match k {
            PredicateKind::ParentNameEquals => parent == Some(v),
            PredicateKind::ParentNameNotEquals => parent != Some(v),
            _ => match (schema, parent) {
                (Some(s), Some(p)) => type_field_type(s, p, name) == Some(v),
                _ => false,
            },
        },
    }
}

fn exec_selector_holds(pred: &Option<SelectorPredicate>, parent: &Option<String>, name: &Vec<char>, schema: Option<&Schema>) -> (r: bool)
    ensures
        r == selector_holds(pred_view(*pred), opt_text(*parent), name@,
            match schema { Some(s) => Some(*s), None => None }),
{
    match pred {
        None => true,
        Some(p) => match p.kind {
            PredicateKind::ParentNameEquals => match parent {
                Some(x) => chars_eq(&chars_of(x.as_str()), &chars_of(p.value.as_str())),
                None => false,
            },
            PredicateKind::ParentNameNotEquals => match parent {
                Some(x) => !chars_eq(&chars_of(x.as_str()), &chars_of(p.value.as_str())),
                None => true,
            },
            _ => match (schema, parent) {
                (Some(s), Some(x)) => match field_type(s, x.as_str(), string_of(name).as_str()) {
                    Some(t) => chars_eq(&chars_of(t.as_str()), &chars_of(p.value.as_str())),
                    None => false,
                },
                _ => false,
            },
        },
    }
}

/// The first of `v` that starts `name`.
pub open spec fn first_prefix_of(v: Seq<Seq<char>>, name: Seq<char>) -> Option<Seq<char>>
    decreases v.len(),
{
    if v.len() == 0 { None } else if starts_with(name, v[0]) { Some(v[0]) } else { first_prefix_of(v.drop_first(), name) }
}

/// The first of `v` that ends `name`.
pub open spec fn first_suffix_of(v: Seq<Seq<char>>, name: Seq<char>) -> Option<Seq<char>>
    decreases v.len(),
{
    if v.len() == 0 { None } else if ends_with(name, v[0]) { Some(v[0]) } else { first_suffix_of(v.drop_first(), name) }
}

/// The first of the patterns `v` that matches in `name`.
pub open spec fn first_match_of(v: Seq<Seq<char>>, name: Seq<char>) -> Option<Seq<char>>
    decreases v.len(),
{
    if v.len() == 0 { None } else if regex_matches(v[0], name) { Some(v[0]) } else { first_match_of(v.drop_first(), name) }
}

fn exec_first_affix(v: &Vec<String>, name: &Vec<char>, prefix: bool) -> (r: Option<String>)
    ensures
        opt_text(r) == if prefix { first_prefix_of(views(v@), name@) } else { first_suffix_of(views(v@), name@) },
{
    let ghost vv = views(v@);
    proof { assert(vv.skip(0) =~= vv); }
    for i in 0..v.len()
        invariant
            vv == views(v@),
            (if prefix { first_prefix_of(vv, name@) } else { first_suffix_of(vv, name@) })
                == (if prefix { first_prefix_of(vv.skip(i as int), name@) } else { first_suffix_of(vv.skip(i as int), name@) }),
    {
        proof {
            assert(vv.skip(i as int).drop_first() == vv.skip(i + 1));
            assert(vv.skip(i as int)[0] == v@[i as int]@);
        }
        let a = chars_of(v[i].as_str());
        let hit = if prefix { exec_starts_with(name, &a) } else { exec_ends_with(name, &a) };
        if hit {
            return Some(v[i].clone());
        }
    }
    None
}

fn exec_first_match(v: &Vec<Pattern>, name: &Vec<char>) -> (r: Option<String>)
    ensures opt_text(r) == first_match_of(patterns_view(v@), name@),
{
    let ghost vv = patterns_view(v@);
    let ns = string_of(name);
    proof { assert(vv.skip(0) =~= vv); }
    for i in 0..v.len()
        invariant
            vv == patterns_view(v@),
            ns@ == name@,
            first_match_of(vv, name@) == first_match_of(vv.skip(i as int), name@),
    {
        proof {
            assert(vv.skip(i as int).drop_first() == vv.skip(i + 1));
            assert(vv.skip(i as int)[0] == v@[i as int]@);
        }
        if v[i].is_match(ns.as_str()) {
            return Some(string_of(&chars_of(v[i].source())));
        }
    }
    None
}

fn exec_any_prefix(v: &Vec<String>, name: &Vec<char>, prefix: bool) -> (r: bool)
    ensures
        r == if prefix {
            exists|i: int| 0 <= i < v@.len() && starts_with(name@, #[trigger] v@[i]@)
        } else {
            exists|i: int| 0 <= i < v@.len() && ends_with(name@, #[trigger] v@[i]@)
        },
{
    for i in 0..v.len()
        invariant
            forall|j: int| 0 <= j < i ==> if prefix { !starts_with(name@, #[trigger] v@[j]@) } else { !ends_with(name@, v@[j]@) },
    {
        let a = chars_of(v[i].as_str());
        let hit = if prefix { exec_starts_with(name, &a) } else { exec_ends_with(name, &a) };
        if hit {
            return true;
        }
    }
    false
}

/// A diagnostic `label "name" tail`.
pub open spec fn name_diag(label: Seq<char>, name: Seq<char>, tail: Seq<char>, span: Span) -> (Seq<char>, Span, Seq<(Seq<char>, Span, Seq<char>)>) {
    plain_diag(label + " \""@ + name + "\" "@ + tail, span)
}

/// The diagnostic for a forbidden affix or pattern found, if any.
pub open spec fn found_diag(hit: Option<Seq<char>>, label: Seq<char>, name: Seq<char>, before: Seq<char>, after: Seq<char>, span: Span) -> Seq<(Seq<char>, Span, Seq<(Seq<char>, Span, Seq<char>)>)> {
    match hit {
        Some(x) => seq![name_diag(label, name, before + x + after, span)],
        None => Seq::empty(),
    }
}

/// What one configuration reports of a name, and whether its report ends
/// the checking of the node: the first of its checks that fails reports and
/// ends it. The checks, in order: the style, the prefix, the suffix, the
/// forbidden prefixes, the forbidden suffixes, the required prefixes, the
/// required suffixes, the forbidden patterns and the required pattern.
pub open spec fn config_result(c: KindConfig, name: Seq<char>, check: Seq<char>, label: Seq<char>, span: Span) -> (Seq<(Seq<char>, Span, Seq<(Seq<char>, Span, Seq<char>)>)>, bool) {
    let style_miss = match style_view(c.style) { Some((st, _)) => !spec_is_case_loose(check, st), None => false };
    let prefix_miss = match opt_text(c.prefix) { Some(p) => !starts_with(check, p), None => false };
    let suffix_miss = match opt_text(c.suffix) { Some(x) => x.len() > 0 && !ends_with(check, x), None => false };
    let fp = first_prefix_of(views(c.forbidden_prefixes@), name);
    let fs = first_suffix_of(views(c.forbidden_suffixes@), name);
    let fm = first_match_of(patterns_view(c.forbidden_patterns@), name);
    let rp = views(c.required_prefixes@);
    let rs = views(c.required_suffixes@);
    if style_miss {
        let (st, sn) = style_view(c.style).unwrap();
        (seq![(label + " \""@ + name + "\" should be in "@ + sn + " format"@, span,
            seq![("Convert to "@ + sn, span, spec_convert_case(name, st, Seq::empty()))])], true)
    } else if prefix_miss {
        (seq![name_diag(label, name, "should have \""@ + opt_text(c.prefix).unwrap() + "\" prefix"@, span)], true)
    } else if suffix_miss {
        (seq![name_diag(label, name, "should have \""@ + opt_text(c.suffix).unwrap() + "\" suffix"@, span)], true)
    } else if fp is Some {
        (found_diag(fp, label, name, "should not have \""@, "\" prefix"@, span), true)
    } else if fs is Some {
        (found_diag(fs, label, name, "should not have \""@, "\" suffix"@, span), true)
    } else if rp.len() > 0 && !(exists|i: int| 0 <= i < rp.len() && starts_with(check, #[trigger] rp[i])) {
        (seq![name_diag(label, name, "should have \""@ + rp[0] + "\" prefix"@, span)], true)
    } else if rs.len() > 0 && !(exists|i: int| 0 <= i < rs.len() && ends_with(check, #[trigger] rs[i])) {
        (seq![name_diag(label, name, "should have \""@ + rs[0] + "\" suffix"@, span)], true)
    } else if fm is Some {
        (found_diag(fm, label, name, "should not match pattern \""@, "\""@, span), true)
    } else {
        match pattern_view(c.required_pattern) {
            Some(p) => if !regex_matches(p, name) {
                (seq![name_diag(label, name, "should match pattern \""@ + p + "\""@, span)], true)
            } else {
                (Seq::empty(), false)
            },
            None => (Seq::empty(), false),
        }
    }
}


fn push_name_diag(out: &mut Vec<Diagnostic>, label: &Vec<char>, name: &Vec<char>, tail: &Vec<char>, span: Span)
    ensures diag_views(final(out)@) == diag_views(old(out)@).push(name_diag(label@, name@, tail@, span)),
{
    let mut m: Vec<char> = Vec::new();
    push_all(&mut m, label);
    push_str(&mut m, " \"");
    push_all(&mut m, name);
    push_str(&mut m, "\" ");
    push_all(&mut m, tail);
    push_diag(out, &m, span);
}

fn push_found(out: &mut Vec<Diagnostic>, hit: &Option<String>, label: &Vec<char>, name: &Vec<char>, before: &str, after: &str, span: Span)
    ensures diag_views(final(out)@) == diag_views(old(out)@) + found_diag(opt_text(*hit), label@, name@, before@, after@, span),
{
    match hit {
        Some(x) => {
            let mut t: Vec<char> = Vec::new();
            push_str(&mut t, before);
            push_str(&mut t, x.as_str());
            push_str(&mut t, after);
            push_name_diag(out, label, name, &t, span);
        },
        None => {
            proof { assert(diag_views(out@) + Seq::<(Seq<char>, Span, Seq<(Seq<char>, Span, Seq<char>)>)>::empty() =~= diag_views(out@)); }
        },
    }
}

/// Appends what the configuration `c` reports of a name; returns whether
/// its report ends the checking of the node.
fn exec_config_result(out: &mut Vec<Diagnostic>, c: &KindConfig, name: &Vec<char>, check: &Vec<char>, label: &Vec<char>, span: Span) -> (stop: bool)
    ensures
        diag_views(final(out)@) == diag_views(old(out)@) + config_result(*c, name@, check@, label@, span).0,
        stop == config_result(*c, name@, check@, label@, span).1,
{
    let ghost start = diag_views(out@);
    let ghost res = config_result(*c, name@, check@, label@, span);
    let cs = string_of(check);
    let style_miss = match &c.style { Some((st, _)) => !is_case_loose(cs.as_str(), *st), None => false };
    let prefix_miss = match &c.prefix { Some(p) => !exec_starts_with(check, &chars_of(p.as_str())), None => false };
    let suffix_miss = match &c.suffix {
        Some(x) => {
            let xc = chars_of(x.as_str());
            xc.len() > 0 && !exec_ends_with(check, &xc)
        },
        None => false,
    };
    if style_miss {
        match &c.style {
            Some((st, sn)) => {
                let mut m: Vec<char> = Vec::new();
                push_all(&mut m, label);
                push_str(&mut m, " \"");
                push_all(&mut m, name);
                push_str(&mut m, "\" should be in ");
                push_str(&mut m, sn.as_str());
                push_str(&mut m, " format");
                let mut d: Vec<char> = Vec::new();
                push_str(&mut d, "Convert to ");
                push_str(&mut d, sn.as_str());
                let converted = convert_case(string_of(name).as_str(), *st, Vec::new().as_slice());
                proof { assert(views(Seq::<String>::empty()) =~= Seq::<Seq<char>>::empty()); }
                let sg = vec![suggestion(&d, span, &chars_of(converted.as_str()))];
                proof { assert(sg@.map_values(|x: Suggestion| sugg_view(x)) =~= res.0[0].2); }
                push_diag_with(out, &m, span, sg);
                proof { assert(diag_views(out@) =~= start + res.0); }
            },
            None => {},
        }
        return true;
    }
    if prefix_miss {
        let mut t: Vec<char> = Vec::new();
        push_str(&mut t, "should have \"");
        match &c.prefix { Some(p) => push_str(&mut t, p.as_str()), None => {} }
        push_str(&mut t, "\" prefix");
        push_name_diag(out, label, name, &t, span);
        proof { assert(diag_views(out@) =~= start + res.0); }
        return true;
    }
    if suffix_miss {
        let mut t: Vec<char> = Vec::new();
        push_str(&mut t, "should have \"");
        match &c.suffix { Some(x) => push_str(&mut t, x.as_str()), None => {} }
        push_str(&mut t, "\" suffix");
        push_name_diag(out, label, name, &t, span);
        proof { assert(diag_views(out@) =~= start + res.0); }
        return true;
    }
    let fp = exec_first_affix(&c.forbidden_prefixes, name, true);
    if fp.is_some() {
        push_found(out, &fp, label, name, "should not have \"", "\" prefix", span);
        proof { assert(diag_views(out@) =~= start + res.0); }
        return true;
    }
    let fs = exec_first_affix(&c.forbidden_suffixes, name, false);
    if fs.is_some() {
        push_found(out, &fs, label, name, "should not have \"", "\" suffix", span);
        proof { assert(diag_views(out@) =~= start + res.0); }
        return true;
    }
    proof {
        assert forall|i: int| 0 <= i < c.required_prefixes@.len() implies #[trigger] views(c.required_prefixes@)[i] == c.required_prefixes@[i]@ by {}
        assert forall|i: int| 0 <= i < c.required_suffixes@.len() implies #[trigger] views(c.required_suffixes@)[i] == c.required_suffixes@[i]@ by {}
    }
    if c.required_prefixes.len() > 0 && !exec_any_prefix(&c.required_prefixes, check, true) {
        let mut t: Vec<char> = Vec::new();
        push_str(&mut t, "should have \"");
        push_str(&mut t, c.required_prefixes[0].as_str());
        push_str(&mut t, "\" prefix");
        push_name_diag(out, label, name, &t, span);
        proof {
            let rp = views(c.required_prefixes@);
            if exists|i: int| 0 <= i < rp.len() && starts_with(check@, #[trigger] rp[i]) {
                let i = choose|i: int| 0 <= i < rp.len() && starts_with(check@, #[trigger] rp[i]);
                assert(starts_with(check@, c.required_prefixes@[i]@));
            }
            assert(diag_views(out@) =~= start + res.0);
        }
        return true;
    }
    proof {
        let rp = views(c.required_prefixes@);
        if rp.len() > 0 {
            let i = choose|i: int| 0 <= i < c.required_prefixes@.len() && starts_with(check@, #[trigger] c.required_prefixes@[i]@);
            assert(starts_with(check@, rp[i]));
        }
    }
    if c.required_suffixes.len() > 0 && !exec_any_prefix(&c.required_suffixes, check, false) {
        let mut t: Vec<char> = Vec::new();
        push_str(&mut t, "should have \"");
        push_str(&mut t, c.required_suffixes[0].as_str());
        push_str(&mut t, "\" suffix");
        push_name_diag(out, label, name, &t, span);
        proof {
            let rs = views(c.required_suffixes@);
            if exists|i: int| 0 <= i < rs.len() && ends_with(check@, #[trigger] rs[i]) {
                let i = choose|i: int| 0 <= i < rs.len() && ends_with(check@, #[trigger] rs[i]);
                assert(ends_with(check@, c.required_suffixes@[i]@));
            }
            assert(diag_views(out@) =~= start + res.0);
        }
        return true;
    }
    proof {
        let rs = views(c.required_suffixes@);
        if rs.len() > 0 {
            let i = choose|i: int| 0 <= i < c.required_suffixes@.len() && ends_with(check@, #[trigger] c.required_suffixes@[i]@);
            assert(ends_with(check@, rs[i]));
        }
    }
    let fm = exec_first_match(&c.forbidden_patterns, name);
    if fm.is_some() {
        push_found(out, &fm, label, name, "should not match pattern \"", "\"", span);
        proof { assert(diag_views(out@) =~= start + res.0); }
        return true;
    }
    let ns = string_of(name);
    match &c.required_pattern {
        Some(p) => {
            if !p.is_match(ns.as_str()) {
                let mut t: Vec<char> = Vec::new();
                push_str(&mut t, "should match pattern \"");
                push_str(&mut t, p.source());
                push_str(&mut t, "\"");
                push_name_diag(out, label, name, &t, span);
                proof { assert(diag_views(out@) =~= start + res.0); }
                return true;
            }
        },
        None => {},
    }
    proof { assert(diag_views(out@) =~= start + res.0); }
    false
}


/// What the selectors from `j` on report of a node of kind `kstr`, up to
/// the first whose report ends the checking.
pub open spec fn selectors_result(
    sels: Seq<KindSelector>, j: int, kstr: Seq<char>, parent: Option<Seq<char>>, name: Seq<char>,
    check: Seq<char>, label: Seq<char>, span: Span, schema: Option<Schema>,
) -> Seq<(Seq<char>, Span, Seq<(Seq<char>, Span, Seq<char>)>)>
    decreases sels.len() - j,
{
    if j < 0 || j >= sels.len() {
        Seq::empty()
    } else {
        let rest = selectors_result(sels, j + 1, kstr, parent, name, check, label, span, schema);
        let sel = sels[j];
        if sel.kind_name@ == kstr && selector_holds(pred_view(sel.predicate), parent, name, schema) {
            let (ds, stop) = config_result(sel.config, name, check, label, span);
            if stop { ds } else { ds + rest }
        } else {
            rest
        }
    }
}

/// Some selector for `kstr` exempts `name` by its ignore pattern.
pub open spec fn is_ignored(sels: Seq<KindSelector>, kstr: Seq<char>, name: Seq<char>) -> bool {
    exists|i: int| 0 <= i < sels.len() && #[trigger] sels[i].kind_name@ == kstr
        && (pattern_view(sels[i].config.ignore_pattern) matches Some(p) && regex_matches(p, name))
}

/// How messages name node `i`: an operation by its keyword, a field by the
/// type or field above it, anything else by its kind.
pub open spec fn node_label(nodes: Seq<Node>, i: int, src: Seq<char>) -> Seq<char> {
    let n = nodes[i];
    if n.kind == SyntaxKind::OPERATION_DEFINITION {
        capitalized(operation_word(src, n.span.unwrap().offset as int))
    } else if n.kind == SyntaxKind::FIELD {
        match parent_name(nodes, i) {
            Some(p) => "field \""@ + p + "\""@,
            None => "field"@,
        }
    } else {
        capitalized(display_name(n.kind))
    }
}

/// The name node `i` is checked by: a field's alias when it has one.
pub open spec fn effective_name(nodes: Seq<Node>, i: int, src: Seq<char>) -> Seq<char> {
    let n = nodes[i];
    let raw = n.name.unwrap()@;
    if n.kind == SyntaxKind::FIELD {
        match alias_at(src, n.span.unwrap()) {
            Some(a) => a,
            None => raw,
        }
    } else {
        raw
    }
}

/// The findings for node `i`.
pub open spec fn node_findings(nodes: Seq<Node>, i: int, src: Seq<char>, o: NamingOptions, schema: Option<Schema>) -> Seq<(Seq<char>, Span, Seq<(Seq<char>, Span, Seq<char>)>)> {
    let n = nodes[i];
    let kstr = kind_name(n.kind);
    if n.name is None || n.span is None || kstr.len() == 0 {
        Seq::empty()
    } else {
        let span = n.span.unwrap();
        let name = effective_name(nodes, i, src);
        let sels = o.kind_configs@;
        if name == "__typename"@ || is_ignored(sels, kstr, name) {
            Seq::empty()
        } else {
            let check = checked_name(name, o.allow_leading_underscore, o.allow_trailing_underscore);
            let conv = selectors_result(sels, 0, kstr, parent_name(nodes, i), name, check, node_label(nodes, i, src), span, schema);
            let lead: Seq<(Seq<char>, Span, Seq<(Seq<char>, Span, Seq<char>)>)> =
                if !o.allow_leading_underscore && starts_with(name, "_"@) {
                    seq![plain_diag("Leading underscores are not allowed"@, span)]
                } else {
                    Seq::empty()
                };
            let trail: Seq<(Seq<char>, Span, Seq<(Seq<char>, Span, Seq<char>)>)> =
                if !o.allow_trailing_underscore && ends_with(name, "_"@) {
                    seq![plain_diag("Trailing underscores are not allowed"@, span)]
                } else {
                    Seq::empty()
                };
            conv + lead + trail
        }
    }
}

/// The findings among the first `n` nodes, in order.
pub open spec fn naming_findings(nodes: Seq<Node>, n: int, src: Seq<char>, o: NamingOptions, schema: Option<Schema>) -> Seq<(Seq<char>, Span, Seq<(Seq<char>, Span, Seq<char>)>)>
    decreases n,
{
    if n <= 0 {
        Seq::empty()
    } else {
        naming_findings(nodes, n - 1, src, o, schema) + node_findings(nodes, n - 1, src, o, schema)
    }
}

/// Every named field with a span lies within the source.
pub open spec fn fields_within(nodes: Seq<Node>, len: int) -> bool {
    forall|i: int| 0 <= i < nodes.len() && #[trigger] nodes[i].kind == SyntaxKind::FIELD && nodes[i].name is Some && nodes[i].span is Some
        ==> nodes[i].span.unwrap().offset + nodes[i].span.unwrap().len <= len
}

fn exec_is_ignored(sels: &Vec<KindSelector>, kstr: &Vec<char>, name: &Vec<char>) -> (r: bool)
    ensures r == is_ignored(sels@, kstr@, name@),
{
    let ns = string_of(name);
    for i in 0..sels.len()
        invariant
            ns@ == name@,
            forall|j: int| 0 <= j < i ==> !(#[trigger] sels@[j].kind_name@ == kstr@
                && (pattern_view(sels@[j].config.ignore_pattern) matches Some(p) && regex_matches(p, name@))),
    {
        if chars_eq(&chars_of(sels[i].kind_name.as_str()), kstr) {
            match &sels[i].config.ignore_pattern {
                Some(p) => {
                    if p.is_match(ns.as_str()) {
                        return true;
                    }
                },
                None => {},
            }
        }
    }
    false
}

fn exec_node_label(tree: &Tree, i: usize, src: &Vec<char>) -> (r: Vec<char>)
    requires
        tree.wf(),
        i < tree.nodes@.len(),
        tree.nodes@[i as int].span is Some,
    ensures r@ == node_label(tree.nodes@, i as int, src@),
{
    let n = &tree.nodes[i];
    if n.kind == SyntaxKind::OPERATION_DEFINITION {
        let off = match n.span { Some(sp) => sp.offset, None => 0 };
        let w = exec_operation_word(src, off);
        exec_capitalized(string_of(&w).as_str())
    } else if n.kind == SyntaxKind::FIELD {
        match exec_parent_name(tree, i) {
            Some(p) => {
                let mut m: Vec<char> = Vec::new();
                push_str(&mut m, "field \"");
                push_str(&mut m, p.as_str());
                push_str(&mut m, "\"");
                m
            },
            None => chars_of("field"),
        }
    } else {
        exec_capitalized(exec_display_name(n.kind))
    }
}

impl NamingConvention {
    /// Reports the names of the document `tree` (with text `source`) that
    /// break the conventions of `opts`; `schema`, when given, answers
    /// conditions on field types.
    pub fn check(&self, tree: &Tree, source: &str, opts: &NamingOptions, schema: Option<&Schema>) -> (r: Vec<Diagnostic>)
        requires
            tree.wf(),
            fields_within(tree.nodes@, source@.len() as int),
        ensures
            diag_views(r@) == naming_findings(tree.nodes@, tree.nodes@.len() as int, source@, *opts,
                match schema { Some(s) => Some(*s), None => None }),
    {
        let ghost sch = match schema { Some(s) => Some(*s), None => None };
        let src = chars_of(source);
        let mut out: Vec<Diagnostic> = Vec::new();
        for i in 0..tree.nodes.len()
            invariant
                tree.wf(),
                src@ == source@,
                fields_within(tree.nodes@, source@.len() as int),
                sch == (match schema { Some(s) => Some(*s), None => None::<Schema> }),
                diag_views(out@) == naming_findings(tree.nodes@, i as int, source@, *opts, sch),
        {
            let ghost start = diag_views(out@);
            let ghost nf = node_findings(tree.nodes@, i as int, source@, *opts, sch);
            let n = &tree.nodes[i];
            let kstr = chars_of(exec_kind_name(n.kind));
            match (&n.name, n.span) {
                (Some(raw), Some(span)) => {
                    if kstr.len() > 0 {
                        let raw_c = chars_of(raw.as_str());
                        let name = if n.kind == SyntaxKind::FIELD {
                            proof { assert(tree.nodes@[i as int].kind == SyntaxKind::FIELD); }
                            match exec_alias_at(&src, span) {
                                Some(a) => a,
                                None => raw_c,
                            }
                        } else {
                            raw_c
                        };
                        if !chars_eq(&name, &chars_of("__typename")) && !exec_is_ignored(&opts.kind_configs, &kstr, &name) {
                            let check = exec_checked_name(&name, opts.allow_leading_underscore, opts.allow_trailing_underscore);
                            let label = exec_node_label(tree, i, &src);
                            let parent = exec_parent_name(tree, i);
                            let ghost conv = selectors_result(opts.kind_configs@, 0, kstr@, parent_name(tree.nodes@, i as int), name@, check@, label@, span, sch);
                            for j in 0..opts.kind_configs.len()
                                invariant_except_break
                                    diag_views(out@) + selectors_result(opts.kind_configs@, j as int, kstr@, parent_name(tree.nodes@, i as int), name@, check@, label@, span, sch)
                                        == start + conv,
                                invariant
                                    opt_text(parent) == parent_name(tree.nodes@, i as int),
                                    sch == (match schema { Some(s) => Some(*s), None => None::<Schema> }),
                                ensures
                                    diag_views(out@) == start + conv,
                            {
                                let sel = &opts.kind_configs[j];
                                let ghost before = diag_views(out@);
                                if chars_eq(&chars_of(sel.kind_name.as_str()), &kstr) && exec_selector_holds(&sel.predicate, &parent, &name, schema) {
                                    let stop = exec_config_result(&mut out, &sel.config, &name, &check, &label, span);
                                    if stop {
                                        proof { assert(diag_views(out@) =~= start + conv); }
                                        break;
                                    }
                                    proof {
                                        let rest = selectors_result(opts.kind_configs@, j + 1, kstr@, parent_name(tree.nodes@, i as int), name@, check@, label@, span, sch);
                                        assert(diag_views(out@) + rest =~= before + (config_result(sel.config, name@, check@, label@, span).0 + rest));
                                    }
                                }
                            }
                            proof {
                                assert(selectors_result(opts.kind_configs@, opts.kind_configs@.len() as int, kstr@, parent_name(tree.nodes@, i as int), name@, check@, label@, span, sch) =~= Seq::empty());
                            }
                            if !opts.allow_leading_underscore && exec_starts_with(&name, &chars_of("_")) {
                                push_diag(&mut out, &chars_of("Leading underscores are not allowed"), span);
                            }
                            if !opts.allow_trailing_underscore && exec_ends_with(&name, &chars_of("_")) {
                                push_diag(&mut out, &chars_of("Trailing underscores are not allowed"), span);
                            }
                        }
                    }
                },
                _ => {},
            }
            proof { assert(diag_views(out@) =~= start + nf); }
        }
        out
    }
}

/// With the default options (no kind configuration, leading underscores
/// refused, trailing ones allowed), the only finding of a node is the
/// refusal of a leading underscore in its name (a field's alias counts, and
/// `__typename` is exempt).
pub proof fn law_default_options_refuse_only_leading_underscores(nodes: Seq<Node>, i: int, src: Seq<char>, o: NamingOptions, schema: Option<Schema>)
    requires
        o.kind_configs@.len() == 0,
        !o.allow_leading_underscore,
        o.allow_trailing_underscore,
        0 <= i < nodes.len(),
    ensures
        node_findings(nodes, i, src, o, schema) == (
            if nodes[i].name is Some && nodes[i].span is Some && kind_name(nodes[i].kind).len() > 0
                && effective_name(nodes, i, src) != "__typename"@ && starts_with(effective_name(nodes, i, src), "_"@) {
                seq![plain_diag("Leading underscores are not allowed"@, nodes[i].span.unwrap())]
            } else {
                Seq::empty()
            }
        ),
{
    let n = nodes[i];
    if n.name is Some && n.span is Some && kind_name(n.kind).len() > 0 {
        let name = effective_name(nodes, i, src);
        let kstr = kind_name(n.kind);
        assert(!is_ignored(o.kind_configs@, kstr, name));
        let check = checked_name(name, o.allow_leading_underscore, o.allow_trailing_underscore);
        let conv = selectors_result(o.kind_configs@, 0, kstr, parent_name(nodes, i), name, check, node_label(nodes, i, src), n.span.unwrap(), schema);
        assert(conv =~= Seq::<(Seq<char>, Span, Seq<(Seq<char>, Span, Seq<char>)>)>::empty());
        if name != "__typename"@ {
            if starts_with(name, "_"@) {
                assert(node_findings(nodes, i, src, o, schema) =~= seq![plain_diag("Leading underscores are not allowed"@, n.span.unwrap())]);
            } else {
                assert(node_findings(nodes, i, src, o, schema) =~= Seq::<(Seq<char>, Span, Seq<(Seq<char>, Span, Seq<char>)>)>::empty());
            }
        }
    }
}

} // verus!
