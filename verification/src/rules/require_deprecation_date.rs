//! `require-deprecation-date`: every `@deprecated` names the date after
//! which the deprecated item can go, in `DD/MM/YYYY` form, and items past
//! that date are reported.
use vstd::prelude::*;
use crate::model::{Diagnostic, Node, Span, SyntaxKind, Tree, diag_views, plain_diag, push_diag, find_up, find_up_exec};
use crate::rules::require_deprecation_reason::{is_deprecated_directive, last_at_offset, is_named};
use crate::text::{
    chars_of, chars_eq, string_of, push_str, push_all, sub_chars, skip_chars, trim, trim_chars, trim_start, trim_start_chars,
    ws_prefix_len, skip_ws, find_from, exec_find_from, find_seq_from, exec_find_seq_from, is_digit, exec_is_digit,
};

verus! {

/// The `require-deprecation-date` rule.
pub struct RequireDeprecationDate;

/// Whether `s` has the form `DD/MM/YYYY` (digits and slashes).
pub open spec fn spec_is_dd_mm_yyyy(s: Seq<char>) -> bool {
    &&& s.len() == 10
    &&& is_digit(s[0]) && is_digit(s[1]) && s[2] == '/'
    &&& is_digit(s[3]) && is_digit(s[4]) && s[5] == '/'
    &&& is_digit(s[6]) && is_digit(s[7]) && is_digit(s[8]) && is_digit(s[9])
}

/// Whether `s` has the form `DD/MM/YYYY`.
pub fn is_dd_mm_yyyy(s: &str) -> (r: bool)
    ensures r == spec_is_dd_mm_yyyy(s@),
{
    let c = chars_of(s);
    c.len() == 10
        && exec_is_digit(c[0]) && exec_is_digit(c[1]) && c[2] == '/'
        && exec_is_digit(c[3]) && exec_is_digit(c[4]) && c[5] == '/'
        && exec_is_digit(c[6]) && exec_is_digit(c[7]) && exec_is_digit(c[8]) && exec_is_digit(c[9])
}

/// `a / b` rounded toward zero, as Rust divides integers.
pub open spec fn trunc_div(a: int, b: int) -> int {
    if a >= 0 { a / b } else { -((-a) / b) }
}

/// The day number of a date (proleptic Gregorian calendar), counted so that
/// multiplying it by 86400 gives seconds since 1970-01-01 for the dates the
/// rule reads.
pub open spec fn spec_days_from_ce(year: int, month: int, day: int) -> int {
    let y = if month <= 2 { year - 1 } else { year };
    let m = if month <= 2 { month + 12 } else { month };
    let era = trunc_div(if y >= 0 { y } else { y - 3 }, 400);
    let yoe = y - era * 400;
    let doy = trunc_div(153 * m - 457, 5) + day;
    let doe = yoe * 365 + trunc_div(yoe, 4) - trunc_div(yoe, 100) + doy;
    era * 146097 + doe - 719468 - 365
}

fn exec_trunc_div(a: i64, b: i64) -> (r: i64)
    requires
        b > 0,
        a > i64::MIN,
    ensures r == trunc_div(a as int, b as int),
{
    if a >= 0 {
        ((a as u64) / (b as u64)) as i64
    } else {
        let q = ((-a) as u64) / (b as u64);
        proof {
            assert(q <= (-a) as u64) by (nonlinear_arith) requires b > 0, q == ((-a) as u64) / (b as u64);
        }
        -(q as i64)
    }
}

/// The day number of `day`/`month`/`year`, for years within 2^54 of zero.
pub fn days_from_ce(year: i64, month: u32, day: u32) -> (r: i64)
    requires -0x40_0000_0000_0000 <= year <= 0x40_0000_0000_0000,
    ensures r == spec_days_from_ce(year as int, month as int, day as int),
{
    let y: i64 = if month <= 2 { year - 1 } else { year };
    let m: i64 = if month <= 2 { (month + 12) as i64 } else { month as i64 };
    let base: i64 = if y >= 0 { y } else { y - 3 };
    let era = exec_trunc_div(base, 400);
    proof {
        assert(-0x40_0000_0000_0000 - 4 <= base <= 0x40_0000_0000_0000);
        assert(-0x40_0000_0000_0000 <= era <= 0x40_0000_0000_0000) by {
            if base >= 0 {
                assert(base / 400 <= base) by (nonlinear_arith) requires base >= 0;
            } else {
                assert((-base) / 400 <= -base) by (nonlinear_arith) requires -base >= 0;
            }
        }
        assert(era * 400 == 400 * era);
        if base >= 0 {
            assert(0 <= base - (base / 400) * 400 < 400) by (nonlinear_arith) requires base >= 0;
        } else {
            assert(0 <= (-base) - ((-base) / 400) * 400 < 400) by (nonlinear_arith) requires -base >= 0;
        }
    }
    let yoe = y - era * 400;
    proof {
        assert(-404 < yoe < 400);
        assert(3 <= m <= 0xffff_ffff + 12);
    }
    let doy = exec_trunc_div(153 * m - 457, 5) + day as i64;
    proof {
        assert(0 <= 153 * m - 457);
        assert((153 * m - 457) / 5 <= 153 * m) by (nonlinear_arith) requires 153 * m - 457 >= 0;
    }
    let doe = yoe * 365 + exec_trunc_div(yoe, 4) - exec_trunc_div(yoe, 100) + doy;
    proof {
        assert(-0x40_0000_0000_0000 * 146097 <= era * 146097 <= 0x40_0000_0000_0000 * 146097) by (nonlinear_arith)
            requires -0x40_0000_0000_0000 <= era <= 0x40_0000_0000_0000;
    }
    era * 146097 + doe - 719468 - 365
}


/// `v` without one pair of enclosing double quotes.
pub open spec fn unquoted(v: Seq<char>) -> Seq<char> {
    if v.len() >= 2 && v[0] == '"' && v.last() == '"' { v.subrange(1, v.len() - 1) } else { v }
}

/// The value of an argument's text: what follows its `:`, trimmed and
/// unquoted.
pub open spec fn spec_extract_arg_value(text: Seq<char>) -> Option<Seq<char>> {
    match find_from(text, ':', 0, text.len() as int) {
        Some(c) => Some(unquoted(trim(text.skip(c + 1)))),
        None => None,
    }
}

/// The value of an argument's text.
pub fn extract_arg_value(arg_text: &str) -> (r: Option<String>)
    ensures
        match r {
            Some(v) => spec_extract_arg_value(arg_text@) == Some(v@),
            None => spec_extract_arg_value(arg_text@) is None,
        },
{
    let t = chars_of(arg_text);
    match exec_find_from(&t, ':', 0, t.len()) {
        Some(c) => {
            let v = trim_chars(&skip_chars(&t, c + 1));
            if v.len() >= 2 && v[0] == '"' && v[v.len() - 1] == '"' {
                Some(string_of(&sub_chars(&v, 1, v.len() - 1)))
            } else {
                Some(string_of(&v))
            }
        },
        None => None,
    }
}

/// The span of an argument's value in the source, for an argument whose
/// text `text` starts at `offset`: from the first character after the `:`
/// and its white space to the end of the text.
pub open spec fn value_span(text: Seq<char>, offset: int) -> Option<Span> {
    match find_from(text, ':', 0, text.len() as int) {
        Some(c) => {
            let after = text.skip(c + 1);
            let ws = ws_prefix_len(after);
            if after.len() - ws == 0 {
                None
            } else {
                Some(Span { offset: (offset + c + 1 + ws) as usize, len: (after.len() - ws) as usize })
            }
        },
        None => None,
    }
}

fn exec_value_span(src: &Vec<char>, arg: Span) -> (r: Option<Span>)
    requires arg.offset + arg.len <= src@.len(),
    ensures r == value_span(src@.subrange(arg.offset as int, arg.offset + arg.len), arg.offset as int),
{
    let n = src.len();
    let end = arg.offset + arg.len;
    let text = sub_chars(src, arg.offset, end);
    match exec_find_from(&text, ':', 0, text.len()) {
        Some(c) => {
            let ws_end = skip_ws(&text, c + 1, text.len());
            proof {
                assert(text@.subrange(c + 1, text@.len() as int) =~= text@.skip(c + 1));
            }
            if ws_end == text.len() {
                None
            } else {
                Some(Span::new(arg.offset + ws_end, text.len() - ws_end))
            }
        },
        None => None,
    }
}

/// The first index at or after `start` where `name` occurs in `source`, or
/// `start` where it does not.
pub open spec fn spec_name_offset(source: Seq<char>, start: int, name: Seq<char>) -> int {
    match find_seq_from(source, name, start) {
        Some(k) => k,
        None => start,
    }
}

/// Where `name` first occurs in `source` at or after `start_offset`.
pub fn name_offset(source: &str, start_offset: usize, name: &str) -> (r: usize)
    requires start_offset <= source@.len(),
    ensures r == spec_name_offset(source@, start_offset as int, name@),
{
    match exec_find_seq_from(&chars_of(source), &chars_of(name), start_offset) {
        Some(k) => k,
        None => start_offset,
    }
}

/// The definition kinds an `@deprecated` can belong to.
pub open spec fn definition_kinds() -> Seq<SyntaxKind> {
    seq![
        SyntaxKind::OBJECT_TYPE_DEFINITION, SyntaxKind::OBJECT_TYPE_EXTENSION,
        SyntaxKind::INTERFACE_TYPE_DEFINITION, SyntaxKind::INTERFACE_TYPE_EXTENSION,
        SyntaxKind::ENUM_TYPE_DEFINITION, SyntaxKind::ENUM_TYPE_EXTENSION,
        SyntaxKind::SCALAR_TYPE_DEFINITION, SyntaxKind::SCALAR_TYPE_EXTENSION,
        SyntaxKind::INPUT_OBJECT_TYPE_DEFINITION, SyntaxKind::INPUT_OBJECT_TYPE_EXTENSION,
        SyntaxKind::UNION_TYPE_DEFINITION, SyntaxKind::UNION_TYPE_EXTENSION,
        SyntaxKind::DIRECTIVE_DEFINITION, SyntaxKind::SCHEMA_DEFINITION, SyntaxKind::SCHEMA_EXTENSION,
        SyntaxKind::FIELD_DEFINITION, SyntaxKind::INPUT_VALUE_DEFINITION, SyntaxKind::ENUM_VALUE_DEFINITION,
        SyntaxKind::OPERATION_DEFINITION, SyntaxKind::FRAGMENT_DEFINITION,
    ]
}

fn exec_definition_kinds() -> (r: Vec<SyntaxKind>)
    ensures r@ == definition_kinds(),
{
    let r = vec![
        SyntaxKind::OBJECT_TYPE_DEFINITION, SyntaxKind::OBJECT_TYPE_EXTENSION,
        SyntaxKind::INTERFACE_TYPE_DEFINITION, SyntaxKind::INTERFACE_TYPE_EXTENSION,
        SyntaxKind::ENUM_TYPE_DEFINITION, SyntaxKind::ENUM_TYPE_EXTENSION,
        SyntaxKind::SCALAR_TYPE_DEFINITION, SyntaxKind::SCALAR_TYPE_EXTENSION,
        SyntaxKind::INPUT_OBJECT_TYPE_DEFINITION, SyntaxKind::INPUT_OBJECT_TYPE_EXTENSION,
        SyntaxKind::UNION_TYPE_DEFINITION, SyntaxKind::UNION_TYPE_EXTENSION,
        SyntaxKind::DIRECTIVE_DEFINITION, SyntaxKind::SCHEMA_DEFINITION, SyntaxKind::SCHEMA_EXTENSION,
        SyntaxKind::FIELD_DEFINITION, SyntaxKind::INPUT_VALUE_DEFINITION, SyntaxKind::ENUM_VALUE_DEFINITION,
        SyntaxKind::OPERATION_DEFINITION, SyntaxKind::FRAGMENT_DEFINITION,
    ];
    proof { assert(r@ =~= definition_kinds()); }
    r
}

/// The kinds that own fields, input values or enum values.
pub open spec fn container_kinds() -> Seq<SyntaxKind> {
    seq![
        SyntaxKind::OBJECT_TYPE_DEFINITION, SyntaxKind::INTERFACE_TYPE_DEFINITION,
        SyntaxKind::INPUT_OBJECT_TYPE_DEFINITION, SyntaxKind::ENUM_TYPE_DEFINITION,
        SyntaxKind::OBJECT_TYPE_EXTENSION, SyntaxKind::INTERFACE_TYPE_EXTENSION,
        SyntaxKind::INPUT_OBJECT_TYPE_EXTENSION,
    ]
}

fn exec_container_kinds() -> (r: Vec<SyntaxKind>)
    ensures r@ == container_kinds(),
{
    let r = vec![
        SyntaxKind::OBJECT_TYPE_DEFINITION, SyntaxKind::INTERFACE_TYPE_DEFINITION,
        SyntaxKind::INPUT_OBJECT_TYPE_DEFINITION, SyntaxKind::ENUM_TYPE_DEFINITION,
        SyntaxKind::OBJECT_TYPE_EXTENSION, SyntaxKind::INTERFACE_TYPE_EXTENSION,
        SyntaxKind::INPUT_OBJECT_TYPE_EXTENSION,
    ];
    proof { assert(r@ =~= container_kinds()); }
    r
}

/// How messages name a definition of kind `k`.
pub open spec fn kind_label(k: SyntaxKind) -> Seq<char> {
    if k == SyntaxKind::OBJECT_TYPE_DEFINITION || k == SyntaxKind::OBJECT_TYPE_EXTENSION { "type"@ }
    else if k == SyntaxKind::INTERFACE_TYPE_DEFINITION || k == SyntaxKind::INTERFACE_TYPE_EXTENSION { "interface"@ }
    else if k == SyntaxKind::ENUM_TYPE_DEFINITION || k == SyntaxKind::ENUM_TYPE_EXTENSION { "enum"@ }
    else if k == SyntaxKind::SCALAR_TYPE_DEFINITION || k == SyntaxKind::SCALAR_TYPE_EXTENSION { "scalar"@ }
    else if k == SyntaxKind::INPUT_OBJECT_TYPE_DEFINITION || k == SyntaxKind::INPUT_OBJECT_TYPE_EXTENSION { "input"@ }
    else if k == SyntaxKind::UNION_TYPE_DEFINITION || k == SyntaxKind::UNION_TYPE_EXTENSION { "union"@ }
    else if k == SyntaxKind::DIRECTIVE_DEFINITION { "directive"@ }
    else if k == SyntaxKind::SCHEMA_DEFINITION || k == SyntaxKind::SCHEMA_EXTENSION { "schema"@ }
    else if k == SyntaxKind::FIELD_DEFINITION { "field"@ }
    else if k == SyntaxKind::INPUT_VALUE_DEFINITION { "input value"@ }
    else if k == SyntaxKind::ENUM_VALUE_DEFINITION { "enum value"@ }
    else { ""@ }
}

fn exec_kind_label(k: SyntaxKind) -> (r: &'static str)
    ensures r@ == kind_label(k),
{
    match k {
        SyntaxKind::OBJECT_TYPE_DEFINITION | SyntaxKind::OBJECT_TYPE_EXTENSION => "type",
        SyntaxKind::INTERFACE_TYPE_DEFINITION | SyntaxKind::INTERFACE_TYPE_EXTENSION => "interface",
        SyntaxKind::ENUM_TYPE_DEFINITION | SyntaxKind::ENUM_TYPE_EXTENSION => "enum",
        SyntaxKind::SCALAR_TYPE_DEFINITION | SyntaxKind::SCALAR_TYPE_EXTENSION => "scalar",
        SyntaxKind::INPUT_OBJECT_TYPE_DEFINITION | SyntaxKind::INPUT_OBJECT_TYPE_EXTENSION => "input",
        SyntaxKind::UNION_TYPE_DEFINITION | SyntaxKind::UNION_TYPE_EXTENSION => "union",
        SyntaxKind::DIRECTIVE_DEFINITION => "directive",
        SyntaxKind::SCHEMA_DEFINITION | SyntaxKind::SCHEMA_EXTENSION => "schema",
        SyntaxKind::FIELD_DEFINITION => "field",
        SyntaxKind::INPUT_VALUE_DEFINITION => "input value",
        SyntaxKind::ENUM_VALUE_DEFINITION => "enum value",
        _ => "",
    }
}

/// A definition named for messages: its kind's label and, if it has one,
/// its quoted name.
pub open spec fn named_label(k: SyntaxKind, name: Option<Seq<char>>) -> Seq<char> {
    match name {
        Some(n) => kind_label(k) + " \""@ + n + "\""@,
        None => kind_label(k),
    }
}

fn push_named_label(m: &mut Vec<char>, k: SyntaxKind, name: &Option<String>)
    ensures final(m)@ == old(m)@ + named_label(k, match name { Some(n) => Some(n@), None => None }),
{
    push_str(m, exec_kind_label(k));
    match name {
        Some(n) => {
            push_str(m, " \"");
            push_str(m, n.as_str());
            push_str(m, "\"");
        },
        None => {},
    }
}

pub open spec fn node_name(n: Node) -> Option<Seq<char>> {
    match n.name {
        Some(s) => Some(s@),
        None => None,
    }
}

/// The definition an `@deprecated` at node `i` belongs to.
pub open spec fn definition_of(nodes: Seq<Node>, i: int) -> Option<int> {
    match nodes[i].parent {
        Some(p) => find_up(nodes, p as int, definition_kinds()),
        None => None,
    }
}

/// How messages name what the `@deprecated` at node `i` deprecates: a
/// field, input value or enum value together with the type it is in.
pub open spec fn target_name(nodes: Seq<Node>, i: int) -> Seq<char> {
    match definition_of(nodes, i) {
        Some(d) => {
            let dn = nodes[d];
            let own = named_label(dn.kind, node_name(dn));
            if dn.kind == SyntaxKind::FIELD_DEFINITION || dn.kind == SyntaxKind::INPUT_VALUE_DEFINITION || dn.kind == SyntaxKind::ENUM_VALUE_DEFINITION {
                let outer = match find_up(nodes, d, container_kinds()) {
                    Some(c) => named_label(nodes[c].kind, node_name(nodes[c])),
                    None => named_label(SyntaxKind::OBJECT_TYPE_DEFINITION, None),
                };
                own + " in "@ + outer
            } else {
                own
            }
        },
        None => named_label(SyntaxKind::OBJECT_TYPE_DEFINITION, None),
    }
}


/// The first `@deprecated` directive at or above node `start`.
pub open spec fn deprecated_above(nodes: Seq<Node>, start: int) -> Option<int>
    decreases start,
{
    if start < 0 || start >= nodes.len() {
        None
    } else if nodes[start].kind == SyntaxKind::DIRECTIVE && node_name(nodes[start]) == Some("deprecated"@) {
        Some(start)
    } else {
        match nodes[start].parent {
            Some(p) => if p < start { deprecated_above(nodes, p as int) } else { None },
            None => None,
        }
    }
}

fn exec_deprecated_above(tree: &Tree, start: usize) -> (r: Option<usize>)
    requires tree.wf(),
    ensures
        match r {
            Some(d) => deprecated_above(tree.nodes@, start as int) == Some(d as int) && d < tree.nodes@.len(),
            None => deprecated_above(tree.nodes@, start as int) is None,
        },
{
    if start >= tree.nodes.len() {
        return None;
    }
    let mut cur = start;
    loop
        invariant
            tree.wf(),
            cur < tree.nodes@.len(),
            deprecated_above(tree.nodes@, start as int) == deprecated_above(tree.nodes@, cur as int),
        decreases cur,
    {
        let n = &tree.nodes[cur];
        if n.kind == SyntaxKind::DIRECTIVE && is_named(n, "deprecated") {
            return Some(cur);
        }
        match n.parent {
            Some(p) => { cur = p; },
            None => return None,
        }
    }
}

/// For an argument named `arg` with a span inside an `@deprecated` with a
/// span: that directive's offset and the argument's span.
pub open spec fn date_entry(nodes: Seq<Node>, arg: Seq<char>, j: int) -> Option<(usize, Span)> {
    let n = nodes[j];
    if n.kind == SyntaxKind::ARGUMENT && node_name(n) == Some(arg) && n.span is Some && n.parent is Some {
        match deprecated_above(nodes, n.parent.unwrap() as int) {
            Some(d) => match nodes[d].span {
                Some(ds) => Some((ds.offset, n.span.unwrap())),
                None => None,
            },
            None => None,
        }
    } else {
        None
    }
}

/// The span of the last such argument (among the first `n` nodes) of the
/// `@deprecated` at `offset`.
pub open spec fn last_date_arg(nodes: Seq<Node>, arg: Seq<char>, offset: usize, n: int) -> Option<Span>
    decreases n,
{
    if n <= 0 {
        None
    } else {
        match date_entry(nodes, arg, n - 1) {
            Some((o, s)) => if o == offset { Some(s) } else { last_date_arg(nodes, arg, offset, n - 1) },
            None => last_date_arg(nodes, arg, offset, n - 1),
        }
    }
}

/// Where a removable item is reported: its name within its definition.
pub open spec fn removable_span(nodes: Seq<Node>, src: Seq<char>, i: int) -> Span {
    match definition_of(nodes, i) {
        Some(d) => {
            let dn = nodes[d];
            let off = match dn.span { Some(s) => s.offset, None => 0usize };
            match dn.name {
                Some(n) => Span {
                    offset: (if off <= src.len() { spec_name_offset(src, off as int, n@) } else { off as int }) as usize,
                    len: n@.len() as usize,
                },
                None => Span { offset: off, len: 0 },
            }
        },
        None => Span { offset: 0, len: 0 },
    }
}

/// The numeric value of two or four decimal digits.
pub open spec fn digit_value(c: char) -> int {
    (c as int) - ('0' as int)
}

/// What a well-formed deletion date `v` at `vs` gives: an invalid day or
/// month or year is reported there, a date before `now` (seconds since
/// 1970) reports the item as removable at `rs`.
pub open spec fn date_check(v: Seq<char>, vs: Span, name: Seq<char>, now: int, rs: Span) -> Option<(Seq<char>, Span, Seq<(Seq<char>, Span, Seq<char>)>)> {
    if !spec_is_dd_mm_yyyy(v) {
        Some(plain_diag("Deletion date must be in format \"DD/MM/YYYY\" for "@ + name, vs))
    } else {
        let day = digit_value(v[0]) * 10 + digit_value(v[1]);
        let month = digit_value(v[3]) * 10 + digit_value(v[4]);
        let year = digit_value(v[6]) * 1000 + digit_value(v[7]) * 100 + digit_value(v[8]) * 10 + digit_value(v[9]);
        if !(1 <= day <= 31 && 1 <= month <= 12 && year >= 1) {
            Some(plain_diag("Invalid \""@ + v + "\" deletion date for "@ + name, vs))
        } else if spec_days_from_ce(year, month, day) * 86400 < now {
            Some(plain_diag(name + " \u{441}an be removed"@, rs))
        } else {
            None
        }
    }
}

/// A deletion date `DD/MM/YYYY` is read day first: the day is the number
/// written in its first two characters, the month the number in its fourth
/// and fifth, the year the number in its last four. A date with a day from
/// 1 to 31, a month from 1 to 12 and a year from 1 on is valid, and gives a
/// finding only once that day has begun before `now`, as the removable item;
/// any other is reported as invalid, at the value.
pub proof fn law_date_reads_day_then_month(v: Seq<char>, vs: Span, name: Seq<char>, now: int, rs: Span)
    requires spec_is_dd_mm_yyyy(v),
    ensures ({
        let day = 10 * ((v[0] as int) - ('0' as int)) + ((v[1] as int) - ('0' as int));
        let month = 10 * ((v[3] as int) - ('0' as int)) + ((v[4] as int) - ('0' as int));
        let year = 1000 * ((v[6] as int) - ('0' as int)) + 100 * ((v[7] as int) - ('0' as int))
            + 10 * ((v[8] as int) - ('0' as int)) + ((v[9] as int) - ('0' as int));
        &&& (1 <= day <= 31 && 1 <= month <= 12 && year >= 1) ==> (
            (date_check(v, vs, name, now, rs) is None <==> spec_days_from_ce(year, month, day) * 86400 >= now)
            && (date_check(v, vs, name, now, rs) is Some ==> date_check(v, vs, name, now, rs) == Some(plain_diag(name + " \u{441}an be removed"@, rs))))
        &&& !(1 <= day <= 31 && 1 <= month <= 12 && year >= 1) ==>
            date_check(v, vs, name, now, rs) == Some(plain_diag("Invalid \""@ + v + "\" deletion date for "@ + name, vs))
    }),
{
}

/// The finding for the `@deprecated` at node `i`.
pub open spec fn date_finding(nodes: Seq<Node>, src: Seq<char>, arg: Seq<char>, now: int, i: int) -> Option<(Seq<char>, Span, Seq<(Seq<char>, Span, Seq<char>)>)> {
    let sp = nodes[i].span.unwrap();
    let name = target_name(nodes, i);
    let missing = plain_diag("Directive \"@deprecated\" must have a deletion date for "@ + name, sp);
    match last_date_arg(nodes, arg, sp.offset, nodes.len() as int) {
        None => Some(missing),
        Some(a) => {
            let text = src.subrange(a.offset as int, a.offset + a.len);
            match (spec_extract_arg_value(text), value_span(text, a.offset as int)) {
                (Some(v), Some(vs)) => date_check(v, vs, name, now, removable_span(nodes, src, i)),
                _ => Some(missing),
            }
        },
    }
}

/// The findings among the first `n` nodes, one per `@deprecated` (the last
/// at its offset) that lacks a usable deletion date or is past it.
pub open spec fn date_findings(nodes: Seq<Node>, src: Seq<char>, arg: Seq<char>, now: int, n: int) -> Seq<(Seq<char>, Span, Seq<(Seq<char>, Span, Seq<char>)>)>
    decreases n,
{
    if n <= 0 {
        Seq::empty()
    } else {
        let prev = date_findings(nodes, src, arg, now, n - 1);
        if is_deprecated_directive(nodes, n - 1) && last_at_offset(nodes, n - 1) {
            match date_finding(nodes, src, arg, now, n - 1) {
                Some(d) => prev.push(d),
                None => prev,
            }
        } else {
            prev
        }
    }
}

/// The deletion-date argument of every `@deprecated` lies within the
/// source.
pub open spec fn dates_in_source(nodes: Seq<Node>, arg: Seq<char>, src: Seq<char>) -> bool {
    forall|o: usize| #[trigger] last_date_arg(nodes, arg, o, nodes.len() as int) matches Some(a) ==> a.offset + a.len <= src.len()
}

/// The argument name the rule reads: `deletionDate` unless configured.
pub open spec fn argument_name_of(o: Option<String>) -> Seq<char> {
    match o {
        Some(a) => a@,
        None => "deletionDate"@,
    }
}


proof fn lemma_days_bound(year: int, month: int, day: int)
    requires
        1 <= year <= 9999,
        1 <= month <= 12,
        1 <= day <= 31,
    ensures -10_000_000 <= spec_days_from_ce(year, month, day) <= 10_000_000,
{
    let y = if month <= 2 { year - 1 } else { year };
    let m = if month <= 2 { month + 12 } else { month };
    assert(0 <= y <= 9999);
    assert(3 <= m <= 14);
    let era = y / 400;
    assert(0 <= era <= 24);
    let yoe = y - era * 400;
    assert(0 <= yoe < 400);
    assert(0 <= (153 * m - 457) / 5 <= 400);
    assert(0 <= yoe / 4 <= 100);
    assert(0 <= yoe / 100 <= 4);
}

fn digit(c: char) -> (r: u32)
    requires is_digit(c),
    ensures r == digit_value(c),
{
    (c as u32) - ('0' as u32)
}

fn push_target_name(m: &mut Vec<char>, tree: &Tree, i: usize)
    requires
        tree.wf(),
        i < tree.nodes@.len(),
    ensures final(m)@ == old(m)@ + target_name(tree.nodes@, i as int),
{
    let defs = exec_definition_kinds();
    let d = match tree.nodes[i].parent {
        Some(p) => find_up_exec(tree, p, &defs),
        None => None,
    };
    match d {
        Some(d) => {
            let dn = &tree.nodes[d];
            push_named_label(m, dn.kind, &dn.name);
            if dn.kind == SyntaxKind::FIELD_DEFINITION || dn.kind == SyntaxKind::INPUT_VALUE_DEFINITION || dn.kind == SyntaxKind::ENUM_VALUE_DEFINITION {
                push_str(m, " in ");
                let conts = exec_container_kinds();
                match find_up_exec(tree, d, &conts) {
                    Some(c) => push_named_label(m, tree.nodes[c].kind, &tree.nodes[c].name),
                    None => push_named_label(m, SyntaxKind::OBJECT_TYPE_DEFINITION, &None),
                }
            }
        },
        None => push_named_label(m, SyntaxKind::OBJECT_TYPE_DEFINITION, &None),
    }
    proof { assert(final(m)@ =~= old(m)@ + target_name(tree.nodes@, i as int)); }
}

fn exec_removable_span(tree: &Tree, src: &Vec<char>, source: &str, i: usize) -> (r: Span)
    requires
        tree.wf(),
        i < tree.nodes@.len(),
        src@ == source@,
    ensures r == removable_span(tree.nodes@, src@, i as int),
{
    let defs = exec_definition_kinds();
    let d = match tree.nodes[i].parent {
        Some(p) => find_up_exec(tree, p, &defs),
        None => None,
    };
    match d {
        Some(d) => {
            let dn = &tree.nodes[d];
            let off = match dn.span { Some(s) => s.offset, None => 0 };
            match &dn.name {
                Some(n) => {
                    let at = if off <= src.len() { name_offset(source, off, n.as_str()) } else { off };
                    Span::new(at, chars_of(n.as_str()).len())
                },
                None => Span::new(off, 0),
            }
        },
        None => Span::new(0, 0),
    }
}

impl RequireDeprecationDate {
    /// Reports every `@deprecated` of the document `tree` (with text
    /// `source`) whose deletion date (the argument `argument_name`, by
    /// default `deletionDate`) is missing, malformed or invalid, and every
    /// deprecated item whose date lies before `now` (seconds since 1970).
    pub fn check(&self, tree: &Tree, source: &str, argument_name: &Option<String>, now: i64) -> (r: Vec<Diagnostic>)
        requires
            tree.wf(),
            dates_in_source(tree.nodes@, argument_name_of(*argument_name), source@),
        ensures
            diag_views(r@) == date_findings(tree.nodes@, source@, argument_name_of(*argument_name), now as int, tree.nodes@.len() as int),
    {
        let ghost nodes = tree.nodes@;
        let ghost arg = argument_name_of(*argument_name);
        let arg_name: &str = match argument_name { Some(a) => a.as_str(), None => "deletionDate" };
        let src = chars_of(source);
        let src_len = src.len();
        let mut entries: Vec<Option<(usize, Span)>> = Vec::new();
        for j in 0..tree.nodes.len()
            invariant
                nodes == tree.nodes@,
                tree.wf(),
                arg_name@ == arg,
                entries@.len() == j,
                forall|k: int| 0 <= k < j ==> #[trigger] entries@[k] == date_entry(nodes, arg, k),
        {
            let n = &tree.nodes[j];
            let mut e: Option<(usize, Span)> = None;
            if n.kind == SyntaxKind::ARGUMENT && is_named(n, arg_name) {
                match (n.parent, n.span) {
                    (Some(p), Some(asp)) => match exec_deprecated_above(tree, p) {
                        Some(d) => match tree.nodes[d].span {
                            Some(ds) => { e = Some((ds.offset, asp)); },
                            None => {},
                        },
                        None => {},
                    },
                    _ => {},
                }
            }
            entries.push(e);
        }
        let mut out: Vec<Diagnostic> = Vec::new();
        for i in 0..tree.nodes.len()
            invariant
                nodes == tree.nodes@,
                tree.wf(),
                src@ == source@,
                src_len == src@.len(),
                arg_name@ == arg,
                dates_in_source(nodes, arg, source@),
                entries@.len() == nodes.len(),
                forall|k: int| 0 <= k < nodes.len() ==> #[trigger] entries@[k] == date_entry(nodes, arg, k),
                diag_views(out@) == date_findings(nodes, source@, arg, now as int, i as int),
        {
            let n = &tree.nodes[i];
            if n.kind == SyntaxKind::DIRECTIVE && is_named(n, "deprecated") && n.span.is_some() {
                let sp = match n.span { Some(s) => s, None => Span::new(0, 0) };
                let mut last = true;
                for k in (i + 1)..tree.nodes.len()
                    invariant
                        nodes == tree.nodes@,
                        i < nodes.len(),
                        nodes[i as int].span == Some(sp),
                        last == (forall|q: int| i < q < k && #[trigger] is_deprecated_directive(nodes, q) ==> nodes[q].span.unwrap().offset != sp.offset),
                {
                    let m = &tree.nodes[k];
                    proof {
                        assert(is_deprecated_directive(nodes, k as int) == (m.kind == SyntaxKind::DIRECTIVE && m.name is Some && m.name.unwrap()@ == "deprecated"@ && m.span is Some));
                    }
                    if m.kind == SyntaxKind::DIRECTIVE && is_named(m, "deprecated") {
                        match m.span {
                            Some(s2) => {
                                if s2.offset == sp.offset {
                                    last = false;
                                }
                            },
                            None => {},
                        }
                    }
                }
                if last {
                    let mut found: Option<Span> = None;
                    for j in 0..entries.len()
                        invariant
                            entries@.len() == nodes.len(),
                            forall|k: int| 0 <= k < nodes.len() ==> #[trigger] entries@[k] == date_entry(nodes, arg, k),
                            found == last_date_arg(nodes, arg, sp.offset, j as int),
                    {
                        match entries[j] {
                            Some((o, s)) => {
                                if o == sp.offset {
                                    found = Some(s);
                                }
                            },
                            None => {},
                        }
                    }
                    let mut name: Vec<char> = Vec::new();
                    push_target_name(&mut name, tree, i);
                    let ghost d = date_finding(nodes, source@, arg, now as int, i as int);
                    let ghost before = diag_views(out@);
                    let mut missing = true;
                    match found {
                        Some(a) => {
                            proof { assert(a.offset + a.len <= src_len); }
                            let text = string_of(&sub_chars(&src, a.offset, a.offset + a.len));
                            match (extract_arg_value(text.as_str()), exec_value_span(&src, a)) {
                                (Some(v), Some(vs)) => {
                                    missing = false;
                                    let vc = chars_of(v.as_str());
                                    if !is_dd_mm_yyyy(v.as_str()) {
                                        let mut m: Vec<char> = Vec::new();
                                        push_str(&mut m, "Deletion date must be in format \"DD/MM/YYYY\" for ");
                                        push_all(&mut m, &name);
                                        push_diag(&mut out, &m, vs);
                                    } else {
                                        let day = digit(vc[0]) * 10 + digit(vc[1]);
                                        let month = digit(vc[3]) * 10 + digit(vc[4]);
                                        let year = digit(vc[6]) * 1000 + digit(vc[7]) * 100 + digit(vc[8]) * 10 + digit(vc[9]);
                                        if !(1 <= day && day <= 31 && 1 <= month && month <= 12 && year >= 1) {
                                            let mut m: Vec<char> = Vec::new();
                                            push_str(&mut m, "Invalid \"");
                                            push_all(&mut m, &vc);
                                            push_str(&mut m, "\" deletion date for ");
                                            push_all(&mut m, &name);
                                            push_diag(&mut out, &m, vs);
                                        } else {
                                            proof { lemma_days_bound(year as int, month as int, day as int); }
                                            let days = days_from_ce(year as i64, month, day);
                                            if days * 86400 < now {
                                                let mut m: Vec<char> = Vec::new();
                                                push_all(&mut m, &name);
                                                push_str(&mut m, " \u{441}an be removed");
                                                push_diag(&mut out, &m, exec_removable_span(tree, &src, source, i));
                                            }
                                        }
                                    }
                                },
                                _ => {},
                            }
                        },
                        None => {},
                    }
                    if missing {
                        let mut m: Vec<char> = Vec::new();
                        push_str(&mut m, "Directive \"@deprecated\" must have a deletion date for ");
                        push_all(&mut m, &name);
                        push_diag(&mut out, &m, sp);
                    }
                }
            }
        }
        out
    }
}

/// How many of the first `n` nodes are `@deprecated` directives, one per
/// place in the source.
pub open spec fn deprecated_count(nodes: Seq<Node>, n: int) -> int
    decreases n,
{
    if n <= 0 {
        0
    } else {
        deprecated_count(nodes, n - 1)
            + if is_deprecated_directive(nodes, n - 1) && last_at_offset(nodes, n - 1) { 1int } else { 0int }
    }
}

/// Each `@deprecated` directive gets at most one finding, and nothing else
/// gets one.
pub proof fn law_one_finding_per_directive(nodes: Seq<Node>, src: Seq<char>, arg: Seq<char>, now: int, n: int)
    ensures date_findings(nodes, src, arg, now, n).len() <= deprecated_count(nodes, n),
    decreases n,
{
    if n > 0 {
        law_one_finding_per_directive(nodes, src, arg, now, n - 1);
    }
}

} // verus!
