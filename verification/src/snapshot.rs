//! Snapshots of diagnostics: each diagnostic's line of source with a caret
//! line under its span and a `> rule: message` line, in source order.
use vstd::prelude::*;
use crate::model::Span;
use crate::paths::{PathPart, part_view, parts_view, path_components, spec_components};
use crate::text::{chars_of, chars_eq, find_from, exec_find_from, push_all, push_str, string_of, sub_chars};

verus! {

/// A diagnostic as the engine reports it: the rule, the file it is
/// attributed to, the span in that file, and the message.
pub struct ReportedDiagnostic {
    pub rule_id: String,
    pub file: String,
    pub span: Span,
    pub message: String,
}

/// A source file: its path and its text.
pub struct SourceText {
    pub path: String,
    pub text: String,
}

/// The 1-based line and 0-based column of the offset `off` in `text`; an
/// offset past the end of the text counts as its end.
pub open spec fn place(text: Seq<char>, off: int) -> (nat, nat)
    decreases off,
{
    if off <= 0 {
        (1, 0)
    } else if off > text.len() {
        place(text, text.len() as int)
    } else {
        let (l, c) = place(text, off - 1);
        if text[off - 1] == '\n' { (l + 1, 0) } else { (l, c + 1) }
    }
}

/// `a` comes no later than `b`: by line, then by column.
pub open spec fn not_after(a: (nat, nat), b: (nat, nat)) -> bool {
    a.0 < b.0 || (a.0 == b.0 && a.1 <= b.1)
}

/// Two paths are the same file: their components agree.
pub open spec fn same_file(a: Seq<char>, b: Seq<char>) -> bool {
    spec_components(a) == spec_components(b)
}

/// The positions, among the first `n` diagnostics, of those attributed to
/// the file `path`, in order.
pub open spec fn on_file(ds: Seq<ReportedDiagnostic>, path: Seq<char>, n: int) -> Seq<int>
    decreases n,
{
    if n <= 0 {
        Seq::empty()
    } else if same_file(ds[n - 1].file@, path) {
        on_file(ds, path, n - 1).push(n - 1)
    } else {
        on_file(ds, path, n - 1)
    }
}

/// The positions, among the first `n` diagnostics, of those attributed to
/// another file, in order.
pub open spec fn off_file(ds: Seq<ReportedDiagnostic>, path: Seq<char>, n: int) -> Seq<int>
    decreases n,
{
    if n <= 0 {
        Seq::empty()
    } else if !same_file(ds[n - 1].file@, path) {
        off_file(ds, path, n - 1).push(n - 1)
    } else {
        off_file(ds, path, n - 1)
    }
}

/// Where the diagnostic at position `i` starts.
pub open spec fn start_of(text: Seq<char>, ds: Seq<ReportedDiagnostic>, i: int) -> (nat, nat) {
    place(text, ds[i].span.offset as int)
}

/// How many of the leading positions in `s` start no later than `k`.
pub open spec fn leading_not_after(text: Seq<char>, ds: Seq<ReportedDiagnostic>, s: Seq<int>, k: (nat, nat)) -> nat
    decreases s.len(),
{
    if s.len() == 0 {
        0
    } else if not_after(start_of(text, ds, s[0]), k) {
        1 + leading_not_after(text, ds, s.drop_first(), k)
    } else {
        0
    }
}

/// The positions `ix` ordered by where their diagnostics start, keeping
/// the given order between those that start at the same place: each is
/// placed after every earlier one that starts no later.
pub open spec fn by_place(text: Seq<char>, ds: Seq<ReportedDiagnostic>, ix: Seq<int>) -> Seq<int>
    decreases ix.len(),
{
    if ix.len() == 0 {
        Seq::empty()
    } else {
        let s = by_place(text, ds, ix.drop_last());
        let i = ix.last();
        s.insert(leading_not_after(text, ds, s, start_of(text, ds, i)) as int, i)
    }
}

/// The character `c`, `n` times.
pub open spec fn repeat(c: char, n: nat) -> Seq<char>
    decreases n,
{
    if n == 0 { Seq::empty() } else { repeat(c, (n - 1) as nat).push(c) }
}

/// Where line `k` (0-based) of `text` starts, if it does.
pub open spec fn line_start(text: Seq<char>, k: nat) -> Option<int>
    decreases k,
{
    if k == 0 {
        Some(0)
    } else {
        match line_start(text, (k - 1) as nat) {
            Some(s) => match find_from(text, '\n', s, text.len() as int) {
                Some(j) => Some(j + 1),
                None => None,
            },
            None => None,
        }
    }
}

/// Line `k` (0-based) of `text` without its line break, if the text has
/// that many lines.
pub open spec fn line_of(text: Seq<char>, k: nat) -> Option<Seq<char>> {
    match line_start(text, k) {
        Some(s) => if 0 <= s < text.len() {
            let e = match find_from(text, '\n', s, text.len() as int) { Some(j) => j, None => text.len() as int };
            Some(text.subrange(s, e))
        } else {
            None
        },
        None => None,
    }
}

/// The full caret lines for the lines `from` up to (not including) `to`,
/// each after a line break; empty lines get none.
pub open spec fn middle_carets(text: Seq<char>, from: nat, to: nat) -> Seq<char>
    decreases to - from,
{
    if from >= to {
        Seq::empty()
    } else {
        (match line_of(text, from) {
            Some(ml) => if ml.len() > 0 { seq!['\n'] + repeat('^', ml.len()) } else { Seq::empty() },
            None => Seq::empty(),
        }) + middle_carets(text, from + 1, to)
    }
}

/// The caret lines under the span from `(l, c)` to `(el, ec)`, whose first
/// line reads `culprit`: one run of carets on a single line (a single caret
/// for an empty span); for several lines, carets from the column to the end
/// of the first, over every non-empty line between, and up to the end
/// column on the last.
pub open spec fn caret_lines(text: Seq<char>, culprit: Seq<char>, l: nat, c: nat, el: nat, ec: nat) -> Seq<char> {
    if el == l {
        let st = if c <= ec { c } else { ec };
        let en = if c <= ec { ec } else { c };
        if en == st { repeat(' ', c) + seq!['^'] } else { repeat(' ', st) + repeat('^', (en - st) as nat) }
    } else {
        repeat(' ', c) + repeat('^', if c <= culprit.len() { (culprit.len() - c) as nat } else { 0 })
            + middle_carets(text, l, if el >= 1 { (el - 1) as nat } else { 0 })
            + (if el >= 1 && line_of(text, (el - 1) as nat) is Some { seq!['\n'] + repeat('^', ec) } else { Seq::empty() })
    }
}

/// The snapshot block of the diagnostic `d`: its first line, its caret
/// lines, and `> rule: message`.
pub open spec fn block(text: Seq<char>, d: ReportedDiagnostic) -> Seq<char> {
    let (l, c) = place(text, d.span.offset as int);
    let (el, ec) = place(text, d.span.offset + d.span.len);
    let idx: nat = if l >= 1 { (l - 1) as nat } else { 0 };
    let culprit = match line_of(text, idx) { Some(x) => x, None => Seq::empty() };
    culprit + seq!['\n'] + caret_lines(text, culprit, l, c, el, ec) + seq!['\n'] + "> "@ + d.rule_id@ + ": "@ + d.message@ + seq!['\n']
}

/// The blocks of the diagnostics at the positions `ix`, in that order.
pub open spec fn blocks(text: Seq<char>, ds: Seq<ReportedDiagnostic>, ix: Seq<int>) -> Seq<char>
    decreases ix.len(),
{
    if ix.len() == 0 { Seq::empty() } else { blocks(text, ds, ix.drop_last()) + block(text, ds[ix.last()]) }
}

/// The lines of the diagnostics at the positions `ix`, attributed to other
/// files: `> rule (in file): message`.
pub open spec fn elsewhere(ds: Seq<ReportedDiagnostic>, ix: Seq<int>) -> Seq<char>
    decreases ix.len(),
{
    if ix.len() == 0 {
        Seq::empty()
    } else {
        let d = ds[ix.last()];
        elsewhere(ds, ix.drop_last()) + "> "@ + d.rule_id@ + " (in "@ + d.file@ + "): "@ + d.message@ + seq!['\n']
    }
}

/// The snapshot of `ds` over the file `src`: the blocks of its own
/// diagnostics in source order, then the lines of the others.
pub open spec fn snapshot(ds: Seq<ReportedDiagnostic>, src: SourceText) -> Seq<char> {
    let text = src.text@;
    blocks(text, ds, by_place(text, ds, on_file(ds, src.path@, ds.len() as int)))
        + elsewhere(ds, off_file(ds, src.path@, ds.len() as int))
}

/// `s` is in source order: each comes no later than the next, and those
/// that start at the same place keep their given order.
pub open spec fn in_source_order(text: Seq<char>, ds: Seq<ReportedDiagnostic>, s: Seq<int>) -> bool {
    forall|a: int, b: int| #![trigger s[a], s[b]] 0 <= a < b < s.len() ==>
        not_after(start_of(text, ds, s[a]), start_of(text, ds, s[b]))
        && (start_of(text, ds, s[a]) == start_of(text, ds, s[b]) ==> s[a] < s[b])
}

proof fn lemma_leading(text: Seq<char>, ds: Seq<ReportedDiagnostic>, s: Seq<int>, k: (nat, nat))
    ensures
        leading_not_after(text, ds, s, k) <= s.len(),
        forall|q: int| 0 <= q < leading_not_after(text, ds, s, k) ==> not_after(start_of(text, ds, #[trigger] s[q]), k),
        leading_not_after(text, ds, s, k) < s.len() ==> !not_after(start_of(text, ds, s[leading_not_after(text, ds, s, k) as int]), k),
    decreases s.len(),
{
    if s.len() > 0 && not_after(start_of(text, ds, s[0]), k) {
        let t = s.drop_first();
        lemma_leading(text, ds, t, k);
        assert forall|q: int| 0 <= q < leading_not_after(text, ds, s, k) implies not_after(start_of(text, ds, #[trigger] s[q]), k) by {
            if q > 0 {
                assert(s[q] == t[q - 1]);
            }
        }
        if leading_not_after(text, ds, s, k) < s.len() {
            assert(s[leading_not_after(text, ds, s, k) as int] == t[leading_not_after(text, ds, t, k) as int]);
        }
    }
}

/// The snapshot shows a file's own diagnostics in source order (line,
/// then column), those that start at the same place in the order given,
/// each exactly once.
#[verifier::spinoff_prover]
#[verifier::rlimit(50)]
pub proof fn law_snapshot_in_source_order(text: Seq<char>, ds: Seq<ReportedDiagnostic>, ix: Seq<int>)
    requires forall|a: int, b: int| 0 <= a < b < ix.len() ==> #[trigger] ix[a] < #[trigger] ix[b],
    ensures
        by_place(text, ds, ix).len() == ix.len(),
        forall|q: int| 0 <= q < ix.len() ==> ix.contains(#[trigger] by_place(text, ds, ix)[q]),
        forall|q: int| 0 <= q < ix.len() ==> by_place(text, ds, ix).contains(#[trigger] ix[q]),
        in_source_order(text, ds, by_place(text, ds, ix)),
    decreases ix.len(),
{
    if ix.len() > 0 {
        let d = ix.drop_last();
        assert forall|a: int, b: int| 0 <= a < b < d.len() implies #[trigger] d[a] < #[trigger] d[b] by {
            assert(d[a] == ix[a] && d[b] == ix[b]);
        }
        law_snapshot_in_source_order(text, ds, d);
        let s = by_place(text, ds, d);
        let i = ix.last();
        let k = start_of(text, ds, i);
        lemma_leading(text, ds, s, k);
        let p = leading_not_after(text, ds, s, k) as int;
        let r = s.insert(p, i);
        assert(r == by_place(text, ds, ix));
        assert forall|q: int| 0 <= q < s.len() implies #[trigger] s[q] < i by {
            assert(d.contains(s[q]));
            let j = choose|j: int| 0 <= j < d.len() && d[j] == s[q];
            assert(ix[j] < ix[ix.len() - 1]);
        }
        assert forall|q: int| 0 <= q < ix.len() implies ix.contains(#[trigger] r[q]) by {
            if q < p {
                assert(r[q] == s[q]);
                assert(d.contains(s[q]));
                let j = choose|j: int| 0 <= j < d.len() && d[j] == s[q];
                assert(ix[j] == d[j]);
            } else if q == p {
                assert(ix[ix.len() - 1] == i);
            } else {
                assert(r[q] == s[q - 1]);
                assert(d.contains(s[q - 1]));
                let j = choose|j: int| 0 <= j < d.len() && d[j] == s[q - 1];
                assert(ix[j] == d[j]);
            }
        }
        assert forall|q: int| 0 <= q < ix.len() implies r.contains(#[trigger] ix[q]) by {
            if q == ix.len() - 1 {
                assert(r[p] == i);
            } else {
                assert(ix[q] == d[q]);
                assert(s.contains(d[q]));
                let j = choose|j: int| 0 <= j < s.len() && s[j] == d[q];
                if j < p {
                    assert(r[j] == s[j]);
                } else {
                    assert(r[j + 1] == s[j]);
                }
            }
        }
        assert forall|a: int, b: int| #![trigger r[a], r[b]] 0 <= a < b < r.len() implies
            not_after(start_of(text, ds, r[a]), start_of(text, ds, r[b]))
            && (start_of(text, ds, r[a]) == start_of(text, ds, r[b]) ==> r[a] < r[b]) by {
            if b < p {
                assert(r[a] == s[a] && r[b] == s[b]);
                assert(in_source_order(text, ds, s));
                assert(s[a] == s[a] && s[b] == s[b]);
            } else if b == p {
                assert(r[a] == s[a] && r[b] == i);
                assert(not_after(start_of(text, ds, s[a]), k));
            } else if a == p {
                assert(r[a] == i && r[b] == s[b - 1]);
                if b - 1 == p {
                    assert(!not_after(start_of(text, ds, s[p]), k));
                } else {
                    assert(!not_after(start_of(text, ds, s[p]), k));
                    assert(not_after(start_of(text, ds, s[p]), start_of(text, ds, s[b - 1])));
                }
            } else if a < p {
                assert(r[a] == s[a] && r[b] == s[b - 1]);
                assert(not_after(start_of(text, ds, s[a]), start_of(text, ds, s[b - 1])));
            } else {
                assert(r[a] == s[a - 1] && r[b] == s[b - 1]);
                assert(not_after(start_of(text, ds, s[a - 1]), start_of(text, ds, s[b - 1])));
            }
        }
    }
}

proof fn lemma_on_file_increasing(ds: Seq<ReportedDiagnostic>, path: Seq<char>, n: int)
    ensures
        forall|a: int, b: int| 0 <= a < b < on_file(ds, path, n).len() ==> #[trigger] on_file(ds, path, n)[a] < #[trigger] on_file(ds, path, n)[b],
        forall|a: int| 0 <= a < on_file(ds, path, n).len() ==> #[trigger] on_file(ds, path, n)[a] < n,
    decreases n,
{
    if n > 0 {
        lemma_on_file_increasing(ds, path, n - 1);
        let prev = on_file(ds, path, n - 1);
        let cur = on_file(ds, path, n);
        if same_file(ds[n - 1].file@, path) {
            assert(cur == prev.push(n - 1));
            assert forall|a: int, b: int| 0 <= a < b < cur.len() implies #[trigger] cur[a] < #[trigger] cur[b] by {
                if b < prev.len() {
                    assert(cur[a] == prev[a] && cur[b] == prev[b]);
                } else {
                    assert(cur[a] == prev[a]);
                }
            }
            assert forall|a: int| 0 <= a < cur.len() implies #[trigger] cur[a] < n by {
                if a < prev.len() {
                    assert(cur[a] == prev[a]);
                }
            }
        } else {
            assert(cur == prev);
        }
    }
}

/// The own diagnostics of a file are shown in source order, each once.
pub proof fn law_own_diagnostics_in_source_order(ds: Seq<ReportedDiagnostic>, src: SourceText)
    ensures in_source_order(src.text@, ds, by_place(src.text@, ds, on_file(ds, src.path@, ds.len() as int))),
{
    lemma_on_file_increasing(ds, src.path@, ds.len() as int);
    law_snapshot_in_source_order(src.text@, ds, on_file(ds, src.path@, ds.len() as int));
}

/// Whether two paths have the same components, each compared as text.
/// (On Windows std's own path equality also takes `c:` and `C:` prefixes
/// as equal; this comparison does not.)
pub(crate) fn same_path(a: &str, b: &str) -> (r: bool)
    ensures r == same_file(a@, b@),
{
    let pa = path_components(a);
    let pb = path_components(b);
    if pa.len() != pb.len() {
        proof { assert(parts_view(pa@).len() != parts_view(pb@).len()); }
        return false;
    }
    for i in 0..pa.len()
        invariant
            pa@.len() == pb@.len(),
            parts_view(pa@) == spec_components(a@),
            parts_view(pb@) == spec_components(b@),
            forall|j: int| 0 <= j < i ==> part_view(#[trigger] pa@[j]) == part_view(pb@[j]),
    {
        let same = match (&pa[i], &pb[i]) {
            (PathPart::Prefix(x), PathPart::Prefix(y)) => chars_eq(&chars_of(x.as_str()), &chars_of(y.as_str())),
            (PathPart::RootDir, PathPart::RootDir) => true,
            (PathPart::CurDir, PathPart::CurDir) => true,
            (PathPart::ParentDir, PathPart::ParentDir) => true,
            (PathPart::Normal(x), PathPart::Normal(y)) => chars_eq(&chars_of(x.as_str()), &chars_of(y.as_str())),
            _ => false,
        };
        if !same {
            proof {
                assert(parts_view(pa@)[i as int] != parts_view(pb@)[i as int]);
                assert(parts_view(pa@) != parts_view(pb@));
            }
            return false;
        }
    }
    proof { assert(parts_view(pa@) =~= parts_view(pb@)); }
    true
}

pub(crate) fn exec_place(text: &Vec<char>, off: usize) -> (r: (usize, usize))
    requires text@.len() < usize::MAX,
    ensures r.0 == place(text@, off as int).0, r.1 == place(text@, off as int).1,
{
    let o = if off > text.len() { text.len() } else { off };
    proof { if off > text@.len() { assert(place(text@, off as int) == place(text@, text@.len() as int)); } }
    let mut l: usize = 1;
    let mut c: usize = 0;
    for i in 0..o
        invariant
            o <= text@.len(),
            l == place(text@, i as int).0,
            c == place(text@, i as int).1,
            l <= i + 1,
            c <= i,
            text@.len() < usize::MAX,
    {
        if text[i] == '\n' {
            l = l + 1;
            c = 0;
        } else {
            c = c + 1;
        }
    }
    (l, c)
}

fn push_repeat(out: &mut Vec<char>, c: char, n: usize)
    ensures final(out)@ == old(out)@ + repeat(c, n as nat),
{
    let ghost start = out@;
    for i in 0..n
        invariant out@ == start + repeat(c, i as nat),
    {
        out.push(c);
        proof { assert(out@ =~= start + repeat(c, (i + 1) as nat)); }
    }
}

fn exec_line_of(text: &Vec<char>, k: usize) -> (r: Option<Vec<char>>)
    ensures
        match r {
            Some(x) => line_of(text@, k as nat) == Some(x@),
            None => line_of(text@, k as nat) is None,
        },
{
    let n = text.len();
    let mut s: usize = 0;
    for i in 0..k
        invariant
            n == text@.len(),
            line_start(text@, i as nat) == Some(s as int),
            s <= n,
    {
        match exec_find_from(text, '\n', s, n) {
            Some(j) => { s = j + 1; },
            None => {
                proof { lemma_line_start_stops(text@, i as nat, k as nat); }
                return None;
            },
        }
    }
    if s < n {
        let e = match exec_find_from(text, '\n', s, n) { Some(j) => j, None => n };
        Some(sub_chars(text, s, e))
    } else {
        None
    }
}

proof fn lemma_line_start_stops(text: Seq<char>, i: nat, k: nat)
    requires
        i < k,
        line_start(text, i) matches Some(s) && find_from(text, '\n', s, text.len() as int) is None,
    ensures line_start(text, k) is None,
    decreases k - i,
{
    if k == i + 1 {
    } else {
        lemma_line_start_stops(text, i, (k - 1) as nat);
    }
}

fn push_middle_carets(out: &mut Vec<char>, text: &Vec<char>, from: usize, to: usize)
    ensures final(out)@ == old(out)@ + middle_carets(text@, from as nat, to as nat),
{
    let ghost start = out@;
    let mut m = from;
    while m < to
        invariant
            from <= to ==> from <= m <= to,
            from > to ==> m == from,
            start + middle_carets(text@, from as nat, to as nat) == out@ + middle_carets(text@, m as nat, to as nat),
        decreases to - m,
    {
        let ghost before = out@;
        match exec_line_of(text, m) {
            Some(ml) => {
                if ml.len() > 0 {
                    out.push('\n');
                    push_repeat(out, '^', ml.len());
                }
            },
            None => {},
        }
        proof {
            let piece = match line_of(text@, m as nat) {
                Some(x) => if x.len() > 0 { seq!['\n'] + repeat('^', x.len()) } else { Seq::<char>::empty() },
                None => Seq::<char>::empty(),
            };
            assert(out@ =~= before + piece);
            assert(middle_carets(text@, m as nat, to as nat) == piece + middle_carets(text@, (m + 1) as nat, to as nat));
        }
        m = m + 1;
    }
}

fn push_carets(out: &mut Vec<char>, text: &Vec<char>, culprit: &Vec<char>, l: usize, c: usize, el: usize, ec: usize)
    ensures final(out)@ == old(out)@ + caret_lines(text@, culprit@, l as nat, c as nat, el as nat, ec as nat),
{
    let ghost head = out@;
    if el == l {
        let st = if c <= ec { c } else { ec };
        let en = if c <= ec { ec } else { c };
        if en == st {
            push_repeat(out, ' ', c);
            out.push('^');
        } else {
            push_repeat(out, ' ', st);
            push_repeat(out, '^', en - st);
        }
        proof { assert(out@ =~= head + caret_lines(text@, culprit@, l as nat, c as nat, el as nat, ec as nat)); }
    } else {
        push_repeat(out, ' ', c);
        push_repeat(out, '^', if c <= culprit.len() { culprit.len() - c } else { 0 });
        let ghost mid = out@;
        push_middle_carets(out, text, l, if el >= 1 { el - 1 } else { 0 });
        let ghost mid2 = out@;
        let last = if el >= 1 { exec_line_of(text, el - 1).is_some() } else { false };
        if last {
            out.push('\n');
            push_repeat(out, '^', ec);
        }
        proof { assert(out@ =~= head + caret_lines(text@, culprit@, l as nat, c as nat, el as nat, ec as nat)); }
    }
}

fn push_block(out: &mut Vec<char>, text: &Vec<char>, d: &ReportedDiagnostic)
    requires text@.len() < usize::MAX,
    ensures final(out)@ == old(out)@ + block(text@, *d),
{
    let ghost start = out@;
    let total = text.len();
    let end = if d.span.offset > total || d.span.len > total - d.span.offset { total } else { d.span.offset + d.span.len };
    proof {
        if d.span.offset + d.span.len > total {
            assert(place(text@, d.span.offset + d.span.len) == place(text@, total as int));
        }
    }
    let (l, c) = exec_place(text, d.span.offset);
    let (el, ec) = exec_place(text, end);
    let idx = if l >= 1 { l - 1 } else { 0 };
    let culprit = match exec_line_of(text, idx) { Some(x) => x, None => Vec::new() };
    proof {
        let culprit_v = match line_of(text@, idx as nat) { Some(x) => x, None => Seq::<char>::empty() };
        assert(culprit@ == culprit_v);
    }
    push_all(out, &culprit);
    out.push('\n');
    push_carets(out, text, &culprit, l, c, el, ec);
    out.push('\n');
    push_str(out, "> ");
    push_str(out, d.rule_id.as_str());
    push_str(out, ": ");
    push_str(out, d.message.as_str());
    out.push('\n');
    proof { assert(out@ =~= start + block(text@, *d)); }
}

fn place_not_after(text: &Vec<char>, a: &ReportedDiagnostic, k: (usize, usize)) -> (r: bool)
    requires text@.len() < usize::MAX,
    ensures r == not_after(place(text@, a.span.offset as int), (k.0 as nat, k.1 as nat)),
{
    let p = exec_place(text, a.span.offset);
    p.0 < k.0 || (p.0 == k.0 && p.1 <= k.1)
}

proof fn lemma_leading_split(text: Seq<char>, ds: Seq<ReportedDiagnostic>, s: Seq<int>, k: (nat, nat), p: int)
    requires
        0 <= p <= s.len(),
        forall|q: int| 0 <= q < p ==> not_after(start_of(text, ds, #[trigger] s[q]), k),
    ensures leading_not_after(text, ds, s, k) == p + leading_not_after(text, ds, s.skip(p), k),
    decreases p,
{
    if p > 0 {
        assert(not_after(start_of(text, ds, s[0]), k));
        let t = s.drop_first();
        assert forall|q: int| 0 <= q < p - 1 implies not_after(start_of(text, ds, #[trigger] t[q]), k) by {
            assert(t[q] == s[q + 1]);
        }
        lemma_leading_split(text, ds, t, k, p - 1);
        assert(t.skip(p - 1) =~= s.skip(p));
    } else {
        assert(s.skip(0) =~= s);
    }
}

/// The snapshot of `diagnostics` over the file `source`: for each of its
/// own diagnostics, in source order (line, then column, keeping the given
/// order between equals), the line it starts on, a caret line under its
/// span, and `> rule: message`; then, for each diagnostic attributed to
/// another file, `> rule (in file): message`.
/// A position past the end of the text counts as its end.
pub fn render_snapshot(diagnostics: &[ReportedDiagnostic], source: &SourceText) -> (r: String)
    requires
        source.text@.len() < usize::MAX,
    ensures r@ == snapshot(diagnostics@, *source),
{
    let ghost ds = diagnostics@;
    let text = chars_of(source.text.as_str());
    let ghost path = source.path@;
    let mut on: Vec<usize> = Vec::new();
    let mut off: Vec<usize> = Vec::new();
    for i in 0..diagnostics.len()
        invariant
            ds == diagnostics@,
            path == source.path@,
            on@.map_values(|x: usize| x as int) == on_file(ds, path, i as int),
            off@.map_values(|x: usize| x as int) == off_file(ds, path, i as int),
            forall|q: int| 0 <= q < on@.len() ==> (#[trigger] on@[q]) < i && same_file(ds[on@[q] as int].file@, path),
            forall|q: int| 0 <= q < off@.len() ==> (#[trigger] off@[q]) < i,
    {
        let ghost on0 = on@;
        let ghost off0 = off@;
        if same_path(diagnostics[i].file.as_str(), source.path.as_str()) {
            on.push(i);
            proof { assert(on@.map_values(|x: usize| x as int) =~= on0.map_values(|x: usize| x as int).push(i as int)); }
        } else {
            off.push(i);
            proof { assert(off@.map_values(|x: usize| x as int) =~= off0.map_values(|x: usize| x as int).push(i as int)); }
        }
    }
    let ghost on_v = on@.map_values(|x: usize| x as int);
    let mut sorted: Vec<usize> = Vec::new();
    for i in 0..on.len()
        invariant
            ds == diagnostics@,
            text@ == source.text@,
            text@.len() < usize::MAX,
            path == source.path@,
            on_v == on@.map_values(|x: usize| x as int),
            on_v == on_file(ds, path, ds.len() as int),
            forall|q: int| 0 <= q < on@.len() ==> (#[trigger] on@[q]) < ds.len() && same_file(ds[on@[q] as int].file@, path),
            sorted@.map_values(|x: usize| x as int) == by_place(text@, ds, on_v.take(i as int)),
            forall|q: int| 0 <= q < sorted@.len() ==> (#[trigger] sorted@[q]) < ds.len() && same_file(ds[sorted@[q] as int].file@, path),
    {
        let d = &diagnostics[on[i]];
        proof { assert(same_file(ds[on@[i as int] as int].file@, source.path@)); }
        let k = exec_place(&text, d.span.offset);
        let ghost kk: (nat, nat) = (k.0 as nat, k.1 as nat);
        proof { assert(kk == start_of(text@, ds, on@[i as int] as int)); }
        let ghost sv = sorted@.map_values(|x: usize| x as int);
        let mut p: usize = 0;
        while p < sorted.len() && place_not_after(&text, &diagnostics[sorted[p]], k)
            invariant
                0 <= p <= sorted@.len(),
                ds == diagnostics@,
                text@ == source.text@,
                text@.len() < usize::MAX,
                path == source.path@,
                    forall|q: int| 0 <= q < sorted@.len() ==> (#[trigger] sorted@[q]) < ds.len() && same_file(ds[sorted@[q] as int].file@, path),
                sv == sorted@.map_values(|x: usize| x as int),
                kk == (k.0 as nat, k.1 as nat),
                forall|q: int| 0 <= q < p ==> not_after(start_of(text@, ds, #[trigger] sv[q]), kk),
            decreases sorted@.len() - p,
        {
            proof { assert(same_file(ds[sorted@[p as int] as int].file@, source.path@)); }
            p = p + 1;
        }
        proof {
            if p < sorted@.len() {
                assert(same_file(ds[sorted@[p as int] as int].file@, source.path@));
            }
            lemma_leading_split(text@, ds, sv, kk, p as int);
            if p < sv.len() {
                assert(sv.skip(p as int)[0] == sv[p as int]);
            }
            assert(leading_not_after(text@, ds, sv, kk) == p);
            assert(on_v.take(i + 1).drop_last() =~= on_v.take(i as int));
            assert(on_v.take(i + 1).last() == on@[i as int] as int);
        }
        let ghost s0 = sorted@;
        sorted.insert(p, on[i]);
        proof {
            assert(sorted@.map_values(|x: usize| x as int) =~= sv.insert(p as int, on@[i as int] as int));
            assert forall|q: int| 0 <= q < sorted@.len() implies (#[trigger] sorted@[q]) < ds.len() && same_file(ds[sorted@[q] as int].file@, path) by {
                if q < p {
                    assert(sorted@[q] == s0[q]);
                } else if q > p {
                    assert(sorted@[q] == s0[q - 1]);
                }
            }
        }
    }
    proof { assert(on_v.take(on@.len() as int) =~= on_v); }
    let mut out: Vec<char> = Vec::new();
    let ghost sorted_v = sorted@.map_values(|x: usize| x as int);
    for i in 0..sorted.len()
        invariant
            ds == diagnostics@,
            text@ == source.text@,
            text@.len() < usize::MAX,
            path == source.path@,
            sorted_v == sorted@.map_values(|x: usize| x as int),
            forall|q: int| 0 <= q < sorted@.len() ==> (#[trigger] sorted@[q]) < ds.len() && same_file(ds[sorted@[q] as int].file@, path),
            sorted_v == by_place(text@, ds, on_file(ds, path, ds.len() as int)),
            out@ == blocks(text@, ds, sorted_v.take(i as int)),
    {
        let d = &diagnostics[sorted[i]];
        proof {
            assert(same_file(ds[sorted@[i as int] as int].file@, source.path@));
            assert(sorted_v.take(i + 1).drop_last() =~= sorted_v.take(i as int));
        }
        push_block(&mut out, &text, d);
    }
    proof { assert(sorted_v.take(sorted_v.len() as int) =~= sorted_v); }
    let ghost own = out@;
    let ghost off_v = off@.map_values(|x: usize| x as int);
    for i in 0..off.len()
        invariant
            ds == diagnostics@,
            off_v == off@.map_values(|x: usize| x as int),
            forall|q: int| 0 <= q < off@.len() ==> (#[trigger] off@[q]) < ds.len(),
            out@ == own + elsewhere(ds, off_v.take(i as int)),
    {
        let d = &diagnostics[off[i]];
        push_str(&mut out, "> ");
        push_str(&mut out, d.rule_id.as_str());
        push_str(&mut out, " (in ");
        push_str(&mut out, d.file.as_str());
        push_str(&mut out, "): ");
        push_str(&mut out, d.message.as_str());
        out.push('\n');
        proof {
            assert(off_v.take(i + 1).drop_last() =~= off_v.take(i as int));
            assert(out@ =~= own + elsewhere(ds, off_v.take(i + 1)));
        }
    }
    proof { assert(off_v.take(off_v.len() as int) =~= off_v); }
    string_of(&out)
}

} // verus!
