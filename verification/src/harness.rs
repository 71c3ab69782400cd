//! Parity checking of a rule's findings against a fixture's expected
//! findings: the parity records, the comparator and its readable diff, and
//! the choice of a fixture's files by name.
use vstd::prelude::*;
use crate::text::{dec, no_line_break, lemma_dec_no_line_break, debug_text, debug_str, push_dec, push_str, push_all, string_of, chars_of, ends_with, exec_ends_with};
use crate::case::join;
use crate::snapshot::{ReportedDiagnostic, SourceText, same_file, same_path};
use crate::cst::{utf8_len, exec_utf8_len};

verus! {

/// One expected finding: `{ rule, message, line, column }`, with a 1-based
/// line and a 0-based column.
#[derive(Clone, Debug, PartialEq, Eq)]
pub struct ExpectedError {
    pub rule: String,
    pub message: String,
    pub line: usize,
    pub column: usize,
}

/// An actual finding, reduced to the fields that parity compares.
#[derive(Clone, Debug, PartialEq, Eq)]
pub struct ActualError {
    pub rule: String,
    pub message: String,
    pub line: usize,
    pub column: usize,
}

/// The lines of a parity record: `{head}rule=.. line=.. column=.. message=..`.
pub open spec fn record_line(head: Seq<char>, rule: Seq<char>, line: nat, column: nat, msg: Seq<char>) -> Seq<char> {
    head + "rule="@ + rule + " line="@ + dec(line) + " column="@ + dec(column) + " message="@ + msg
}

/// The lines of the diff for parity slot `index`.
pub open spec fn slot_lines(index: nat, e: ExpectedError, a: Option<ActualError>, loose: bool) -> Seq<Seq<char>> {
    let head = seq![
        "parity slot "@ + dec(index) + " mismatch:"@,
        record_line(
            "  expected: "@,
            e.rule@,
            e.line as nat,
            e.column as nat,
            if loose { debug_text("<loose_message: ignored>"@) } else { debug_text(e.message@) },
        ),
    ];
    match a {
        Some(a) => head.push(
            record_line("  actual:   "@, a.rule@, a.line as nat, a.column as nat, debug_text(a.message@)),
        ) + (if e.rule@ != a.rule@ {
            seq!["  - rule id differs"@]
        } else {
            Seq::<Seq<char>>::empty()
        }) + (if !loose && e.message@ != a.message@ {
            seq!["  - message differs (verbatim parity required)"@]
        } else {
            Seq::<Seq<char>>::empty()
        }) + (if e.line != a.line || e.column != a.column {
            seq!["  - location differs (line/column)"@]
        } else {
            Seq::<Seq<char>>::empty()
        }),
        None => head.push("  actual:   <missing>"@),
    }
}

/// The lines of the diff for differing counts.
pub open spec fn count_lines(expected: nat, actual: nat) -> Seq<Seq<char>> {
    seq![
        "diagnostic count mismatch: expected "@ + dec(expected) + ", got "@ + dec(actual),
        "  (cannot slot-pair differing counts)"@,
    ]
}

/// The lines of the diff for a valid case that produced findings.
pub open spec fn stray_lines(first: ActualError, count: nat) -> Seq<Seq<char>> {
    seq![
        "valid case produced unexpected diagnostics:"@,
        record_line("  "@, first.rule@, first.line as nat, first.column as nat, debug_text(first.message@)),
        "  expected 0 diagnostics, got "@ + dec(count),
    ]
}

/// A readable diff between expected and actual findings, as a list of
/// lines.
#[derive(Debug)]
pub struct ParityDiff {
    lines: Vec<String>,
}

impl View for ParityDiff {
    type V = Seq<Seq<char>>;

    closed spec fn view(&self) -> Seq<Seq<char>> {
        self.lines@.map_values(|l: String| l@)
    }
}

fn push_record(v: &mut Vec<char>, head: &str, rule: &String, line: usize, column: usize, msg: &Vec<char>)
    ensures final(v)@ == old(v)@ + record_line(head@, rule@, line as nat, column as nat, msg@),
{
    push_str(v, head);
    push_str(v, "rule=");
    push_str(v, rule.as_str());
    push_str(v, " line=");
    push_dec(v, line);
    push_str(v, " column=");
    push_dec(v, column);
    push_str(v, " message=");
    push_all(v, msg);
}

impl ParityDiff {
    /// The diff for parity slot `index`, where `expected` and `actual`
    /// disagree (or `actual` is missing).
    pub fn slot(index: usize, expected: &ExpectedError, actual: Option<&ActualError>, loose_message: bool) -> (d: Self)
        ensures
            d@ == slot_lines(index as nat, *expected, match actual { Some(a) => Some(*a), None => None }, loose_message),
    {
        let mut lines: Vec<String> = Vec::new();
        let mut l0: Vec<char> = Vec::new();
        push_str(&mut l0, "parity slot ");
        push_dec(&mut l0, index);
        push_str(&mut l0, " mismatch:");
        lines.push(string_of(&l0));
        let shown = if loose_message {
            debug_str("<loose_message: ignored>")
        } else {
            debug_str(expected.message.as_str())
        };
        let shown_chars = chars_of(shown.as_str());
        let mut l1: Vec<char> = Vec::new();
        push_record(&mut l1, "  expected: ", &expected.rule, expected.line, expected.column, &shown_chars);
        lines.push(string_of(&l1));
        let ghost head = lines@.map_values(|l: String| l@);
        match actual {
            Some(a) => {
                let am = debug_str(a.message.as_str());
                let am_chars = chars_of(am.as_str());
                let mut l2: Vec<char> = Vec::new();
                push_record(&mut l2, "  actual:   ", &a.rule, a.line, a.column, &am_chars);
                lines.push(string_of(&l2));
                let ghost l3 = lines@.map_values(|l: String| l@);
                let rule_differs = !crate::text::chars_eq(&chars_of(expected.rule.as_str()), &chars_of(a.rule.as_str()));
                if rule_differs {
                    lines.push(string_of(&chars_of("  - rule id differs")));
                }
                let ghost l4 = lines@.map_values(|l: String| l@);
                let msg_differs = !crate::text::chars_eq(&chars_of(expected.message.as_str()), &chars_of(a.message.as_str()));
                if !loose_message && msg_differs {
                    lines.push(string_of(&chars_of("  - message differs (verbatim parity required)")));
                }
                let ghost l5 = lines@.map_values(|l: String| l@);
                if expected.line != a.line || expected.column != a.column {
                    lines.push(string_of(&chars_of("  - location differs (line/column)")));
                }
                proof {
                    let s = slot_lines(index as nat, *expected, Some(*a), loose_message);
                    assert(l3 =~= head.push(l2@));
                    let x1 = if expected.rule@ != a.rule@ { seq!["  - rule id differs"@] } else { Seq::<Seq<char>>::empty() };
                    assert(l4 =~= l3 + x1);
                    let x2 = if !loose_message && expected.message@ != a.message@ { seq!["  - message differs (verbatim parity required)"@] } else { Seq::<Seq<char>>::empty() };
                    assert(l5 =~= l4 + x2);
                    let x3 = if expected.line != a.line || expected.column != a.column { seq!["  - location differs (line/column)"@] } else { Seq::<Seq<char>>::empty() };
                    assert(lines@.map_values(|l: String| l@) =~= l5 + x3);
                    assert(s =~= head.push(l2@) + x1 + x2 + x3);
                }
            },
            None => {
                lines.push(string_of(&chars_of("  actual:   <missing>")));
            },
        }
        let d = ParityDiff { lines };
        proof { assert(d@ =~= slot_lines(index as nat, *expected, match actual { Some(a) => Some(*a), None => None }, loose_message)); }
        d
    }

    /// The diff for differing counts (no slot pairing is possible).
    pub fn count(expected: usize, actual: usize) -> (d: Self)
        ensures d@ == count_lines(expected as nat, actual as nat),
    {
        let mut l0: Vec<char> = Vec::new();
        push_str(&mut l0, "diagnostic count mismatch: expected ");
        push_dec(&mut l0, expected);
        push_str(&mut l0, ", got ");
        push_dec(&mut l0, actual);
        let mut lines: Vec<String> = Vec::new();
        lines.push(string_of(&l0));
        lines.push(string_of(&chars_of("  (cannot slot-pair differing counts)")));
        let d = ParityDiff { lines };
        proof { assert(d@ =~= count_lines(expected as nat, actual as nat)); }
        d
    }

    /// A diff made of the given lines.
    pub fn from_lines(lines: Vec<String>) -> (d: Self)
        ensures d@ == lines@.map_values(|l: String| l@),
    {
        ParityDiff { lines }
    }

    /// The first line of the diff (empty when there is none).
    pub fn summary(&self) -> (r: &str)
        ensures r@ == (if self@.len() > 0 { self@[0] } else { ""@ }),
    {
        if self.lines.len() > 0 {
            self.lines[0].as_str()
        } else {
            ""
        }
    }

    /// The whole diff: its lines joined by newlines, with a final newline.
    pub fn render(&self) -> (r: String)
        ensures r@ == join(self@, seq!['\n']) + seq!['\n'],
    {
        let ghost ls = self@;
        let mut out: Vec<char> = Vec::new();
        for i in 0..self.lines.len()
            invariant
                ls == self@,
                ls == self.lines@.map_values(|l: String| l@),
                out@ == join(ls.take(i as int), seq!['\n']),
        {
            proof {
                assert(ls.take(i + 1).drop_last() == ls.take(i as int));
                assert(ls.take(i + 1).last() == self.lines@[i as int]@);
            }
            if i > 0 {
                out.push('\n');
            } else {
                proof { assert(ls.take(1) == seq![self.lines@[0]@]); }
            }
            push_str(&mut out, self.lines[i].as_str());
        }
        proof { assert(ls.take(ls.len() as int) == ls); }
        out.push('\n');
        string_of(&out)
    }
}

/// Whether an expected and an actual record disagree: rule, line or column
/// differ, or (unless `loose`) the message differs.
pub open spec fn mismatch(e: ExpectedError, a: ActualError, loose: bool) -> bool {
    e.rule@ != a.rule@ || e.line != a.line || e.column != a.column || (!loose && e.message@ != a.message@)
}

/// Parity of `actual` with `expected`: as many records, and no slot that
/// disagrees.
pub open spec fn parity(expected: Seq<ExpectedError>, actual: Seq<ActualError>, loose: bool) -> bool {
    expected.len() == actual.len() && forall|i: int| 0 <= i < actual.len() ==> !mismatch(#[trigger] expected[i], actual[i], loose)
}

/// A loose comparison, which skips the messages, accepts whatever the
/// strict one accepts.
pub proof fn law_loose_accepts_strict(expected: Seq<ExpectedError>, actual: Seq<ActualError>)
    requires parity(expected, actual, false),
    ensures parity(expected, actual, true),
{
    assert forall|i: int| 0 <= i < actual.len() implies !mismatch(#[trigger] expected[i], actual[i], true) by {
        assert(!mismatch(expected[i], actual[i], false));
    }
}

/// Compares actual findings with expected ones, slot by slot.
pub struct Comparator<'a> {
    pub expected: &'a [ExpectedError],
    pub loose_message: bool,
}

impl<'a> Comparator<'a> {
    pub fn new(expected: &'a [ExpectedError], loose_message: bool) -> (c: Self)
        ensures
            c.expected@ == expected@,
            c.loose_message == loose_message,
    {
        Comparator { expected, loose_message }
    }

    /// Parity of `actual` with the expected records, in order: the counts
    /// must agree and every slot must match; otherwise the diff of the count
    /// or of the first slot that disagrees.
    pub fn compare(&self, actual: &[ActualError]) -> (r: Result<(), ParityDiff>)
        ensures
            r is Ok <==> (self.expected@.len() == actual@.len() && forall|i: int|
                0 <= i < actual@.len() ==> !mismatch(#[trigger] self.expected@[i], actual@[i], self.loose_message)),
            self.expected@.len() != actual@.len() ==> (r matches Err(d) && d@ == count_lines(
                self.expected@.len(),
                actual@.len(),
            )),
            (self.expected@.len() == actual@.len() && r is Err) ==> exists|i: int|
                0 <= i < actual@.len() && mismatch(self.expected@[i], actual@[i], self.loose_message)
                    && (forall|j: int| 0 <= j < i ==> !mismatch(#[trigger] self.expected@[j], actual@[j], self.loose_message))
                    && r->Err_0@ == slot_lines(i as nat, self.expected@[i], Some(actual@[i]), self.loose_message),
    {
        if self.expected.len() != actual.len() {
            return Err(ParityDiff::count(self.expected.len(), actual.len()));
        }
        for i in 0..actual.len()
            invariant
                self.expected@.len() == actual@.len(),
                forall|j: int| 0 <= j < i ==> !mismatch(#[trigger] self.expected@[j], actual@[j], self.loose_message),
        {
            let exp = &self.expected[i];
            let act = &actual[i];
            let rule_eq = crate::text::chars_eq(&chars_of(exp.rule.as_str()), &chars_of(act.rule.as_str()));
            let msg_eq = crate::text::chars_eq(&chars_of(exp.message.as_str()), &chars_of(act.message.as_str()));
            if !rule_eq || exp.line != act.line || exp.column != act.column || (!self.loose_message && !msg_eq) {
                return Err(ParityDiff::slot(i, exp, Some(act), self.loose_message));
            }
        }
        Ok(())
    }

    /// The check for a valid case: no actual findings at all; otherwise a
    /// diff naming the first one and the count.
    pub fn compare_valid(&self, actual: &[ActualError]) -> (r: Result<(), ParityDiff>)
        ensures
            r is Ok <==> actual@.len() == 0,
            actual@.len() > 0 ==> (r matches Err(d) && d@ == stray_lines(actual@[0], actual@.len())),
    {
        if actual.len() == 0 {
            return Ok(());
        }
        let stray = &actual[0];
        let sm = debug_str(stray.message.as_str());
        let sm_chars = chars_of(sm.as_str());
        let mut l1: Vec<char> = Vec::new();
        push_record(&mut l1, "  ", &stray.rule, stray.line, stray.column, &sm_chars);
        let mut l2: Vec<char> = Vec::new();
        push_str(&mut l2, "  expected 0 diagnostics, got ");
        push_dec(&mut l2, actual.len());
        let mut lines: Vec<String> = Vec::new();
        lines.push(string_of(&chars_of("valid case produced unexpected diagnostics:")));
        lines.push(string_of(&l1));
        lines.push(string_of(&l2));
        let d = ParityDiff { lines };
        proof { assert(d@ =~= stray_lines(actual@[0], actual@.len())); }
        Err(d)
    }
}


/// The outcome of a fixture run that held parity: the actual findings, in
/// the order they were produced.
#[derive(Debug, Clone)]
pub struct RunOutcome {
    pub actual: Vec<ActualError>,
}

/// The 1-based line and 0-based column, counted in UTF-8 bytes as the
/// fixtures count them, of the offset `off` in `text`; an offset past the
/// end of the text counts as its end.
pub open spec fn byte_place(text: Seq<char>, off: int) -> (nat, nat)
    decreases off,
{
    if off <= 0 {
        (1, 0)
    } else if off > text.len() {
        byte_place(text, text.len() as int)
    } else {
        let (l, c) = byte_place(text, off - 1);
        if text[off - 1] == '\n' { (l + 1, 0) } else { (l, (c + utf8_len(text[off - 1])) as nat) }
    }
}

fn exec_byte_place(text: &Vec<char>, off: usize) -> (r: (usize, usize))
    requires 4 * text@.len() < usize::MAX,
    ensures r.0 == byte_place(text@, off as int).0, r.1 == byte_place(text@, off as int).1,
{
    let o = if off > text.len() { text.len() } else { off };
    proof { if off > text@.len() { assert(byte_place(text@, off as int) == byte_place(text@, text@.len() as int)); } }
    let mut l: usize = 1;
    let mut c: usize = 0;
    for i in 0..o
        invariant
            o <= text@.len(),
            4 * text@.len() < usize::MAX,
            l == byte_place(text@, i as int).0,
            c == byte_place(text@, i as int).1,
            l <= i + 1,
            c <= 4 * i,
    {
        if text[i] == '\n' {
            l = l + 1;
            c = 0;
        } else {
            let w = exec_utf8_len(text[i]);
            c = c + w;
        }
    }
    (l, c)
}

/// The parity record of a diagnostic: its rule and message, and the line
/// and byte column of its start in `source` when that is the file it is
/// attributed to; `(0, 0)` otherwise.
pub open spec fn projected(d: ReportedDiagnostic, source: Option<SourceText>) -> (nat, nat) {
    match source {
        Some(sf) => if same_file(sf.path@, d.file@) { byte_place(sf.text@, d.span.offset as int) } else { (0, 0) },
        None => (0, 0),
    }
}

/// The parity record of `diag`, located in `source` when it is the file
/// the diagnostic is attributed to.
pub fn project_actual(diag: &ReportedDiagnostic, source: Option<&SourceText>) -> (r: ActualError)
    requires
        source matches Some(sf) ==> 4 * sf.text@.len() < usize::MAX,
    ensures
        r.rule@ == diag.rule_id@,
        r.message@ == diag.message@,
        (r.line as nat, r.column as nat) == projected(*diag, match source { Some(sf) => Some(*sf), None => None }),
{
    let (line, column) = match source {
        Some(sf) => {
            if same_path(sf.path.as_str(), diag.file.as_str()) {
                exec_byte_place(&chars_of(sf.text.as_str()), diag.span.offset)
            } else {
                (0, 0)
            }
        },
        None => (0, 0),
    };
    ActualError { rule: diag.rule_id.clone(), message: diag.message.clone(), line, column }
}

/// The first of `sources` whose path is the file `file`.
pub fn find_source<'s>(sources: &'s [SourceText], file: &str) -> (r: Option<&'s SourceText>)
    ensures
        match r {
            Some(sf) => exists|k: int| 0 <= k < sources@.len() && *sf == #[trigger] sources@[k]
                && same_file(sources@[k].path@, file@)
                && forall|j: int| 0 <= j < k ==> !same_file(#[trigger] sources@[j].path@, file@),
            None => forall|j: int| 0 <= j < sources@.len() ==> !same_file(#[trigger] sources@[j].path@, file@),
        },
{
    for i in 0..sources.len()
        invariant forall|j: int| 0 <= j < i ==> !same_file(#[trigger] sources@[j].path@, file@),
    {
        if same_path(sources[i].path.as_str(), file) {
            return Some(&sources[i]);
        }
    }
    None
}

proof fn lemma_join_head(ls: Seq<Seq<char>>, sep: Seq<char>) -> (tail: Seq<char>)
    requires ls.len() > 0,
    ensures
        join(ls, sep) == ls[0] + tail,
        ls.len() == 1 ==> tail.len() == 0,
        ls.len() > 1 ==> tail.len() >= sep.len() && tail.take(sep.len() as int) == sep,
    decreases ls.len(),
{
    if ls.len() == 1 {
        assert(ls[0] + Seq::<char>::empty() =~= ls[0]);
        Seq::empty()
    } else {
        let t = lemma_join_head(ls.drop_last(), sep);
        assert(ls.drop_last()[0] == ls[0]);
        let tail = t + sep + ls.last();
        assert(join(ls, sep) =~= ls[0] + tail);
        if ls.len() == 2 {
            assert(tail.take(sep.len() as int) =~= sep);
        } else {
            assert(tail.take(sep.len() as int) =~= t.take(sep.len() as int));
        }
        tail
    }
}

/// The summary of a diff is its first rendered line: the rendering starts
/// with the summary and a newline.
pub proof fn law_summary_is_first_line(d: ParityDiff)
    requires d@.len() > 0,
    ensures (join(d@, seq!['\n']) + seq!['\n']).take(d@[0].len() + 1int) == d@[0] + seq!['\n'],
{
    let ls = d@;
    let tail = lemma_join_head(ls, seq!['\n']);
    let whole = join(ls, seq!['\n']) + seq!['\n'];
    assert(whole =~= ls[0] + (tail + seq!['\n']));
    assert((tail + seq!['\n'])[0] == '\n') by {
        if ls.len() == 1 {
        } else {
            assert(tail.take(1)[0] == tail[0]);
        }
    }
    assert(whole.take(ls[0].len() + 1int) =~= ls[0] + seq!['\n']);
}

proof fn lemma_concat_no_line_break(a: Seq<char>, b: Seq<char>)
    requires no_line_break(a), no_line_break(b),
    ensures no_line_break(a + b),
{
    assert forall|i: int| 0 <= i < (a + b).len() implies (a + b)[i] != '\n' by {
        if i < a.len() { assert((a + b)[i] == a[i]); } else { assert((a + b)[i] == b[i - a.len()]); }
    }
}

/// The first line of every diff the comparator builds (a slot mismatch, a
/// count mismatch, findings in a valid case) holds no line break, so with
/// `law_summary_is_first_line` the summary is the whole first line of the
/// render.
pub proof fn law_diff_heads_have_no_line_break(index: nat, e: ExpectedError, a: Option<ActualError>, loose: bool, expected: nat, actual: nat, first: ActualError, count: nat)
    ensures
        no_line_break(slot_lines(index, e, a, loose)[0]),
        no_line_break(count_lines(expected, actual)[0]),
        no_line_break(stray_lines(first, count)[0]),
{
    reveal_strlit("parity slot ");
    reveal_strlit(" mismatch:");
    reveal_strlit("diagnostic count mismatch: expected ");
    reveal_strlit(", got ");
    reveal_strlit("valid case produced unexpected diagnostics:");
    lemma_dec_no_line_break(index);
    lemma_dec_no_line_break(expected);
    lemma_dec_no_line_break(actual);
    lemma_concat_no_line_break("parity slot "@, dec(index));
    lemma_concat_no_line_break("parity slot "@ + dec(index), " mismatch:"@);
    lemma_concat_no_line_break("diagnostic count mismatch: expected "@, dec(expected));
    lemma_concat_no_line_break("diagnostic count mismatch: expected "@ + dec(expected), ", got "@);
    lemma_concat_no_line_break("diagnostic count mismatch: expected "@ + dec(expected) + ", got "@, dec(actual));
    assert(no_line_break("valid case produced unexpected diagnostics:"@));
}

/// A slot with no actual finding has a three-line diff: the heading, the
/// expected record (its message shown as ignored when loose), and
/// `  actual:   <missing>`.
pub proof fn law_missing_slot_diff(index: nat, e: ExpectedError, loose: bool)
    ensures
        slot_lines(index, e, None, loose).len() == 3,
        slot_lines(index, e, None, loose)[0] == "parity slot "@ + dec(index) + " mismatch:"@,
        slot_lines(index, e, None, loose)[1] == record_line("  expected: "@, e.rule@, e.line as nat, e.column as nat,
            if loose { debug_text("<loose_message: ignored>"@) } else { debug_text(e.message@) }),
        slot_lines(index, e, None, loose)[2] == "  actual:   <missing>"@,
{
}

} // verus!
