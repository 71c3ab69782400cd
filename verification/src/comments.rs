//! Line comments of a GraphQL source.
use vstd::prelude::*;
use crate::model::Span;
use crate::text::{all_ws, chars_of, exec_all_ws, exec_find_from, exec_rfind_before, find_from, rfind_before, skip_ws, skip_ws_back, starts_with, exec_starts_with, string_of, sub_chars, trim};

verus! {

/// A line comment: its span (from the `#` to the end of the line) and its
/// text.
#[derive(Debug, Clone)]
pub struct Comment {
    pub span: Span,
    pub text: String,
}

/// A comment as plain values.
pub open spec fn comment_view(c: Comment) -> (Span, Seq<char>) {
    (c.span, c.text@)
}

/// A list of comments as plain values.
pub open spec fn comment_views(cs: Seq<Comment>) -> Seq<(Span, Seq<char>)> {
    cs.map_values(|c: Comment| comment_view(c))
}

/// Where the line starting at `start` ends: its newline, or the end of the
/// text.
pub open spec fn line_end(src: Seq<char>, start: int) -> int {
    match find_from(src, '\n', start, src.len() as int) {
        Some(k) => k,
        None => src.len() as int,
    }
}

/// The comment on the line `src[start..end]`: present when the first `#` of
/// the line has only white space before it.
pub open spec fn comment_in(src: Seq<char>, start: int, end: int) -> Option<(Span, Seq<char>)> {
    match find_from(src, '#', start, end) {
        Some(h) => if all_ws(src.subrange(start, h)) {
            Some((Span { offset: h as usize, len: (end - h) as usize }, src.subrange(h, end)))
        } else {
            None
        },
        None => None,
    }
}

/// The comments of the lines starting at or after line start `start`, in
/// order.
pub open spec fn comments_from(src: Seq<char>, start: int) -> Seq<(Span, Seq<char>)>
    decreases src.len() - start,
{
    if start >= src.len() || start < 0 {
        Seq::empty()
    } else {
        let e = line_end(src, start);
        if e < start {
            Seq::empty()
        } else {
            let rest = if e < src.len() { comments_from(src, e + 1) } else { Seq::empty() };
            match comment_in(src, start, e) {
                Some(c) => seq![c] + rest,
                None => rest,
            }
        }
    }
}

proof fn lemma_find_from_range(s: Seq<char>, c: char, from: int, to: int)
    ensures find_from(s, c, from, to) matches Some(k) ==> from <= k < to && s[k] == c,
    decreases to - from,
{
    if from < to && s[from] != c {
        lemma_find_from_range(s, c, from + 1, to);
    }
}

proof fn lemma_rfind_range(s: Seq<char>, c: char, from: int, to: int)
    ensures rfind_before(s, c, from, to) matches Some(k) ==> from <= k < to && s[k] == c,
    decreases to - from,
{
    if from < to && s[to - 1] != c {
        lemma_rfind_range(s, c, from, to - 1);
    }
}

/// Every line comment of `source`: the lines whose first `#` has only white
/// space before it.
pub fn all_comments(source: &str) -> (r: Vec<Comment>)
    requires source@.len() < usize::MAX,
    ensures comment_views(r@) == comments_from(source@, 0),
{
    let src = chars_of(source);
    let ghost s = src@;
    let mut out: Vec<Comment> = Vec::new();
    let mut start: usize = 0;
    while start < src.len()
        invariant
            s == src@,
            s == source@,
            src@.len() < usize::MAX,
            start <= src@.len() + 1,
            comments_from(s, 0) == comment_views(out@) + comments_from(s, start as int),
        decreases src.len() + 1 - start,
    {
        let ghost out0 = out@;
        let e = match exec_find_from(&src, '\n', start, src.len()) {
            Some(k) => k,
            None => src.len(),
        };
        proof { lemma_find_from_range(s, '#', start as int, e as int); }
        match exec_find_from(&src, '#', start, e) {
            Some(h) => {
                if exec_all_ws(&src, start, h) {
                    let text = sub_chars(&src, h, e);
                    let c = Comment { span: Span::new(h, e - h), text: string_of(&text) };
                    out.push(c);
                    proof {
                        assert(comment_views(out@) =~= comment_views(out0).push(comment_view(c)));
                    }
                }
            },
            None => {},
        }
        proof {
            assert(comment_views(out@) + comments_from(s, e + 1) =~= comment_views(out0) + comments_from(s, start as int));
        }
        start = e + 1;
    }
    proof { assert(comments_from(s, start as int) == Seq::<(Span, Seq<char>)>::empty()); }
    proof { assert(comment_views(out@) + Seq::<(Span, Seq<char>)>::empty() =~= comment_views(out@)); }
    out
}

/// The start of the line holding position `pos`.
pub open spec fn line_start_of(src: Seq<char>, pos: int) -> int {
    match rfind_before(src, '\n', 0, pos) {
        Some(i) => i + 1,
        None => 0,
    }
}

/// The comments directly above the line that starts at `cursor`, in order:
/// the run of comment lines up to the first blank or non-comment line, with
/// `# import` and `# eslint` lines skipped but not ending the run.
pub open spec fn preceding_from(src: Seq<char>, cursor: int) -> Seq<(Span, Seq<char>)>
    decreases cursor,
{
    if cursor <= 0 || cursor > src.len() {
        Seq::empty()
    } else {
        let end = cursor - 1;
        let pls = line_start_of(src, end);
        let line = src.subrange(pls, end);
        if all_ws(line) || pls < 0 || pls > end {
            Seq::empty()
        } else {
            match find_from(src, '#', pls, end) {
                Some(h) => if all_ws(src.subrange(pls, h)) {
                    let after = trim(src.subrange(h + 1, end));
                    let rest = preceding_from(src, pls);
                    if !starts_with(after, "import"@) && !starts_with(after, "eslint"@) {
                        rest.push((Span { offset: h as usize, len: (end - h) as usize }, src.subrange(h, end)))
                    } else {
                        rest
                    }
                } else {
                    Seq::empty()
                },
                None => Seq::empty(),
            }
        }
    }
}

fn preceding_rec(src: &Vec<char>, cursor: usize) -> (r: Vec<Comment>)
    requires cursor <= src@.len(),
    ensures comment_views(r@) == preceding_from(src@, cursor as int),
    decreases cursor,
{
    if cursor == 0 {
        return Vec::new();
    }
    let end = cursor - 1;
    let pls = match exec_rfind_before(src, '\n', 0, end) {
        Some(i) => i + 1,
        None => 0,
    };
    proof { lemma_rfind_range(src@, '\n', 0, end as int); }
    if exec_all_ws(src, pls, end) {
        return Vec::new();
    }
    proof { lemma_find_from_range(src@, '#', pls as int, end as int); }
    match exec_find_from(src, '#', pls, end) {
        Some(h) => {
            if exec_all_ws(src, pls, h) {
                let a = skip_ws(src, h + 1, end);
                let b = skip_ws_back(src, a, end);
                let after = sub_chars(src, a, b);
                proof {
                    assert(src@.subrange(h + 1, end as int).skip(a - (h + 1)) =~= src@.subrange(a as int, end as int));
                    assert(src@.subrange(a as int, end as int).take(b - a) =~= src@.subrange(a as int, b as int));
                    assert(after@ =~= trim(src@.subrange(h + 1, end as int)));
                }
                let mut rest = preceding_rec(src, pls);
                let keep = !exec_starts_with(&after, &chars_of("import")) && !exec_starts_with(&after, &chars_of("eslint"));
                if keep {
                    let text = sub_chars(src, h, end);
                    let c = Comment { span: Span::new(h, end - h), text: string_of(&text) };
                    let ghost before = rest@;
                    rest.push(c);
                    proof { assert(comment_views(rest@) =~= comment_views(before).push(comment_view(c))); }
                }
                rest
            } else {
                Vec::new()
            }
        },
        None => Vec::new(),
    }
}

/// The comments directly above the line holding `node_span`'s start.
pub fn preceding_comments(source: &str, node_span: Span) -> (r: Vec<Comment>)
    requires node_span.offset <= source@.len(),
    ensures comment_views(r@) == preceding_from(source@, line_start_of(source@, node_span.offset as int)),
{
    let src = chars_of(source);
    let start = match exec_rfind_before(&src, '\n', 0, node_span.offset) {
        Some(i) => i + 1,
        None => 0,
    };
    proof { lemma_rfind_range(src@, '\n', 0, node_span.offset as int); }
    preceding_rec(&src, start)
}

} // verus!
