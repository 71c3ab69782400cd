//! Character-level helpers shared by the rules: conversions between strings
//! and character vectors, ASCII classification, and string building.
use vstd::prelude::*;

verus! {

/// Whether `c` is an ASCII uppercase letter.
pub open spec fn is_upper(c: char) -> bool {
    'A' <= c && c <= 'Z'
}

/// Whether `c` is an ASCII lowercase letter.
pub open spec fn is_lower(c: char) -> bool {
    'a' <= c && c <= 'z'
}

/// Whether `c` is an ASCII digit.
pub open spec fn is_digit(c: char) -> bool {
    '0' <= c && c <= '9'
}

/// Whether `c` is an ASCII letter.
pub open spec fn is_alpha(c: char) -> bool {
    is_upper(c) || is_lower(c)
}

/// Whether `c` is an ASCII letter or digit.
pub open spec fn is_alnum(c: char) -> bool {
    is_alpha(c) || is_digit(c)
}

pub fn exec_is_upper(c: char) -> (b: bool)
    ensures b == is_upper(c),
{
    'A' <= c && c <= 'Z'
}

pub fn exec_is_lower(c: char) -> (b: bool)
    ensures b == is_lower(c),
{
    'a' <= c && c <= 'z'
}

pub fn exec_is_digit(c: char) -> (b: bool)
    ensures b == is_digit(c),
{
    '0' <= c && c <= '9'
}

pub fn exec_is_alpha(c: char) -> (b: bool)
    ensures b == is_alpha(c),
{
    exec_is_upper(c) || exec_is_lower(c)
}

pub fn exec_is_alnum(c: char) -> (b: bool)
    ensures b == is_alnum(c),
{
    exec_is_alpha(c) || exec_is_digit(c)
}

/// The ASCII lowercase of `c`; other characters are unchanged.
pub open spec fn lower_char(c: char) -> char {
    if is_upper(c) { ((c as u32) + 32) as char } else { c }
}

/// The ASCII uppercase of `c`; other characters are unchanged.
pub open spec fn upper_char(c: char) -> char {
    if is_lower(c) { ((c as u32) - 32) as char } else { c }
}

pub fn exec_lower_char(c: char) -> (r: char)
    ensures r == lower_char(c),
{
    if exec_is_upper(c) {
        let x: u8 = (c as u32 + 32) as u8;
        x as char
    } else {
        c
    }
}

pub fn exec_upper_char(c: char) -> (r: char)
    ensures r == upper_char(c),
{
    if exec_is_lower(c) {
        let x: u8 = (c as u32 - 32) as u8;
        x as char
    } else {
        c
    }
}

/// The characters of `s`, in order.
pub fn chars_of(s: &str) -> (v: Vec<char>)
    ensures v@ == s@,
{
    let mut v: Vec<char> = Vec::new();
    for c in it: s.chars()
        invariant
            v@ == it.seq().take(it.index()),
    {
        v.push(c);
    }
    v
}

} // verus!

verus! {

/// Builds a `String` from a sequence of characters (std's
/// `FromIterator<char> for String`, which appends the characters in order).
#[verifier::external_body]
pub(crate) fn string_of(v: &Vec<char>) -> (s: String)
    ensures s@ == v@,
{
    v.iter().collect::<String>()
}

/// Appends all of `w` to `v`.
pub fn push_all(v: &mut Vec<char>, w: &Vec<char>)
    ensures final(v)@ == old(v)@ + w@,
{
    let ghost v0 = v@;
    for i in 0..w.len()
        invariant
            v@ == v0 + w@.take(i as int),
    {
        v.push(w[i]);
        proof { assert(w@.take(i + 1) == w@.take(i as int).push(w@[i as int])); }
    }
    proof { assert(w@.take(w@.len() as int) == w@); }
}

/// Appends the characters of `s` to `v`.
pub fn push_str(v: &mut Vec<char>, s: &str)
    ensures final(v)@ == old(v)@ + s@,
{
    let w = chars_of(s);
    push_all(v, &w);
}

/// Whether two character vectors hold the same characters.
pub fn chars_eq(a: &Vec<char>, b: &Vec<char>) -> (r: bool)
    ensures r == (a@ == b@),
{
    if a.len() != b.len() {
        return false;
    }
    for i in 0..a.len()
        invariant
            a.len() == b.len(),
            forall|j: int| 0 <= j < i ==> a@[j] == b@[j],
    {
        if a[i] != b[i] {
            return false;
        }
    }
    proof { assert(a@ =~= b@); }
    true
}

/// The ASCII lowercase of every character of `s`.
pub open spec fn lower_seq(s: Seq<char>) -> Seq<char> {
    s.map_values(|c: char| lower_char(c))
}

/// The ASCII uppercase of every character of `s`.
pub open spec fn upper_seq(s: Seq<char>) -> Seq<char> {
    s.map_values(|c: char| upper_char(c))
}

pub fn exec_lower_seq(s: &Vec<char>) -> (r: Vec<char>)
    ensures r@ == lower_seq(s@),
{
    let mut r: Vec<char> = Vec::new();
    for i in 0..s.len()
        invariant
            r@ == lower_seq(s@.take(i as int)),
    {
        r.push(exec_lower_char(s[i]));
        proof { assert(lower_seq(s@.take(i + 1)) == lower_seq(s@.take(i as int)).push(lower_char(s@[i as int]))); }
    }
    proof { assert(s@.take(s@.len() as int) == s@); }
    r
}

pub fn exec_upper_seq(s: &Vec<char>) -> (r: Vec<char>)
    ensures r@ == upper_seq(s@),
{
    let mut r: Vec<char> = Vec::new();
    for i in 0..s.len()
        invariant
            r@ == upper_seq(s@.take(i as int)),
    {
        r.push(exec_upper_char(s[i]));
        proof { assert(upper_seq(s@.take(i + 1)) == upper_seq(s@.take(i as int)).push(upper_char(s@[i as int]))); }
    }
    proof { assert(s@.take(s@.len() as int) == s@); }
    r
}

} // verus!

verus! {

/// The decimal digits of `n`.
pub open spec fn dec(n: nat) -> Seq<char>
    decreases n,
{
    if n < 10 {
        seq![digit_char(n)]
    } else {
        dec(n / 10).push(digit_char(n % 10))
    }
}

/// No character of `s` is a line feed.
pub open spec fn no_line_break(s: Seq<char>) -> bool {
    forall|i: int| 0 <= i < s.len() ==> s[i] != '\n'
}

/// The decimal digits of a number hold no line feed.
pub proof fn lemma_dec_no_line_break(n: nat)
    ensures no_line_break(dec(n)),
    decreases n,
{
    if n >= 10 {
        lemma_dec_no_line_break(n / 10);
        let d = dec(n / 10);
        assert forall|i: int| 0 <= i < dec(n).len() implies dec(n)[i] != '\n' by {
            if i < d.len() {
                assert(dec(n)[i] == d[i]);
            }
        }
    }
}

/// The digit character for `d < 10`.
pub open spec fn digit_char(d: nat) -> char {
    (('0' as u32) + d) as char
}

/// Appends the decimal digits of `n` to `v`.
pub fn push_dec(v: &mut Vec<char>, n: usize)
    ensures final(v)@ == old(v)@ + dec(n as nat),
    decreases n,
{
    if n < 10 {
        let d: u8 = (48 + n) as u8;
        v.push(d as char);
    } else {
        push_dec(v, n / 10);
        let d: u8 = (48 + n % 10) as u8;
        v.push(d as char);
    }
}

/// Debug formatting of a string (std's `Debug for str`): the text in double
/// quotes with escapes. The exact escapes are std's and are not stated here.
pub uninterp spec fn debug_text(s: Seq<char>) -> Seq<char>;

/// Printable ASCII other than a double quote and a backslash, which
/// `Debug` writes as it is.
pub open spec fn plain_ascii(s: Seq<char>) -> bool {
    forall|i: int| 0 <= i < s.len() ==> ' ' <= #[trigger] s[i] <= '~' && s[i] != '"' && s[i] != '\\'
}

/// std's `Debug` formatting of `s` (`format!("{:?}")`): the text in double
/// quotes, each character escaped by `char::escape_debug`, which leaves
/// printable ASCII other than `"` and `\` as it is.
#[verifier::external_body]
pub(crate) fn debug_str(s: &str) -> (r: String)
    ensures
        r@ == debug_text(s@),
        plain_ascii(s@) ==> r@ == seq!['"'] + s@ + seq!['"'],
        forall|i: int| 0 <= i < r@.len() ==> r@[i] != '\n',
{
    format!("{:?}", s)
}

/// `s` starts with `p`.
pub open spec fn starts_with(s: Seq<char>, p: Seq<char>) -> bool {
    p.len() <= s.len() && s.take(p.len() as int) == p
}

/// `s` ends with `p`.
pub open spec fn ends_with(s: Seq<char>, p: Seq<char>) -> bool {
    p.len() <= s.len() && s.skip(s.len() - p.len()) == p
}

pub fn exec_starts_with(s: &Vec<char>, p: &Vec<char>) -> (r: bool)
    ensures r == starts_with(s@, p@),
{
    if p.len() > s.len() {
        return false;
    }
    for i in 0..p.len()
        invariant
            p.len() <= s.len(),
            forall|j: int| 0 <= j < i ==> s@[j] == p@[j],
    {
        if s[i] != p[i] {
            return false;
        }
    }
    proof { assert(s@.take(p@.len() as int) =~= p@); }
    true
}

pub fn exec_ends_with(s: &Vec<char>, p: &Vec<char>) -> (r: bool)
    ensures r == ends_with(s@, p@),
{
    if p.len() > s.len() {
        return false;
    }
    let off = s.len() - p.len();
    for i in 0..p.len()
        invariant
            p.len() <= s.len(),
            off == s.len() - p.len(),
            forall|j: int| 0 <= j < i ==> s@[off + j] == p@[j],
    {
        if s[off + i] != p[i] {
            return false;
        }
    }
    proof { assert(s@.skip(off as int) =~= p@); }
    true
}

/// The characters `s[from..to]`.
pub fn sub_chars(s: &Vec<char>, from: usize, to: usize) -> (r: Vec<char>)
    requires from <= to <= s@.len(),
    ensures r@ == s@.subrange(from as int, to as int),
{
    let mut r: Vec<char> = Vec::new();
    let mut i = from;
    while i < to
        invariant
            from <= i <= to <= s@.len(),
            r@ == s@.subrange(from as int, i as int),
        decreases to - i,
    {
        r.push(s[i]);
        proof { assert(s@.subrange(from as int, i + 1) == s@.subrange(from as int, i as int).push(s@[i as int])); }
        i += 1;
    }
    r
}


/// A copy of an optional string.
pub fn clone_opt(o: &Option<String>) -> (r: Option<String>)
    ensures r == *o,
{
    match o {
        Some(s) => Some(s.clone()),
        None => None,
    }
}


/// Whether `c` is white space (the Unicode `White_Space` property, as std's
/// `char::is_whitespace`).
pub open spec fn is_ws(c: char) -> bool {
    ||| ('\u{9}' <= c && c <= '\u{d}')
    ||| c == ' '
    ||| c == '\u{85}'
    ||| c == '\u{a0}'
    ||| c == '\u{1680}'
    ||| ('\u{2000}' <= c && c <= '\u{200a}')
    ||| c == '\u{2028}'
    ||| c == '\u{2029}'
    ||| c == '\u{202f}'
    ||| c == '\u{205f}'
    ||| c == '\u{3000}'
}

pub fn exec_is_ws(c: char) -> (r: bool)
    ensures r == is_ws(c),
{
    ('\u{9}' <= c && c <= '\u{d}') || c == ' ' || c == '\u{85}' || c == '\u{a0}' || c == '\u{1680}'
        || ('\u{2000}' <= c && c <= '\u{200a}') || c == '\u{2028}' || c == '\u{2029}' || c == '\u{202f}'
        || c == '\u{205f}' || c == '\u{3000}'
}

/// Every character of `s` is white space (`s.trim()` is empty).
pub open spec fn all_ws(s: Seq<char>) -> bool {
    forall|i: int| 0 <= i < s.len() ==> is_ws(#[trigger] s[i])
}

pub fn exec_all_ws(s: &Vec<char>, from: usize, to: usize) -> (r: bool)
    requires from <= to <= s@.len(),
    ensures r == all_ws(s@.subrange(from as int, to as int)),
{
    let mut i = from;
    while i < to
        invariant
            from <= i <= to <= s@.len(),
            forall|j: int| from <= j < i ==> is_ws(#[trigger] s@[j]),
        decreases to - i,
    {
        if !exec_is_ws(s[i]) {
            proof { assert(s@.subrange(from as int, to as int)[i - from] == s@[i as int]); }
            return false;
        }
        i += 1;
    }
    proof {
        assert forall|k: int| 0 <= k < to - from implies is_ws(#[trigger] s@.subrange(from as int, to as int)[k]) by {
            assert(s@.subrange(from as int, to as int)[k] == s@[from + k]);
        }
    }
    true
}

/// The number of leading white-space characters of `s`.
pub open spec fn ws_prefix_len(s: Seq<char>) -> nat
    decreases s.len(),
{
    if s.len() > 0 && is_ws(s[0]) {
        1 + ws_prefix_len(s.skip(1))
    } else {
        0
    }
}

/// `s` without its leading white space (`trim_start`).
pub open spec fn trim_start(s: Seq<char>) -> Seq<char> {
    s.skip(ws_prefix_len(s) as int)
}

/// The number of trailing white-space characters of `s`.
pub open spec fn ws_suffix_len(s: Seq<char>) -> nat
    decreases s.len(),
{
    if s.len() > 0 && is_ws(s.last()) {
        1 + ws_suffix_len(s.drop_last())
    } else {
        0
    }
}

/// `s` without its trailing white space (`trim_end`).
pub open spec fn trim_end(s: Seq<char>) -> Seq<char> {
    s.take(s.len() - ws_suffix_len(s))
}

/// `s` without leading and trailing white space (`trim`).
pub open spec fn trim(s: Seq<char>) -> Seq<char> {
    trim_end(trim_start(s))
}

proof fn lemma_ws_prefix_bound(s: Seq<char>)
    ensures ws_prefix_len(s) <= s.len(),
    decreases s.len(),
{
    if s.len() > 0 && is_ws(s[0]) {
        lemma_ws_prefix_bound(s.skip(1));
    }
}

proof fn lemma_ws_suffix_bound(s: Seq<char>)
    ensures ws_suffix_len(s) <= s.len(),
    decreases s.len(),
{
    if s.len() > 0 && is_ws(s.last()) {
        lemma_ws_suffix_bound(s.drop_last());
    }
}

/// The index in `s` of the first character at or after `from` that is not
/// white space (the length of `s` if none is).
pub fn skip_ws(s: &Vec<char>, from: usize, to: usize) -> (r: usize)
    requires from <= to <= s@.len(),
    ensures
        from <= r <= to,
        r - from == ws_prefix_len(s@.subrange(from as int, to as int)),
{
    let mut i = from;
    while i < to && exec_is_ws(s[i])
        invariant
            from <= i <= to <= s@.len(),
            ws_prefix_len(s@.subrange(from as int, to as int)) == (i - from) + ws_prefix_len(s@.subrange(i as int, to as int)),
        decreases to - i,
    {
        proof {
            assert(s@.subrange(i as int, to as int).skip(1) == s@.subrange(i + 1, to as int));
        }
        i += 1;
    }
    i
}

/// The index one past the last character before `to` (and at or after
/// `from`) that is not white space.
pub fn skip_ws_back(s: &Vec<char>, from: usize, to: usize) -> (r: usize)
    requires from <= to <= s@.len(),
    ensures
        from <= r <= to,
        to - r == ws_suffix_len(s@.subrange(from as int, to as int)),
{
    let mut i = to;
    while i > from && exec_is_ws(s[i - 1])
        invariant
            from <= i <= to <= s@.len(),
            ws_suffix_len(s@.subrange(from as int, to as int)) == (to - i) + ws_suffix_len(s@.subrange(from as int, i as int)),
        decreases i - from,
    {
        proof {
            assert(s@.subrange(from as int, i as int).drop_last() == s@.subrange(from as int, i - 1));
        }
        i -= 1;
    }
    i
}

/// The first index at or after `from` and before `to` where `s` holds `c`.
pub open spec fn find_from(s: Seq<char>, c: char, from: int, to: int) -> Option<int>
    decreases to - from,
{
    if from >= to {
        None
    } else if s[from] == c {
        Some(from)
    } else {
        find_from(s, c, from + 1, to)
    }
}

pub fn exec_find_from(s: &Vec<char>, c: char, from: usize, to: usize) -> (r: Option<usize>)
    requires from <= to <= s@.len(),
    ensures
        match r {
            Some(k) => find_from(s@, c, from as int, to as int) == Some(k as int) && from <= k < to && s@[k as int] == c,
            None => find_from(s@, c, from as int, to as int) is None,
        },
{
    let mut i = from;
    while i < to
        invariant
            from <= i <= to <= s@.len(),
            find_from(s@, c, from as int, to as int) == find_from(s@, c, i as int, to as int),
        decreases to - i,
    {
        if s[i] == c {
            return Some(i);
        }
        i += 1;
    }
    None
}

/// The last index before `to` and at or after `from` where `s` holds `c`.
pub open spec fn rfind_before(s: Seq<char>, c: char, from: int, to: int) -> Option<int>
    decreases to - from,
{
    if to <= from {
        None
    } else if s[to - 1] == c {
        Some(to - 1)
    } else {
        rfind_before(s, c, from, to - 1)
    }
}

pub fn exec_rfind_before(s: &Vec<char>, c: char, from: usize, to: usize) -> (r: Option<usize>)
    requires from <= to <= s@.len(),
    ensures
        match r {
            Some(k) => rfind_before(s@, c, from as int, to as int) == Some(k as int) && from <= k < to && s@[k as int] == c,
            None => rfind_before(s@, c, from as int, to as int) is None,
        },
{
    let mut i = to;
    while i > from
        invariant
            from <= i <= to <= s@.len(),
            rfind_before(s@, c, from as int, to as int) == rfind_before(s@, c, from as int, i as int),
        decreases i - from,
    {
        if s[i - 1] == c {
            return Some(i - 1);
        }
        i -= 1;
    }
    None
}


/// `v` without its first `n` characters.
pub fn skip_chars(v: &Vec<char>, n: usize) -> (r: Vec<char>)
    requires n <= v@.len(),
    ensures r@ == v@.skip(n as int),
{
    let r = sub_chars(v, n, v.len());
    proof { assert(v@.subrange(n as int, v@.len() as int) =~= v@.skip(n as int)); }
    r
}

/// `v` without its leading white space.
pub fn trim_start_chars(v: &Vec<char>) -> (r: Vec<char>)
    ensures r@ == trim_start(v@),
{
    let k = skip_ws(v, 0, v.len());
    proof {
        assert(v@.subrange(0, v@.len() as int) =~= v@);
    }
    skip_chars(v, k)
}

/// `v` without leading and trailing white space.
pub fn trim_chars(v: &Vec<char>) -> (r: Vec<char>)
    ensures r@ == trim(v@),
{
    let a = trim_start_chars(v);
    let b = skip_ws_back(&a, 0, a.len());
    proof {
        assert(a@.subrange(0, a@.len() as int) =~= a@);
        lemma_ws_suffix_bound(a@);
    }
    let r = sub_chars(&a, 0, b);
    proof { assert(r@ =~= trim_end(a@)); }
    r
}

/// Whether `s` starts with a character that is not white space.
pub open spec fn starts_non_ws(s: Seq<char>) -> bool {
    s.len() > 0 && !is_ws(s[0])
}


/// The first index at or after `from` where `p` occurs in `s`.
pub open spec fn find_seq_from(s: Seq<char>, p: Seq<char>, from: int) -> Option<int>
    decreases s.len() + 1 - from,
{
    if from < 0 || from + p.len() > s.len() {
        None
    } else if s.subrange(from, from + p.len()) == p {
        Some(from)
    } else {
        find_seq_from(s, p, from + 1)
    }
}

pub fn exec_find_seq_from(s: &Vec<char>, p: &Vec<char>, from: usize) -> (r: Option<usize>)
    ensures
        match r {
            Some(k) => find_seq_from(s@, p@, from as int) == Some(k as int) && from <= k && k + p@.len() <= s@.len(),
            None => find_seq_from(s@, p@, from as int) is None,
        },
{
    if from > s.len() {
        return None;
    }
    let mut i = from;
    let slen = s.len();
    while i <= slen && p.len() <= slen - i
        invariant
            slen == s@.len(),
            from <= i,
            i <= s@.len() + 1,
            find_seq_from(s@, p@, from as int) == find_seq_from(s@, p@, i as int),
        decreases s.len() + 1 - i,
    {
        let mut same = true;
        let mut k: usize = 0;
        while k < p.len()
            invariant
                slen == s@.len(),
                i <= s@.len(),
                i + p@.len() <= s@.len(),
                k <= p@.len(),
                same == (forall|j: int| 0 <= j < k ==> s@[i + j] == p@[j]),
            decreases p.len() - k,
        {
            if s[i + k] != p[k] {
                same = false;
            }
            k += 1;
        }
        if same {
            proof { assert(s@.subrange(i as int, i + p@.len()) =~= p@); }
            return Some(i);
        } else {
            proof {
                let j = choose|j: int| 0 <= j < p@.len() && s@[i + j] != p@[j];
                assert(s@.subrange(i as int, i + p@.len())[j] != p@[j]);
            }
        }
        i += 1;
    }
    None
}


/// `a` comes strictly before `b` in the order of their characters' code
/// points (the order of `str`'s comparison).
pub open spec fn lex_less(a: Seq<char>, b: Seq<char>) -> bool
    decreases a.len(),
{
    if b.len() == 0 {
        false
    } else if a.len() == 0 {
        true
    } else if a[0] != b[0] {
        (a[0] as u32) < (b[0] as u32)
    } else {
        lex_less(a.drop_first(), b.drop_first())
    }
}

proof fn lemma_lex_less_suffix(a: Seq<char>, b: Seq<char>, i: int)
    requires
        0 <= i <= a.len(),
        i <= b.len(),
        a.take(i) == b.take(i),
    ensures
        lex_less(a, b) == lex_less(a.skip(i), b.skip(i)),
    decreases i,
{
    if i > 0 {
        assert(a[0] == a.take(i)[0]);
        assert(b[0] == b.take(i)[0]);
        assert(a.drop_first().take(i - 1) =~= a.take(i).drop_first());
        assert(b.drop_first().take(i - 1) =~= b.take(i).drop_first());
        lemma_lex_less_suffix(a.drop_first(), b.drop_first(), i - 1);
        assert(a.drop_first().skip(i - 1) =~= a.skip(i));
        assert(b.drop_first().skip(i - 1) =~= b.skip(i));
    } else {
        assert(a.skip(0) =~= a);
        assert(b.skip(0) =~= b);
    }
}

/// Whether `a` comes strictly before `b` by code points.
pub fn exec_lex_less(a: &Vec<char>, b: &Vec<char>) -> (r: bool)
    ensures r == lex_less(a@, b@),
{
    let mut i: usize = 0;
    while i < a.len() && i < b.len()
        invariant
            i <= a@.len(),
            i <= b@.len(),
            a@.take(i as int) == b@.take(i as int),
        decreases a.len() - i,
    {
        if a[i] != b[i] {
            proof {
                lemma_lex_less_suffix(a@, b@, i as int);
                assert(a@.skip(i as int)[0] == a@[i as int]);
                assert(b@.skip(i as int)[0] == b@[i as int]);
            }
            return (a[i] as u32) < (b[i] as u32);
        }
        proof {
            assert(a@.take(i + 1) == a@.take(i as int).push(a@[i as int]));
            assert(b@.take(i + 1) == b@.take(i as int).push(b@[i as int]));
        }
        i += 1;
    }
    proof { lemma_lex_less_suffix(a@, b@, i as int); }
    i < b.len()
}

/// The first position of `s` in `v`.
pub open spec fn first_index(v: Seq<Seq<char>>, s: Seq<char>) -> Option<int>
    decreases v.len(),
{
    if v.len() == 0 {
        None
    } else {
        match first_index(v.drop_last(), s) {
            Some(k) => Some(k),
            None => if v.last() == s { Some(v.len() - 1) } else { None },
        }
    }
}

proof fn lemma_first_index(v: Seq<Seq<char>>, s: Seq<char>)
    ensures
        match first_index(v, s) {
            Some(k) => 0 <= k < v.len() && v[k] == s && forall|j: int| 0 <= j < k ==> v[j] != s,
            None => !v.contains(s),
        },
    decreases v.len(),
{
    if v.len() > 0 {
        let d = v.drop_last();
        lemma_first_index(d, s);
        assert forall|j: int| 0 <= j < v.len() - 1 implies #[trigger] v[j] == d[j] by {}
        match first_index(d, s) {
            Some(k) => {
                assert(v[k] == d[k]);
            },
            None => {
                if v.last() != s {
                    assert forall|j: int| 0 <= j < v.len() implies v[j] != s by {
                        if j < v.len() - 1 {
                            assert(v[j] == d[j]);
                            assert(!d.contains(s));
                        }
                    }
                } else {
                    assert forall|j: int| 0 <= j < v.len() - 1 implies v[j] != s by {
                        assert(v[j] == d[j]);
                        assert(!d.contains(s));
                    }
                }
            },
        }
    }
}

/// The first position of `s` among the strings `v`.
pub fn position_of(v: &Vec<String>, s: &str) -> (r: Option<usize>)
    ensures
        match r {
            Some(k) => first_index(crate::case::views(v@), s@) == Some(k as int) && k < v@.len(),
            None => first_index(crate::case::views(v@), s@) is None,
        },
        r is None <==> !crate::case::views(v@).contains(s@),
{
    let ghost vv = crate::case::views(v@);
    let sc = chars_of(s);
    proof { lemma_first_index(vv, s@); }
    for i in 0..v.len()
        invariant
            vv == crate::case::views(v@),
            sc@ == s@,
            forall|j: int| 0 <= j < i ==> vv[j] != s@,
    {
        if chars_eq(&chars_of(v[i].as_str()), &sc) {
            proof {
                assert(vv[i as int] == s@);
                lemma_first_index(vv, s@);
                if first_index(vv, s@) != Some(i as int) {
                    let k = first_index(vv, s@).unwrap();
                    assert(k < i || k > i);
                }
            }
            return Some(i);
        }
    }
    proof {
        lemma_first_index(vv, s@);
        if vv.contains(s@) {
            let j = choose|j: int| 0 <= j < vv.len() && vv[j] == s@;
            assert(vv[j] != s@);
        }
    }
    None
}

/// Whether `s` is among the strings `v`.
pub fn has_text(v: &Vec<String>, s: &str) -> (r: bool)
    ensures r == crate::case::views(v@).contains(s@),
{
    position_of(v, s).is_some()
}


/// The number of leading `c` characters of `s`.
pub open spec fn run_prefix_len(s: Seq<char>, c: char) -> nat
    decreases s.len(),
{
    if s.len() > 0 && s[0] == c {
        1 + run_prefix_len(s.skip(1), c)
    } else {
        0
    }
}

/// The number of trailing `c` characters of `s`.
pub open spec fn run_suffix_len(s: Seq<char>, c: char) -> nat
    decreases s.len(),
{
    if s.len() > 0 && s.last() == c {
        1 + run_suffix_len(s.drop_last(), c)
    } else {
        0
    }
}

/// `s` without its leading `c` characters (`trim_start_matches`).
pub open spec fn strip_leading(s: Seq<char>, c: char) -> Seq<char> {
    s.skip(run_prefix_len(s, c) as int)
}

/// `s` without its trailing `c` characters (`trim_end_matches`).
pub open spec fn strip_trailing(s: Seq<char>, c: char) -> Seq<char> {
    s.take(s.len() - run_suffix_len(s, c))
}

/// `s` without leading and trailing `c` characters (`trim_matches`).
pub open spec fn strip_both(s: Seq<char>, c: char) -> Seq<char> {
    strip_trailing(strip_leading(s, c), c)
}

proof fn lemma_run_prefix_bound(s: Seq<char>, c: char)
    ensures run_prefix_len(s, c) <= s.len(),
    decreases s.len(),
{
    if s.len() > 0 && s[0] == c {
        lemma_run_prefix_bound(s.skip(1), c);
    }
}

proof fn lemma_run_suffix_bound(s: Seq<char>, c: char)
    ensures run_suffix_len(s, c) <= s.len(),
    decreases s.len(),
{
    if s.len() > 0 && s.last() == c {
        lemma_run_suffix_bound(s.drop_last(), c);
    }
}

/// `v` without its leading `c` characters.
pub fn exec_strip_leading(v: &Vec<char>, c: char) -> (r: Vec<char>)
    ensures r@ == strip_leading(v@, c),
{
    let mut i: usize = 0;
    proof { assert(v@.skip(0) =~= v@); }
    while i < v.len() && v[i] == c
        invariant
            i <= v@.len(),
            run_prefix_len(v@, c) == i + run_prefix_len(v@.skip(i as int), c),
        decreases v.len() - i,
    {
        proof { assert(v@.skip(i as int).skip(1) == v@.skip(i + 1)); }
        i += 1;
    }
    skip_chars(v, i)
}

/// `v` without its trailing `c` characters.
pub fn exec_strip_trailing(v: &Vec<char>, c: char) -> (r: Vec<char>)
    ensures r@ == strip_trailing(v@, c),
{
    let mut i: usize = v.len();
    proof { assert(v@.take(v@.len() as int) =~= v@); }
    while i > 0 && v[i - 1] == c
        invariant
            i <= v@.len(),
            run_suffix_len(v@, c) == (v@.len() - i) + run_suffix_len(v@.take(i as int), c),
        decreases i,
    {
        proof { assert(v@.take(i as int).drop_last() == v@.take(i - 1)); }
        i -= 1;
    }
    let r = sub_chars(v, 0, i);
    proof { assert(r@ =~= v@.take(i as int)); }
    r
}

/// `v` without leading and trailing `c` characters.
pub fn exec_strip_both(v: &Vec<char>, c: char) -> (r: Vec<char>)
    ensures r@ == strip_both(v@, c),
{
    let a = exec_strip_leading(v, c);
    exec_strip_trailing(&a, c)
}

} // verus!
