//! Word splitting, case-style detection and case conversion for GraphQL
//! names.
use vstd::prelude::*;
use crate::text::{is_upper, is_lower, is_digit, is_alpha, is_alnum, exec_is_upper, exec_is_lower, exec_is_digit, exec_is_alpha, exec_is_alnum, chars_of, string_of, lower_seq, upper_seq, exec_lower_seq, exec_upper_seq, lower_char, upper_char, exec_upper_char, push_all, chars_eq};

verus! {

/// The naming styles the rules understand.
#[derive(Debug, Clone, Copy, PartialEq, Eq, Structural)]
pub enum CaseStyle {
    Camel,
    Pascal,
    StrictPascal,
    Snake,
    ScreamingSnake,
    Kebab,
    ScreamingKebab,
}

impl CaseStyle {
    /// Every style, in declaration order.
    pub fn all() -> (r: Vec<CaseStyle>)
        ensures
            r@ == seq![CaseStyle::Camel, CaseStyle::Pascal, CaseStyle::StrictPascal,
                CaseStyle::Snake, CaseStyle::ScreamingSnake, CaseStyle::Kebab,
                CaseStyle::ScreamingKebab],
    {
        vec![
            CaseStyle::Camel,
            CaseStyle::Pascal,
            CaseStyle::StrictPascal,
            CaseStyle::Snake,
            CaseStyle::ScreamingSnake,
            CaseStyle::Kebab,
            CaseStyle::ScreamingKebab,
        ]
    }

    /// How the style is written in messages and options.
    pub open spec fn spec_label(self) -> Seq<char> {
        match self {
            CaseStyle::Camel => "camelCase"@,
            CaseStyle::Pascal => "PascalCase"@,
            CaseStyle::StrictPascal => "StrictPascalCase"@,
            CaseStyle::Snake => "snake_case"@,
            CaseStyle::ScreamingSnake => "SCREAMING_SNAKE_CASE"@,
            CaseStyle::Kebab => "kebab-case"@,
            CaseStyle::ScreamingKebab => "SCREAMING-KEBAB-CASE"@,
        }
    }

    /// How the style is written: `camelCase`, `PascalCase`,
    /// `StrictPascalCase`, `snake_case`, `SCREAMING_SNAKE_CASE`,
    /// `kebab-case` or `SCREAMING-KEBAB-CASE`.
    pub fn label(&self) -> (r: String)
        ensures r@ == self.spec_label(),
    {
        let s = match self {
            CaseStyle::Camel => "camelCase",
            CaseStyle::Pascal => "PascalCase",
            CaseStyle::StrictPascal => "StrictPascalCase",
            CaseStyle::Snake => "snake_case",
            CaseStyle::ScreamingSnake => "SCREAMING_SNAKE_CASE",
            CaseStyle::Kebab => "kebab-case",
            CaseStyle::ScreamingKebab => "SCREAMING-KEBAB-CASE",
        };
        string_of(&chars_of(s))
    }
}

// ---------------------------------------------------------------------------
// Word splitting
// ---------------------------------------------------------------------------

/// A word boundary falls between `prev` and `c`: a lower-to-upper
/// transition, or a change between letters and digits.
pub open spec fn boundary(prev: char, c: char) -> bool {
    (is_lower(prev) && is_upper(c)) || (is_alpha(prev) && is_digit(c)) || (is_digit(prev)
        && is_alpha(c))
}

/// Every character of `s` is an ASCII uppercase letter.
pub open spec fn all_upper_seq(s: Seq<char>) -> bool {
    forall|i: int| 0 <= i < s.len() ==> is_upper(#[trigger] s[i])
}

/// One step of the splitter: given the finished words and the word being
/// built, consume `c`. Non-alphanumeric characters end the current word;
/// a boundary starts a new word at `c`; an uppercase run followed by a
/// lowercase letter gives its last capital to the new word (`FOOBar` gives
/// `FOO`, `Bar`).
pub open spec fn split_step(st: (Seq<Seq<char>>, Seq<char>), c: char) -> (Seq<Seq<char>>, Seq<char>) {
    let words = st.0;
    let cur = st.1;
    if !is_alnum(c) {
        if cur.len() > 0 {
            (words.push(cur), Seq::<char>::empty())
        } else {
            (words, cur)
        }
    } else if cur.len() == 0 {
        (words, seq![c])
    } else if boundary(cur.last(), c) {
        (words.push(cur), seq![c])
    } else if is_upper(cur.last()) && is_lower(c) && cur.len() > 1 && all_upper_seq(cur) {
        (words.push(cur.drop_last()), seq![cur.last(), c])
    } else {
        (words, cur.push(c))
    }
}

/// The splitter's state after consuming all of `s`.
pub open spec fn split_state(s: Seq<char>) -> (Seq<Seq<char>>, Seq<char>)
    decreases s.len(),
{
    if s.len() == 0 {
        (Seq::<Seq<char>>::empty(), Seq::<char>::empty())
    } else {
        split_step(split_state(s.drop_last()), s.last())
    }
}

/// The words of `s`.
pub open spec fn spec_split_words(s: Seq<char>) -> Seq<Seq<char>> {
    let st = split_state(s);
    if st.1.len() > 0 {
        st.0.push(st.1)
    } else {
        st.0
    }
}

/// The shape of a word: a run of digits, a run of capitals, or a letter
/// followed by lowercase letters.
pub open spec fn word_form(w: Seq<char>) -> bool {
    &&& w.len() > 0
    &&& {
        ||| (forall|i: int| 0 <= i < w.len() ==> is_digit(#[trigger] w[i]))
        ||| (forall|i: int| 0 <= i < w.len() ==> is_upper(#[trigger] w[i]))
        ||| (is_alpha(w[0]) && forall|i: int| 1 <= i < w.len() ==> is_lower(#[trigger] w[i]))
    }
}

/// The words of `ws` written one after the other.
pub open spec fn flatten(ws: Seq<Seq<char>>) -> Seq<char>
    decreases ws.len(),
{
    if ws.len() == 0 { Seq::empty() } else { flatten(ws.drop_last()) + ws.last() }
}

/// The ASCII letters and digits of `s`, in order.
pub open spec fn alnums(s: Seq<char>) -> Seq<char>
    decreases s.len(),
{
    if s.len() == 0 {
        Seq::empty()
    } else if is_alnum(s.last()) {
        alnums(s.drop_last()).push(s.last())
    } else {
        alnums(s.drop_last())
    }
}

proof fn lemma_split_state(s: Seq<char>)
    ensures
        ({
            let st = split_state(s);
            &&& forall|i: int| 0 <= i < st.0.len() ==> word_form(#[trigger] st.0[i])
            &&& (st.1.len() > 0 ==> word_form(st.1))
            &&& flatten(st.0) + st.1 == alnums(s)
        }),
    decreases s.len(),
{
    if s.len() > 0 {
        let d = s.drop_last();
        let c = s.last();
        lemma_split_state(d);
        let st = split_state(d);
        let words = st.0;
        let cur = st.1;
        let nx = split_step(st, c);
        assert(nx == split_state(s));
        if !is_alnum(c) {
            if cur.len() > 0 {
                assert(words.push(cur).drop_last() =~= words);
            }
        } else if cur.len() == 0 {
            assert(flatten(words) + seq![c] =~= (flatten(words) + cur).push(c));
        } else if boundary(cur.last(), c) {
            assert(words.push(cur).drop_last() =~= words);
            assert(flatten(words.push(cur)) + seq![c] =~= (flatten(words) + cur).push(c));
        } else if is_upper(cur.last()) && is_lower(c) && cur.len() > 1 && all_upper_seq(cur) {
            let w = cur.drop_last();
            assert(words.push(w).drop_last() =~= words);
            assert(flatten(words.push(w)) + seq![cur.last(), c] =~= (flatten(words) + cur).push(c));
            assert forall|i: int| 0 <= i < w.len() implies is_upper(#[trigger] w[i]) by {
                assert(w[i] == cur[i]);
            }
            let n2 = seq![cur.last(), c];
            assert(is_alpha(n2[0]));
            assert forall|i: int| 1 <= i < n2.len() implies is_lower(#[trigger] n2[i]) by {}
        } else {
            let n = cur.push(c);
            assert(flatten(words) + n =~= (flatten(words) + cur).push(c));
            let last = cur.last();
            if forall|i: int| 0 <= i < cur.len() ==> is_digit(#[trigger] cur[i]) {
                assert(is_digit(last));
                assert(is_digit(c));
                assert forall|i: int| 0 <= i < n.len() implies is_digit(#[trigger] n[i]) by {
                    if i < cur.len() { assert(n[i] == cur[i]); }
                }
            } else if forall|i: int| 0 <= i < cur.len() ==> is_upper(#[trigger] cur[i]) {
                assert(is_upper(last));
                if is_upper(c) {
                    assert forall|i: int| 0 <= i < n.len() implies is_upper(#[trigger] n[i]) by {
                        if i < cur.len() { assert(n[i] == cur[i]); }
                    }
                } else {
                    assert(cur.len() == 1);
                    assert(is_alpha(n[0]));
                    assert forall|i: int| 1 <= i < n.len() implies is_lower(#[trigger] n[i]) by {}
                }
            } else {
                assert(is_alpha(cur[0]));
                assert(forall|i: int| 1 <= i < cur.len() ==> is_lower(#[trigger] cur[i]));
                if cur.len() > 1 {
                    assert(is_lower(cur[cur.len() - 1]));
                } else {
                    assert(is_lower(cur[0]));
                }
                assert(is_lower(c));
                assert(is_alpha(n[0]));
                assert forall|i: int| 1 <= i < n.len() implies is_lower(#[trigger] n[i]) by {
                    if i < cur.len() { assert(n[i] == cur[i]); }
                }
            }
        }
    }
}

/// Splitting keeps every ASCII letter and digit of the name once and in
/// order, and nothing else; each word is a run of digits, a run of
/// capitals, or a letter followed by lowercase letters.
pub proof fn law_split_words_keeps_alnums(s: Seq<char>)
    ensures
        flatten(spec_split_words(s)) == alnums(s),
        forall|i: int| 0 <= i < spec_split_words(s).len() ==> word_form(#[trigger] spec_split_words(s)[i]),
{
    lemma_split_state(s);
    let st = split_state(s);
    if st.1.len() > 0 {
        assert(st.0.push(st.1).drop_last() =~= st.0);
    } else {
        assert(flatten(st.0) + st.1 =~= flatten(st.0));
    }
}

fn split_words_chars(s: &Vec<char>) -> (words: Vec<Vec<char>>)
    ensures
        words@.len() == spec_split_words(s@).len(),
        forall|i: int| 0 <= i < words@.len() ==> #[trigger] words@[i]@ == spec_split_words(s@)[i],
{
    let mut words: Vec<Vec<char>> = Vec::new();
    let mut current: Vec<char> = Vec::new();
    let mut i: usize = 0;
    while i < s.len()
        invariant
            i <= s.len(),
            words@.len() == split_state(s@.take(i as int)).0.len(),
            forall|j: int| 0 <= j < words@.len() ==> #[trigger] words@[j]@ == split_state(
                s@.take(i as int),
            ).0[j],
            current@ == split_state(s@.take(i as int)).1,
        decreases s.len() - i,
    {
        let c = s[i];
        proof {
            assert(s@.take(i + 1).drop_last() == s@.take(i as int));
            assert(s@.take(i + 1).last() == c);
        }
        let ghost st = split_state(s@.take(i as int));
        if !exec_is_alnum(c) {
            if current.len() > 0 {
                let done = current;
                words.push(done);
                current = Vec::new();
            }
        } else if current.len() == 0 {
            current.push(c);
        } else {
            let prev = current[current.len() - 1];
            let should_split = (exec_is_lower(prev) && exec_is_upper(c)) || (exec_is_alpha(prev)
                && exec_is_digit(c)) || (exec_is_digit(prev) && exec_is_alpha(c));
            if should_split {
                let done = current;
                words.push(done);
                current = Vec::new();
                current.push(c);
            } else {
                let mut all_upper = true;
                if exec_is_upper(prev) && exec_is_lower(c) && current.len() > 1 {
                    let mut k: usize = 0;
                    while k < current.len()
                        invariant
                            k <= current.len(),
                            all_upper == (forall|j: int| 0 <= j < k ==> is_upper(#[trigger] current@[j])),
                        decreases current.len() - k,
                    {
                        if !exec_is_upper(current[k]) {
                            all_upper = false;
                        }
                        k += 1;
                    }
                }
                if exec_is_upper(prev) && exec_is_lower(c) && current.len() > 1 && all_upper {
                    let last = current.pop().unwrap();
                    let done = current;
                    words.push(done);
                    current = Vec::new();
                    current.push(last);
                    current.push(c);
                } else {
                    current.push(c);
                }
            }
        }
        i += 1;
    }
    proof { assert(s@.take(s@.len() as int) == s@); }
    if current.len() > 0 {
        words.push(current);
    }
    words
}

/// Splits a name into its words (see [`split_step`] for the boundaries).
pub fn split_words(name: &str) -> (words: Vec<String>)
    ensures
        words@.len() == spec_split_words(name@).len(),
        forall|i: int| 0 <= i < words@.len() ==> #[trigger] words@[i]@ == spec_split_words(name@)[i],
{
    let s = chars_of(name);
    let ws = split_words_chars(&s);
    let mut out: Vec<String> = Vec::new();
    for i in 0..ws.len()
        invariant
            out@.len() == i,
            forall|j: int| 0 <= j < i ==> #[trigger] out@[j]@ == ws@[j]@,
    {
        out.push(string_of(&ws[i]));
    }
    out
}


// ---------------------------------------------------------------------------
// Detection
// ---------------------------------------------------------------------------

/// Every ASCII letter of `s` is uppercase.
pub open spec fn letters_upper(s: Seq<char>) -> bool {
    forall|i: int| 0 <= i < s.len() && is_alpha(#[trigger] s[i]) ==> is_upper(s[i])
}

/// Every ASCII letter of `s` is lowercase.
pub open spec fn letters_lower(s: Seq<char>) -> bool {
    forall|i: int| 0 <= i < s.len() && is_alpha(#[trigger] s[i]) ==> is_lower(s[i])
}

/// Two adjacent uppercase letters occur in `s`.
pub open spec fn has_upper_pair(s: Seq<char>) -> bool {
    exists|i: int| 0 <= i < s.len() - 1 && is_upper(#[trigger] s[i]) && is_upper(s[i + 1])
}

/// A lowercase letter directly followed by an uppercase one occurs in `s`.
pub open spec fn has_lower_upper(s: Seq<char>) -> bool {
    exists|i: int| 0 <= i < s.len() - 1 && is_lower(#[trigger] s[i]) && is_upper(s[i + 1])
}

/// The case style of `s`: separators decide between the kebab and snake
/// styles (by the case of the letters, `None` when mixed); otherwise a
/// leading capital gives `StrictPascal` (no two capitals in a row and at
/// least one lower-to-upper step) or `Pascal`, and a leading lowercase letter
/// gives `Camel`.
pub open spec fn spec_detect_case(s: Seq<char>) -> Option<CaseStyle> {
    if s.len() == 0 {
        None
    } else if s.contains('-') {
        if letters_upper(s) {
            Some(CaseStyle::ScreamingKebab)
        } else if letters_lower(s) {
            Some(CaseStyle::Kebab)
        } else {
            None
        }
    } else if s.contains('_') {
        if letters_upper(s) {
            Some(CaseStyle::ScreamingSnake)
        } else if letters_lower(s) {
            Some(CaseStyle::Snake)
        } else {
            None
        }
    } else if is_upper(s[0]) && !letters_upper(s) {
        if !has_upper_pair(s) && has_lower_upper(s) {
            Some(CaseStyle::StrictPascal)
        } else {
            Some(CaseStyle::Pascal)
        }
    } else if is_upper(s[0]) {
        Some(CaseStyle::Pascal)
    } else if is_lower(s[0]) {
        Some(CaseStyle::Camel)
    } else {
        None
    }
}

pub(crate) fn contains_char(s: &Vec<char>, c: char) -> (r: bool)
    ensures r == s@.contains(c),
{
    for i in 0..s.len()
        invariant
            forall|j: int| 0 <= j < i ==> s@[j] != c,
    {
        if s[i] == c {
            proof { assert(s@[i as int] == c); }
            return true;
        }
    }
    false
}

pub(crate) fn exec_letters_upper(s: &Vec<char>) -> (r: bool)
    ensures r == letters_upper(s@),
{
    for i in 0..s.len()
        invariant
            forall|j: int| 0 <= j < i && is_alpha(#[trigger] s@[j]) ==> is_upper(s@[j]),
    {
        if exec_is_alpha(s[i]) && !exec_is_upper(s[i]) {
            return false;
        }
    }
    true
}

fn exec_letters_lower(s: &Vec<char>) -> (r: bool)
    ensures r == letters_lower(s@),
{
    for i in 0..s.len()
        invariant
            forall|j: int| 0 <= j < i && is_alpha(#[trigger] s@[j]) ==> is_lower(s@[j]),
    {
        if exec_is_alpha(s[i]) && !exec_is_lower(s[i]) {
            return false;
        }
    }
    true
}

fn exec_has_upper_pair(s: &Vec<char>) -> (r: bool)
    ensures r == has_upper_pair(s@),
{
    let mut i: usize = 0;
    while i < s.len() && i + 1 < s.len()
        invariant
            i <= s.len(),
            forall|j: int| 0 <= j < i && j < s@.len() - 1 ==> !(is_upper(#[trigger] s@[j]) && is_upper(s@[j + 1])),
        decreases s.len() - i,
    {
        if exec_is_upper(s[i]) && exec_is_upper(s[i + 1]) {
            return true;
        }
        i += 1;
    }
    false
}

fn exec_has_lower_upper(s: &Vec<char>) -> (r: bool)
    ensures r == has_lower_upper(s@),
{
    let mut i: usize = 0;
    while i < s.len() && i + 1 < s.len()
        invariant
            i <= s.len(),
            forall|j: int| 0 <= j < i && j < s@.len() - 1 ==> !(is_lower(#[trigger] s@[j]) && is_upper(s@[j + 1])),
        decreases s.len() - i,
    {
        if exec_is_lower(s[i]) && exec_is_upper(s[i + 1]) {
            return true;
        }
        i += 1;
    }
    false
}

fn detect_case_chars(s: &Vec<char>) -> (r: Option<CaseStyle>)
    ensures r == spec_detect_case(s@),
{
    if s.len() == 0 {
        return None;
    }
    let has_hyphen = contains_char(s, '-');
    let has_underscore = contains_char(s, '_');
    let all_upper = exec_letters_upper(s);
    let all_lower = exec_letters_lower(s);
    let first_upper = exec_is_upper(s[0]);
    let first_lower = exec_is_lower(s[0]);
    if has_hyphen {
        if all_upper {
            return Some(CaseStyle::ScreamingKebab);
        } else if all_lower {
            return Some(CaseStyle::Kebab);
        }
        return None;
    }
    if has_underscore {
        if all_upper {
            return Some(CaseStyle::ScreamingSnake);
        } else if all_lower {
            return Some(CaseStyle::Snake);
        }
        return None;
    }
    if first_upper && !all_upper {
        let has_consecutive_upper = exec_has_upper_pair(s);
        let has_transition = exec_has_lower_upper(s);
        if !has_consecutive_upper && has_transition {
            return Some(CaseStyle::StrictPascal);
        }
        return Some(CaseStyle::Pascal);
    }
    if first_upper && all_upper {
        return Some(CaseStyle::Pascal);
    }
    if first_lower {
        return Some(CaseStyle::Camel);
    }
    None
}

/// The case style of `name`, if it has one.
pub fn detect_case(name: &str) -> (r: Option<CaseStyle>)
    ensures r == spec_detect_case(name@),
{
    let s = chars_of(name);
    detect_case_chars(&s)
}

/// Whether `name` is written in `style`.
pub fn is_case(name: &str, style: CaseStyle) -> (r: bool)
    ensures r == (spec_detect_case(name@) == Some(style)),
{
    match detect_case(name) {
        Some(d) => d == style,
        None => false,
    }
}


// ---------------------------------------------------------------------------
// Conversion
// ---------------------------------------------------------------------------

/// `w` in lowercase with its first character capitalized.
pub open spec fn capitalize(w: Seq<char>) -> Seq<char> {
    let l = lower_seq(w);
    if l.len() == 0 {
        l
    } else {
        l.update(0, upper_char(l[0]))
    }
}

/// How the `i`-th word of a name is written in `style`. Under
/// `StrictPascal` a word whose uppercase form is one of `acronyms` stays in
/// uppercase.
pub open spec fn transform_word(w: Seq<char>, i: int, style: CaseStyle, acronyms: Seq<Seq<char>>) -> Seq<char> {
    match style {
        CaseStyle::Camel => if i == 0 {
            lower_seq(w)
        } else {
            capitalize(w)
        },
        CaseStyle::Pascal => capitalize(w),
        CaseStyle::StrictPascal => if acronyms.contains(upper_seq(w)) {
            upper_seq(w)
        } else {
            capitalize(w)
        },
        CaseStyle::Snake => lower_seq(w),
        CaseStyle::Kebab => lower_seq(w),
        CaseStyle::ScreamingSnake => upper_seq(w),
        CaseStyle::ScreamingKebab => upper_seq(w),
    }
}

/// The text that joins the words of a name in `style`.
pub open spec fn separator(style: CaseStyle) -> Seq<char> {
    match style {
        CaseStyle::Snake | CaseStyle::ScreamingSnake => seq!['_'],
        CaseStyle::Kebab | CaseStyle::ScreamingKebab => seq!['-'],
        _ => Seq::<char>::empty(),
    }
}

/// `ws` joined with `sep` between consecutive items.
pub open spec fn join(ws: Seq<Seq<char>>, sep: Seq<char>) -> Seq<char>
    decreases ws.len(),
{
    if ws.len() == 0 {
        Seq::<char>::empty()
    } else if ws.len() == 1 {
        ws[0]
    } else {
        join(ws.drop_last(), sep) + sep + ws.last()
    }
}

/// The words of `s`, each written in `style`.
pub open spec fn converted_words(s: Seq<char>, style: CaseStyle, acronyms: Seq<Seq<char>>) -> Seq<Seq<char>> {
    let ws = spec_split_words(s);
    Seq::new(ws.len(), |i: int| transform_word(ws[i], i, style, acronyms))
}

/// `s` rewritten in `style`.
pub open spec fn spec_convert_case(s: Seq<char>, style: CaseStyle, acronyms: Seq<Seq<char>>) -> Seq<char> {
    join(converted_words(s, style, acronyms), separator(style))
}

/// The views of a list of strings.
pub open spec fn views(v: Seq<String>) -> Seq<Seq<char>> {
    v.map_values(|a: String| a@)
}

fn capitalize_chars(w: &Vec<char>) -> (r: Vec<char>)
    ensures r@ == capitalize(w@),
{
    let mut l = exec_lower_seq(w);
    if l.len() > 0 {
        let first = exec_upper_char(l[0]);
        l.set(0, first);
    }
    l
}

/// `word` in lowercase with its first character capitalized.
pub fn capitalize_word(word: &str) -> (r: String)
    ensures r@ == capitalize(word@),
{
    let w = chars_of(word);
    let c = capitalize_chars(&w);
    string_of(&c)
}

fn is_acronym(upper: &Vec<char>, acronyms: &[String]) -> (r: bool)
    ensures r == views(acronyms@).contains(upper@),
{
    for i in 0..acronyms.len()
        invariant
            forall|j: int| 0 <= j < i ==> acronyms@[j]@ != upper@,
    {
        let a = chars_of(acronyms[i].as_str());
        if chars_eq(&a, upper) {
            proof { assert(views(acronyms@)[i as int] == upper@); }
            return true;
        }
    }
    proof {
        if views(acronyms@).contains(upper@) {
            let k = choose|k: int| 0 <= k < views(acronyms@).len() && views(acronyms@)[k] == upper@;
            assert(acronyms@[k]@ == upper@);
        }
    }
    false
}

fn transform_word_chars(w: &Vec<char>, i: usize, style: CaseStyle, acronyms: &[String]) -> (r: Vec<char>)
    ensures r@ == transform_word(w@, i as int, style, views(acronyms@)),
{
    match style {
        CaseStyle::Camel => if i == 0 {
            exec_lower_seq(w)
        } else {
            capitalize_chars(w)
        },
        CaseStyle::Pascal => capitalize_chars(w),
        CaseStyle::StrictPascal => {
            let upper = exec_upper_seq(w);
            if is_acronym(&upper, acronyms) {
                upper
            } else {
                capitalize_chars(w)
            }
        },
        CaseStyle::Snake => exec_lower_seq(w),
        CaseStyle::Kebab => exec_lower_seq(w),
        CaseStyle::ScreamingSnake => exec_upper_seq(w),
        CaseStyle::ScreamingKebab => exec_upper_seq(w),
    }
}

fn separator_chars(style: CaseStyle) -> (r: Vec<char>)
    ensures r@ == separator(style),
{
    match style {
        CaseStyle::Snake | CaseStyle::ScreamingSnake => vec!['_'],
        CaseStyle::Kebab | CaseStyle::ScreamingKebab => vec!['-'],
        _ => Vec::new(),
    }
}

pub(crate) fn convert_case_chars(s: &Vec<char>, style: CaseStyle, acronyms: &[String]) -> (r: Vec<char>)
    ensures r@ == spec_convert_case(s@, style, views(acronyms@)),
{
    let words = split_words_chars(s);
    let sep = separator_chars(style);
    let ghost cw = converted_words(s@, style, views(acronyms@));
    let mut out: Vec<char> = Vec::new();
    for i in 0..words.len()
        invariant
            words@.len() == spec_split_words(s@).len(),
            forall|j: int| 0 <= j < words@.len() ==> #[trigger] words@[j]@ == spec_split_words(s@)[j],
            cw == converted_words(s@, style, views(acronyms@)),
            sep@ == separator(style),
            out@ == join(cw.take(i as int), sep@),
    {
        let t = transform_word_chars(&words[i], i, style, acronyms);
        proof {
            assert(cw.take(i + 1).drop_last() == cw.take(i as int));
            assert(cw.take(i + 1).last() == t@);
        }
        if i > 0 {
            push_all(&mut out, &sep);
        } else {
            proof { assert(cw.take(1) == seq![t@]); }
        }
        push_all(&mut out, &t);
    }
    proof { assert(cw.take(cw.len() as int) == cw); }
    out
}

/// `name` rewritten in `style`; under `StrictPascal`, words listed in
/// `acronyms` (by their uppercase form) stay in uppercase.
pub fn convert_case(name: &str, style: CaseStyle, acronyms: &[String]) -> (r: String)
    ensures r@ == spec_convert_case(name@, style, views(acronyms@)),
{
    let s = chars_of(name);
    let c = convert_case_chars(&s, style, acronyms);
    string_of(&c)
}


// ---------------------------------------------------------------------------
// Laws
// ---------------------------------------------------------------------------

/// No letter of `w` sits next to a digit.
pub open spec fn no_letter_digit_pair(w: Seq<char>) -> bool {
    forall|k: int|
        0 <= k < w.len() - 1 ==> !(is_alpha(#[trigger] w[k]) && is_digit(w[k + 1])) && !(is_digit(
            w[k],
        ) && is_alpha(w[k + 1]))
}

/// Every character of `w` is an ASCII letter or digit.
pub open spec fn all_alnum(w: Seq<char>) -> bool {
    forall|k: int| 0 <= k < w.len() ==> is_alnum(#[trigger] w[k])
}

/// The shape of every word the splitter produces.
pub open spec fn word_shape(w: Seq<char>) -> bool {
    all_alnum(w) && no_letter_digit_pair(w)
}

/// A word that the splitter reads back unchanged: non-empty, alphanumeric,
/// and with no boundary and no capital-to-lowercase step inside.
pub open spec fn plain_word(w: Seq<char>) -> bool {
    &&& w.len() > 0
    &&& all_alnum(w)
    &&& forall|k: int|
        0 <= k < w.len() - 1 ==> !boundary(#[trigger] w[k], w[k + 1]) && !(is_upper(w[k]) && is_lower(
            w[k + 1],
        ))
}

proof fn lemma_split_state_shape(s: Seq<char>)
    ensures
        forall|j: int|
            0 <= j < split_state(s).0.len() ==> #[trigger] split_state(s).0[j].len() > 0
                && word_shape(split_state(s).0[j]),
        word_shape(split_state(s).1),
    decreases s.len(),
{
    if s.len() > 0 {
        lemma_split_state_shape(s.drop_last());
        let st = split_state(s.drop_last());
        let c = s.last();
        let cur = st.1;
        if is_alnum(c) && cur.len() > 0 && !boundary(cur.last(), c) && !(is_upper(cur.last())
            && is_lower(c) && cur.len() > 1 && all_upper_seq(cur)) {
            let n = cur.push(c);
            assert forall|k: int| 0 <= k < n.len() - 1 implies !(is_alpha(#[trigger] n[k]) && is_digit(
                n[k + 1],
            )) && !(is_digit(n[k]) && is_alpha(n[k + 1])) by {
                if k < cur.len() - 1 {
                    assert(n[k] == cur[k] && n[k + 1] == cur[k + 1]);
                }
            }
            assert forall|k: int| 0 <= k < n.len() implies is_alnum(#[trigger] n[k]) by {
                if k < cur.len() {
                    assert(n[k] == cur[k]);
                }
            }
        }
        if is_alnum(c) && cur.len() > 0 && !boundary(cur.last(), c) && is_upper(cur.last())
            && is_lower(c) && cur.len() > 1 && all_upper_seq(cur) {
            let d = cur.drop_last();
            assert forall|k: int| 0 <= k < d.len() - 1 implies !(is_alpha(#[trigger] d[k]) && is_digit(
                d[k + 1],
            )) && !(is_digit(d[k]) && is_alpha(d[k + 1])) by {
                assert(d[k] == cur[k] && d[k + 1] == cur[k + 1]);
            }
            assert forall|k: int| 0 <= k < d.len() implies is_alnum(#[trigger] d[k]) by {
                assert(d[k] == cur[k]);
            }
        }
    }
}

/// The words of any name are non-empty, alphanumeric, and never put a letter
/// next to a digit.
pub proof fn lemma_split_words_shape(s: Seq<char>)
    ensures
        forall|j: int|
            0 <= j < spec_split_words(s).len() ==> #[trigger] spec_split_words(s)[j].len() > 0
                && word_shape(spec_split_words(s)[j]),
{
    lemma_split_state_shape(s);
}

proof fn lemma_read_plain_word(p: Seq<char>, v: Seq<char>, k: int)
    requires
        split_state(p).1.len() == 0,
        plain_word(v),
        1 <= k <= v.len(),
    ensures
        split_state(p + v.take(k)) == (split_state(p).0, v.take(k)),
    decreases k,
{
    let q = p + v.take(k);
    assert(q.drop_last() == p + v.take(k - 1));
    assert(q.last() == v[k - 1]);
    if k == 1 {
        assert(v.take(0) == Seq::<char>::empty());
        assert(p + v.take(0) == p);
        assert(v.take(1) == seq![v[0]]);
    } else {
        lemma_read_plain_word(p, v, k - 1);
        let cur = v.take(k - 1);
        assert(cur.last() == v[k - 2]);
        assert(!boundary(v[k - 2], v[k - 1]));
        assert(!(is_upper(v[k - 2]) && is_lower(v[k - 1])));
        assert(cur.push(v[k - 1]) == v.take(k));
    }
}

proof fn lemma_split_join(ws: Seq<Seq<char>>, c: char)
    requires
        ws.len() > 0,
        !is_alnum(c),
        forall|j: int| 0 <= j < ws.len() ==> plain_word(#[trigger] ws[j]),
    ensures
        split_state(join(ws, seq![c])) == (ws.drop_last(), ws.last()),
    decreases ws.len(),
{
    let v = ws.last();
    assert(plain_word(ws[ws.len() - 1]));
    if ws.len() == 1 {
        lemma_read_plain_word(Seq::<char>::empty(), v, v.len() as int);
        assert(Seq::<char>::empty() + v.take(v.len() as int) == v);
        assert(ws.drop_last() == Seq::<Seq<char>>::empty());
    } else {
        let front = ws.drop_last();
        assert forall|j: int| 0 <= j < front.len() implies plain_word(#[trigger] front[j]) by {
            assert(front[j] == ws[j]);
        }
        lemma_split_join(front, c);
        let p = join(front, seq![c]) + seq![c];
        assert(p.drop_last() == join(front, seq![c]));
        assert(p.last() == c);
        assert(front.drop_last().push(front.last()) == front);
        assert(split_state(p) == (front, Seq::<char>::empty()));
        lemma_read_plain_word(p, v, v.len() as int);
        assert(v.take(v.len() as int) == v);
        assert(join(ws, seq![c]) == p + v);
    }
}

/// Splitting words that were joined by a separator gives the words back.
proof fn lemma_split_words_join(ws: Seq<Seq<char>>, c: char)
    requires
        !is_alnum(c),
        forall|j: int| 0 <= j < ws.len() ==> plain_word(#[trigger] ws[j]),
    ensures
        spec_split_words(join(ws, seq![c])) == ws,
{
    if ws.len() == 0 {
        assert(join(ws, seq![c]) == Seq::<char>::empty());
    } else {
        lemma_split_join(ws, c);
        assert(plain_word(ws[ws.len() - 1]));
        assert(ws.drop_last().push(ws.last()) == ws);
    }
}

proof fn lemma_lower_plain(w: Seq<char>)
    requires
        w.len() > 0,
        word_shape(w),
    ensures
        plain_word(lower_seq(w)),
        lower_seq(lower_seq(w)) == lower_seq(w),
{
    let l = lower_seq(w);
    assert forall|k: int| 0 <= k < l.len() implies is_alnum(#[trigger] l[k]) by {
        assert(is_alnum(w[k]));
    }
    assert forall|k: int| 0 <= k < l.len() - 1 implies !boundary(#[trigger] l[k], l[k + 1]) && !(
    is_upper(l[k]) && is_lower(l[k + 1])) by {
        assert(is_alnum(w[k]) && is_alnum(w[k + 1]));
        assert(!(is_alpha(w[k]) && is_digit(w[k + 1])) && !(is_digit(w[k]) && is_alpha(w[k + 1])));
    }
    assert(lower_seq(l) =~= l);
}

proof fn lemma_upper_plain(w: Seq<char>)
    requires
        w.len() > 0,
        word_shape(w),
    ensures
        plain_word(upper_seq(w)),
        upper_seq(upper_seq(w)) == upper_seq(w),
{
    let u = upper_seq(w);
    assert forall|k: int| 0 <= k < u.len() implies is_alnum(#[trigger] u[k]) by {
        assert(is_alnum(w[k]));
    }
    assert forall|k: int| 0 <= k < u.len() - 1 implies !boundary(#[trigger] u[k], u[k + 1]) && !(
    is_upper(u[k]) && is_lower(u[k + 1])) by {
        assert(is_alnum(w[k]) && is_alnum(w[k + 1]));
        assert(!(is_alpha(w[k]) && is_digit(w[k + 1])) && !(is_digit(w[k]) && is_alpha(w[k + 1])));
    }
    assert(upper_seq(u) =~= u);
}

/// Converting to a separator style (snake, screaming snake, kebab, screaming
/// kebab) is idempotent: a converted name converts to itself.
pub proof fn law_convert_separated_idempotent(s: Seq<char>, style: CaseStyle, acronyms: Seq<Seq<char>>)
    requires
        style == CaseStyle::Snake || style == CaseStyle::ScreamingSnake || style == CaseStyle::Kebab
            || style == CaseStyle::ScreamingKebab,
    ensures
        spec_convert_case(spec_convert_case(s, style, acronyms), style, acronyms) == spec_convert_case(
            s,
            style,
            acronyms,
        ),
{
    let ws = spec_split_words(s);
    let cw = converted_words(s, style, acronyms);
    let c = separator(style)[0];
    assert(separator(style) == seq![c]);
    assert(!is_alnum(c));
    lemma_split_words_shape(s);
    assert forall|j: int| 0 <= j < cw.len() implies plain_word(#[trigger] cw[j]) by {
        assert(ws[j].len() > 0 && word_shape(ws[j]));
        lemma_lower_plain(ws[j]);
        lemma_upper_plain(ws[j]);
    }
    let t = spec_convert_case(s, style, acronyms);
    lemma_split_words_join(cw, c);
    assert(spec_split_words(t) == cw);
    let cw2 = converted_words(t, style, acronyms);
    assert forall|j: int| 0 <= j < cw2.len() implies #[trigger] cw2[j] == cw[j] by {
        lemma_lower_plain(ws[j]);
        lemma_upper_plain(ws[j]);
    }
    assert(cw2 =~= cw);
}


proof fn lemma_first_word(s: Seq<char>)
    requires
        s.len() > 0,
        is_alnum(s[0]),
    ensures
        split_state(s).0.len() > 0 ==> split_state(s).0[0].len() > 0 && split_state(s).0[0][0] == s[0],
        split_state(s).0.len() == 0 ==> split_state(s).1.len() > 0 && split_state(s).1[0] == s[0],
    decreases s.len(),
{
    if s.len() == 1 {
        assert(s.drop_last() == Seq::<char>::empty());
    } else {
        let p = s.drop_last();
        assert(p[0] == s[0]);
        lemma_first_word(p);
    }
}

proof fn lemma_join_first(ws: Seq<Seq<char>>, sep: Seq<char>)
    requires
        ws.len() > 0,
        ws[0].len() > 0,
    ensures
        join(ws, sep).len() > 0,
        join(ws, sep)[0] == ws[0][0],
    decreases ws.len(),
{
    if ws.len() > 1 {
        lemma_join_first(ws.drop_last(), sep);
    }
}

proof fn lemma_join_alnum(ws: Seq<Seq<char>>)
    requires
        forall|j: int| 0 <= j < ws.len() ==> all_alnum(#[trigger] ws[j]),
    ensures
        all_alnum(join(ws, Seq::<char>::empty())),
    decreases ws.len(),
{
    if ws.len() > 1 {
        let f = ws.drop_last();
        assert forall|j: int| 0 <= j < f.len() implies all_alnum(#[trigger] f[j]) by {
            assert(f[j] == ws[j]);
        }
        lemma_join_alnum(f);
        let a = join(f, Seq::<char>::empty());
        let b = ws.last();
        assert(all_alnum(ws[ws.len() - 1]));
        let j = a + Seq::<char>::empty() + b;
        assert forall|k: int| 0 <= k < j.len() implies is_alnum(#[trigger] j[k]) by {
            if k < a.len() {
                assert(j[k] == a[k]);
            } else {
                assert(j[k] == b[k - a.len()]);
            }
        }
    } else if ws.len() == 1 {
        assert(all_alnum(ws[0]));
    }
}

proof fn lemma_converted_shape(s: Seq<char>, style: CaseStyle, acronyms: Seq<Seq<char>>)
    requires
        s.len() > 0,
        is_alpha(s[0]),
        style == CaseStyle::Camel || style == CaseStyle::Pascal,
    ensures
        spec_convert_case(s, style, acronyms).len() > 0,
        all_alnum(spec_convert_case(s, style, acronyms)),
        style == CaseStyle::Camel ==> spec_convert_case(s, style, acronyms)[0] == lower_char(s[0]),
        style == CaseStyle::Pascal ==> spec_convert_case(s, style, acronyms)[0] == upper_char(s[0]),
{
    let ws = spec_split_words(s);
    let cw = converted_words(s, style, acronyms);
    lemma_first_word(s);
    lemma_split_words_shape(s);
    assert(ws.len() > 0 && ws[0].len() > 0 && ws[0][0] == s[0]);
    assert forall|j: int| 0 <= j < cw.len() implies all_alnum(#[trigger] cw[j]) by {
        assert(word_shape(ws[j]));
        let l = lower_seq(ws[j]);
        assert forall|k: int| 0 <= k < l.len() implies is_alnum(#[trigger] l[k]) by {
            assert(is_alnum(ws[j][k]));
        }
        if l.len() > 0 {
            let c = l.update(0, upper_char(l[0]));
            assert forall|k: int| 0 <= k < c.len() implies is_alnum(#[trigger] c[k]) by {
                assert(is_alnum(l[k]));
            }
        }
    }
    assert(cw[0].len() > 0);
    lemma_join_first(cw, separator(style));
    assert(separator(style) == Seq::<char>::empty());
    lemma_join_alnum(cw);
}

/// A name that starts with a lowercase letter converts to camelCase that is
/// detected as camelCase.
pub proof fn law_camel_conversion_detected(s: Seq<char>, acronyms: Seq<Seq<char>>)
    requires
        s.len() > 0,
        is_lower(s[0]),
    ensures
        spec_detect_case(spec_convert_case(s, CaseStyle::Camel, acronyms)) == Some(CaseStyle::Camel),
{
    let t = spec_convert_case(s, CaseStyle::Camel, acronyms);
    lemma_converted_shape(s, CaseStyle::Camel, acronyms);
    assert(!t.contains('-'));
    assert(!t.contains('_'));
}

/// A name that starts with an uppercase letter converts to PascalCase that is
/// detected as PascalCase or StrictPascalCase.
pub proof fn law_pascal_conversion_detected(s: Seq<char>, acronyms: Seq<Seq<char>>)
    requires
        s.len() > 0,
        is_upper(s[0]),
    ensures
        spec_detect_case(spec_convert_case(s, CaseStyle::Pascal, acronyms)) == Some(CaseStyle::Pascal)
            || spec_detect_case(spec_convert_case(s, CaseStyle::Pascal, acronyms)) == Some(
            CaseStyle::StrictPascal,
        ),
{
    let t = spec_convert_case(s, CaseStyle::Pascal, acronyms);
    lemma_converted_shape(s, CaseStyle::Pascal, acronyms);
    assert(!t.contains('-'));
    assert(!t.contains('_'));
}

} // verus!
