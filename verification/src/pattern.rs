//! Regular expressions from the `regex` crate, known to the rules by their
//! source text.
use vstd::prelude::*;

verus! {

#[verifier::external_type_specification]
#[verifier::external_body]
pub struct ExRegex(regex::Regex);

/// `p` is a regular expression that `regex::Regex::new` accepts.
pub uninterp spec fn regex_compiles(p: Seq<char>) -> bool;

/// The regular expression `p` matches somewhere in `text`
/// (`regex::Regex::is_match`).
pub uninterp spec fn regex_matches(p: Seq<char>, text: Seq<char>) -> bool;

/// A compiled regular expression and the text it was compiled from.
#[derive(Debug)]
pub struct Pattern {
    source: String,
    regex: regex::Regex,
}

impl View for Pattern {
    type V = Seq<char>;

    closed spec fn view(&self) -> Seq<char> {
        self.source@
    }
}

impl Pattern {
    /// Compiles `p` with `regex::Regex::new`; `None` where the crate refuses
    /// it. The pattern keeps `p` as its source.
    #[verifier::external_body]
    pub fn compile(p: &str) -> (r: Option<Pattern>)
        ensures
            r is Some <==> regex_compiles(p@),
            r matches Some(x) ==> x@ == p@,
    {
        match regex::Regex::new(p) {
            Ok(regex) => Some(Pattern { source: p.to_owned(), regex }),
            Err(_) => None,
        }
    }

    /// Whether the pattern matches somewhere in `text`
    /// (`regex::Regex::is_match`).
    #[verifier::external_body]
    pub fn is_match(&self, text: &str) -> (b: bool)
        ensures b == regex_matches(self@, text@),
    {
        self.regex.is_match(text)
    }

    /// The text the pattern was compiled from (what `Display` shows for a
    /// `regex::Regex`).
    pub fn source(&self) -> (r: &str)
        ensures r@ == self@,
    {
        self.source.as_str()
    }
}

} // verus!
