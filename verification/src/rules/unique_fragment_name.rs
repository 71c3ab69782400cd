//! `unique-fragment-name`: no two fragments of the project share a
//! name.
use vstd::prelude::*;
use crate::model::{Definition, Diagnostic, Span, def_name, diag_views, exec_named_earlier, named_earlier, plain_diag, push_diag};
use crate::text::{chars_of, chars_eq, push_str};

verus! {

/// The `unique-fragment-name` rule.
pub struct UniqueFragmentName;

/// The findings in `file` for the first `n` fragments of the project, in
/// order: every fragment whose name was already used by an earlier one.
pub open spec fn duplicate_fragments(ops: Seq<Definition>, n: int, file: Seq<char>) -> Seq<(Seq<char>, Span, Seq<(Seq<char>, Span, Seq<char>)>)>
    decreases n,
{
    if n <= 0 {
        Seq::empty()
    } else {
        let prev = duplicate_fragments(ops, n - 1, file);
        let d = ops[n - 1];
        if named_earlier(ops, n - 1) && d.file@ == file {
            prev.push(plain_diag(
                "Fragment \""@ + def_name(d).unwrap() + "\" is defined multiple times"@,
                d.span,
            ))
        } else {
            prev
        }
    }
}

impl UniqueFragmentName {
    /// Reports, in `file`, every fragment (of all the project's fragments,
    /// in order) that reuses the name of an earlier fragment.
    pub fn check(&self, fragments: &[Definition], file: &str) -> (r: Vec<Diagnostic>)
        ensures diag_views(r@) == duplicate_fragments(fragments@, fragments@.len() as int, file@),
    {
        let this_file = chars_of(file);
        let mut out: Vec<Diagnostic> = Vec::new();
        for i in 0..fragments.len()
            invariant
                this_file@ == file@,
                diag_views(out@) == duplicate_fragments(fragments@, i as int, file@),
        {
            if exec_named_earlier(fragments, i) && chars_eq(&chars_of(fragments[i].file.as_str()), &this_file) {
                match &fragments[i].name {
                    Some(name) => {
                        let mut m: Vec<char> = Vec::new();
                        push_str(&mut m, "Fragment \"");
                        push_str(&mut m, name.as_str());
                        push_str(&mut m, "\" is defined multiple times");
                        push_diag(&mut out, &m, fragments[i].span);
                    },
                    None => {},
                }
            }
        }
        out
    }
}

} // verus!
