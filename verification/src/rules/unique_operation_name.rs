//! `unique-operation-name`: no two named operations of the project share a
//! name.
use vstd::prelude::*;
use crate::model::{Definition, Diagnostic, Span, def_name, diag_views, exec_named_earlier, named_earlier, plain_diag, push_diag};
use crate::text::{chars_of, chars_eq, push_str};

verus! {

/// The `unique-operation-name` rule.
pub struct UniqueOperationName;

/// The findings in `file` for the first `n` operations of the project, in
/// order: every operation whose name was already used by an earlier one.
pub open spec fn duplicate_operations(ops: Seq<Definition>, n: int, file: Seq<char>) -> Seq<(Seq<char>, Span, Seq<(Seq<char>, Span, Seq<char>)>)>
    decreases n,
{
    if n <= 0 {
        Seq::empty()
    } else {
        let prev = duplicate_operations(ops, n - 1, file);
        let d = ops[n - 1];
        if named_earlier(ops, n - 1) && d.file@ == file {
            prev.push(plain_diag(
                "Operation \""@ + def_name(d).unwrap() + "\" is defined multiple times"@,
                d.span,
            ))
        } else {
            prev
        }
    }
}

impl UniqueOperationName {
    /// Reports, in `file`, every operation (of all the project's operations,
    /// in order) that reuses the name of an earlier operation.
    pub fn check(&self, operations: &[Definition], file: &str) -> (r: Vec<Diagnostic>)
        ensures diag_views(r@) == duplicate_operations(operations@, operations@.len() as int, file@),
    {
        let this_file = chars_of(file);
        let mut out: Vec<Diagnostic> = Vec::new();
        for i in 0..operations.len()
            invariant
                this_file@ == file@,
                diag_views(out@) == duplicate_operations(operations@, i as int, file@),
        {
            if exec_named_earlier(operations, i) && chars_eq(&chars_of(operations[i].file.as_str()), &this_file) {
                match &operations[i].name {
                    Some(name) => {
                        let mut m: Vec<char> = Vec::new();
                        push_str(&mut m, "Operation \"");
                        push_str(&mut m, name.as_str());
                        push_str(&mut m, "\" is defined multiple times");
                        push_diag(&mut out, &m, operations[i].span);
                    },
                    None => {},
                }
            }
        }
        out
    }
}

} // verus!
