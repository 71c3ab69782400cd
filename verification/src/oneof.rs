//! Input objects annotated with `@oneOf`, read from their own definition
//! (not from the merged schema type, which would mix in the fields that
//! extensions contribute).
use vstd::prelude::*;
use crate::schema::InputValueDef;
use crate::text::{chars_of, chars_eq};

verus! {

/// A GraphQL value as written in a document. Numbers keep their source
/// text.
#[derive(Debug)]
pub enum Value {
    Null,
    Enum(String),
    Variable(String),
    String(String),
    Float(String),
    Int(String),
    Boolean(bool),
    List(Vec<Value>),
    Object(Vec<(String, Value)>),
}

/// An argument given to a directive.
#[derive(Debug)]
pub struct Argument {
    pub name: String,
    pub value: Value,
}

/// A directive applied to a definition, with the arguments written out.
#[derive(Debug)]
pub struct Directive {
    pub name: String,
    pub arguments: Vec<Argument>,
}

/// An input object type definition as written: its name, its directives
/// and its fields, in source order.
#[derive(Debug)]
pub struct InputObjectTypeDefinition {
    pub name: String,
    pub directives: Vec<Directive>,
    pub fields: Vec<InputValueDef>,
}

/// The name of the directive that marks a one-of input object.
pub open spec fn one_of_name() -> Seq<char> {
    "oneOf"@
}

/// `k` is the position of the first directive named `name`.
pub open spec fn is_first_directive(ds: Seq<Directive>, name: Seq<char>, k: int) -> bool {
    &&& 0 <= k < ds.len()
    &&& ds[k].name@ == name
    &&& forall|j: int| 0 <= j < k ==> #[trigger] ds[j].name@ != name
}

/// `k` is the position of the first argument named `name`.
pub open spec fn is_first_argument(args: Seq<Argument>, name: Seq<char>, k: int) -> bool {
    &&& 0 <= k < args.len()
    &&& args[k].name@ == name
    &&& forall|j: int| 0 <= j < k ==> #[trigger] args[j].name@ != name
}

/// Whether some directive of `ds` is named `name`.
pub open spec fn has_directive(ds: Seq<Directive>, name: Seq<char>) -> bool {
    exists|k: int| 0 <= k < ds.len() && #[trigger] ds[k].name@ == name
}

fn find_directive(ds: &Vec<Directive>, name: &str) -> (r: Option<usize>)
    ensures
        match r {
            Some(k) => is_first_directive(ds@, name@, k as int),
            None => forall|j: int| 0 <= j < ds@.len() ==> #[trigger] ds@[j].name@ != name@,
        },
{
    let nc = chars_of(name);
    for i in 0..ds.len()
        invariant
            nc@ == name@,
            forall|j: int| 0 <= j < i ==> #[trigger] ds@[j].name@ != name@,
    {
        if chars_eq(&chars_of(ds[i].name.as_str()), &nc) {
            return Some(i);
        }
    }
    None
}

fn find_argument(args: &Vec<Argument>, name: &str) -> (r: Option<usize>)
    ensures
        match r {
            Some(k) => is_first_argument(args@, name@, k as int),
            None => forall|j: int| 0 <= j < args@.len() ==> #[trigger] args@[j].name@ != name@,
        },
{
    let nc = chars_of(name);
    for i in 0..args.len()
        invariant
            nc@ == name@,
            forall|j: int| 0 <= j < i ==> #[trigger] args@[j].name@ != name@,
    {
        if chars_eq(&chars_of(args[i].name.as_str()), &nc) {
            return Some(i);
        }
    }
    None
}

/// Whether `input` carries a `@oneOf` directive.
pub fn is_one_of_input(input: &InputObjectTypeDefinition) -> (r: bool)
    ensures r == has_directive(input.directives@, one_of_name()),
{
    match find_directive(&input.directives, "oneOf") {
        Some(_) => true,
        None => false,
    }
}

/// The fields declared by `input`, in source order.
pub fn one_of_fields<'a>(input: &'a InputObjectTypeDefinition) -> (r: Vec<&'a InputValueDef>)
    ensures
        r@.len() == input.fields@.len(),
        forall|i: int| 0 <= i < r@.len() ==> *#[trigger] r@[i] == input.fields@[i],
{
    let mut out: Vec<&'a InputValueDef> = Vec::new();
    for i in 0..input.fields.len()
        invariant
            out@.len() == i,
            forall|j: int| 0 <= j < i ==> *#[trigger] out@[j] == input.fields@[j],
    {
        out.push(&input.fields[i]);
    }
    out
}

/// The value given to the argument `argument_name` of the first `@oneOf`
/// directive of `input`, as written there: no default is filled in.
pub fn directive_arg<'a>(input: &'a InputObjectTypeDefinition, argument_name: &str) -> (r: Option<&'a Value>)
    ensures
        match r {
            Some(v) => exists|k: int, a: int|
                #[trigger] is_first_directive(input.directives@, one_of_name(), k)
                && #[trigger] is_first_argument(input.directives@[k].arguments@, argument_name@, a)
                && *v == input.directives@[k].arguments@[a].value,
            None => forall|k: int| #[trigger] is_first_directive(input.directives@, one_of_name(), k)
                ==> forall|a: int| 0 <= a < input.directives@[k].arguments@.len()
                    ==> #[trigger] input.directives@[k].arguments@[a].name@ != argument_name@,
        },
{
    match find_directive(&input.directives, "oneOf") {
        Some(k) => {
            let d = &input.directives[k];
            match find_argument(&d.arguments, argument_name) {
                Some(a) => {
                    assert(is_first_directive(input.directives@, one_of_name(), k as int)
                        && is_first_argument(input.directives@[k as int].arguments@, argument_name@, a as int));
                    Some(&d.arguments[a].value)
                },
                None => {
                    proof {
                        assert forall|k2: int| #[trigger] is_first_directive(input.directives@, one_of_name(), k2)
                            implies k2 == k as int by {
                            if k2 < k as int {
                                assert(input.directives@[k2].name@ != one_of_name());
                            } else if k2 > k as int {
                                assert(input.directives@[k as int].name@ != one_of_name());
                            }
                        }
                    }
                    None
                },
            }
        },
        None => None,
    }
}

} // verus!
