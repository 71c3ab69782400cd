//! JSON values, as rule options arrive.
use vstd::prelude::*;
use crate::text::{chars_of, chars_eq};
use crate::case::views;

verus! {

/// A JSON value. Numbers carry nothing: no rule reads them.
#[derive(Debug)]
pub enum Json {
    Null,
    Bool(bool),
    Number,
    Str(String),
    Array(Vec<Json>),
    Object(Vec<(String, Json)>),
}

/// The value under `key` in the members `o` (the first, should two share
/// it).
pub open spec fn member(o: Seq<(String, Json)>, key: Seq<char>) -> Option<Json>
    decreases o.len(),
{
    if o.len() == 0 {
        None
    } else {
        match member(o.drop_last(), key) {
            Some(v) => Some(v),
            None => if o.last().0@ == key { Some(o.last().1) } else { None },
        }
    }
}

/// The position of the member `key`.
pub open spec fn member_index(o: Seq<(String, Json)>, key: Seq<char>) -> Option<int>
    decreases o.len(),
{
    if o.len() == 0 {
        None
    } else {
        match member_index(o.drop_last(), key) {
            Some(k) => Some(k),
            None => if o.last().0@ == key { Some(o.len() - 1) } else { None },
        }
    }
}

proof fn lemma_member_index(o: Seq<(String, Json)>, key: Seq<char>)
    ensures
        match member_index(o, key) {
            Some(k) => 0 <= k < o.len() && o[k].0@ == key && member(o, key) == Some(o[k].1)
                && forall|j: int| 0 <= j < k ==> #[trigger] o[j].0@ != key,
            None => member(o, key) is None && forall|j: int| 0 <= j < o.len() ==> #[trigger] o[j].0@ != key,
        },
    decreases o.len(),
{
    if o.len() > 0 {
        let d = o.drop_last();
        lemma_member_index(d, key);
        assert forall|j: int| 0 <= j < o.len() - 1 implies #[trigger] o[j] == d[j] by {}
    }
}

/// The position of the member `key` of `o`.
pub fn find_member(o: &Vec<(String, Json)>, key: &str) -> (r: Option<usize>)
    ensures
        match r {
            Some(k) => member_index(o@, key@) == Some(k as int) && k < o@.len() && member(o@, key@) == Some(o@[k as int].1),
            None => member(o@, key@) is None,
        },
{
    let kc = chars_of(key);
    proof { lemma_member_index(o@, key@); }
    for i in 0..o.len()
        invariant
            kc@ == key@,
            forall|j: int| 0 <= j < i ==> #[trigger] o@[j].0@ != key@,
    {
        if chars_eq(&chars_of(o[i].0.as_str()), &kc) {
            proof {
                lemma_member_index(o@, key@);
                if member_index(o@, key@) != Some(i as int) {
                    let k = member_index(o@, key@).unwrap();
                    assert(o@[k].0@ == key@);
                }
            }
            return Some(i);
        }
    }
    proof {
        lemma_member_index(o@, key@);
        if let Some(k) = member_index(o@, key@) {
            assert(o@[k].0@ != key@);
        }
    }
    None
}

/// The string a value holds, if it is one.
pub open spec fn as_text(v: Option<Json>) -> Option<Seq<char>> {
    match v {
        Some(Json::Str(s)) => Some(s@),
        _ => None,
    }
}

/// The boolean a value holds, if it is one.
pub open spec fn as_bool(v: Option<Json>) -> Option<bool> {
    match v {
        Some(Json::Bool(b)) => Some(b),
        _ => None,
    }
}

/// The strings among the items of an array, in order.
pub open spec fn texts(items: Seq<Json>) -> Seq<Seq<char>>
    decreases items.len(),
{
    if items.len() == 0 {
        Seq::empty()
    } else {
        match items.last() {
            Json::Str(s) => texts(items.drop_last()).push(s@),
            _ => texts(items.drop_last()),
        }
    }
}

/// The strings among the items of `items`.
pub fn collect_texts(items: &Vec<Json>) -> (r: Vec<String>)
    ensures views(r@) == texts(items@),
{
    let mut out: Vec<String> = Vec::new();
    for i in 0..items.len()
        invariant views(out@) == texts(items@.take(i as int)),
    {
        proof { assert(items@.take(i + 1).drop_last() == items@.take(i as int)); }
        let ghost before = out@;
        match &items[i] {
            Json::Str(s) => {
                out.push(s.clone());
                proof { assert(views(out@) =~= views(before).push(s@)); }
            },
            _ => {},
        }
    }
    proof { assert(items@.take(items@.len() as int) == items@); }
    out
}

/// The text an optional string holds.
pub open spec fn opt_text(o: Option<String>) -> Option<Seq<char>> {
    match o {
        Some(s) => Some(s@),
        None => None,
    }
}

/// The strings of the array member `key`, or none.
pub open spec fn member_texts(o: Seq<(String, Json)>, key: Seq<char>) -> Seq<Seq<char>> {
    match member(o, key) {
        Some(Json::Array(a)) => texts(a@),
        _ => Seq::empty(),
    }
}

/// The string member `key` of `o`, if it is one.
pub fn member_text(o: &Vec<(String, Json)>, key: &str) -> (r: Option<String>)
    ensures opt_text(r) == as_text(member(o@, key@)),
{
    match find_member(o, key) {
        Some(k) => match &o[k].1 {
            Json::Str(s) => Some(s.clone()),
            _ => None,
        },
        None => None,
    }
}

/// The strings of the array member `key` of `o`.
pub fn member_text_list(o: &Vec<(String, Json)>, key: &str) -> (r: Vec<String>)
    ensures views(r@) == member_texts(o@, key@),
{
    match find_member(o, key) {
        Some(k) => match &o[k].1 {
            Json::Array(a) => collect_texts(a),
            _ => Vec::new(),
        },
        None => Vec::new(),
    }
}

/// The boolean member `key` of `o`, if it is one.
pub fn member_bool(o: &Vec<(String, Json)>, key: &str) -> (r: Option<bool>)
    ensures r == as_bool(member(o@, key@)),
{
    match find_member(o, key) {
        Some(k) => match &o[k].1 {
            Json::Bool(b) => Some(*b),
            _ => None,
        },
        None => None,
    }
}

} // verus!
