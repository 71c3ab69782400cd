//! The executable definitions of a project (operations and fragments) as
//! selection trees.
use vstd::prelude::*;
use crate::model::Span;

verus! {

/// A selection set and the name of the type it selects from.
#[derive(Debug)]
pub struct SelectionSet {
    pub ty: String,
    pub selections: Vec<Selection>,
}

/// A field selection: the field's name and alias, the base name of the
/// type it returns, its offset in its file, and its own selection set.
#[derive(Debug)]
pub struct FieldSelection {
    pub name: String,
    pub alias: Option<String>,
    pub result_type: String,
    pub offset: Option<usize>,
    pub selection_set: SelectionSet,
}

/// One selection: a field, a fragment spread (the fragment's name and the
/// spread's offset), or an inline fragment (its type condition and its
/// selection set).
#[derive(Debug)]
pub enum Selection {
    Field(FieldSelection),
    FragmentSpread { name: String, offset: Option<usize> },
    InlineFragment { type_condition: Option<String>, selection_set: SelectionSet },
}

/// An operation or fragment definition somewhere in the project: its name,
/// its file, its span in that file, and its selection set.
#[derive(Debug)]
pub struct ExecutableDef {
    pub name: Option<String>,
    pub file: String,
    pub span: Span,
    pub selection_set: SelectionSet,
}

/// The names of the fragments spread in a selection, in document order,
/// nested selections included.
pub open spec fn sel_spreads(s: Selection) -> Seq<Seq<char>>
    decreases s,
{
    match s {
        Selection::FragmentSpread { name: n, .. } => seq![n@],
        Selection::Field(f) => list_spreads(f.selection_set.selections@),
        Selection::InlineFragment { selection_set: ss, .. } => list_spreads(ss.selections@),
    }
}

/// The spreads of a list of selections, in order.
pub open spec fn list_spreads(l: Seq<Selection>) -> Seq<Seq<char>>
    decreases l,
{
    if l.len() == 0 {
        Seq::empty()
    } else {
        list_spreads(l.drop_last()) + sel_spreads(l.last())
    }
}


/// Pairs each spread name with `file`.
pub open spec fn tag_with(names: Seq<Seq<char>>, file: Seq<char>) -> Seq<(Seq<char>, Seq<char>)> {
    names.map_values(|n: Seq<char>| (n, file))
}

/// Name/file pairs as plain values.
pub open spec fn pairs_view(v: Seq<(Vec<char>, Vec<char>)>) -> Seq<(Seq<char>, Seq<char>)> {
    v.map_values(|x: (Vec<char>, Vec<char>)| (x.0@, x.1@))
}

proof fn lemma_tag_concat(a: Seq<Seq<char>>, b: Seq<Seq<char>>, file: Seq<char>)
    ensures tag_with(a + b, file) == tag_with(a, file) + tag_with(b, file),
{
    assert(tag_with(a + b, file) =~= tag_with(a, file) + tag_with(b, file));
}

/// Appends the spreads of a selection, tagged with `file`.
pub fn collect_sel_spreads(s: &Selection, file: &Vec<char>, out: &mut Vec<(Vec<char>, Vec<char>)>)
    ensures pairs_view(final(out)@) == pairs_view(old(out)@) + tag_with(sel_spreads(*s), file@),
    decreases *s,
{
    match s {
        Selection::FragmentSpread { name: n, .. } => {
            let ghost before = out@;
            let f2 = crate::text::sub_chars(file, 0, file.len());
            proof { assert(f2@ =~= file@); }
            out.push((crate::text::chars_of(n.as_str()), f2));
            proof { assert(pairs_view(out@) =~= pairs_view(before) + tag_with(seq![n@], file@)); }
        },
        Selection::Field(f) => {
            collect_list_spreads(&f.selection_set.selections, file, out);
        },
        Selection::InlineFragment { selection_set: ss, .. } => {
            collect_list_spreads(&ss.selections, file, out);
        },
    }
}

/// Appends the spreads of a list of selections, tagged with `file`.
pub fn collect_list_spreads(l: &Vec<Selection>, file: &Vec<char>, out: &mut Vec<(Vec<char>, Vec<char>)>)
    ensures pairs_view(final(out)@) == pairs_view(old(out)@) + tag_with(list_spreads(l@), file@),
    decreases l@,
{
    let ghost start = pairs_view(out@);
    for i in 0..l.len()
        invariant
            pairs_view(out@) == start + tag_with(list_spreads(l@.take(i as int)), file@),
    {
        proof {
            assert(l@.take(i + 1).drop_last() == l@.take(i as int));
            assert(l@.take(i + 1).last() == l@[i as int]);
            lemma_tag_concat(list_spreads(l@.take(i as int)), sel_spreads(l@[i as int]), file@);
        }
        collect_sel_spreads(&l[i], file, out);
    }
    proof { assert(l@.take(l@.len() as int) == l@); }
}

} // verus!
