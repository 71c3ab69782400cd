//! File paths: the parts of a path that the rules read, taken from std's
//! `Path`. Std parses paths as the target the crate is built for does
//! (Unix or Windows), so the names below stand for that target's parsing.
use vstd::prelude::*;
use crate::text::{chars_of, string_of, sub_chars};

verus! {

/// The file name of the path `p` (std's `Path::file_name`, whose parsing
/// is that of the target the crate is built for).
pub uninterp spec fn spec_file_name(p: Seq<char>) -> Option<Seq<char>>;

/// The position of the last `.` among the first `k` characters of `n`.
pub open spec fn last_dot(n: Seq<char>, k: int) -> Option<int>
    decreases k,
{
    if k <= 0 { None } else if n[k - 1] == '.' { Some(k - 1) } else { last_dot(n, k - 1) }
}

/// The extension of the path `p`, as std's `Path::extension` documents it:
/// the part of the file name after its last `.`, when that `.` is not the
/// file name's first character.
pub open spec fn spec_extension(p: Seq<char>) -> Option<Seq<char>> {
    match spec_file_name(p) {
        Some(n) => match last_dot(n, n.len() as int) {
            Some(k) => if k > 0 { Some(n.subrange(k + 1, n.len() as int)) } else { None },
            None => None,
        },
        None => None,
    }
}

/// The file stem of the path `p`, as std's `Path::file_stem` documents it:
/// the part of the file name before its last `.`, or the whole file name
/// when it has no `.` or only a leading one.
pub open spec fn spec_file_stem(p: Seq<char>) -> Option<Seq<char>> {
    match spec_file_name(p) {
        Some(n) => match last_dot(n, n.len() as int) {
            Some(k) => if k > 0 { Some(n.take(k)) } else { Some(n) },
            None => Some(n),
        },
        None => None,
    }
}

proof fn lemma_last_dot(n: Seq<char>, k: int)
    requires k <= n.len(),
    ensures last_dot(n, k) matches Some(j) ==> 0 <= j < k && n[j] == '.',
    decreases k,
{
    if k > 0 && n[k - 1] != '.' {
        lemma_last_dot(n, k - 1);
    }
}

fn exec_last_dot(n: &Vec<char>) -> (r: Option<usize>)
    ensures
        r matches Some(k) ==> k < n@.len() && last_dot(n@, n@.len() as int) == Some(k as int),
        r is None ==> last_dot(n@, n@.len() as int) is None,
{
    proof { lemma_last_dot(n@, n@.len() as int); }
    let mut k = n.len();
    while k > 0
        invariant
            k <= n@.len(),
            last_dot(n@, k as int) == last_dot(n@, n@.len() as int),
        decreases k,
    {
        if n[k - 1] == '.' {
            proof { assert(last_dot(n@, k as int) == Some(k - 1)); }
            return Some(k - 1);
        }
        k = k - 1;
    }
    None
}

/// The extension of `p`, as text: the file name after its last `.`.
pub(crate) fn path_extension(p: &str) -> (r: Option<String>)
    ensures
        r matches Some(e) ==> spec_extension(p@) == Some(e@),
        r is None ==> spec_extension(p@) is None,
{
    match path_file_name(p) {
        Some(f) => {
            let n = chars_of(f.as_str());
            let len = n.len();
            match exec_last_dot(&n) {
                Some(k) => if k > 0 { Some(string_of(&sub_chars(&n, k + 1, len))) } else { None },
                None => None,
            }
        },
        None => None,
    }
}

/// The file stem of `p`, as text: the file name before its last `.`.
pub(crate) fn path_file_stem(p: &str) -> (r: Option<String>)
    ensures
        r matches Some(e) ==> spec_file_stem(p@) == Some(e@),
        r is None ==> spec_file_stem(p@) is None,
{
    match path_file_name(p) {
        Some(f) => {
            let n = chars_of(f.as_str());
            match exec_last_dot(&n) {
                Some(k) => if k > 0 { Some(string_of(&sub_chars(&n, 0, k))) } else { Some(f) },
                None => Some(f),
            }
        },
        None => None,
    }
}

/// std's `Path::file_name` of `p`, as text.
#[verifier::external_body]
pub(crate) fn path_file_name(p: &str) -> (r: Option<String>)
    ensures
        r matches Some(e) ==> spec_file_name(p@) == Some(e@),
        r is None ==> spec_file_name(p@) is None,
{
    std::path::Path::new(p).file_name().map(|e| e.to_string_lossy().into_owned())
}


/// One component of a path, as std's `Path::components` yields them.
#[derive(Debug, Clone)]
pub enum PathPart {
    Prefix(String),
    RootDir,
    CurDir,
    ParentDir,
    Normal(String),
}

/// A path component as a plain value: its kind (0 prefix, 1 root, 2 current
/// directory, 3 parent directory, 4 normal) and its text.
pub open spec fn part_view(p: PathPart) -> (int, Seq<char>) {
    match p {
        PathPart::Prefix(s) => (0, s@),
        PathPart::RootDir => (1, Seq::empty()),
        PathPart::CurDir => (2, Seq::empty()),
        PathPart::ParentDir => (3, Seq::empty()),
        PathPart::Normal(s) => (4, s@),
    }
}

/// A list of path components as plain values.
pub open spec fn parts_view(ps: Seq<PathPart>) -> Seq<(int, Seq<char>)> {
    ps.map_values(|p: PathPart| part_view(p))
}

/// The components of the path `p` (std's `Path::components`).
pub uninterp spec fn spec_components(p: Seq<char>) -> Seq<(int, Seq<char>)>;

/// Whether the path `p` is absolute (std's `Path::is_absolute`).
pub uninterp spec fn spec_is_absolute(p: Seq<char>) -> bool;

/// The parent of the path `p` (std's `Path::parent`).
pub uninterp spec fn spec_parent(p: Seq<char>) -> Option<Seq<char>>;

/// The path `a` joined with `b` (std's `Path::join`).
pub uninterp spec fn spec_join(a: Seq<char>, b: Seq<char>) -> Seq<char>;

/// std's `Path::components` of `p`.
#[verifier::external_body]
pub(crate) fn path_components(p: &str) -> (r: Vec<PathPart>)
    ensures parts_view(r@) == spec_components(p@),
{
    std::path::Path::new(p)
        .components()
        .map(|c| match c {
            std::path::Component::Prefix(x) => PathPart::Prefix(x.as_os_str().to_string_lossy().into_owned()),
            std::path::Component::RootDir => PathPart::RootDir,
            std::path::Component::CurDir => PathPart::CurDir,
            std::path::Component::ParentDir => PathPart::ParentDir,
            std::path::Component::Normal(x) => PathPart::Normal(x.to_string_lossy().into_owned()),
        })
        .collect()
}

/// std's `Path::is_absolute` of `p`.
#[verifier::external_body]
pub(crate) fn path_is_absolute(p: &str) -> (r: bool)
    ensures r == spec_is_absolute(p@),
{
    std::path::Path::new(p).is_absolute()
}

/// std's `Path::parent` of `p`, as text.
#[verifier::external_body]
pub(crate) fn path_parent(p: &str) -> (r: Option<String>)
    ensures
        r matches Some(e) ==> spec_parent(p@) == Some(e@),
        r is None ==> spec_parent(p@) is None,
{
    std::path::Path::new(p).parent().map(|e| e.to_string_lossy().into_owned())
}

/// std's `Path::join` of `a` and `b`, as text.
#[verifier::external_body]
pub(crate) fn path_join(a: &str, b: &str) -> (r: String)
    ensures r@ == spec_join(a@, b@),
{
    std::path::Path::new(a).join(b).to_string_lossy().into_owned()
}

/// The components of `p` with `.` dropped and `..` removing the component
/// before it (nothing when that is the root or there is none).
pub open spec fn fold_parts(ps: Seq<(int, Seq<char>)>) -> Seq<(int, Seq<char>)>
    decreases ps.len(),
{
    if ps.len() == 0 {
        Seq::empty()
    } else {
        let acc = fold_parts(ps.drop_last());
        let c = ps.last();
        if c.0 == 2 {
            acc
        } else if c.0 == 3 {
            if acc.len() > 0 && acc.last().0 == 4 {
                acc.drop_last()
            } else {
                acc
            }
        } else {
            acc.push(c)
        }
    }
}

/// `path` resolved against the directory of `base_file` (the path itself
/// when absolute), then normalized.
pub open spec fn spec_normalize_path(base_file: Seq<char>, path: Seq<char>) -> Seq<(int, Seq<char>)> {
    let joined = if spec_is_absolute(path) {
        path
    } else {
        spec_join(
            match spec_parent(base_file) {
                Some(d) => d,
                None => "."@,
            },
            path,
        )
    };
    fold_parts(spec_components(joined))
}

fn clone_part(p: &PathPart) -> (r: PathPart)
    ensures part_view(r) == part_view(*p),
{
    match p {
        PathPart::Prefix(s) => PathPart::Prefix(s.clone()),
        PathPart::RootDir => PathPart::RootDir,
        PathPart::CurDir => PathPart::CurDir,
        PathPart::ParentDir => PathPart::ParentDir,
        PathPart::Normal(s) => PathPart::Normal(s.clone()),
    }
}

/// `path` resolved against the directory of `base_file` and normalized, as
/// a list of components.
pub fn normalize_path(base_file: &str, path: &str) -> (r: Vec<PathPart>)
    ensures parts_view(r@) == spec_normalize_path(base_file@, path@),
{
    let joined = if path_is_absolute(path) {
        crate::text::string_of(&crate::text::chars_of(path))
    } else {
        let dir = match path_parent(base_file) {
            Some(d) => d,
            None => crate::text::string_of(&crate::text::chars_of(".")),
        };
        path_join(dir.as_str(), path)
    };
    let parts = path_components(joined.as_str());
    let ghost ps = parts_view(parts@);
    let mut out: Vec<PathPart> = Vec::new();
    for i in 0..parts.len()
        invariant
            ps == parts_view(parts@),
            parts_view(out@) == fold_parts(ps.take(i as int)),
    {
        proof {
            assert(ps.take(i + 1).drop_last() == ps.take(i as int));
            assert(ps.take(i + 1).last() == part_view(parts@[i as int]));
        }
        let ghost before = out@;
        match &parts[i] {
            PathPart::CurDir => {},
            PathPart::ParentDir => {
                let n = out.len();
                if n > 0 {
                    let is_normal = match &out[n - 1] {
                        PathPart::Normal(_) => true,
                        _ => false,
                    };
                    if is_normal {
                        out.pop();
                        proof { assert(parts_view(out@) =~= parts_view(before).drop_last()); }
                    }
                }
            },
            other => {
                out.push(clone_part(other));
                proof { assert(parts_view(out@) =~= parts_view(before).push(part_view(parts@[i as int]))); }
            },
        }
    }
    proof { assert(ps.take(ps.len() as int) == ps); }
    out
}

/// Whether two component lists are equal.
pub fn parts_eq(a: &Vec<PathPart>, b: &Vec<PathPart>) -> (r: bool)
    ensures r == (parts_view(a@) == parts_view(b@)),
{
    if a.len() != b.len() {
        proof { assert(parts_view(a@).len() != parts_view(b@).len()); }
        return false;
    }
    for i in 0..a.len()
        invariant
            a.len() == b.len(),
            forall|j: int| 0 <= j < i ==> part_view(#[trigger] a@[j]) == part_view(b@[j]),
    {
        let same = match (&a[i], &b[i]) {
            (PathPart::Prefix(x), PathPart::Prefix(y)) => crate::text::chars_eq(&crate::text::chars_of(x.as_str()), &crate::text::chars_of(y.as_str())),
            (PathPart::RootDir, PathPart::RootDir) => true,
            (PathPart::CurDir, PathPart::CurDir) => true,
            (PathPart::ParentDir, PathPart::ParentDir) => true,
            (PathPart::Normal(x), PathPart::Normal(y)) => crate::text::chars_eq(&crate::text::chars_of(x.as_str()), &crate::text::chars_of(y.as_str())),
            _ => false,
        };
        if !same {
            proof { assert(parts_view(a@)[i as int] != parts_view(b@)[i as int]); }
            return false;
        }
    }
    proof { assert(parts_view(a@) =~= parts_view(b@)); }
    true
}

/// Whether two paths name the same components (std's `Path` equality).
pub fn same_path(a: &str, b: &str) -> (r: bool)
    ensures r == (spec_components(a@) == spec_components(b@)),
{
    let pa = path_components(a);
    let pb = path_components(b);
    parts_eq(&pa, &pb)
}

} // verus!
