//! The few `std::path` operations the server relies on. How a path splits
//! into components depends on the platform the program is built for
//! (Windows also separates with `\\` and knows drive prefixes), so these
//! calls are made through `std::path`. What is stated of them is what std
//! documents for the paths that every platform reads alike: components
//! separated by `/` only, without `\\` or `:`, without empty, `.` or `..`
//! components (a leading `/` apart) and without a trailing `/`.
use vstd::prelude::*;

verus! {

/// Whether `.` or `..` forms the component that starts at `i` of `p`.
pub open spec fn dot_component_at(p: Seq<char>, i: int) -> bool {
    &&& 0 <= i < p.len()
    &&& (i == 0 || p[i - 1] == '/')
    &&& p[i] == '.'
    &&& (i + 1 == p.len() || p[i + 1] == '/' || (p[i + 1] == '.' && (i + 2 == p.len() || p[i
        + 2] == '/')))
}

/// A path that every platform splits alike, at its `/` characters.
pub open spec fn simple_path(p: Seq<char>) -> bool {
    &&& p.len() > 0
    &&& p.last() != '/'
    &&& forall|i: int| 0 <= i < p.len() ==> #[trigger] p[i] != '\\' && p[i] != ':'
    &&& forall|i: int| 0 <= i < p.len() - 1 ==> !(#[trigger] p[i] == '/' && p[i + 1] == '/')
    &&& forall|i: int| 0 <= i < p.len() ==> !#[trigger] dot_component_at(p, i)
}

/// A single simple component: a simple path without `/`.
pub open spec fn plain_name(p: Seq<char>) -> bool {
    simple_path(p) && forall|i: int| 0 <= i < p.len() ==> #[trigger] p[i] != '/'
}

/// The position of the last `c` in `p`, or -1.
pub open spec fn last_pos(p: Seq<char>, c: char) -> int
    decreases p.len(),
{
    if p.len() == 0 {
        -1
    } else if p.last() == c {
        p.len() - 1
    } else {
        last_pos(p.drop_last(), c)
    }
}

/// The last component of a simple path: the text after its last `/`.
pub open spec fn file_name_spec(p: Seq<char>) -> Seq<char> {
    p.subrange(last_pos(p, '/') + 1, p.len() as int)
}

/// The parent of a simple path: the text before its last `/` (`/` itself
/// when that is the first character), or the empty path when it has none.
pub open spec fn parent_spec(p: Seq<char>) -> Seq<char> {
    let k = last_pos(p, '/');
    if k < 0 {
        Seq::<char>::empty()
    } else if k == 0 {
        seq!['/']
    } else {
        p.subrange(0, k)
    }
}

/// The extension of a file name: the text after its last `.`; none when it
/// has no `.` or its only `.` is its first character.
pub open spec fn ext_spec(name: Seq<char>) -> Option<Seq<char>> {
    let k = last_pos(name, '.');
    if k <= 0 {
        None
    } else {
        Some(name.subrange(k + 1, name.len() as int))
    }
}

/// The stem of a file name: the text before its last `.`, or the whole name
/// when it has no extension.
pub open spec fn stem_spec(name: Seq<char>) -> Seq<char> {
    let k = last_pos(name, '.');
    if k <= 0 {
        name
    } else {
        name.subrange(0, k)
    }
}

/// The view of an optional string.
pub open spec fn opt_text(s: Option<String>) -> Option<Seq<char>> {
    match s {
        Some(x) => Some(x@),
        None => None,
    }
}

/// `joined` is `base` and `segment` with nothing, `/` or `\\` between them.
pub open spec fn is_join_of(joined: Seq<char>, base: Seq<char>, segment: Seq<char>) -> bool {
    ||| joined == base + segment
    ||| joined == base + seq!['/'] + segment
    ||| joined == base + seq!['\\'] + segment
}

/// `Path::join`: `base` with `segment` appended as a further component. For
/// a plain `segment` and a `base` without `?` (no verbatim prefix) std adds
/// the platform's separator unless `base` is empty or already ends in one
/// (or is a bare drive); which separator is the platform's and is not
/// stated.
#[verifier::external_body]
pub(crate) fn path_join(base: &str, segment: &str) -> (r: String)
    ensures
        plain_name(segment@) && !base@.contains('?') ==> is_join_of(r@, base@, segment@),
{
    std::path::Path::new(base).join(segment).to_string_lossy().into_owned()
}

/// `Path::file_name` as text: the last component of `path`, `None` when the
/// path ends in `..` or has no components.
#[verifier::external_body]
pub(crate) fn path_file_name(path: &str) -> (r: Option<String>)
    ensures
        simple_path(path@) ==> opt_text(r) == Some(file_name_spec(path@)),
{
    std::path::Path::new(path).file_name().and_then(|s| s.to_str()).map(|s| s.to_string())
}

/// `Path::extension` as text: the part of the file name after its last `.`,
/// `None` when the file name has no `.` other than a leading one.
#[verifier::external_body]
pub(crate) fn path_extension(path: &str) -> (r: Option<String>)
    ensures
        simple_path(path@) ==> opt_text(r) == ext_spec(file_name_spec(path@)),
{
    std::path::Path::new(path).extension().and_then(|s| s.to_str()).map(|s| s.to_string())
}

/// `Path::file_stem` as text: the file name without its extension.
#[verifier::external_body]
pub(crate) fn path_file_stem(path: &str) -> (r: Option<String>)
    ensures
        simple_path(path@) ==> opt_text(r) == Some(stem_spec(file_name_spec(path@))),
{
    std::path::Path::new(path).file_stem().and_then(|s| s.to_str()).map(|s| s.to_string())
}

/// `Path::parent` as text: `path` without its last component, `None` when
/// it has none.
#[verifier::external_body]
pub(crate) fn path_parent(path: &str) -> (r: Option<String>)
    ensures
        simple_path(path@) ==> opt_text(r) == Some(parent_spec(path@)),
{
    std::path::Path::new(path).parent().map(|p| p.to_string_lossy().into_owned())
}

} // verus!
