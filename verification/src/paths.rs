//! Paths as strings.
use vstd::prelude::*;

verus! {

/// `base` names a directory in the plain way: it is neither empty nor a bare drive, nor a path that
/// is rewritten when something is joined to it.
pub open spec fn plain_base(base: Seq<char>) -> bool {
    &&& base.len() > 0
    &&& base.last() != ':'
    &&& !verbatim(base)
}

/// The path begins like one that a platform takes to the letter.
pub open spec fn verbatim(base: Seq<char>) -> bool {
    &&& base.len() > 2
    &&& base[0] == '\\' || base[0] == '/'
    &&& base[1] == '\\' || base[1] == '/'
    &&& base[2] == '?'
}

/// The path begins with a drive: a letter and a colon.
pub open spec fn on_drive(path: Seq<char>) -> bool {
    &&& path.len() > 1
    &&& 'a' <= path[0] <= 'z' || 'A' <= path[0] <= 'Z'
    &&& path[1] == ':'
}

/// `rel` names something below a directory: it has no root and no drive.
pub open spec fn plain_rel(rel: Seq<char>) -> bool {
    &&& rel.len() > 0
    &&& rel[0] != '/'
    &&& rel[0] != '\\'
    &&& !on_drive(rel)
}

/// `path` is `rel` below `base`, with a separator between them: the one that the base ends in, else
/// that of the platform, to which a backslash may be a character like others.
pub open spec fn below(base: Seq<char>, rel: Seq<char>, path: Seq<char>) -> bool {
    if base.last() == '/' {
        path == base + rel
    } else if base.last() == '\\' {
        path == base + rel || path == base.push('/') + rel
    } else {
        path == base.push('/') + rel || path == base.push('\\') + rel
    }
}

/// `path` is what joining gives: the relative path below a plain base. A path with a root or a
/// drive takes the place of the base, or of what follows the drive of the base.
pub open spec fn joined(base: Seq<char>, rel: Seq<char>, path: Seq<char>) -> bool {
    &&& plain_base(base) && plain_rel(rel) ==> below(base, rel, path)
    &&& !verbatim(base) ==> rel.is_suffix_of(path)
}

/// `std::path::Path::join`: the relative path behind the base and a separator, or in its place.
/// Which separator it is depends on the platform, and what becomes of a base that is taken to the
/// letter is left unsaid.
#[verifier::external_body]
pub(crate) fn join(base: &str, rel: &str) -> (path: String)
    ensures
        joined(base@, rel@, path@),
{
    std::path::Path::new(base).join(rel).to_string_lossy().into_owned()
}

/// `path` is a file below a directory below `base`.
pub open spec fn joined_twice(
    base: Seq<char>,
    dir: Seq<char>,
    rel: Seq<char>,
    path: Seq<char>,
) -> bool {
    exists|mid: Seq<char>| #[trigger] joined(base, dir, mid) && joined(mid, rel, path)
}

pub fn join_twice(base: &str, dir: &str, rel: &str) -> (path: String)
    ensures
        joined_twice(base@, dir@, rel@, path@),
{
    let mid: String = join(base, dir);
    let path: String = join(mid.as_str(), rel);
    assert(joined(base@, dir@, mid@) && joined(mid@, rel@, path@));
    path
}

} // verus!
