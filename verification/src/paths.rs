//! File-system paths, held as strings.
use vstd::prelude::*;

verus! {

/// A character that separates path components on some platform.
pub open spec fn is_path_separator(c: char) -> bool {
    c == '/' || c == '\\'
}

/// A relative path that no platform reads as rooted or drive-prefixed: it
/// does not start with a separator and its second character is not `:`.
pub open spec fn is_relative_name(name: Seq<char>) -> bool {
    &&& name.len() >= 2
    &&& !is_path_separator(name[0])
    &&& name[1] != ':'
}

/// `r` is `name` placed under `dir`: appended directly, or after one
/// separator character.
pub open spec fn joined_under(r: Seq<char>, dir: Seq<char>, name: Seq<char>) -> bool {
    ||| r == dir + name
    ||| exists|c: char| is_path_separator(c) && r == dir + seq![c] + name
}

/// `r` is `name` joined onto `dir` as `Path::join` joins a relative name: an
/// empty `dir` or one ending in `/` takes `name` directly; a `dir` ending in
/// any other character but `\` or `:` gets one separator before `name`.
/// After `\` or `:` the platform decides (`\` is a separator on Windows
/// only, and a bare drive such as `C:` takes no separator), so either form is
/// allowed there.
pub open spec fn path_joined(r: Seq<char>, dir: Seq<char>, name: Seq<char>) -> bool {
    if dir.len() == 0 || dir.last() == '/' {
        r == dir + name
    } else if dir.last() == '\\' || dir.last() == ':' {
        joined_under(r, dir, name)
    } else {
        exists|c: char| is_path_separator(c) && r == dir + seq![c] + name
    }
}

/// Path text without `?`.
pub open spec fn is_plain_path(p: Seq<char>) -> bool {
    forall|i: int| 0 <= i < p.len() ==> p[i] != '?'
}

/// Path text that Windows may read as starting with the verbatim prefix
/// `\\?\` (with either slash), under which joining also normalizes the path.
pub open spec fn has_verbatim_prefix(p: Seq<char>) -> bool {
    &&& p.len() >= 4
    &&& is_path_separator(p[0])
    &&& is_path_separator(p[1])
    &&& p[2] == '?'
    &&& is_path_separator(p[3])
}

/// A directory under which joining plain names, one after another, never
/// meets a verbatim prefix: it has none, and it is not the three characters
/// of one without the final separator (a separator joined onto those would
/// complete it).
pub open spec fn joins_plainly(p: Seq<char>) -> bool {
    &&& !has_verbatim_prefix(p)
    &&& !(p.len() == 3 && is_path_separator(p[0]) && is_path_separator(p[1]) && p[2] == '?')
}

/// Calls `std::path::Path::join` and converts the result back to a string.
/// For a relative `name`, join appends it to `dir`, inserting the platform's
/// separator unless `dir` is empty, already ends in a separator, or (on
/// Windows) is a bare drive prefix. The separator inserted is
/// `std::path::MAIN_SEPARATOR` of the target the crate is built for (`/` or
/// `\`); as it differs from one machine to another it is given no name here,
/// and the contract says only that it is one of the two. Whether one is
/// inserted after a trailing `\` or `:` is left open too (see `path_joined`).
/// Under a Windows verbatim prefix the documentation says the joined path is
/// also normalized, so the contract says nothing of a `dir` that may start
/// with one. Both inputs are UTF-8, so the conversion back to a string loses
/// nothing.
#[verifier::external_body]
pub(crate) fn join_path(dir: &str, name: &str) -> (r: String)
    requires
        is_relative_name(name@),
    ensures
        !has_verbatim_prefix(dir@) ==> path_joined(r@, dir@, name@),
{
    std::path::Path::new(dir).join(name).to_string_lossy().into_owned()
}

/// A joined path is `name` placed under `dir`, with at most one separator
/// between them.
pub proof fn lemma_path_joined_under(r: Seq<char>, dir: Seq<char>, name: Seq<char>)
    requires
        path_joined(r, dir, name),
    ensures
        joined_under(r, dir, name),
{
}

/// Joining a name without `?` keeps a directory clear of verbatim prefixes.
pub proof fn lemma_joins_plainly(r: Seq<char>, dir: Seq<char>, name: Seq<char>)
    requires
        path_joined(r, dir, name),
        joins_plainly(dir),
        is_relative_name(name),
        is_plain_path(name),
    ensures
        joins_plainly(r),
{
    lemma_path_joined_under(r, dir, name);
    if r == dir + name {
        if dir.len() >= 3 {
            assert(r[0] == dir[0] && r[1] == dir[1] && r[2] == dir[2]);
            if dir.len() >= 4 {
                assert(r[3] == dir[3]);
            }
        } else if r.len() >= 3 {
            assert(r[2] == name[2 - dir.len()]);
        }
    } else {
        let c = choose|c: char| is_path_separator(c) && r == dir + seq![c] + name;
        if dir.len() >= 3 {
            assert(r[0] == dir[0] && r[1] == dir[1] && r[2] == dir[2]);
            if dir.len() >= 4 {
                assert(r[3] == dir[3]);
            } else {
                assert(r[3] == c);
            }
        } else if dir.len() == 2 {
            assert(r[2] == c);
        } else {
            assert(r[2] == name[1 - dir.len()]);
        }
    }
}

/// `r` is `dir` with `parts` joined under it one after another.
pub open spec fn joined_path_under(r: Seq<char>, dir: Seq<char>, parts: Seq<Seq<char>>) -> bool
    decreases parts.len(),
{
    if parts.len() == 0 {
        r == dir
    } else {
        exists|mid: Seq<char>|
            joined_path_under(mid, dir, parts.drop_last()) && path_joined(r, mid, parts.last())
    }
}

/// Joining one more name onto a path joined under `dir` gives the path with
/// that name as its last component.
pub proof fn lemma_joined_path_push(
    r: Seq<char>,
    mid: Seq<char>,
    dir: Seq<char>,
    parts: Seq<Seq<char>>,
    name: Seq<char>,
)
    requires
        joined_path_under(mid, dir, parts),
        path_joined(r, mid, name),
    ensures
        joined_path_under(r, dir, parts.push(name)),
{
    assert(parts.push(name).drop_last() =~= parts);
    assert(parts.push(name).last() == name);
}

} // verus!
