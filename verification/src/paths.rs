//! File system paths, which the library carries but never looks into.

use std::path::PathBuf;
use vstd::prelude::*;

verus! {

#[verifier::external_type_specification]
#[verifier::external_body]
pub struct ExPathBuf(PathBuf);

/// The path that `PathBuf::from` makes of a piece of text.
pub uninterp spec fn path_of(text: Seq<char>) -> PathBuf;

/// The path that `Path::join` makes of a base path and a further piece.
pub uninterp spec fn path_joined(base: PathBuf, piece: Seq<char>) -> PathBuf;

/// `PathBuf::from` turns text into a path. The result depends on the text
/// alone.
#[verifier::external_body]
pub(crate) fn path_from(text: &str) -> (path: PathBuf)
    ensures
        path == path_of(text@),
{
    PathBuf::from(text)
}

/// `Path::join` appends a piece to a path. The result depends on the two
/// alone.
#[verifier::external_body]
pub(crate) fn join_path(base: &PathBuf, piece: &str) -> (path: PathBuf)
    ensures
        path == path_joined(*base, piece@),
{
    base.join(piece)
}

/// `PathBuf::clone` yields the same path.
#[verifier::external_body]
pub(crate) fn clone_path(path: &PathBuf) -> (copy: PathBuf)
    ensures
        copy == *path,
{
    path.clone()
}

} // verus!
