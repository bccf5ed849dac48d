//! The trusted boundary to the `git2` crate.
//!
//! Every function here performs exactly one `git2` call; its contract states
//! only what that call's documentation promises. All results depend on the
//! state of the repository on disk, so success is never promised: the callers
//! state what holds of every outcome.

use vstd::prelude::*;
use crate::errors::ActError;

verus! {

#[verifier::external_type_specification]
#[verifier::external_body]
pub struct ExRepository(git2::Repository);

#[verifier::external_type_specification]
#[verifier::external_body]
pub struct ExIndex(git2::Index);

#[verifier::external_type_specification]
#[verifier::external_body]
pub struct ExGitError(git2::Error);

#[verifier::external_type_specification]
#[verifier::external_body]
pub struct ExOid(git2::Oid);

#[verifier::external_type_specification]
#[verifier::external_body]
pub struct ExSignature<'a>(git2::Signature<'a>);

#[verifier::external_type_specification]
#[verifier::external_body]
pub struct ExTree<'a>(git2::Tree<'a>);

#[verifier::external_type_specification]
#[verifier::external_body]
pub struct ExCommit<'a>(git2::Commit<'a>);

/// Relies on git2::Repository::open: opens the existing repository at `path`,
/// failing if none is there.
#[verifier::external_body]
pub(crate) fn repo_open(path: &str) -> Result<git2::Repository, git2::Error> {
    git2::Repository::open(path)
}

/// Relies on git2::Repository::init: creates a new repository at `path`
/// (making the directory if needed) or reinitializes an existing one.
#[verifier::external_body]
pub(crate) fn repo_init(path: &str) -> Result<git2::Repository, git2::Error> {
    git2::Repository::init(path)
}

/// Relies on git2::Repository::index: the index file of the repository.
#[verifier::external_body]
pub(crate) fn repo_index(repo: &git2::Repository) -> Result<git2::Index, git2::Error> {
    repo.index()
}

/// Relies on git2::Index::add_path: adds the file at `rel` (relative to the
/// repository's working directory) to the index.
#[verifier::external_body]
pub(crate) fn index_add_path(index: &mut git2::Index, rel: &str) -> Result<(), git2::Error> {
    index.add_path(std::path::Path::new(rel))
}

/// Relies on git2::Index::write: writes the index back to disk under an
/// atomic file lock, so a failed write leaves the prior on-disk index intact.
#[verifier::external_body]
pub(crate) fn index_write(index: &mut git2::Index) -> Result<(), git2::Error> {
    index.write()
}

/// Relies on git2::Index::write_tree: writes the index as a tree object and
/// returns the identifier of the root tree.
#[verifier::external_body]
pub(crate) fn index_write_tree(index: &mut git2::Index) -> Result<git2::Oid, git2::Error> {
    index.write_tree()
}

/// Relies on git2::Repository::find_tree: looks the tree object up by its
/// identifier.
#[verifier::external_body]
pub(crate) fn find_tree<'a>(repo: &'a git2::Repository, oid: &git2::Oid) -> Result<
    git2::Tree<'a>,
    git2::Error,
> {
    repo.find_tree(*oid)
}

/// Relies on git2::Repository::find_commit: looks the commit object up by its
/// identifier.
#[verifier::external_body]
pub(crate) fn find_commit<'a>(repo: &'a git2::Repository, oid: &git2::Oid) -> Result<
    git2::Commit<'a>,
    git2::Error,
> {
    repo.find_commit(*oid)
}

/// Relies on git2::Repository::refname_to_id: resolves a reference name to
/// the identifier of the object it points at; fails on an unborn HEAD.
#[verifier::external_body]
pub(crate) fn refname_to_id(repo: &git2::Repository, name: &str) -> Result<
    git2::Oid,
    git2::Error,
> {
    repo.refname_to_id(name)
}

/// Relies on git2::Signature::now: a signature with the given name and email
/// and the current local time.
#[verifier::external_body]
pub(crate) fn signature_now(name: &str, email: &str) -> Result<
    git2::Signature<'static>,
    git2::Error,
> {
    git2::Signature::now(name, email)
}

/// Relies on git2::Repository::commit: creates a commit with no parents from
/// the given tree and message and points HEAD at it.
#[verifier::external_body]
pub(crate) fn commit_root(
    repo: &git2::Repository,
    publisher: &git2::Signature<'_>,
    message: &str,
    tree: &git2::Tree<'_>,
) -> Result<git2::Oid, git2::Error> {
    repo.commit(Some("HEAD"), publisher, publisher, message, tree, &[])
}

/// Relies on git2::Repository::commit: creates a commit whose sole parent is
/// `parent` from the given tree and message and points HEAD at it.
#[verifier::external_body]
pub(crate) fn commit_with_parent(
    repo: &git2::Repository,
    publisher: &git2::Signature<'_>,
    message: &str,
    tree: &git2::Tree<'_>,
    parent: &git2::Commit<'_>,
) -> Result<git2::Oid, git2::Error> {
    repo.commit(Some("HEAD"), publisher, publisher, message, tree, &[parent])
}

/// Relies on git2::Oid's Display impl: the identifier hex-encoded, forty
/// digits for the standard object format.
#[verifier::external_body]
pub(crate) fn oid_hex(oid: &git2::Oid) -> (r: String)
    ensures
        r@.len() == 40,
{
    format!("{}", oid)
}

/// Relies on git2::Error::message: the message carried by the error.
#[verifier::external_body]
pub(crate) fn git_error_message(e: &git2::Error) -> String {
    e.message().to_owned()
}

/// Relies on git2::Error::code: tells the lock-contention error code apart
/// from the rest.
#[verifier::external_body]
pub(crate) fn git_error_is_lock(e: &git2::Error) -> bool {
    matches!(e.code(), git2::ErrorCode::Locked)
}

/// Maps a `git2` error onto this library's error kinds: lock contention is
/// reported as such, everything else as a repository failure carrying the
/// underlying message.
pub fn repo_error(e: git2::Error) -> (r: ActError)
    ensures
        r is LockContention || r is RepositoryError,
{
    if git_error_is_lock(&e) {
        ActError::LockContention
    } else {
        ActError::RepositoryError(git_error_message(&e))
    }
}

} // verus!
