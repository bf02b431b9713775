//! Trusted boundary to the version-control library.
//!
//! Each wrapper makes one call into git2 and converts between the library's
//! plain values and git2's types. What a call returns depends on the state
//! of the repositories on disk, so the wrappers claim nothing of their
//! results; every decision taken on a result is made by a verified function
//! that receives it as an argument.

use vstd::prelude::*;
use crate::paths::DirPath;

verus! {

#[verifier::external_type_specification]
#[verifier::external_body]
pub struct ExRepository(git2::Repository);

#[verifier::external_type_specification]
#[verifier::external_body]
pub struct ExGitError(git2::Error);

/// Why a run aborts: both cases carry the underlying error of the
/// version-control library.
#[derive(Debug)]
pub enum SwapError {
    /// A repository's remotes could not be enumerated.
    ListRemotes(git2::Error),
    /// A remote's new URL could not be persisted.
    SetUrl(git2::Error),
}

/// Relies on git2::Repository::open: attempts to open an already-existing
/// working-tree or bare repository at the given path. Whether it succeeds
/// depends on the disk, so nothing is claimed of the outcome.
#[verifier::external_body]
pub fn open_repository(path: &DirPath) -> Result<git2::Repository, git2::Error> {
    let p: std::path::PathBuf = path.components().iter().collect();
    git2::Repository::open(p)
}

/// Relies on git2::Repository::remotes (and git2::string_array::StringArray
/// iteration to convert its result): the names of the repository's
/// configured remotes; a name that is not valid UTF-8 or cannot be read is
/// dropped.
#[verifier::external_body]
pub fn list_remote_names(repo: &git2::Repository) -> Result<Vec<String>, git2::Error> {
    let names = repo.remotes()?;
    Ok(names.iter().filter_map(|n| n.ok().flatten()).map(|n| n.to_owned()).collect())
}

/// Relies on git2::Repository::find_remote and git2::Remote::url: the
/// configured URL of the named remote, or `None` when the remote cannot be
/// looked up or its URL is not valid UTF-8. A remote with no URL set at all
/// reads back as empty bytes, so it yields `Some` of the empty string.
#[verifier::external_body]
pub fn remote_url(repo: &git2::Repository, name: &String) -> Option<String> {
    repo.find_remote(name).ok().and_then(|r| r.url().ok().map(|u| u.to_owned()))
}

/// Relies on git2::Repository::remote_set_url: persists `url` as the named
/// remote's URL in the repository's configuration.
#[verifier::external_body]
pub fn set_remote_url(repo: &git2::Repository, name: &String, url: &String) -> Result<(), git2::Error> {
    repo.remote_set_url(name.as_str(), url.as_str())
}

} // verus!
