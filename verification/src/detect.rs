//! Repository detection: classifies a directory as a repository root.
//!
//! A directory is a repository root when its last component is the
//! metadata-directory name (the working-tree case), or when it holds both a
//! `refs` subdirectory and a `config` file (the bare case). The rule itself
//! is a pure function of the path and the two filesystem facts; only the two
//! metadata queries touch the disk.

use vstd::prelude::*;
use crate::paths::{DirPath, last_is_git_dir};

verus! {

/// The classification rule: a repository root is a directory whose last
/// component is the metadata-directory name, or one that holds both a
/// `refs` directory and a `config` file.
pub open spec fn repo_root_rule(path: Seq<Seq<char>>, has_refs_dir: bool, has_config_file: bool) -> bool {
    last_is_git_dir(path) || (has_refs_dir && has_config_file)
}

/// Relies on std::path::Path::is_dir: whether `dir/child` exists and is a
/// directory (after following symbolic links). The answer depends on the
/// state of the disk, so nothing is claimed of it.
#[verifier::external_body]
fn child_is_dir(dir: &DirPath, child: &str) -> bool {
    let mut p: std::path::PathBuf = dir.components().iter().collect();
    p.push(child);
    p.is_dir()
}

/// Relies on std::path::Path::is_file: whether `dir/child` exists and is a
/// regular file (after following symbolic links). The answer depends on the
/// state of the disk, so nothing is claimed of it.
#[verifier::external_body]
fn child_is_file(dir: &DirPath, child: &str) -> bool {
    let mut p: std::path::PathBuf = dir.components().iter().collect();
    p.push(child);
    p.is_file()
}

/// The pure half of the detector: applies the classification rule to a path
/// and the two filesystem facts about it.
///
/// A directory is classified as a repository root if and only if its last
/// component is the metadata-directory name, or it holds both a `refs`
/// directory and a `config` file.
pub fn classify_repo_root(dir: &DirPath, has_refs_dir: bool, has_config_file: bool) -> (r: bool)
    ensures
        r == repo_root_rule(dir@, has_refs_dir, has_config_file),
{
    dir.ends_with_git_dir() || (has_refs_dir && has_config_file)
}

/// Whether `dir` looks like a repository root on the current disk: the
/// metadata-directory-name rule fires on the path alone; otherwise the two
/// filesystem facts decide. The name rule takes priority and holds whatever
/// the disk says.
pub fn is_likely_git_repo(dir: &DirPath) -> (r: bool)
    ensures
        last_is_git_dir(dir@) ==> r,
{
    if dir.ends_with_git_dir() {
        return true;
    }
    let has_refs_dir = child_is_dir(dir, "refs");
    let has_config_file = child_is_file(dir, "config");
    classify_repo_root(dir, has_refs_dir, has_config_file)
}

} // verus!
