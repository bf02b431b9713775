//! Bulk migration of version-control remote URLs across a filesystem tree.
//!
//! Given a root directory and a mapping from old URL to new URL, the library
//! discovers every git repository under the root (working-tree and bare
//! layouts alike) and rewrites any remote whose URL exactly matches a key of
//! the mapping, optionally in a dry run that reports but never mutates.

pub mod detect;
pub mod engine;
pub mod gitops;
pub mod mapping;
pub mod paths;
pub mod walker;

pub use detect::{classify_repo_root, is_likely_git_repo, repo_root_rule};
pub use engine::{
    fetch_remotes, plan_swaps, process_repo, resolve_urls, run, swap_repo_remotes, RemoteInfo,
    RemoteSwapConfig, ReportEvent, SwapCandidate,
};
pub use gitops::SwapError;
pub use mapping::RemoteMapping;
pub use paths::DirPath;
pub use walker::{keep_opened, open_candidates, visit_git_repos, FoundRepo};
