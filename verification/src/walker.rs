//! The repository walker: one traversal of the tree under a root, yielding
//! an opened repository handle for every directory the detector accepts.
//!
//! The traversal, the detector's metadata queries, and the opening of a
//! repository are outside calls whose outcomes the disk decides. The
//! selection around them is verified in two exact steps: `open_candidates`
//! probes every walked directory, keeping each path unchanged beside its
//! outcome, and `keep_opened` yields precisely the entries that opened —
//! every accepted-and-opened directory, in traversal order, none dropped,
//! none invented.

use vstd::prelude::*;
use crate::detect::is_likely_git_repo;
use crate::gitops::open_repository;
use crate::paths::DirPath;

verus! {

/// A repository the walker found: the directory that was accepted, and the
/// handle that opening it returned.
pub struct FoundRepo {
    pub path: DirPath,
    pub repo: git2::Repository,
}

/// No two of the found repositories share a path.
pub open spec fn repo_paths_distinct(rs: Seq<FoundRepo>) -> bool {
    forall|i: int, j: int| 0 <= i < j < rs.len() ==> rs[i].path@ != rs[j].path@
}

/// The repositories that a probed directory list yields: one per entry
/// that opened, in order — exactly the `Some` entries, nothing dropped,
/// nothing added.
pub open spec fn kept_found(cands: Seq<(DirPath, Option<git2::Repository>)>) -> Seq<FoundRepo>
    decreases cands.len(),
{
    if cands.len() == 0 {
        Seq::empty()
    } else {
        kept_found(cands.drop_last()) + match cands.last().1 {
            Some(repo) => seq![FoundRepo { path: cands.last().0, repo }],
            None => Seq::<FoundRepo>::empty(),
        }
    }
}

/// Every yielded repository's path is one of the probed paths.
pub proof fn lemma_kept_found_paths(cands: Seq<(DirPath, Option<git2::Repository>)>, k: int)
    requires
        0 <= k < kept_found(cands).len(),
    ensures
        exists|j: int| 0 <= j < cands.len() && kept_found(cands)[k].path == #[trigger] cands[j].0,
    decreases cands.len(),
{
    let rest = kept_found(cands.drop_last());
    if k < rest.len() {
        lemma_kept_found_paths(cands.drop_last(), k);
        let j = choose|j: int|
            0 <= j < cands.drop_last().len() && rest[k].path == #[trigger] cands.drop_last()[j].0;
        assert(kept_found(cands)[k] == rest[k]);
        assert(kept_found(cands)[k].path == cands[j].0);
    } else {
        assert(kept_found(cands)[k].path == cands[cands.len() - 1].0);
    }
}

/// Probing path-distinct directories yields path-distinct repositories:
/// the walker never yields the same path twice when the traversal never
/// visits the same path twice.
pub proof fn lemma_kept_found_distinct(cands: Seq<(DirPath, Option<git2::Repository>)>)
    requires
        forall|i: int, j: int| 0 <= i < j < cands.len() ==> cands[i].0@ != cands[j].0@,
    ensures
        repo_paths_distinct(kept_found(cands)),
    decreases cands.len(),
{
    if cands.len() > 0 {
        let prefix = cands.drop_last();
        assert(forall|i: int| 0 <= i < prefix.len() ==> prefix[i] == cands[i]);
        lemma_kept_found_distinct(prefix);
        let kf = kept_found(cands);
        let rest = kept_found(prefix);
        assert forall|i: int, j: int| 0 <= i < j < kf.len() implies kf[i].path@ != kf[j].path@ by {
            if j < rest.len() {
                assert(kf[i] == rest[i] && kf[j] == rest[j]);
            } else {
                assert(kf[j].path == cands[cands.len() - 1].0);
                assert(kf[i] == rest[i]);
                lemma_kept_found_paths(prefix, i);
                let jj = choose|jj: int|
                    0 <= jj < prefix.len() && rest[i].path == #[trigger] prefix[jj].0;
                assert(cands[jj].0@ != cands[cands.len() - 1].0@);
            }
        }
    }
}

/// Relies on walkdir::WalkDir with follow_links: every filesystem entry
/// reachable from `root`, each as its path's components. An entry that
/// cannot be read is dropped (its error carries nothing to classify; a
/// symbolic-link cycle surfaces as such an error, which keeps the walk
/// finite), and so is an entry whose path is not valid UTF-8, since its
/// components cannot be held exactly.
///
/// Which entries exist depends on the disk, so their number and names are
/// not claimed. Their paths are claimed pairwise distinct: the traversal
/// yields each node of the path tree once — every entry's path extends its
/// parent's by one component, names within one directory are unique, and a
/// directory re-reached through a link is reached under a different path —
/// and the exact component conversion preserves distinctness.
#[verifier::external_body]
fn walk_directories(root: &DirPath) -> (r: Vec<DirPath>)
    ensures
        forall|i: int, j: int| 0 <= i < j < r@.len() ==> r@[i]@ != r@[j]@,
{
    let rootpb: std::path::PathBuf = root.components().iter().collect();
    walkdir::WalkDir::new(rootpb)
        .follow_links(true)
        .into_iter()
        .filter_map(|e| e.ok())
        .filter_map(|e| {
            e.path()
                .components()
                .map(|c| c.as_os_str().to_str().map(|s| s.to_owned()))
                .collect::<Option<Vec<String>>>()
        })
        .map(DirPath::from_components)
        .collect()
}

/// Probes every walked directory: applies the detector and attempts to
/// open the accepted ones. One entry per directory, in order, its path
/// unchanged; the entry holds `Some` handle exactly when the disk accepted
/// and opened it, which is the disk's decision and so not pinned here.
pub fn open_candidates(dirs: Vec<DirPath>) -> (r: Vec<(DirPath, Option<git2::Repository>)>)
    ensures
        r@.len() == dirs@.len(),
        forall|i: int| 0 <= i < r@.len() ==> (#[trigger] r@[i].0) == dirs@[i],
{
    let ghost dv = dirs@;
    let mut dirs = dirs;
    let mut r: Vec<(DirPath, Option<git2::Repository>)> = Vec::new();
    while dirs.len() > 0
        invariant
            r@.len() + dirs@.len() == dv.len(),
            dirs@ == dv.subrange(r@.len() as int, dv.len() as int),
            forall|k: int| 0 <= k < r@.len() ==> (#[trigger] r@[k].0) == dv[k],
        decreases dirs.len(),
    {
        let dir = dirs.remove(0);
        let opened = if is_likely_git_repo(&dir) {
            match open_repository(&dir) {
                Ok(repo) => Some(repo),
                Err(_) => None,
            }
        } else {
            None
        };
        r.push((dir, opened));
        proof {
            assert(dirs@ =~= dv.subrange(r@.len() as int, dv.len() as int));
        }
    }
    r
}

/// Yields exactly the probed directories that opened, in order: every
/// accepted-and-opened directory is in the result — a candidate that
/// failed to open is dropped, and the candidates after it are still
/// yielded.
pub fn keep_opened(cands: Vec<(DirPath, Option<git2::Repository>)>) -> (r: Vec<FoundRepo>)
    ensures
        r@ == kept_found(cands@),
{
    let ghost cv = cands@;
    let mut cands = cands;
    let mut r: Vec<FoundRepo> = Vec::new();
    let ghost mut i: int = 0;
    while cands.len() > 0
        invariant
            0 <= i <= cv.len(),
            i + cands@.len() == cv.len(),
            cands@ == cv.subrange(i, cv.len() as int),
            r@ == kept_found(cv.take(i)),
        decreases cands.len(),
    {
        let (path, opened) = cands.remove(0);
        match opened {
            Some(repo) => {
                r.push(FoundRepo { path, repo });
            },
            None => {},
        }
        proof {
            i = i + 1;
            assert(cv.take(i).drop_last() =~= cv.take(i - 1));
            assert(cv.take(i).last() == cv[i - 1]);
            assert(r@ =~= kept_found(cv.take(i)));
            assert(cands@ =~= cv.subrange(i, cv.len() as int));
        }
    }
    proof {
        assert(cv.take(cv.len() as int) =~= cv);
    }
    r
}

/// Walks the tree under `root`, symbolic links followed, and yields an
/// opened handle for every directory that looks like a repository root,
/// each under a distinct path. Which directories exist, which are
/// accepted, and which open is decided by the disk; the selection logic is
/// `open_candidates` and `keep_opened`.
pub fn visit_git_repos(root: &DirPath) -> (r: Vec<FoundRepo>)
    ensures
        repo_paths_distinct(r@),
{
    let dirs = walk_directories(root);
    let ghost dv = dirs@;
    let probed = open_candidates(dirs);
    let ghost cands = probed@;
    let r = keep_opened(probed);
    proof {
        assert forall|i: int, j: int| 0 <= i < j < cands.len() implies cands[i].0@
            != cands[j].0@ by {
            assert(cands[i].0 == dv[i]);
            assert(cands[j].0 == dv[j]);
        }
        lemma_kept_found_distinct(cands);
    }
    r
}

} // verus!
