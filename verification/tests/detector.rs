use git_remote_swap::{classify_repo_root, is_likely_git_repo, DirPath};
use git2::Repository;
use std::{io, path};
use tempfile::Builder;

enum RepoType {
    Plain,
    WorkDir,
    Bare,
}

fn with_temp_dir<T>(run_test: T) -> io::Result<()>
where
    T: FnOnce(path::PathBuf) -> io::Result<()>,
{
    let tmp_dir = Builder::new().prefix("git-remote-swap-testrun-").tempdir()?;
    run_test(tmp_dir.path().to_path_buf())?;
    tmp_dir.close()
}

fn make_plain_dir(at: &path::PathBuf) -> io::Result<()> {
    let parent = at.parent().expect("path has a parent");
    let name = at.file_name().expect("path has a name").to_str().expect("utf-8 name");
    Builder::new().prefix(name).rand_bytes(0).keep(true).tempdir_in(parent)?;
    Ok(())
}

fn make_git_repo(which: RepoType, at: &path::PathBuf) -> io::Result<()> {
    match which {
        RepoType::Plain => {
            make_plain_dir(at)?;
        }
        RepoType::WorkDir => {
            Repository::init(at).unwrap();
        }
        RepoType::Bare => {
            Repository::init_bare(at).unwrap();
        }
    };
    Ok(())
}

fn dir_path_of(p: &path::Path) -> DirPath {
    DirPath::from_components(
        p.components().map(|c| c.as_os_str().to_string_lossy().into_owned()).collect(),
    )
}

fn test_is_likely_git_repo(repo_type: RepoType, expected: bool) {
    with_temp_dir(|temp_path| {
        let dir = temp_path.join("a_git_repo");
        make_git_repo(repo_type, &dir)?;
        assert_eq!(is_likely_git_repo(&dir_path_of(&dir)), expected);
        Ok(())
    })
    .unwrap();
}

#[test]
fn test_is_likely_git_repo_none() {
    test_is_likely_git_repo(RepoType::Plain, false)
}

#[test]
fn test_is_likely_git_repo_workdir() {
    with_temp_dir(|temp_path| {
        let dir = temp_path.join("a_git_repo");
        make_git_repo(RepoType::WorkDir, &dir)?;
        assert_eq!(is_likely_git_repo(&dir_path_of(&dir.join(".git"))), true);
        Ok(())
    })
    .unwrap();
}

#[test]
fn test_is_likely_git_repo_bare() {
    test_is_likely_git_repo(RepoType::Bare, true)
}

#[test]
fn test_classify_repo_root_rule() {
    let git_dir = DirPath::new().join("work").join(".git");
    assert!(classify_repo_root(&git_dir, false, false));
    assert!(classify_repo_root(&git_dir, true, true));
    let bare = DirPath::new().join("bare_repo");
    assert!(classify_repo_root(&bare, true, true));
    assert!(!classify_repo_root(&bare, true, false));
    assert!(!classify_repo_root(&bare, false, true));
    assert!(!classify_repo_root(&bare, false, false));
    assert!(!classify_repo_root(&DirPath::new(), false, false));
}
