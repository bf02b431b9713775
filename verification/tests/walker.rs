use git_remote_swap::{visit_git_repos, DirPath};
use git2::Repository;
use std::collections::HashSet;
use std::{io, path};
use tempfile::Builder;

enum RepoType {
    Plain,
    WorkDir,
    Bare,
}

fn with_temp_dir<T>(run_test: T) -> io::Result<()>
where
    T: FnOnce(path::PathBuf) -> io::Result<()>,
{
    let tmp_dir = Builder::new().prefix("git-remote-swap-testrun-").tempdir()?;
    run_test(tmp_dir.path().to_path_buf())?;
    tmp_dir.close()
}

fn make_plain_dir(at: &path::PathBuf) -> io::Result<()> {
    let parent = at.parent().expect("path has a parent");
    let name = at.file_name().expect("path has a name").to_str().expect("utf-8 name");
    Builder::new().prefix(name).rand_bytes(0).keep(true).tempdir_in(parent)?;
    Ok(())
}

fn make_git_repo(which: RepoType, at: &path::PathBuf) -> io::Result<()> {
    match which {
        RepoType::Plain => {
            make_plain_dir(at)?;
        }
        RepoType::WorkDir => {
            Repository::init(at).unwrap();
        }
        RepoType::Bare => {
            Repository::init_bare(at).unwrap();
        }
    };
    Ok(())
}

fn dir_path_of(p: &path::Path) -> DirPath {
    DirPath::from_components(
        p.components().map(|c| c.as_os_str().to_string_lossy().into_owned()).collect(),
    )
}

#[test]
fn test_visit_sub_repos() {
    with_temp_dir(|temp_path| {
        make_git_repo(RepoType::Plain, &temp_path.join("not_a_repo"))?;
        make_git_repo(RepoType::WorkDir, &temp_path.join("a_repo"))?;
        make_git_repo(RepoType::Bare, &temp_path.join("a_bare_repo"))?;
        make_git_repo(
            RepoType::WorkDir,
            &temp_path.join("a").join("deeply").join("nested").join("repo"),
        )?;
        make_git_repo(
            RepoType::Bare,
            &temp_path.join("another").join("deeply").join("nested").join("bare_repo"),
        )?;

        let visited: HashSet<DirPath> = visit_git_repos(&dir_path_of(&temp_path))
            .into_iter()
            .map(|found| found.path)
            .collect();
        let assert_path_visited = |p: &path::PathBuf| {
            assert_eq!(
                visited.contains(&dir_path_of(p)),
                true,
                "Expected {:?} to be in list of visited: {:?}",
                p,
                visited
            )
        };

        assert_path_visited(&temp_path.join("a_repo").join(".git"));
        assert_path_visited(&temp_path.join("a_bare_repo"));
        assert_path_visited(
            &temp_path.join("a").join("deeply").join("nested").join("repo").join(".git"),
        );
        assert_path_visited(
            &temp_path.join("another").join("deeply").join("nested").join("bare_repo"),
        );

        assert_eq!(
            visited.len(),
            4,
            "There exist more folders interpreted as repos than expected"
        );

        Ok(())
    })
    .unwrap();
}

#[test]
fn test_keep_opened_drops_failed_but_keeps_later() {
    with_temp_dir(|temp_path| {
        let first = temp_path.join("first_repo");
        let last = temp_path.join("last_repo");
        Repository::init_bare(&first).unwrap();
        Repository::init_bare(&last).unwrap();
        let unopened = temp_path.join("looks_like_but_fails");

        let cands = vec![
            (dir_path_of(&first), Some(Repository::open(&first).unwrap())),
            (dir_path_of(&unopened), None),
            (dir_path_of(&last), Some(Repository::open(&last).unwrap())),
        ];
        let kept = git_remote_swap::keep_opened(cands);
        let paths: Vec<DirPath> = kept.into_iter().map(|f| f.path).collect();
        assert_eq!(paths, vec![dir_path_of(&first), dir_path_of(&last)]);
        Ok(())
    })
    .unwrap();
}
