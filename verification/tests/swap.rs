use git_remote_swap::{
    plan_swaps, run, DirPath, RemoteInfo, RemoteMapping, RemoteSwapConfig, ReportEvent,
};
use git2::Repository;
use std::{io, path};
use tempfile::Builder;

fn with_temp_dir<T>(run_test: T) -> io::Result<()>
where
    T: FnOnce(path::PathBuf) -> io::Result<()>,
{
    let tmp_dir = Builder::new().prefix("git-remote-swap-testrun-").tempdir()?;
    run_test(tmp_dir.path().to_path_buf())?;
    tmp_dir.close()
}

fn dir_path_of(p: &path::Path) -> DirPath {
    DirPath::from_components(
        p.components().map(|c| c.as_os_str().to_string_lossy().into_owned()).collect(),
    )
}

fn mapping_one(key: &str, value: &str) -> RemoteMapping {
    let mut m = RemoteMapping::new();
    assert!(m.insert(key.to_string(), value.to_string()));
    m
}

fn origin_url(repo_dir: &path::Path) -> String {
    let repo = Repository::open(repo_dir).unwrap();
    let remote = repo.find_remote("origin").unwrap();
    remote.url().unwrap().to_string()
}

#[test]
fn test_swap_rewrites_matching_remote() {
    with_temp_dir(|temp| {
        let repo_dir = temp.join("a_repo");
        let repo = Repository::init(&repo_dir).unwrap();
        repo.remote("origin", "https://old.example/x").unwrap();
        drop(repo);

        let cfg = RemoteSwapConfig::new(
            false,
            dir_path_of(&temp),
            mapping_one("https://old.example/x", "https://new.example/x"),
        );
        let mut report: Vec<ReportEvent> = Vec::new();
        let result = run(cfg, &mut report);
        assert!(result.is_ok());
        assert_eq!(origin_url(&repo_dir), "https://new.example/x");
        assert!(report.contains(&ReportEvent::Swap {
            name: "origin".to_string(),
            old_url: "https://old.example/x".to_string(),
            new_url: "https://new.example/x".to_string(),
        }));
        assert!(matches!(
            report[0],
            ReportEvent::RunStart { dry_run: false, mapping_len: 1, .. }
        ));
        Ok(())
    })
    .unwrap();
}

#[test]
fn test_bare_repo_without_match_reports_no_swaps() {
    with_temp_dir(|temp| {
        let repo_dir = temp.join("a_bare_repo");
        let repo = Repository::init_bare(&repo_dir).unwrap();
        repo.remote("origin", "https://elsewhere.example/y").unwrap();
        drop(repo);

        let cfg = RemoteSwapConfig::new(
            false,
            dir_path_of(&temp),
            mapping_one("https://old.example/x", "https://new.example/x"),
        );
        let mut report: Vec<ReportEvent> = Vec::new();
        let result = run(cfg, &mut report);
        assert!(result.is_ok());
        assert_eq!(origin_url(&repo_dir), "https://elsewhere.example/y");

        let found_at = report
            .iter()
            .position(|e| matches!(e, ReportEvent::FoundRepo { path } if *path == dir_path_of(&repo_dir)))
            .expect("the bare repository should be reported");
        assert_eq!(report[found_at + 1], ReportEvent::NoSwaps);
        assert!(!report.iter().any(|e| matches!(e, ReportEvent::Swap { .. })));
        Ok(())
    })
    .unwrap();
}

#[test]
fn test_dry_run_preserves_urls_but_reports_swap() {
    with_temp_dir(|temp| {
        let repo_dir = temp.join("a_repo");
        let repo = Repository::init(&repo_dir).unwrap();
        repo.remote("origin", "https://old.example/x").unwrap();
        drop(repo);

        let cfg = RemoteSwapConfig::new(
            true,
            dir_path_of(&temp),
            mapping_one("https://old.example/x", "https://new.example/x"),
        );
        let mut report: Vec<ReportEvent> = Vec::new();
        let result = run(cfg, &mut report);
        assert!(result.is_ok());
        assert_eq!(origin_url(&repo_dir), "https://old.example/x");
        assert!(report.contains(&ReportEvent::Swap {
            name: "origin".to_string(),
            old_url: "https://old.example/x".to_string(),
            new_url: "https://new.example/x".to_string(),
        }));
        Ok(())
    })
    .unwrap();
}

#[test]
fn test_swap_twice_is_idempotent() {
    with_temp_dir(|temp| {
        let repo_dir = temp.join("a_repo");
        let repo = Repository::init(&repo_dir).unwrap();
        repo.remote("origin", "https://old.example/x").unwrap();
        drop(repo);

        let first = RemoteSwapConfig::new(
            false,
            dir_path_of(&temp),
            mapping_one("https://old.example/x", "https://new.example/x"),
        );
        let mut first_report: Vec<ReportEvent> = Vec::new();
        assert!(run(first, &mut first_report).is_ok());
        assert_eq!(origin_url(&repo_dir), "https://new.example/x");

        let second = RemoteSwapConfig::new(
            false,
            dir_path_of(&temp),
            mapping_one("https://old.example/x", "https://new.example/x"),
        );
        let mut second_report: Vec<ReportEvent> = Vec::new();
        assert!(run(second, &mut second_report).is_ok());
        assert_eq!(origin_url(&repo_dir), "https://new.example/x");
        assert!(!second_report.iter().any(|e| matches!(e, ReportEvent::Swap { .. })));
        assert!(second_report.iter().any(|e| matches!(e, ReportEvent::NoSwaps)));
        Ok(())
    })
    .unwrap();
}

#[test]
fn test_exact_match_semantics() {
    let mapping = mapping_one("https://old.example/x", "https://new.example/x");
    let remotes = vec![
        RemoteInfo {
            name: "trailing_slash".to_string(),
            url: Some("https://old.example/x/".to_string()),
        },
        RemoteInfo {
            name: "other_case".to_string(),
            url: Some("https://OLD.example/x".to_string()),
        },
        RemoteInfo {
            name: "other_scheme".to_string(),
            url: Some("http://old.example/x".to_string()),
        },
        RemoteInfo { name: "exact".to_string(), url: Some("https://old.example/x".to_string()) },
        RemoteInfo { name: "unresolved".to_string(), url: None },
    ];
    let plan = plan_swaps(&mapping, &remotes);
    assert_eq!(plan.len(), 1);
    assert_eq!(plan[0].name, "exact");
    assert_eq!(plan[0].old_url, "https://old.example/x");
    assert_eq!(plan[0].new_url, "https://new.example/x");
}

#[test]
fn test_plan_swaps_keeps_remote_order() {
    let mut mapping = RemoteMapping::new();
    assert!(mapping.insert("a".to_string(), "a2".to_string()));
    assert!(mapping.insert("b".to_string(), "b2".to_string()));
    let remotes = vec![
        RemoteInfo { name: "second".to_string(), url: Some("b".to_string()) },
        RemoteInfo { name: "miss".to_string(), url: Some("c".to_string()) },
        RemoteInfo { name: "first".to_string(), url: Some("a".to_string()) },
    ];
    let plan = plan_swaps(&mapping, &remotes);
    assert_eq!(plan.len(), 2);
    assert_eq!(plan[0].name, "second");
    assert_eq!(plan[0].new_url, "b2");
    assert_eq!(plan[1].name, "first");
    assert_eq!(plan[1].new_url, "a2");
}

#[test]
fn test_mapping_insert_and_lookup() {
    let mut m = RemoteMapping::new();
    assert!(m.insert("https://a.example/r".to_string(), "https://b.example/r".to_string()));
    assert!(!m.insert("https://a.example/r".to_string(), "https://c.example/r".to_string()));
    assert_eq!(m.len(), 1);
    assert_eq!(
        m.lookup(&"https://a.example/r".to_string()),
        Some("https://b.example/r".to_string())
    );
    assert_eq!(m.lookup(&"https://a.example/r/".to_string()), None);
}

#[test]
fn test_fetch_remotes_preserves_names() {
    with_temp_dir(|temp| {
        let repo_dir = temp.join("a_repo");
        let repo = Repository::init(&repo_dir).unwrap();
        repo.remote("origin", "https://old.example/x").unwrap();
        repo.remote("upstream", "https://old.example/y").unwrap();

        let remotes = git_remote_swap::fetch_remotes(&repo).unwrap();
        let names: Vec<&str> = remotes.iter().map(|r| r.name.as_str()).collect();
        assert_eq!(names, vec!["origin", "upstream"]);
        assert_eq!(remotes[0].url.as_deref(), Some("https://old.example/x"));
        assert_eq!(remotes[1].url.as_deref(), Some("https://old.example/y"));
        Ok(())
    })
    .unwrap();
}
