use loc_radar::catalog::{LanguageCatalog, LanguageDef, LanguageKind};
use loc_radar::chart::chart_data;
use loc_radar::scanner::FileRecord;
use loc_radar::walker::{is_repo_marker, walk, DirNode, RepoData};

fn def(name: &str, kind: LanguageKind, extensions: &[&str]) -> LanguageDef {
    LanguageDef {
        name: name.to_string(),
        kind,
        extensions: extensions.iter().map(|e| e.to_string()).collect(),
    }
}

fn sample() -> LanguageCatalog {
    LanguageCatalog::from_defs(&vec![
        def("Go", LanguageKind::Programming, &[".go"]),
        def("Rust", LanguageKind::Programming, &[".rs"]),
        def("Markdown", LanguageKind::Prose, &[".md"]),
    ])
}

/// A provenance record of `attributed` lines by `author` and `rest` lines
/// by someone else.
fn blame(author: &str, attributed: usize, rest: usize) -> Option<String> {
    let mut text = String::new();
    for _ in 0..attributed {
        text.push_str(&format!("author {author}\n\tsome line\n"));
    }
    for _ in 0..rest {
        text.push_str("author someone else\n\tsome line\n");
    }
    Some(text)
}

fn record(path: &str, blame_text: Option<String>) -> FileRecord {
    FileRecord { path: path.to_string(), blame: blame_text }
}

fn plain_dir(subdirs: Vec<DirNode>) -> DirNode {
    DirNode { subdirs, repo: None }
}

fn repo_dir(subdirs: Vec<DirNode>, files: Vec<FileRecord>) -> DirNode {
    DirNode { subdirs, repo: Some(RepoData { files }) }
}

fn authors(names: &[&str]) -> Vec<String> {
    names.iter().map(|n| n.to_string()).collect()
}

/// The tree of the end-to-end scenarios: a scan root with two sibling
/// repositories, A holding `main.go` (10 lines, 6 attributed to alice)
/// and `README.md` (20 lines, all alice), B holding `lib.rs` (4 lines,
/// all alice).
fn two_sibling_repos() -> DirNode {
    let repo_a = repo_dir(
        vec![],
        vec![record("main.go", blame("alice", 6, 4)), record("README.md", blame("alice", 20, 0))],
    );
    let repo_b = repo_dir(vec![], vec![record("lib.rs", blame("alice", 4, 0))]);
    plain_dir(vec![repo_a, repo_b])
}

#[test]
fn the_marker_directory_is_recognized_by_name() {
    assert!(is_repo_marker(".git"));
    assert!(!is_repo_marker("git"));
    assert!(!is_repo_marker(".gitignore"));
    assert!(!is_repo_marker("src"));
}

#[test]
fn a_tree_without_repositories_yields_nothing() {
    let tree = plain_dir(vec![plain_dir(vec![]), plain_dir(vec![plain_dir(vec![])])]);
    let r = walk(&tree, &authors(&["alice"]), &sample(), None, 0);
    assert!(r.is_none());
}

#[test]
fn two_sibling_repositories_aggregate_per_language() {
    let tree = two_sibling_repos();
    let r = walk(&tree, &authors(&["alice"]), &sample(), None, 0).expect("repositories found");
    assert_eq!(r.get(&"Go".to_string()), Some(6));
    assert_eq!(r.get(&"Rust".to_string()), Some(4));
    // README.md is of Prose kind and contributes no entry.
    assert_eq!(r.get(&"Markdown".to_string()), None);
    assert_eq!(r.len(), 2);
}

#[test]
fn an_unmatched_author_set_yields_an_empty_aggregate_and_no_chart() {
    let tree = two_sibling_repos();
    let r = walk(&tree, &authors(&["bob"]), &sample(), None, 0).expect("repositories found");
    assert_eq!(r.len(), 0);
    // Nothing to render: the chart stage is skipped, not an error.
    assert!(chart_data(&r, 10).is_none());
}

#[test]
fn a_zero_depth_budget_prunes_repositories_below_the_root() {
    let below = repo_dir(vec![], vec![record("lib.rs", blame("alice", 4, 0))]);
    let tree = repo_dir(vec![below], vec![record("main.go", blame("alice", 6, 0))]);
    let r = walk(&tree, &authors(&["alice"]), &sample(), Some(0), 0)
        .expect("the root repository is within the budget");
    assert_eq!(r.get(&"Go".to_string()), Some(6));
    assert_eq!(r.get(&"Rust".to_string()), None);
    assert_eq!(r.len(), 1);
}

#[test]
fn a_zero_depth_budget_with_only_deeper_repositories_yields_nothing() {
    let below = repo_dir(vec![], vec![record("lib.rs", blame("alice", 4, 0))]);
    let tree = plain_dir(vec![below]);
    let r = walk(&tree, &authors(&["alice"]), &sample(), Some(0), 0);
    assert!(r.is_none());
}

#[test]
fn a_sufficient_depth_budget_reaches_a_deeper_repository() {
    let below = repo_dir(vec![], vec![record("lib.rs", blame("alice", 4, 0))]);
    let tree = plain_dir(vec![below]);
    let r = walk(&tree, &authors(&["alice"]), &sample(), Some(1), 0).expect("within the budget");
    assert_eq!(r.get(&"Rust".to_string()), Some(4));
}

#[test]
fn a_nested_repository_is_counted_once_and_merged() {
    // A repository rooted inside another repository's working tree: both
    // are scanned independently and merged; nothing is double-counted.
    let inner = repo_dir(vec![], vec![record("b.go", blame("alice", 2, 0))]);
    let outer = repo_dir(vec![inner], vec![record("a.go", blame("alice", 3, 0))]);
    let r = walk(&outer, &authors(&["alice"]), &sample(), None, 0).expect("repositories found");
    assert_eq!(r.get(&"Go".to_string()), Some(5));
    assert_eq!(r.len(), 1);
}
