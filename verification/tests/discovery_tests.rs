use devcap::discovery::{find_repos, is_skipped_dir, DirTree};

fn dir(name: &str, subdirs: Vec<DirTree>) -> DirTree {
    DirTree {
        name: name.to_string(),
        subdirs,
    }
}

fn repo(name: &str) -> DirTree {
    dir(name, vec![dir(".git", vec![])])
}

#[test]
fn denylist_names() {
    assert!(is_skipped_dir("node_modules"));
    assert!(is_skipped_dir("vendor"));
    assert!(is_skipped_dir("target"));
    assert!(is_skipped_dir(".bundle"));
    assert!(is_skipped_dir("Pods"));
    assert!(is_skipped_dir(".build"));
    assert!(is_skipped_dir("dist"));
    assert!(is_skipped_dir("build"));
    assert!(is_skipped_dir(".next"));
    assert!(is_skipped_dir(".cache"));
    assert!(!is_skipped_dir("src"));
    assert!(!is_skipped_dir("builds"));
}

#[test]
fn repo_nested_in_denylisted_dir_is_not_discovered() {
    let tree = dir(
        "root",
        vec![
            dir("node_modules", vec![repo("hidden-repo")]),
            repo("real-repo"),
        ],
    );
    let found = find_repos(&tree);
    assert_eq!(found, vec![vec!["real-repo".to_string()]]);
}

#[test]
fn root_itself_can_be_a_repo() {
    let tree = repo("workdir");
    let found = find_repos(&tree);
    assert_eq!(found, vec![Vec::<String>::new()]);
}

#[test]
fn walk_does_not_descend_below_a_repo_root() {
    // A repository containing another repository: only the outer one is
    // reported, since the walk stops at the first marker.
    let tree = dir(
        "root",
        vec![dir(
            "outer",
            vec![dir(".git", vec![]), repo("inner")],
        )],
    );
    let found = find_repos(&tree);
    assert_eq!(found, vec![vec!["outer".to_string()]]);
}

#[test]
fn deep_nesting_is_walked() {
    let tree = dir(
        "root",
        vec![dir("a", vec![dir("b", vec![repo("deep")])]), repo("top")],
    );
    let found = find_repos(&tree);
    assert_eq!(
        found,
        vec![
            vec!["a".to_string(), "b".to_string(), "deep".to_string()],
            vec!["top".to_string()],
        ]
    );
}

#[test]
fn same_named_repos_under_different_parents_stay_distinct() {
    let tree = dir(
        "root",
        vec![dir("a", vec![repo("x")]), dir("b", vec![repo("x")])],
    );
    let found = find_repos(&tree);
    assert_eq!(
        found,
        vec![
            vec!["a".to_string(), "x".to_string()],
            vec!["b".to_string(), "x".to_string()],
        ]
    );
}

#[test]
fn empty_tree_finds_nothing() {
    let tree = dir("root", vec![dir("src", vec![]), dir("docs", vec![])]);
    assert!(find_repos(&tree).is_empty());
}

#[test]
fn denylisted_root_reports_nothing() {
    let tree = dir("target", vec![repo("inside")]);
    assert!(find_repos(&tree).is_empty());
}
