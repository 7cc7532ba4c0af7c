use devcap::aggregate::{
    build_project_log, is_primary_branch, latest_commit_time, sort_branches, sort_projects,
};
use devcap::model::{BranchLog, Commit, ProjectLog};

fn make_commit(hash: &str, message: &str, time: i64) -> Commit {
    Commit {
        hash: hash.to_string(),
        message: message.to_string(),
        commit_type: None,
        time,
        relative_time: "1h ago".to_string(),
    }
}

fn make_branch(name: &str, commits: Vec<Commit>) -> BranchLog {
    BranchLog {
        name: name.to_string(),
        commits,
    }
}

#[test]
fn primary_branch_detected() {
    assert!(is_primary_branch("main"));
    assert!(is_primary_branch("master"));
    assert!(!is_primary_branch("feature/auth"));
    assert!(!is_primary_branch("develop"));
}

#[test]
fn branch_ordering() {
    let branches = vec![
        make_branch("zzz", vec![make_commit("a", "m", 10)]),
        make_branch("feature/x", vec![make_commit("b", "m", 20)]),
        make_branch("master", vec![make_commit("c", "m", 30)]),
        make_branch("main", vec![make_commit("d", "m", 40)]),
    ];
    let sorted = sort_branches(branches);
    let names: Vec<&str> = sorted.iter().map(|b| b.name.as_str()).collect();
    assert_eq!(names, vec!["main", "master", "feature/x", "zzz"]);
}

#[test]
fn build_project_drops_empty_branches_and_sorts() {
    let branches = vec![
        make_branch("dev", vec![make_commit("a", "m", 10)]),
        make_branch("empty", vec![]),
        make_branch("main", vec![make_commit("b", "m", 20)]),
    ];
    let p = build_project_log(
        "proj".to_string(),
        "/tmp/proj".to_string(),
        None,
        branches,
    )
    .unwrap();
    assert_eq!(p.project, "proj");
    assert_eq!(p.path, "/tmp/proj");
    let names: Vec<&str> = p.branches.iter().map(|b| b.name.as_str()).collect();
    assert_eq!(names, vec!["main", "dev"]);
}

#[test]
fn build_project_with_no_commits_yields_nothing() {
    let branches = vec![make_branch("main", vec![]), make_branch("dev", vec![])];
    let p = build_project_log("p".to_string(), "/p".to_string(), None, branches);
    assert!(p.is_none());
    let p = build_project_log("p".to_string(), "/p".to_string(), None, vec![]);
    assert!(p.is_none());
}

fn make_project(name: &str, head_time: i64) -> ProjectLog {
    ProjectLog {
        project: name.to_string(),
        path: format!("/tmp/{name}"),
        origin: None,
        branches: vec![make_branch("main", vec![make_commit("h", "m", head_time)])],
    }
}

#[test]
fn project_ordering_most_recent_first() {
    let t: i64 = 1_700_000_000;
    let older = make_project("older", t);
    let newer = make_project("newer", t + 3600);
    let sorted = sort_projects(vec![older, newer]);
    assert_eq!(sorted[0].project, "newer");
    assert_eq!(sorted[1].project, "older");
}

#[test]
fn latest_commit_time_takes_newest_branch_head() {
    let p = ProjectLog {
        project: "p".to_string(),
        path: "/p".to_string(),
        origin: None,
        branches: vec![
            make_branch("main", vec![make_commit("a", "m", 100), make_commit("b", "m", 900)]),
            make_branch("dev", vec![make_commit("c", "m", 250)]),
        ],
    };
    // Only branch heads count, not older commits further down the list.
    assert_eq!(latest_commit_time(&p), Some(250));
}

#[test]
fn commit_count_deduplication() {
    let p = ProjectLog {
        project: "p".to_string(),
        path: "/p".to_string(),
        origin: None,
        branches: vec![
            make_branch(
                "main",
                vec![make_commit("abc1234", "m", 10), make_commit("def5678", "m", 5)],
            ),
            make_branch("dev", vec![make_commit("abc1234", "m", 10)]),
        ],
    };
    assert_eq!(p.total_commits(), 2);
    // The per-branch lists themselves still hold the duplicate.
    assert_eq!(p.branches[0].commits.len(), 2);
    assert_eq!(p.branches[1].commits.len(), 1);
    assert_eq!(p.branches[1].commits[0].hash, "abc1234");
}

#[test]
fn latest_activity_labels() {
    let b = make_branch("main", vec![make_commit("a", "m", 10)]);
    assert_eq!(b.latest_activity(), Some("1h ago"));
    let empty = make_branch("dev", vec![]);
    assert_eq!(empty.latest_activity(), None);

    let mut newest = make_commit("n", "m", 999);
    newest.relative_time = "just now".to_string();
    let p = ProjectLog {
        project: "p".to_string(),
        path: "/p".to_string(),
        origin: None,
        branches: vec![
            make_branch("main", vec![make_commit("a", "m", 10)]),
            make_branch("dev", vec![newest]),
        ],
    };
    assert_eq!(p.latest_activity(), Some("just now"));
}
