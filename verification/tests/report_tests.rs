use devcap::model::{BranchLog, Commit, ProjectLog};
use devcap::origin::RepoOrigin;
use devcap::report::{
    color_enabled, commit_type_tag, parse_selection, pluralize, render_plain, set_color_enabled,
    strip_type_prefix, summary_line, ColorConfig, Depth, Selection,
};

fn make_commit(hash: &str, msg: &str, commit_type: Option<&str>) -> Commit {
    Commit {
        hash: hash.to_string(),
        message: msg.to_string(),
        commit_type: commit_type.map(String::from),
        time: 1_700_000_000,
        relative_time: "1h ago".to_string(),
    }
}

fn make_project(name: &str, origin: Option<RepoOrigin>) -> ProjectLog {
    ProjectLog {
        project: name.to_string(),
        path: format!("/test/{name}"),
        origin,
        branches: vec![BranchLog {
            name: "main".to_string(),
            commits: vec![
                make_commit("abc1234", "feat: add login", Some("feat")),
                make_commit("def5678", "fix: resolve crash", Some("fix")),
            ],
        }],
    }
}

#[test]
fn summary_no_commits() {
    assert_eq!(summary_line(&vec![]), "No commits found.");
}

#[test]
fn summary_one_commit_one_project() {
    let projects = vec![ProjectLog {
        project: "test".to_string(),
        path: "/test".to_string(),
        origin: None,
        branches: vec![BranchLog {
            name: "main".to_string(),
            commits: vec![make_commit("abc1234", "test", None)],
        }],
    }];
    assert_eq!(summary_line(&projects), "Found 1 commit in 1 project");
}

#[test]
fn summary_multiple() {
    let projects = vec![
        ProjectLog {
            project: "a".to_string(),
            path: "/a".to_string(),
            origin: None,
            branches: vec![BranchLog {
                name: "main".to_string(),
                commits: vec![
                    make_commit("1111111", "1", None),
                    make_commit("2222222", "2", None),
                ],
            }],
        },
        ProjectLog {
            project: "b".to_string(),
            path: "/b".to_string(),
            origin: None,
            branches: vec![BranchLog {
                name: "main".to_string(),
                commits: vec![make_commit("3333333", "3", None)],
            }],
        },
    ];
    assert_eq!(summary_line(&projects), "Found 3 commits in 2 projects");
}

#[test]
fn tag_feat_is_not_empty() {
    let commit = make_commit("abc1234", "feat: add feature", Some("feat"));
    assert!(!commit_type_tag(&commit).is_empty());
}

#[test]
fn tag_none_is_empty() {
    let commit = make_commit("abc1234", "update readme", None);
    assert!(commit_type_tag(&commit).is_empty());
}

#[test]
fn strip_prefix_removes_type() {
    assert_eq!(strip_type_prefix("feat: add feature"), "add feature");
    assert_eq!(strip_type_prefix("fix(auth): bug"), "bug");
}

#[test]
fn strip_prefix_keeps_plain_message() {
    assert_eq!(strip_type_prefix("update readme"), "update readme");
}

#[test]
fn pluralize_singular() {
    assert_eq!(pluralize("commit", 1), "commit");
    assert_eq!(pluralize("branch", 1), "branch");
}

#[test]
fn pluralize_plural() {
    assert_eq!(pluralize("commit", 0), "commits");
    assert_eq!(pluralize("commit", 5), "commits");
    assert_eq!(pluralize("branch", 2), "branches");
}

#[test]
fn plain_output_contains_no_ansi() {
    let projects = vec![make_project("my-app", None)];
    let text = render_plain(&projects, Depth::Commits, false);
    assert!(!text.contains('\x1b'));
    assert!(text.contains("my-app"));
    assert!(text.contains("main"));
    assert!(text.contains("abc1234"));
}

#[test]
fn empty_projects_returns_message() {
    let text = render_plain(&vec![], Depth::Commits, false);
    assert_eq!(text, "No commits found for the given period.");
}

#[test]
fn projects_depth_shows_summary_only() {
    let projects = vec![make_project("repo", None)];
    let text = render_plain(&projects, Depth::Projects, false);
    assert!(text.contains(":: repo"));
    assert!(text.contains("2 commits"));
    assert!(!text.contains(">> main"));
}

#[test]
fn branches_depth_shows_branches() {
    let projects = vec![make_project("repo", None)];
    let text = render_plain(&projects, Depth::Branches, false);
    assert!(text.contains(":: repo"));
    assert!(text.contains(">> main"));
    assert!(!text.contains("abc1234"));
}

#[test]
fn commits_depth_shows_full_tree() {
    let projects = vec![make_project("repo", None)];
    let text = render_plain(&projects, Depth::Commits, false);
    assert!(text.contains(":: repo"));
    assert!(text.contains(">> main"));
    assert!(text.contains("abc1234"));
    assert!(text.contains("feat - add login"));
    assert!(text.contains("fix - resolve crash"));
}

#[test]
fn origin_shown_when_enabled() {
    let projects = vec![make_project("repo", Some(RepoOrigin::GitHub))];
    let text = render_plain(&projects, Depth::Projects, true);
    assert!(text.contains("[GitHub]"));
}

#[test]
fn origin_hidden_when_disabled() {
    let projects = vec![make_project("repo", Some(RepoOrigin::GitHub))];
    let text = render_plain(&projects, Depth::Projects, false);
    assert!(!text.contains("[GitHub]"));
}

#[test]
fn commit_without_type_has_no_tag() {
    let projects = vec![ProjectLog {
        project: "test".to_string(),
        path: "/test".to_string(),
        origin: None,
        branches: vec![BranchLog {
            name: "main".to_string(),
            commits: vec![make_commit("aaa1111", "update readme", None)],
        }],
    }];
    let text = render_plain(&projects, Depth::Commits, false);
    assert!(text.contains("aaa1111 update readme"));
}

#[test]
fn color_toggle_round_trip() {
    let mut cfg = ColorConfig { enabled: false };
    assert!(!color_enabled(&cfg));
    set_color_enabled(&mut cfg, true);
    assert!(color_enabled(&cfg));
    set_color_enabled(&mut cfg, false);
    assert!(!color_enabled(&cfg));
}

#[test]
fn selection_parsing() {
    assert_eq!(parse_selection(None), Selection::Back);
    assert_eq!(parse_selection(Some(0)), Selection::Back);
    assert_eq!(parse_selection(Some(1)), Selection::ShowAll);
    assert_eq!(parse_selection(Some(2)), Selection::Index(0));
    assert_eq!(parse_selection(Some(7)), Selection::Index(5));
}
