use devcap::history::{
    detect_commit_type, format_relative, parse_branch_list, parse_commit_line, parse_log_output,
};

#[test]
fn format_relative_just_now() {
    let now = chrono::Local::now().timestamp();
    assert_eq!(format_relative(now, now), "just now");
}

#[test]
fn format_relative_minutes() {
    let now = chrono::Local::now().timestamp();
    let then = now - 5 * 60;
    assert_eq!(format_relative(now, then), "5m ago");
}

#[test]
fn format_relative_hours() {
    let now = chrono::Local::now().timestamp();
    let then = now - 3 * 3600;
    assert_eq!(format_relative(now, then), "3h ago");
}

#[test]
fn format_relative_days() {
    let now = chrono::Local::now().timestamp();
    let then = now - 2 * 86_400;
    assert_eq!(format_relative(now, then), "2d ago");
}

#[test]
fn relative_time_boundaries() {
    let now: i64 = 1_000_000_000;
    assert_eq!(format_relative(now, now), "just now");
    assert_eq!(format_relative(now, now - 59), "just now");
    assert_eq!(format_relative(now, now - 59 * 60), "59m ago");
    assert_eq!(format_relative(now, now - 60 * 60), "1h ago");
    assert_eq!(format_relative(now, now - 25 * 3600), "1d ago");
    assert_eq!(format_relative(now, now + 300), "just now");
}

#[test]
fn detect_feat() {
    assert_eq!(
        detect_commit_type("feat: add spinner"),
        Some("feat".to_string())
    );
}

#[test]
fn detect_fix() {
    assert_eq!(
        detect_commit_type("fix: off-by-one error"),
        Some("fix".to_string())
    );
}

#[test]
fn detect_scoped() {
    assert_eq!(
        detect_commit_type("feat(auth): add OAuth"),
        Some("feat".to_string())
    );
}

#[test]
fn detect_none_for_regular_message() {
    assert_eq!(detect_commit_type("update README"), None);
}

#[test]
fn detect_none_for_empty() {
    assert_eq!(detect_commit_type(""), None);
}

#[test]
fn detect_is_case_sensitive() {
    assert_eq!(detect_commit_type("Feat: shouting"), None);
    assert_eq!(
        detect_commit_type("  chore : spaced out"),
        Some("chore".to_string())
    );
}

#[test]
fn parse_commit_line_valid() {
    let now = chrono::Local::now();
    let now_ts = now.timestamp();
    let time_str = now.to_rfc3339();
    let line = format!("abc1234\x00feat: add feature\x00{time_str}");
    let commit = parse_commit_line(&line, now_ts);
    assert!(commit.is_some());
    let c = commit.unwrap_or_else(|| panic!("Expected Some"));
    assert_eq!(c.hash, "abc1234");
    assert_eq!(c.message, "feat: add feature");
    assert_eq!(c.commit_type, Some("feat".to_string()));
}

#[test]
fn parse_commit_line_invalid() {
    let now_ts = chrono::Local::now().timestamp();
    assert!(parse_commit_line("incomplete line", now_ts).is_none());
}

#[test]
fn parse_commit_line_fixed_timestamp() {
    // The timestamp must round through the ISO-8601 parser exactly.
    let line = "deadbee\x00docs: expand readme\x002024-01-02T03:04:05+00:00";
    let c = parse_commit_line(line, 1_704_164_645 + 120).unwrap();
    assert_eq!(c.time, 1_704_164_645);
    assert_eq!(c.relative_time, "2m ago");
    assert_eq!(c.commit_type, Some("docs".to_string()));
}

#[test]
fn parse_commit_line_bad_timestamp() {
    let line = "deadbee\x00docs: expand readme\x00not-a-time";
    assert!(parse_commit_line(line, 0).is_none());
}

#[test]
fn malformed_line_is_dropped_not_fatal() {
    let good1 = "aaa1111\x00feat: one\x002024-01-02T03:04:05+00:00";
    let bad = "bbb2222\x00missing third field";
    let good2 = "ccc3333\x00fix: two\x002024-01-02T03:00:00+00:00";
    let text = format!("{good1}\n{bad}\n{good2}\n");
    let commits = parse_log_output(&text, 1_704_200_000);
    assert_eq!(commits.len(), 2);
    assert_eq!(commits[0].hash, "aaa1111");
    assert_eq!(commits[1].hash, "ccc3333");
}

#[test]
fn empty_log_output_yields_nothing() {
    let commits = parse_log_output("", 0);
    assert!(commits.is_empty());
    let commits = parse_log_output("\n\n", 0);
    assert!(commits.is_empty());
}

#[test]
fn branch_list_trims_and_drops_blanks() {
    let names = parse_branch_list("  main\n\nfeature/x  \n");
    assert_eq!(names, vec!["main".to_string(), "feature/x".to_string()]);
}

#[test]
fn branch_list_of_empty_output_is_empty() {
    assert!(parse_branch_list("").is_empty());
}
