use devcap::origin::{classify_host, detect_origin, extract_hostname, RepoOrigin};

#[test]
fn extract_hostname_https() {
    assert_eq!(
        extract_hostname("https://github.com/user/repo.git"),
        Some("github.com")
    );
    assert_eq!(
        extract_hostname("https://gitlab.com/group/project"),
        Some("gitlab.com")
    );
}

#[test]
fn extract_hostname_http() {
    assert_eq!(
        extract_hostname("http://gitea.local/org/repo"),
        Some("gitea.local")
    );
}

#[test]
fn extract_hostname_ssh_git_at() {
    assert_eq!(
        extract_hostname("git@github.com:user/repo.git"),
        Some("github.com")
    );
    assert_eq!(
        extract_hostname("git@gitlab.company.de:group/project.git"),
        Some("gitlab.company.de")
    );
}

#[test]
fn extract_hostname_ssh_scheme() {
    assert_eq!(
        extract_hostname("ssh://git@bitbucket.org/team/repo.git"),
        Some("bitbucket.org")
    );
    assert_eq!(
        extract_hostname("ssh://git@gitlab.internal:2222/group/repo.git"),
        Some("gitlab.internal")
    );
}

#[test]
fn extract_hostname_https_with_auth() {
    assert_eq!(
        extract_hostname("https://token@github.com/user/repo.git"),
        Some("github.com")
    );
}

#[test]
fn extract_hostname_empty() {
    assert_eq!(extract_hostname(""), None);
    assert_eq!(extract_hostname("not-a-url"), None);
}

#[test]
fn extract_hostname_strips_port() {
    assert_eq!(
        extract_hostname("https://gitea.local:3000/org/repo"),
        Some("gitea.local")
    );
}

#[test]
fn classify_github() {
    assert_eq!(classify_host("github.com"), RepoOrigin::GitHub);
    assert_eq!(classify_host("GitHub.com"), RepoOrigin::GitHub);
}

#[test]
fn classify_gitlab() {
    assert_eq!(classify_host("gitlab.com"), RepoOrigin::GitLab);
}

#[test]
fn classify_bitbucket() {
    assert_eq!(classify_host("bitbucket.org"), RepoOrigin::Bitbucket);
}

#[test]
fn classify_gitlab_self_hosted() {
    assert_eq!(
        classify_host("gitlab.company.de"),
        RepoOrigin::GitLabSelfHosted
    );
    assert_eq!(
        classify_host("gitlab.internal"),
        RepoOrigin::GitLabSelfHosted
    );
}

#[test]
fn classify_custom() {
    assert_eq!(
        classify_host("gitea.local"),
        RepoOrigin::Custom("gitea.local".to_string())
    );
    assert_eq!(
        classify_host("codeberg.org"),
        RepoOrigin::Custom("codeberg.org".to_string())
    );
}

#[test]
fn classify_custom_keeps_letter_case() {
    assert_eq!(
        classify_host("Gitea.Local"),
        RepoOrigin::Custom("Gitea.Local".to_string())
    );
}

#[test]
fn hostname_classification_end_to_end() {
    assert_eq!(
        detect_origin("git@github.com:user/repo.git"),
        Some(RepoOrigin::GitHub)
    );
    assert_eq!(
        detect_origin("https://gitlab.company.internal/group/repo"),
        Some(RepoOrigin::GitLabSelfHosted)
    );
    assert_eq!(
        detect_origin("ssh://git@bitbucket.org/team/repo.git"),
        Some(RepoOrigin::Bitbucket)
    );
    assert_eq!(detect_origin("mailto:someone@example.com"), None);
}

#[test]
fn origin_labels() {
    assert_eq!(RepoOrigin::GitHub.label(), "GitHub");
    assert_eq!(RepoOrigin::GitLab.label(), "GitLab");
    assert_eq!(RepoOrigin::Bitbucket.label(), "Bitbucket");
    assert_eq!(RepoOrigin::GitLabSelfHosted.label(), "GitLab (self-hosted)");
    assert_eq!(
        RepoOrigin::Custom("gitea.local".to_string()).label(),
        "gitea.local"
    );
}
