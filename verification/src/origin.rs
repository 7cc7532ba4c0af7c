//! The origin classifier: extracts a hostname from a configured remote URL
//! and classifies the hosting provider.

use vstd::prelude::*;

use crate::text::{after_last, after_last_exec, contains_seq, contains_str, lower_seq, take_until, take_until_exec, to_lower};

verus! {

/// The classified hosting provider of a repository's remote.
#[derive(Debug, Clone)]
pub enum RepoOrigin {
    GitHub,
    GitLab,
    Bitbucket,
    GitLabSelfHosted,
    Custom(String),
}

impl PartialEq for RepoOrigin {
    fn eq(&self, other: &RepoOrigin) -> (r: bool) {
        match self {
            RepoOrigin::GitHub => match other {
                RepoOrigin::GitHub => true,
                _ => false,
            },
            RepoOrigin::GitLab => match other {
                RepoOrigin::GitLab => true,
                _ => false,
            },
            RepoOrigin::Bitbucket => match other {
                RepoOrigin::Bitbucket => true,
                _ => false,
            },
            RepoOrigin::GitLabSelfHosted => match other {
                RepoOrigin::GitLabSelfHosted => true,
                _ => false,
            },
            RepoOrigin::Custom(a) => match other {
                RepoOrigin::Custom(b) => *a == *b,
                _ => false,
            },
        }
    }
}

impl vstd::std_specs::cmp::PartialEqSpecImpl for RepoOrigin {
    open spec fn obeys_eq_spec() -> bool {
        true
    }

    open spec fn eq_spec(&self, other: &RepoOrigin) -> bool {
        match *self {
            RepoOrigin::GitHub => *other is GitHub,
            RepoOrigin::GitLab => *other is GitLab,
            RepoOrigin::Bitbucket => *other is Bitbucket,
            RepoOrigin::GitLabSelfHosted => *other is GitLabSelfHosted,
            RepoOrigin::Custom(a) => match *other {
                RepoOrigin::Custom(b) => a@ == b@,
                _ => false,
            },
        }
    }
}

/// A provider classification at the specification level; `Custom` carries
/// the hostname's characters.
pub enum OriginLabel {
    GitHub,
    GitLab,
    Bitbucket,
    GitLabSelfHosted,
    Custom(Seq<char>),
}

/// Whether the executable origin value carries the given classification.
pub open spec fn origin_is(o: RepoOrigin, l: OriginLabel) -> bool {
    match (o, l) {
        (RepoOrigin::GitHub, OriginLabel::GitHub) => true,
        (RepoOrigin::GitLab, OriginLabel::GitLab) => true,
        (RepoOrigin::Bitbucket, OriginLabel::Bitbucket) => true,
        (RepoOrigin::GitLabSelfHosted, OriginLabel::GitLabSelfHosted) => true,
        (RepoOrigin::Custom(a), OriginLabel::Custom(b)) => a@ == b,
        _ => false,
    }
}

/// Hostname classification, case-insensitively: the three well-known hosts
/// exactly, any other hostname containing `gitlab` as self-hosted, and
/// everything else as custom (carrying the hostname as given).
pub open spec fn classify_spec(h: Seq<char>) -> OriginLabel {
    let lower = lower_seq(h);
    if lower == "github.com"@ {
        OriginLabel::GitHub
    } else if lower == "gitlab.com"@ {
        OriginLabel::GitLab
    } else if lower == "bitbucket.org"@ {
        OriginLabel::Bitbucket
    } else if contains_seq(lower, "gitlab"@) {
        OriginLabel::GitLabSelfHosted
    } else {
        OriginLabel::Custom(h)
    }
}

/// Classifies an extracted hostname.
pub fn classify_host(hostname: &str) -> (r: RepoOrigin)
    ensures
        origin_is(r, classify_spec(hostname@)),
{
    let lower = to_lower(hostname);
    let lower_ref: &str = lower.as_str();
    if crate::text::str_eq(lower_ref, "github.com") {
        RepoOrigin::GitHub
    } else if crate::text::str_eq(lower_ref, "gitlab.com") {
        RepoOrigin::GitLab
    } else if crate::text::str_eq(lower_ref, "bitbucket.org") {
        RepoOrigin::Bitbucket
    } else if contains_str(lower_ref, "gitlab") {
        RepoOrigin::GitLabSelfHosted
    } else {
        RepoOrigin::Custom(hostname.to_owned())
    }
}

/// The display label of a classified origin.
pub open spec fn origin_label(o: RepoOrigin) -> Seq<char> {
    match o {
        RepoOrigin::GitHub => "GitHub"@,
        RepoOrigin::GitLab => "GitLab"@,
        RepoOrigin::Bitbucket => "Bitbucket"@,
        RepoOrigin::GitLabSelfHosted => "GitLab (self-hosted)"@,
        RepoOrigin::Custom(h) => h@,
    }
}

impl RepoOrigin {
    /// The human-readable provider name; a custom origin shows its hostname.
    pub fn label(&self) -> (r: String)
        ensures
            r@ == origin_label(*self),
    {
        match self {
            RepoOrigin::GitHub => String::from_str("GitHub"),
            RepoOrigin::GitLab => String::from_str("GitLab"),
            RepoOrigin::Bitbucket => String::from_str("Bitbucket"),
            RepoOrigin::GitLabSelfHosted => String::from_str("GitLab (self-hosted)"),
            RepoOrigin::Custom(h) => h.clone(),
        }
    }
}

/// The hostname a remote URL names, under the three recognized shapes:
/// SCP-like `user@host:path`, `ssh://[user@]host[:port]/path`, and
/// `http(s)://[user@]host[:port]/path`. Other shapes yield nothing.
pub open spec fn host_of_url(u: Seq<char>) -> Option<Seq<char>> {
    if "git@"@.is_prefix_of(u) {
        Some(take_until(u.skip(4), ':'))
    } else if "ssh://"@.is_prefix_of(u) {
        Some(host_of_authority(u.skip(6)))
    } else if "https://"@.is_prefix_of(u) {
        Some(host_of_authority(u.skip(8)))
    } else if "http://"@.is_prefix_of(u) {
        Some(host_of_authority(u.skip(7)))
    } else {
        None
    }
}

/// The host part of `authority[/path...]`: what follows the last `@`, cut
/// at the first `/` and then at the first `:` (dropping any port).
pub open spec fn host_of_authority(rest: Seq<char>) -> Seq<char> {
    take_until(take_until(after_last(rest, '@'), '/'), ':')
}

/// Checks whether `prefix` starts `s`, and slices it off.
fn strip_prefix_exec<'a>(s: &'a str, prefix: &str) -> (r: Option<&'a str>)
    ensures
        r is Some <==> prefix@.is_prefix_of(s@),
        r is Some ==> r->0@ == s@.skip(prefix@.len() as int),
{
    let pn = prefix.unicode_len();
    let n = s.unicode_len();
    if pn > n {
        return None;
    }
    let head = s.substring_char(0, pn);
    if crate::text::str_eq(head, prefix) {
        proof {
            assert(s@.subrange(0, pn as int) =~= s@.take(pn as int));
            assert(prefix@.is_prefix_of(s@));
            assert(s@.subrange(pn as int, n as int) =~= s@.skip(pn as int));
        }
        Some(s.substring_char(pn, n))
    } else {
        proof {
            assert(s@.subrange(0, pn as int) =~= s@.take(pn as int));
        }
        None
    }
}

/// Slices the host out of `authority[/path...]`.
fn host_of_authority_exec<'a>(rest: &'a str) -> (r: &'a str)
    ensures
        r@ == host_of_authority(rest@),
{
    take_until_exec(take_until_exec(after_last_exec(rest, '@'), '/'), ':')
}

/// Extracts the hostname of a remote URL, or nothing when the URL matches
/// no recognized shape.
pub fn extract_hostname<'a>(url: &'a str) -> (r: Option<&'a str>)
    ensures
        r is Some <==> host_of_url(url@) is Some,
        r matches Some(h) ==> h@ == host_of_url(url@)->0,
{
    proof {
        reveal_strlit("git@");
        reveal_strlit("ssh://");
        reveal_strlit("https://");
        reveal_strlit("http://");
        assert("git@"@.len() == 4 && "ssh://"@.len() == 6 && "https://"@.len() == 8
            && "http://"@.len() == 7);
    }
    if let Some(rest) = strip_prefix_exec(url, "git@") {
        return Some(take_until_exec(rest, ':'));
    }
    if let Some(rest) = strip_prefix_exec(url, "ssh://") {
        return Some(host_of_authority_exec(rest));
    }
    if let Some(rest) = strip_prefix_exec(url, "https://") {
        return Some(host_of_authority_exec(rest));
    }
    if let Some(rest) = strip_prefix_exec(url, "http://") {
        return Some(host_of_authority_exec(rest));
    }
    None
}

/// Classifies the provider a remote URL points at; an unrecognizable URL
/// yields no origin.
pub fn detect_origin(url: &str) -> (r: Option<RepoOrigin>)
    ensures
        r is Some <==> host_of_url(url@) is Some,
        r matches Some(o) ==> origin_is(o, classify_spec(host_of_url(url@)->0)),
{
    match extract_hostname(url) {
        Some(host) => Some(classify_host(host)),
        None => None,
    }
}

} // verus!
