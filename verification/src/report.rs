//! Plain-text reporting over the assembled model: the summary line, the
//! ANSI-free rendering used for clipboard export, and the small helpers the
//! interactive browser and renderers share.

use vstd::prelude::*;

use crate::model::{
    branch_seq_hashes, newest_head, BranchLog, Commit, ProjectLog,
};
use crate::origin::origin_label;
use crate::text::{dec_rep, find_char, lemma_take_until_at, take_until, trim_start, trim_start_spec};

verus! {

/// How deep the rendered report goes.
#[derive(Clone, Copy, Debug, PartialEq, Eq, Structural)]
pub enum Depth {
    /// Only project names with a summary.
    Projects,
    /// Projects and branches.
    Branches,
    /// Projects, branches and commits.
    Commits,
}

/// Whether the terminal renderer may emit color; threaded explicitly into
/// the rendering entry points instead of living in hidden process state.
#[derive(Clone, Copy, Debug, PartialEq, Eq, Structural)]
pub struct ColorConfig {
    pub enabled: bool,
}

/// Turns colored rendering on or off.
pub fn set_color_enabled(config: &mut ColorConfig, enabled: bool)
    ensures
        final(config).enabled == enabled,
{
    config.enabled = enabled;
}

/// Whether colored rendering is on.
pub fn color_enabled(config: &ColorConfig) -> (r: bool)
    ensures
        r == config.enabled,
{
    config.enabled
}

/// One choice in the interactive drill-down menus.
#[derive(Clone, Copy, Debug, PartialEq, Eq, Structural)]
pub enum Selection {
    Back,
    ShowAll,
    Index(usize),
}

/// Maps a menu answer to a selection: dismissal or the first entry goes
/// back, the second entry shows everything, later entries index the listed
/// items.
pub fn parse_selection(result: Option<usize>) -> (r: Selection)
    ensures
        match result {
            Option::None => r == Selection::Back,
            Option::Some(j) => if j == 0 {
                r == Selection::Back
            } else if j == 1 {
                r == Selection::ShowAll
            } else {
                r == Selection::Index((j - 2) as usize)
            },
        },
{
    match result {
        Option::Some(0) | Option::None => Selection::Back,
        Option::Some(1) => Selection::ShowAll,
        Option::Some(i) => Selection::Index(i - 2),
    }
}

/// The plural form: unchanged for one, `branches` for `branch`, else an
/// appended `s`.
pub open spec fn pluralize_spec(word: Seq<char>, count: nat) -> Seq<char> {
    if count == 1 {
        word
    } else if word == "branch"@ {
        "branches"@
    } else {
        word + "s"@
    }
}

/// Pluralizes a count noun.
pub fn pluralize(word: &str, count: usize) -> (r: String)
    ensures
        r@ == pluralize_spec(word@, count as nat),
{
    if count == 1 {
        return word.to_owned();
    }
    if crate::text::str_eq(word, "branch") {
        return String::from_str("branches");
    }
    word.to_owned().concat("s")
}

/// The displayed message: everything after the first `:`, leading
/// whitespace dropped; a subject without `:` is shown unchanged.
pub open spec fn strip_type_prefix_spec(m: Seq<char>) -> Seq<char> {
    let pre = take_until(m, ':');
    if pre.len() == m.len() {
        m
    } else {
        trim_start_spec(m.skip(pre.len() as int + 1))
    }
}

/// Strips a conventional-commit prefix off a displayed subject line.
pub fn strip_type_prefix<'a>(message: &'a str) -> (r: &'a str)
    ensures
        r@ == strip_type_prefix_spec(message@),
{
    let n = message.unicode_len();
    match find_char(message, ':') {
        Some(i) => {
            proof {
                lemma_take_until_at(message@, ':', i as int);
                assert(message@.subrange(i + 1, n as int) =~= message@.skip(i + 1));
            }
            trim_start(message.substring_char(i + 1, n))
        },
        None => {
            proof {
                lemma_take_until_at(message@, ':', n as int);
                assert(message@.take(n as int) =~= message@);
            }
            message
        },
    }
}

/// The plain tag of a commit: its type when classified, empty otherwise.
pub open spec fn commit_tag_spec(c: Commit) -> Seq<char> {
    match c.commit_type {
        Option::Some(t) => t@,
        Option::None => Seq::empty(),
    }
}

/// The plain (uncolored) type tag of a commit.
pub fn commit_type_tag(commit: &Commit) -> (r: String)
    ensures
        r@ == commit_tag_spec(*commit),
{
    match &commit.commit_type {
        Option::Some(t) => t.clone(),
        Option::None => String::new(),
    }
}

/// The distinct-hash commit count summed over the projects.
pub open spec fn total_across(ps: Seq<ProjectLog>) -> nat
    decreases ps.len(),
{
    if ps.len() == 0 {
        0
    } else {
        total_across(ps.drop_last()) + branch_seq_hashes(ps.last().branches@).to_set().len()
    }
}

/// Counting a prefix of the projects never exceeds counting them all.
proof fn lemma_total_across_prefix_le(ps: Seq<ProjectLog>, i: int)
    requires
        0 <= i <= ps.len(),
    ensures
        total_across(ps.take(i)) <= total_across(ps),
    decreases ps.len() - i,
{
    if i < ps.len() {
        assert(ps.take(i + 1).drop_last() =~= ps.take(i));
        assert(ps.take(i + 1).last() == ps[i]);
        assert(total_across(ps.take(i)) <= total_across(ps.take(i + 1)));
        lemma_total_across_prefix_le(ps, i + 1);
    } else {
        assert(ps.take(i) =~= ps);
    }
}

/// The one-line summary: total commits (deduplicated per project) and
/// project count, with singular and plural forms.
pub open spec fn summary_spec(ps: Seq<ProjectLog>) -> Seq<char> {
    let c = total_across(ps);
    let p = ps.len();
    if c == 0 {
        "No commits found."@
    } else {
        "Found "@ + dec_rep(c) + (if c == 1 {
            " commit in "@
        } else {
            " commits in "@
        }) + dec_rep(p) + (if p == 1 {
            " project"@
        } else {
            " projects"@
        })
    }
}

/// Renders the summary line shown after collection.
pub fn summary_line(projects: &Vec<ProjectLog>) -> (r: String)
    requires
        total_across(projects@) <= u64::MAX,
    ensures
        r@ == summary_spec(projects@),
{
    let mut total: u64 = 0;
    let mut i: usize = 0;
    while i < projects.len()
        invariant
            i <= projects@.len(),
            total == total_across(projects@.take(i as int)),
            total_across(projects@) <= u64::MAX,
        decreases projects@.len() - i,
    {
        let c = projects[i].total_commits();
        proof {
            assert(projects@.take(i + 1).drop_last() =~= projects@.take(i as int));
            assert(projects@.take(i + 1).last() == projects@[i as int]);
            lemma_total_across_prefix_le(projects@, i + 1);
        }
        total = total + (c as u64);
        i = i + 1;
    }
    proof {
        assert(projects@.take(projects@.len() as int) =~= projects@);
    }
    if total == 0 {
        return String::from_str("No commits found.");
    }
    let mut out = String::from_str("Found ");
    crate::text::append_dec(&mut out, total);
    if total == 1 {
        out.append(" commit in ");
    } else {
        out.append(" commits in ");
    }
    crate::text::append_dec(&mut out, projects.len() as u64);
    if projects.len() == 1 {
        out.append(" project");
    } else {
        out.append(" projects");
    }
    proof {
        assert(out@ =~= summary_spec(projects@));
    }
    out
}

/// The origin suffix shown after a project name, when requested and known.
pub open spec fn origin_suffix_spec(p: ProjectLog, show_origin: bool) -> Seq<char> {
    if !show_origin {
        Seq::empty()
    } else {
        match p.origin {
            Option::Some(o) => " ["@ + origin_label(o) + "]"@,
            Option::None => Seq::empty(),
        }
    }
}

/// Renders the origin suffix of a project line.
fn origin_suffix(project: &ProjectLog, show_origin: bool) -> (r: String)
    ensures
        r@ == origin_suffix_spec(*project, show_origin),
{
    if !show_origin {
        return String::new();
    }
    match &project.origin {
        Option::Some(o) => {
            let mut out = String::from_str(" [");
            out.append(o.label().as_str());
            out.append("]");
            proof {
                assert(out@ =~= origin_suffix_spec(*project, show_origin));
            }
            out
        },
        Option::None => String::new(),
    }
}

/// The project's latest-activity label, `-` when undetermined.
pub open spec fn latest_label_project(p: ProjectLog) -> Seq<char> {
    match newest_head(p.branches@) {
        Option::Some(h) => h.1,
        Option::None => "-"@,
    }
}

/// The branch's latest-activity label, `-` when it has no commits.
pub open spec fn latest_label_branch(b: BranchLog) -> Seq<char> {
    if b.commits@.len() > 0 {
        b.commits@[0].relative_time@
    } else {
        "-"@
    }
}

/// One commit line of the full rendering.
pub open spec fn commit_line_spec(c: Commit) -> Seq<char> {
    let tag = match c.commit_type {
        Option::Some(t) => t@ + " - "@,
        Option::None => Seq::empty(),
    };
    "    * "@ + c.hash@ + " "@ + tag + strip_type_prefix_spec(c.message@) + "  "@
        + c.relative_time@ + "\n"@
}

/// The commit lines of one branch, newest first.
pub open spec fn commits_block_spec(cs: Seq<Commit>) -> Seq<char>
    decreases cs.len(),
{
    if cs.len() == 0 {
        Seq::empty()
    } else {
        commit_line_spec(cs.first()) + commits_block_spec(cs.drop_first())
    }
}

/// One branch of the full rendering: its header line and its commits.
pub open spec fn branch_full_spec(b: BranchLog) -> Seq<char> {
    "  >> "@ + b.name@ + "\n"@ + commits_block_spec(b.commits@)
}

/// One branch of the branches-depth rendering: a header with count and
/// latest activity.
pub open spec fn branch_summary_spec(b: BranchLog) -> Seq<char> {
    "  >> "@ + b.name@ + "  ("@ + dec_rep(b.commits@.len()) + " commits, "@ + latest_label_branch(
        b,
    ) + ")\n"@
}

/// The branch blocks of one project at full depth.
pub open spec fn branches_full_spec(bs: Seq<BranchLog>) -> Seq<char>
    decreases bs.len(),
{
    if bs.len() == 0 {
        Seq::empty()
    } else {
        branch_full_spec(bs.first()) + branches_full_spec(bs.drop_first())
    }
}

/// The branch lines of one project at branches depth.
pub open spec fn branches_summary_spec(bs: Seq<BranchLog>) -> Seq<char>
    decreases bs.len(),
{
    if bs.len() == 0 {
        Seq::empty()
    } else {
        branch_summary_spec(bs.first()) + branches_summary_spec(bs.drop_first())
    }
}

/// One project at projects depth: a single line with counts and activity.
pub open spec fn project_summary_spec(p: ProjectLog, show_origin: bool) -> Seq<char> {
    ":: "@ + p.project@ + origin_suffix_spec(p, show_origin) + "  ("@ + dec_rep(
        branch_seq_hashes(p.branches@).to_set().len(),
    ) + " commits, "@ + dec_rep(p.branches@.len()) + " branches, "@ + latest_label_project(p)
        + ")\n"@
}

/// One project at branches depth.
pub open spec fn project_branches_spec(p: ProjectLog, show_origin: bool) -> Seq<char> {
    ":: "@ + p.project@ + origin_suffix_spec(p, show_origin) + "  ("@ + latest_label_project(p)
        + ")\n"@ + branches_summary_spec(p.branches@)
}

/// One project at full depth.
pub open spec fn project_full_spec(p: ProjectLog, show_origin: bool) -> Seq<char> {
    ":: "@ + p.project@ + origin_suffix_spec(p, show_origin) + "\n"@ + branches_full_spec(
        p.branches@,
    )
}

/// One project block at the requested depth.
pub open spec fn project_block_spec(p: ProjectLog, depth: Depth, show_origin: bool) -> Seq<char> {
    match depth {
        Depth::Projects => project_summary_spec(p, show_origin),
        Depth::Branches => project_branches_spec(p, show_origin),
        Depth::Commits => project_full_spec(p, show_origin),
    }
}

/// The blank-line separator printed before every project block after the
/// first, at any depth below the one-line-per-project summary.
pub open spec fn block_sep_spec(depth: Depth) -> Seq<char> {
    if depth is Projects {
        Seq::empty()
    } else {
        "\n"@
    }
}

/// The project blocks after the first, each preceded by the separator.
pub open spec fn render_rest_spec(ps: Seq<ProjectLog>, depth: Depth, show_origin: bool) -> Seq<
    char,
>
    decreases ps.len(),
{
    if ps.len() == 0 {
        Seq::empty()
    } else {
        block_sep_spec(depth) + project_block_spec(ps.first(), depth, show_origin)
            + render_rest_spec(ps.drop_first(), depth, show_origin)
    }
}

/// The whole plain rendering: a notice when there is nothing to report,
/// else the project blocks in order with separators between them.
pub open spec fn render_plain_spec(ps: Seq<ProjectLog>, depth: Depth, show_origin: bool) -> Seq<
    char,
> {
    if ps.len() == 0 {
        "No commits found for the given period."@
    } else {
        project_block_spec(ps.first(), depth, show_origin) + render_rest_spec(
            ps.drop_first(),
            depth,
            show_origin,
        )
    }
}

/// Appends the commit lines of one branch.
fn append_commits(out: &mut String, commits: &Vec<Commit>)
    ensures
        final(out)@ == old(out)@ + commits_block_spec(commits@),
{
    proof {
        assert(commits@.skip(0) =~= commits@);
    }
    let mut i: usize = 0;
    while i < commits.len()
        invariant
            i <= commits@.len(),
            old(out)@ + commits_block_spec(commits@) == out@ + commits_block_spec(
                commits@.skip(i as int),
            ),
        decreases commits@.len() - i,
    {
        let ghost before = out@;
        let c = &commits[i];
        out.append("    * ");
        out.append(c.hash.as_str());
        out.append(" ");
        match &c.commit_type {
            Option::Some(t) => {
                out.append(t.as_str());
                out.append(" - ");
            },
            Option::None => {},
        }
        out.append(strip_type_prefix(c.message.as_str()));
        out.append("  ");
        out.append(c.relative_time.as_str());
        out.append("\n");
        proof {
            assert(out@ =~= before + commit_line_spec(commits@[i as int]));
            assert(commits@.skip(i as int).first() == commits@[i as int]);
            assert(commits@.skip(i as int).drop_first() =~= commits@.skip(i + 1));
            assert(old(out)@ + commits_block_spec(commits@) =~= out@ + commits_block_spec(
                commits@.skip(i + 1),
            ));
        }
        i = i + 1;
    }
    proof {
        assert(commits@.skip(commits@.len() as int) =~= Seq::<Commit>::empty());
        assert(old(out)@ + commits_block_spec(commits@) =~= out@);
    }
}

/// Appends the project header line start: `:: name[origin]`.
fn append_project_header(out: &mut String, project: &ProjectLog, show_origin: bool)
    ensures
        final(out)@ == old(out)@ + ":: "@ + project.project@ + origin_suffix_spec(
            *project,
            show_origin,
        ),
{
    out.append(":: ");
    out.append(project.project.as_str());
    let suffix = origin_suffix(project, show_origin);
    out.append(suffix.as_str());
}

/// Appends the project's latest-activity label, `-` when undetermined.
fn append_latest_label(out: &mut String, project: &ProjectLog)
    ensures
        final(out)@ == old(out)@ + latest_label_project(*project),
{
    match project.latest_activity() {
        Option::Some(lab) => out.append(lab),
        Option::None => out.append("-"),
    }
}

/// Appends one project at projects depth.
fn append_project_summary(out: &mut String, project: &ProjectLog, show_origin: bool)
    ensures
        final(out)@ == old(out)@ + project_summary_spec(*project, show_origin),
{
    append_project_header(&mut *out, project, show_origin);
    out.append("  (");
    crate::text::append_dec(&mut *out, project.total_commits() as u64);
    out.append(" commits, ");
    crate::text::append_dec(&mut *out, project.branches.len() as u64);
    out.append(" branches, ");
    append_latest_label(&mut *out, project);
    out.append(")\n");
    proof {
        assert(out@ =~= old(out)@ + project_summary_spec(*project, show_origin));
    }
}

/// Appends one branch line at branches depth.
fn append_branch_summary(out: &mut String, b: &BranchLog)
    ensures
        final(out)@ == old(out)@ + branch_summary_spec(*b),
{
    out.append("  >> ");
    out.append(b.name.as_str());
    out.append("  (");
    crate::text::append_dec(&mut *out, b.commits.len() as u64);
    out.append(" commits, ");
    match b.latest_activity() {
        Option::Some(lab) => out.append(lab),
        Option::None => out.append("-"),
    }
    out.append(")\n");
    proof {
        assert(out@ =~= old(out)@ + branch_summary_spec(*b));
    }
}

/// Appends one project at branches depth.
fn append_project_branches(out: &mut String, project: &ProjectLog, show_origin: bool)
    ensures
        final(out)@ == old(out)@ + project_branches_spec(*project, show_origin),
{
    append_project_header(&mut *out, project, show_origin);
    out.append("  (");
    append_latest_label(&mut *out, project);
    out.append(")\n");
    let ghost header_end = out@;
    proof {
        assert(project.branches@.skip(0) =~= project.branches@);
    }
    let mut bi: usize = 0;
    while bi < project.branches.len()
        invariant
            bi <= project.branches@.len(),
            header_end + branches_summary_spec(project.branches@) == out@ + branches_summary_spec(
                project.branches@.skip(bi as int),
            ),
        decreases project.branches@.len() - bi,
    {
        let ghost before = out@;
        append_branch_summary(&mut *out, &project.branches[bi]);
        proof {
            assert(project.branches@.skip(bi as int).first() == project.branches@[bi as int]);
            assert(project.branches@.skip(bi as int).drop_first() =~= project.branches@.skip(
                bi + 1,
            ));
            assert(header_end + branches_summary_spec(project.branches@) =~= out@
                + branches_summary_spec(project.branches@.skip(bi + 1)));
        }
        bi = bi + 1;
    }
    proof {
        assert(project.branches@.skip(project.branches@.len() as int) =~= Seq::<
            BranchLog,
        >::empty());
        assert(out@ =~= old(out)@ + project_branches_spec(*project, show_origin));
    }
}

/// Appends one project at full depth.
fn append_project_full(out: &mut String, project: &ProjectLog, show_origin: bool)
    ensures
        final(out)@ == old(out)@ + project_full_spec(*project, show_origin),
{
    append_project_header(&mut *out, project, show_origin);
    out.append("\n");
    let ghost header_end = out@;
    proof {
        assert(project.branches@.skip(0) =~= project.branches@);
    }
    let mut bi: usize = 0;
    while bi < project.branches.len()
        invariant
            bi <= project.branches@.len(),
            header_end + branches_full_spec(project.branches@) == out@ + branches_full_spec(
                project.branches@.skip(bi as int),
            ),
        decreases project.branches@.len() - bi,
    {
        let ghost before = out@;
        let b = &project.branches[bi];
        out.append("  >> ");
        out.append(b.name.as_str());
        out.append("\n");
        append_commits(&mut *out, &b.commits);
        proof {
            assert(out@ =~= before + branch_full_spec(project.branches@[bi as int]));
            assert(project.branches@.skip(bi as int).first() == project.branches@[bi as int]);
            assert(project.branches@.skip(bi as int).drop_first() =~= project.branches@.skip(
                bi + 1,
            ));
            assert(header_end + branches_full_spec(project.branches@) =~= out@
                + branches_full_spec(project.branches@.skip(bi + 1)));
        }
        bi = bi + 1;
    }
    proof {
        assert(project.branches@.skip(project.branches@.len() as int) =~= Seq::<
            BranchLog,
        >::empty());
        assert(out@ =~= old(out)@ + project_full_spec(*project, show_origin));
    }
}

/// Appends one project block at the requested depth.
fn append_project_block(out: &mut String, project: &ProjectLog, depth: Depth, show_origin: bool)
    ensures
        final(out)@ == old(out)@ + project_block_spec(*project, depth, show_origin),
{
    match depth {
        Depth::Projects => append_project_summary(&mut *out, project, show_origin),
        Depth::Branches => append_project_branches(&mut *out, project, show_origin),
        Depth::Commits => append_project_full(&mut *out, project, show_origin),
    }
}

/// Renders the projects as clean plain text without ANSI codes, for
/// clipboard export and plain terminals.
pub fn render_plain(projects: &Vec<ProjectLog>, depth: Depth, show_origin: bool) -> (r: String)
    ensures
        r@ == render_plain_spec(projects@, depth, show_origin),
{
    if projects.len() == 0 {
        return String::from_str("No commits found for the given period.");
    }
    let mut out = String::new();
    append_project_block(&mut out, &projects[0], depth, show_origin);
    proof {
        assert(out@ =~= project_block_spec(projects@.first(), depth, show_origin));
    }
    let mut i: usize = 1;
    while i < projects.len()
        invariant
            1 <= i <= projects@.len(),
            projects@.len() > 0,
            project_block_spec(projects@.first(), depth, show_origin) + render_rest_spec(
                projects@.drop_first(),
                depth,
                show_origin,
            ) == out@ + render_rest_spec(projects@.skip(i as int), depth, show_origin),
        decreases projects@.len() - i,
    {
        let ghost before = out@;
        if !matches!(depth, Depth::Projects) {
            out.append("\n");
        }
        append_project_block(&mut out, &projects[i], depth, show_origin);
        proof {
            assert(out@ =~= before + block_sep_spec(depth) + project_block_spec(
                projects@[i as int],
                depth,
                show_origin,
            ));
            assert(projects@.skip(i as int).first() == projects@[i as int]);
            assert(projects@.skip(i as int).drop_first() =~= projects@.skip(i + 1));
            assert(project_block_spec(projects@.first(), depth, show_origin) + render_rest_spec(
                projects@.drop_first(),
                depth,
                show_origin,
            ) =~= out@ + render_rest_spec(projects@.skip(i + 1), depth, show_origin));
        }
        i = i + 1;
    }
    proof {
        assert(projects@.skip(projects@.len() as int) =~= Seq::<ProjectLog>::empty());
        assert(projects@.drop_first() =~= projects@.skip(1));
        assert(out@ =~= render_plain_spec(projects@, depth, show_origin));
    }
    out
}

} // verus!
