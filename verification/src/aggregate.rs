//! The aggregator: assembles per-repository branch logs and origin into
//! `ProjectLog`s, and imposes the deterministic orderings — primary
//! branches first, then lexicographic; projects by most recent activity,
//! descending.

use vstd::prelude::*;

use crate::model::{newest_head, BranchLog, ProjectLog};
use vstd::multiset::Multiset;
use crate::origin::RepoOrigin;
use crate::text::{lemma_lex_le_total, lemma_lex_le_trans, lex_le, lex_le_exec};

verus! {

broadcast use vstd::seq_lib::group_to_multiset_ensures;

/// Branches named exactly `main` or `master` form the primary tier and
/// sort before all others.
pub open spec fn is_primary_name(name: Seq<char>) -> bool {
    name == "main"@ || name == "master"@
}

/// Whether a branch name belongs to the primary tier (`main` or `master`).
pub fn is_primary_branch(name: &str) -> (r: bool)
    ensures
        r == is_primary_name(name@),
{
    crate::text::str_eq(name, "main") || crate::text::str_eq(name, "master")
}

/// The branch ordering: primary tier first; within a tier, lexicographic
/// ascending by name.
pub open spec fn branch_le(a: BranchLog, b: BranchLog) -> bool {
    let pa = is_primary_name(a.name@);
    let pb = is_primary_name(b.name@);
    if pa != pb {
        pa
    } else {
        lex_le(a.name@, b.name@)
    }
}

/// `branch_le` is total.
proof fn lemma_branch_le_total(a: BranchLog, b: BranchLog)
    ensures
        branch_le(a, b) || branch_le(b, a),
{
    lemma_lex_le_total(a.name@, b.name@);
}

/// `branch_le` is transitive.
proof fn lemma_branch_le_trans(a: BranchLog, b: BranchLog, c: BranchLog)
    requires
        branch_le(a, b),
        branch_le(b, c),
    ensures
        branch_le(a, c),
{
    if is_primary_name(a.name@) == is_primary_name(b.name@) && is_primary_name(b.name@)
        == is_primary_name(c.name@) {
        lemma_lex_le_trans(a.name@, b.name@, c.name@);
    }
}

/// Compares two branches in the branch ordering.
fn branch_le_exec(a: &BranchLog, b: &BranchLog) -> (r: bool)
    ensures
        r == branch_le(*a, *b),
{
    let pa = is_primary_branch(a.name.as_str());
    let pb = is_primary_branch(b.name.as_str());
    if pa != pb {
        pa
    } else {
        lex_le_exec(a.name.as_str(), b.name.as_str())
    }
}

/// The sequence is ordered under the branch ordering.
pub open spec fn branches_sorted(s: Seq<BranchLog>) -> bool {
    forall|i: int, j: int| 0 <= i < j < s.len() ==> branch_le(#[trigger] s[i], #[trigger] s[j])
}

/// Inserting an element anywhere adds exactly it to the multiset.
proof fn lemma_insert_to_multiset<A>(s: Seq<A>, i: int, a: A)
    requires
        0 <= i <= s.len(),
    ensures
        s.insert(i, a).to_multiset() =~= s.to_multiset().insert(a),
    decreases s.len(),
{
    if i == s.len() {
        assert(s.insert(i, a) =~= s.push(a));
    } else {
        lemma_insert_to_multiset(s.drop_last(), i, a);
        assert(s.drop_last().insert(i, a).push(s.last()) =~= s.insert(i, a));
        assert(s.drop_last().push(s.last()) =~= s);
        assert(s.insert(i, a).to_multiset() =~= s.drop_last().insert(i, a).to_multiset().insert(
            s.last(),
        ));
        assert(s.drop_last().to_multiset().insert(a).insert(s.last())
            =~= s.drop_last().to_multiset().insert(s.last()).insert(a));
    }
}

/// Sorts branches: primary tier first, then lexicographic by name; the
/// result is a permutation of the input.
pub fn sort_branches(v: Vec<BranchLog>) -> (r: Vec<BranchLog>)
    ensures
        r@.to_multiset() == v@.to_multiset(),
        branches_sorted(r@),
{
    let mut rest = v;
    let mut out: Vec<BranchLog> = Vec::new();
    while rest.len() > 0
        invariant
            branches_sorted(out@),
            out@.to_multiset().add(rest@.to_multiset()) == v@.to_multiset(),
        decreases rest@.len(),
    {
        let ghost rest_old = rest@;
        let x = match rest.pop() {
            Some(x) => x,
            None => {
                proof {
                    assert(false);
                }
                continue
            },
        };
        proof {
            assert(rest_old =~= rest@.push(x));
            assert(rest@.push(x).to_multiset() =~= rest@.to_multiset().insert(x));
        }
        let mut pos: usize = 0;
        while pos < out.len() && branch_le_exec(&out[pos], &x)
            invariant
                pos <= out@.len(),
                forall|k: int| 0 <= k < pos ==> branch_le(#[trigger] out@[k], x),
            decreases out@.len() - pos,
        {
            pos = pos + 1;
        }
        let ghost out_old = out@;
        out.insert(pos, x);
        proof {
            lemma_insert_to_multiset(out_old, pos as int, x);
            if pos < out_old.len() {
                lemma_branch_le_total(out_old[pos as int], x);
            }
            assert forall|i: int, j: int|
                0 <= i < j < out@.len() implies branch_le(#[trigger] out@[i], #[trigger] out@[j]) by {
                if i == pos {
                    assert(branch_le(x, out_old[pos as int]));
                    if j - 1 > pos {
                        assert(branch_le(out_old[pos as int], out_old[j - 1]));
                        lemma_branch_le_trans(x, out_old[pos as int], out_old[j - 1]);
                    }
                } else if j == pos {
                    assert(branch_le(out_old[i], x));
                }
            }
        }
    }
    proof {
        assert(rest@.to_multiset() =~= Multiset::<BranchLog>::empty());
        assert(out@.to_multiset().add(Multiset::<BranchLog>::empty()) =~= out@.to_multiset());
    }
    out
}

/// The branches of `bs` that carry at least one commit.
pub open spec fn nonempty_branches(bs: Seq<BranchLog>) -> Seq<BranchLog> {
    bs.filter(|b: BranchLog| b.commits@.len() > 0)
}

/// Assembles one repository's result: branches with no matching commits
/// are dropped, the rest are sorted in the branch ordering, and a
/// repository contributing no commits yields nothing at all.
pub fn build_project_log(
    project: String,
    path: String,
    origin: Option<RepoOrigin>,
    branch_logs: Vec<BranchLog>,
) -> (r: Option<ProjectLog>)
    ensures
        r is Some <==> nonempty_branches(branch_logs@).len() > 0,
        r matches Some(p) ==> {
            &&& p.project == project
            &&& p.path == path
            &&& p.origin == origin
            &&& p.branches@.to_multiset() == nonempty_branches(branch_logs@).to_multiset()
            &&& branches_sorted(p.branches@)
            &&& forall|i: int|
                0 <= i < p.branches@.len() ==> #[trigger] p.branches@[i].commits@.len() > 0
        },
{
    let mut rest = branch_logs;
    let mut kept: Vec<BranchLog> = Vec::new();
    while rest.len() > 0
        invariant
            kept@.to_multiset().add(nonempty_branches(rest@).to_multiset())
                == nonempty_branches(branch_logs@).to_multiset(),
            forall|i: int| 0 <= i < kept@.len() ==> #[trigger] kept@[i].commits@.len() > 0,
        decreases rest@.len(),
    {
        let ghost rest_old = rest@;
        let ghost kept_old = kept@;
        let x = match rest.pop() {
            Some(x) => x,
            None => {
                proof {
                    assert(false);
                }
                continue
            },
        };
        let keep = x.commits.len() > 0;
        if keep {
            kept.push(x);
        }
        proof {
            assert(rest_old =~= rest@.push(x));
            Seq::filter_distributes_over_add(
                rest_old.drop_last(),
                seq![rest_old.last()],
                |b: BranchLog| b.commits@.len() > 0,
            );
            assert(rest_old.drop_last() + seq![rest_old.last()] =~= rest_old);
            lemma_filter_branch_singleton(rest_old.last());
            if keep {
                assert(nonempty_branches(rest_old) =~= nonempty_branches(rest@).push(x));
                assert(nonempty_branches(rest@).push(x).to_multiset() =~= nonempty_branches(
                    rest@,
                ).to_multiset().insert(x));
                assert(kept@ =~= kept_old.push(x));
                assert(kept_old.push(x).to_multiset() =~= kept_old.to_multiset().insert(x));
            } else {
                assert(nonempty_branches(rest_old) =~= nonempty_branches(rest@));
            }
        }
    }
    proof {
        assert(nonempty_branches(rest@) =~= Seq::<BranchLog>::empty());
        assert(kept@.to_multiset().add(Multiset::<BranchLog>::empty()) =~= kept@.to_multiset());
        assert(kept@.to_multiset().len() == nonempty_branches(branch_logs@).to_multiset().len());
    }
    if kept.len() == 0 {
        return None;
    }
    let ghost kept_snapshot = kept@;
    let branches = sort_branches(kept);
    proof {
        assert forall|i: int|
            0 <= i < branches@.len() implies #[trigger] branches@[i].commits@.len() > 0 by {
            assert(branches@.to_multiset().contains(branches@[i]));
            assert(kept_snapshot.to_multiset().count(branches@[i]) > 0);
            assert(kept_snapshot.contains(branches@[i]));
        }
    }
    Some(ProjectLog { project, path, origin, branches })
}

/// Keeping or dropping a single branch under the non-empty filter.
proof fn lemma_filter_branch_singleton(b: BranchLog)
    ensures
        seq![b].filter(|x: BranchLog| x.commits@.len() > 0) == (if b.commits@.len() > 0 {
            seq![b]
        } else {
            Seq::<BranchLog>::empty()
        }),
{
    reveal_with_fuel(Seq::filter, 2);
    assert(seq![b].drop_last() =~= Seq::<BranchLog>::empty());
}

/// The most recent head-commit timestamp across the branches, when any
/// branch carries a commit.
pub open spec fn heads_max(bs: Seq<BranchLog>) -> Option<int>
    decreases bs.len(),
{
    if bs.len() == 0 {
        None
    } else {
        let head = if bs.last().commits@.len() > 0 {
            Some(bs.last().commits@[0].time as int)
        } else {
            None
        };
        opt_max(heads_max(bs.drop_last()), head)
    }
}

/// The larger of two optional timestamps; an absent one never wins.
pub open spec fn opt_max(a: Option<int>, b: Option<int>) -> Option<int> {
    match b {
        Option::None => a,
        Option::Some(y) => match a {
            Option::None => b,
            Option::Some(x) => if y >= x {
                b
            } else {
                a
            },
        },
    }
}

/// The branch head `newest_head` picks is the one with the maximal head
/// timestamp: a project's displayed latest-activity label belongs to the
/// same branch head whose timestamp the project ordering ranks it by.
pub proof fn lemma_newest_head_is_heads_max(bs: Seq<BranchLog>)
    ensures
        newest_head(bs) is Some <==> heads_max(bs) is Some,
        newest_head(bs) matches Some(h) ==> heads_max(bs) == Some(h.0),
    decreases bs.len(),
{
    if bs.len() > 0 {
        lemma_newest_head_is_heads_max(bs.drop_last());
    }
}

/// The project ordering used for the final report: most recent head-commit
/// timestamp first, descending; projects without one sort last.
pub open spec fn project_le(a: ProjectLog, b: ProjectLog) -> bool {
    opt_ge(heads_max(a.branches@), heads_max(b.branches@))
}

/// Descending comparison on optional timestamps, absent values last.
pub open spec fn opt_ge(a: Option<int>, b: Option<int>) -> bool {
    match b {
        Option::None => true,
        Option::Some(y) => match a {
            Option::None => false,
            Option::Some(x) => x >= y,
        },
    }
}

/// Computes the most recent head-commit timestamp of a project.
pub fn latest_commit_time(p: &ProjectLog) -> (r: Option<i64>)
    ensures
        r is Some <==> heads_max(p.branches@) is Some,
        r matches Some(t) ==> heads_max(p.branches@) == Some(t as int),
{
    let mut best: Option<i64> = None;
    let mut bi: usize = 0;
    while bi < p.branches.len()
        invariant
            bi <= p.branches@.len(),
            best is Some <==> heads_max(p.branches@.take(bi as int)) is Some,
            best matches Some(t) ==> heads_max(p.branches@.take(bi as int)) == Some(t as int),
        decreases p.branches@.len() - bi,
    {
        let ghost prefix = p.branches@.take(bi as int);
        if p.branches[bi].commits.len() > 0 {
            let t = p.branches[bi].commits[0].time;
            best = match best {
                Option::None => Some(t),
                Option::Some(b) => if t >= b {
                    Some(t)
                } else {
                    Some(b)
                },
            };
        }
        proof {
            assert(p.branches@.take(bi + 1).drop_last() =~= prefix);
            assert(p.branches@.take(bi + 1).last() == p.branches@[bi as int]);
        }
        bi = bi + 1;
    }
    proof {
        assert(p.branches@.take(p.branches@.len() as int) =~= p.branches@);
    }
    best
}

/// Compares two projects in the project ordering.
fn project_le_exec(a: &ProjectLog, b: &ProjectLog) -> (r: bool)
    ensures
        r == project_le(*a, *b),
{
    let la = latest_commit_time(a);
    let lb = latest_commit_time(b);
    match lb {
        Option::None => true,
        Option::Some(y) => match la {
            Option::None => false,
            Option::Some(x) => x >= y,
        },
    }
}

/// The sequence is ordered under the project ordering.
pub open spec fn projects_sorted(s: Seq<ProjectLog>) -> bool {
    forall|i: int, j: int| 0 <= i < j < s.len() ==> project_le(#[trigger] s[i], #[trigger] s[j])
}

/// Sorts the assembled projects: most recently active first; the result is
/// a permutation of the input, and the order is deterministic for distinct
/// activity times whatever order collection delivered them in.
pub fn sort_projects(v: Vec<ProjectLog>) -> (r: Vec<ProjectLog>)
    ensures
        r@.to_multiset() == v@.to_multiset(),
        projects_sorted(r@),
{
    let mut rest = v;
    let mut out: Vec<ProjectLog> = Vec::new();
    while rest.len() > 0
        invariant
            projects_sorted(out@),
            out@.to_multiset().add(rest@.to_multiset()) == v@.to_multiset(),
        decreases rest@.len(),
    {
        let ghost rest_old = rest@;
        let x = match rest.pop() {
            Some(x) => x,
            None => {
                proof {
                    assert(false);
                }
                continue
            },
        };
        proof {
            assert(rest_old =~= rest@.push(x));
            assert(rest@.push(x).to_multiset() =~= rest@.to_multiset().insert(x));
        }
        let mut pos: usize = 0;
        while pos < out.len() && project_le_exec(&out[pos], &x)
            invariant
                pos <= out@.len(),
                forall|k: int| 0 <= k < pos ==> project_le(#[trigger] out@[k], x),
            decreases out@.len() - pos,
        {
            pos = pos + 1;
        }
        let ghost out_old = out@;
        out.insert(pos, x);
        proof {
            lemma_insert_to_multiset(out_old, pos as int, x);
            assert forall|i: int, j: int|
                0 <= i < j < out@.len() implies project_le(
                #[trigger] out@[i],
                #[trigger] out@[j],
            ) by {
                if i == pos {
                    assert(project_le(x, out_old[pos as int]));
                    if j - 1 > pos {
                        assert(project_le(out_old[pos as int], out_old[j - 1]));
                    }
                } else if j == pos {
                    assert(project_le(out_old[i], x));
                }
            }
        }
    }
    proof {
        assert(rest@.to_multiset() =~= Multiset::<ProjectLog>::empty());
        assert(out@.to_multiset().add(Multiset::<ProjectLog>::empty()) =~= out@.to_multiset());
    }
    out
}

} // verus!
