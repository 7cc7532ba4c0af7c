//! The three-level result model: repository, branch, commit. Entities are
//! produced once per run and consumed read-only afterwards.

use vstd::prelude::*;

use crate::origin::RepoOrigin;

verus! {

/// One parsed commit record.
#[derive(Debug, Clone)]
pub struct Commit {
    /// Short hash; unique within a repository for practical purposes.
    pub hash: String,
    /// Raw subject line.
    pub message: String,
    /// Conventional-commit tag when the subject carries one.
    pub commit_type: Option<String>,
    /// Commit instant, in epoch seconds.
    pub time: i64,
    /// Human label fixed at collection time ("just now", "5m ago", ...).
    pub relative_time: String,
}

/// A branch with its matching commits, newest first; only branches with at
/// least one commit are materialized.
#[derive(Debug, Clone)]
pub struct BranchLog {
    pub name: String,
    pub commits: Vec<Commit>,
}

/// A repository that contributed commits: its name, path, classified
/// origin, and its non-empty branches.
#[derive(Debug, Clone)]
pub struct ProjectLog {
    pub project: String,
    pub path: String,
    pub origin: Option<RepoOrigin>,
    pub branches: Vec<BranchLog>,
}

/// The hashes of a commit sequence, in order.
pub open spec fn commit_hashes(commits: Seq<Commit>) -> Seq<Seq<char>> {
    commits.map_values(|c: Commit| c.hash@)
}

/// The hashes of every commit on every branch of `bs`, branch by branch.
pub open spec fn branch_seq_hashes(bs: Seq<BranchLog>) -> Seq<Seq<char>>
    decreases bs.len(),
{
    if bs.len() == 0 {
        Seq::empty()
    } else {
        branch_seq_hashes(bs.drop_last()) + commit_hashes(bs.last().commits@)
    }
}

/// The views of a vector of strings.
pub open spec fn string_views(v: Seq<String>) -> Seq<Seq<char>> {
    v.map_values(|s: String| s@)
}

/// Whether some string in `v` holds exactly the characters of `s`.
fn contains_string(v: &Vec<String>, s: &String) -> (r: bool)
    ensures
        r == string_views(v@).contains(s@),
{
    let mut i: usize = 0;
    while i < v.len()
        invariant
            i <= v@.len(),
            forall|j: int| 0 <= j < i ==> string_views(v@)[j] != s@,
        decreases v@.len() - i,
    {
        if v[i] == *s {
            assert(string_views(v@)[i as int] == s@);
            return true;
        }
        i = i + 1;
    }
    false
}

/// The newest branch head: the timestamp and relative label of the first
/// commit of a branch whose head no later branch head outdates; on equal
/// timestamps the later branch wins.
pub open spec fn newest_head(bs: Seq<BranchLog>) -> Option<(int, Seq<char>)>
    decreases bs.len(),
{
    if bs.len() == 0 {
        None
    } else {
        let rest = newest_head(bs.drop_last());
        if bs.last().commits@.len() > 0 {
            let cur = (bs.last().commits@[0].time as int, bs.last().commits@[0].relative_time@);
            match rest {
                Option::None => Some(cur),
                Option::Some(r) => if cur.0 >= r.0 {
                    Some(cur)
                } else {
                    Some(r)
                },
            }
        } else {
            rest
        }
    }
}

impl BranchLog {
    /// The relative label of the newest commit, when the branch has one.
    pub fn latest_activity<'a>(&'a self) -> (r: Option<&'a str>)
        ensures
            r is Some <==> self.commits@.len() > 0,
            r matches Some(lab) ==> lab@ == self.commits@[0].relative_time@,
    {
        if self.commits.len() > 0 {
            Some(self.commits[0].relative_time.as_str())
        } else {
            None
        }
    }
}

impl ProjectLog {
    /// Counts this project's commits, counting each distinct hash once even
    /// when it reaches several branches; the per-branch lists themselves are
    /// left as collected.
    pub fn total_commits(&self) -> (r: usize)
        ensures
            r == branch_seq_hashes(self.branches@).to_set().len(),
    {
        let mut seen: Vec<String> = Vec::new();
        let mut bi: usize = 0;
        while bi < self.branches.len()
            invariant
                bi <= self.branches@.len(),
                string_views(seen@).no_duplicates(),
                string_views(seen@).to_set() =~= branch_seq_hashes(
                    self.branches@.take(bi as int),
                ).to_set(),
            decreases self.branches@.len() - bi,
        {
            let b = &self.branches[bi];
            let mut ci: usize = 0;
            while ci < b.commits.len()
                invariant
                    bi < self.branches@.len(),
                    b == self.branches@[bi as int],
                    ci <= b.commits@.len(),
                    string_views(seen@).no_duplicates(),
                    string_views(seen@).to_set() =~= (branch_seq_hashes(
                        self.branches@.take(bi as int),
                    ) + commit_hashes(b.commits@.take(ci as int))).to_set(),
                decreases b.commits@.len() - ci,
            {
                let h = &b.commits[ci].hash;
                let ghost old_views = string_views(seen@);
                let ghost prefix = branch_seq_hashes(self.branches@.take(bi as int));
                let ghost taken = commit_hashes(b.commits@.take(ci as int));
                let seen_before = contains_string(&seen, h);
                if !seen_before {
                    seen.push(h.clone());
                    proof {
                        assert(string_views(seen@) =~= old_views.push(h@));
                    }
                }
                proof {
                    assert(commit_hashes(b.commits@.take(ci + 1)) =~= taken.push(
                        b.commits@[ci as int].hash@,
                    ));
                    assert(prefix + taken.push(h@) =~= (prefix + taken).push(h@));
                    (prefix + taken).lemma_push_to_set_commute(h@);
                    if seen_before {
                        assert((prefix + taken).to_set().contains(h@));
                        assert((prefix + taken).to_set().insert(h@) =~= (prefix
                            + taken).to_set());
                    } else {
                        old_views.lemma_push_to_set_commute(h@);
                        assert(old_views.push(h@).no_duplicates());
                    }
                    assert(string_views(seen@).to_set() =~= (prefix + commit_hashes(
                        b.commits@.take(ci + 1),
                    )).to_set());
                }
                ci = ci + 1;
            }
            proof {
                assert(b.commits@.take(b.commits@.len() as int) =~= b.commits@);
                assert(self.branches@.take(bi + 1).drop_last() =~= self.branches@.take(bi as int));
                assert(self.branches@.take(bi + 1).last() == self.branches@[bi as int]);
                assert(branch_seq_hashes(self.branches@.take(bi + 1)) == branch_seq_hashes(
                    self.branches@.take(bi as int),
                ) + commit_hashes(self.branches@[bi as int].commits@));
            }
            bi = bi + 1;
        }
        proof {
            assert(self.branches@.take(self.branches@.len() as int) =~= self.branches@);
            string_views(seen@).unique_seq_to_set();
        }
        seen.len()
    }

    /// The relative label of the newest first-of-branch commit: the label
    /// `newest_head` picks. Absent only when no branch carries a commit.
    pub fn latest_activity<'a>(&'a self) -> (r: Option<&'a str>)
        ensures
            r is Some <==> newest_head(self.branches@) is Some,
            r matches Some(lab) ==> (newest_head(self.branches@) matches Some(h) && lab@ == h.1),
    {
        let mut best: Option<usize> = None;
        let mut bi: usize = 0;
        while bi < self.branches.len()
            invariant
                bi <= self.branches@.len(),
                best is None <==> newest_head(self.branches@.take(bi as int)) is None,
                best matches Some(k) ==> 0 <= k < bi && self.branches@[k as int].commits@.len() > 0
                    && (newest_head(self.branches@.take(bi as int)) matches Some(h) && h.0
                    == self.branches@[k as int].commits@[0].time && h.1
                    == self.branches@[k as int].commits@[0].relative_time@),
            decreases self.branches@.len() - bi,
        {
            proof {
                assert(self.branches@.take(bi + 1).drop_last() =~= self.branches@.take(bi as int));
                assert(self.branches@.take(bi + 1).last() == self.branches@[bi as int]);
            }
            if self.branches[bi].commits.len() > 0 {
                let t = self.branches[bi].commits[0].time;
                match best {
                    None => {
                        best = Some(bi);
                    },
                    Some(k) => {
                        if t >= self.branches[k].commits[0].time {
                            best = Some(bi);
                        }
                    },
                }
            }
            bi = bi + 1;
        }
        proof {
            assert(self.branches@.take(self.branches@.len() as int) =~= self.branches@);
        }
        match best {
            Some(k) => Some(self.branches[k].commits[0].relative_time.as_str()),
            None => None,
        }
    }
}

} // verus!
