//! Repository discovery over a modeled directory tree: a pruning walk that
//! never enters directories on a fixed denylist of dependency, build and
//! cache directories, and reports a directory as a repository root the
//! moment a direct child named `.git` is found, without descending inside.

use vstd::prelude::*;

use crate::model::string_views;

verus! {

/// A directory and its subdirectories; regular files play no part in
/// discovery and are not modeled.
#[derive(Debug)]
pub struct DirTree {
    pub name: String,
    pub subdirs: Vec<DirTree>,
}

/// The fixed denylist: dependency, build and cache directory names the
/// walk never enters.
pub open spec fn is_skip_name(n: Seq<char>) -> bool {
    ||| n == "node_modules"@
    ||| n == "vendor"@
    ||| n == "target"@
    ||| n == ".bundle"@
    ||| n == "Pods"@
    ||| n == ".build"@
    ||| n == "dist"@
    ||| n == "build"@
    ||| n == ".next"@
    ||| n == ".cache"@
}

/// Whether a directory name is on the denylist.
pub fn is_skipped_dir(name: &str) -> (r: bool)
    ensures
        r == is_skip_name(name@),
{
    ||| crate::text::str_eq(name, "node_modules")
    ||| crate::text::str_eq(name, "vendor")
    ||| crate::text::str_eq(name, "target")
    ||| crate::text::str_eq(name, ".bundle")
    ||| crate::text::str_eq(name, "Pods")
    ||| crate::text::str_eq(name, ".build")
    ||| crate::text::str_eq(name, "dist")
    ||| crate::text::str_eq(name, "build")
    ||| crate::text::str_eq(name, ".next")
    ||| crate::text::str_eq(name, ".cache")
}

/// The directory directly contains the version-control metadata directory.
pub open spec fn has_repo_marker(t: DirTree) -> bool {
    exists|i: int| 0 <= i < t.subdirs@.len() && (#[trigger] t.subdirs@[i].name@) == ".git"@
}

/// Checks for a direct child named `.git`.
pub fn has_repo_marker_exec(t: &DirTree) -> (r: bool)
    ensures
        r == has_repo_marker(*t),
{
    let mut i: usize = 0;
    while i < t.subdirs.len()
        invariant
            i <= t.subdirs@.len(),
            forall|j: int| 0 <= j < i ==> (#[trigger] t.subdirs@[j].name@) != ".git"@,
        decreases t.subdirs@.len() - i,
    {
        if crate::text::str_eq(t.subdirs[i].name.as_str(), ".git") {
            return true;
        }
        i = i + 1;
    }
    false
}

/// Each path of `ps` with `name` prepended.
pub open spec fn prefixed(name: Seq<char>, ps: Seq<Seq<Seq<char>>>) -> Seq<Seq<Seq<char>>> {
    ps.map_values(|p: Seq<Seq<char>>| seq![name] + p)
}

/// The repository roots the pruning walk reports under `t`, as paths of
/// directory names relative to `t` (the empty path names `t` itself).
/// A denylisted directory is not entered; a directory with the repository
/// marker is reported and not descended into.
pub open spec fn repo_paths(t: DirTree) -> Seq<Seq<Seq<char>>>
    decreases t,
{
    if is_skip_name(t.name@) {
        Seq::empty()
    } else if has_repo_marker(t) {
        seq![Seq::empty()]
    } else {
        repo_paths_children(t.subdirs@)
    }
}

/// The reported paths under a sequence of child directories, each child's
/// paths prefixed with its name, in child order.
pub open spec fn repo_paths_children(ts: Seq<DirTree>) -> Seq<Seq<Seq<char>>>
    decreases ts,
{
    if ts.len() == 0 {
        Seq::empty()
    } else {
        repo_paths_children(ts.drop_last()) + prefixed(ts.last().name@, repo_paths(ts.last()))
    }
}

/// The character sequences of a path of directory-name strings.
pub open spec fn path_views(r: Seq<Vec<String>>) -> Seq<Seq<Seq<char>>> {
    r.map_values(|v: Vec<String>| string_views(v@))
}

/// Walks the tree and collects the repository roots, as name paths
/// relative to `root`; discovery reports no order and never fails.
pub fn find_repos(root: &DirTree) -> (r: Vec<Vec<String>>)
    ensures
        path_views(r@) == repo_paths(*root),
    decreases *root,
{
    let mut out: Vec<Vec<String>> = Vec::new();
    if is_skipped_dir(root.name.as_str()) {
        proof {
            assert(path_views(out@) =~= repo_paths(*root));
        }
        return out;
    }
    if has_repo_marker_exec(root) {
        let empty_path: Vec<String> = Vec::new();
        out.push(empty_path);
        proof {
            assert(string_views(Seq::<String>::empty()) =~= Seq::<Seq<char>>::empty());
            assert(path_views(out@) =~= repo_paths(*root));
        }
        return out;
    }
    let mut i: usize = 0;
    while i < root.subdirs.len()
        invariant
            !is_skip_name(root.name@),
            !has_repo_marker(*root),
            i <= root.subdirs@.len(),
            path_views(out@) == repo_paths_children(root.subdirs@.take(i as int)),
        decreases root.subdirs@.len() - i,
    {
        let child = &root.subdirs[i];
        proof {
            assert(decreases_to!(*root => root.subdirs));
            assert(decreases_to!(root.subdirs => root.subdirs@));
            assert(decreases_to!(root.subdirs@ => root.subdirs@[i as int]));
        }
        let sub = find_repos(child);
        let mut si: usize = 0;
        let ghost out_before = out@;
        while si < sub.len()
            invariant
                si <= sub@.len(),
                child == root.subdirs@[i as int],
                i < root.subdirs@.len(),
                path_views(out@) == path_views(out_before) + prefixed(
                    child.name@,
                    path_views(sub@.take(si as int)),
                ),
            decreases sub@.len() - si,
        {
            let p = &sub[si];
            let mut path: Vec<String> = Vec::new();
            path.push(child.name.clone());
            let mut k: usize = 0;
            while k < p.len()
                invariant
                    k <= p@.len(),
                    path@.len() == k + 1,
                    path@[0] == child.name,
                    forall|m: int| 0 <= m < k ==> path@[m + 1] == p@[m],
                decreases p@.len() - k,
            {
                path.push(p[k].clone());
                k = k + 1;
            }
            let ghost out_mid = out@;
            out.push(path);
            proof {
                assert(string_views(path@) =~= seq![child.name@] + string_views(p@));
                assert(path_views(out@) =~= path_views(out_mid).push(string_views(path@)));
                assert(path_views(sub@.take(si + 1)) =~= path_views(sub@.take(si as int)).push(
                    string_views(sub@[si as int]@),
                ));
                assert(prefixed(child.name@, path_views(sub@.take(si + 1))) =~= prefixed(
                    child.name@,
                    path_views(sub@.take(si as int)),
                ).push(seq![child.name@] + string_views(p@)));
                assert(path_views(out@) =~= path_views(out_before) + prefixed(
                    child.name@,
                    path_views(sub@.take(si + 1),
                )));
            }
            si = si + 1;
        }
        proof {
            assert(sub@.take(sub@.len() as int) =~= sub@);
            assert(root.subdirs@.take(i + 1).drop_last() =~= root.subdirs@.take(i as int));
            assert(root.subdirs@.take(i + 1).last() == root.subdirs@[i as int]);
            assert(path_views(out@) =~= repo_paths_children(root.subdirs@.take(i + 1)));
        }
        i = i + 1;
    }
    proof {
        assert(root.subdirs@.take(root.subdirs@.len() as int) =~= root.subdirs@);
    }
    out
}

/// No two sibling directories share a name.
pub open spec fn distinct_child_names(ts: Seq<DirTree>) -> bool {
    forall|i: int, j: int|
        0 <= i < j < ts.len() ==> (#[trigger] ts[i].name@) != (#[trigger] ts[j].name@)
}

/// A well-formed directory tree, as real file systems produce: at every
/// level, no two siblings share a name.
pub open spec fn tree_wf(t: DirTree) -> bool
    decreases t,
{
    distinct_child_names(t.subdirs@) && forest_wf(t.subdirs@)
}

/// Every tree of the sequence is well-formed.
pub open spec fn forest_wf(ts: Seq<DirTree>) -> bool
    decreases ts,
{
    if ts.len() == 0 {
        true
    } else {
        forest_wf(ts.drop_last()) && tree_wf(ts.last())
    }
}

/// The path's first component names one of the given children.
pub open spec fn starts_with_child_name(ts: Seq<DirTree>, p: Seq<Seq<char>>) -> bool {
    exists|i: int| 0 <= i < ts.len() && p[0] == (#[trigger] ts[i].name@)
}

/// On a well-formed tree the walk reports pairwise-distinct paths: each
/// reported root is the parent of a distinct `.git` entry, and a directory
/// holds at most one child of any name.
pub proof fn lemma_reported_paths_distinct(t: DirTree)
    requires
        tree_wf(t),
    ensures
        repo_paths(t).no_duplicates(),
    decreases t,
{
    if !is_skip_name(t.name@) && !has_repo_marker(t) {
        lemma_children_paths_distinct(t.subdirs@);
    }
}

/// Child-sequence form of `lemma_reported_paths_distinct`, carrying what
/// the induction needs: every reported path is non-empty and starts with
/// one of the children's names.
proof fn lemma_children_paths_distinct(ts: Seq<DirTree>)
    requires
        distinct_child_names(ts),
        forest_wf(ts),
    ensures
        repo_paths_children(ts).no_duplicates(),
        forall|k: int|
            0 <= k < repo_paths_children(ts).len() ==> (#[trigger] repo_paths_children(
                ts,
            )[k]).len() >= 1 && starts_with_child_name(ts, repo_paths_children(ts)[k]),
    decreases ts,
{
    if ts.len() > 0 {
        let last = ts.last();
        let prev = ts.drop_last();
        assert forall|i: int, j: int|
            0 <= i < j < prev.len() implies (#[trigger] prev[i].name@) != (
        #[trigger] prev[j].name@) by {
            assert(ts[i].name@ != ts[j].name@);
        }
        lemma_children_paths_distinct(prev);
        lemma_reported_paths_distinct(last);
        let head = repo_paths_children(prev);
        let tail = prefixed(last.name@, repo_paths(last));
        let whole = repo_paths_children(ts);
        let n = last.name@;
        assert(whole == head + tail);
        assert forall|a: int| 0 <= a < tail.len() implies (#[trigger] tail[a]).len() >= 1
            && tail[a][0] == n by {
            assert(tail[a] == seq![n] + repo_paths(last)[a]);
        }
        assert forall|a: int| 0 <= a < head.len() implies (#[trigger] head[a])[0] != n by {
            let i = choose|i: int| 0 <= i < prev.len() && head[a][0] == (#[trigger] prev[
                i
            ].name@);
            assert(prev[i] == ts[i]);
            assert(ts[i].name@ != ts[ts.len() - 1].name@);
        }
        assert forall|k1: int, k2: int|
            0 <= k1 < whole.len() && 0 <= k2 < whole.len() && k1 != k2 implies #[trigger] whole[
            k1
        ] != #[trigger] whole[k2] by {
            let h = head.len() as int;
            if k1 < h && k2 < h {
                assert(whole[k1] == head[k1] && whole[k2] == head[k2]);
            } else if k1 >= h && k2 >= h {
                assert(whole[k1] == tail[k1 - h] && whole[k2] == tail[k2 - h]);
                let pa = repo_paths(last)[k1 - h];
                let pb = repo_paths(last)[k2 - h];
                assert(pa != pb);
                assert((seq![n] + pa).drop_first() =~= pa);
                assert((seq![n] + pb).drop_first() =~= pb);
            } else if k1 < h {
                assert(whole[k1] == head[k1] && whole[k2] == tail[k2 - h]);
                assert(head[k1][0] != n && tail[k2 - h][0] == n);
            } else {
                assert(whole[k2] == head[k2] && whole[k1] == tail[k1 - h]);
                assert(head[k2][0] != n && tail[k1 - h][0] == n);
            }
        }
        assert forall|k: int|
            0 <= k < whole.len() implies (#[trigger] whole[k]).len() >= 1
            && starts_with_child_name(ts, whole[k]) by {
            let h = head.len() as int;
            if k < h {
                assert(whole[k] == head[k]);
                assert(starts_with_child_name(prev, head[k]));
                let i = choose|i: int| 0 <= i < prev.len() && head[k][0] == (#[trigger] prev[
                    i
                ].name@);
                assert(prev[i] == ts[i]);
                assert(whole[k][0] == ts[i].name@);
            } else {
                assert(whole[k] == tail[k - h]);
                assert(whole[k][0] == ts[ts.len() - 1].name@);
            }
        }
    }
}

/// No component of `p` is a denylisted name.
pub open spec fn no_skip_component(p: Seq<Seq<char>>) -> bool {
    forall|j: int| 0 <= j < p.len() ==> !is_skip_name(#[trigger] p[j])
}

/// Following path `p` from `t` by child names reaches a directory that
/// directly holds the repository marker.
pub open spec fn path_leads_to_repo(t: DirTree, p: Seq<Seq<char>>) -> bool
    decreases p.len(),
{
    if p.len() == 0 {
        has_repo_marker(t)
    } else {
        exists|i: int|
            0 <= i < t.subdirs@.len() && (#[trigger] t.subdirs@[i].name@) == p[0]
                && path_leads_to_repo(t.subdirs@[i], p.drop_first())
    }
}

/// Discovery never reports a path into a denylisted directory: no reported
/// path passes through a denylisted name, and a denylisted root reports
/// nothing at all — the walk does not descend into such a directory, so a
/// repository nested inside one is never discovered.
pub proof fn lemma_no_denylisted_component(t: DirTree)
    ensures
        forall|k: int|
            0 <= k < repo_paths(t).len() ==> no_skip_component(#[trigger] repo_paths(t)[k]),
        is_skip_name(t.name@) ==> repo_paths(t).len() == 0,
    decreases t,
{
    if is_skip_name(t.name@) {
    } else if has_repo_marker(t) {
        assert(repo_paths(t) =~= seq![Seq::<Seq<char>>::empty()]);
        assert(no_skip_component(Seq::<Seq<char>>::empty()));
    } else {
        lemma_no_denylisted_component_children(t.subdirs@);
        assert forall|k: int|
            0 <= k < repo_paths(t).len() implies no_skip_component(
            #[trigger] repo_paths(t)[k],
        ) by {
            assert(repo_paths(t)[k] == repo_paths_children(t.subdirs@)[k]);
            assert(no_skip_component(repo_paths_children(t.subdirs@)[k]));
        }
    }
}

/// Child-sequence form of `lemma_no_denylisted_component`: every reported
/// path starts with a non-denylisted child name and stays clean below it.
proof fn lemma_no_denylisted_component_children(ts: Seq<DirTree>)
    ensures
        forall|k: int|
            0 <= k < repo_paths_children(ts).len() ==> no_skip_component(
                #[trigger] repo_paths_children(ts)[k],
            ),
    decreases ts,
{
    if ts.len() > 0 {
        lemma_no_denylisted_component_children(ts.drop_last());
        lemma_no_denylisted_component(ts.last());
        let last = ts.last();
        let head = repo_paths_children(ts.drop_last());
        let tail = prefixed(last.name@, repo_paths(last));
        assert forall|k: int|
            0 <= k < repo_paths_children(ts).len() implies no_skip_component(
            #[trigger] repo_paths_children(ts)[k],
        ) by {
            if k >= head.len() {
                let p = repo_paths(last)[k - head.len()];
                assert(no_skip_component(p));
                if is_skip_name(last.name@) {
                    assert(repo_paths(last).len() == 0);
                }
                assert(repo_paths_children(ts)[k] == seq![last.name@] + p);
                assert forall|j: int|
                    0 <= j < (seq![last.name@] + p).len() implies !is_skip_name(
                    #[trigger] (seq![last.name@] + p)[j],
                ) by {
                    if j > 0 {
                        assert(p[j - 1] == (seq![last.name@] + p)[j]);
                    }
                }
            }
        }
    }
}

/// Every reported path leads, child name by child name, to a directory
/// that directly holds the repository marker.
pub proof fn lemma_reported_are_repo_roots(t: DirTree)
    ensures
        forall|k: int|
            0 <= k < repo_paths(t).len() ==> path_leads_to_repo(t, #[trigger] repo_paths(t)[k]),
    decreases t, 1int, 0int,
{
    if is_skip_name(t.name@) {
    } else if has_repo_marker(t) {
        assert(repo_paths(t) =~= seq![Seq::<Seq<char>>::empty()]);
        assert(path_leads_to_repo(t, Seq::<Seq<char>>::empty()));
    } else {
        lemma_reported_lead_children(t, t.subdirs@.len() as int);
        assert(t.subdirs@.take(t.subdirs@.len() as int) =~= t.subdirs@);
        assert forall|k: int|
            0 <= k < repo_paths(t).len() implies path_leads_to_repo(
            t,
            #[trigger] repo_paths(t)[k],
        ) by {
            assert(repo_paths(t)[k] == repo_paths_children(
                t.subdirs@.take(t.subdirs@.len() as int),
            )[k]);
        }
    }
}

/// Bounded child-prefix form of `lemma_reported_are_repo_roots`: paths
/// reported under the first `n` children lead to repositories from their
/// parent.
proof fn lemma_reported_lead_children(t: DirTree, n: int)
    requires
        0 <= n <= t.subdirs@.len(),
    ensures
        forall|k: int|
            0 <= k < repo_paths_children(t.subdirs@.take(n)).len() ==> path_leads_to_repo(
                t,
                #[trigger] repo_paths_children(t.subdirs@.take(n))[k],
            ),
    decreases t, 0int, n,
{
    if n > 0 {
        lemma_reported_lead_children(t, n - 1);
        assert(t.subdirs@.take(n).drop_last() =~= t.subdirs@.take(n - 1));
        let child = t.subdirs@[n - 1];
        assert(t.subdirs@.take(n).last() == child);
        assert(decreases_to!(t => t.subdirs));
        assert(decreases_to!(t.subdirs => t.subdirs@));
        assert(decreases_to!(t.subdirs@ => t.subdirs@[n - 1]));
        lemma_reported_are_repo_roots(child);
        let head = repo_paths_children(t.subdirs@.take(n - 1));
        assert forall|k: int|
            0 <= k < repo_paths_children(t.subdirs@.take(n)).len() implies path_leads_to_repo(
            t,
            #[trigger] repo_paths_children(t.subdirs@.take(n))[k],
        ) by {
            if k >= head.len() {
                let p = repo_paths(child)[k - head.len()];
                assert(path_leads_to_repo(child, p));
                let full = seq![child.name@] + p;
                assert(repo_paths_children(t.subdirs@.take(n))[k] == full);
                assert(full.drop_first() =~= p);
                assert(full[0] == child.name@);
                assert(path_leads_to_repo(t, full));
            }
        }
    }
}

} // verus!
