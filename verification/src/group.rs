//! Panes by repository.

use vstd::prelude::*;

use crate::tmux::types::PaneInfo;

verus! {

/// What git says of the directory of a pane.
#[derive(Debug, Clone, PartialEq, Eq)]
pub struct PaneGitInfo {
    pub repo_root: Option<String>,
    pub branch: Option<String>,
    pub is_worktree: bool,
    pub worktree_name: Option<String>,
}

impl Default for PaneGitInfo {
    fn default() -> (info: Self)
        ensures
            info.repo_root is None,
            info.branch is None,
            !info.is_worktree,
            info.worktree_name is None,
    {
        PaneGitInfo { repo_root: None, branch: None, is_worktree: false, worktree_name: None }
    }
}

/// The panes of a repository.
#[derive(Debug)]
pub struct RepoGroup {
    pub name: String,
    pub has_focus: bool,
    pub panes: Vec<(PaneInfo, PaneGitInfo)>,
}

/// The panes of the groups, in order.
pub open spec fn grouped_panes(groups: Seq<RepoGroup>) -> Seq<PaneInfo>
    decreases groups.len(),
{
    if groups.len() == 0 {
        Seq::<PaneInfo>::empty()
    } else {
        grouped_panes(groups.drop_last()) + groups.last().panes@.map_values(
            |entry: (PaneInfo, PaneGitInfo)| entry.0,
        )
    }
}

/// The panes of the groups, in order.
pub fn group_panes(groups: &Vec<RepoGroup>) -> (panes: Vec<&PaneInfo>)
    ensures
        panes@.len() == grouped_panes(groups@).len(),
        forall|i: int| 0 <= i < panes@.len() ==> *(#[trigger] panes@[i]) == grouped_panes(groups@)[i],
{
    let mut out: Vec<&PaneInfo> = Vec::new();
    let mut i: usize = 0;
    proof {
        assert(groups@.take(0) =~= Seq::<RepoGroup>::empty());
    }
    while i < groups.len()
        invariant
            i <= groups@.len(),
            out@.len() == grouped_panes(groups@.take(i as int)).len(),
            forall|n: int|
                0 <= n < out@.len() ==> *(#[trigger] out@[n]) == grouped_panes(
                    groups@.take(i as int),
                )[n],
        decreases groups@.len() - i,
    {
        let ghost before = grouped_panes(groups@.take(i as int));
        let panes = &groups[i].panes;
        let ghost mine = panes@.map_values(|entry: (PaneInfo, PaneGitInfo)| entry.0);
        let mut k: usize = 0;
        while k < panes.len()
            invariant
                k <= panes@.len(),
                mine == panes@.map_values(|entry: (PaneInfo, PaneGitInfo)| entry.0),
                out@.len() == before.len() + k,
                forall|n: int| 0 <= n < out@.len() ==> *(#[trigger] out@[n]) == (before + mine)[n],
            decreases panes@.len() - k,
        {
            out.push(&panes[k].0);
            k = k + 1;
        }
        proof {
            assert(groups@.take(i + 1).drop_last() =~= groups@.take(i as int));
            assert(grouped_panes(groups@.take(i + 1)) =~= before + mine);
        }
        i = i + 1;
    }
    proof {
        assert(groups@.take(i as int) =~= groups@);
    }
    out
}

/// The panes of a group stand together, in their order, between those of the groups before
/// and behind it.
pub proof fn panes_of_a_group_stand_together(
    before: Seq<RepoGroup>,
    group: RepoGroup,
    after: Seq<RepoGroup>,
    k: int,
)
    requires
        0 <= k < group.panes@.len(),
    ensures
        ({
            let all = grouped_panes(before + seq![group] + after);
            &&& all.len() == grouped_panes(before).len() + group.panes@.len() + grouped_panes(
                after,
            ).len()
            &&& all[grouped_panes(before).len() + k] == group.panes@[k].0
        }),
        grouped_panes(Seq::<RepoGroup>::empty()).len() == 0,
    decreases after.len(),
{
    let groups = before + seq![group] + after;
    if after.len() == 0 {
        assert(groups.drop_last() =~= before);
    } else {
        let rest = after.drop_last();
        panes_of_a_group_stand_together(before, group, rest, k);
        assert(groups.drop_last() =~= before + seq![group] + rest);
        assert(groups.last() == after.last());
    }
}

} // verus!
