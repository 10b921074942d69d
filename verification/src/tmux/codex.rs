//! The permission modes of Codex panes, read off their processes.

use vstd::prelude::*;
use vstd::std_specs::hash::*;

use crate::process;
use crate::process::{command_basename, ProcessSnapshot};
use crate::text::same;
use crate::tmux::query;
use crate::tmux::query::detect_codex_permission_mode;
use crate::tmux::types::{PaneInfo, PermissionMode, CODEX_AGENT};

verus! {

/// Whether a process below `root` runs Codex.
pub open spec fn codex_process(snapshot: ProcessSnapshot, root: u32, pid: u32) -> bool {
    &&& process::descends(snapshot, seq![root], pid)
    &&& snapshot.infos().contains_key(pid)
    &&& process::basename_of(snapshot.infos()[pid].comm) == CODEX_AGENT@
}

/// The permission mode that a Codex process asks for.
pub open spec fn process_mode(snapshot: ProcessSnapshot, pid: u32) -> PermissionMode {
    query::codex_mode_of(snapshot.infos()[pid].args)
}

/// Whether a mode follows from the processes below `root`. Without a Codex
/// process it stays. Otherwise it is the mode of one of them, and a mode other
/// than the default wins over the default.
pub open spec fn codex_resolved(
    snapshot: ProcessSnapshot,
    root: u32,
    before: PermissionMode,
    after: PermissionMode,
) -> bool {
    if exists|pid: u32| codex_process(snapshot, root, pid) {
        &&& exists|pid: u32| #[trigger]
            codex_process(snapshot, root, pid) && after == process_mode(snapshot, pid)
        &&& after == PermissionMode::Default ==> forall|pid: u32| #[trigger]
            codex_process(snapshot, root, pid) ==> process_mode(snapshot, pid)
                == PermissionMode::Default
    } else {
        after == before
    }
}

/// Whether a mode of the pane at an index follows from the entries, taken one
/// after the other.
pub open spec fn codex_chain(
    snapshot: ProcessSnapshot,
    entries: Seq<(usize, u32)>,
    index: int,
    before: PermissionMode,
    after: PermissionMode,
) -> bool
    decreases entries.len(),
{
    if entries.len() == 0 {
        after == before
    } else if entries.last().0 != index {
        codex_chain(snapshot, entries.drop_last(), index, before, after)
    } else {
        exists|middle: PermissionMode| #[trigger]
            codex_resolved(snapshot, entries.last().1, middle, after) && codex_chain(
                snapshot,
                entries.drop_last(),
                index,
                before,
                middle,
            )
    }
}

/// Whether panes differ in their permission modes alone, and those follow from
/// the entries.
pub open spec fn panes_resolved(
    snapshot: ProcessSnapshot,
    entries: Seq<(usize, u32)>,
    before: Seq<PaneInfo>,
    after: Seq<PaneInfo>,
) -> bool {
    &&& before.len() == after.len()
    &&& forall|k: int|
        0 <= k < before.len() ==> {
            &&& (#[trigger] after[k]) == (PaneInfo {
                permission_mode: after[k].permission_mode,
                ..before[k]
            })
            &&& codex_chain(
                snapshot,
                entries,
                k,
                before[k].permission_mode,
                after[k].permission_mode,
            )
        }
}

/// Sets the permission mode of a pane by the processes below `root`.
fn apply_codex_permission_mode(pane: &mut PaneInfo, root: u32, snapshot: &ProcessSnapshot)
    ensures
        *final(pane) == (PaneInfo { permission_mode: final(pane).permission_mode, ..*old(pane) }),
        codex_resolved(
            *snapshot,
            root,
            old(pane).permission_mode,
            final(pane).permission_mode,
        ),
{
    broadcast use group_hash_axioms;

    let roots = [root];
    proof {
        assert(roots@ =~= seq![root]);
    }
    let list = snapshot.descendants(&roots);
    let mut mode: Option<PermissionMode> = None;
    let mut i: usize = 0;
    while i < list.len() && (mode.is_none() || mode == Some(PermissionMode::Default))
        invariant
            i <= list@.len(),
            forall|pid: u32|
                #[trigger] list@.contains(pid) <==> process::descends(
                    *snapshot,
                    seq![root],
                    pid,
                ),
            mode is None ==> forall|k: int|
                0 <= k < i ==> !codex_process(*snapshot, root, #[trigger] list@[k]),
            mode matches Some(found) ==> exists|pid: u32| #[trigger]
                codex_process(*snapshot, root, pid) && found == process_mode(*snapshot, pid),
            mode == Some(PermissionMode::Default) ==> forall|k: int|
                0 <= k < i && codex_process(*snapshot, root, #[trigger] list@[k]) ==> process_mode(
                    *snapshot,
                    list@[k],
                ) == PermissionMode::Default,
        decreases list@.len() - i,
    {
        proof {
            assert(list@.contains(list@[i as int]));
        }
        if let Some(info) = snapshot.info_by_pid.get(&list[i]) {
            let name = command_basename(info.comm.as_str());
            if same(name.as_str(), CODEX_AGENT) {
                mode = Some(detect_codex_permission_mode(info.args.as_str()));
                proof {
                    assert(codex_process(*snapshot, root, list@[i as int]));
                }
            }
        }
        i = i + 1;
    }
    proof {
        assert forall|pid: u32| #[trigger] codex_process(*snapshot, root, pid) && i
            == list@.len() implies exists|k: int| 0 <= k < i && list@[k] == pid by {
            assert(list@.contains(pid));
        }
    }
    if let Some(found) = mode {
        pane.permission_mode = found;
    }
}

/// Sets the permission modes of panes, given by index with the process of each.
pub fn apply_codex_permission_modes(
    panes: &mut Vec<PaneInfo>,
    pids_to_check: &Vec<(usize, u32)>,
    process_snapshot: &ProcessSnapshot,
)
    ensures
        panes_resolved(*process_snapshot, pids_to_check@, old(panes)@, final(panes)@),
{
    let ghost before = panes@;
    let mut i: usize = 0;
    proof {
        assert(pids_to_check@.take(0) =~= Seq::<(usize, u32)>::empty());
    }
    while i < pids_to_check.len()
        invariant
            i <= pids_to_check@.len(),
            panes_resolved(*process_snapshot, pids_to_check@.take(i as int), before, panes@),
        decreases pids_to_check@.len() - i,
    {
        let (index, pid) = pids_to_check[i];
        let ghost middle = panes@;
        proof {
            assert(pids_to_check@.take(i + 1).drop_last() =~= pids_to_check@.take(i as int));
        }
        if index < panes.len() {
            apply_codex_permission_mode(&mut panes[index], pid, process_snapshot);
        }
        proof {
            assert forall|k: int| 0 <= k < before.len() implies {
                &&& (#[trigger] panes@[k]) == (PaneInfo {
                    permission_mode: panes@[k].permission_mode,
                    ..before[k]
                })
                &&& codex_chain(
                    *process_snapshot,
                    pids_to_check@.take(i + 1),
                    k,
                    before[k].permission_mode,
                    panes@[k].permission_mode,
                )
            } by {
                assert(middle[k] == (PaneInfo {
                    permission_mode: middle[k].permission_mode,
                    ..before[k]
                }));
                assert(codex_chain(
                    *process_snapshot,
                    pids_to_check@.take(i as int),
                    k,
                    before[k].permission_mode,
                    middle[k].permission_mode,
                ));
                let entries = pids_to_check@.take(i + 1);
                assert(entries.last() == (index, pid));
                if k == index {
                    assert(codex_resolved(
                        *process_snapshot,
                        pid,
                        middle[k].permission_mode,
                        panes@[k].permission_mode,
                    ));
                    assert(panes@[k] == (PaneInfo {
                        permission_mode: panes@[k].permission_mode,
                        ..middle[k]
                    }));
                } else {
                    assert(panes@[k] == middle[k]);
                }
            }
        }
        i = i + 1;
    }
    proof {
        assert(pids_to_check@.take(i as int) =~= pids_to_check@);
    }
}

/// The mode of a Codex pane is that of a Codex process of its own tree, and the default
/// only where none of these asks for more; without such a process it stays.
pub proof fn modes_come_from_the_own_processes(
    snapshot: ProcessSnapshot,
    index: usize,
    root: u32,
    before: Seq<PaneInfo>,
    after: Seq<PaneInfo>,
    pid: u32,
    other: int,
)
    requires
        panes_resolved(snapshot, seq![(index, root)], before, after),
        index < before.len(),
        0 <= other < before.len(),
        other != index,
    ensures
        after.len() == before.len(),
        after[other] == before[other],
        process::descends(snapshot, seq![root], pid) && snapshot.infos().contains_key(pid)
            && process::basename_of(snapshot.infos()[pid].comm) == "codex"@
            && query::codex_mode_of(snapshot.infos()[pid].args) !is Default ==> after[index as int]
            .permission_mode !is Default,
        (forall|p: u32| #[trigger]
            process::descends(snapshot, seq![root], p) && snapshot.infos().contains_key(p)
                ==> process::basename_of(snapshot.infos()[p].comm) != "codex"@)
            ==> after[index as int] == before[index as int],
        after[index as int].permission_mode != before[index as int].permission_mode ==> exists|p:
            u32| #[trigger]
            process::descends(snapshot, seq![root], p) && snapshot.infos().contains_key(p)
                && process::basename_of(snapshot.infos()[p].comm) == "codex"@
                && query::codex_mode_of(snapshot.infos()[p].args)
                == after[index as int].permission_mode,
{
    let entries = seq![(index, root)];
    let none = Seq::<(usize, u32)>::empty();
    assert(entries.drop_last() =~= none);
    reveal_with_fuel(codex_chain, 2);
    let mine = after[index as int];
    let theirs = after[other];
    assert(theirs.permission_mode == before[other].permission_mode);
    assert(codex_chain(
        snapshot,
        entries,
        index as int,
        before[index as int].permission_mode,
        mine.permission_mode,
    ));
    let middle = choose|middle: PermissionMode| #[trigger]
        codex_resolved(snapshot, entries.last().1, middle, mine.permission_mode) && codex_chain(
            snapshot,
            entries.drop_last(),
            index as int,
            before[index as int].permission_mode,
            middle,
        );
    assert(middle == before[index as int].permission_mode);
    assert(codex_resolved(snapshot, root, middle, mine.permission_mode));
    if process::descends(snapshot, seq![root], pid) && snapshot.infos().contains_key(pid)
        && process::basename_of(snapshot.infos()[pid].comm) == "codex"@ {
        assert(codex_process(snapshot, root, pid));
    }
    if exists|p: u32| codex_process(snapshot, root, p) {
        let p = choose|p: u32| #[trigger]
            codex_process(snapshot, root, p) && mine.permission_mode == process_mode(snapshot, p);
        assert(process::descends(snapshot, seq![root], p));
    }
}

} // verus!
