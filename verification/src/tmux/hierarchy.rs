//! Windows by session, in the order in which they were first seen.

use indexmap::IndexMap;

use vstd::prelude::*;

use crate::cut;
use crate::cut::lines;
use crate::number;
use crate::process::ProcessSnapshot;
use crate::text;
use crate::text::{owned, same};
use crate::tmux::codex;
use crate::tmux::codex::apply_codex_permission_modes;
use crate::tmux::options;
use crate::tmux::options::PaneOptions;
use crate::tmux::query;
use crate::tmux::query::{
    parse_pane_fields_with_processes, parse_pid, split_tmux_fields, AUTOMATIC_RENAME,
    FIELD_AGENT, FIELD_PANE_PID, LINE_MIN_FIELDS, PANE_LINE_OFFSET, SESSION_NAME, WINDOW_ACTIVE,
    WINDOW_ID, WINDOW_NAME,
};
use crate::tmux::types;
use crate::tmux::types::{AgentType, PaneInfo, SessionInfo, WindowInfo};

verus! {

/// The `IndexMap` of the crate `indexmap`: a map that keeps the order in which
/// its keys came.
#[verifier::external_type_specification]
#[verifier::external_body]
#[verifier::reject_recursive_types(K)]
#[verifier::reject_recursive_types(V)]
#[verifier::reject_recursive_types(S)]
pub struct ExIndexMap<K, V, S>(IndexMap<K, V, S>);

/// The windows of one session, by id.
pub type WindowMap = IndexMap<String, WindowInfo>;

/// The windows of all sessions, by session name.
pub type SessionMap = IndexMap<String, WindowMap>;

/// The entries of a window map, in order.
pub uninterp spec fn window_entries(map: IndexMap<String, WindowInfo>) -> Seq<
    (Seq<char>, WindowInfo),
>;

/// The entries of a session map, in order.
pub uninterp spec fn session_entries(map: IndexMap<String, IndexMap<String, WindowInfo>>) -> Seq<
    (Seq<char>, IndexMap<String, WindowInfo>),
>;

/// The index of the first entry with a key, from index `at` on.
pub open spec fn keyed<V>(entries: Seq<(Seq<char>, V)>, key: Seq<char>, at: int) -> Option<int>
    decreases entries.len() - at,
{
    if at < 0 || at >= entries.len() {
        None
    } else if entries[at].0 == key {
        Some(at)
    } else {
        keyed(entries, key, at + 1)
    }
}

/// The entries with a value under a key: in place where the key is known, and
/// else at the end.
pub open spec fn placed<V>(entries: Seq<(Seq<char>, V)>, key: Seq<char>, value: V) -> Seq<
    (Seq<char>, V),
> {
    match keyed(entries, key, 0) {
        Some(at) => entries.update(at, (key, value)),
        None => entries.push((key, value)),
    }
}

/// `IndexMap::new` makes a map without entries.
#[verifier::external_body]
fn no_sessions() -> (map: SessionMap)
    ensures
        session_entries(map) == Seq::<(Seq<char>, WindowMap)>::empty(),
{
    IndexMap::new()
}

/// `IndexMap::entry` with `or_default` gives the value of a key, which is an
/// empty map behind the other entries where the key was not known.
#[verifier::external_body]
fn session_slot(map: &mut SessionMap, name: String) -> (windows: &mut WindowMap)
    ensures
        match keyed(session_entries(*old(map)), name@, 0) {
            Some(at) => *windows == session_entries(*old(map))[at].1,
            None => window_entries(*windows) == Seq::<(Seq<char>, WindowInfo)>::empty(),
        },
        session_entries(*final(map)) == placed(
            session_entries(*old(map)),
            name@,
            *final(windows),
        ),
{
    map.entry(name).or_default()
}

/// `IndexMap::entry` with `or_insert` gives the value of a key, which is `fresh`
/// behind the other entries where the key was not known.
#[verifier::external_body]
fn window_slot(map: &mut WindowMap, id: String, fresh: WindowInfo) -> (window: &mut WindowInfo)
    ensures
        *window == match keyed(window_entries(*old(map)), id@, 0) {
            Some(at) => window_entries(*old(map))[at].1,
            None => fresh,
        },
        window_entries(*final(map)) == placed(window_entries(*old(map)), id@, *final(window)),
{
    map.entry(id).or_insert(fresh)
}

/// `IndexMap::into_iter` hands the sessions out in order.
#[verifier::external_body]
fn take_sessions(map: SessionMap) -> (list: Vec<(String, WindowMap)>)
    ensures
        list@.map_values(|entry: (String, WindowMap)| (entry.0@, entry.1)) == session_entries(map),
{
    map.into_iter().collect()
}

/// `IndexMap::into_iter` hands the windows out in order.
#[verifier::external_body]
fn take_windows(map: WindowMap) -> (list: Vec<(String, WindowInfo)>)
    ensures
        list@.map_values(|entry: (String, WindowInfo)| (entry.0@, entry.1)) == window_entries(map),
{
    map.into_iter().collect()
}

/// The model of the windows of a session, by id.
pub type WindowList = Seq<(Seq<char>, types::WindowModel)>;

/// The model of the windows of all sessions, by session name.
pub type SessionList = Seq<(Seq<char>, Seq<(Seq<char>, types::WindowModel)>)>;

/// The model of a window map.
pub open spec fn window_list(map: WindowMap) -> WindowList {
    window_entries(map).map_values(|entry: (Seq<char>, WindowInfo)| (entry.0, entry.1@))
}

/// The model of a session map.
pub open spec fn session_list(map: SessionMap) -> SessionList {
    session_entries(map).map_values(
        |entry: (Seq<char>, WindowMap)| (entry.0, window_list(entry.1)),
    )
}

proof fn keyed_bounds<V>(entries: Seq<(Seq<char>, V)>, key: Seq<char>, at: int)
    requires
        0 <= at,
    ensures
        keyed(entries, key, at) matches Some(found) ==> at <= found < entries.len()
            && entries[found].0 == key,
    decreases entries.len() - at,
{
    if at < entries.len() && entries[at].0 != key {
        keyed_bounds(entries, key, at + 1);
    }
}

proof fn keyed_same<V, W>(
    left: Seq<(Seq<char>, V)>,
    right: Seq<(Seq<char>, W)>,
    key: Seq<char>,
    at: int,
)
    requires
        0 <= at,
        left.len() == right.len(),
        forall|i: int| 0 <= i < left.len() ==> (#[trigger] left[i]).0 == right[i].0,
    ensures
        keyed(left, key, at) == keyed(right, key, at),
    decreases left.len() - at,
{
    if at < left.len() {
        assert(left[at].0 == right[at].0);
        keyed_same(left, right, key, at + 1);
    }
}

/// The windows of a session.
pub open spec fn windows_in(sessions: SessionList, session: Seq<char>) -> WindowList {
    match keyed(sessions, session, 0) {
        Some(at) => sessions[at].1,
        None => Seq::<(Seq<char>, types::WindowModel)>::empty(),
    }
}

/// A window of a session, which is `fresh` where the window was not known.
pub open spec fn window_in(
    windows: WindowList,
    id: Seq<char>,
    fresh: types::WindowModel,
) -> types::WindowModel {
    match keyed(windows, id, 0) {
        Some(at) => windows[at].1,
        None => fresh,
    }
}

/// A window with one more pane, where there is one.
pub open spec fn with_pane(
    window: types::WindowModel,
    pane: Option<types::PaneModel>,
) -> types::WindowModel {
    match pane {
        Some(found) => types::WindowModel { panes: window.panes.push(found), ..window },
        None => window,
    }
}

/// The sessions once a window was seen, and a pane of it.
pub open spec fn with_window(
    sessions: SessionList,
    session: Seq<char>,
    id: Seq<char>,
    fresh: types::WindowModel,
    pane: Option<types::PaneModel>,
) -> SessionList {
    let windows = windows_in(sessions, session);
    placed(sessions, session, placed(windows, id, with_pane(window_in(windows, id, fresh), pane)))
}

/// The model of an optional pane.
pub open spec fn pane_model(pane: Option<PaneInfo>) -> Option<types::PaneModel> {
    match pane {
        Some(found) => Some(found@),
        None => None,
    }
}

/// Records a window, and a pane of it; gives how many panes it had before.
fn add_pane(
    map: &mut SessionMap,
    session: &str,
    id: &str,
    fresh: WindowInfo,
    pane: Option<PaneInfo>,
) -> (index: usize)
    ensures
        session_list(*final(map)) == with_window(
            session_list(*old(map)),
            session@,
            id@,
            fresh@,
            pane_model(pane),
        ),
        index == window_in(windows_in(session_list(*old(map)), session@), id@, fresh@).panes.len(),
{
    let ghost before = session_entries(*map);
    let ghost before_list = session_list(*map);
    proof {
        keyed_same(before, before_list, session@, 0);
        keyed_bounds(before, session@, 0);
    }
    let windows = session_slot(map, owned(session));
    let ghost old_windows = window_entries(*windows);
    let ghost old_list = window_list(*windows);
    proof {
        keyed_same(old_windows, old_list, id@, 0);
        keyed_bounds(old_windows, id@, 0);
        assert(old_list =~= windows_in(before_list, session@));
    }
    let window = window_slot(windows, owned(id), fresh);
    let ghost old_window = window@;
    let index: usize = window.panes.len();
    let ghost old_panes = window.panes@;
    let ghost added = pane_model(pane);
    if let Some(found) = pane {
        window.panes.push(found);
        proof {
            assert(types::pane_models(window.panes@) =~= types::pane_models(old_panes).push(
                found@,
            ));
        }
    }
    let ghost new_window = *window;
    proof {
        assert(new_window@ == with_pane(old_window, added));
        let new_windows = placed(old_windows, id@, new_window);
        let new_list = placed(old_list, id@, new_window@);
        assert(new_windows.map_values(|entry: (Seq<char>, WindowInfo)| (entry.0, entry.1@))
            =~= new_list);
    }
    proof {
        assert(session_list(*map) =~= with_window(before_list, session@, id@, fresh@, added));
    }
    index
}

/// A Codex pane: its window, its index in the window, and its process.
pub type CodexPidEntry = (String, usize, u32);

/// The model of a Codex pane.
pub struct CodexModel {
    pub window_id: Seq<char>,
    pub index: nat,
    pub pid: u32,
}

/// The models of a list of Codex panes.
pub open spec fn codex_models(list: Seq<CodexPidEntry>) -> Seq<CodexModel> {
    list.map_values(
        |entry: CodexPidEntry|
            (CodexModel { window_id: entry.0@, index: entry.1 as nat, pid: entry.2 }),
    )
}

/// What the lines read so far come to.
pub struct HierarchyModel {
    pub sessions: SessionList,
    pub codex: Seq<CodexModel>,
    pub seen: Set<u32>,
    pub writes: Seq<options::WriteModel>,
}

/// Whether a line repeats a process that was seen. Process 0 never repeats.
pub open spec fn repeats(seen: Set<u32>, pid: Option<u32>) -> bool {
    match pid {
        Some(number) => number != 0 && seen.contains(number),
        None => false,
    }
}

/// The processes seen, with that of a line.
pub open spec fn now_seen(seen: Set<u32>, pid: Option<u32>) -> Set<u32> {
    match pid {
        Some(number) => if number != 0 {
            seen.insert(number)
        } else {
            seen
        },
        None => seen,
    }
}

/// The window that a line is the first to name.
pub open spec fn fresh_window(parts: Seq<Seq<char>>) -> types::WindowModel {
    types::WindowModel {
        window_id: parts[WINDOW_ID as int],
        window_name: parts[WINDOW_NAME as int],
        window_active: parts[WINDOW_ACTIVE as int] == "1"@,
        auto_rename: parts[AUTOMATIC_RENAME as int] == "1"@,
        panes: Seq::<types::PaneModel>::empty(),
    }
}

/// What the lines come to, one line later. A pane that appears in several
/// grouped sessions counts where it appears first.
pub open spec fn hierarchy_step(
    before: HierarchyModel,
    line: Seq<char>,
    snapshot: Option<ProcessSnapshot>,
) -> HierarchyModel {
    let parts = query::fields_of(line, '|');
    if parts.len() < LINE_MIN_FIELDS {
        before
    } else {
        let fields = parts.skip(PANE_LINE_OFFSET as int);
        let pid = query::pid_of(fields[FIELD_PANE_PID as int]);
        if repeats(before.seen, pid) {
            before
        } else {
            let outcome = query::pane_outcome(fields, snapshot);
            let pane = match outcome {
                query::PaneOutcome::Pane(found) => Some(found),
                _ => None,
            };
            let session = parts[SESSION_NAME as int];
            let id = parts[WINDOW_ID as int];
            let fresh = fresh_window(parts);
            let window = window_in(windows_in(before.sessions, session), id, fresh);
            HierarchyModel {
                sessions: with_window(before.sessions, session, id, fresh, pane),
                codex: match pane {
                    Some(found) => match found.pane_pid {
                        Some(number) => if found.agent == AgentType::Codex {
                            before.codex.push(
                                CodexModel {
                                    window_id: id,
                                    index: window.panes.len(),
                                    pid: number,
                                },
                            )
                        } else {
                            before.codex
                        },
                        None => before.codex,
                    },
                    None => before.codex,
                },
                seen: now_seen(before.seen, pid),
                writes: before.writes + query::outcome_writes(fields, outcome),
            }
        }
    }
}

/// What the lines come to.
pub open spec fn hierarchy_of(
    list: Seq<Seq<char>>,
    snapshot: Option<ProcessSnapshot>,
) -> HierarchyModel
    decreases list.len(),
{
    if list.len() == 0 {
        HierarchyModel {
            sessions: Seq::<(Seq<char>, Seq<(Seq<char>, types::WindowModel)>)>::empty(),
            codex: Seq::<CodexModel>::empty(),
            seen: Set::<u32>::empty(),
            writes: Seq::<options::WriteModel>::empty(),
        }
    } else {
        hierarchy_step(hierarchy_of(list.drop_last(), snapshot), list.last(), snapshot)
    }
}

/// The process list that a reference stands for.
pub open spec fn snapshot_of(snapshot: Option<&ProcessSnapshot>) -> Option<ProcessSnapshot> {
    match snapshot {
        Some(found) => Some(*found),
        None => None,
    }
}

/// What has been read of the output so far.
pub struct Hierarchy {
    pub sessions: SessionMap,
    pub codex_pids: Vec<CodexPidEntry>,
    pub seen: Vec<u32>,
}

impl Hierarchy {
    /// Whether a draft, with what was written since `start`, stands for a model.
    pub open spec fn stands_for(
        &self,
        log: Seq<options::WriteModel>,
        start: Seq<options::WriteModel>,
        model: HierarchyModel,
    ) -> bool {
        &&& session_list(self.sessions) == model.sessions
        &&& codex_models(self.codex_pids@) == model.codex
        &&& self.seen@.to_set() == model.seen
        &&& log == start + model.writes
    }

    fn take_line(
        &mut self,
        line: &str,
        snapshot: Option<&ProcessSnapshot>,
        log: &mut PaneOptions,
        Ghost(start): Ghost<Seq<options::WriteModel>>,
        Ghost(model): Ghost<HierarchyModel>,
    )
        requires
            old(self).stands_for(old(log)@, start, model),
        ensures
            final(self).stands_for(
                final(log)@,
                start,
                hierarchy_step(model, line@, snapshot_of(snapshot)),
            ),
    {
        let parts = split_tmux_fields(line, '|');
        let ghost fields = text::texts(parts@);
        if parts.len() < LINE_MIN_FIELDS {
            return;
        }
        let pane_fields = vstd::slice::slice_subrange(
            parts.as_slice(),
            PANE_LINE_OFFSET,
            parts.len(),
        );
        proof {
            assert(text::texts(pane_fields@) =~= fields.skip(PANE_LINE_OFFSET as int));
            assert(fields[SESSION_NAME as int] == parts@[SESSION_NAME as int]@);
            assert(fields[WINDOW_ID as int] == parts@[WINDOW_ID as int]@);
            assert(fields[WINDOW_NAME as int] == parts@[WINDOW_NAME as int]@);
            assert(fields[WINDOW_ACTIVE as int] == parts@[WINDOW_ACTIVE as int]@);
            assert(fields[AUTOMATIC_RENAME as int] == parts@[AUTOMATIC_RENAME as int]@);
            assert(pane_fields@[FIELD_PANE_PID as int]@ == fields.skip(
                PANE_LINE_OFFSET as int,
            )[FIELD_PANE_PID as int]);
        }
        let pid = parse_pid(pane_fields[FIELD_PANE_PID].as_str());
        if let Some(number) = pid {
            if number != 0 {
                if has_number(&self.seen, number) {
                    return;
                }
                let ghost before = self.seen@;
                self.seen.push(number);
                proof {
                    assert(self.seen@.to_set() =~= before.to_set().insert(number)) by {
                        assert forall|x: u32| self.seen@.contains(x) == (before.contains(x) || x
                            == number) by {
                            if before.contains(x) {
                                let i = choose|i: int| 0 <= i < before.len() && before[i] == x;
                                assert(self.seen@[i] == x);
                            }
                            if x == number {
                                assert(self.seen@[before.len() as int] == x);
                            }
                        }
                    }
                }
            }
        }
        let ghost old_log = log@;
        let pane = parse_pane_fields_with_processes(pane_fields, snapshot, log);
        proof {
            let outcome = query::pane_outcome(text::texts(pane_fields@), snapshot_of(snapshot));
            let writes = query::outcome_writes(text::texts(pane_fields@), outcome);
            assert(start + model.writes + writes =~= start + (model.writes + writes));
        }
        let fresh = WindowInfo {
            window_id: parts[WINDOW_ID].clone(),
            window_name: parts[WINDOW_NAME].clone(),
            window_active: same(parts[WINDOW_ACTIVE].as_str(), "1"),
            auto_rename: same(parts[AUTOMATIC_RENAME].as_str(), "1"),
            panes: Vec::new(),
        };
        proof {
            assert(fresh@.panes =~= Seq::<types::PaneModel>::empty());
        }
        let codex_pid: Option<u32> = match &pane {
            Some(found) => if found.agent == AgentType::Codex {
                found.pane_pid
            } else {
                None
            },
            None => None,
        };
        let index = add_pane(
            &mut self.sessions,
            parts[SESSION_NAME].as_str(),
            parts[WINDOW_ID].as_str(),
            fresh,
            pane,
        );
        if let Some(number) = codex_pid {
            let ghost before = codex_models(self.codex_pids@);
            self.codex_pids.push((parts[WINDOW_ID].clone(), index, number));
            proof {
                assert(codex_models(self.codex_pids@) =~= before.push(
                    CodexModel {
                        window_id: fields[WINDOW_ID as int],
                        index: index as nat,
                        pid: number,
                    },
                ));
            }
        }
    }
}

fn has_number(list: &Vec<u32>, number: u32) -> (yes: bool)
    ensures
        yes == list@.to_set().contains(number),
{
    let mut i: usize = 0;
    while i < list.len()
        invariant
            i <= list@.len(),
            forall|k: int| 0 <= k < i ==> list@[k] != number,
        decreases list@.len() - i,
    {
        if list[i] == number {
            proof {
                assert(list@.contains(number));
            }
            return true;
        }
        i = i + 1;
    }
    false
}

/// Parse the raw `tmux list-panes` output into an indexed session→window→pane
/// hierarchy. Also collects every Codex pane's pid so the caller can resolve
/// permission modes in a single pass.
pub fn build_session_hierarchy(
    all_panes_output: &str,
    process_snapshot: Option<&ProcessSnapshot>,
    log: &mut PaneOptions,
) -> (hierarchy: Hierarchy)
    ensures
        hierarchy.stands_for(
            final(log)@,
            old(log)@,
            hierarchy_of(cut::lines_of(all_panes_output@), snapshot_of(process_snapshot)),
        ),
{
    let list = lines(all_panes_output);
    let ghost start = log@;
    let ghost snapshot = snapshot_of(process_snapshot);
    let mut hierarchy = Hierarchy {
        sessions: no_sessions(),
        codex_pids: Vec::new(),
        seen: Vec::new(),
    };
    let mut i: usize = 0;
    proof {
        assert(text::texts(list@).take(0) =~= Seq::<Seq<char>>::empty());
        let empty = hierarchy_of(Seq::<Seq<char>>::empty(), snapshot);
        assert(session_list(hierarchy.sessions) =~= empty.sessions);
        assert(codex_models(hierarchy.codex_pids@) =~= empty.codex);
        assert(hierarchy.seen@.to_set() =~= empty.seen);
        assert(start + empty.writes =~= start);
    }
    while i < list.len()
        invariant
            i <= list@.len(),
            snapshot == snapshot_of(process_snapshot),
            hierarchy.stands_for(
                log@,
                start,
                hierarchy_of(text::texts(list@).take(i as int), snapshot),
            ),
        decreases list@.len() - i,
    {
        let ghost model = hierarchy_of(text::texts(list@).take(i as int), snapshot);
        proof {
            let head = text::texts(list@).take(i + 1);
            assert(head.drop_last() =~= text::texts(list@).take(i as int));
            assert(head.last() == list@[i as int]@);
        }
        hierarchy.take_line(list[i].as_str(), process_snapshot, log, Ghost(start), Ghost(model));
        i = i + 1;
    }
    proof {
        assert(text::texts(list@).take(i as int) =~= cut::lines_of(all_panes_output@));
    }
    hierarchy
}

/// The windows by session, as plain lists.
pub type SessionDraft = Vec<(String, Vec<(String, WindowInfo)>)>;

/// The model of the windows of a session.
pub open spec fn draft_windows(list: Seq<(String, WindowInfo)>) -> WindowList {
    list.map_values(|entry: (String, WindowInfo)| (entry.0@, entry.1@))
}

/// The model of the windows by session.
pub open spec fn draft_sessions(list: Seq<(String, Vec<(String, WindowInfo)>)>) -> SessionList {
    list.map_values(
        |entry: (String, Vec<(String, WindowInfo)>)| (entry.0@, draft_windows(entry.1@)),
    )
}

/// Turns a session map into plain lists.
fn take_all(map: SessionMap) -> (draft: SessionDraft)
    ensures
        draft_sessions(draft@) == session_list(map),
{
    let ghost entries = session_entries(map);
    let mut sessions = take_sessions(map);
    let ghost all = sessions@;
    let mut draft: SessionDraft = Vec::new();
    let ghost mut count: int = 0;
    while sessions.len() > 0
        invariant
            0 <= count <= all.len(),
            entries == all.map_values(|entry: (String, WindowMap)| (entry.0@, entry.1)),
            sessions@ == all.skip(count),
            draft@.len() == count,
            forall|k: int|
                0 <= k < count ==> (#[trigger] draft@[k]).0@ == entries[k].0 && draft_windows(
                    draft@[k].1@,
                ) == window_list(entries[k].1),
        decreases sessions@.len(),
    {
        let (name, windows) = sessions.remove(0);
        proof {
            assert((name, windows) == all[count]);
            assert(all.skip(count).remove(0) =~= all.skip(count + 1));
        }
        let list = take_windows(windows);
        proof {
            assert(draft_windows(list@) =~= window_list(windows));
        }
        draft.push((name, list));
        proof {
            count = count + 1;
        }
    }
    proof {
        assert(draft_sessions(draft@) =~= session_list(map));
    }
    draft
}

/// The Codex panes of a window: their indices and processes.
pub open spec fn entries_for(list: Seq<CodexPidEntry>, id: Seq<char>) -> Seq<(usize, u32)>
    decreases list.len(),
{
    if list.len() == 0 {
        Seq::<(usize, u32)>::empty()
    } else {
        let before = entries_for(list.drop_last(), id);
        if list.last().0@ == id {
            before.push((list.last().1, list.last().2))
        } else {
            before
        }
    }
}

fn window_pids(list: &Vec<CodexPidEntry>, id: &str) -> (entries: Vec<(usize, u32)>)
    ensures
        entries@ == entries_for(list@, id@),
{
    let mut entries: Vec<(usize, u32)> = Vec::new();
    let mut i: usize = 0;
    proof {
        assert(list@.take(0) =~= Seq::<CodexPidEntry>::empty());
    }
    while i < list.len()
        invariant
            i <= list@.len(),
            entries@ == entries_for(list@.take(i as int), id@),
        decreases list@.len() - i,
    {
        proof {
            assert(list@.take(i + 1).drop_last() =~= list@.take(i as int));
        }
        if same(list[i].0.as_str(), id) {
            entries.push((list[i].1, list[i].2));
        }
        i = i + 1;
    }
    proof {
        assert(list@.take(i as int) =~= list@);
    }
    entries
}

/// Whether a window differs in the permission modes of its panes alone, and
/// those follow from its Codex panes.
pub open spec fn window_resolved(
    snapshot: ProcessSnapshot,
    codex_pids: Seq<CodexPidEntry>,
    before: (String, WindowInfo),
    after: (String, WindowInfo),
) -> bool {
    &&& after.0 == before.0
    &&& after.1 == (WindowInfo { panes: after.1.panes, ..before.1 })
    &&& codex::panes_resolved(
        snapshot,
        entries_for(codex_pids, before.0@),
        before.1.panes@,
        after.1.panes@,
    )
}

/// Whether each window is resolved.
pub open spec fn windows_resolved(
    snapshot: ProcessSnapshot,
    codex_pids: Seq<CodexPidEntry>,
    before: Seq<(String, WindowInfo)>,
    after: Seq<(String, WindowInfo)>,
) -> bool {
    &&& before.len() == after.len()
    &&& forall|j: int|
        0 <= j < before.len() ==> window_resolved(
            snapshot,
            codex_pids,
            before[j],
            #[trigger] after[j],
        )
}

/// Whether the windows of each session are resolved.
pub open spec fn sessions_resolved(
    snapshot: ProcessSnapshot,
    codex_pids: Seq<CodexPidEntry>,
    before: Seq<(String, Vec<(String, WindowInfo)>)>,
    after: Seq<(String, Vec<(String, WindowInfo)>)>,
) -> bool {
    &&& before.len() == after.len()
    &&& forall|i: int|
        0 <= i < before.len() ==> (#[trigger] after[i]).0 == before[i].0 && windows_resolved(
            snapshot,
            codex_pids,
            before[i].1@,
            after[i].1@,
        )
}

fn resolve_window(
    entry: &mut (String, WindowInfo),
    codex_pids: &Vec<CodexPidEntry>,
    snapshot: &ProcessSnapshot,
)
    ensures
        window_resolved(*snapshot, codex_pids@, *old(entry), *final(entry)),
{
    let entries = window_pids(codex_pids, entry.0.as_str());
    apply_codex_permission_modes(&mut entry.1.panes, &entries, snapshot);
}

fn resolve_windows(
    windows: &mut Vec<(String, WindowInfo)>,
    codex_pids: &Vec<CodexPidEntry>,
    snapshot: &ProcessSnapshot,
)
    ensures
        windows_resolved(*snapshot, codex_pids@, old(windows)@, final(windows)@),
{
    let ghost before = windows@;
    let mut j: usize = 0;
    while j < windows.len()
        invariant
            j <= windows@.len(),
            windows@.len() == before.len(),
            forall|k: int|
                0 <= k < j ==> window_resolved(
                    *snapshot,
                    codex_pids@,
                    before[k],
                    #[trigger] windows@[k],
                ),
            forall|k: int| j <= k < before.len() ==> #[trigger] windows@[k] == before[k],
        decreases before.len() - j,
    {
        resolve_window(&mut windows[j], codex_pids, snapshot);
        j = j + 1;
    }
}

/// Fan out Codex permission mode updates to every Codex pane across every
/// window using one process snapshot.
pub fn resolve_codex_permission_modes(
    sessions: &mut SessionDraft,
    codex_pids: &Vec<CodexPidEntry>,
    process_snapshot: &ProcessSnapshot,
)
    ensures
        sessions_resolved(*process_snapshot, codex_pids@, old(sessions)@, final(sessions)@),
{
    let ghost before = sessions@;
    let mut i: usize = 0;
    while i < sessions.len()
        invariant
            i <= sessions@.len(),
            sessions@.len() == before.len(),
            forall|k: int|
                0 <= k < i ==> (#[trigger] sessions@[k]).0 == before[k].0 && windows_resolved(
                    *process_snapshot,
                    codex_pids@,
                    before[k].1@,
                    sessions@[k].1@,
                ),
            forall|k: int| i <= k < before.len() ==> #[trigger] sessions@[k] == before[k],
        decreases before.len() - i,
    {
        resolve_windows(&mut sessions[i].1, codex_pids, process_snapshot);
        i = i + 1;
    }
}

/// The windows that hold a pane.
pub open spec fn filled_windows(windows: WindowList) -> Seq<types::WindowModel>
    decreases windows.len(),
{
    if windows.len() == 0 {
        Seq::<types::WindowModel>::empty()
    } else {
        let before = filled_windows(windows.drop_last());
        if windows.last().1.panes.len() > 0 {
            before.push(windows.last().1)
        } else {
            before
        }
    }
}

/// The sessions that hold a window that holds a pane.
pub open spec fn finalized(sessions: SessionList) -> Seq<types::SessionModel>
    decreases sessions.len(),
{
    if sessions.len() == 0 {
        Seq::<types::SessionModel>::empty()
    } else {
        let before = finalized(sessions.drop_last());
        let windows = filled_windows(sessions.last().1);
        if windows.len() > 0 {
            before.push(types::SessionModel { session_name: sessions.last().0, windows })
        } else {
            before
        }
    }
}

fn keep_filled(list: Vec<(String, WindowInfo)>) -> (kept: Vec<WindowInfo>)
    ensures
        types::window_models(kept@) == filled_windows(draft_windows(list@)),
{
    let ghost all = list@;
    let mut rest = list;
    let mut kept: Vec<WindowInfo> = Vec::new();
    let ghost mut count: int = 0;
    proof {
        assert(draft_windows(all).take(0) =~= Seq::<(Seq<char>, types::WindowModel)>::empty());
        assert(types::window_models(kept@) =~= Seq::<types::WindowModel>::empty());
    }
    while rest.len() > 0
        invariant
            0 <= count <= all.len(),
            rest@ == all.skip(count),
            types::window_models(kept@) == filled_windows(draft_windows(all).take(count)),
        decreases rest@.len(),
    {
        let (id, window) = rest.remove(0);
        let ghost before = types::window_models(kept@);
        proof {
            assert((id, window) == all[count]);
            assert(all.skip(count).remove(0) =~= all.skip(count + 1));
            let head = draft_windows(all).take(count + 1);
            assert(head.drop_last() =~= draft_windows(all).take(count));
            assert(head.last() == (id@, window@));
        }
        if window.panes.len() > 0 {
            kept.push(window);
            proof {
                assert(types::window_models(kept@) =~= before.push(window@));
            }
        }
        proof {
            count = count + 1;
        }
    }
    proof {
        assert(draft_windows(all).take(count) =~= draft_windows(all));
    }
    kept
}

fn finalize_draft(draft: SessionDraft) -> (sessions: Vec<SessionInfo>)
    ensures
        types::session_models(sessions@) == finalized(draft_sessions(draft@)),
{
    let ghost all = draft@;
    let mut rest = draft;
    let mut sessions: Vec<SessionInfo> = Vec::new();
    let ghost mut count: int = 0;
    proof {
        assert(draft_sessions(all).take(0) =~= Seq::<
            (Seq<char>, Seq<(Seq<char>, types::WindowModel)>),
        >::empty());
        assert(types::session_models(sessions@) =~= Seq::<types::SessionModel>::empty());
    }
    while rest.len() > 0
        invariant
            0 <= count <= all.len(),
            rest@ == all.skip(count),
            types::session_models(sessions@) == finalized(draft_sessions(all).take(count)),
        decreases rest@.len(),
    {
        let (session_name, list) = rest.remove(0);
        let ghost before = types::session_models(sessions@);
        proof {
            assert((session_name, list) == all[count]);
            assert(all.skip(count).remove(0) =~= all.skip(count + 1));
            let head = draft_sessions(all).take(count + 1);
            assert(head.drop_last() =~= draft_sessions(all).take(count));
            assert(head.last() == (session_name@, draft_windows(list@)));
        }
        let windows = keep_filled(list);
        if windows.len() > 0 {
            let session = SessionInfo { session_name, windows };
            sessions.push(session);
            proof {
                assert(types::session_models(sessions@) =~= before.push(session@));
            }
        }
        proof {
            count = count + 1;
        }
    }
    proof {
        assert(draft_sessions(all).take(count) =~= draft_sessions(all));
    }
    sessions
}

/// Flatten the session→window hierarchy, dropping any windows that the reading
/// of panes left empty, and any sessions whose windows are all empty as a
/// result.
pub fn finalize_sessions(sessions_map: SessionMap) -> (sessions: Vec<SessionInfo>)
    ensures
        types::session_models(sessions@) == finalized(session_list(sessions_map)),
{
    finalize_draft(take_all(sessions_map))
}

/// Whether a line is of a pane whose agent is Codex or OpenCode.
pub open spec fn line_needs_processes(line: Seq<char>) -> bool {
    let parts = query::fields_of(line, '|');
    parts.len() >= LINE_MIN_FIELDS && match types::agent_of(
        parts[PANE_LINE_OFFSET + FIELD_AGENT],
    ) {
        Some(agent) => agent == AgentType::Codex || agent == AgentType::OpenCode,
        None => false,
    }
}

/// Whether the processes must be listed to read the output.
pub fn pane_output_needs_process_snapshot(all_panes_output: &str) -> (yes: bool)
    ensures
        yes == exists|i: int|
            0 <= i < cut::lines_of(all_panes_output@).len() && line_needs_processes(
                #[trigger] cut::lines_of(all_panes_output@)[i],
            ),
{
    let list = lines(all_panes_output);
    let ghost all = cut::lines_of(all_panes_output@);
    let mut i: usize = 0;
    while i < list.len()
        invariant
            i <= list@.len(),
            text::texts(list@) == all,
            all == cut::lines_of(all_panes_output@),
            forall|k: int| 0 <= k < i ==> !line_needs_processes(#[trigger] all[k]),
        decreases list@.len() - i,
    {
        let parts = split_tmux_fields(list[i].as_str(), '|');
        proof {
            assert(all[i as int] == list@[i as int]@);
        }
        if parts.len() >= LINE_MIN_FIELDS {
            proof {
                assert(text::texts(parts@)[PANE_LINE_OFFSET + FIELD_AGENT] == parts@[PANE_LINE_OFFSET
                    + FIELD_AGENT]@);
            }
            match AgentType::from_label(parts[PANE_LINE_OFFSET + FIELD_AGENT].as_str()) {
                Some(agent) => {
                    if agent == AgentType::Codex || agent == AgentType::OpenCode {
                        return true;
                    }
                },
                None => {},
            }
        }
        i = i + 1;
    }
    false
}

/// Whether sessions are those of a model, with the permission modes of its Codex
/// panes resolved.
pub open spec fn resolved_into(
    processes: ProcessSnapshot,
    model: HierarchyModel,
    codex_pids: Seq<CodexPidEntry>,
    before: Seq<(String, Vec<(String, WindowInfo)>)>,
    after: Seq<(String, Vec<(String, WindowInfo)>)>,
    sessions: Seq<types::SessionModel>,
) -> bool {
    &&& codex_models(codex_pids) == model.codex
    &&& draft_sessions(before) == model.sessions
    &&& sessions_resolved(processes, codex_pids, before, after)
    &&& sessions == finalized(draft_sessions(after))
}

/// Whether sessions follow from the output of `list-panes` and a process list.
pub open spec fn sessions_follow(
    output: Seq<char>,
    snapshot: Option<ProcessSnapshot>,
    sessions: Seq<types::SessionModel>,
) -> bool {
    let model = hierarchy_of(cut::lines_of(output), snapshot);
    if snapshot is Some && model.codex.len() > 0 {
        exists|
            codex_pids: Seq<CodexPidEntry>,
            before: Seq<(String, Vec<(String, WindowInfo)>)>,
            after: Seq<(String, Vec<(String, WindowInfo)>)>,
        |
            #[trigger]
            resolved_into(snapshot->0, model, codex_pids, before, after, sessions)
    } else {
        sessions == finalized(model.sessions)
    }
}

/// All sessions, windows, and panes out of a single `tmux list-panes -a` call
/// and, where it is needed, one `ps` call.
///
/// No output means the authoritative tmux query failed. Callers must retain
/// their prior snapshot rather than treating that transient failure as proof
/// that every pane disappeared.
pub fn query_sessions_with_process_snapshot(
    output: Option<&str>,
    process_snapshot: Option<&ProcessSnapshot>,
    log: &mut PaneOptions,
) -> (sessions: Option<Vec<SessionInfo>>)
    ensures
        match (output, sessions) {
            (Some(lines), Some(found)) => {
                &&& sessions_follow(
                    lines@,
                    snapshot_of(process_snapshot),
                    types::session_models(found@),
                )
                &&& final(log)@ == old(log)@ + hierarchy_of(
                    cut::lines_of(lines@),
                    snapshot_of(process_snapshot),
                ).writes
            },
            (None, None) => final(log)@ == old(log)@,
            _ => false,
        },
{
    let all_panes_output = match output {
        Some(found) => found,
        None => {
            return None;
        },
    };
    let hierarchy = build_session_hierarchy(all_panes_output, process_snapshot, log);
    let ghost model = hierarchy_of(
        cut::lines_of(all_panes_output@),
        snapshot_of(process_snapshot),
    );
    let Hierarchy { sessions: map, codex_pids, seen } = hierarchy;
    proof {
        assert(codex_models(codex_pids@) == model.codex);
        assert(codex_pids@.len() == model.codex.len());
    }
    let mut draft = take_all(map);
    let ghost before = draft@;
    if codex_pids.len() > 0 {
        if let Some(snapshot) = process_snapshot {
            resolve_codex_permission_modes(&mut draft, &codex_pids, snapshot);
            proof {
                assert(sessions_resolved(*snapshot, codex_pids@, before, draft@));
            }
        }
    }
    let sessions = finalize_draft(draft);
    proof {
        let shown = types::session_models(sessions@);
        if process_snapshot is Some && model.codex.len() > 0 {
            let snapshot = snapshot_of(process_snapshot)->0;
            assert(resolved_into(snapshot, model, codex_pids@, before, draft@, shown));
        }
        assert(sessions_follow(all_panes_output@, snapshot_of(process_snapshot), shown));
    }
    Some(sessions)
}

/// The sessions, where a failed query counts as none.
pub fn query_sessions(
    output: Option<&str>,
    process_snapshot: Option<&ProcessSnapshot>,
    log: &mut PaneOptions,
) -> (sessions: Vec<SessionInfo>)
    ensures
        match output {
            Some(lines) => {
                &&& sessions_follow(
                    lines@,
                    snapshot_of(process_snapshot),
                    types::session_models(sessions@),
                )
                &&& final(log)@ == old(log)@ + hierarchy_of(
                    cut::lines_of(lines@),
                    snapshot_of(process_snapshot),
                ).writes
            },
            None => sessions@.len() == 0 && final(log)@ == old(log)@,
        },
{
    match query_sessions_with_process_snapshot(output, process_snapshot, log) {
        Some(sessions) => sessions,
        None => Vec::new(),
    }
}

// Laws.

/// Whether no two entries have the same key.
pub open spec fn keys_differ<V>(entries: Seq<(Seq<char>, V)>) -> bool {
    forall|i: int, j: int|
        0 <= i < j < entries.len() ==> (#[trigger] entries[i]).0 != (#[trigger] entries[j]).0
}

proof fn keyed_is_complete<V>(entries: Seq<(Seq<char>, V)>, key: Seq<char>, at: int)
    requires
        0 <= at,
    ensures
        match keyed(entries, key, at) {
            Some(found) => at <= found < entries.len() && entries[found].0 == key,
            None => forall|i: int| at <= i < entries.len() ==> (#[trigger] entries[i]).0 != key,
        },
    decreases entries.len() - at,
{
    if at < entries.len() && entries[at].0 != key {
        keyed_is_complete(entries, key, at + 1);
    }
}

/// A value that was placed under a key is the one entry of that key; the entries of all
/// other keys stay what and where they were, and a new key comes last.
pub proof fn a_placed_value_is_found<V>(
    entries: Seq<(Seq<char>, V)>,
    key: Seq<char>,
    value: V,
    i: int,
)
    requires
        keys_differ(entries),
    ensures
        keys_differ(placed(entries, key, value)),
        placed(entries, key, value).contains((key, value)),
        0 <= i < entries.len() && entries[i].0 != key ==> placed(entries, key, value)[i]
            == entries[i],
        0 <= i < entries.len() ==> placed(entries, key, value)[i].0 == entries[i].0,
        placed(entries, key, value).len() == if exists|j: int|
            0 <= j < entries.len() && (#[trigger] entries[j]).0 == key {
            entries.len()
        } else {
            entries.len() + 1
        },
{
    let after = placed(entries, key, value);
    keyed_is_complete(entries, key, 0);
    match keyed(entries, key, 0) {
        Some(at) => {
            assert(after[at] == (key, value));
            if 0 <= i < entries.len() && i != at {
                assert(after[i] == entries[i]);
            }
        },
        None => {
            assert(after[entries.len() as int] == (key, value));
        },
    }
    assert forall|x: int, y: int| 0 <= x < y < after.len() implies (#[trigger] after[x]).0 != (
    #[trigger] after[y]).0 by {
        if y < entries.len() {
            assert(entries[x].0 != entries[y].0);
        } else {
            assert(entries[x].0 != key);
        }
    }
}

proof fn windows_once_placed(
    sessions: SessionList,
    session: Seq<char>,
    windows: WindowList,
    other: Seq<char>,
)
    ensures
        windows_in(placed(sessions, session, windows), session) == windows,
        other != session ==> windows_in(placed(sessions, session, windows), other) == windows_in(
            sessions,
            other,
        ),
{
    let after = placed(sessions, session, windows);
    keyed_is_complete(sessions, session, 0);
    placed_keys(sessions, session, windows, session, 0);
    placed_keys(sessions, session, windows, other, 0);
    keyed_is_complete(sessions, other, 0);
}

proof fn placed_keys<V>(
    entries: Seq<(Seq<char>, V)>,
    key: Seq<char>,
    value: V,
    other: Seq<char>,
    at: int,
)
    requires
        0 <= at <= entries.len(),
        forall|i: int| 0 <= i < at ==> (#[trigger] entries[i]).0 != other,
    ensures
        keyed(placed(entries, key, value), other, at) == match keyed(entries, other, at) {
            Some(found) => Some(found),
            None => if other == key && keyed(entries, key, 0) is None {
                Some(entries.len() as int)
            } else {
                None
            },
        },
    decreases entries.len() - at,
{
    let after = placed(entries, key, value);
    keyed_is_complete(entries, key, 0);
    assert forall|i: int| 0 <= i < entries.len() implies (#[trigger] after[i]).0 == entries[i].0 by {}
    if at < entries.len() {
        assert(after[at].0 == entries[at].0);
        if entries[at].0 != other {
            placed_keys(entries, key, value, other, at + 1);
        }
    } else {
        keyed_is_complete(entries, other, 0);
        assert(keyed(entries, other, at) is None);
        if keyed(entries, key, 0) is None {
            assert(after[at] == (key, value));
            assert(keyed(after, other, at + 1) is None);
        }
    }
}

proof fn window_once_placed(
    windows: WindowList,
    id: Seq<char>,
    window: types::WindowModel,
    other: Seq<char>,
    fresh: types::WindowModel,
)
    ensures
        window_in(placed(windows, id, window), id, fresh) == window,
        other != id ==> window_in(placed(windows, id, window), other, fresh) == window_in(
            windows,
            other,
            fresh,
        ),
{
    keyed_is_complete(windows, id, 0);
    placed_keys(windows, id, window, id, 0);
    placed_keys(windows, id, window, other, 0);
    keyed_is_complete(windows, other, 0);
}

/// A line that tmux printed adds the pane that it tells of behind the other panes of the
/// window and the session that it names, and changes no other window. A window that was
/// not known gets its name and its flags from the line; a known one keeps what it has. A
/// line of a process that was seen before changes nothing.
pub proof fn a_line_adds_its_pane_to_its_window(
    before: HierarchyModel,
    value: spec_fn(Seq<char>) -> Seq<char>,
    snapshot: Option<ProcessSnapshot>,
    pid: u32,
    other_session: Seq<char>,
    other: Seq<char>,
    blank: types::WindowModel,
)
    requires
        pid > 0,
        value("pane_pid"@) == number::decimal_of(pid as nat),
    ensures
        ({
            let after = hierarchy_step(before, query::printed_line(value), snapshot);
            let session = value("session_name"@);
            let id = value("window_id"@);
            let old_windows = windows_in(before.sessions, session);
            let new_windows = windows_in(after.sessions, session);
            if before.seen.contains(pid) {
                after == before
            } else {
                &&& after.seen == before.seen.insert(pid)
                &&& other_session != session ==> windows_in(after.sessions, other_session)
                    == windows_in(before.sessions, other_session)
                &&& other != id ==> window_in(new_windows, other, blank) == window_in(
                    old_windows,
                    other,
                    blank,
                )
                &&& keyed(new_windows, id, 0) is Some
                &&& keyed(old_windows, id, 0) is None ==> {
                    let window = window_in(new_windows, id, blank);
                    &&& window.window_id == id
                    &&& window.window_name == value("window_name"@)
                    &&& window.window_active <==> value("window_active"@) == "1"@
                    &&& window.auto_rename <==> value("automatic-rename"@) == "1"@
                    &&& match query::pane_outcome(query::printed_fields(value), snapshot) {
                        query::PaneOutcome::Pane(pane) => window.panes == seq![pane],
                        _ => window.panes.len() == 0,
                    }
                }
                &&& keyed(old_windows, id, 0) is Some ==> {
                    let window = window_in(new_windows, id, blank);
                    let known = window_in(old_windows, id, blank);
                    &&& window == types::WindowModel { panes: window.panes, ..known }
                    &&& match query::pane_outcome(query::printed_fields(value), snapshot) {
                        query::PaneOutcome::Pane(pane) => window.panes == known.panes.push(pane),
                        _ => window.panes == known.panes,
                    }
                }
            }
        }),
{
    let line = query::printed_line(value);
    let after = hierarchy_step(before, line, snapshot);
    let session = value("session_name"@);
    let id = value("window_id"@);
    query::printed_parts(value);
    number::decimal_round_trip(pid as nat, u32::MAX as int);
    let fields = query::printed_fields(value);
    assert(query::pid_of(fields[FIELD_PANE_PID as int]) == Some(pid));
    if !before.seen.contains(pid) {
        let parts = query::fields_of(line, '|');
        let pane = match query::pane_outcome(fields, snapshot) {
            query::PaneOutcome::Pane(found) => Some(found),
            _ => None,
        };
        let fresh = fresh_window(parts);
        let old_windows = windows_in(before.sessions, session);
        let window = with_pane(window_in(old_windows, id, fresh), pane);
        let new_windows = placed(old_windows, id, window);
        windows_once_placed(before.sessions, session, new_windows, other_session);
        window_once_placed(old_windows, id, window, other, blank);
        placed_keys(old_windows, id, window, id, 0);
        keyed_is_complete(old_windows, id, 0);
    }
}

/// What is shown at the end is each window that holds a pane, in its session and its order.
pub proof fn windows_with_panes_are_shown(windows: WindowList, k: int)
    requires
        0 <= k < windows.len(),
    ensures
        windows[k].1.panes.len() > 0 ==> filled_windows(windows).contains(windows[k].1),
        forall|i: int|
            0 <= i < filled_windows(windows).len() ==> (#[trigger] filled_windows(
                windows,
            )[i]).panes.len() > 0,
        (forall|i: int| 0 <= i < windows.len() ==> (#[trigger] windows[i]).1.panes.len() > 0)
            ==> filled_windows(windows) == windows.map_values(
            |entry: (Seq<char>, types::WindowModel)| entry.1,
        ),
    decreases windows.len(),
{
    let rest = windows.drop_last();
    let kept = filled_windows(rest);
    let all = filled_windows(windows);
    if rest.len() > 0 {
        let j = if k < rest.len() {
            k
        } else {
            0
        };
        windows_with_panes_are_shown(rest, j);
        if kept.contains(rest[j].1) {
            assert(all[kept.index_of(rest[j].1)] == rest[j].1);
        }
    }
    if windows.last().1.panes.len() > 0 {
        assert(all[kept.len() as int] == windows.last().1);
    }
    assert forall|i: int| 0 <= i < all.len() implies (#[trigger] all[i]).panes.len() > 0 by {
        if i < kept.len() {
            assert(all[i] == kept[i]);
        }
    }
    if forall|i: int| 0 <= i < windows.len() ==> (#[trigger] windows[i]).1.panes.len() > 0 {
        assert forall|i: int| 0 <= i < rest.len() implies (#[trigger] rest[i]).1.panes.len()
            > 0 by {
            assert(windows[i].1.panes.len() > 0);
        }
        assert(windows[windows.len() - 1].1.panes.len() > 0);
        assert(all =~= windows.map_values(|entry: (Seq<char>, types::WindowModel)| entry.1)) by {
            if rest.len() == 0 {
                assert(kept.len() == 0);
            }
        }
    }
}

/// A session is shown, under its name, with the windows that hold panes; one without such a
/// window is not.
pub proof fn sessions_with_panes_are_shown(sessions: SessionList, k: int)
    requires
        0 <= k < sessions.len(),
    ensures
        filled_windows(sessions[k].1).len() > 0 ==> finalized(sessions).contains(
            (types::SessionModel {
                session_name: sessions[k].0,
                windows: filled_windows(sessions[k].1),
            }),
        ),
        forall|i: int|
            0 <= i < finalized(sessions).len() ==> (#[trigger] finalized(sessions)[i]).windows.len()
                > 0,
        (forall|i: int|
            0 <= i < sessions.len() ==> filled_windows((#[trigger] sessions[i]).1).len() > 0)
            ==> finalized(sessions).len() == sessions.len() && finalized(sessions)[k].session_name
            == sessions[k].0,
    decreases sessions.len(),
{
    let rest = sessions.drop_last();
    let kept = finalized(rest);
    let all = finalized(sessions);
    if rest.len() > 0 {
        let j = if k < rest.len() {
            k
        } else {
            0
        };
        sessions_with_panes_are_shown(rest, j);
        let shown = types::SessionModel {
            session_name: rest[j].0,
            windows: filled_windows(rest[j].1),
        };
        if kept.contains(shown) {
            assert(all[kept.index_of(shown)] == shown);
        }
    }
    if filled_windows(sessions.last().1).len() > 0 {
        assert(all[kept.len() as int].session_name == sessions.last().0);
        assert(all[kept.len() as int].windows == filled_windows(sessions.last().1));
    }
    assert forall|i: int| 0 <= i < all.len() implies (#[trigger] all[i]).windows.len() > 0 by {
        if i < kept.len() {
            assert(all[i] == kept[i]);
        }
    }
    if forall|i: int|
        0 <= i < sessions.len() ==> filled_windows((#[trigger] sessions[i]).1).len() > 0 {
        assert forall|i: int| 0 <= i < rest.len() implies filled_windows(
            (#[trigger] rest[i]).1,
        ).len() > 0 by {
            assert(filled_windows(sessions[i].1).len() > 0);
        }
        assert(filled_windows(sessions[sessions.len() - 1].1).len() > 0);
    }
}

/// The processes are asked for where a line that tmux printed names Codex or OpenCode as
/// its agent.
pub proof fn processes_are_needed_for_their_agents(value: spec_fn(Seq<char>) -> Seq<char>)
    ensures
        line_needs_processes(query::printed_line(value)) <==> value("@pane_agent"@) == "codex"@
            || value("@pane_agent"@) == "opencode"@,
{
    query::printed_parts(value);
    types::labels_name_their_agents(AgentType::Codex);
    types::labels_name_their_agents(AgentType::OpenCode);
}

} // verus!
