//! What the processes of panes say: which agents live, what runs, and which
//! ports are listened on.

use vstd::prelude::*;
use vstd::std_specs::hash::*;

use crate::cut;
use crate::cut::lines;
use crate::number;
use crate::number::parse_unsigned;
use crate::order;
use crate::process;
use crate::process::{command_basename, ProcessSnapshot};
use crate::scan;
use crate::scan::{strip_prefix, trim};
use crate::text;
use crate::text::{chars_of, same, text_of};
use crate::textmap::{TextMap, TextSet};
use crate::tmux::types;
use crate::tmux::types::{all_panes, PaneInfo, SessionInfo};

verus! {

/// What was found for each pane.
pub struct PaneProcessSnapshot {
    pub ports_by_pane: TextMap<Vec<u16>>,
    pub command_by_pane: TextMap<String>,
    pub live_agent_panes: TextSet,
}

impl PaneProcessSnapshot {
    /// Whether nothing was found.
    pub open spec fn blank(&self) -> bool {
        &&& self.ports_by_pane@ == Map::<Seq<char>, Vec<u16>>::empty()
        &&& self.command_by_pane@ == Map::<Seq<char>, String>::empty()
        &&& self.live_agent_panes@ == Set::<Seq<char>>::empty()
    }
}

impl Default for PaneProcessSnapshot {
    fn default() -> (found: Self)
        ensures
            found.blank(),
    {
        PaneProcessSnapshot {
            ports_by_pane: TextMap::new(),
            command_by_pane: TextMap::new(),
            live_agent_panes: TextSet::new(),
        }
    }
}

/// The programs that are no command of their own.
pub open spec fn is_wrapper(name: Seq<char>) -> bool {
    ||| name == "bash"@
    ||| name == "sh"@
    ||| name == "zsh"@
    ||| name == "fish"@
    ||| name == "tmux"@
    ||| name == "login"@
    ||| name == "sudo"@
}

fn is_shell_command(basename: &str) -> (yes: bool)
    ensures
        yes == is_wrapper(basename@),
{
    same(basename, "bash") || same(basename, "sh") || same(basename, "zsh") || same(
        basename,
        "fish",
    ) || same(basename, "tmux") || same(basename, "login") || same(basename, "sudo")
}

/// How many bytes a text takes.
pub open spec fn byte_len(line: Seq<char>) -> int {
    vstd::utf8::encode_utf8(line).len() as int
}

/// The command line of a process, as it is shown.
pub open spec fn shown_command(info: process::InfoModel) -> Seq<char> {
    if info.args.len() == 0 {
        info.comm
    } else {
        scan::trim_of(info.args)
    }
}

/// Whether a process below `root` is worth showing.
pub open spec fn is_candidate(snapshot: ProcessSnapshot, root: u32, pid: u32) -> bool {
    &&& process::descends(snapshot, seq![root], pid)
    &&& snapshot.infos().contains_key(pid)
    &&& process::basename_of(snapshot.infos()[pid].comm).len() > 0
    &&& !is_wrapper(process::basename_of(snapshot.infos()[pid].comm))
}

/// Whether a process has no child.
pub open spec fn is_leaf(snapshot: ProcessSnapshot, pid: u32) -> bool {
    snapshot.children(pid).len() == 0
}

/// Whether `left` is shown rather than `right`: it is longer, or of two of one
/// length the first in order.
pub open spec fn preferred(left: Seq<char>, right: Seq<char>) -> bool {
    byte_len(left) > byte_len(right) || (byte_len(left) == byte_len(right) && (left == right
        || order::precedes(left, right)))
}

/// Whether `line` is the preferred command of the candidates that are leaves, or
/// of those that are not.
pub open spec fn best_of(
    snapshot: ProcessSnapshot,
    root: u32,
    leaves: bool,
    line: Option<Seq<char>>,
) -> bool {
    match line {
        Some(best) => {
            &&& exists|pid: u32| #[trigger]
                is_candidate(snapshot, root, pid) && is_leaf(snapshot, pid) == leaves
                    && shown_command(snapshot.infos()[pid]) == best
            &&& forall|pid: u32| #[trigger]
                is_candidate(snapshot, root, pid) && is_leaf(snapshot, pid) == leaves ==> preferred(
                    best,
                    shown_command(snapshot.infos()[pid]),
                )
        },
        None => forall|pid: u32| #[trigger]
            is_candidate(snapshot, root, pid) ==> is_leaf(snapshot, pid) != leaves,
    }
}

/// Whether `line` is the command shown for the pane of process `root`: that of
/// a leaf where there is one, and else that of another process.
pub open spec fn best_command(
    snapshot: ProcessSnapshot,
    root: u32,
    line: Option<Seq<char>>,
) -> bool {
    ||| line is Some && best_of(snapshot, root, true, line)
    ||| best_of(snapshot, root, true, None) && best_of(snapshot, root, false, line)
}

proof fn preferred_transitive(a: Seq<char>, b: Seq<char>, c: Seq<char>)
    requires
        preferred(a, b),
        preferred(b, c),
    ensures
        preferred(a, c),
{
    if byte_len(a) == byte_len(c) && a != b && b != c {
        order::precedes_transitive(a, b, c);
    }
}

/// Whether `left` is shown rather than `right`.
fn prefer(left: &str, right: &str) -> (yes: bool)
    ensures
        yes == preferred(left@, right@),
        !yes ==> preferred(right@, left@),
{
    proof {
        order::precedes_total(left@, right@);
    }
    let a: usize = left.as_bytes().len();
    let b: usize = right.as_bytes().len();
    a > b || (a == b && (same(left, right) || order::less(left, right)))
}

/// The better of two commands.
fn better(known: Option<String>, line: String) -> (best: Option<String>)
    ensures
        best matches Some(found) && (found@ == line@ || (known matches Some(old) && found@ == old@))
            && preferred(found@, line@) && (known matches Some(old) ==> preferred(found@, old@)),
{
    match known {
        Some(old) => {
            if prefer(old.as_str(), line.as_str()) {
                Some(old)
            } else {
                Some(line)
            }
        },
        None => Some(line),
    }
}

/// Whether `line` is the best of the candidates among the first processes.
spec fn best_so_far(
    snapshot: ProcessSnapshot,
    root: u32,
    leaves: bool,
    list: Seq<u32>,
    line: Option<Seq<char>>,
) -> bool {
    match line {
        Some(best) => {
            &&& exists|k: int|
                0 <= k < list.len() && is_candidate(snapshot, root, #[trigger] list[k]) && is_leaf(
                    snapshot,
                    list[k],
                ) == leaves && shown_command(snapshot.infos()[list[k]]) == best
            &&& forall|k: int|
                0 <= k < list.len() && is_candidate(snapshot, root, #[trigger] list[k]) && is_leaf(
                    snapshot,
                    list[k],
                ) == leaves ==> preferred(best, shown_command(snapshot.infos()[list[k]]))
        },
        None => forall|k: int|
            0 <= k < list.len() && is_candidate(snapshot, root, #[trigger] list[k]) ==> is_leaf(
                snapshot,
                list[k],
            ) != leaves,
    }
}

proof fn best_step(
    snapshot: ProcessSnapshot,
    root: u32,
    leaves: bool,
    list: Seq<u32>,
    pid: u32,
    known: Option<Seq<char>>,
    found: Option<Seq<char>>,
)
    requires
        best_so_far(snapshot, root, leaves, list, known),
        if is_candidate(snapshot, root, pid) && is_leaf(snapshot, pid) == leaves {
            let line = shown_command(snapshot.infos()[pid]);
            found matches Some(best) && (best == line || Some(best) == known) && preferred(
                best,
                line,
            ) && (known matches Some(old) ==> preferred(best, old))
        } else {
            found == known
        },
    ensures
        best_so_far(snapshot, root, leaves, list.push(pid), found),
{
    let longer = list.push(pid);
    if found is Some {
        let best = found->0;
        if Some(best) == known {
            let k = choose|k: int|
                0 <= k < list.len() && is_candidate(snapshot, root, #[trigger] list[k]) && is_leaf(
                    snapshot,
                    list[k],
                ) == leaves && shown_command(snapshot.infos()[list[k]]) == best;
            assert(longer[k] == list[k]);
        } else {
            assert(longer[list.len() as int] == pid);
        }
        assert forall|k: int|
            0 <= k < longer.len() && is_candidate(snapshot, root, #[trigger] longer[k]) && is_leaf(
                snapshot,
                longer[k],
            ) == leaves implies preferred(best, shown_command(snapshot.infos()[longer[k]])) by {
            if k < list.len() {
                assert(longer[k] == list[k]);
                if known is Some {
                    preferred_transitive(
                        best,
                        known->0,
                        shown_command(snapshot.infos()[list[k]]),
                    );
                }
            }
        }
    } else {
        assert forall|k: int|
            0 <= k < longer.len() && is_candidate(snapshot, root, #[trigger] longer[k]) implies
            is_leaf(snapshot, longer[k]) != leaves by {
            if k < list.len() {
                assert(longer[k] == list[k]);
            }
        }
    }
}

proof fn best_of_all(
    snapshot: ProcessSnapshot,
    root: u32,
    leaves: bool,
    list: Seq<u32>,
    line: Option<Seq<char>>,
)
    requires
        best_so_far(snapshot, root, leaves, list, line),
        forall|pid: u32|
            #[trigger] list.contains(pid) <==> process::descends(snapshot, seq![root], pid),
    ensures
        best_of(snapshot, root, leaves, line),
{
    assert forall|pid: u32| #[trigger] is_candidate(snapshot, root, pid) implies exists|k: int|
        0 <= k < list.len() && list[k] == pid by {
        assert(list.contains(pid));
    }
}

/// The command shown for the pane of a process.
pub fn best_command_for_pane(pane_pid: u32, process_snapshot: &ProcessSnapshot) -> (command: Option<
    String,
>)
    ensures
        best_command(*process_snapshot, pane_pid, text::opt(command)),
{
    broadcast use group_hash_axioms;

    let roots = [pane_pid];
    proof {
        assert(roots@ =~= seq![pane_pid]);
    }
    let list = process_snapshot.descendants(&roots);
    let mut leaf: Option<String> = None;
    let mut fallback: Option<String> = None;
    let mut i: usize = 0;
    while i < list.len()
        invariant
            i <= list@.len(),
            forall|pid: u32|
                #[trigger] list@.contains(pid) <==> process::descends(
                    *process_snapshot,
                    seq![pane_pid],
                    pid,
                ),
            best_so_far(
                *process_snapshot,
                pane_pid,
                true,
                list@.take(i as int),
                text::opt(leaf),
            ),
            best_so_far(
                *process_snapshot,
                pane_pid,
                false,
                list@.take(i as int),
                text::opt(fallback),
            ),
        decreases list@.len() - i,
    {
        let pid = list[i];
        let ghost old_leaf = text::opt(leaf);
        let ghost old_fallback = text::opt(fallback);
        proof {
            assert(list@.contains(pid));
            assert(list@.take(i + 1) =~= list@.take(i as int).push(pid));
        }
        if let Some(info) = process_snapshot.info_by_pid.get(&pid) {
            let name = command_basename(info.comm.as_str());
            if !name.as_str().is_empty() && !is_shell_command(name.as_str()) {
                let line = if info.args.as_str().is_empty() {
                    info.comm.clone()
                } else {
                    trim(info.args.as_str())
                };
                let childless = match process_snapshot.children_of.get(&pid) {
                    Some(children) => children.len() == 0,
                    None => true,
                };
                proof {
                    assert(is_candidate(*process_snapshot, pane_pid, pid));
                    assert(childless == is_leaf(*process_snapshot, pid));
                    assert(line@ == shown_command(process_snapshot.infos()[pid]));
                }
                if childless {
                    leaf = better(leaf, line);
                } else {
                    fallback = better(fallback, line);
                }
            }
        }
        proof {
            best_step(
                *process_snapshot,
                pane_pid,
                true,
                list@.take(i as int),
                pid,
                old_leaf,
                text::opt(leaf),
            );
            best_step(
                *process_snapshot,
                pane_pid,
                false,
                list@.take(i as int),
                pid,
                old_fallback,
                text::opt(fallback),
            );
        }
        i = i + 1;
    }
    proof {
        assert(list@.take(i as int) =~= list@);
        best_of_all(*process_snapshot, pane_pid, true, list@, text::opt(leaf));
        best_of_all(*process_snapshot, pane_pid, false, list@, text::opt(fallback));
    }
    match leaf {
        Some(found) => Some(found),
        None => fallback,
    }
}

/// The index of the last colon of the first `end` characters.
pub open spec fn last_colon(name: Seq<char>, end: int) -> Option<int>
    decreases end,
{
    if end <= 0 || end > name.len() {
        None
    } else if name[end - 1] == ':' {
        Some(end - 1)
    } else {
        last_colon(name, end - 1)
    }
}

/// The end of the row of digits that starts at `at`.
pub open spec fn digits_end(name: Seq<char>, at: int) -> int
    decreases name.len() - at,
{
    if at < 0 || at >= name.len() || !number::is_digit(name[at]) {
        at
    } else {
        digits_end(name, at + 1)
    }
}

/// The port in the name of a socket: the digits behind the last colon.
pub open spec fn port_of(name: Seq<char>) -> Option<u16> {
    let trimmed = scan::trim_of(name);
    match last_colon(trimmed, trimmed.len() as int) {
        Some(colon) => {
            let digits = trimmed.subrange(colon + 1, digits_end(trimmed, colon + 1));
            match number::unsigned(digits, u16::MAX as int) {
                Some(port) => Some(port as u16),
                None => None,
            }
        },
        None => None,
    }
}

/// The port in the name of a socket.
pub fn extract_port(name: &str) -> (port: Option<u16>)
    ensures
        port == port_of(name@),
{
    let trimmed = trim(name);
    let chars = chars_of(trimmed.as_str());
    let mut end: usize = chars.len();
    while end > 0 && chars[end - 1] != ':'
        invariant
            end <= chars@.len(),
            last_colon(chars@, chars@.len() as int) == last_colon(chars@, end as int),
        decreases end,
    {
        end = end - 1;
    }
    if end == 0 {
        return None;
    }
    let mut at: usize = end;
    while at < chars.len() && '0' <= chars[at] && chars[at] <= '9'
        invariant
            end <= at <= chars@.len(),
            digits_end(chars@, end as int) == digits_end(chars@, at as int),
        decreases chars@.len() - at,
    {
        at = at + 1;
    }
    let digits = text_of(chars.as_slice(), end, at);
    match parse_unsigned(digits.as_str(), u16::MAX as u64) {
        Some(value) => Some(value as u16),
        None => None,
    }
}

/// What the lines of `lsof -F pn` have said so far: the process at hand, and
/// the sockets.
pub struct LsofState {
    pub pid: Option<u32>,
    pub found: Seq<(u32, u16)>,
}

/// The process that a text names.
pub open spec fn lsof_pid(word: Seq<char>) -> Option<u32> {
    match number::unsigned(word, u32::MAX as int) {
        Some(pid) => Some(pid as u32),
        None => None,
    }
}

/// What the lines of `lsof` say.
pub open spec fn lsof_state(list: Seq<Seq<char>>) -> LsofState
    decreases list.len(),
{
    if list.len() == 0 {
        LsofState { pid: None, found: Seq::<(u32, u16)>::empty() }
    } else {
        let before = lsof_state(list.drop_last());
        let line = list.last();
        match (scan::after_prefix(line, "p"@), scan::after_prefix(line, "n"@)) {
            (Some(word), _) => LsofState { pid: lsof_pid(word), found: before.found },
            (None, Some(name)) => match (before.pid, port_of(name)) {
                (Some(pid), Some(port)) => LsofState {
                    pid: before.pid,
                    found: before.found.push((pid, port)),
                },
                _ => before,
            },
            _ => before,
        }
    }
}

/// The sockets in the output of `lsof -F pn`, each with its process.
pub fn parse_lsof_listening_ports(lsof_output: &str) -> (found: Vec<(u32, u16)>)
    ensures
        found@ == lsof_state(cut::lines_of(lsof_output@)).found,
{
    let list = lines(lsof_output);
    let mut current: Option<u32> = None;
    let mut found: Vec<(u32, u16)> = Vec::new();
    let mut i: usize = 0;
    proof {
        assert(text::texts(list@).take(0) =~= Seq::<Seq<char>>::empty());
    }
    while i < list.len()
        invariant
            i <= list@.len(),
            lsof_state(text::texts(list@).take(i as int)) == (LsofState {
                pid: current,
                found: found@,
            }),
        decreases list@.len() - i,
    {
        proof {
            let head = text::texts(list@).take(i + 1);
            assert(head.drop_last() =~= text::texts(list@).take(i as int));
            assert(head.last() == list@[i as int]@);
        }
        let line = list[i].as_str();
        i = i + 1;
        if let Some(word) = strip_prefix(line, "p") {
            current = match parse_unsigned(word.as_str(), u32::MAX as u64) {
                Some(value) => Some(value as u32),
                None => None,
            };
            continue;
        }
        if let Some(name) = strip_prefix(line, "n") {
            if let (Some(pid), Some(port)) = (current, extract_port(name.as_str())) {
                found.push((pid, port));
            }
        }
    }
    proof {
        assert(text::texts(list@).take(i as int) =~= cut::lines_of(lsof_output@));
    }
    found
}

/// The processes of panes, by pane id; of two panes with one id the later counts.
pub open spec fn pids_of(panes: Seq<PaneInfo>) -> Map<Seq<char>, u32>
    decreases panes.len(),
{
    if panes.len() == 0 {
        Map::empty()
    } else {
        let before = pids_of(panes.drop_last());
        match panes.last().pane_pid {
            Some(pid) => before.insert(panes.last().pane_id@, pid),
            None => before,
        }
    }
}

/// The list of panes behind references.
pub open spec fn derefs(panes: Seq<&PaneInfo>) -> Seq<PaneInfo> {
    panes.map_values(|pane: &PaneInfo| *pane)
}

fn pane_pids(panes: &Vec<&PaneInfo>) -> (pids: TextMap<u32>)
    ensures
        pids@ == pids_of(derefs(panes@)),
        pids.wf(),
{
    let mut pids: TextMap<u32> = TextMap::new();
    let ghost all = derefs(panes@);
    let mut i: usize = 0;
    proof {
        assert(all.take(0) =~= Seq::<PaneInfo>::empty());
    }
    while i < panes.len()
        invariant
            i <= panes@.len(),
            all == derefs(panes@),
            pids.wf(),
            pids@ == pids_of(all.take(i as int)),
        decreases panes@.len() - i,
    {
        proof {
            assert(all.take(i + 1).drop_last() =~= all.take(i as int));
        }
        if let Some(pid) = panes[i].pane_pid {
            pids.insert(panes[i].pane_id.clone(), pid);
        }
        i = i + 1;
    }
    proof {
        assert(all.take(i as int) =~= all);
    }
    pids
}

/// The processes of the panes of sessions, by pane id.
pub fn parse_pane_pids(sessions: &Vec<SessionInfo>) -> (pids: TextMap<u32>)
    ensures
        pids@ == pids_of(types::panes_of(sessions@)),
        pids.wf(),
{
    let panes = all_panes(sessions);
    proof {
        assert(derefs(panes@) =~= types::panes_of(sessions@));
    }
    pane_pids(&panes)
}

/// Whether the agent of a pane lives in the process tree of the pane.
pub open spec fn pane_lives(
    panes: Seq<PaneInfo>,
    pids: Map<Seq<char>, u32>,
    snapshot: ProcessSnapshot,
    pane_id: Seq<char>,
) -> bool {
    exists|k: int|
        0 <= k < panes.len() && (#[trigger] panes[k]).pane_id@ == pane_id && pids.contains_key(
            pane_id,
        ) && process::runs_agent(snapshot, seq![pids[pane_id]], panes[k].agent)
}

/// Whether the live panes are exactly those whose agent lives.
pub open spec fn live_found(
    panes: Seq<PaneInfo>,
    pids: Map<Seq<char>, u32>,
    snapshot: ProcessSnapshot,
    live: Set<Seq<char>>,
) -> bool {
    forall|pane_id: Seq<char>| #[trigger]
        live.contains(pane_id) <==> pane_lives(panes, pids, snapshot, pane_id)
}

/// The value of a key.
pub open spec fn command_in(commands: Map<Seq<char>, String>, pane_id: Seq<char>) -> Option<
    Seq<char>,
> {
    if commands.contains_key(pane_id) {
        Some(commands[pane_id]@)
    } else {
        None
    }
}

/// Whether each pane with a process has the command shown for it, and no other
/// pane has one.
pub open spec fn commands_found(
    panes: Seq<PaneInfo>,
    pids: Map<Seq<char>, u32>,
    snapshot: ProcessSnapshot,
    commands: Map<Seq<char>, String>,
) -> bool {
    &&& forall|k: int|
        0 <= k < panes.len() && pids.contains_key((#[trigger] panes[k]).pane_id@) ==> best_command(
            snapshot,
            pids[panes[k].pane_id@],
            command_in(commands, panes[k].pane_id@),
        )
    &&& forall|pane_id: Seq<char>| #[trigger]
        commands.contains_key(pane_id) ==> pids.contains_key(pane_id) && exists|k: int|
            0 <= k < panes.len() && (#[trigger] panes[k]).pane_id@ == pane_id
}

/// Two answers to which command is shown are one.
proof fn best_command_unique(
    snapshot: ProcessSnapshot,
    root: u32,
    left: Option<Seq<char>>,
    right: Option<Seq<char>>,
)
    requires
        best_command(snapshot, root, left),
        best_command(snapshot, root, right),
    ensures
        left == right,
{
    if left is Some && right is Some && left != right {
        assert(preferred(left->0, right->0) && preferred(right->0, left->0)) by {
            if best_of(snapshot, root, true, None) {
                best_pair(snapshot, root, false, left->0, right->0);
                best_pair(snapshot, root, false, right->0, left->0);
            } else {
                best_pair(snapshot, root, true, left->0, right->0);
                best_pair(snapshot, root, true, right->0, left->0);
            }
        }
        order::precedes_asymmetric(left->0, right->0);
    }
}

proof fn best_pair(
    snapshot: ProcessSnapshot,
    root: u32,
    leaves: bool,
    left: Seq<char>,
    right: Seq<char>,
)
    requires
        best_of(snapshot, root, leaves, Some(left)),
        best_of(snapshot, root, leaves, Some(right)),
    ensures
        preferred(left, right),
{
    let pid = choose|pid: u32| #[trigger]
        is_candidate(snapshot, root, pid) && is_leaf(snapshot, pid) == leaves && shown_command(
            snapshot.infos()[pid],
        ) == right;
    assert(is_candidate(snapshot, root, pid));
}

/// Finds which agents live and what runs in the panes.
fn scan_panes(
    panes: &Vec<&PaneInfo>,
    pids: &TextMap<u32>,
    snapshot: &ProcessSnapshot,
) -> (found: (TextSet, TextMap<String>))
    ensures
        live_found(derefs(panes@), pids@, *snapshot, found.0@),
        commands_found(derefs(panes@), pids@, *snapshot, found.1@),
        found.0.wf(),
        found.1.wf(),
{
    let ghost all = derefs(panes@);
    let mut live = TextSet::new();
    let mut commands: TextMap<String> = TextMap::new();
    let mut i: usize = 0;
    while i < panes.len()
        invariant
            i <= panes@.len(),
            all == derefs(panes@),
            live.wf(),
            commands.wf(),
            live_found(all.take(i as int), pids@, *snapshot, live@),
            commands_found(all.take(i as int), pids@, *snapshot, commands@),
        decreases panes@.len() - i,
    {
        let pane = panes[i];
        let ghost id = pane.pane_id@;
        let ghost before = all.take(i as int);
        let ghost after = all.take(i + 1);
        let ghost old_live = live@;
        let ghost old_commands = commands@;
        proof {
            assert(after =~= before.push(*pane));
        }
        if let Some(pid) = pids.get(pane.pane_id.as_str()) {
            let roots = [*pid];
            proof {
                assert(roots@ =~= seq![*pid]);
            }
            if snapshot.tree_has_agent(&roots, &pane.agent) {
                live.insert(pane.pane_id.clone());
            }
            let best = best_command_for_pane(*pid, snapshot);
            let ghost line = text::opt(best);
            if let Some(command) = best {
                commands.insert(pane.pane_id.clone(), command);
            }
            proof {
                assert(command_in(commands@, id) == line) by {
                    if line is None && old_commands.contains_key(id) {
                        let k = choose|k: int|
                            0 <= k < before.len() && (#[trigger] before[k]).pane_id@ == id;
                        best_command_unique(*snapshot, *pid, line, command_in(old_commands, id));
                    }
                }
            }
        }
        proof {
            scan_step_live(before, *pane, pids@, *snapshot, old_live, live@);
            scan_step_commands(before, *pane, pids@, *snapshot, old_commands, commands@);
        }
        i = i + 1;
    }
    proof {
        assert(all.take(i as int) =~= all);
    }
    (live, commands)
}

proof fn scan_step_live(
    panes: Seq<PaneInfo>,
    pane: PaneInfo,
    pids: Map<Seq<char>, u32>,
    snapshot: ProcessSnapshot,
    before: Set<Seq<char>>,
    after: Set<Seq<char>>,
)
    requires
        live_found(panes, pids, snapshot, before),
        after == if pids.contains_key(pane.pane_id@) && process::runs_agent(
            snapshot,
            seq![pids[pane.pane_id@]],
            pane.agent,
        ) {
            before.insert(pane.pane_id@)
        } else {
            before
        },
    ensures
        live_found(panes.push(pane), pids, snapshot, after),
{
    let longer = panes.push(pane);
    assert forall|pane_id: Seq<char>| #[trigger] after.contains(pane_id) <==> pane_lives(
        longer,
        pids,
        snapshot,
        pane_id,
    ) by {
        assert(before.contains(pane_id) <==> pane_lives(panes, pids, snapshot, pane_id));
        if pane_lives(panes, pids, snapshot, pane_id) {
            let k = choose|k: int|
                0 <= k < panes.len() && (#[trigger] panes[k]).pane_id@ == pane_id
                    && pids.contains_key(pane_id) && process::runs_agent(
                    snapshot,
                    seq![pids[pane_id]],
                    panes[k].agent,
                );
            assert(longer[k] == panes[k]);
        }
        if pane_lives(longer, pids, snapshot, pane_id) {
            let k = choose|k: int|
                0 <= k < longer.len() && (#[trigger] longer[k]).pane_id@ == pane_id
                    && pids.contains_key(pane_id) && process::runs_agent(
                    snapshot,
                    seq![pids[pane_id]],
                    longer[k].agent,
                );
            if k < panes.len() {
                assert(panes[k] == longer[k]);
            }
        }
        assert(longer[panes.len() as int] == pane);
    }
}

proof fn scan_step_commands(
    panes: Seq<PaneInfo>,
    pane: PaneInfo,
    pids: Map<Seq<char>, u32>,
    snapshot: ProcessSnapshot,
    before: Map<Seq<char>, String>,
    after: Map<Seq<char>, String>,
)
    requires
        commands_found(panes, pids, snapshot, before),
        forall|id: Seq<char>|
            id != pane.pane_id@ ==> command_in(after, id) == #[trigger] command_in(before, id),
        pids.contains_key(pane.pane_id@) ==> best_command(
            snapshot,
            pids[pane.pane_id@],
            command_in(after, pane.pane_id@),
        ),
        !pids.contains_key(pane.pane_id@) ==> after == before,
    ensures
        commands_found(panes.push(pane), pids, snapshot, after),
{
    let longer = panes.push(pane);
    assert forall|k: int|
        0 <= k < longer.len() && pids.contains_key((#[trigger] longer[k]).pane_id@) implies
        best_command(
        snapshot,
        pids[longer[k].pane_id@],
        command_in(after, longer[k].pane_id@),
    ) by {
        if k < panes.len() {
            assert(longer[k] == panes[k]);
            assert(command_in(before, panes[k].pane_id@) == command_in(before, panes[k].pane_id@));
        }
    }
    assert forall|pane_id: Seq<char>| #[trigger] after.contains_key(pane_id) implies
        pids.contains_key(pane_id) && exists|k: int|
        0 <= k < longer.len() && (#[trigger] longer[k]).pane_id@ == pane_id by {
        if pane_id == pane.pane_id@ {
            assert(longer[panes.len() as int].pane_id@ == pane_id);
        } else {
            assert(command_in(after, pane_id) == command_in(before, pane_id));
            assert(before.contains_key(pane_id));
            let k = choose|k: int|
                0 <= k < panes.len() && (#[trigger] panes[k]).pane_id@ == pane_id;
            assert(longer[k] == panes[k]);
        }
    }
}

/// Whether `found` is what the processes tell of the agents in the panes.
/// Without a pane process nothing is to be found; without a process list nothing
/// is known.
pub open spec fn liveness_found(
    panes: Seq<PaneInfo>,
    process_snapshot: Option<&ProcessSnapshot>,
    found: Option<PaneProcessSnapshot>,
) -> bool {
    let pids = pids_of(panes);
    if pids == Map::<Seq<char>, u32>::empty() {
        found matches Some(result) && result.blank()
    } else {
        match process_snapshot {
            Some(snapshot) => found matches Some(result) && {
                &&& result.ports_by_pane@ == Map::<Seq<char>, Vec<u16>>::empty()
                &&& live_found(panes, pids, *snapshot, result.live_agent_panes@)
                &&& commands_found(panes, pids, *snapshot, result.command_by_pane@)
            },
            None => found is None,
        }
    }
}

/// Process-only agent liveness and command data. This never looks at sockets;
/// callers use it to reconcile stale tagged panes even when port display is
/// disabled or socket discovery fails.
pub fn scan_session_agent_liveness(
    sessions: &Vec<SessionInfo>,
    process_snapshot: Option<&ProcessSnapshot>,
) -> (found: Option<PaneProcessSnapshot>)
    ensures
        liveness_found(types::panes_of(sessions@), process_snapshot, found),
{
    let panes = all_panes(sessions);
    proof {
        assert(derefs(panes@) =~= types::panes_of(sessions@));
    }
    let pids = pane_pids(&panes);
    if pids.is_empty() {
        return Some(PaneProcessSnapshot::default());
    }
    let snapshot = match process_snapshot {
        Some(known) => known,
        None => {
            return None;
        },
    };
    let (live_agent_panes, command_by_pane) = scan_panes(&panes, &pids, snapshot);
    Some(
        PaneProcessSnapshot { ports_by_pane: TextMap::new(), command_by_pane, live_agent_panes },
    )
}

/// Whether a process of the pane with process `root` listens on a port.
pub open spec fn listens(
    snapshot: ProcessSnapshot,
    sockets: Seq<(u32, u16)>,
    root: u32,
    port: u16,
) -> bool {
    exists|k: int|
        0 <= k < sockets.len() && (#[trigger] sockets[k]).1 == port && process::descends(
            snapshot,
            seq![root],
            sockets[k].0,
        )
}

/// Whether a list holds the ports that a pane listens on, each once and in
/// order.
pub open spec fn ports_found(
    snapshot: ProcessSnapshot,
    sockets: Seq<(u32, u16)>,
    root: u32,
    ports: Seq<u16>,
) -> bool {
    &&& forall|i: int, j: int| 0 <= i < j < ports.len() ==> ports[i] < ports[j]
    &&& forall|port: u16| #[trigger]
        ports.contains(port) <==> listens(snapshot, sockets, root, port)
}

/// Puts a port into a list in order, unless it is there.
fn insert_port(ports: &mut Vec<u16>, port: u16)
    requires
        forall|i: int, j: int| 0 <= i < j < old(ports)@.len() ==> old(ports)@[i] < old(ports)@[j],
    ensures
        forall|i: int, j: int|
            0 <= i < j < final(ports)@.len() ==> final(ports)@[i] < final(ports)@[j],
        forall|other: u16| #[trigger]
            final(ports)@.contains(other) <==> (old(ports)@.contains(other) || other == port),
{
    let ghost before = ports@;
    let mut at: usize = 0;
    while at < ports.len() && ports[at] < port
        invariant
            at <= ports@.len(),
            ports@ == before,
            forall|i: int| 0 <= i < at ==> before[i] < port,
        decreases ports@.len() - at,
    {
        at = at + 1;
    }
    if at < ports.len() && ports[at] == port {
        proof {
            assert(before.contains(port));
        }
        return;
    }
    ports.insert(at, port);
    proof {
        let after = ports@;
        assert(after =~= before.insert(at as int, port));
        assert forall|other: u16| #[trigger] after.contains(other) <==> (before.contains(other)
            || other == port) by {
            if before.contains(other) {
                let i = choose|i: int| 0 <= i < before.len() && before[i] == other;
                if i < at {
                    assert(after[i] == other);
                } else {
                    assert(after[i + 1] == other);
                }
            }
            if other == port {
                assert(after[at as int] == other);
            }
            if after.contains(other) {
                let i = choose|i: int| 0 <= i < after.len() && after[i] == other;
                if i < at {
                    assert(before[i] == other);
                } else if i > at {
                    assert(before[i - 1] == other);
                }
            }
        }
        assert forall|i: int, j: int| 0 <= i < j < after.len() implies after[i] < after[j] by {
            if i < at && j > at {
                assert(after[j] == before[j - 1]);
            } else if i == at {
                assert(after[j] == before[j - 1]);
                assert(before[at as int] <= before[j - 1]);
            } else if i > at {
                assert(after[i] == before[i - 1] && after[j] == before[j - 1]);
            } else if j == at {
                assert(after[i] == before[i]);
            }
        }
    }
}

/// The ports that the pane of a process listens on.
fn ports_below(snapshot: &ProcessSnapshot, sockets: &Vec<(u32, u16)>, root: u32) -> (ports: Vec<
    u16,
>)
    ensures
        ports_found(*snapshot, sockets@, root, ports@),
{
    let roots = [root];
    proof {
        assert(roots@ =~= seq![root]);
    }
    let list = snapshot.descendants(&roots);
    let mut ports: Vec<u16> = Vec::new();
    let mut i: usize = 0;
    while i < sockets.len()
        invariant
            i <= sockets@.len(),
            forall|pid: u32|
                #[trigger] list@.contains(pid) <==> process::descends(
                    *snapshot,
                    seq![root],
                    pid,
                ),
            ports_found(*snapshot, sockets@.take(i as int), root, ports@),
        decreases sockets@.len() - i,
    {
        let (pid, port) = sockets[i];
        let ghost before = ports@;
        let ghost shorter = sockets@.take(i as int);
        let ghost longer = sockets@.take(i + 1);
        if process::has_pid(&list, pid) {
            insert_port(&mut ports, port);
        }
        proof {
            assert(longer =~= shorter.push((pid, port)));
            assert forall|other: u16| #[trigger] ports@.contains(other) <==> listens(
                *snapshot,
                longer,
                root,
                other,
            ) by {
                assert(before.contains(other) <==> listens(*snapshot, shorter, root, other));
                if listens(*snapshot, shorter, root, other) {
                    let k = choose|k: int|
                        0 <= k < shorter.len() && (#[trigger] shorter[k]).1 == other
                            && process::descends(*snapshot, seq![root], shorter[k].0);
                    assert(longer[k] == shorter[k]);
                }
                if listens(*snapshot, longer, root, other) {
                    let k = choose|k: int|
                        0 <= k < longer.len() && (#[trigger] longer[k]).1 == other
                            && process::descends(*snapshot, seq![root], longer[k].0);
                    if k < shorter.len() {
                        assert(shorter[k] == longer[k]);
                    }
                }
                assert(longer[i as int] == (pid, port));
                assert(list@.contains(pid) <==> process::descends(*snapshot, seq![root], pid));
            }
        }
        i = i + 1;
    }
    proof {
        assert(sockets@.take(i as int) =~= sockets@);
    }
    ports
}

/// Whether each pane that listens has its ports, and no other pane has any.
pub open spec fn pane_ports_found(
    panes: Seq<PaneInfo>,
    pids: Map<Seq<char>, u32>,
    snapshot: ProcessSnapshot,
    sockets: Seq<(u32, u16)>,
    ports: Map<Seq<char>, Vec<u16>>,
) -> bool {
    &&& forall|pane_id: Seq<char>| #[trigger]
        ports.contains_key(pane_id) ==> {
            &&& pids.contains_key(pane_id)
            &&& ports[pane_id]@.len() > 0
            &&& ports_found(snapshot, sockets, pids[pane_id], ports[pane_id]@)
        }
    &&& forall|k: int, port: u16|
        0 <= k < panes.len() && pids.contains_key((#[trigger] panes[k]).pane_id@)
            && #[trigger] listens(snapshot, sockets, pids[panes[k].pane_id@], port)
            ==> ports.contains_key(panes[k].pane_id@)
}

/// Whether `found` is what the processes and their sockets tell of the panes.
/// Without a pane process, a process list or a socket list nothing is known.
pub open spec fn sample_found(
    panes: Seq<PaneInfo>,
    process_snapshot: Option<&ProcessSnapshot>,
    lsof_output: Option<&str>,
    found: Option<PaneProcessSnapshot>,
) -> bool {
    let pids = pids_of(panes);
    match (process_snapshot, lsof_output) {
        (Some(snapshot), Some(output)) => if pids == Map::<Seq<char>, u32>::empty() {
            found is None
        } else {
            found matches Some(result) && {
                &&& live_found(panes, pids, *snapshot, result.live_agent_panes@)
                &&& commands_found(panes, pids, *snapshot, result.command_by_pane@)
                &&& pane_ports_found(
                    panes,
                    pids,
                    *snapshot,
                    lsof_state(cut::lines_of(output@)).found,
                    result.ports_by_pane@,
                )
            }
        },
        _ => found is None,
    }
}

/// Scan per-pane process state for the provided sessions.
///
/// The lookup starts from each pane's PID and walks the process tree, so it can
/// pick up child dev servers spawned by an agent shell and detect when the
/// agent process itself has exited. Without a pane process, a process list or a
/// socket list there is no result.
pub fn scan_session_process_snapshot(
    sessions: &Vec<SessionInfo>,
    process_snapshot: Option<&ProcessSnapshot>,
    lsof_output: Option<&str>,
) -> (found: Option<PaneProcessSnapshot>)
    ensures
        sample_found(types::panes_of(sessions@), process_snapshot, lsof_output, found),
{
    let panes = all_panes(sessions);
    let ghost all = types::panes_of(sessions@);
    proof {
        assert(derefs(panes@) =~= all);
    }
    let pids = pane_pids(&panes);
    if pids.is_empty() {
        return None;
    }
    let snapshot = match process_snapshot {
        Some(known) => known,
        None => {
            return None;
        },
    };
    let (live_agent_panes, command_by_pane) = scan_panes(&panes, &pids, snapshot);
    let output = match lsof_output {
        Some(known) => known,
        None => {
            return None;
        },
    };
    let sockets = parse_lsof_listening_ports(output);
    let mut ports_by_pane: TextMap<Vec<u16>> = TextMap::new();
    let mut i: usize = 0;
    while i < panes.len()
        invariant
            i <= panes@.len(),
            derefs(panes@) == all,
            ports_by_pane.wf(),
            pane_ports_found(all.take(i as int), pids@, *snapshot, sockets@, ports_by_pane@),
        decreases panes@.len() - i,
    {
        let pane = panes[i];
        let ghost before = ports_by_pane@;
        let ghost shorter = all.take(i as int);
        let ghost longer = all.take(i + 1);
        proof {
            assert(longer =~= shorter.push(*pane));
        }
        if let Some(pid) = pids.get(pane.pane_id.as_str()) {
            let ports = ports_below(snapshot, &sockets, *pid);
            let ghost found = ports@;
            if ports.len() > 0 {
                ports_by_pane.insert(pane.pane_id.clone(), ports);
            }
            proof {
                assert forall|port: u16| #[trigger]
                    listens(*snapshot, sockets@, *pid, port) implies ports_by_pane@.contains_key(
                    pane.pane_id@,
                ) by {
                    assert(found.contains(port));
                }
            }
        }
        proof {
            assert forall|k: int, port: u16|
                0 <= k < longer.len() && pids@.contains_key((#[trigger] longer[k]).pane_id@)
                    && #[trigger] listens(
                    *snapshot,
                    sockets@,
                    pids@[longer[k].pane_id@],
                    port,
                ) implies ports_by_pane@.contains_key(longer[k].pane_id@) by {
                if k < shorter.len() {
                    assert(longer[k] == shorter[k]);
                    assert(before.contains_key(shorter[k].pane_id@));
                }
            }
        }
        i = i + 1;
    }
    proof {
        assert(all.take(i as int) =~= all);
    }
    Some(PaneProcessSnapshot { ports_by_pane, command_by_pane, live_agent_panes })
}

/// Scan listening TCP ports for panes in the provided sessions.
pub fn scan_session_ports(
    sessions: &Vec<SessionInfo>,
    process_snapshot: Option<&ProcessSnapshot>,
    lsof_output: Option<&str>,
) -> (ports: TextMap<Vec<u16>>)
    ensures
        ({
            let panes = types::panes_of(sessions@);
            let pids = pids_of(panes);
            match (process_snapshot, lsof_output) {
                (Some(snapshot), Some(output)) => if pids == Map::<Seq<char>, u32>::empty() {
                    ports@ == Map::<Seq<char>, Vec<u16>>::empty()
                } else {
                    pane_ports_found(
                        panes,
                        pids,
                        *snapshot,
                        lsof_state(cut::lines_of(output@)).found,
                        ports@,
                    )
                },
                _ => ports@ == Map::<Seq<char>, Vec<u16>>::empty(),
            }
        }),
{
    match scan_session_process_snapshot(sessions, process_snapshot, lsof_output) {
        Some(found) => found.ports_by_pane,
        None => TextMap::new(),
    }
}

// Laws.

proof fn colon_is_last(name: Seq<char>, at: int, end: int)
    requires
        0 <= at < end <= name.len(),
        name[at] == ':',
        forall|k: int| at < k < end ==> name[k] != ':',
    ensures
        last_colon(name, end) == Some(at),
    decreases end,
{
    if end - 1 > at {
        colon_is_last(name, at, end - 1);
    }
}

proof fn no_colon_is_last(name: Seq<char>, end: int)
    requires
        0 <= end <= name.len(),
        !name.contains(':'),
    ensures
        last_colon(name, end) is None,
    decreases end,
{
    if end > 0 {
        assert(name.contains(name[end - 1]));
        no_colon_is_last(name, end - 1);
    }
}

proof fn digits_end_behind_them(name: Seq<char>, from: int, to: int)
    requires
        0 <= from <= to <= name.len(),
        forall|k: int| from <= k < to ==> number::is_digit(#[trigger] name[k]),
        to < name.len() ==> !number::is_digit(name[to]),
    ensures
        digits_end(name, from) == to,
    decreases to - from,
{
    if from < to {
        assert(number::is_digit(name[from]));
        digits_end_behind_them(name, from + 1, to);
    }
}

proof fn port_behind_the_colon(host: Seq<char>, digits: Seq<char>, tail: Seq<char>)
    requires
        forall|k: int| 0 <= k < digits.len() ==> number::is_digit(#[trigger] digits[k]),
        !tail.contains(':'),
        tail.len() > 0 ==> !number::is_digit(tail[0]),
    ensures
        port_of(host + ":"@ + digits + tail) == match number::unsigned(digits, u16::MAX as int) {
            Some(port) => Some(port as u16),
            None => None,
        },
{
    reveal_strlit(":");
    let name = host + ":"@ + digits + tail;
    let colon = host.len() as int;
    let trimmed = scan::trim_of(name);
    scan::trimmed_text_has_bare_ends(name);
    let (before, after) = choose|before: Seq<char>, after: Seq<char>|
        #![trigger before + trimmed + after]
        name == before + trimmed + after && (forall|i: int|
            0 <= i < before.len() ==> scan::is_space(#[trigger] before[i])) && (forall|i: int|
            0 <= i < after.len() ==> scan::is_space(#[trigger] after[i]));
    let b = before.len() as int;
    let last = b + trimmed.len();
    assert(name[colon] == ':');
    assert(b <= colon) by {
        if b > colon {
            assert(name[colon] == before[colon]);
        }
    }
    assert(last > colon) by {
        if last <= colon {
            assert(name[colon] == after[colon - last]);
        }
    }
    assert(colon + 1 + digits.len() <= last) by {
        if last < colon + 1 + digits.len() {
            assert(name[last] == after[0]);
            assert(name[last] == digits[last - colon - 1]);
        }
    }
    let at = colon - b;
    let end = at + 1 + digits.len();
    assert forall|k: int| 0 <= k < trimmed.len() implies trimmed[k] == #[trigger] name[b + k] by {}
    assert(trimmed[at] == name[b + at]);
    assert forall|k: int| at < k < trimmed.len() implies trimmed[k] != ':' by {
        assert(trimmed[k] == name[b + k]);
        if k < end {
            assert(name[b + k] == digits[k - at - 1]);
        } else {
            assert(name[b + k] == tail[k - end]);
            assert(tail.contains(tail[k - end]));
        }
    }
    colon_is_last(trimmed, at, trimmed.len() as int);
    assert forall|k: int| at + 1 <= k < end implies number::is_digit(#[trigger] trimmed[k]) by {
        assert(trimmed[k] == name[b + k]);
        assert(name[b + k] == digits[k - at - 1]);
    }
    if end < trimmed.len() {
        assert(trimmed[end] == name[b + end]);
        assert(name[b + end] == tail[0]);
    }
    digits_end_behind_them(trimmed, at + 1, end);
    let found = trimmed.subrange(at + 1, end);
    assert forall|k: int| 0 <= k < digits.len() implies found[k] == digits[k] by {
        assert(found[k] == trimmed[at + 1 + k]);
        assert(trimmed[at + 1 + k] == name[b + at + 1 + k]);
    }
    assert(found =~= digits);
}

/// The port is the number behind the last colon, whatever the host is, colons in it too,
/// and whatever follows the number.
pub proof fn a_port_stands_behind_its_host(host: Seq<char>, port: nat, tail: Seq<char>)
    requires
        !tail.contains(':'),
        tail.len() > 0 ==> !number::is_digit(tail[0]),
    ensures
        port_of(host + ":"@ + number::decimal_of(port) + tail) == if port <= u16::MAX {
            Some(port as u16)
        } else {
            None
        },
{
    let digits = number::decimal_of(port);
    number::decimal_reads_back(port);
    port_behind_the_colon(host, digits, tail);
    assert(number::is_digit(digits[0]));
}

/// A name that ends with its port gives the port.
pub proof fn a_name_ends_with_its_port(host: Seq<char>, port: u16)
    ensures
        port_of(host + ":"@ + number::decimal_of(port as nat)) == Some(port),
{
    let none = Seq::<char>::empty();
    a_port_stands_behind_its_host(host, port as nat, none);
    assert(host + ":"@ + number::decimal_of(port as nat) + none =~= host + ":"@
        + number::decimal_of(port as nat));
}

/// A name without a colon, or with no digit behind its last, has no port.
pub proof fn no_number_is_no_port(host: Seq<char>, tail: Seq<char>)
    requires
        !tail.contains(':'),
        tail.len() > 0 ==> !number::is_digit(tail[0]),
    ensures
        port_of(host + ":"@ + tail) is None,
        port_of(tail) is None,
{
    let none = Seq::<char>::empty();
    port_behind_the_colon(host, none, tail);
    assert(host + ":"@ + none + tail =~= host + ":"@ + tail);
    scan::trimmed_text_has_bare_ends(tail);
    let trimmed = scan::trim_of(tail);
    let (before, after) = choose|before: Seq<char>, after: Seq<char>|
        #![trigger before + trimmed + after]
        tail == before + trimmed + after && (forall|i: int|
            0 <= i < before.len() ==> scan::is_space(#[trigger] before[i])) && (forall|i: int|
            0 <= i < after.len() ==> scan::is_space(#[trigger] after[i]));
    assert(!trimmed.contains(':')) by {
        if trimmed.contains(':') {
            let at = trimmed.index_of(':');
            assert(tail[before.len() + at] == ':');
        }
    }
    no_colon_is_last(trimmed, trimmed.len() as int);
}

/// The line of a socket in the output of `lsof`.
pub open spec fn socket_line(host: Seq<char>, port: u16) -> Seq<char> {
    "n"@ + (host + ":"@ + number::decimal_of(port as nat))
}

proof fn a_process_is_told(list: Seq<Seq<char>>, pid: u32)
    ensures
        lsof_state(list.push("p"@ + number::decimal_of(pid as nat))) == (LsofState {
            pid: Some(pid),
            found: lsof_state(list).found,
        }),
{
    reveal_strlit("p");
    let word = number::decimal_of(pid as nat);
    let line = "p"@ + word;
    number::decimal_round_trip(pid as nat, u32::MAX as int);
    assert(line.subrange(0, 1) =~= "p"@);
    assert(line.skip(1) =~= word);
    assert(list.push(line).drop_last() =~= list);
}

proof fn a_socket_is_told(list: Seq<Seq<char>>, host: Seq<char>, port: u16)
    requires
        lsof_state(list).pid is Some,
    ensures
        lsof_state(list.push(socket_line(host, port))) == (LsofState {
            pid: lsof_state(list).pid,
            found: lsof_state(list).found.push((lsof_state(list).pid->0, port)),
        }),
{
    reveal_strlit("p");
    reveal_strlit("n");
    let name = host + ":"@ + number::decimal_of(port as nat);
    let line = "n"@ + name;
    a_name_ends_with_its_port(host, port);
    assert(line.subrange(0, 1) =~= "n"@);
    assert(line.skip(1) =~= name);
    assert(scan::after_prefix(line, "p"@) is None) by {
        assert(line.subrange(0, 1)[0] == 'n');
    }
    assert(list.push(line).drop_last() =~= list);
}

/// The sockets listed below a process are that process's, each with its port, and what
/// was listed above stays.
pub proof fn sockets_belong_to_the_process_above(
    list: Seq<Seq<char>>,
    pid: u32,
    sockets: Seq<(Seq<char>, u16)>,
)
    ensures
        ({
            let told = list.push("p"@ + number::decimal_of(pid as nat)) + sockets.map_values(
                |socket: (Seq<char>, u16)| socket_line(socket.0, socket.1),
            );
            &&& lsof_state(told).pid == Some(pid)
            &&& lsof_state(told).found == lsof_state(list).found + sockets.map_values(
                |socket: (Seq<char>, u16)| (pid, socket.1),
            )
        }),
    decreases sockets.len(),
{
    let start = list.push("p"@ + number::decimal_of(pid as nat));
    let written = |socket: (Seq<char>, u16)| socket_line(socket.0, socket.1);
    let meant = |socket: (Seq<char>, u16)| (pid, socket.1);
    if sockets.len() == 0 {
        a_process_is_told(list, pid);
        assert(start + sockets.map_values(written) =~= start);
        assert(lsof_state(list).found + sockets.map_values(meant) =~= lsof_state(list).found);
    } else {
        let rest = sockets.drop_last();
        let last = sockets.last();
        sockets_belong_to_the_process_above(list, pid, rest);
        let before = start + rest.map_values(written);
        a_socket_is_told(before, last.0, last.1);
        assert(start + sockets.map_values(written) =~= before.push(socket_line(last.0, last.1)));
        assert(lsof_state(list).found + sockets.map_values(meant) =~= (lsof_state(list).found
            + rest.map_values(meant)).push((pid, last.1)));
    }
}

/// The command shown for a pane is that of a process below it which is no shell; of such
/// processes without children none has a longer command line, and of two of one length
/// the first in order is shown.
pub proof fn the_longest_command_is_shown(
    snapshot: ProcessSnapshot,
    root: u32,
    line: Seq<char>,
    pid: u32,
)
    requires
        best_command(snapshot, root, Some(line)),
    ensures
        exists|shown: u32|
            #![trigger process::descends(snapshot, seq![root], shown)]
            {
                &&& process::descends(snapshot, seq![root], shown)
                &&& snapshot.infos().contains_key(shown)
                &&& ({
                    let name = process::basename_of(snapshot.infos()[shown].comm);
                    &&& name.len() > 0
                    &&& name != "bash"@ && name != "sh"@ && name != "zsh"@ && name != "fish"@
                    &&& name != "tmux"@ && name != "login"@ && name != "sudo"@
                })
                &&& line == if snapshot.infos()[shown].args.len() == 0 {
                    snapshot.infos()[shown].comm
                } else {
                    scan::trim_of(snapshot.infos()[shown].args)
                }
            },
        is_candidate(snapshot, root, pid) && snapshot.children(pid).len() == 0 ==> {
            let other = shown_command(snapshot.infos()[pid]);
            let length = vstd::utf8::encode_utf8(line).len();
            &&& length >= vstd::utf8::encode_utf8(other).len()
            &&& length == vstd::utf8::encode_utf8(other).len() ==> line == other
                || order::precedes(line, other)
        },
{
    if is_candidate(snapshot, root, pid) && snapshot.children(pid).len() == 0 {
        assert(is_leaf(snapshot, pid));
        assert(best_of(snapshot, root, true, Some(line)));
    }
    let leaves = best_of(snapshot, root, true, Some(line));
    let shown = choose|shown: u32| #[trigger]
        is_candidate(snapshot, root, shown) && is_leaf(snapshot, shown) == leaves && shown_command(
            snapshot.infos()[shown],
        ) == line;
    assert(is_candidate(snapshot, root, shown) && shown_command(snapshot.infos()[shown]) == line);
    assert(process::descends(snapshot, seq![root], shown));
}

/// Where nothing is shown for a pane, no process below it is more than a shell.
pub proof fn shells_alone_show_nothing(snapshot: ProcessSnapshot, root: u32, pid: u32)
    requires
        best_command(snapshot, root, None),
        process::descends(snapshot, seq![root], pid),
        snapshot.infos().contains_key(pid),
        process::basename_of(snapshot.infos()[pid].comm).len() > 0,
    ensures
        ({
            let name = process::basename_of(snapshot.infos()[pid].comm);
            name == "bash"@ || name == "sh"@ || name == "zsh"@ || name == "fish"@ || name == "tmux"@
                || name == "login"@ || name == "sudo"@
        }),
{
    if !is_wrapper(process::basename_of(snapshot.infos()[pid].comm)) {
        assert(is_candidate(snapshot, root, pid));
        assert(is_leaf(snapshot, pid) || !is_leaf(snapshot, pid));
    }
}

/// Whether each pane has an id of its own.
pub open spec fn ids_differ(panes: Seq<PaneInfo>) -> bool {
    forall|i: int, j: int|
        0 <= i < j < panes.len() ==> (#[trigger] panes[i]).pane_id@ != (#[trigger] panes[j]).pane_id@
}

/// Each pane with an id of its own is looked up by its own process.
pub proof fn panes_have_their_own_process(panes: Seq<PaneInfo>, k: int)
    requires
        ids_differ(panes),
        0 <= k < panes.len(),
    ensures
        match panes[k].pane_pid {
            Some(pid) => pids_of(panes).contains_key(panes[k].pane_id@)
                && pids_of(panes)[panes[k].pane_id@] == pid,
            None => !pids_of(panes).contains_key(panes[k].pane_id@),
        },
    decreases panes.len(),
{
    let rest = panes.drop_last();
    if k < panes.len() - 1 {
        assert(ids_differ(rest)) by {
            assert forall|i: int, j: int| 0 <= i < j < rest.len() implies (
            #[trigger] rest[i]).pane_id@ != (#[trigger] rest[j]).pane_id@ by {
                assert(panes[i].pane_id@ != panes[j].pane_id@);
            }
        }
        panes_have_their_own_process(rest, k);
        assert(panes[k].pane_id@ != panes[panes.len() - 1].pane_id@);
    } else {
        no_pane_no_process(rest, panes[k].pane_id@);
    }
}

proof fn no_pane_no_process(panes: Seq<PaneInfo>, id: Seq<char>)
    requires
        forall|i: int| 0 <= i < panes.len() ==> (#[trigger] panes[i]).pane_id@ != id,
    ensures
        !pids_of(panes).contains_key(id),
    decreases panes.len(),
{
    if panes.len() > 0 {
        assert(panes[panes.len() - 1].pane_id@ != id);
        no_pane_no_process(panes.drop_last(), id);
    }
}

/// What was found of a pane with an id of its own is told of its own processes: its agent
/// lives just where one of them has the name of the agent, and it listens on just the
/// ports on which one of them does, each listed once and in order.
pub proof fn a_pane_is_known_by_its_processes(
    panes: Seq<PaneInfo>,
    k: int,
    snapshot: ProcessSnapshot,
    output: &str,
    found: PaneProcessSnapshot,
    port: u16,
)
    requires
        ids_differ(panes),
        0 <= k < panes.len(),
        panes[k].pane_pid is Some,
        sample_found(panes, Some(&snapshot), Some(output), Some(found)),
    ensures
        ({
            let id = panes[k].pane_id@;
            let root = panes[k].pane_pid->0;
            let sockets = lsof_state(cut::lines_of(output@)).found;
            let ports = found.ports_by_pane@;
            &&& found.live_agent_panes@.contains(id) <==> exists|pid: u32| #[trigger]
                process::descends(snapshot, seq![root], pid) && snapshot.infos().contains_key(pid)
                    && process::basename_of(snapshot.infos()[pid].comm) == types::agent_label(
                    panes[k].agent,
                )
            &&& ports.contains_key(id) && ports[id]@.contains(port) <==> exists|i: int|
                0 <= i < sockets.len() && (#[trigger] sockets[i]).1 == port && process::descends(
                    snapshot,
                    seq![root],
                    sockets[i].0,
                )
            &&& ports.contains_key(id) ==> ports[id]@.len() > 0 && forall|i: int, j: int|
                0 <= i < j < ports[id]@.len() ==> ports[id]@[i] < ports[id]@[j]
        }),
{
    let id = panes[k].pane_id@;
    let root = panes[k].pane_pid->0;
    let pids = pids_of(panes);
    let sockets = lsof_state(cut::lines_of(output@)).found;
    let ports = found.ports_by_pane@;
    panes_have_their_own_process(panes, k);
    assert(found.live_agent_panes@.contains(id) <==> pane_lives(panes, pids, snapshot, id));
    if pane_lives(panes, pids, snapshot, id) {
        let j = choose|j: int|
            0 <= j < panes.len() && (#[trigger] panes[j]).pane_id@ == id && pids.contains_key(id)
                && process::runs_agent(snapshot, seq![pids[id]], panes[j].agent);
        if j < k {
            assert(panes[j].pane_id@ != panes[k].pane_id@);
        } else if k < j {
            assert(panes[k].pane_id@ != panes[j].pane_id@);
        }
    }
    if process::runs_agent(snapshot, seq![root], panes[k].agent) {
        assert(panes[k].pane_id@ == id);
        assert(pane_lives(panes, pids, snapshot, id));
    }
    if listens(snapshot, sockets, root, port) {
        assert(pids.contains_key(panes[k].pane_id@));
        assert(listens(snapshot, sockets, pids[panes[k].pane_id@], port));
        assert(ports.contains_key(id));
        assert(ports[id]@.contains(port));
    }
    if ports.contains_key(id) && ports[id]@.contains(port) {
        assert(listens(snapshot, sockets, root, port));
    }
}

} // verus!
