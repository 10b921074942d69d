//! The processes of the machine, as one `ps` call lists them.

use std::collections::HashMap;

use vstd::prelude::*;
use vstd::set_lib::*;
use vstd::std_specs::hash::*;

use crate::cut;
use crate::cut::lines;
use crate::number;
use crate::number::parse_unsigned;
use crate::scan;
use crate::scan::{space, trim};
use crate::text;
use crate::text::{chars_of, same, text_of};
use crate::tmux::types;
use crate::tmux::types::AgentType;

verus! {

/// A process: the name of its program, and its command line.
#[derive(Debug, PartialEq, Eq)]
pub struct ProcessInfo {
    pub comm: String,
    pub args: String,
}

/// A list of processes, by number, with their children.
pub struct ProcessSnapshot {
    pub info_by_pid: HashMap<u32, ProcessInfo>,
    pub children_of: HashMap<u32, Vec<u32>>,
}

/// The model of a process.
pub struct InfoModel {
    pub comm: Seq<char>,
    pub args: Seq<char>,
}

/// A line of `ps`: a process, its parent, its program and its command line.
pub struct PsRow {
    pub pid: u32,
    pub parent: u32,
    pub info: InfoModel,
}

/// The index of the first white space at or after `at`, or the end.
pub open spec fn word_end(line: Seq<char>, at: int) -> int
    decreases line.len() - at,
{
    if at < 0 || at >= line.len() {
        line.len() as int
    } else if scan::is_space(line[at]) {
        at
    } else {
        word_end(line, at + 1)
    }
}

/// The first word of a line.
pub open spec fn word(line: Seq<char>) -> Seq<char> {
    line.take(word_end(line, 0))
}

/// What follows the first word and the white space after it.
pub open spec fn after_word(line: Seq<char>) -> Seq<char> {
    scan::trim_start_of(line.skip(word_end(line, 0)))
}

/// The process that a line of `ps` stands for. A line is made of three words
/// and the command line, which may itself hold white space.
pub open spec fn ps_row(line: Seq<char>) -> Option<PsRow> {
    let first = scan::trim_start_of(line);
    let second = after_word(first);
    let third = after_word(second);
    match (
        number::unsigned(word(first), u32::MAX as int),
        number::unsigned(word(second), u32::MAX as int),
    ) {
        (Some(pid), Some(parent)) => if word(third).len() > 0 {
            Some(
                PsRow {
                    pid: pid as u32,
                    parent: parent as u32,
                    info: InfoModel {
                        comm: word(third),
                        args: scan::trim_of(after_word(third)),
                    },
                },
            )
        } else {
            None
        },
        _ => None,
    }
}

/// The processes that the first lines list; of two lines with one number the
/// later counts.
pub open spec fn infos_of(list: Seq<Seq<char>>) -> Map<u32, InfoModel>
    decreases list.len(),
{
    if list.len() == 0 {
        Map::empty()
    } else {
        let before = infos_of(list.drop_last());
        match ps_row(list.last()) {
            Some(row) => before.insert(row.pid, row.info),
            None => before,
        }
    }
}

/// The children of a process among the first lines, in their order.
pub open spec fn children_in(list: Seq<Seq<char>>, parent: u32) -> Seq<u32>
    decreases list.len(),
{
    if list.len() == 0 {
        Seq::<u32>::empty()
    } else {
        let before = children_in(list.drop_last(), parent);
        match ps_row(list.last()) {
            Some(row) if row.parent == parent => before.push(row.pid),
            _ => before,
        }
    }
}

impl ProcessSnapshot {
    /// The processes, by number.
    pub open spec fn infos(&self) -> Map<u32, InfoModel> {
        self.info_by_pid@.map_values(
            |info: ProcessInfo| (InfoModel { comm: info.comm@, args: info.args@ }),
        )
    }

    /// The children of a process.
    pub open spec fn children(&self, pid: u32) -> Seq<u32> {
        if self.children_of@.contains_key(pid) {
            self.children_of@[pid]@
        } else {
            Seq::<u32>::empty()
        }
    }
}

/// The first word of a line, and what follows it.
fn cut_word(line: &str) -> (parts: (String, String))
    ensures
        parts.0@ == word(line@),
        parts.1@ == after_word(line@),
{
    let chars = chars_of(line);
    let mut end: usize = 0;
    while end < chars.len() && !space(chars[end])
        invariant
            end <= chars@.len(),
            chars@ == line@,
            word_end(line@, 0) == word_end(line@, end as int),
        decreases chars@.len() - end,
    {
        end = end + 1;
    }
    let mut start: usize = end;
    while start < chars.len() && space(chars[start])
        invariant
            end <= start <= chars@.len(),
            chars@ == line@,
            scan::trim_start_of(line@.skip(start as int)) == scan::trim_start_of(
                line@.skip(end as int),
            ),
        decreases chars@.len() - start,
    {
        proof {
            assert(line@.skip(start as int).drop_first() =~= line@.skip(start + 1));
        }
        start = start + 1;
    }
    proof {
        assert(line@.take(end as int) =~= line@.subrange(0, end as int));
        assert(line@.skip(start as int) =~= line@.subrange(start as int, line@.len() as int));
        assert(word_end(line@, 0) == end);
        assert(scan::trim_start_of(line@.skip(start as int)) == line@.skip(start as int));
    }
    (text_of(chars.as_slice(), 0, end), text_of(chars.as_slice(), start, chars.len()))
}

/// A line without the white space it starts with.
fn trim_start(line: &str) -> (rest: String)
    ensures
        rest@ == scan::trim_start_of(line@),
{
    let chars = chars_of(line);
    let mut start: usize = 0;
    proof {
        assert(line@.skip(0) =~= line@);
    }
    while start < chars.len() && space(chars[start])
        invariant
            start <= chars@.len(),
            chars@ == line@,
            scan::trim_start_of(line@.skip(start as int)) == scan::trim_start_of(line@),
        decreases chars@.len() - start,
    {
        proof {
            assert(line@.skip(start as int).drop_first() =~= line@.skip(start + 1));
        }
        start = start + 1;
    }
    proof {
        assert(line@.skip(start as int) =~= line@.subrange(start as int, line@.len() as int));
    }
    text_of(chars.as_slice(), start, chars.len())
}

/// The process that a line of `ps` stands for: its number, its parent's, and
/// what it runs.
fn parse_ps_line(line: &str) -> (row: Option<(u32, u32, ProcessInfo)>)
    ensures
        match row {
            Some((pid, parent, info)) => ps_row(line@) == Some(
                PsRow { pid, parent, info: InfoModel { comm: info.comm@, args: info.args@ } },
            ),
            None => ps_row(line@) is None,
        },
{
    let first = trim_start(line);
    let (pid_word, second) = cut_word(first.as_str());
    let (parent_word, third) = cut_word(second.as_str());
    let (comm, rest) = cut_word(third.as_str());
    let pid = parse_unsigned(pid_word.as_str(), u32::MAX as u64);
    let parent = parse_unsigned(parent_word.as_str(), u32::MAX as u64);
    match (pid, parent) {
        (Some(p), Some(q)) => {
            if comm.as_str().is_empty() {
                None
            } else {
                Some((p as u32, q as u32, ProcessInfo { comm, args: trim(rest.as_str()) }))
            }
        },
        _ => None,
    }
}

impl ProcessSnapshot {
    /// Reads the lines of a `ps` call.
    pub fn from_ps_output(output: &str) -> (snapshot: ProcessSnapshot)
        ensures
            snapshot.infos() == infos_of(cut::lines_of(output@)),
            forall|pid: u32|
                #[trigger] snapshot.children(pid) == children_in(cut::lines_of(output@), pid),
    {
        broadcast use group_hash_axioms;

        let list = lines(output);
        let mut snapshot = ProcessSnapshot {
            info_by_pid: HashMap::new(),
            children_of: HashMap::new(),
        };
        let mut i: usize = 0;
        proof {
            assert(text::texts(list@).take(0) =~= Seq::<Seq<char>>::empty());
            assert(snapshot.infos() =~= Map::<u32, InfoModel>::empty());
        }
        while i < list.len()
            invariant
                i <= list@.len(),
                snapshot.infos() == infos_of(text::texts(list@).take(i as int)),
                forall|pid: u32|
                    #[trigger] snapshot.children(pid) == children_in(
                        text::texts(list@).take(i as int),
                        pid,
                    ),
            decreases list@.len() - i,
        {
            let ghost before = snapshot;
            proof {
                let head = text::texts(list@).take(i + 1);
                assert(head.drop_last() =~= text::texts(list@).take(i as int));
                assert(head.last() == list@[i as int]@);
            }
            if let Some((pid, parent, info)) = parse_ps_line(list[i].as_str()) {
                let ghost model = InfoModel { comm: info.comm@, args: info.args@ };
                snapshot.info_by_pid.insert(pid, info);
                let mut children: Vec<u32> = match snapshot.children_of.remove(&parent) {
                    Some(known) => known,
                    None => Vec::new(),
                };
                proof {
                    assert(children@ == before.children(parent));
                }
                children.push(pid);
                snapshot.children_of.insert(parent, children);
                proof {
                    assert(snapshot.infos() =~= before.infos().insert(pid, model));
                    assert forall|other: u32| #[trigger] snapshot.children(other) == if other
                        == parent {
                        before.children(other).push(pid)
                    } else {
                        before.children(other)
                    } by {}
                }
            }
            i = i + 1;
        }
        proof {
            assert(text::texts(list@).take(i as int) =~= cut::lines_of(output@));
        }
        snapshot
    }
}

/// Whether each process of a path is a child of the one before it.
pub open spec fn is_path(snapshot: ProcessSnapshot, path: Seq<u32>) -> bool {
    path.len() > 0 && forall|i: int|
        0 < i < path.len() ==> snapshot.children(path[i - 1]).contains(#[trigger] path[i])
}

/// Whether a process is one of the roots, or descends from one.
pub open spec fn descends(snapshot: ProcessSnapshot, roots: Seq<u32>, pid: u32) -> bool {
    exists|path: Seq<u32>|
        #[trigger] is_path(snapshot, path) && roots.contains(path[0]) && path.last() == pid
}

/// A list of distinct processes is no longer than there are numbers.
proof fn distinct_pids_fit(list: Seq<u32>)
    requires
        list.no_duplicates(),
    ensures
        list.len() <= 0x1_0000_0000,
{
    let ints = list.map_values(|pid: u32| pid as int);
    assert(ints.no_duplicates());
    ints.unique_seq_to_set();
    lemma_int_range(0, 0x1_0000_0000);
    assert(ints.to_set().subset_of(set_int_range(0, 0x1_0000_0000)));
    lemma_len_subset(ints.to_set(), set_int_range(0, 0x1_0000_0000));
}

/// A list that holds the roots and the children of all its members holds every
/// descendant.
proof fn closed_holds_descendants(
    snapshot: ProcessSnapshot,
    roots: Seq<u32>,
    list: Seq<u32>,
    path: Seq<u32>,
)
    requires
        is_path(snapshot, path),
        roots.contains(path[0]),
        forall|i: int| 0 <= i < roots.len() ==> list.contains(#[trigger] roots[i]),
        forall|i: int, j: int|
            0 <= i < list.len() && 0 <= j < snapshot.children(#[trigger] list[i]).len()
                ==> list.contains(#[trigger] snapshot.children(list[i])[j]),
    ensures
        list.contains(path.last()),
    decreases path.len(),
{
    if path.len() == 1 {
        let i = choose|i: int| 0 <= i < roots.len() && roots[i] == path[0];
        assert(list.contains(roots[i]));
    } else {
        let shorter = path.drop_last();
        assert forall|i: int| 0 < i < shorter.len() implies snapshot.children(
            shorter[i - 1],
        ).contains(#[trigger] shorter[i]) by {
            assert(path[i] == shorter[i]);
            assert(path[i - 1] == shorter[i - 1]);
        }
        closed_holds_descendants(snapshot, roots, list, shorter);
        let before = shorter.last();
        assert(snapshot.children(path[path.len() - 2]).contains(path[path.len() - 1]));
        let i = choose|i: int| 0 <= i < list.len() && list[i] == before;
        let kids = snapshot.children(list[i]);
        let j = choose|j: int| 0 <= j < kids.len() && kids[j] == path.last();
        assert(list.contains(snapshot.children(list[i])[j]));
    }
}

pub(crate) fn has_pid(list: &Vec<u32>, pid: u32) -> (yes: bool)
    ensures
        yes == list@.contains(pid),
{
    let mut i: usize = 0;
    while i < list.len()
        invariant
            i <= list@.len(),
            forall|k: int| 0 <= k < i ==> list@[k] != pid,
        decreases list@.len() - i,
    {
        if list[i] == pid {
            return true;
        }
        i = i + 1;
    }
    false
}

impl ProcessSnapshot {
    /// The roots and their descendants, each once.
    pub fn descendants(&self, roots: &[u32]) -> (list: Vec<u32>)
        ensures
            list@.no_duplicates(),
            forall|pid: u32| #[trigger] list@.contains(pid) <==> descends(*self, roots@, pid),
    {
        broadcast use group_hash_axioms;

        let mut list: Vec<u32> = Vec::new();
        let mut i: usize = 0;
        while i < roots.len()
            invariant
                i <= roots@.len(),
                list@.no_duplicates(),
                forall|k: int| 0 <= k < i ==> list@.contains(#[trigger] roots@[k]),
                forall|k: int|
                    0 <= k < list@.len() ==> descends(*self, roots@, #[trigger] list@[k]),
            decreases roots@.len() - i,
        {
            let ghost before = list@;
            if !has_pid(&list, roots[i]) {
                list.push(roots[i]);
                proof {
                    let path = seq![roots@[i as int]];
                    assert(is_path(*self, path));
                    assert(roots@.contains(path[0]));
                    assert(descends(*self, roots@, roots@[i as int]));
                    assert(list@[before.len() as int] == roots@[i as int]);
                }
            }
            proof {
                assert forall|k: int| 0 <= k <= i implies list@.contains(#[trigger] roots@[k]) by {
                    if k < i {
                        let n = choose|n: int| 0 <= n < before.len() && before[n] == roots@[k];
                        assert(list@[n] == roots@[k]);
                    }
                }
            }
            i = i + 1;
        }
        let mut done: usize = 0;
        while done < list.len()
            invariant
                done <= list@.len(),
                list@.no_duplicates(),
                forall|k: int| 0 <= k < roots@.len() ==> list@.contains(#[trigger] roots@[k]),
                forall|k: int|
                    0 <= k < list@.len() ==> descends(*self, roots@, #[trigger] list@[k]),
                forall|k: int, j: int|
                    0 <= k < done && 0 <= j < self.children(#[trigger] list@[k]).len()
                        ==> list@.contains(#[trigger] self.children(list@[k])[j]),
            decreases 0x1_0000_0000 - done,
        {
            proof {
                distinct_pids_fit(list@);
            }
            let pid = list[done];
            let ghost outer = list@;
            if let Some(children) = self.children_of.get(&pid) {
                let mut j: usize = 0;
                while j < children.len()
                    invariant
                        j <= children@.len(),
                        children@ == self.children(pid),
                        done < outer.len() <= list@.len(),
                        outer[done as int] == pid,
                        forall|k: int| 0 <= k < outer.len() ==> outer[k] == #[trigger] list@[k],
                        list@.no_duplicates(),
                        descends(*self, roots@, pid),
                        forall|k: int|
                            0 <= k < list@.len() ==> descends(*self, roots@, #[trigger] list@[k]),
                        forall|k: int| 0 <= k < j ==> list@.contains(#[trigger] children@[k]),
                    decreases children@.len() - j,
                {
                    let ghost before = list@;
                    if !has_pid(&list, children[j]) {
                        list.push(children[j]);
                        proof {
                            let path = choose|path: Seq<u32>|
                                #[trigger] is_path(*self, path) && roots@.contains(path[0])
                                    && path.last() == pid;
                            let longer = path.push(children@[j as int]);
                            assert forall|n: int| 0 < n < longer.len() implies self.children(
                                longer[n - 1],
                            ).contains(#[trigger] longer[n]) by {
                                if n < path.len() {
                                    assert(longer[n] == path[n]);
                                    assert(longer[n - 1] == path[n - 1]);
                                } else {
                                    assert(longer[n - 1] == pid);
                                    assert(self.children(pid)[j as int] == longer[n]);
                                }
                            }
                            assert(is_path(*self, longer));
                            assert(longer[0] == path[0]);
                            assert(descends(*self, roots@, children@[j as int]));
                            assert(list@[before.len() as int] == children@[j as int]);
                        }
                    }
                    proof {
                        assert forall|k: int| 0 <= k <= j implies list@.contains(
                            #[trigger] children@[k],
                        ) by {
                            if k < j {
                                let n = choose|n: int|
                                    0 <= n < before.len() && before[n] == children@[k];
                                assert(list@[n] == children@[k]);
                            }
                        }
                    }
                    j = j + 1;
                }
            }
            proof {
                assert forall|k: int| 0 <= k < roots@.len() implies list@.contains(
                    #[trigger] roots@[k],
                ) by {
                    let n = choose|n: int| 0 <= n < outer.len() && outer[n] == roots@[k];
                    assert(list@[n] == roots@[k]);
                }
                assert forall|k: int, j: int|
                    0 <= k <= done && 0 <= j < self.children(#[trigger] list@[k]).len() implies
                    list@.contains(#[trigger] self.children(list@[k])[j]) by {
                    if k < done {
                        assert(outer[k] == list@[k]);
                        assert(outer.contains(self.children(outer[k])[j]));
                        let n = choose|n: int|
                            0 <= n < outer.len() && outer[n] == self.children(outer[k])[j];
                        assert(list@[n] == self.children(list@[k])[j]);
                    } else {
                        assert(list@[k] == pid);
                    }
                }
            }
            done = done + 1;
        }
        proof {
            assert forall|pid: u32| descends(*self, roots@, pid) implies #[trigger] list@.contains(
                pid,
            ) by {
                let path = choose|path: Seq<u32>|
                    #[trigger] is_path(*self, path) && roots@.contains(path[0]) && path.last()
                        == pid;
                closed_holds_descendants(*self, roots@, list@, path);
            }
        }
        list
    }
}

/// The index behind the last slash of the first `end` characters.
pub open spec fn behind_slash(path: Seq<char>, end: int) -> int
    decreases end,
{
    if end <= 0 || end > path.len() {
        0
    } else if path[end - 1] == '/' {
        end
    } else {
        behind_slash(path, end - 1)
    }
}

/// The name of a program without the directories before it.
pub open spec fn basename_of(command: Seq<char>) -> Seq<char> {
    command.skip(behind_slash(command, command.len() as int))
}

/// The name of a program without the directories before it.
pub fn command_basename(command: &str) -> (name: String)
    ensures
        name@ == basename_of(command@),
{
    let chars = chars_of(command);
    let mut end: usize = chars.len();
    while end > 0 && chars[end - 1] != '/'
        invariant
            end <= chars@.len(),
            chars@ == command@,
            behind_slash(command@, command@.len() as int) == behind_slash(command@, end as int),
        decreases end,
    {
        end = end - 1;
    }
    proof {
        assert(command@.skip(end as int) =~= command@.subrange(end as int, command@.len() as int));
    }
    text_of(chars.as_slice(), end, chars.len())
}

/// Whether a process of a tree runs the program of an agent.
pub open spec fn runs_agent(snapshot: ProcessSnapshot, roots: Seq<u32>, agent: AgentType) -> bool {
    exists|pid: u32|
        #[trigger] descends(snapshot, roots, pid) && snapshot.infos().contains_key(pid)
            && basename_of(snapshot.infos()[pid].comm) == types::agent_label(agent)
}

/// Whether a process of a tree has a command line.
pub open spec fn runs_line(snapshot: ProcessSnapshot, roots: Seq<u32>, line: Seq<char>) -> bool {
    exists|pid: u32|
        #[trigger] descends(snapshot, roots, pid) && snapshot.infos().contains_key(pid)
            && snapshot.infos()[pid].args == line
}

impl ProcessSnapshot {
    /// Whether a process of a tree runs the program of an agent.
    pub fn tree_has_agent(&self, roots: &[u32], agent: &AgentType) -> (yes: bool)
        ensures
            yes == runs_agent(*self, roots@, *agent),
    {
        broadcast use group_hash_axioms;

        let list = self.descendants(roots);
        let mut i: usize = 0;
        while i < list.len()
            invariant
                i <= list@.len(),
                forall|k: int|
                    0 <= k < i && self.infos().contains_key(#[trigger] list@[k]) ==> basename_of(
                        self.infos()[list@[k]].comm,
                    ) != types::agent_label(*agent),
                forall|pid: u32| #[trigger] list@.contains(pid) <==> descends(*self, roots@, pid),
            decreases list@.len() - i,
        {
            if let Some(info) = self.info_by_pid.get(&list[i]) {
                let name = command_basename(info.comm.as_str());
                if same(name.as_str(), agent.as_str()) {
                    proof {
                        assert(list@.contains(list@[i as int]));
                        assert(descends(*self, roots@, list@[i as int]));
                    }
                    return true;
                }
            }
            i = i + 1;
        }
        proof {
            if runs_agent(*self, roots@, *agent) {
                let pid = choose|pid: u32|
                    #[trigger] descends(*self, roots@, pid) && self.infos().contains_key(pid)
                        && basename_of(self.infos()[pid].comm) == types::agent_label(*agent);
                assert(list@.contains(pid));
                let k = choose|k: int| 0 <= k < list@.len() && list@[k] == pid;
                assert(list@[k] == pid);
            }
        }
        false
    }

    /// The command lines of the processes of a tree.
    pub fn command_lines_for_tree(&self, roots: &[u32]) -> (found: Vec<String>)
        ensures
            forall|line: Seq<char>| #[trigger]
                text::texts(found@).contains(line) <==> runs_line(*self, roots@, line),
    {
        broadcast use group_hash_axioms;

        let list = self.descendants(roots);
        let mut found: Vec<String> = Vec::new();
        let mut i: usize = 0;
        while i < list.len()
            invariant
                i <= list@.len(),
                forall|pid: u32| #[trigger] list@.contains(pid) <==> descends(*self, roots@, pid),
                forall|k: int|
                    0 <= k < found@.len() ==> runs_line(*self, roots@, (#[trigger] found@[k])@),
                forall|k: int|
                    0 <= k < i && self.infos().contains_key(#[trigger] list@[k]) ==> text::texts(
                        found@,
                    ).contains(self.infos()[list@[k]].args),
            decreases list@.len() - i,
        {
            let ghost before = text::texts(found@);
            if let Some(info) = self.info_by_pid.get(&list[i]) {
                found.push(info.args.clone());
                proof {
                    assert(list@.contains(list@[i as int]));
                    assert(descends(*self, roots@, list@[i as int]));
                    assert(self.infos()[list@[i as int]].args == info.args@);
                    assert(text::texts(found@)[before.len() as int] == info.args@);
                }
            }
            proof {
                assert forall|k: int|
                    0 <= k <= i && self.infos().contains_key(#[trigger] list@[k]) implies
                    text::texts(found@).contains(self.infos()[list@[k]].args) by {
                    if k < i {
                        let n = choose|n: int|
                            0 <= n < before.len() && before[n] == self.infos()[list@[k]].args;
                        assert(text::texts(found@)[n] == before[n]);
                    }
                }
            }
            i = i + 1;
        }
        proof {
            assert forall|line: Seq<char>| #[trigger]
                text::texts(found@).contains(line) <==> runs_line(*self, roots@, line) by {
                if text::texts(found@).contains(line) {
                    let n = choose|n: int|
                        0 <= n < text::texts(found@).len() && text::texts(found@)[n] == line;
                    assert(found@[n]@ == line);
                }
                if runs_line(*self, roots@, line) {
                    let pid = choose|pid: u32|
                        #[trigger] descends(*self, roots@, pid) && self.infos().contains_key(pid)
                            && self.infos()[pid].args == line;
                    assert(list@.contains(pid));
                    let k = choose|k: int| 0 <= k < list@.len() && list@[k] == pid;
                    assert(list@[k] == pid);
                }
            }
        }
        found
    }
}

// Laws.

/// Whether a text is white space alone.
pub open spec fn is_blank(text: Seq<char>) -> bool {
    forall|i: int| 0 <= i < text.len() ==> scan::is_space(#[trigger] text[i])
}

/// Whether a text is one word.
pub open spec fn is_word(text: Seq<char>) -> bool {
    text.len() > 0 && forall|i: int| 0 <= i < text.len() ==> !scan::is_space(#[trigger] text[i])
}

proof fn a_word_ends(line: Seq<char>, from: int, end: int)
    requires
        0 <= from <= end <= line.len(),
        forall|k: int| from <= k < end ==> !scan::is_space(#[trigger] line[k]),
        end < line.len() ==> scan::is_space(line[end]),
    ensures
        word_end(line, from) == end,
    decreases end - from,
{
    if from < end {
        assert(!scan::is_space(line[from]));
        a_word_ends(line, from + 1, end);
    }
}

proof fn blanks_before_a_text_go(gap: Seq<char>, rest: Seq<char>)
    requires
        is_blank(gap),
        rest.len() > 0 ==> !scan::is_space(rest[0]),
    ensures
        scan::trim_start_of(gap + rest) == rest,
    decreases gap.len(),
{
    if gap.len() == 0 {
        assert(gap + rest =~= rest);
    } else {
        assert(scan::is_space(gap[0]));
        assert((gap + rest).drop_first() =~= gap.drop_first() + rest);
        assert forall|i: int| 0 <= i < gap.drop_first().len() implies scan::is_space(
            #[trigger] gap.drop_first()[i],
        ) by {
            assert(scan::is_space(gap[i + 1]));
        }
        blanks_before_a_text_go(gap.drop_first(), rest);
    }
}

proof fn a_word_is_cut(first: Seq<char>, gap: Seq<char>, rest: Seq<char>)
    requires
        is_word(first),
        is_blank(gap),
        gap.len() > 0 || rest.len() == 0,
        rest.len() > 0 ==> !scan::is_space(rest[0]),
    ensures
        word(first + gap + rest) == first,
        after_word(first + gap + rest) == rest,
{
    let line = first + gap + rest;
    let end = first.len() as int;
    assert forall|k: int| 0 <= k < end implies !scan::is_space(#[trigger] line[k]) by {
        assert(line[k] == first[k]);
    }
    if end < line.len() {
        assert(line[end] == gap[0]);
        assert(scan::is_space(gap[0]));
    }
    a_word_ends(line, 0, end);
    assert(line.take(end) =~= first);
    assert(line.skip(end) =~= gap + rest);
    blanks_before_a_text_go(gap, rest);
}

proof fn a_number_is_a_word(value: u32)
    ensures
        is_word(number::decimal_of(value as nat)),
        number::unsigned(number::decimal_of(value as nat), u32::MAX as int) == Some(value as int),
{
    let text = number::decimal_of(value as nat);
    number::decimal_reads_back(value as nat);
    number::decimal_round_trip(value as nat, u32::MAX as int);
    assert forall|i: int| 0 <= i < text.len() implies !scan::is_space(#[trigger] text[i]) by {
        assert(number::is_digit(text[i]));
    }
}

/// A line of `ps` tells, in this order, of the process, its parent, its program and its
/// command line, however many blanks stand between them; blanks in the command line stay.
pub proof fn a_line_of_ps_is_read(
    indent: Seq<char>,
    pid: u32,
    first: Seq<char>,
    parent: u32,
    second: Seq<char>,
    comm: Seq<char>,
    third: Seq<char>,
    args: Seq<char>,
    tail: Seq<char>,
)
    requires
        is_blank(indent) && is_blank(first) && is_blank(second) && is_blank(third) && is_blank(tail),
        first.len() > 0 && second.len() > 0,
        is_word(comm),
        args.len() > 0 ==> third.len() > 0 && !scan::is_space(args[0]) && !scan::is_space(
            args.last(),
        ),
        args.len() == 0 ==> tail.len() == 0,
    ensures
        ps_row(
            indent + (number::decimal_of(pid as nat) + first + (number::decimal_of(parent as nat)
                + second + (comm + third + (args + tail)))),
        ) == Some(PsRow { pid, parent, info: InfoModel { comm, args } }),
{
    let one = number::decimal_of(pid as nat);
    let two = number::decimal_of(parent as nat);
    let fourth = args + tail;
    let line3 = comm + third + fourth;
    let line2 = two + second + line3;
    let line1 = one + first + line2;
    a_number_is_a_word(pid);
    a_number_is_a_word(parent);
    assert(line1[0] == one[0] && !scan::is_space(one[0]));
    blanks_before_a_text_go(indent, line1);
    assert(line2[0] == two[0] && !scan::is_space(two[0]));
    a_word_is_cut(one, first, line2);
    assert(line3[0] == comm[0] && !scan::is_space(comm[0]));
    a_word_is_cut(two, second, line3);
    if args.len() > 0 {
        assert(fourth[0] == args[0]);
    } else {
        assert(fourth =~= Seq::<char>::empty());
    }
    a_word_is_cut(comm, third, fourth);
    let none = Seq::<char>::empty();
    scan::trim_takes_the_space_around(none, args, tail);
    assert(none + args + tail =~= fourth);
}

/// Whether a line says of a process that it is a child of another.
pub open spec fn says_child(line: Seq<char>, parent: u32, pid: u32) -> bool {
    ps_row(line) is Some && ps_row(line)->0.pid == pid && ps_row(line)->0.parent == parent
}

/// A process is a child of another just where a line says so.
pub proof fn children_have_the_parent_of_their_line(list: Seq<Seq<char>>, parent: u32, pid: u32)
    ensures
        children_in(list, parent).contains(pid) <==> exists|k: int|
            0 <= k < list.len() && says_child(#[trigger] list[k], parent, pid),
    decreases list.len(),
{
    if list.len() > 0 {
        let rest = list.drop_last();
        let before = children_in(rest, parent);
        let all = children_in(list, parent);
        children_have_the_parent_of_their_line(rest, parent, pid);
        if before.contains(pid) {
            assert(all[before.index_of(pid)] == pid);
            let k = choose|k: int|
                0 <= k < rest.len() && says_child(#[trigger] rest[k], parent, pid);
            assert(says_child(list[k], parent, pid));
        }
        if let Some(row) = ps_row(list.last()) {
            if row.parent == parent && row.pid == pid {
                assert(all[before.len() as int] == pid);
                assert(says_child(list[list.len() - 1], parent, pid));
            }
        }
        if exists|k: int|
            0 <= k < list.len() && says_child(#[trigger] list[k], parent, pid) {
            let k = choose|k: int|
                0 <= k < list.len() && says_child(#[trigger] list[k], parent, pid);
            if k < rest.len() {
                assert(says_child(rest[k], parent, pid));
            }
        } else if all.contains(pid) {
            let at = all.index_of(pid);
            if at < before.len() {
                assert(before[at] == pid);
            }
        }
    }
}

/// Whether a line tells of a process.
pub open spec fn tells_of(line: Seq<char>, pid: u32) -> bool {
    ps_row(line) is Some && ps_row(line)->0.pid == pid
}

/// What is known of a process is what its last line tells.
pub proof fn a_process_is_what_its_last_line_tells(list: Seq<Seq<char>>, k: int, row: PsRow)
    requires
        0 <= k < list.len(),
        ps_row(list[k]) == Some(row),
        forall|j: int|
            k < j < list.len() ==> !tells_of(#[trigger] list[j], row.pid),
    ensures
        infos_of(list).contains_key(row.pid),
        infos_of(list)[row.pid] == row.info,
    decreases list.len(),
{
    if k < list.len() - 1 {
        assert(!tells_of(list[list.len() - 1], row.pid));
        assert forall|j: int| k < j < list.drop_last().len() implies !tells_of(#[trigger] list.drop_last()[j], row.pid) by {
            assert(!tells_of(list[j], row.pid));
        }
        a_process_is_what_its_last_line_tells(list.drop_last(), k, row);
    }
}

proof fn a_slash_is_last(path: Seq<char>, slash: int, end: int)
    requires
        -1 <= slash < end <= path.len(),
        slash >= 0 ==> path[slash] == '/',
        forall|k: int| slash < k < end ==> path[k] != '/',
    ensures
        behind_slash(path, end) == slash + 1,
    decreases end,
{
    if end - 1 > slash {
        a_slash_is_last(path, slash, end - 1);
    }
}

/// A program is known by its name, whatever directories stand before it.
pub proof fn programs_are_known_by_name(directory: Seq<char>, name: Seq<char>)
    requires
        name.len() > 0,
        !name.contains('/'),
    ensures
        basename_of(name) == name,
        basename_of(directory.push('/') + name) == name,
{
    let whole = directory.push('/') + name;
    assert forall|k: int| -1 < k < name.len() implies name[k] != '/' by {
        assert(name.contains(name[k]));
    }
    a_slash_is_last(name, -1, name.len() as int);
    assert(name.skip(0) =~= name);
    let slash = directory.len() as int;
    assert forall|k: int| slash < k < whole.len() implies whole[k] != '/' by {
        assert(whole[k] == name[k - slash - 1]);
    }
    a_slash_is_last(whole, slash, whole.len() as int);
    assert(whole.skip(slash + 1) =~= name);
}

/// A process tree holds its roots and the children of all its members, and nothing else.
pub proof fn a_tree_holds_roots_and_children(
    snapshot: ProcessSnapshot,
    roots: Seq<u32>,
    pid: u32,
    child: u32,
)
    ensures
        roots.contains(pid) ==> descends(snapshot, roots, pid),
        descends(snapshot, roots, pid) && snapshot.children(pid).contains(child) ==> descends(
            snapshot,
            roots,
            child,
        ),
        descends(snapshot, roots, pid) && !roots.contains(pid) ==> exists|parent: u32| #[trigger]
            descends(snapshot, roots, parent) && snapshot.children(parent).contains(pid),
{
    if roots.contains(pid) {
        let path = seq![pid];
        assert(is_path(snapshot, path) && roots.contains(path[0]) && path.last() == pid);
    }
    if descends(snapshot, roots, pid) {
        let path = choose|path: Seq<u32>|
            #[trigger] is_path(snapshot, path) && roots.contains(path[0]) && path.last() == pid;
        if snapshot.children(pid).contains(child) {
            let longer = path.push(child);
            assert forall|i: int| 0 < i < longer.len() implies snapshot.children(
                longer[i - 1],
            ).contains(#[trigger] longer[i]) by {
                if i < path.len() {
                    assert(longer[i] == path[i] && longer[i - 1] == path[i - 1]);
                }
            }
            assert(is_path(snapshot, longer) && roots.contains(longer[0]) && longer.last()
                == child);
        }
        if !roots.contains(pid) {
            assert(path.len() > 1);
            let shorter = path.drop_last();
            let parent = shorter.last();
            assert forall|i: int| 0 < i < shorter.len() implies snapshot.children(
                shorter[i - 1],
            ).contains(#[trigger] shorter[i]) by {
                assert(shorter[i] == path[i] && shorter[i - 1] == path[i - 1]);
            }
            assert(is_path(snapshot, shorter) && roots.contains(shorter[0]) && shorter.last()
                == parent);
            assert(snapshot.children(path[path.len() - 2]).contains(path[path.len() - 1]));
            assert(descends(snapshot, roots, parent));
        }
    }
}

/// An agent runs in a tree just where a process of it has the name of the agent, with or
/// without directories before it.
pub proof fn an_agent_runs_under_its_name(
    snapshot: ProcessSnapshot,
    roots: Seq<u32>,
    pid: u32,
    directory: Seq<char>,
    agent: AgentType,
)
    requires
        descends(snapshot, roots, pid),
        snapshot.infos().contains_key(pid),
        agent !is Unknown,
        snapshot.infos()[pid].comm == types::agent_label(agent) || snapshot.infos()[pid].comm
            == directory.push('/') + types::agent_label(agent),
    ensures
        runs_agent(snapshot, roots, agent),
{
    reveal_strlit("@sidebar_color_agent_claude");
    reveal_strlit("@sidebar_color_agent_");
    reveal_strlit("codex");
    reveal_strlit("opencode");
    let label = types::agent_label(agent);
    assert(label.len() > 0);
    assert forall|k: int| 0 <= k < label.len() implies label[k] != '/' by {}
    assert(!label.contains('/'));
    programs_are_known_by_name(directory, label);
}

} // verus!
