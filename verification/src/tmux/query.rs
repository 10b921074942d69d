//! Reading sessions, windows and panes out of one `tmux list-panes` call.

use vstd::prelude::*;
use vstd::string::StringExecFns;

use crate::cut;
use crate::cut::{join, split, words, Separator};
use crate::number;
use crate::number::parse_unsigned;
use crate::paths;
use crate::paths::file_name;
use crate::process;
use crate::process::ProcessSnapshot;
use crate::scan;
use crate::scan::{contains, lower, trim};
use crate::text;
use crate::text::{chars_of, concat3, owned, same, text_of};
use crate::tmux::options;
use crate::tmux::options::{remove_log, unset_pane_option, PaneOptions};
use crate::tmux::options::{
    PANE_AGENT, PANE_ATTENTION, PANE_BG_CMD, PANE_CWD, PANE_NAME, PANE_PENDING_SESSION_END,
    PANE_PENDING_WORKTREE_REMOVE, PANE_PERMISSION_MODE, PANE_PROMPT, PANE_PROMPT_SOURCE, PANE_ROLE,
    PANE_SESSION_ID, PANE_STARTED_AT, PANE_STATUS, PANE_SUBAGENTS, PANE_WAIT_REASON,
    PANE_WORKTREE_BRANCH, PANE_WORKTREE_NAME,
};
use crate::tmux::types;
use crate::tmux::types::{
    AgentType, PaneInfo, PaneStatus, PermissionMode, WorktreeMetadata,
};

verus! {

/// The pane option that marks panes the sidebar spawned.
pub const SPAWNED_OPTION: &'static str = "@agent-sidebar-spawned";

// Field indices in `tmux list-panes -F` output. Keep in lock-step with the
// `pane_format()` field list.

pub const SESSION_NAME: usize = 0;

pub const WINDOW_ID: usize = 1;

pub const WINDOW_NAME: usize = 3;

pub const WINDOW_ACTIVE: usize = 4;

pub const AUTOMATIC_RENAME: usize = 5;

/// Index where the fields of the pane itself begin.
pub const PANE_LINE_OFFSET: usize = 6;

/// Minimum number of fields a line must contain.
pub const LINE_MIN_FIELDS: usize = 28;

// Indices into the fields of the pane itself.

pub const FIELD_PANE_ACTIVE: usize = 0;

pub const FIELD_STATUS: usize = 1;

pub const FIELD_ATTENTION: usize = 2;

pub const FIELD_AGENT: usize = 3;

pub const FIELD_CURRENT_PATH: usize = 5;

pub const FIELD_CURRENT_COMMAND: usize = 6;

pub const FIELD_ROLE: usize = 7;

pub const FIELD_PANE_ID: usize = 8;

pub const FIELD_PROMPT: usize = 9;

pub const FIELD_PROMPT_SOURCE: usize = 10;

pub const FIELD_STARTED_AT: usize = 11;

pub const FIELD_WAIT_REASON: usize = 12;

pub const FIELD_PANE_PID: usize = 13;

pub const FIELD_SUBAGENTS: usize = 14;

pub const FIELD_CWD: usize = 15;

pub const FIELD_PERMISSION_MODE: usize = 16;

pub const FIELD_WORKTREE_NAME: usize = 17;

pub const FIELD_WORKTREE_BRANCH: usize = 18;

pub const FIELD_SESSION_ID: usize = 19;

pub const FIELD_SIDEBAR_SPAWNED: usize = 20;

pub const FIELD_BG_CMD: usize = 21;

/// Minimum number of fields of the pane itself.
pub const PANE_MIN_FIELDS: usize = 22;

/// A field in the tmux quoting form.
pub open spec fn quoted_field(field: Seq<char>) -> Seq<char> {
    "#{q:"@ + field + "}"@
}

fn q(field: &str) -> (quoted: String)
    ensures
        quoted@ == quoted_field(field@),
{
    concat3("#{q:", field, "}")
}

/// The fields that `list-panes` is asked for, in order.
pub open spec fn format_fields() -> Seq<Seq<char>> {
    seq![
        "session_name"@,
        "window_id"@,
        "window_index"@,
        "window_name"@,
        "window_active"@,
        "automatic-rename"@,
        "pane_active"@,
        PANE_STATUS@,
        PANE_ATTENTION@,
        PANE_AGENT@,
        PANE_NAME@,
        "pane_current_path"@,
        "pane_current_command"@,
        PANE_ROLE@,
        "pane_id"@,
        PANE_PROMPT@,
        PANE_PROMPT_SOURCE@,
        PANE_STARTED_AT@,
        PANE_WAIT_REASON@,
        "pane_pid"@,
        PANE_SUBAGENTS@,
        PANE_CWD@,
        PANE_PERMISSION_MODE@,
        PANE_WORKTREE_NAME@,
        PANE_WORKTREE_BRANCH@,
        PANE_SESSION_ID@,
        SPAWNED_OPTION@,
        PANE_BG_CMD@,
    ]
}

/// Build the tmux `list-panes -F` format. Every field is quoted with
/// `#{q:...}` so embedded pipes in user content survive the split.
pub fn pane_format() -> (format: String)
    ensures
        format@ == cut::joined(
            format_fields().map_values(|field: Seq<char>| quoted_field(field)),
            "|"@,
        ),
{
    let mut fields: Vec<String> = Vec::new();
    fields.push(q("session_name"));
    fields.push(q("window_id"));
    fields.push(q("window_index"));
    fields.push(q("window_name"));
    fields.push(q("window_active"));
    fields.push(q("automatic-rename"));
    fields.push(q("pane_active"));
    fields.push(q(PANE_STATUS));
    fields.push(q(PANE_ATTENTION));
    fields.push(q(PANE_AGENT));
    fields.push(q(PANE_NAME));
    fields.push(q("pane_current_path"));
    fields.push(q("pane_current_command"));
    fields.push(q(PANE_ROLE));
    fields.push(q("pane_id"));
    fields.push(q(PANE_PROMPT));
    fields.push(q(PANE_PROMPT_SOURCE));
    fields.push(q(PANE_STARTED_AT));
    fields.push(q(PANE_WAIT_REASON));
    fields.push(q("pane_pid"));
    fields.push(q(PANE_SUBAGENTS));
    fields.push(q(PANE_CWD));
    fields.push(q(PANE_PERMISSION_MODE));
    fields.push(q(PANE_WORKTREE_NAME));
    fields.push(q(PANE_WORKTREE_BRANCH));
    fields.push(q(PANE_SESSION_ID));
    fields.push(q(SPAWNED_OPTION));
    fields.push(q(PANE_BG_CMD));
    proof {
        assert(text::texts(fields@) =~= format_fields().map_values(
            |field: Seq<char>| quoted_field(field),
        ));
    }
    join(&fields, "|")
}

/// How far a line has been split: the fields that ended, the one at hand, and
/// whether a backslash waits for the character it escapes.
pub struct SplitState {
    pub done: Seq<Seq<char>>,
    pub current: Seq<char>,
    pub escaped: bool,
}

/// The state of the split one character later.
pub open spec fn split_step(state: SplitState, ch: char, delimiter: char) -> SplitState {
    if state.escaped {
        SplitState { done: state.done, current: state.current.push(ch), escaped: false }
    } else if ch == '\\' {
        SplitState { done: state.done, current: state.current, escaped: true }
    } else if ch == delimiter {
        SplitState {
            done: state.done.push(state.current),
            current: Seq::<char>::empty(),
            escaped: false,
        }
    } else {
        SplitState { done: state.done, current: state.current.push(ch), escaped: false }
    }
}

/// The state of the split behind a line.
pub open spec fn split_state(line: Seq<char>, delimiter: char) -> SplitState
    decreases line.len(),
{
    if line.len() == 0 {
        SplitState {
            done: Seq::<Seq<char>>::empty(),
            current: Seq::<char>::empty(),
            escaped: false,
        }
    } else {
        split_step(split_state(line.drop_last(), delimiter), line.last(), delimiter)
    }
}

/// The fields of a line. A backslash makes the character behind it part of its
/// field; one at the end of the line stands for itself.
pub open spec fn fields_of(line: Seq<char>, delimiter: char) -> Seq<Seq<char>> {
    let state = split_state(line, delimiter);
    if state.escaped {
        state.done.push(state.current.push('\\'))
    } else {
        state.done.push(state.current)
    }
}

/// Split a tmux format line while honoring tmux `#{q:...}` backslash escapes.
pub fn split_tmux_fields(line: &str, delimiter: char) -> (fields: Vec<String>)
    ensures
        text::texts(fields@) == fields_of(line@, delimiter),
{
    let chars = chars_of(line);
    let mut fields: Vec<String> = Vec::new();
    let mut current = String::new();
    let mut escaped = false;
    let mut i: usize = 0;
    proof {
        assert(chars@.take(0) =~= Seq::<char>::empty());
        assert(text::texts(fields@) =~= Seq::<Seq<char>>::empty());
    }
    while i < chars.len()
        invariant
            i <= chars@.len(),
            chars@ == line@,
            split_state(line@.take(i as int), delimiter) == (SplitState {
                done: text::texts(fields@),
                current: current@,
                escaped,
            }),
        decreases chars@.len() - i,
    {
        let ch = chars[i];
        let ghost before = text::texts(fields@);
        proof {
            assert(line@.take(i + 1).drop_last() =~= line@.take(i as int));
        }
        i = i + 1;
        if escaped {
            current.push(ch);
            escaped = false;
            continue;
        }
        if ch == '\\' {
            escaped = true;
            continue;
        }
        if ch == delimiter {
            let ghost piece = current@;
            fields.push(current);
            current = String::new();
            proof {
                assert(text::texts(fields@) =~= before.push(piece));
            }
            continue;
        }
        current.push(ch);
    }
    proof {
        assert(line@.take(i as int) =~= line@);
    }
    if escaped {
        current.push('\\');
    }
    let ghost before = text::texts(fields@);
    let ghost piece = current@;
    fields.push(current);
    proof {
        assert(text::texts(fields@) =~= before.push(piece));
    }
    fields
}

/// A prompt that only the system wrote.
pub open spec fn is_injected(raw: Seq<char>) -> bool {
    ||| scan::contains_text(raw, "<task-notification>"@)
    ||| scan::contains_text(raw, "<system-reminder>"@)
    ||| scan::contains_text(raw, "<task-status>"@)
}

/// The longest prompt that is shown, in characters.
pub const PROMPT_CHARS: usize = 200;

/// A prompt as it is shown: nothing of an injected one, and else its start.
pub open spec fn shown_prompt(raw: Seq<char>) -> Seq<char> {
    if is_injected(raw) {
        Seq::<char>::empty()
    } else if raw.len() > PROMPT_CHARS {
        raw.take(PROMPT_CHARS as int)
    } else {
        raw
    }
}

/// Sanitize prompt text from tmux variable so it's safe for display.
pub fn sanitize_prompt(raw: &str) -> (shown: String)
    ensures
        shown@ == shown_prompt(raw@),
{
    if raw.is_empty() {
        proof {
            assert(raw@ =~= Seq::<char>::empty());
        }
        return String::new();
    }
    // Filter known system-injected messages only, so that legitimate prompts
    // containing comparisons or code snippets still render.
    if contains(raw, "<task-notification>") || contains(raw, "<system-reminder>") || contains(
        raw,
        "<task-status>",
    ) {
        return String::new();
    }
    let chars = chars_of(raw);
    if chars.len() > PROMPT_CHARS {
        proof {
            assert(raw@.take(PROMPT_CHARS as int) =~= raw@.subrange(0, PROMPT_CHARS as int));
        }
        text_of(chars.as_slice(), 0, PROMPT_CHARS)
    } else {
        owned(raw)
    }
}

/// How many characters of a subagent's id are shown.
pub const ID_PREFIX_LEN: usize = 4;

/// The index of the first colon of an entry, from index `at` on.
pub open spec fn colon_from(entry: Seq<char>, at: int) -> Option<int>
    decreases entry.len() - at,
{
    if at < 0 || at >= entry.len() {
        None
    } else if entry[at] == ':' {
        Some(at)
    } else {
        colon_from(entry, at + 1)
    }
}

/// An entry of the subagent list as it is shown.
pub open spec fn shown_subagent(entry: Seq<char>) -> Seq<char> {
    match colon_from(entry, 0) {
        Some(at) => {
            let id = entry.skip(at + 1);
            if id.len() > 0 {
                entry.take(at) + " #"@ + id.take(
                    if id.len() < ID_PREFIX_LEN {
                        id.len() as int
                    } else {
                        ID_PREFIX_LEN as int
                    },
                )
            } else {
                entry
            }
        },
        None => entry,
    }
}

/// The entries of the first pieces of the subagent list, as they are shown.
pub open spec fn shown_subagents(list: Seq<Seq<char>>) -> Seq<Seq<char>>
    decreases list.len(),
{
    if list.len() == 0 {
        Seq::<Seq<char>>::empty()
    } else {
        let before = shown_subagents(list.drop_last());
        let entry = scan::trim_of(list.last());
        if entry.len() > 0 {
            before.push(shown_subagent(entry))
        } else {
            before
        }
    }
}

fn show_subagent(entry: &str) -> (shown: String)
    ensures
        shown@ == shown_subagent(entry@),
{
    let chars = chars_of(entry);
    let mut at: usize = 0;
    while at < chars.len() && chars[at] != ':'
        invariant
            at <= chars@.len(),
            chars@ == entry@,
            colon_from(entry@, 0) == colon_from(entry@, at as int),
        decreases chars@.len() - at,
    {
        at = at + 1;
    }
    if at == chars.len() {
        return owned(entry);
    }
    let id_len: usize = chars.len() - at - 1;
    if id_len == 0 {
        return owned(entry);
    }
    let shown_len: usize = if id_len < ID_PREFIX_LEN {
        id_len
    } else {
        ID_PREFIX_LEN
    };
    let mut shown = text_of(chars.as_slice(), 0, at);
    shown.append(" #");
    let prefix = text_of(chars.as_slice(), at + 1, at + 1 + shown_len);
    shown.append(prefix.as_str());
    proof {
        assert(entry@.take(at as int) =~= entry@.subrange(0, at as int));
        assert(entry@.skip(at + 1).take(shown_len as int) =~= entry@.subrange(
            at + 1,
            at + 1 + shown_len,
        ));
    }
    shown
}

/// Parse the comma-separated `@pane_subagents` value into display strings.
///
/// Each entry is either `agent_type` (legacy) or `agent_type:agent_id`
/// (current). When an `agent_id` is present, the entry is rendered as
/// `"agent_type #<id-prefix>"` where `<id-prefix>` is the first 4 characters
/// of the id — stable per instance, so the UI label does not shift when
/// sibling subagents stop.
pub fn parse_subagents(raw: &str) -> (shown: Vec<String>)
    ensures
        text::texts(shown@) == shown_subagents(cut::pieces(raw@, Separator::Char(','))),
{
    let list = split(raw, Separator::Char(','));
    let mut shown: Vec<String> = Vec::new();
    let mut i: usize = 0;
    proof {
        assert(text::texts(list@).take(0) =~= Seq::<Seq<char>>::empty());
        assert(text::texts(shown@) =~= Seq::<Seq<char>>::empty());
    }
    while i < list.len()
        invariant
            i <= list@.len(),
            text::texts(shown@) == shown_subagents(text::texts(list@).take(i as int)),
        decreases list@.len() - i,
    {
        let ghost before = text::texts(shown@);
        proof {
            let head = text::texts(list@).take(i + 1);
            assert(head.drop_last() =~= text::texts(list@).take(i as int));
            assert(head.last() == list@[i as int]@);
        }
        let entry = trim(list[i].as_str());
        if !entry.as_str().is_empty() {
            let item = show_subagent(entry.as_str());
            shown.push(item);
            proof {
                assert(text::texts(shown@) =~= before.push(item@));
            }
        }
        i = i + 1;
    }
    proof {
        assert(text::texts(list@).take(i as int) =~= text::texts(list@));
    }
    shown
}

/// The names of shells, in lower case.
pub open spec fn is_shell_name(name: Seq<char>) -> bool {
    ||| name == "ash"@
    ||| name == "bash"@
    ||| name == "csh"@
    ||| name == "dash"@
    ||| name == "elvish"@
    ||| name == "fish"@
    ||| name == "ksh"@
    ||| name == "mksh"@
    ||| name == "nu"@
    ||| name == "oksh"@
    ||| name == "pdksh"@
    ||| name == "posh"@
    ||| name == "powershell"@
    ||| name == "powershell.exe"@
    ||| name == "pwsh"@
    ||| name == "sh"@
    ||| name == "tcsh"@
    ||| name == "xonsh"@
    ||| name == "zsh"@
}

/// Whether the first word of a command is a shell, in whatever case, with or
/// without the directories before it.
pub open spec fn runs_shell(command: Seq<char>) -> bool {
    let list = cut::words_of(command);
    list.len() > 0 && is_shell_name(
        scan::lower_of(
            match paths::file_name_of(list[0]) {
                Some(name) => name,
                None => list[0],
            },
        ),
    )
}

/// Whether a command runs a shell.
pub fn is_shell_command(command: &str) -> (yes: bool)
    ensures
        yes == runs_shell(command@),
{
    let list = words(command);
    if list.len() == 0 {
        return false;
    }
    proof {
        assert(text::texts(list@)[0] == list@[0]@);
    }
    let name = match file_name(list[0].as_str()) {
        Some(found) => found,
        None => list[0].clone(),
    };
    let low = lower(name.as_str());
    let low = low.as_str();
    same(low, "ash") || same(low, "bash") || same(low, "csh") || same(low, "dash") || same(
        low,
        "elvish",
    ) || same(low, "fish") || same(low, "ksh") || same(low, "mksh") || same(low, "nu") || same(
        low,
        "oksh",
    ) || same(low, "pdksh") || same(low, "posh") || same(low, "powershell") || same(
        low,
        "powershell.exe",
    ) || same(low, "pwsh") || same(low, "sh") || same(low, "tcsh") || same(low, "xonsh") || same(
        low,
        "zsh",
    )
}

/// The permission mode that the command line of Codex asks for.
pub open spec fn codex_mode_of(args: Seq<char>) -> PermissionMode {
    if scan::contains_text(args, "dangerously-bypass-approvals-and-sandbox"@)
        || scan::contains_text(args, "--yolo"@) {
        PermissionMode::BypassPermissions
    } else if scan::contains_text(args, "--full-auto"@) {
        PermissionMode::Auto
    } else {
        PermissionMode::Default
    }
}

/// Detect Codex permission mode from process args (--full-auto, --yolo, etc.)
pub fn detect_codex_permission_mode(args: &str) -> (mode: PermissionMode)
    ensures
        mode == codex_mode_of(args@),
{
    if contains(args, "dangerously-bypass-approvals-and-sandbox") || contains(args, "--yolo") {
        return PermissionMode::BypassPermissions;
    }
    if contains(args, "--full-auto") {
        return PermissionMode::Auto;
    }
    PermissionMode::Default
}

/// A field with a backslash before each backslash and each delimiter.
pub open spec fn escaped_field(field: Seq<char>, delimiter: char) -> Seq<char>
    decreases field.len(),
{
    if field.len() == 0 {
        Seq::<char>::empty()
    } else {
        let before = escaped_field(field.drop_last(), delimiter);
        if field.last() == '\\' || field.last() == delimiter {
            before.push('\\').push(field.last())
        } else {
            before.push(field.last())
        }
    }
}

/// A line of escaped fields.
pub open spec fn escaped_line(fields: Seq<Seq<char>>, delimiter: char) -> Seq<char> {
    cut::joined(
        fields.map_values(|field: Seq<char>| escaped_field(field, delimiter)),
        seq![delimiter],
    )
}

proof fn split_takes_field(line: Seq<char>, field: Seq<char>, delimiter: char)
    requires
        delimiter != '\\',
        !split_state(line, delimiter).escaped,
    ensures
        split_state(line + escaped_field(field, delimiter), delimiter) == (SplitState {
            done: split_state(line, delimiter).done,
            current: split_state(line, delimiter).current + field,
            escaped: false,
        }),
    decreases field.len(),
{
    let start = split_state(line, delimiter);
    if field.len() == 0 {
        assert(line + escaped_field(field, delimiter) =~= line);
        assert(start.current + field =~= start.current);
    } else {
        let shorter = field.drop_last();
        let ch = field.last();
        split_takes_field(line, shorter, delimiter);
        let before = line + escaped_field(shorter, delimiter);
        assert(start.current + field =~= (start.current + shorter).push(ch));
        if ch == '\\' || ch == delimiter {
            let middle = before.push('\\');
            assert(middle.drop_last() =~= before);
            assert(split_state(middle, delimiter) == split_step(
                split_state(before, delimiter),
                '\\',
                delimiter,
            ));
            assert(line + escaped_field(field, delimiter) =~= middle.push(ch));
            assert(middle.push(ch).drop_last() =~= middle);
            assert(split_state(middle.push(ch), delimiter) == split_step(
                split_state(middle, delimiter),
                ch,
                delimiter,
            ));
        } else {
            assert(line + escaped_field(field, delimiter) =~= before.push(ch));
            assert(before.push(ch).drop_last() =~= before);
        }
    }
}

proof fn split_takes_line(fields: Seq<Seq<char>>, delimiter: char)
    requires
        delimiter != '\\',
        fields.len() > 0,
    ensures
        split_state(escaped_line(fields, delimiter), delimiter) == (SplitState {
            done: fields.drop_last(),
            current: fields.last(),
            escaped: false,
        }),
    decreases fields.len(),
{
    let list = fields.map_values(|field: Seq<char>| escaped_field(field, delimiter));
    let empty = Seq::<char>::empty();
    if fields.len() == 1 {
        split_takes_field(empty, fields[0], delimiter);
        assert(empty + list[0] =~= list[0]);
        assert(empty + fields[0] =~= fields[0]);
        assert(fields.drop_last() =~= Seq::<Seq<char>>::empty());
    } else {
        let shorter = fields.drop_last();
        split_takes_line(shorter, delimiter);
        assert(list.drop_last() =~= shorter.map_values(
            |field: Seq<char>| escaped_field(field, delimiter),
        ));
        let before = escaped_line(shorter, delimiter);
        let middle = before.push(delimiter);
        assert(middle.drop_last() =~= before);
        split_takes_field(middle, fields.last(), delimiter);
        assert(escaped_line(fields, delimiter) =~= middle + escaped_field(
            fields.last(),
            delimiter,
        ));
        assert(empty + fields.last() =~= fields.last());
        assert(shorter.drop_last().push(shorter.last()) =~= shorter);
    }
}

/// Fields that were escaped and joined are split into the same fields again,
/// whatever pipes and backslashes they hold.
pub proof fn escaped_fields_survive(fields: Seq<Seq<char>>, delimiter: char)
    requires
        delimiter != '\\',
        fields.len() > 0,
    ensures
        fields_of(escaped_line(fields, delimiter), delimiter) == fields,
{
    split_takes_line(fields, delimiter);
    assert(fields.drop_last().push(fields.last()) =~= fields);
}

/// The keys that are cleared when the agent of a pane is gone.
pub open spec fn agent_keys() -> Seq<Seq<char>> {
    seq![
        PANE_AGENT@,
        PANE_PROMPT@,
        PANE_PROMPT_SOURCE@,
        PANE_BG_CMD@,
        PANE_SUBAGENTS@,
        PANE_CWD@,
        PANE_PERMISSION_MODE@,
        PANE_WORKTREE_NAME@,
        PANE_WORKTREE_BRANCH@,
        PANE_SESSION_ID@,
        PANE_PENDING_SESSION_END@,
        PANE_PENDING_WORKTREE_REMOVE@,
        PANE_STARTED_AT@,
        PANE_WAIT_REASON@,
        PANE_ATTENTION@,
        PANE_STATUS@,
    ]
}

/// The changes that clear keys of a pane and remove its activity log.
pub open spec fn clear_writes(pane_id: Seq<char>, keys: Seq<Seq<char>>) -> Seq<
    options::WriteModel,
> {
    keys.map_values(|key: Seq<char>| (options::WriteModel::Clear { pane: pane_id, key })).push(
        options::WriteModel::RemoveLog { pane: pane_id },
    )
}

/// Wipe all agent-tracked tmux pane options and the activity log file for
/// `pane_id`. Triggered for a Codex or OpenCode pane that has dropped back to
/// the user's shell, since neither CLI fires a reliable process-exit hook.
/// Panes of other agents are never routed here, because those have a SessionEnd
/// hook of their own.
pub fn clear_agent_pane_state(options: &mut PaneOptions, pane_id: &str)
    ensures
        final(options)@ == old(options)@ + clear_writes(pane_id@, agent_keys()),
{
    let ghost before = options@;
    unset_pane_option(options, pane_id, PANE_AGENT);
    unset_pane_option(options, pane_id, PANE_PROMPT);
    unset_pane_option(options, pane_id, PANE_PROMPT_SOURCE);
    unset_pane_option(options, pane_id, PANE_BG_CMD);
    unset_pane_option(options, pane_id, PANE_SUBAGENTS);
    unset_pane_option(options, pane_id, PANE_CWD);
    unset_pane_option(options, pane_id, PANE_PERMISSION_MODE);
    unset_pane_option(options, pane_id, PANE_WORKTREE_NAME);
    unset_pane_option(options, pane_id, PANE_WORKTREE_BRANCH);
    unset_pane_option(options, pane_id, PANE_SESSION_ID);
    unset_pane_option(options, pane_id, PANE_PENDING_SESSION_END);
    unset_pane_option(options, pane_id, PANE_PENDING_WORKTREE_REMOVE);
    unset_pane_option(options, pane_id, PANE_STARTED_AT);
    unset_pane_option(options, pane_id, PANE_WAIT_REASON);
    unset_pane_option(options, pane_id, PANE_ATTENTION);
    unset_pane_option(options, pane_id, PANE_STATUS);
    remove_log(options, pane_id);
    proof {
        assert(options@ =~= before + clear_writes(pane_id@, agent_keys()));
    }
}

/// What the fields of a pane come to.
pub enum PaneOutcome {
    /// They are too few, or the pane is a sidebar or has no agent.
    Rejected,
    /// The agent is gone and left its options behind.
    Stale,
    /// A pane.
    Pane(types::PaneModel),
}

/// An empty text as nothing.
pub open spec fn non_empty(field: Seq<char>) -> Option<Seq<char>> {
    if field.len() == 0 {
        None
    } else {
        Some(field)
    }
}

/// The process of a pane.
pub open spec fn pid_of(field: Seq<char>) -> Option<u32> {
    match number::unsigned(field, u32::MAX as int) {
        Some(pid) => Some(pid as u32),
        None => None,
    }
}

/// The time in a field.
pub open spec fn time_of(field: Seq<char>) -> Option<u64> {
    match number::unsigned(field, u64::MAX as int) {
        Some(time) => Some(time as u64),
        None => None,
    }
}

/// Whether the process tree of a pane is known to hold its agent.
pub open spec fn agent_alive(
    pid: Option<u32>,
    snapshot: Option<ProcessSnapshot>,
    agent: AgentType,
) -> bool {
    match (pid, snapshot) {
        (Some(root), Some(processes)) => process::runs_agent(processes, seq![root], agent),
        _ => false,
    }
}

/// The pane that its fields describe.
pub open spec fn pane_of(parts: Seq<Seq<char>>, agent: AgentType) -> types::PaneModel {
    types::PaneModel {
        pane_id: parts[FIELD_PANE_ID as int],
        pane_active: parts[FIELD_PANE_ACTIVE as int] == "1"@,
        status: types::status_of(parts[FIELD_STATUS as int]),
        attention: parts[FIELD_ATTENTION as int].len() > 0,
        agent,
        path: if parts[FIELD_CWD as int].len() > 0 {
            parts[FIELD_CWD as int]
        } else {
            parts[FIELD_CURRENT_PATH as int]
        },
        current_command: parts[FIELD_CURRENT_COMMAND as int],
        prompt: shown_prompt(parts[FIELD_PROMPT as int]),
        prompt_is_response: parts[FIELD_PROMPT_SOURCE as int] == "response"@,
        started_at: time_of(parts[FIELD_STARTED_AT as int]),
        wait_reason: parts[FIELD_WAIT_REASON as int],
        permission_mode: if agent == AgentType::Claude {
            types::permission_of(parts[FIELD_PERMISSION_MODE as int])
        } else {
            PermissionMode::Default
        },
        subagents: shown_subagents(
            cut::pieces(parts[FIELD_SUBAGENTS as int], Separator::Char(',')),
        ),
        pane_pid: pid_of(parts[FIELD_PANE_PID as int]),
        worktree_name: parts[FIELD_WORKTREE_NAME as int],
        worktree_branch: parts[FIELD_WORKTREE_BRANCH as int],
        session_id: non_empty(parts[FIELD_SESSION_ID as int]),
        session_name: Seq::<char>::empty(),
        sidebar_spawned: parts[FIELD_SIDEBAR_SPAWNED as int] == "1"@,
        bg_shell_cmd: non_empty(parts[FIELD_BG_CMD as int]),
    }
}

/// What the fields of a pane come to.
pub open spec fn pane_outcome(
    parts: Seq<Seq<char>>,
    snapshot: Option<ProcessSnapshot>,
) -> PaneOutcome {
    if parts.len() < PANE_MIN_FIELDS || parts[FIELD_ROLE as int] == "sidebar"@ {
        PaneOutcome::Rejected
    } else {
        match types::agent_of(parts[FIELD_AGENT as int]) {
            None => PaneOutcome::Rejected,
            Some(agent) => if (agent == AgentType::Codex || agent == AgentType::OpenCode)
                && runs_shell(parts[FIELD_CURRENT_COMMAND as int]) && !agent_alive(
                pid_of(parts[FIELD_PANE_PID as int]),
                snapshot,
                agent,
            ) {
                PaneOutcome::Stale
            } else {
                PaneOutcome::Pane(pane_of(parts, agent))
            },
        }
    }
}

/// The changes that an outcome brings.
pub open spec fn outcome_writes(parts: Seq<Seq<char>>, outcome: PaneOutcome) -> Seq<
    options::WriteModel,
> {
    match outcome {
        PaneOutcome::Stale => clear_writes(parts[FIELD_PANE_ID as int], agent_keys()),
        _ => Seq::<options::WriteModel>::empty(),
    }
}

pub(crate) fn parse_pid(field: &str) -> (pid: Option<u32>)
    ensures
        pid == pid_of(field@),
{
    match parse_unsigned(field, u32::MAX as u64) {
        Some(value) => Some(value as u32),
        None => None,
    }
}

fn filled(field: &String) -> (value: Option<String>)
    ensures
        text::opt(value) == non_empty(field@),
{
    if field.as_str().is_empty() {
        None
    } else {
        Some(field.clone())
    }
}

/// Reads the fields of a pane. A pane whose agent is gone is wiped.
///
/// Codex / OpenCode panes can leave stale tmux metadata behind after the agent
/// exits and the pane falls back to the user's shell. Neither agent exposes a
/// reliable process-exit hook, so the polling side must own teardown. An agent
/// whose SessionEnd hook drives cleanup is left alone.
pub fn parse_pane_fields_with_processes(
    parts: &[String],
    process_snapshot: Option<&ProcessSnapshot>,
    options: &mut PaneOptions,
) -> (pane: Option<PaneInfo>)
    ensures
        ({
            let outcome = pane_outcome(
                text::texts(parts@),
                match process_snapshot {
                    Some(snapshot) => Some(*snapshot),
                    None => None,
                },
            );
            &&& match pane {
                Some(found) => outcome == PaneOutcome::Pane(found@),
                None => !(outcome is Pane),
            }
            &&& final(options)@ == old(options)@ + outcome_writes(text::texts(parts@), outcome)
        }),
{
    let ghost fields = text::texts(parts@);
    let ghost start = options@;
    proof {
        assert(start + Seq::<options::WriteModel>::empty() =~= start);
        assert forall|i: int| 0 <= i < parts@.len() implies fields[i] == #[trigger] parts@[i]@ by {}
    }
    if parts.len() < PANE_MIN_FIELDS {
        return None;
    }
    if same(parts[FIELD_ROLE].as_str(), "sidebar") {
        return None;
    }
    let agent = match AgentType::from_label(parts[FIELD_AGENT].as_str()) {
        Some(found) => found,
        None => {
            return None;
        },
    };
    let pane_pid = parse_pid(parts[FIELD_PANE_PID].as_str());
    if (agent == AgentType::Codex || agent == AgentType::OpenCode) && is_shell_command(
        parts[FIELD_CURRENT_COMMAND].as_str(),
    ) {
        let agent_still_alive = match (pane_pid, process_snapshot) {
            (Some(pid), Some(snapshot)) => {
                let roots = [pid];
                proof {
                    assert(roots@ =~= seq![pid]);
                }
                snapshot.tree_has_agent(&roots, &agent)
            },
            _ => false,
        };
        if !agent_still_alive {
            clear_agent_pane_state(options, parts[FIELD_PANE_ID].as_str());
            return None;
        }
    }
    // Prefer @pane_cwd (set by hook from agent's cwd) over pane_current_path
    let path = if !parts[FIELD_CWD].as_str().is_empty() {
        parts[FIELD_CWD].clone()
    } else {
        parts[FIELD_CURRENT_PATH].clone()
    };
    // Codex and OpenCode have no permission_mode in their hooks: keep the default.
    let permission_mode = if agent == AgentType::Claude {
        PermissionMode::from_label(parts[FIELD_PERMISSION_MODE].as_str())
    } else {
        PermissionMode::Default
    };
    let started_at = parse_unsigned(parts[FIELD_STARTED_AT].as_str(), u64::MAX);
    Some(
        PaneInfo {
            pane_id: parts[FIELD_PANE_ID].clone(),
            pane_active: same(parts[FIELD_PANE_ACTIVE].as_str(), "1"),
            status: PaneStatus::from_label(parts[FIELD_STATUS].as_str()),
            attention: !parts[FIELD_ATTENTION].as_str().is_empty(),
            agent,
            path,
            current_command: parts[FIELD_CURRENT_COMMAND].clone(),
            prompt: sanitize_prompt(parts[FIELD_PROMPT].as_str()),
            prompt_is_response: same(parts[FIELD_PROMPT_SOURCE].as_str(), "response"),
            started_at,
            wait_reason: parts[FIELD_WAIT_REASON].clone(),
            permission_mode,
            subagents: parse_subagents(parts[FIELD_SUBAGENTS].as_str()),
            pane_pid,
            worktree: WorktreeMetadata {
                name: parts[FIELD_WORKTREE_NAME].clone(),
                branch: parts[FIELD_WORKTREE_BRANCH].clone(),
            },
            session_id: filled(&parts[FIELD_SESSION_ID]),
            session_name: String::new(),
            sidebar_spawned: same(parts[FIELD_SIDEBAR_SPAWNED].as_str(), "1"),
            bg_shell_cmd: filled(&parts[FIELD_BG_CMD]),
        },
    )
}

/// Parse a single pane line from `tmux list-panes -F`. Gives nothing if the
/// line has too few fields, is a sidebar, or has no agent.
pub fn parse_pane_line(line: &str, options: &mut PaneOptions) -> (pane: Option<PaneInfo>)
    ensures
        ({
            let parts = fields_of(line@, '|');
            let outcome = pane_outcome(parts, None);
            &&& match pane {
                Some(found) => outcome == PaneOutcome::Pane(found@),
                None => !(outcome is Pane),
            }
            &&& final(options)@ == old(options)@ + outcome_writes(parts, outcome)
        }),
{
    let parts = split_tmux_fields(line, '|');
    parse_pane_fields_with_processes(parts.as_slice(), None, options)
}

// Laws.

/// The line that tmux prints for a pane, by the value of each thing that it is asked for.
pub open spec fn printed_line(value: spec_fn(Seq<char>) -> Seq<char>) -> Seq<char> {
    escaped_line(format_fields().map_values(value), '|')
}

/// The fields of the pane itself in such a line.
pub open spec fn printed_fields(value: spec_fn(Seq<char>) -> Seq<char>) -> Seq<Seq<char>> {
    fields_of(printed_line(value), '|').skip(PANE_LINE_OFFSET as int)
}

proof fn printed_values(value: spec_fn(Seq<char>) -> Seq<char>)
    ensures
        fields_of(printed_line(value), '|') == format_fields().map_values(value),
        fields_of(printed_line(value), '|').len() == 28,
{
    escaped_fields_survive(format_fields().map_values(value), '|');
}

/// A pane that was read from the line that tmux printed has, in each of its parts, the
/// value of the option or variable of that name, whatever pipes and backslashes the
/// values hold.
pub proof fn panes_have_the_values_of_their_options(
    value: spec_fn(Seq<char>) -> Seq<char>,
    snapshot: Option<ProcessSnapshot>,
    started: u64,
    pid: u32,
)
    ensures
        pane_outcome(printed_fields(value), snapshot) matches PaneOutcome::Pane(pane) ==> {
            &&& pane.pane_id == value("pane_id"@)
            &&& pane.pane_active <==> value("pane_active"@) == "1"@
            &&& pane.status == types::status_of(value("@pane_status"@))
            &&& pane.attention <==> value("@pane_attention"@).len() > 0
            &&& types::agent_of(value("@pane_agent"@)) == Some(pane.agent)
            &&& pane.path == if value("@pane_cwd"@).len() > 0 {
                value("@pane_cwd"@)
            } else {
                value("pane_current_path"@)
            }
            &&& pane.current_command == value("pane_current_command"@)
            &&& pane.prompt == shown_prompt(value("@pane_prompt"@))
            &&& pane.prompt_is_response <==> value("@pane_prompt_source"@) == "response"@
            &&& value("@pane_started_at"@) == number::decimal_of(started as nat)
                ==> pane.started_at == Some(started)
            &&& value("@pane_started_at"@).len() == 0 ==> pane.started_at is None
            &&& pane.wait_reason == value("@pane_wait_reason"@)
            &&& value("pane_pid"@) == number::decimal_of(pid as nat) ==> pane.pane_pid == Some(pid)
            &&& value("pane_pid"@).len() == 0 ==> pane.pane_pid is None
            &&& pane.subagents == shown_subagents(
                cut::pieces(value("@pane_subagents"@), Separator::Char(',')),
            )
            &&& pane.agent is Claude ==> pane.permission_mode == types::permission_of(
                value("@pane_permission_mode"@),
            )
            &&& pane.agent !is Claude ==> pane.permission_mode is Default
            &&& pane.worktree_name == value("@pane_worktree_name"@)
            &&& pane.worktree_branch == value("@pane_worktree_branch"@)
            &&& match pane.session_id {
                Some(id) => id.len() > 0 && id == value("@pane_session_id"@),
                None => value("@pane_session_id"@).len() == 0,
            }
            &&& pane.session_name.len() == 0
            &&& pane.sidebar_spawned <==> value("@agent-sidebar-spawned"@) == "1"@
            &&& match pane.bg_shell_cmd {
                Some(command) => command.len() > 0 && command == value("@pane_bg_cmd"@),
                None => value("@pane_bg_cmd"@).len() == 0,
            }
        },
{
    printed_values(value);
    number::decimal_round_trip(started as nat, u64::MAX as int);
    number::decimal_round_trip(pid as nat, u32::MAX as int);
}

/// A line is read as a pane where an agent is named and the pane is no sidebar; unless the
/// agent is one that cannot tell of its end, the pane runs a shell, and the agent is not
/// among its processes: such a pane is wiped.
pub proof fn panes_of_agents_are_read(
    value: spec_fn(Seq<char>) -> Seq<char>,
    snapshot: Option<ProcessSnapshot>,
)
    ensures
        ({
            let outcome = pane_outcome(printed_fields(value), snapshot);
            let agent = types::agent_of(value("@pane_agent"@));
            let gone = (agent == Some(AgentType::Codex) || agent == Some(AgentType::OpenCode))
                && runs_shell(value("pane_current_command"@)) && !agent_alive(
                pid_of(value("pane_pid"@)),
                snapshot,
                agent->0,
            );
            &&& outcome is Rejected <==> value("@pane_role"@) == "sidebar"@ || agent is None
            &&& outcome is Stale <==> value("@pane_role"@) != "sidebar"@ && gone
            &&& outcome_writes(printed_fields(value), outcome) == if outcome is Stale {
                clear_writes(value("pane_id"@), agent_keys())
            } else {
                Seq::<options::WriteModel>::empty()
            }
        }),
{
    printed_values(value);
}

/// Too few fields are no pane.
pub proof fn short_lines_are_no_panes(
    parts: Seq<Seq<char>>,
    snapshot: Option<ProcessSnapshot>,
)
    requires
        parts.len() < 22,
    ensures
        pane_outcome(parts, snapshot) is Rejected,
{
}

/// A key that was cleared for a pane has no value there; all others keep theirs.
pub proof fn cleared_keys_have_no_value(
    log: Seq<options::WriteModel>,
    pane: Seq<char>,
    keys: Seq<Seq<char>>,
    other_pane: Seq<char>,
    key: Seq<char>,
)
    ensures
        ({
            let writes = keys.map_values(
                |key: Seq<char>| (options::WriteModel::Clear { pane, key }),
            );
            options::option_value(log + writes, other_pane, key) == if other_pane == pane
                && keys.contains(key) {
                None
            } else {
                options::option_value(log, other_pane, key)
            }
        }),
    decreases keys.len(),
{
    let clear = |key: Seq<char>| (options::WriteModel::Clear { pane, key });
    if keys.len() == 0 {
        assert(log + keys.map_values(clear) =~= log);
    } else {
        let rest = keys.drop_last();
        cleared_keys_have_no_value(log, pane, rest, other_pane, key);
        let all = log + keys.map_values(clear);
        assert(all.drop_last() =~= log + rest.map_values(clear));
        assert(all.last() == clear(keys.last()));
        if rest.contains(key) {
            assert(keys[rest.index_of(key)] == key);
        }
        if keys.last() == key {
            assert(keys[keys.len() - 1] == key);
        }
        if keys.contains(key) && keys.last() != key {
            assert(rest[keys.index_of(key)] == key);
        }
    }
}

/// A pane that was wiped has none of the options of an agent, its log is removed, and the
/// options of other panes are as they were.
pub proof fn a_wiped_pane_has_no_options(
    log: Seq<options::WriteModel>,
    pane: Seq<char>,
    other_pane: Seq<char>,
    key: Seq<char>,
)
    ensures
        ({
            let after = log + clear_writes(pane, agent_keys());
            &&& options::option_value(after, pane, "@pane_agent"@) is None
            &&& options::option_value(after, pane, "@pane_prompt"@) is None
            &&& options::option_value(after, pane, "@pane_prompt_source"@) is None
            &&& options::option_value(after, pane, "@pane_bg_cmd"@) is None
            &&& options::option_value(after, pane, "@pane_subagents"@) is None
            &&& options::option_value(after, pane, "@pane_cwd"@) is None
            &&& options::option_value(after, pane, "@pane_permission_mode"@) is None
            &&& options::option_value(after, pane, "@pane_worktree_name"@) is None
            &&& options::option_value(after, pane, "@pane_worktree_branch"@) is None
            &&& options::option_value(after, pane, "@pane_session_id"@) is None
            &&& options::option_value(after, pane, "@pane_started_at"@) is None
            &&& options::option_value(after, pane, "@pane_wait_reason"@) is None
            &&& options::option_value(after, pane, "@pane_attention"@) is None
            &&& options::option_value(after, pane, "@pane_status"@) is None
            &&& after.last() == (options::WriteModel::RemoveLog { pane })
            &&& other_pane != pane ==> options::option_value(after, other_pane, key)
                == options::option_value(log, other_pane, key)
        }),
{
    let keys = agent_keys();
    let after = log + clear_writes(pane, keys);
    let cleared = log + keys.map_values(
        |key: Seq<char>| (options::WriteModel::Clear { pane, key }),
    );
    assert(after.drop_last() =~= cleared);
    assert(after.last() == (options::WriteModel::RemoveLog { pane }));
    assert forall|i: int| 0 <= i < keys.len() implies options::option_value(
        after,
        pane,
        #[trigger] keys[i],
    ) is None by {
        cleared_keys_have_no_value(log, pane, keys, pane, keys[i]);
        assert(keys.contains(keys[i]));
    }
    cleared_keys_have_no_value(log, pane, keys, other_pane, key);
    assert(keys[0] == "@pane_agent"@);
    assert(keys[1] == "@pane_prompt"@);
    assert(keys[2] == "@pane_prompt_source"@);
    assert(keys[3] == "@pane_bg_cmd"@);
    assert(keys[4] == "@pane_subagents"@);
    assert(keys[5] == "@pane_cwd"@);
    assert(keys[6] == "@pane_permission_mode"@);
    assert(keys[7] == "@pane_worktree_name"@);
    assert(keys[8] == "@pane_worktree_branch"@);
    assert(keys[9] == "@pane_session_id"@);
    assert(keys[12] == "@pane_started_at"@);
    assert(keys[13] == "@pane_wait_reason"@);
    assert(keys[14] == "@pane_attention"@);
    assert(keys[15] == "@pane_status"@);
}

/// A prompt is shown from its start, whole up to two hundred characters; one that the
/// system wrote is not shown.
pub proof fn prompts_are_shown_from_their_start(raw: Seq<char>)
    ensures
        ({
            let injected = scan::contains_text(raw, "<task-notification>"@)
                || scan::contains_text(raw, "<system-reminder>"@) || scan::contains_text(
                raw,
                "<task-status>"@,
            );
            &&& injected ==> shown_prompt(raw).len() == 0
            &&& !injected ==> shown_prompt(raw) == raw.take(shown_prompt(raw).len() as int)
            &&& !injected && raw.len() <= 200 ==> shown_prompt(raw) == raw
            &&& !injected && raw.len() > 200 ==> shown_prompt(raw).len() == 200
        }),
{
    assert(raw.take(raw.len() as int) =~= raw);
}

/// The entry of a subagent in its list: its kind, and its id where it has one.
pub open spec fn subagent_entry(kind: Seq<char>, id: Seq<char>) -> Seq<char> {
    if id.len() == 0 {
        kind
    } else {
        kind + ":"@ + id
    }
}

/// The label of a subagent: its kind, and the first four characters of its id.
pub open spec fn subagent_label(kind: Seq<char>, id: Seq<char>) -> Seq<char> {
    if id.len() == 0 {
        kind
    } else if id.len() <= 4 {
        kind + " #"@ + id
    } else {
        kind + " #"@ + id.take(4)
    }
}

/// Whether a kind and an id can stand in the list of subagents.
pub open spec fn is_subagent(kind: Seq<char>, id: Seq<char>) -> bool {
    &&& kind.len() > 0
    &&& !kind.contains(',') && !kind.contains(':') && !id.contains(',')
    &&& !scan::is_space(kind[0]) && !scan::is_space(kind.last())
    &&& id.len() > 0 ==> !scan::is_space(id.last())
}

proof fn colon_comes_first(entry: Seq<char>, from: int, at: int)
    requires
        0 <= from <= at <= entry.len(),
        forall|k: int| from <= k < at ==> entry[k] != ':',
        at < entry.len() ==> entry[at] == ':',
    ensures
        colon_from(entry, from) == if at < entry.len() {
            Some(at)
        } else {
            None
        },
    decreases at - from,
{
    if from < at {
        colon_comes_first(entry, from + 1, at);
    }
}

proof fn an_entry_is_shown(kind: Seq<char>, id: Seq<char>)
    requires
        is_subagent(kind, id),
    ensures
        scan::trim_of(subagent_entry(kind, id)) == subagent_entry(kind, id),
        shown_subagent(subagent_entry(kind, id)) == subagent_label(kind, id),
        !subagent_entry(kind, id).contains(','),
        subagent_entry(kind, id).len() > 0,
{
    reveal_strlit(":");
    let entry = subagent_entry(kind, id);
    let none = Seq::<char>::empty();
    assert(entry[0] == kind[0]);
    assert(id.len() > 0 ==> entry.last() == id.last());
    scan::trim_takes_the_space_around(none, entry, none);
    assert(none + entry + none =~= entry);
    assert forall|k: int| 0 <= k < kind.len() implies entry[k] != ':' && entry[k] != ',' by {
        assert(entry[k] == kind[k]);
        assert(kind.contains(kind[k]));
    }
    assert(!entry.contains(',')) by {
        if entry.contains(',') {
            let at = entry.index_of(',');
            if at > kind.len() {
                assert(id[at - kind.len() - 1] == ',');
            }
        }
    }
    colon_comes_first(entry, 0, kind.len() as int);
    if id.len() > 0 {
        assert(entry.take(kind.len() as int) =~= kind);
        assert(entry.skip(kind.len() as int + 1) =~= id);
        assert(id.take(id.len() as int) =~= id);
    }
}

proof fn entries_are_shown(list: Seq<(Seq<char>, Seq<char>)>)
    requires
        forall|i: int| 0 <= i < list.len() ==> is_subagent(#[trigger] list[i].0, list[i].1),
    ensures
        shown_subagents(
            list.map_values(|agent: (Seq<char>, Seq<char>)| subagent_entry(agent.0, agent.1)),
        ) == list.map_values(|agent: (Seq<char>, Seq<char>)| subagent_label(agent.0, agent.1)),
    decreases list.len(),
{
    let entries = list.map_values(|agent: (Seq<char>, Seq<char>)| subagent_entry(agent.0, agent.1));
    let labels = list.map_values(|agent: (Seq<char>, Seq<char>)| subagent_label(agent.0, agent.1));
    if list.len() > 0 {
        let rest = list.drop_last();
        assert forall|i: int| 0 <= i < rest.len() implies is_subagent(#[trigger] rest[i].0, rest[i].1) by {
            assert(rest[i] == list[i]);
            assert(is_subagent(list[i].0, list[i].1));
        }
        entries_are_shown(rest);
        assert(is_subagent(list[list.len() - 1].0, list[list.len() - 1].1));
        an_entry_is_shown(list.last().0, list.last().1);
        assert(entries.drop_last() =~= rest.map_values(
            |agent: (Seq<char>, Seq<char>)| subagent_entry(agent.0, agent.1),
        ));
        assert(labels =~= rest.map_values(
            |agent: (Seq<char>, Seq<char>)| subagent_label(agent.0, agent.1),
        ).push(subagent_label(list.last().0, list.last().1)));
    } else {
        assert(shown_subagents(entries) =~= labels);
    }
}

/// The subagents that a list names are shown in order, each with the start of its own id.
pub proof fn subagents_are_shown_in_order(list: Seq<(Seq<char>, Seq<char>)>)
    requires
        list.len() > 0,
        forall|i: int| 0 <= i < list.len() ==> is_subagent(#[trigger] list[i].0, list[i].1),
    ensures
        shown_subagents(
            cut::pieces(
                cut::joined(
                    list.map_values(
                        |agent: (Seq<char>, Seq<char>)| subagent_entry(agent.0, agent.1),
                    ),
                    seq![','],
                ),
                Separator::Char(','),
            ),
        ) == list.map_values(|agent: (Seq<char>, Seq<char>)| subagent_label(agent.0, agent.1)),
{
    let entries = list.map_values(|agent: (Seq<char>, Seq<char>)| subagent_entry(agent.0, agent.1));
    assert forall|i: int| 0 <= i < entries.len() implies !(#[trigger] entries[i]).contains(',') by {
        assert(is_subagent(list[i].0, list[i].1));
        an_entry_is_shown(list[i].0, list[i].1);
    }
    cut::joined_pieces_come_apart(entries, ',');
    entries_are_shown(list);
}

/// Codex asks for nothing where it is told to bypass approvals, and works by itself where
/// it is told to; the first counts where both are said.
pub proof fn codex_modes_follow_its_flags(before: Seq<char>, after: Seq<char>)
    ensures
        codex_mode_of(before + "--yolo"@ + after) is BypassPermissions,
        codex_mode_of(before + "dangerously-bypass-approvals-and-sandbox"@ + after) is
            BypassPermissions,
        codex_mode_of(before + "--full-auto"@ + after) !is Default,
        !scan::contains_text(before, "--yolo"@) && !scan::contains_text(
            before,
            "dangerously-bypass-approvals-and-sandbox"@,
        ) ==> (codex_mode_of(before) is Auto <==> scan::contains_text(before, "--full-auto"@)),
        !scan::contains_text(before, "--yolo"@) && !scan::contains_text(
            before,
            "dangerously-bypass-approvals-and-sandbox"@,
        ) ==> codex_mode_of(before) !is BypassPermissions,
{
    stands_between(before, "--yolo"@, after);
    stands_between(before, "dangerously-bypass-approvals-and-sandbox"@, after);
    stands_between(before, "--full-auto"@, after);
}

proof fn stands_between(before: Seq<char>, middle: Seq<char>, after: Seq<char>)
    ensures
        scan::contains_text(before + middle + after, middle),
{
    let at = before.len() as int;
    assert((before + middle + after).subrange(at, at + middle.len()) =~= middle);
    assert(scan::stands_at(before + middle + after, middle, at));
}

/// Each field of a line that tmux printed has the value of the option or variable that was
/// asked for in its place.
pub proof fn printed_parts(value: spec_fn(Seq<char>) -> Seq<char>)
    ensures
        ({
            let parts = fields_of(printed_line(value), '|');
            &&& parts.len() == 28
            &&& parts[0] == value("session_name"@)
            &&& parts[1] == value("window_id"@)
            &&& parts[3] == value("window_name"@)
            &&& parts[4] == value("window_active"@)
            &&& parts[5] == value("automatic-rename"@)
            &&& parts[6] == value("pane_active"@)
            &&& parts[9] == value("@pane_agent"@)
            &&& parts[19] == value("pane_pid"@)
        }),
{
    printed_values(value);
}

proof fn a_program_leads_its_command(program: Seq<char>, argument: Seq<char>)
    requires
        program.len() > 0 && argument.len() > 0,
        forall|i: int| 0 <= i < program.len() ==> !scan::is_space(#[trigger] program[i]),
        forall|i: int| 0 <= i < argument.len() ==> !scan::is_space(#[trigger] argument[i]),
    ensures
        cut::words_of(program) == seq![program],
        cut::words_of(program.push(' ') + argument) == seq![program, argument],
{
    let two = seq![program, argument];
    reveal_with_fuel(cut::joined, 3);
    assert(two.drop_last() =~= seq![program]);
    assert(cut::joined(two, seq![' ']) =~= program.push(' ') + argument);
    assert forall|i: int, k: int| 0 <= i < two.len() && 0 <= k < two[i].len() implies !scan::is_space(
        #[trigger] two[i][k],
    ) by {
        if i == 0 {
            assert(!scan::is_space(program[k]));
        } else {
            assert(!scan::is_space(argument[k]));
        }
    }
    cut::written_words_are_read(two);
    let one = seq![program];
    assert(one.drop_last() =~= Seq::<Seq<char>>::empty());
    assert(cut::joined(one, seq![' ']) =~= program);
    assert forall|i: int, k: int| 0 <= i < one.len() && 0 <= k < one[i].len() implies !scan::is_space(
        #[trigger] one[i][k],
    ) by {
        assert(!scan::is_space(program[k]));
    }
    cut::written_words_are_read(one);
}

/// A shell is known by its name, whatever directory it stands in and whatever it is given.
pub proof fn shells_are_known_by_name(directory: Seq<char>, name: Seq<char>, argument: Seq<char>)
    requires
        name == "bash"@ || name == "zsh"@ || name == "fish"@ || name == "sh"@,
        argument.len() > 0,
        forall|i: int| 0 <= i < argument.len() ==> !scan::is_space(#[trigger] argument[i]),
        forall|i: int| 0 <= i < directory.len() ==> !scan::is_space(#[trigger] directory[i]),
        directory.len() > 0 && directory.last() != '/',
    ensures
        runs_shell(name),
        runs_shell(name.push(' ') + argument),
        runs_shell(directory.push('/') + name),
        runs_shell((directory.push('/') + name).push(' ') + argument),
{
    reveal_strlit("bash");
    reveal_strlit("zsh");
    reveal_strlit("fish");
    reveal_strlit("sh");
    reveal_strlit(".");
    reveal_strlit("..");
    let whole = directory.push('/') + name;
    assert forall|i: int| 0 <= i < name.len() implies !scan::is_space(#[trigger] name[i])
        && name[i] != '/' by {}
    assert(!name.contains('/'));
    assert forall|i: int| 0 <= i < whole.len() implies !scan::is_space(#[trigger] whole[i]) by {
        if i < directory.len() {
            assert(whole[i] == directory[i]);
        } else if i > directory.len() {
            assert(whole[i] == name[i - directory.len() - 1]);
        }
    }
    assert(name.len() >= 2 && name[0] != '.');
    assert(name != "."@ && name != ".."@) by {
        assert("."@[0] == '.' && ".."@[0] == '.');
    }
    paths::a_joined_name_is_the_name(directory, name, name);
    paths::a_joined_name_is_the_name(Seq::<char>::empty(), name, name);
    assert(paths::below(Seq::<char>::empty(), name) =~= name);
    a_program_leads_its_command(name, argument);
    a_program_leads_its_command(whole, argument);
    assert(scan::lower_of(name) =~= name);
}

/// Neither Codex nor node is a shell, whatever it is given, and neither is no command.
pub proof fn other_programs_are_no_shells(argument: Seq<char>)
    requires
        argument.len() > 0,
        forall|i: int| 0 <= i < argument.len() ==> !scan::is_space(#[trigger] argument[i]),
    ensures
        !runs_shell("codex"@) && !runs_shell("codex"@.push(' ') + argument),
        !runs_shell("node"@) && !runs_shell("node"@.push(' ') + argument),
        !runs_shell(Seq::<char>::empty()),
{
    reveal_strlit("codex");
    reveal_strlit("node");
    no_shell("codex"@, argument);
    no_shell("node"@, argument);
    assert(cut::pieces(Seq::<char>::empty(), Separator::Space) =~= seq![Seq::<char>::empty()]);
    reveal(Seq::filter);
    reveal_with_fuel(Seq::filter, 3);
    let parts = seq![Seq::<char>::empty()];
    assert(parts.drop_last() =~= Seq::<Seq<char>>::empty());
    assert(cut::words_of(Seq::<char>::empty()).len() == 0);
}

proof fn no_shell(name: Seq<char>, argument: Seq<char>)
    requires
        name == "codex"@ || name == "node"@,
        argument.len() > 0,
        forall|i: int| 0 <= i < argument.len() ==> !scan::is_space(#[trigger] argument[i]),
    ensures
        !runs_shell(name),
        !runs_shell(name.push(' ') + argument),
{
    reveal_strlit("codex");
    reveal_strlit("node");
    reveal_strlit(".");
    reveal_strlit("..");
    assert forall|i: int| 0 <= i < name.len() implies !scan::is_space(#[trigger] name[i])
        && name[i] != '/' by {}
    assert(!name.contains('/'));
    assert(name != "."@ && name != ".."@) by {
        assert("."@[0] == '.' && ".."@[0] == '.');
    }
    paths::a_joined_name_is_the_name(Seq::<char>::empty(), name, name);
    assert(paths::below(Seq::<char>::empty(), name) =~= name);
    a_program_leads_its_command(name, argument);
    assert(scan::lower_of(name) =~= name);
    shell_names_start_otherwise(name);
}

proof fn shell_names_start_otherwise(name: Seq<char>)
    requires
        name == "codex"@ || name == "node"@,
    ensures
        !is_shell_name(name),
{
    reveal_strlit("codex");
    reveal_strlit("node");
    reveal_strlit("ash");
    reveal_strlit("bash");
    reveal_strlit("csh");
    reveal_strlit("dash");
    reveal_strlit("elvish");
    reveal_strlit("fish");
    reveal_strlit("ksh");
    reveal_strlit("mksh");
    reveal_strlit("nu");
    reveal_strlit("oksh");
    reveal_strlit("pdksh");
    reveal_strlit("posh");
    reveal_strlit("powershell");
    reveal_strlit("powershell.exe");
    reveal_strlit("pwsh");
    reveal_strlit("sh");
    reveal_strlit("tcsh");
    reveal_strlit("xonsh");
    reveal_strlit("zsh");
    assert("ash"@[0] == 'a' && "bash"@[0] == 'b' && "csh"@[0] == 'c' && "dash"@[0] == 'd' && "elvish"@[0] == 'e' && "fish"@[0] == 'f' && "ksh"@[0] == 'k' && "mksh"@[0] == 'm' && "nu"@[0] == 'n' && "oksh"@[0] == 'o' && "pdksh"@[0] == 'p' && "posh"@[0] == 'p' && "powershell"@[0] == 'p' && "powershell.exe"@[0] == 'p' && "pwsh"@[0] == 'p' && "sh"@[0] == 's' && "tcsh"@[0] == 't' && "xonsh"@[0] == 'x' && "zsh"@[0] == 'z');
    assert("ash"@.len() == 3 && "bash"@.len() == 4 && "csh"@.len() == 3 && "dash"@.len() == 4 && "elvish"@.len() == 6 && "fish"@.len() == 4 && "ksh"@.len() == 3 && "mksh"@.len() == 4 && "nu"@.len() == 2 && "oksh"@.len() == 4 && "pdksh"@.len() == 5 && "posh"@.len() == 4 && "powershell"@.len() == 10 && "powershell.exe"@.len() == 14 && "pwsh"@.len() == 4 && "sh"@.len() == 2 && "tcsh"@.len() == 4 && "xonsh"@.len() == 5 && "zsh"@.len() == 3);
    assert("codex"@.len() == 5 && "node"@.len() == 4 && "codex"@[1] == 'o' && "node"@[1] == 'o');
}

} // verus!
