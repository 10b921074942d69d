//! The options under which tmux keeps what is known of panes.

use vstd::prelude::*;

use crate::cut;
use crate::cut::lines;
use crate::scan;
use crate::scan::trim;
use crate::text;
use crate::text::{chars_of, owned, same, text_of};
use crate::textmap::TextMap;

verus! {

// Single source of truth for every `@pane_*` tmux option the sidebar writes or
// reads, so that a typo cannot silently corrupt pane state.

/// Agent name the hooks identified for the pane, a label of an agent. Drives the sidebar's per-row icon.
pub const PANE_AGENT: &'static str = "@pane_agent";
/// Optional human-readable pane label. Currently queried to preserve
/// the `list-panes` field layout, but not rendered.
pub const PANE_NAME: &'static str = "@pane_name";
/// Visual attention flag (`notification` / `clear`) that lights up
/// the row when a hook wants the user's eye.
pub const PANE_ATTENTION: &'static str = "@pane_attention";
/// Hook-reported working directory, preferred over tmux's
/// `pane_current_path` for repo grouping.
pub const PANE_CWD: &'static str = "@pane_cwd";
/// Latest backgrounded Bash command (sanitized). Presence is the
/// authoritative "live shell" signal: Stop routes to `background`
/// while this is set, and the sidebar surfaces the command text.
pub const PANE_BG_CMD: &'static str = "@pane_bg_cmd";
/// Value written to [`PANE_BG_CMD`] when the hook payload omits the real
/// command. The ps liveness sweep matches on this to skip its own entries
/// (placeholder has no process to verify against).
pub const BG_CMD_PLACEHOLDER: &'static str = "(background shell)";
/// Epoch-ms identifier regenerated on every SessionStart so
/// notification fingerprints stay scoped to the current run and
/// don't dedupe across restarts.
pub const PANE_NOTIFICATION_RUN_ID: &'static str = "@pane_notification_run_id";
/// Last fingerprint we fired a `PermissionRequired` desktop
/// notification for — used to suppress duplicates.
pub const PANE_OS_NOTIFY_PERMISSION_REQUIRED: &'static str = "@pane_os_notify_permission_required";
/// Same dedup stamp for `TaskCompleted` notifications.
pub const PANE_OS_NOTIFY_TASK_COMPLETED: &'static str = "@pane_os_notify_task_completed";
/// Same dedup stamp for `TaskFailed` notifications.
pub const PANE_OS_NOTIFY_TASK_FAILED: &'static str = "@pane_os_notify_task_failed";
/// Marker of a session end that waits; it is cleared, but never set.
pub const PANE_PENDING_SESSION_END: &'static str = "@pane_pending_session_end";
/// Pending WorktreeRemove marker drained by `on_subagent_stop`
/// when the last subagent exits.
pub const PANE_PENDING_WORKTREE_REMOVE: &'static str = "@pane_pending_worktree_remove";
/// Permission mode in use by the agent (e.g. `plan`,
/// `acceptEdits`, `bypassPermissions`).
pub const PANE_PERMISSION_MODE: &'static str = "@pane_permission_mode";
/// Last user prompt the agent received. Shown in the bottom tab
/// as activity context.
pub const PANE_PROMPT: &'static str = "@pane_prompt";
/// Where the prompt came from (e.g. `UserPromptSubmit` vs
/// resumed session) — drives rendering nuance.
pub const PANE_PROMPT_SOURCE: &'static str = "@pane_prompt_source";
/// Pane role marker set by the setup flow (`sidebar` for the
/// sidebar pane itself) so the TUI can exclude itself from the
/// agent list.
pub const PANE_ROLE: &'static str = "@pane_role";
/// Agent-provided session id, surfaced in the status line for
/// quick reference.
pub const PANE_SESSION_ID: &'static str = "@pane_session_id";
/// Epoch-seconds timestamp of the current run's start — drives
/// the "running for Xs" label.
pub const PANE_STARTED_AT: &'static str = "@pane_started_at";
/// High-level status (`idle` / `running` / `waiting` / `clear`).
pub const PANE_STATUS: &'static str = "@pane_status";
/// Comma-separated `Type:id` list of currently-active subagents.
/// Non-empty ⇒ the pane is hosting subagent events and writes
/// from their hooks must be filtered out of parent metadata.
pub const PANE_SUBAGENTS: &'static str = "@pane_subagents";
/// Reason the pane is in `waiting` status (`permission`,
/// `session_resumed`, etc.).
pub const PANE_WAIT_REASON: &'static str = "@pane_wait_reason";
/// Branch name when the pane is attached to a git worktree.
pub const PANE_WORKTREE_BRANCH: &'static str = "@pane_worktree_branch";
/// Worktree slug (directory basename) for the attached worktree.
pub const PANE_WORKTREE_NAME: &'static str = "@pane_worktree_name";

// ─── Sidebar global option keys ─────────────────────────────────────

pub const SIDEBAR_PID: &'static str = "@sidebar_pid";
pub const SIDEBAR_WIDTH: &'static str = "@sidebar_width";
pub const SIDEBAR_POSITION: &'static str = "@sidebar_position";
pub const SIDEBAR_FILTER: &'static str = "@sidebar_filter";
pub const SIDEBAR_CURSOR: &'static str = "@sidebar_cursor";
pub const SIDEBAR_REPO_FILTER: &'static str = "@sidebar_repo_filter";
pub const SIDEBAR_BOTTOM_HEIGHT: &'static str = "@sidebar_bottom_height";
pub const SIDEBAR_PET: &'static str = "@sidebar_pet";
/// Enables optional per-pane listening-port inspection and display. Disabled
/// by default because it requires process and socket inspection.
pub const SIDEBAR_SHOW_PORTS: &'static str = "@sidebar_show_ports";
pub const SIDEBAR_NOTIFICATIONS: &'static str = "@sidebar_notifications";
pub const SIDEBAR_NOTIFICATIONS_EVENTS: &'static str = "@sidebar_notifications_events";
/// JSON config for external capability collectors. Defaults to the XDG path.
pub const SIDEBAR_EXTENSIONS_CONFIG: &'static str = "@sidebar_extensions_config";

pub const SIDEBAR_COLOR_ACCENT: &'static str = "@sidebar_color_accent";
pub const SIDEBAR_COLOR_BORDER: &'static str = "@sidebar_color_border";
pub const SIDEBAR_COLOR_ALL: &'static str = "@sidebar_color_all";
pub const SIDEBAR_COLOR_RUNNING: &'static str = "@sidebar_color_running";
pub const SIDEBAR_COLOR_WAITING: &'static str = "@sidebar_color_waiting";
pub const SIDEBAR_COLOR_IDLE: &'static str = "@sidebar_color_idle";
pub const SIDEBAR_COLOR_ERROR: &'static str = "@sidebar_color_error";
pub const SIDEBAR_COLOR_FILTER_INACTIVE: &'static str = "@sidebar_color_filter_inactive";
/// What the colour option of an agent starts with; the agent's label follows.
pub const SIDEBAR_COLOR_AGENT_PREFIX: &'static str = "@sidebar_color_agent_";
pub const SIDEBAR_COLOR_AGENT_CLAUDE: &'static str = "@sidebar_color_agent_claude";
pub const SIDEBAR_COLOR_AGENT_CODEX: &'static str = "@sidebar_color_agent_codex";
pub const SIDEBAR_COLOR_AGENT_OPENCODE: &'static str = "@sidebar_color_agent_opencode";
pub const SIDEBAR_COLOR_PET_BODY: &'static str = "@sidebar_color_pet_body";
pub const SIDEBAR_COLOR_PET_EYE: &'static str = "@sidebar_color_pet_eye";
pub const SIDEBAR_COLOR_TEXT_ACTIVE: &'static str = "@sidebar_color_text_active";
pub const SIDEBAR_COLOR_TEXT_MUTED: &'static str = "@sidebar_color_text_muted";
pub const SIDEBAR_COLOR_TEXT_INACTIVE: &'static str = "@sidebar_color_text_inactive";
pub const SIDEBAR_COLOR_SESSION: &'static str = "@sidebar_color_session";
pub const SIDEBAR_COLOR_PORT: &'static str = "@sidebar_color_port";
pub const SIDEBAR_COLOR_WAIT_REASON: &'static str = "@sidebar_color_wait_reason";
pub const SIDEBAR_COLOR_SELECTION: &'static str = "@sidebar_color_selection";
pub const SIDEBAR_COLOR_BRANCH: &'static str = "@sidebar_color_branch";
pub const SIDEBAR_COLOR_TASK_PROGRESS: &'static str = "@sidebar_color_task_progress";
pub const SIDEBAR_COLOR_SUBAGENT: &'static str = "@sidebar_color_subagent";
pub const SIDEBAR_COLOR_COMMIT_HASH: &'static str = "@sidebar_color_commit_hash";
pub const SIDEBAR_COLOR_DIFF_ADDED: &'static str = "@sidebar_color_diff_added";
pub const SIDEBAR_COLOR_DIFF_DELETED: &'static str = "@sidebar_color_diff_deleted";
pub const SIDEBAR_COLOR_FILE_CHANGE: &'static str = "@sidebar_color_file_change";
pub const SIDEBAR_COLOR_PR_LINK: &'static str = "@sidebar_color_pr_link";
pub const SIDEBAR_COLOR_SECTION_TITLE: &'static str = "@sidebar_color_section_title";
pub const SIDEBAR_COLOR_ACTIVITY_TIMESTAMP: &'static str = "@sidebar_color_activity_timestamp";
pub const SIDEBAR_COLOR_RESPONSE_ARROW: &'static str = "@sidebar_color_response_arrow";

pub const SIDEBAR_ICON_ALL: &'static str = "@sidebar_icon_all";
pub const SIDEBAR_ICON_RUNNING: &'static str = "@sidebar_icon_running";
pub const SIDEBAR_ICON_BACKGROUND: &'static str = "@sidebar_icon_background";
pub const SIDEBAR_ICON_WAITING: &'static str = "@sidebar_icon_waiting";
pub const SIDEBAR_ICON_IDLE: &'static str = "@sidebar_icon_idle";
pub const SIDEBAR_ICON_ERROR: &'static str = "@sidebar_icon_error";
pub const SIDEBAR_ICON_UNKNOWN: &'static str = "@sidebar_icon_unknown";


/// A change of a pane option.
#[derive(Debug)]
pub enum OptionWrite {
    /// The option of the pane gets a value.
    Assign { pane: String, key: String, value: String },
    /// The option of the pane goes away.
    Clear { pane: String, key: String },
    /// The activity log of the pane goes away.
    RemoveLog { pane: String },
}

/// The model of a change.
pub enum WriteModel {
    Assign { pane: Seq<char>, key: Seq<char>, value: Seq<char> },
    Clear { pane: Seq<char>, key: Seq<char> },
    RemoveLog { pane: Seq<char> },
}

impl View for OptionWrite {
    type V = WriteModel;

    open spec fn view(&self) -> WriteModel {
        match self {
            OptionWrite::Assign { pane, key, value } => WriteModel::Assign {
                pane: pane@,
                key: key@,
                value: value@,
            },
            OptionWrite::Clear { pane, key } => WriteModel::Clear { pane: pane@, key: key@ },
            OptionWrite::RemoveLog { pane } => WriteModel::RemoveLog { pane: pane@ },
        }
    }
}

/// The pane options as a log of changes, which tmux is sent in order.
pub struct PaneOptions {
    pub writes: Vec<OptionWrite>,
}

impl View for PaneOptions {
    type V = Seq<WriteModel>;

    open spec fn view(&self) -> Seq<WriteModel> {
        self.writes@.map_values(|write: OptionWrite| write@)
    }
}

/// The value that a log leaves an option of a pane with.
pub open spec fn option_value(
    log: Seq<WriteModel>,
    pane: Seq<char>,
    key: Seq<char>,
) -> Option<Seq<char>>
    decreases log.len(),
{
    if log.len() == 0 {
        None
    } else {
        match log.last() {
            WriteModel::Assign { pane: p, key: k, value } if p == pane && k == key => Some(value),
            WriteModel::Clear { pane: p, key: k } if p == pane && k == key => None,
            _ => option_value(log.drop_last(), pane, key),
        }
    }
}

impl PaneOptions {
    /// A log with no change.
    pub fn new() -> (options: Self)
        ensures
            options@ == Seq::<WriteModel>::empty(),
    {
        let options = PaneOptions { writes: Vec::new() };
        proof {
            assert(options@ =~= Seq::<WriteModel>::empty());
        }
        options
    }

    /// The value of an option, where it has one.
    pub fn get(&self, pane: &str, key: &str) -> (value: Option<String>)
        ensures
            text::opt(value) == option_value(self@, pane@, key@),
    {
        let mut n: usize = self.writes.len();
        proof {
            assert(self@.take(n as int) =~= self@);
        }
        while n > 0
            invariant
                n <= self.writes@.len(),
                option_value(self@, pane@, key@) == option_value(self@.take(n as int), pane@, key@),
            decreases n,
        {
            proof {
                let head = self@.take(n as int);
                assert(head.drop_last() =~= self@.take(n - 1));
                assert(head.last() == self.writes@[n - 1]@);
            }
            match &self.writes[n - 1] {
                OptionWrite::Assign { pane: p, key: k, value } => {
                    if same(p.as_str(), pane) && same(k.as_str(), key) {
                        return Some(value.clone());
                    }
                },
                OptionWrite::Clear { pane: p, key: k } => {
                    if same(p.as_str(), pane) && same(k.as_str(), key) {
                        return None;
                    }
                },
                OptionWrite::RemoveLog { .. } => {},
            }
            n = n - 1;
        }
        None
    }

    /// Whether an option has a value.
    pub fn contains(&self, pane: &str, key: &str) -> (yes: bool)
        ensures
            yes == (option_value(self@, pane@, key@) is Some),
    {
        self.get(pane, key).is_some()
    }
}

impl Default for PaneOptions {
    fn default() -> (options: Self)
        ensures
            options@ == Seq::<WriteModel>::empty(),
    {
        PaneOptions::new()
    }
}

/// Gives an option of a pane a value.
pub fn set_pane_option(options: &mut PaneOptions, pane: &str, key: &str, value: &str)
    ensures
        final(options)@ == old(options)@.push(
            WriteModel::Assign { pane: pane@, key: key@, value: value@ },
        ),
{
    let ghost before = options@;
    options.writes.push(
        OptionWrite::Assign { pane: owned(pane), key: owned(key), value: owned(value) },
    );
    proof {
        assert(options@ =~= before.push(
            WriteModel::Assign { pane: pane@, key: key@, value: value@ },
        ));
    }
}

/// Takes an option of a pane away.
pub fn unset_pane_option(options: &mut PaneOptions, pane: &str, key: &str)
    ensures
        final(options)@ == old(options)@.push(WriteModel::Clear { pane: pane@, key: key@ }),
{
    let ghost before = options@;
    options.writes.push(OptionWrite::Clear { pane: owned(pane), key: owned(key) });
    proof {
        assert(options@ =~= before.push(WriteModel::Clear { pane: pane@, key: key@ }));
    }
}

/// Takes the activity log of a pane away.
pub fn remove_log(options: &mut PaneOptions, pane: &str)
    ensures
        final(options)@ == old(options)@.push(WriteModel::RemoveLog { pane: pane@ }),
{
    let ghost before = options@;
    options.writes.push(OptionWrite::RemoveLog { pane: owned(pane) });
    proof {
        assert(options@ =~= before.push(WriteModel::RemoveLog { pane: pane@ }));
    }
}

/// The value of an option of a pane; empty where it has none.
pub fn get_pane_option_value(options: &PaneOptions, pane: &str, key: &str) -> (value: String)
    ensures
        value@ == match option_value(options@, pane@, key@) {
            Some(found) => found,
            None => Seq::<char>::empty(),
        },
{
    match options.get(pane, key) {
        Some(found) => found,
        None => String::new(),
    }
}

/// What is set is read back, and other options keep their values.
pub proof fn set_reads_back(
    log: Seq<WriteModel>,
    pane: Seq<char>,
    key: Seq<char>,
    value: Seq<char>,
    other_pane: Seq<char>,
    other_key: Seq<char>,
)
    ensures
        option_value(log.push(WriteModel::Assign { pane, key, value }), other_pane, other_key)
            == if other_pane == pane && other_key == key {
            Some(value)
        } else {
            option_value(log, other_pane, other_key)
        },
{
    assert(log.push(WriteModel::Assign { pane, key, value }).drop_last() =~= log);
}

/// What is taken away is gone, and other options keep their values.
pub proof fn unset_reads_nothing(
    log: Seq<WriteModel>,
    pane: Seq<char>,
    key: Seq<char>,
    other_pane: Seq<char>,
    other_key: Seq<char>,
)
    ensures
        option_value(log.push(WriteModel::Clear { pane, key }), other_pane, other_key)
            == if other_pane == pane && other_key == key {
            None
        } else {
            option_value(log, other_pane, other_key)
        },
{
    assert(log.push(WriteModel::Clear { pane, key }).drop_last() =~= log);
}

/// The value in the answer to `show -gv`, where it is not blank.
pub fn get_option(answer: Option<&str>) -> (value: Option<String>)
    ensures
        text::opt(value) == match answer {
            Some(output) => if scan::trim_of(output@).len() > 0 {
                Some(scan::trim_of(output@))
            } else {
                None
            },
            None => None,
        },
{
    match answer {
        Some(output) => {
            let value = trim(output);
            if value.as_str().is_empty() {
                None
            } else {
                Some(value)
            }
        },
        None => None,
    }
}

/// A text without the quotation marks around it.
pub open spec fn unquoted_start(value: Seq<char>) -> Seq<char>
    decreases value.len(),
{
    if value.len() > 0 && value[0] == '"' {
        unquoted_start(value.drop_first())
    } else {
        value
    }
}

/// A text without the quotation marks after it.
pub open spec fn unquoted_end(value: Seq<char>) -> Seq<char>
    decreases value.len(),
{
    if value.len() > 0 && value.last() == '"' {
        unquoted_end(value.drop_last())
    } else {
        value
    }
}

/// The index of the first blank of a line, from index `at` on.
pub open spec fn blank_from(line: Seq<char>, at: int) -> Option<int>
    decreases line.len() - at,
{
    if at < 0 || at >= line.len() {
        None
    } else if line[at] == ' ' {
        Some(at)
    } else {
        blank_from(line, at + 1)
    }
}

/// The option that a line of `show -g` names, with its value.
pub open spec fn option_line(line: Seq<char>) -> Option<(Seq<char>, Seq<char>)> {
    match blank_from(line, 0) {
        Some(at) => Some((line.take(at), unquoted_end(unquoted_start(line.skip(at + 1))))),
        None => None,
    }
}

/// The options that the first lines of `show -g` name; of two lines with one
/// name the later counts.
pub open spec fn option_lines(list: Seq<Seq<char>>) -> Map<Seq<char>, Seq<char>>
    decreases list.len(),
{
    if list.len() == 0 {
        Map::empty()
    } else {
        let before = option_lines(list.drop_last());
        match option_line(list.last()) {
            Some((key, value)) => before.insert(key, value),
            None => before,
        }
    }
}

fn find_blank(line: &[char]) -> (found: Option<usize>)
    ensures
        match found {
            Some(at) => at < line@.len() && blank_from(line@, 0) == Some(at as int),
            None => blank_from(line@, 0) is None,
        },
{
    let mut i: usize = 0;
    while i < line.len()
        invariant
            i <= line@.len(),
            blank_from(line@, 0) == blank_from(line@, i as int),
        decreases line@.len() - i,
    {
        if line[i] == ' ' {
            return Some(i);
        }
        i = i + 1;
    }
    None
}

fn unquote(line: &[char], from: usize) -> (value: String)
    requires
        from <= line@.len(),
    ensures
        value@ == unquoted_end(unquoted_start(line@.skip(from as int))),
{
    let mut start: usize = from;
    while start < line.len() && line[start] == '"'
        invariant
            from <= start <= line@.len(),
            unquoted_start(line@.skip(start as int)) == unquoted_start(line@.skip(from as int)),
        decreases line@.len() - start,
    {
        proof {
            assert(line@.skip(start as int).drop_first() =~= line@.skip(start + 1));
        }
        start = start + 1;
    }
    let ghost middle = line@.skip(start as int);
    let mut end: usize = line.len();
    proof {
        assert(line@.subrange(start as int, end as int) =~= middle);
    }
    while end > start && line[end - 1] == '"'
        invariant
            start <= end <= line@.len(),
            unquoted_end(line@.subrange(start as int, end as int)) == unquoted_end(middle),
        decreases end - start,
    {
        proof {
            assert(line@.subrange(start as int, end as int).drop_last() =~= line@.subrange(
                start as int,
                end - 1,
            ));
        }
        end = end - 1;
    }
    text_of(line, start, end)
}

/// The model of a map of texts.
pub open spec fn text_map(map: Map<Seq<char>, String>) -> Map<Seq<char>, Seq<char>> {
    map.map_values(|value: String| value@)
}

/// All global options in an answer to `show -g`, by name.
pub open spec fn answered_options(answer: Option<Seq<char>>) -> Map<Seq<char>, Seq<char>> {
    match answer {
        Some(output) => option_lines(cut::lines_of(output)),
        None => Map::<Seq<char>, Seq<char>>::empty(),
    }
}

/// All global options in the answer to `show -g`, by name.
pub fn get_all_global_options(answer: Option<&str>) -> (options: TextMap<String>)
    ensures
        text_map(options@) == answered_options(text::opt_ref(answer)),
        options.wf(),
{
    let mut map: TextMap<String> = TextMap::new();
    proof {
        assert(text_map(map@) =~= Map::<Seq<char>, Seq<char>>::empty());
    }
    if let Some(output) = answer {
        let list = lines(output);
        let mut i: usize = 0;
        proof {
            assert(text::texts(list@).take(0) =~= Seq::<Seq<char>>::empty());
        }
        while i < list.len()
            invariant
                i <= list@.len(),
                map.wf(),
                text_map(map@) == option_lines(text::texts(list@).take(i as int)),
            decreases list@.len() - i,
        {
            let chars = chars_of(list[i].as_str());
            let ghost before = map@;
            proof {
                let head = text::texts(list@).take(i + 1);
                assert(head.drop_last() =~= text::texts(list@).take(i as int));
                assert(head.last() == chars@);
            }
            if let Some(at) = find_blank(chars.as_slice()) {
                let key = text_of(chars.as_slice(), 0, at);
                assert(at < chars.len());
                let value = unquote(chars.as_slice(), at + 1);
                map.insert(key, value);
                proof {
                    assert(chars@.take(at as int) =~= chars@.subrange(0, at as int));
                    assert(text_map(map@) =~= text_map(before).insert(key@, value@));
                }
            }
            i = i + 1;
        }
        proof {
            assert(text::texts(list@).take(i as int) =~= cut::lines_of(output@));
        }
    }
    map
}

proof fn a_blank_is_found(line: Seq<char>, from: int, at: int)
    requires
        0 <= from <= at < line.len(),
        line[at] == ' ',
        forall|i: int| from <= i < at ==> line[i] != ' ',
    ensures
        blank_from(line, from) == Some(at),
    decreases at - from,
{
    if from < at {
        a_blank_is_found(line, from + 1, at);
    }
}

/// A line that shows an option is read as its name and its value, in quotes or not; the
/// value may hold blanks.
pub proof fn an_option_line_is_read(key: Seq<char>, value: Seq<char>)
    requires
        !key.contains(' '),
        value.len() > 0 ==> value[0] != '"' && value.last() != '"',
    ensures
        option_line(key.push(' ') + value) == Some((key, value)),
        option_line(key.push(' ').push('"') + value.push('"')) == Some((key, value)),
        option_line(key) is None,
{
    let plain = key.push(' ') + value;
    let at = key.len() as int;
    assert forall|i: int| 0 <= i < at implies key[i] != ' ' by {
        assert(key.contains(key[i]));
    }
    a_blank_is_found(plain, 0, at);
    assert(plain.take(at) =~= key);
    assert(plain.skip(at + 1) =~= value);
    let inner = seq!['"'] + value.push('"');
    let framed = key.push(' ').push('"') + value.push('"');
    a_blank_is_found(framed, 0, at);
    assert(framed.take(at) =~= key);
    assert(framed.skip(at + 1) =~= inner);
    assert(inner.drop_first() =~= value.push('"'));
    if value.len() > 0 {
        assert(value.push('"')[0] == value[0]);
        assert(unquoted_start(value.push('"')) == value.push('"'));
        assert(value.push('"').drop_last() =~= value);
        assert(unquoted_start(value) == value);
        assert(unquoted_end(value) == value);
    } else {
        assert(value.push('"').drop_first() =~= value);
        assert(unquoted_start(value.push('"')) == unquoted_start(value));
    }
    no_blank(key, 0);
}

proof fn no_blank(line: Seq<char>, from: int)
    requires
        0 <= from,
        forall|i: int| 0 <= i < line.len() ==> line[i] != ' ',
    ensures
        blank_from(line, from) is None,
    decreases line.len() - from,
{
    if from < line.len() {
        no_blank(line, from + 1);
    }
}

/// Whether a line shows an option.
pub open spec fn shows_option(line: Seq<char>, key: Seq<char>) -> bool {
    match option_line(line) {
        Some((name, _)) => name == key,
        None => false,
    }
}

/// An option has the value of the last line that shows it.
pub proof fn the_last_line_of_an_option_counts(
    list: Seq<Seq<char>>,
    k: int,
    key: Seq<char>,
    value: Seq<char>,
)
    requires
        0 <= k < list.len(),
        option_line(list[k]) == Some((key, value)),
        forall|j: int| k < j < list.len() ==> !shows_option(#[trigger] list[j], key),
    ensures
        option_lines(list).dom().contains(key),
        option_lines(list)[key] == value,
    decreases list.len(),
{
    if k < list.len() - 1 {
        let rest = list.drop_last();
        assert(!shows_option(list[list.len() - 1], key));
        assert forall|j: int| k < j < rest.len() implies !shows_option(#[trigger] rest[j], key) by {
            assert(rest[j] == list[j]);
        }
        the_last_line_of_an_option_counts(rest, k, key, value);
    }
}

/// Where tmux does not answer, no option is known.
pub proof fn no_answer_has_no_options(key: Seq<char>)
    ensures
        !answered_options(None).dom().contains(key),
{
}

} // verus!
