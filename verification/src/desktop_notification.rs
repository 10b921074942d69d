//! Notifications on the desktop: which events raise one, and how repeats are held
//! back.

use vstd::prelude::*;

use crate::cut;
use crate::cut::{split, Separator};
use crate::number;
use crate::number::{decimal, parse_unsigned};
use crate::scan;
use crate::scan::{find_chars, lower, starts_with, trim};
use crate::text;
use crate::text::{chars_of, concat2, concat3, owned, same, text_of};
use crate::textmap::TextMap;
use crate::tmux::options;
use crate::tmux::options::{
    get_all_global_options, get_pane_option_value, set_pane_option, PaneOptions,
    PANE_OS_NOTIFY_PERMISSION_REQUIRED, PANE_OS_NOTIFY_TASK_COMPLETED, PANE_OS_NOTIFY_TASK_FAILED,
    SIDEBAR_NOTIFICATIONS, SIDEBAR_NOTIFICATIONS_EVENTS,
};

verus! {

/// How long a notification is not repeated, in seconds.
pub const DESKTOP_NOTIFICATION_COOLDOWN_SECS: u64 = 120;

/// How long sending a notification may take, in seconds.
pub const DESKTOP_NOTIFICATION_TIMEOUT_SECS: u64 = 3;

/// How long asking for the command that sends may take, in seconds.
pub const DESKTOP_NOTIFICATION_PROBE_TIMEOUT_SECS: u64 = 1;

/// What a notification is about.
#[derive(Debug, Clone, Copy, PartialEq, Eq, Structural)]
pub enum DesktopNotificationKind {
    TaskCompleted,
    TaskFailed,
    PermissionRequired,
}

/// An event that can raise a notification.
#[derive(Debug, Clone, Copy, PartialEq, Eq, Structural)]
pub enum DesktopNotificationEvent {
    Stop,
    Notification,
    TaskCompleted,
    StopFailure,
    PermissionDenied,
}

/// The name of an event.
pub open spec fn event_name(event: DesktopNotificationEvent) -> Seq<char> {
    match event {
        DesktopNotificationEvent::Stop => "stop"@,
        DesktopNotificationEvent::Notification => "notification"@,
        DesktopNotificationEvent::TaskCompleted => "task_completed"@,
        DesktopNotificationEvent::StopFailure => "stop_failure"@,
        DesktopNotificationEvent::PermissionDenied => "permission_denied"@,
    }
}

/// Whether a word names an event.
pub open spec fn names(token: Seq<char>, event: DesktopNotificationEvent) -> bool {
    scan::lower_of(scan::trim_of(token)) == event_name(event)
}

/// The events that raise a notification unless others are asked for.
pub open spec fn default_events() -> Set<DesktopNotificationEvent> {
    set![
        DesktopNotificationEvent::Stop,
        DesktopNotificationEvent::Notification,
        DesktopNotificationEvent::StopFailure,
        DesktopNotificationEvent::PermissionDenied,
    ]
}

impl DesktopNotificationEvent {
    /// Every event.
    pub fn all() -> (events: Vec<DesktopNotificationEvent>)
        ensures
            events@ == seq![
                DesktopNotificationEvent::Stop,
                DesktopNotificationEvent::Notification,
                DesktopNotificationEvent::TaskCompleted,
                DesktopNotificationEvent::StopFailure,
                DesktopNotificationEvent::PermissionDenied,
            ],
    {
        let mut events: Vec<DesktopNotificationEvent> = Vec::new();
        events.push(DesktopNotificationEvent::Stop);
        events.push(DesktopNotificationEvent::Notification);
        events.push(DesktopNotificationEvent::TaskCompleted);
        events.push(DesktopNotificationEvent::StopFailure);
        events.push(DesktopNotificationEvent::PermissionDenied);
        proof {
            assert(events@ =~= seq![
                DesktopNotificationEvent::Stop,
                DesktopNotificationEvent::Notification,
                DesktopNotificationEvent::TaskCompleted,
                DesktopNotificationEvent::StopFailure,
                DesktopNotificationEvent::PermissionDenied,
            ]);
        }
        events
    }

    /// The name of an event.
    pub fn as_str(self) -> (name: &'static str)
        ensures
            name@ == event_name(self),
    {
        match self {
            DesktopNotificationEvent::Stop => "stop",
            DesktopNotificationEvent::Notification => "notification",
            DesktopNotificationEvent::TaskCompleted => "task_completed",
            DesktopNotificationEvent::StopFailure => "stop_failure",
            DesktopNotificationEvent::PermissionDenied => "permission_denied",
        }
    }

    /// The event that a word names.
    pub fn from_token(token: &str) -> (event: Option<DesktopNotificationEvent>)
        ensures
            match event {
                Some(found) => names(token@, found),
                None => forall|other: DesktopNotificationEvent| !names(token@, other),
            },
    {
        let word = lower(trim(token).as_str());
        if same(word.as_str(), "stop") {
            Some(DesktopNotificationEvent::Stop)
        } else if same(word.as_str(), "notification") {
            Some(DesktopNotificationEvent::Notification)
        } else if same(word.as_str(), "task_completed") {
            Some(DesktopNotificationEvent::TaskCompleted)
        } else if same(word.as_str(), "stop_failure") {
            Some(DesktopNotificationEvent::StopFailure)
        } else if same(word.as_str(), "permission_denied") {
            Some(DesktopNotificationEvent::PermissionDenied)
        } else {
            proof {
                assert forall|other: DesktopNotificationEvent| !names(token@, other) by {
                    match other {
                        DesktopNotificationEvent::Stop => {},
                        DesktopNotificationEvent::Notification => {},
                        DesktopNotificationEvent::TaskCompleted => {},
                        DesktopNotificationEvent::StopFailure => {},
                        DesktopNotificationEvent::PermissionDenied => {},
                    }
                }
            }
            None
        }
    }
}

/// The names of events differ.
pub proof fn names_differ(first: DesktopNotificationEvent, second: DesktopNotificationEvent)
    requires
        event_name(first) == event_name(second),
    ensures
        first == second,
{
    reveal_strlit("stop");
    reveal_strlit("notification");
    reveal_strlit("task_completed");
    reveal_strlit("stop_failure");
    reveal_strlit("permission_denied");
    assert("stop"@.len() == 4);
    assert("notification"@.len() == 12 && "notification"@[0] == 'n');
    assert("task_completed"@.len() == 14);
    assert("stop_failure"@.len() == 12 && "stop_failure"@[0] == 's');
    assert("permission_denied"@.len() == 17);
}

/// Each event is named by its name.
pub proof fn event_names_itself(event: DesktopNotificationEvent)
    ensures
        names(event_name(event), event),
{
    reveal_strlit("stop");
    reveal_strlit("notification");
    reveal_strlit("task_completed");
    reveal_strlit("stop_failure");
    reveal_strlit("permission_denied");
    let name = event_name(event);
    assert(name.len() > 0);
    assert(!scan::is_space(name[0]));
    assert(!scan::is_space(name.last()));
    assert(scan::trim_start_of(name) == name);
    assert(scan::trim_of(name) == name);
    assert(scan::lower_of(name) =~= name);
}

/// A set of events.
#[derive(Debug, Clone, Copy, PartialEq, Eq, Structural)]
pub struct EventSet {
    pub stop: bool,
    pub notification: bool,
    pub task_completed: bool,
    pub stop_failure: bool,
    pub permission_denied: bool,
}

impl EventSet {
    /// Whether an event is in the set.
    pub open spec fn has_event(self, event: DesktopNotificationEvent) -> bool {
        match event {
            DesktopNotificationEvent::Stop => self.stop,
            DesktopNotificationEvent::Notification => self.notification,
            DesktopNotificationEvent::TaskCompleted => self.task_completed,
            DesktopNotificationEvent::StopFailure => self.stop_failure,
            DesktopNotificationEvent::PermissionDenied => self.permission_denied,
        }
    }
}

impl View for EventSet {
    type V = Set<DesktopNotificationEvent>;

    open spec fn view(&self) -> Set<DesktopNotificationEvent> {
        Set::new(|event: DesktopNotificationEvent| self.has_event(event))
    }
}

impl EventSet {
    /// The empty set.
    pub fn empty() -> (events: Self)
        ensures
            events@ == Set::<DesktopNotificationEvent>::empty(),
    {
        let events = EventSet {
            stop: false,
            notification: false,
            task_completed: false,
            stop_failure: false,
            permission_denied: false,
        };
        proof {
            assert(events@ =~= Set::<DesktopNotificationEvent>::empty());
        }
        events
    }

    /// Whether an event is in the set.
    pub fn contains(&self, event: DesktopNotificationEvent) -> (yes: bool)
        ensures
            yes == self@.contains(event),
    {
        match event {
            DesktopNotificationEvent::Stop => self.stop,
            DesktopNotificationEvent::Notification => self.notification,
            DesktopNotificationEvent::TaskCompleted => self.task_completed,
            DesktopNotificationEvent::StopFailure => self.stop_failure,
            DesktopNotificationEvent::PermissionDenied => self.permission_denied,
        }
    }

    /// Adds an event.
    pub fn insert(&mut self, event: DesktopNotificationEvent)
        ensures
            final(self)@ == old(self)@.insert(event),
    {
        match event {
            DesktopNotificationEvent::Stop => {
                self.stop = true;
            },
            DesktopNotificationEvent::Notification => {
                self.notification = true;
            },
            DesktopNotificationEvent::TaskCompleted => {
                self.task_completed = true;
            },
            DesktopNotificationEvent::StopFailure => {
                self.stop_failure = true;
            },
            DesktopNotificationEvent::PermissionDenied => {
                self.permission_denied = true;
            },
        }
        proof {
            assert(self@ =~= old(self)@.insert(event));
        }
    }
}

/// Which events raise a notification.
#[derive(Debug, Clone, Copy, PartialEq, Eq, Structural)]
pub struct DesktopNotificationSettings {
    pub enabled: bool,
    pub events: EventSet,
}

impl Default for DesktopNotificationSettings {
    fn default() -> (settings: Self)
        ensures
            settings.enabled,
            settings.events@ == default_events(),
    {
        let mut events = EventSet::empty();
        events.insert(DesktopNotificationEvent::Stop);
        events.insert(DesktopNotificationEvent::Notification);
        events.insert(DesktopNotificationEvent::StopFailure);
        events.insert(DesktopNotificationEvent::PermissionDenied);
        proof {
            assert(events@ =~= default_events());
        }
        DesktopNotificationSettings { enabled: true, events }
    }
}

/// Whether a word of a list names an event.
pub open spec fn listed(tokens: Seq<Seq<char>>, event: DesktopNotificationEvent) -> bool {
    exists|i: int| 0 <= i < tokens.len() && names(#[trigger] tokens[i], event)
}

/// The events that an option asks for. A blank one asks for none, `all` for all;
/// words that name no event are passed over.
pub open spec fn asked_events(raw: Seq<char>) -> Set<DesktopNotificationEvent> {
    let trimmed = scan::trim_of(raw);
    if trimmed.len() == 0 {
        Set::empty()
    } else if scan::lower_of(trimmed) == "all"@ {
        Set::new(|event: DesktopNotificationEvent| true)
    } else {
        Set::new(
            |event: DesktopNotificationEvent|
                listed(cut::pieces(trimmed, Separator::Char(',')), event),
        )
    }
}

/// The events that an option asks for.
pub fn parse_events(raw: &str) -> (events: EventSet)
    ensures
        events@ == asked_events(raw@),
{
    let trimmed = trim(raw);
    let mut events = EventSet::empty();
    if trimmed.as_str().is_empty() {
        return events;
    }
    if same(lower(trimmed.as_str()).as_str(), "all") {
        let every = EventSet {
            stop: true,
            notification: true,
            task_completed: true,
            stop_failure: true,
            permission_denied: true,
        };
        proof {
            assert(every@ =~= asked_events(raw@));
        }
        return every;
    }
    let tokens = split(trimmed.as_str(), Separator::Char(','));
    let ghost all = text::texts(tokens@);
    let mut i: usize = 0;
    proof {
        assert forall|event: DesktopNotificationEvent| #[trigger] events@.contains(event) == listed(
            all.take(0),
            event,
        ) by {}
    }
    while i < tokens.len()
        invariant
            i <= tokens@.len(),
            all == text::texts(tokens@),
            forall|event: DesktopNotificationEvent| #[trigger]
                events@.contains(event) == listed(all.take(i as int), event),
        decreases tokens@.len() - i,
    {
        let ghost before = events@;
        let ghost head = all.take(i as int);
        let ghost longer = all.take(i + 1);
        proof {
            assert(all[i as int] == tokens@[i as int]@);
            assert forall|event: DesktopNotificationEvent| #[trigger] listed(longer, event) == (
            listed(head, event) || names(all[i as int], event)) by {
                if listed(head, event) {
                    let k = choose|k: int| 0 <= k < head.len() && names(#[trigger] head[k], event);
                    assert(names(longer[k], event));
                }
                if names(all[i as int], event) {
                    assert(names(longer[i as int], event));
                }
                if listed(longer, event) {
                    let k = choose|k: int|
                        0 <= k < longer.len() && names(#[trigger] longer[k], event);
                    if k < i {
                        assert(names(head[k], event));
                    }
                }
            }
        }
        if let Some(event) = DesktopNotificationEvent::from_token(tokens[i].as_str()) {
            events.insert(event);
            proof {
                assert forall|other: DesktopNotificationEvent| #[trigger]
                    events@.contains(other) == listed(longer, other) by {
                    if names(all[i as int], other) {
                        names_differ(event, other);
                    }
                }
            }
        }
        i = i + 1;
    }
    proof {
        assert(all.take(i as int) =~= all);
        assert(events@ =~= asked_events(raw@));
    }
    events
}

/// What an option says that is on or off.
pub open spec fn switch_of(value: Option<Seq<char>>) -> Option<bool> {
    match value {
        Some(raw) => {
            let word = scan::lower_of(scan::trim_of(raw));
            if word == "on"@ {
                Some(true)
            } else if word == "off"@ {
                Some(false)
            } else {
                None
            }
        },
        None => None,
    }
}

/// The value of an option.
pub open spec fn given(opts: Map<Seq<char>, Seq<char>>, key: Seq<char>) -> Option<Seq<char>> {
    if opts.dom().contains(key) {
        Some(opts[key])
    } else {
        None
    }
}

fn read_bool(opts: &TextMap<String>, key: &str) -> (value: Option<bool>)
    ensures
        value == switch_of(given(options::text_map(opts@), key@)),
{
    match opts.get(key) {
        Some(raw) => {
            let word = lower(trim(raw.as_str()).as_str());
            proof {
                reveal_strlit("on");
                reveal_strlit("off");
            }
            if same(word.as_str(), "on") {
                Some(true)
            } else if same(word.as_str(), "off") {
                Some(false)
            } else {
                None
            }
        },
        None => None,
    }
}

/// Whether notifications are on, by the options and the command that sends them.
pub open spec fn switched_on(opts: Map<Seq<char>, Seq<char>>, backend_available: bool) -> bool {
    backend_available && switch_of(given(opts, SIDEBAR_NOTIFICATIONS@)) != Some(false)
}

/// The events that options ask for.
pub open spec fn events_given(opts: Map<Seq<char>, Seq<char>>) -> Set<DesktopNotificationEvent> {
    match given(opts, SIDEBAR_NOTIFICATIONS_EVENTS@) {
        Some(raw) => asked_events(raw),
        None => default_events(),
    }
}

impl DesktopNotificationSettings {
    /// The settings in options, where the command that sends was found or not.
    pub fn from_tmux_options_with_backend(opts: &TextMap<String>, backend_available: bool) -> (
        settings: Self)
        ensures
            settings.enabled == switched_on(options::text_map(opts@), backend_available),
            settings.events@ == events_given(options::text_map(opts@)),
    {
        let wanted = match read_bool(opts, SIDEBAR_NOTIFICATIONS) {
            Some(on) => on,
            None => true,
        };
        let events = match opts.get(SIDEBAR_NOTIFICATIONS_EVENTS) {
            Some(raw) => parse_events(raw.as_str()),
            None => DesktopNotificationSettings::default().events,
        };
        DesktopNotificationSettings { enabled: wanted && backend_available, events }
    }

    /// The settings in options. `probe` is what became of asking for the command
    /// that sends.
    pub fn from_tmux_options(opts: &TextMap<String>, probe: &Result<(), String>) -> (settings: Self)
        ensures
            settings.enabled == switched_on(options::text_map(opts@), probe is Ok),
            settings.events@ == events_given(options::text_map(opts@)),
    {
        DesktopNotificationSettings::from_tmux_options_with_backend(opts, probe.is_ok())
    }

    /// The settings in what tmux answered when asked for its options.
    pub fn from_tmux(answer: Option<&str>, probe: &Result<(), String>) -> (settings: Self)
        ensures
            settings.enabled == switched_on(
                options::answered_options(text::opt_ref(answer)),
                probe is Ok,
            ),
            settings.events@ == events_given(options::answered_options(text::opt_ref(answer))),
    {
        let opts = get_all_global_options(answer);
        DesktopNotificationSettings::from_tmux_options(&opts, probe)
    }

    /// Whether an event raises a notification.
    pub fn event_enabled(&self, event: DesktopNotificationEvent) -> (yes: bool)
        ensures
            yes == self.events@.contains(event),
    {
        self.events.contains(event)
    }
}


// Titles.

/// A text without the space around it, where any is left.
pub open spec fn filled(value: Option<Seq<char>>) -> Option<Seq<char>> {
    match value {
        Some(raw) => if scan::trim_of(raw).len() > 0 {
            Some(scan::trim_of(raw))
        } else {
            None
        },
        None => None,
    }
}

/// The title of a notification.
pub open spec fn title_of(
    repo: Option<Seq<char>>,
    branch: Option<Seq<char>>,
    agent: Seq<char>,
) -> Seq<char> {
    match (filled(repo), filled(branch)) {
        (Some(name), Some(head)) => name + " ("@ + head + ") / "@ + agent,
        (Some(name), None) => name + " / "@ + agent,
        _ => agent,
    }
}

fn fill(value: Option<&str>) -> (filling: Option<String>)
    ensures
        text::opt(filling) == filled(text::opt_ref(value)),
{
    match value {
        Some(raw) => {
            let trimmed = trim(raw);
            if trimmed.as_str().is_empty() {
                None
            } else {
                Some(trimmed)
            }
        },
        None => None,
    }
}

/// The title of a notification: where the agent works, and which it is.
pub fn format_title(repo: Option<&str>, branch: Option<&str>, agent: &str) -> (title: String)
    ensures
        title@ == title_of(text::opt_ref(repo), text::opt_ref(branch), agent@),
{
    match (fill(repo), fill(branch)) {
        (Some(name), Some(head)) => {
            let place = concat3(name.as_str(), " (", head.as_str());
            concat3(place.as_str(), ") / ", agent)
        },
        (Some(name), None) => concat3(name.as_str(), " / ", agent),
        _ => owned(agent),
    }
}

// Stamps.

/// A fingerprint that belongs to a run.
pub open spec fn scoped(started_at: Option<u64>, fingerprint: Seq<char>) -> Seq<char> {
    match started_at {
        Some(run) => number::decimal_of(run as nat) + ":"@ + fingerprint,
        None => fingerprint,
    }
}

/// A fingerprint that belongs to a run, where one is known.
pub fn run_scoped_fingerprint(started_at: Option<u64>, fingerprint: &str) -> (result: String)
    ensures
        result@ == scoped(started_at, fingerprint@),
{
    match started_at {
        Some(run) => concat3(decimal(run).as_str(), ":", fingerprint),
        None => owned(fingerprint),
    }
}

/// The option that holds the stamp of a kind.
pub open spec fn stamp_key(kind: DesktopNotificationKind) -> Seq<char> {
    match kind {
        DesktopNotificationKind::TaskCompleted => PANE_OS_NOTIFY_TASK_COMPLETED@,
        DesktopNotificationKind::TaskFailed => PANE_OS_NOTIFY_TASK_FAILED@,
        DesktopNotificationKind::PermissionRequired => PANE_OS_NOTIFY_PERMISSION_REQUIRED@,
    }
}

/// The option that holds the stamp of a kind.
pub fn stamp_option_key(kind: DesktopNotificationKind) -> (key: &'static str)
    ensures
        key@ == stamp_key(kind),
{
    match kind {
        DesktopNotificationKind::TaskCompleted => PANE_OS_NOTIFY_TASK_COMPLETED,
        DesktopNotificationKind::TaskFailed => PANE_OS_NOTIFY_TASK_FAILED,
        DesktopNotificationKind::PermissionRequired => PANE_OS_NOTIFY_PERMISSION_REQUIRED,
    }
}

/// When a notification was sent, and what for.
#[derive(Debug, PartialEq)]
pub struct NotificationStamp {
    pub timestamp: u64,
    pub fingerprint: String,
}

/// The model of a stamp.
pub struct StampModel {
    pub timestamp: u64,
    pub fingerprint: Seq<char>,
}

impl View for NotificationStamp {
    type V = StampModel;

    open spec fn view(&self) -> StampModel {
        StampModel { timestamp: self.timestamp, fingerprint: self.fingerprint@ }
    }
}

/// The text of a stamp.
pub open spec fn stamp_text(timestamp: u64, fingerprint: Seq<char>) -> Seq<char> {
    number::decimal_of(timestamp as nat) + "|"@ + fingerprint
}

/// The stamp that a text is.
pub open spec fn stamp_in(raw: Seq<char>) -> Option<StampModel> {
    match scan::find_from(raw, "|"@, 0) {
        Some(at) => match number::unsigned(raw.take(at), u64::MAX as int) {
            Some(timestamp) => Some(
                StampModel { timestamp: timestamp as u64, fingerprint: raw.skip(at + 1) },
            ),
            None => None,
        },
        None => None,
    }
}

/// The text of a stamp.
pub fn encode_stamp(timestamp: u64, fingerprint: &str) -> (raw: String)
    ensures
        raw@ == stamp_text(timestamp, fingerprint@),
{
    concat3(decimal(timestamp).as_str(), "|", fingerprint)
}

/// The stamp that a text is.
pub fn parse_stamp(raw: &str) -> (stamp: Option<NotificationStamp>)
    ensures
        match stamp {
            Some(found) => stamp_in(raw@) == Some(found@),
            None => stamp_in(raw@) is None,
        },
{
    let chars = chars_of(raw);
    let bar = chars_of("|");
    proof {
        reveal_strlit("|");
    }
    match find_chars(chars.as_slice(), bar.as_slice(), 0) {
        Some(at) => {
            let head = text_of(chars.as_slice(), 0, at);
            proof {
                assert(at + bar@.len() <= chars@.len());
                assert(raw@.take(at as int) =~= raw@.subrange(0, at as int));
                assert(raw@.skip(at + 1) =~= raw@.subrange(at + 1, raw@.len() as int));
            }
            match parse_unsigned(head.as_str(), u64::MAX) {
                Some(timestamp) => {
                    let fingerprint = text_of(chars.as_slice(), at + 1, chars.len());
                    Some(NotificationStamp { timestamp, fingerprint })
                },
                None => None,
            }
        },
        None => None,
    }
}

/// A character that can stand in a stamp.
pub open spec fn flat_char(ch: char) -> char {
    if ch == '|' || ch == '\n' || ch == '\r' {
        ' '
    } else {
        ch
    }
}

/// A fingerprint that can stand in a stamp, on one line.
pub open spec fn flat(value: Seq<char>) -> Seq<char> {
    value.map_values(|ch: char| flat_char(ch))
}

/// A fingerprint that can stand in a stamp, on one line.
pub fn normalize_fingerprint(value: &str) -> (normalized: String)
    ensures
        normalized@ == flat(value@),
{
    let chars = chars_of(value);
    let mut out = String::new();
    let mut i: usize = 0;
    proof {
        assert(out@ =~= flat(value@).take(0));
    }
    while i < chars.len()
        invariant
            i <= chars@.len(),
            chars@ == value@,
            out@ == flat(value@).take(i as int),
        decreases chars@.len() - i,
    {
        let ch = chars[i];
        let kept = if ch == '|' || ch == '\n' || ch == '\r' {
            ' '
        } else {
            ch
        };
        out.push(kept);
        i = i + 1;
        proof {
            assert(flat(value@).take(i as int) =~= flat(value@).take(i - 1).push(
                flat(value@)[i - 1],
            ));
        }
    }
    proof {
        assert(flat(value@).take(i as int) =~= flat(value@));
    }
    out
}

/// The value of an option of a pane.
pub open spec fn option_of(log: Seq<options::WriteModel>, pane: Seq<char>, key: Seq<char>) -> Seq<
    char,
> {
    match options::option_value(log, pane, key) {
        Some(found) => found,
        None => Seq::<char>::empty(),
    }
}

/// Whether a stamp was set in a run.
pub open spec fn stamped_in_run(raw: Seq<char>, run: u64) -> bool {
    match stamp_in(raw) {
        Some(stamp) => scan::starts(stamp.fingerprint, number::decimal_of(run as nat) + ":"@),
        None => false,
    }
}

/// Returns true if a notification of `kind` has already fired for the
/// current `run_id` on this pane. Use to dedupe events that share a kind
/// but use distinct fingerprints (e.g. `Stop` vs explicit `TaskCompleted`
/// in the same run).
pub fn has_run_scoped_stamp(
    options: &PaneOptions,
    pane_id: &str,
    kind: DesktopNotificationKind,
    run_id: Option<u64>,
) -> (yes: bool)
    ensures
        yes == match run_id {
            Some(run) => pane_id@.len() > 0 && stamped_in_run(
                option_of(options@, pane_id@, stamp_key(kind)),
                run,
            ),
            None => false,
        },
{
    match run_id {
        Some(run) => {
            if pane_id.is_empty() {
                return false;
            }
            let raw = get_pane_option_value(options, pane_id, stamp_option_key(kind));
            match parse_stamp(raw.as_str()) {
                Some(stamp) => {
                    let prefix = concat2(decimal(run).as_str(), ":");
                    starts_with(stamp.fingerprint.as_str(), prefix.as_str())
                },
                None => false,
            }
        },
        None => false,
    }
}

/// Whether a stamp holds a notification back: the same was sent a short while ago.
pub open spec fn held_back(raw: Seq<char>, fingerprint: Seq<char>, now: u64) -> bool {
    match stamp_in(raw) {
        Some(stamp) => stamp.fingerprint == fingerprint && (now < stamp.timestamp || now
            - stamp.timestamp < DESKTOP_NOTIFICATION_COOLDOWN_SECS),
        None => false,
    }
}

/// Whether a notification is to be sent.
pub open spec fn is_due(
    settings: DesktopNotificationSettings,
    log: Seq<options::WriteModel>,
    pane_id: Seq<char>,
    kind: DesktopNotificationKind,
    event: DesktopNotificationEvent,
    fingerprint: Seq<char>,
    now: u64,
) -> bool {
    &&& settings.enabled
    &&& pane_id.len() > 0
    &&& settings.events@.contains(event)
    &&& !held_back(option_of(log, pane_id, stamp_key(kind)), flat(fingerprint), now)
}

/// The options after a notification was sent.
pub open spec fn with_stamp(
    log: Seq<options::WriteModel>,
    pane_id: Seq<char>,
    kind: DesktopNotificationKind,
    fingerprint: Seq<char>,
    now: u64,
) -> Seq<options::WriteModel> {
    log.push(
        options::WriteModel::Assign {
            pane: pane_id,
            key: stamp_key(kind),
            value: stamp_text(now, flat(fingerprint)),
        },
    )
}

/// Whether a notification is to be sent.
pub fn notification_due(
    settings: &DesktopNotificationSettings,
    options: &PaneOptions,
    pane_id: &str,
    kind: DesktopNotificationKind,
    event: DesktopNotificationEvent,
    fingerprint: &str,
    now: u64,
) -> (due: bool)
    ensures
        due == is_due(*settings, options@, pane_id@, kind, event, fingerprint@, now),
{
    if !settings.enabled || pane_id.is_empty() || !settings.event_enabled(event) {
        return false;
    }
    let wanted = normalize_fingerprint(fingerprint);
    let current = get_pane_option_value(options, pane_id, stamp_option_key(kind));
    match parse_stamp(current.as_str()) {
        Some(stamp) => {
            !(same(stamp.fingerprint.as_str(), wanted.as_str()) && now.saturating_sub(
                stamp.timestamp,
            ) < DESKTOP_NOTIFICATION_COOLDOWN_SECS)
        },
        None => true,
    }
}

/// Sends a notification where it is allowed and due, and remembers that it was sent.
/// Says whether it was. The sender is called with the title and the body, and only
/// then.
pub fn notify_if_allowed<F>(
    settings: &DesktopNotificationSettings,
    options: &mut PaneOptions,
    pane_id: &str,
    kind: DesktopNotificationKind,
    event: DesktopNotificationEvent,
    fingerprint: &str,
    title: &str,
    body: &str,
    now: u64,
    send: F,
) -> (sent: bool) where F: FnOnce(&str, &str) -> Result<(), String>
    requires
        is_due(*settings, old(options)@, pane_id@, kind, event, fingerprint@, now) ==> call_requires(
            send,
            (title, body),
        ),
    ensures
        !is_due(*settings, old(options)@, pane_id@, kind, event, fingerprint@, now) ==> !sent
            && final(options)@ == old(options)@,
        is_due(*settings, old(options)@, pane_id@, kind, event, fingerprint@, now) ==> exists|
            result: Result<(), String>,
        |
            {
                &&& #[trigger] call_ensures(send, (title, body), result)
                &&& sent == (result is Ok)
                &&& final(options)@ == if sent {
                    with_stamp(old(options)@, pane_id@, kind, fingerprint@, now)
                } else {
                    old(options)@
                }
            },
{
    if !notification_due(settings, options, pane_id, kind, event, fingerprint, now) {
        return false;
    }
    let result = send(title, body);
    match result {
        Ok(()) => {
            let wanted = normalize_fingerprint(fingerprint);
            let stamp = encode_stamp(now, wanted.as_str());
            set_pane_option(options, pane_id, stamp_option_key(kind), stamp.as_str());
            true
        },
        Err(_) => false,
    }
}

// The command that sends.

/// The arguments with which `notify-send` sends.
pub fn notify_send_args(title: &str, body: &str) -> (args: Vec<String>)
    ensures
        text::texts(args@) == seq![
            "--app-name=tmux-agent-sidebar"@,
            "--urgency=normal"@,
            title@,
            body@,
        ],
{
    let mut args: Vec<String> = Vec::new();
    args.push(owned("--app-name=tmux-agent-sidebar"));
    args.push(owned("--urgency=normal"));
    args.push(owned(title));
    args.push(owned(body));
    proof {
        assert(text::texts(args@) =~= seq![
            "--app-name=tmux-agent-sidebar"@,
            "--urgency=normal"@,
            title@,
            body@,
        ]);
    }
    args
}

/// A character inside a quoted text of AppleScript.
pub open spec fn quoted_char(ch: char) -> Seq<char> {
    if ch == '\n' || ch == '\r' {
        seq![' ']
    } else if ch == '\\' || ch == '"' {
        seq!['\\', ch]
    } else {
        seq![ch]
    }
}

/// A text inside quotes of AppleScript.
pub open spec fn script_text(value: Seq<char>) -> Seq<char>
    decreases value.len(),
{
    if value.len() == 0 {
        value
    } else {
        script_text(value.drop_last()) + quoted_char(value.last())
    }
}

/// A text as it stands inside quotes of AppleScript, on one line.
pub fn escape_applescript(value: &str) -> (escaped: String)
    ensures
        escaped@ == script_text(value@),
{
    let chars = chars_of(value);
    let mut out = String::new();
    let mut i: usize = 0;
    proof {
        assert(value@.take(0) =~= Seq::<char>::empty());
    }
    while i < chars.len()
        invariant
            i <= chars@.len(),
            chars@ == value@,
            out@ == script_text(value@.take(i as int)),
        decreases chars@.len() - i,
    {
        let ch = chars[i];
        let ghost before = out@;
        proof {
            assert(value@.take(i + 1).drop_last() =~= value@.take(i as int));
        }
        if ch == '\n' || ch == '\r' {
            out.push(' ');
        } else {
            if ch == '\\' || ch == '"' {
                out.push('\\');
            }
            out.push(ch);
        }
        i = i + 1;
        proof {
            assert(out@ =~= before + quoted_char(ch));
        }
    }
    proof {
        assert(value@.take(i as int) =~= value@);
    }
    out
}

/// The script with which `osascript` sends.
pub fn notification_script(title: &str, body: &str) -> (script: String)
    ensures
        script@ == "display notification \""@ + script_text(body@) + "\" with title \""@
            + script_text(title@) + "\""@,
{
    let first = concat3(
        "display notification \"",
        escape_applescript(body).as_str(),
        "\" with title \"",
    );
    concat3(first.as_str(), escape_applescript(title).as_str(), "\"")
}

/// What became of the command that sends.
#[derive(Debug)]
pub enum SenderState {
    Running,
    Succeeded,
    /// It failed, with a status.
    Failed(String),
    /// It cannot be waited for, with an error.
    Lost(String),
}

/// What to do about the command that sends.
#[derive(Debug)]
pub enum SenderStep {
    /// It is done, with this result.
    Done(Result<(), String>),
    /// It runs for too long: end it, with this error.
    GiveUp(String),
    /// Look again after a while.
    Sleep,
}

/// What to do about the command that sends, after it ran for some time.
pub fn run_notification_command(
    command_name: &str,
    state: SenderState,
    elapsed_ms: u64,
    timeout_secs: u64,
) -> (step: SenderStep)
    ensures
        match state {
            SenderState::Succeeded => step matches SenderStep::Done(result) && result is Ok,
            SenderState::Failed(status) => step matches SenderStep::Done(result)
                && result matches Err(message) && message@ == command_name@
                + " exited with status "@ + status@,
            SenderState::Lost(error) => step matches SenderStep::Done(result)
                && result matches Err(message) && message@ == "failed to wait on "@ + command_name@
                + ": "@ + error@,
            SenderState::Running => if elapsed_ms >= timeout_secs * 1000 {
                step matches SenderStep::GiveUp(message) && message@ == command_name@
                    + " timed out after "@ + number::decimal_of(timeout_secs as nat) + "s"@
            } else {
                step is Sleep
            },
        },
{
    match state {
        SenderState::Succeeded => SenderStep::Done(Ok(())),
        SenderState::Failed(status) => SenderStep::Done(
            Err(concat3(command_name, " exited with status ", status.as_str())),
        ),
        SenderState::Lost(error) => {
            let first = concat3("failed to wait on ", command_name, ": ");
            SenderStep::Done(Err(concat2(first.as_str(), error.as_str())))
        },
        SenderState::Running => {
            if elapsed_ms as u128 >= timeout_secs as u128 * 1000 {
                let first = concat3(
                    command_name,
                    " timed out after ",
                    decimal(timeout_secs).as_str(),
                );
                SenderStep::GiveUp(concat2(first.as_str(), "s"))
            } else {
                SenderStep::Sleep
            }
        },
    }
}

// Laws.

/// A stamp is read back as it was written.
pub proof fn stamp_reads_back(timestamp: u64, fingerprint: Seq<char>)
    ensures
        stamp_in(stamp_text(timestamp, fingerprint)) == Some(StampModel { timestamp, fingerprint }),
{
    reveal_strlit("|");
    let digits = number::decimal_of(timestamp as nat);
    let raw = stamp_text(timestamp, fingerprint);
    number::decimal_reads_back(timestamp as nat);
    number::decimal_round_trip(timestamp as nat, u64::MAX as int);
    let bar = "|"@;
    assert(scan::stands_at(raw, bar, digits.len() as int)) by {
        assert(raw.subrange(digits.len() as int, digits.len() as int + 1) =~= bar);
    }
    scan::find_from_is_first(raw, bar, 0);
    assert forall|i: int| 0 <= i < digits.len() implies !scan::stands_at(raw, bar, i) by {
        assert(raw[i] == digits[i]);
        assert(number::is_digit(digits[i]));
        if scan::stands_at(raw, bar, i) {
            assert(raw.subrange(i, i + 1)[0] == bar[0]);
        }
    }
    assert(scan::find_from(raw, bar, 0) == Some(digits.len() as int));
    assert(raw.take(digits.len() as int) =~= digits);
    assert(raw.skip(digits.len() as int + 1) =~= fingerprint);
}

/// A fingerprint that can stand in a stamp stays as it is, and holds neither a bar
/// nor a line end.
pub proof fn flat_stays_flat(value: Seq<char>)
    ensures
        flat(flat(value)) == flat(value),
        !flat(value).contains('|'),
        !flat(value).contains('\n'),
        !flat(value).contains('\r'),
{
    assert(flat(flat(value)) =~= flat(value));
}

proof fn flat_keeps_the_run(run: u64, fingerprint: Seq<char>)
    ensures
        flat(scoped(Some(run), fingerprint)) == number::decimal_of(run as nat) + ":"@ + flat(
            fingerprint,
        ),
{
    reveal_strlit(":");
    number::decimal_reads_back(run as nat);
    let digits = number::decimal_of(run as nat);
    let whole = scoped(Some(run), fingerprint);
    assert forall|i: int| 0 <= i < digits.len() implies flat_char(#[trigger] whole[i])
        == digits[i] by {
        assert(number::is_digit(digits[i]));
    }
    assert(flat(whole) =~= digits + ":"@ + flat(fingerprint));
}

/// A notification that was sent for a run is found to belong to that run, and to no
/// other.
pub proof fn a_stamp_belongs_to_its_run(now: u64, run: u64, fingerprint: Seq<char>, other: u64)
    ensures
        stamped_in_run(stamp_text(now, flat(scoped(Some(run), fingerprint))), other) <==> other
            == run,
{
    reveal_strlit(":");
    let ours = number::decimal_of(run as nat);
    let theirs = number::decimal_of(other as nat);
    let whole = flat(scoped(Some(run), fingerprint));
    stamp_reads_back(now, whole);
    flat_keeps_the_run(run, fingerprint);
    number::decimal_reads_back(run as nat);
    number::decimal_reads_back(other as nat);
    let prefix = theirs + ":"@;
    if other == run {
        assert(whole.subrange(0, prefix.len() as int) =~= prefix);
    } else if scan::starts(whole, prefix) {
        assert(whole.subrange(0, prefix.len() as int) =~= prefix);
        assert forall|i: int| 0 <= i < prefix.len() implies whole[i] == prefix[i] by {
            assert(whole.subrange(0, prefix.len() as int)[i] == prefix[i]);
        }
        if theirs.len() < ours.len() {
            assert(whole[theirs.len() as int] == ours[theirs.len() as int]);
            assert(number::is_digit(ours[theirs.len() as int]));
            assert(prefix[theirs.len() as int] == ':');
        } else if theirs.len() > ours.len() {
            assert(whole[ours.len() as int] == ':');
            assert(number::is_digit(theirs[ours.len() as int]));
        } else {
            assert(theirs =~= ours) by {
                assert forall|i: int| 0 <= i < ours.len() implies theirs[i] == ours[i] by {
                    assert(whole[i] == prefix[i]);
                }
            }
        }
    }
}

/// A notification that was sent is not sent again until it has cooled down.
pub proof fn a_repeat_is_held_back(
    settings: DesktopNotificationSettings,
    log: Seq<options::WriteModel>,
    pane_id: Seq<char>,
    kind: DesktopNotificationKind,
    event: DesktopNotificationEvent,
    fingerprint: Seq<char>,
    now: u64,
    later: u64,
)
    requires
        is_due(settings, log, pane_id, kind, event, fingerprint, now),
        now <= later,
    ensures
        is_due(
            settings,
            with_stamp(log, pane_id, kind, fingerprint, now),
            pane_id,
            kind,
            event,
            fingerprint,
            later,
        ) <==> later - now >= DESKTOP_NOTIFICATION_COOLDOWN_SECS,
{
    stamp_reads_back(now, flat(fingerprint));
    options::set_reads_back(
        log,
        pane_id,
        stamp_key(kind),
        stamp_text(now, flat(fingerprint)),
        pane_id,
        stamp_key(kind),
    );
}

/// Whether a fingerprint can be told from another once both stand in a stamp, where a bar
/// or a line end is a blank.
pub open spec fn told_apart(first: Seq<char>, second: Seq<char>) -> bool {
    first.len() != second.len() || exists|i: int|
        0 <= i < first.len() && #[trigger] first[i] != second[i] && !(is_blank_in_stamp(first[i])
            && is_blank_in_stamp(second[i]))
}

/// Whether a character is a blank in a stamp.
pub open spec fn is_blank_in_stamp(ch: char) -> bool {
    ch == '|' || ch == '\n' || ch == '\r' || ch == ' '
}

proof fn flat_keeps_apart(first: Seq<char>, second: Seq<char>)
    ensures
        told_apart(first, second) <==> flat(first) != flat(second),
{
    if told_apart(first, second) {
        if first.len() == second.len() {
            let i = choose|i: int|
                0 <= i < first.len() && #[trigger] first[i] != second[i] && !(is_blank_in_stamp(
                    first[i],
                ) && is_blank_in_stamp(second[i]));
            assert(flat(first)[i] == flat_char(first[i]));
            assert(flat(second)[i] == flat_char(second[i]));
        } else {
            assert(flat(first).len() == first.len() && flat(second).len() == second.len());
        }
    } else {
        assert forall|i: int| 0 <= i < first.len() implies flat(first)[i] == flat(second)[i] by {
            assert(first[i] == first[i]);
        }
        assert(flat(first) =~= flat(second));
    }
}

/// After a notification was sent for a pane, another of its kind is due where
/// notifications are on, the pane has a name and the event is asked for: unless it is
/// about the same and the first has not cooled down. One about another run is due however
/// little time has passed.
pub proof fn only_a_repeat_is_held_back(
    settings: DesktopNotificationSettings,
    log: Seq<options::WriteModel>,
    pane_id: Seq<char>,
    kind: DesktopNotificationKind,
    event: DesktopNotificationEvent,
    sent: Seq<char>,
    sent_at: u64,
    fingerprint: Seq<char>,
    now: u64,
)
    requires
        settings.enabled,
        pane_id.len() > 0,
        settings.events@.contains(event),
    ensures
        is_due(
            settings,
            with_stamp(log, pane_id, kind, sent, sent_at),
            pane_id,
            kind,
            event,
            fingerprint,
            now,
        ) <==> told_apart(sent, fingerprint) || now - sent_at >= 120,
{
    flat_keeps_apart(sent, fingerprint);
    stamp_reads_back(sent_at, flat(sent));
    options::set_reads_back(
        log,
        pane_id,
        stamp_key(kind),
        stamp_text(sent_at, flat(sent)),
        pane_id,
        stamp_key(kind),
    );
}

proof fn kinds_have_their_own_keys(kind: DesktopNotificationKind, other: DesktopNotificationKind)
    requires
        kind != other,
    ensures
        stamp_key(kind) != stamp_key(other),
{
    reveal_strlit("@pane_os_notify_task_completed");
    reveal_strlit("@pane_os_notify_task_failed");
    reveal_strlit("@pane_os_notify_permission_required");
    assert(PANE_OS_NOTIFY_TASK_COMPLETED@.len() == 30);
    assert(PANE_OS_NOTIFY_TASK_FAILED@.len() == 27);
    assert(PANE_OS_NOTIFY_PERMISSION_REQUIRED@.len() == 35);
}

/// A notification that was sent says nothing of other panes, and nothing of other kinds.
pub proof fn others_are_due_as_before(
    settings: DesktopNotificationSettings,
    log: Seq<options::WriteModel>,
    pane_id: Seq<char>,
    kind: DesktopNotificationKind,
    sent: Seq<char>,
    sent_at: u64,
    other_pane: Seq<char>,
    other_kind: DesktopNotificationKind,
    event: DesktopNotificationEvent,
    fingerprint: Seq<char>,
    now: u64,
)
    requires
        other_pane != pane_id || other_kind != kind,
    ensures
        is_due(
            settings,
            with_stamp(log, pane_id, kind, sent, sent_at),
            other_pane,
            other_kind,
            event,
            fingerprint,
            now,
        ) == is_due(settings, log, other_pane, other_kind, event, fingerprint, now),
{
    if other_kind != kind {
        kinds_have_their_own_keys(kind, other_kind);
    }
    options::set_reads_back(
        log,
        pane_id,
        stamp_key(kind),
        stamp_text(sent_at, flat(sent)),
        other_pane,
        stamp_key(other_kind),
    );
}

/// Where none was sent, a notification is due just where notifications are on, the pane
/// has a name and the event is asked for.
pub proof fn the_first_is_due(
    settings: DesktopNotificationSettings,
    log: Seq<options::WriteModel>,
    pane_id: Seq<char>,
    kind: DesktopNotificationKind,
    event: DesktopNotificationEvent,
    fingerprint: Seq<char>,
    now: u64,
)
    requires
        options::option_value(log, pane_id, stamp_key(kind)) is None,
    ensures
        is_due(settings, log, pane_id, kind, event, fingerprint, now) <==> settings.enabled
            && pane_id.len() > 0 && settings.events@.contains(event),
{
    reveal_strlit("|");
    scan::find_from_is_first(Seq::<char>::empty(), "|"@, 0);
}

/// Nothing is due while notifications are off, for a pane without a name, or for an event
/// that is not asked for.
pub proof fn nothing_is_due_unasked(
    settings: DesktopNotificationSettings,
    log: Seq<options::WriteModel>,
    pane_id: Seq<char>,
    kind: DesktopNotificationKind,
    event: DesktopNotificationEvent,
    fingerprint: Seq<char>,
    now: u64,
)
    requires
        !settings.enabled || pane_id.len() == 0 || !settings.events@.contains(event),
    ensures
        !is_due(settings, log, pane_id, kind, event, fingerprint, now),
{
}

/// What a script reads from the text of a literal: a backslash stands for the character
/// behind it, and a quote would end the literal.
pub open spec fn read_by_script(text: Seq<char>) -> Option<Seq<char>>
    decreases text.len(),
{
    if text.len() == 0 {
        Some(Seq::<char>::empty())
    } else if text[0] == '"' {
        None
    } else if text[0] == '\\' {
        if text.len() < 2 {
            None
        } else {
            match read_by_script(text.skip(2)) {
                Some(rest) => Some(seq![text[1]] + rest),
                None => None,
            }
        }
    } else {
        match read_by_script(text.skip(1)) {
            Some(rest) => Some(seq![text[0]] + rest),
            None => None,
        }
    }
}

proof fn script_starts(value: Seq<char>)
    requires
        value.len() > 0,
    ensures
        script_text(value) == quoted_char(value[0]) + script_text(value.skip(1)),
    decreases value.len(),
{
    let none = Seq::<char>::empty();
    if value.len() == 1 {
        assert(value.drop_last() =~= none);
        assert(value.skip(1) =~= none);
        assert(script_text(value) =~= quoted_char(value[0]) + script_text(value.skip(1)));
    } else {
        script_starts(value.drop_last());
        assert(value.drop_last().skip(1) =~= value.skip(1).drop_last());
        assert(value.skip(1).last() == value.last());
        assert(script_text(value) =~= quoted_char(value[0]) + script_text(value.skip(1)));
    }
}

/// A script reads back the text that was written into it, with a blank for each line
/// break; no text can end the literal that it stands in.
pub proof fn scripts_read_what_was_written(value: Seq<char>)
    ensures
        read_by_script(script_text(value)) == Some(
            value.map_values(
                |ch: char|
                    if ch == '\n' || ch == '\r' {
                        ' '
                    } else {
                        ch
                    },
            ),
        ),
    decreases value.len(),
{
    let shown = |ch: char|
        if ch == '\n' || ch == '\r' {
            ' '
        } else {
            ch
        };
    if value.len() == 0 {
        assert(value.map_values(shown) =~= Seq::<char>::empty());
    } else {
        let rest = value.skip(1);
        script_starts(value);
        scripts_read_what_was_written(rest);
        let text = script_text(value);
        let head = quoted_char(value[0]);
        assert(text =~= head + script_text(rest));
        assert(text.skip(head.len() as int) =~= script_text(rest));
        assert(value.map_values(shown) =~= seq![shown(value[0])] + rest.map_values(shown));
    }
}

/// A title names the agent, and before it the repository and its branch, as far as they
/// are known; what is blank is not known.
pub proof fn titles_name_what_is_known(
    blank: Seq<char>,
    repo: Seq<char>,
    branch: Seq<char>,
    agent: Seq<char>,
)
    requires
        forall|i: int| 0 <= i < blank.len() ==> scan::is_space(#[trigger] blank[i]),
        repo.len() > 0 && !scan::is_space(repo[0]) && !scan::is_space(repo.last()),
        branch.len() > 0 && !scan::is_space(branch[0]) && !scan::is_space(branch.last()),
    ensures
        title_of(Some(blank + repo + blank), Some(blank + branch + blank), agent) == repo + " ("@
            + branch + ") / "@ + agent,
        title_of(Some(repo), None, agent) == repo + " / "@ + agent,
        title_of(Some(repo), Some(blank), agent) == repo + " / "@ + agent,
        title_of(None, Some(branch), agent) == agent,
        title_of(Some(blank), Some(branch), agent) == agent,
        title_of(None, None, agent) == agent,
{
    let none = Seq::<char>::empty();
    scan::trim_takes_the_space_around(blank, repo, blank);
    scan::trim_takes_the_space_around(blank, branch, blank);
    scan::trim_takes_the_space_around(none, repo, none);
    scan::trim_takes_the_space_around(none, branch, none);
    scan::trim_takes_the_space_around(blank, none, none);
    assert(none + repo + none =~= repo);
    assert(none + branch + none =~= branch);
    assert(blank + none + none =~= blank);
}

proof fn events_by_name(event: DesktopNotificationEvent, other: DesktopNotificationEvent)
    ensures
        names(event_name(event), other) <==> event == other,
        !event_name(event).contains(','),
        event_name(event).len() > 3,
        !scan::is_space(event_name(event)[0]),
        !scan::is_space(event_name(event).last()),
{
    event_names_itself(event);
    if names(event_name(event), other) {
        names_differ(event, other);
    }
    reveal_strlit("stop");
    reveal_strlit("notification");
    reveal_strlit("task_completed");
    reveal_strlit("stop_failure");
    reveal_strlit("permission_denied");
    let name = event_name(event);
    assert forall|i: int| 0 <= i < name.len() implies name[i] != ',' by {}
}

proof fn joined_ends(list: Seq<Seq<char>>)
    requires
        list.len() > 0,
        forall|i: int| 0 <= i < list.len() ==> (#[trigger] list[i]).len() > 3,
    ensures
        cut::joined(list, seq![',']).len() > 3,
        cut::joined(list, seq![','])[0] == list[0][0],
        cut::joined(list, seq![',']).last() == list.last().last(),
    decreases list.len(),
{
    if list.len() > 1 {
        let rest = list.drop_last();
        assert forall|i: int| 0 <= i < rest.len() implies (#[trigger] rest[i]).len() > 3 by {
            assert(list[i].len() > 3);
        }
        joined_ends(rest);
        assert(list.last().len() > 3);
    } else {
        assert(list[0].len() > 3);
        assert(list[0] == list.last());
    }
}

/// The events that are listed by name are those that are asked for. Nothing listed asks
/// for none, and where nothing is set all are asked for but completed tasks.
pub proof fn listed_events_are_asked_for(
    list: Seq<DesktopNotificationEvent>,
    event: DesktopNotificationEvent,
    opts: Map<Seq<char>, Seq<char>>,
)
    requires
        list.len() > 0,
        opts.dom().contains("@sidebar_notifications_events"@),
        opts["@sidebar_notifications_events"@] == cut::joined(
            list.map_values(|item: DesktopNotificationEvent| event_name(item)),
            seq![','],
        ),
    ensures
        events_given(opts).contains(event) <==> list.contains(event),
        !asked_events(Seq::<char>::empty()).contains(event),
        asked_events("all"@).contains(event),
        events_given(Map::<Seq<char>, Seq<char>>::empty()).contains(event) <==> event
            !is TaskCompleted,
{
    let words = list.map_values(|item: DesktopNotificationEvent| event_name(item));
    let raw = cut::joined(words, seq![',']);
    assert forall|i: int| 0 <= i < words.len() implies !(#[trigger] words[i]).contains(',')
        && words[i].len() > 3 && !scan::is_space(words[i][0]) && !scan::is_space(
        words[i].last(),
    ) by {
        events_by_name(list[i], event);
    }
    cut::joined_pieces_come_apart(words, ',');
    joined_ends(words);
    let none = Seq::<char>::empty();
    assert(words[0].len() > 3 && words[words.len() - 1].len() > 3);
    scan::trim_takes_the_space_around(none, raw, none);
    assert(none + raw + none =~= raw);
    reveal_strlit("all");
    assert("all"@.len() == 3);
    assert(scan::lower_of(raw).len() == raw.len());
    if list.contains(event) {
        let k = list.index_of(event);
        events_by_name(event, event);
        assert(names(words[k], event));
    }
    if listed(words, event) {
        let k = choose|k: int| 0 <= k < words.len() && names(#[trigger] words[k], event);
        events_by_name(list[k], event);
        assert(list[k] == event);
    }
    scan::trim_takes_the_space_around(none, none, none);
    assert(none + none + none =~= none);
    scan::trim_takes_the_space_around(none, "all"@, none);
    assert(none + "all"@ + none =~= "all"@);
    assert(scan::lower_of("all"@) =~= "all"@);
}

/// Notifications are on unless the option says off, and where they can be shown at all.
pub proof fn off_switches_off(opts: Map<Seq<char>, Seq<char>>)
    ensures
        !switched_on(opts, false),
        switched_on(Map::<Seq<char>, Seq<char>>::empty(), true),
        switched_on(opts.insert("@sidebar_notifications"@, "on"@), true),
        !switched_on(opts.insert("@sidebar_notifications"@, "off"@), true),
        !switched_on(opts.insert("@sidebar_notifications"@, " OFF "@), true),
{
    reveal_strlit("on");
    reveal_strlit("off");
    reveal_strlit(" OFF ");
    let none = Seq::<char>::empty();
    scan::trim_takes_the_space_around(none, "on"@, none);
    scan::trim_takes_the_space_around(none, "off"@, none);
    assert(none + "on"@ + none =~= "on"@);
    assert(none + "off"@ + none =~= "off"@);
    scan::trim_takes_the_space_around(seq![' '], seq!['O', 'F', 'F'], seq![' ']);
    assert(seq![' '] + seq!['O', 'F', 'F'] + seq![' '] =~= " OFF "@);
    assert(scan::lower_of("on"@) =~= "on"@);
    assert(scan::lower_of("off"@) =~= "off"@);
    assert(scan::lower_of(seq!['O', 'F', 'F']) =~= "off"@);
    assert("on"@.len() == 2 && "off"@.len() == 3);
}

} // verus!
