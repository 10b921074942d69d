//! The commands that tmux is given, and what becomes of its answers.

use vstd::prelude::*;

use crate::bytes;
use crate::bytes::lossy;
use crate::cut;
use crate::cut::words;
use crate::scan;
use crate::scan::trim;
use crate::text;
use crate::text::{concat2, owned};

verus! {

/// What tmux printed, where it succeeded.
pub fn run_tmux(success: bool, stdout: &[u8]) -> (output: Option<String>)
    ensures
        text::opt(output) == if success {
            Some(bytes::lossy_text(stdout@))
        } else {
            None
        },
{
    if success {
        Some(lossy(stdout))
    } else {
        None
    }
}

/// What tmux said: what it printed, or what it complained of.
pub open spec fn captured(
    success: bool,
    status: Seq<char>,
    stdout: Seq<char>,
    stderr: Seq<char>,
) -> Result<Seq<char>, Seq<char>> {
    if success {
        Ok(scan::trim_of(stdout))
    } else if scan::trim_of(stderr).len() == 0 {
        Err("tmux exited with status "@ + status)
    } else {
        Err(scan::trim_of(stderr))
    }
}

/// The model of what tmux said.
pub open spec fn said(reply: Result<String, String>) -> Result<Seq<char>, Seq<char>> {
    match reply {
        Ok(output) => Ok(output@),
        Err(message) => Err(message@),
    }
}

/// What tmux said, from texts.
pub fn capture(success: bool, status: &str, stdout: &str, stderr: &str) -> (reply: Result<
    String,
    String,
>)
    ensures
        said(reply) == captured(success, status@, stdout@, stderr@),
{
    if success {
        Ok(trim(stdout))
    } else {
        let complaint = trim(stderr);
        if complaint.as_str().is_empty() {
            Err(concat2("tmux exited with status ", status))
        } else {
            Err(complaint)
        }
    }
}

/// Trimmed stdout on success and stderr on failure. Used by the spawn/remove flow so
/// the UI can surface a meaningful error message instead of a silent fallthrough.
pub fn run_tmux_capture(success: bool, status: &str, stdout: &[u8], stderr: &[u8]) -> (reply: Result<
    String,
    String,
>)
    ensures
        said(reply) == captured(
            success,
            status@,
            bytes::lossy_text(stdout@),
            bytes::lossy_text(stderr@),
        ),
{
    capture(success, status, lossy(stdout).as_str(), lossy(stderr).as_str())
}

// Questions.

/// The question that [`display_message`] reads the answer of.
pub fn display_message_args(target: &str, format: &str) -> (args: Vec<String>)
    ensures
        text::texts(args@) == seq!["display-message"@, "-t"@, target@, "-p"@, format@],
{
    let mut args: Vec<String> = Vec::new();
    args.push(owned("display-message"));
    args.push(owned("-t"));
    args.push(owned(target));
    args.push(owned("-p"));
    args.push(owned(format));
    proof {
        assert(text::texts(args@) =~= seq!["display-message"@, "-t"@, target@, "-p"@, format@]);
    }
    args
}

/// What tmux displays.
pub open spec fn displayed(answer: Option<Seq<char>>) -> Seq<char> {
    match answer {
        Some(output) => scan::trim_of(output),
        None => Seq::<char>::empty(),
    }
}

/// What tmux displays; nothing where it failed.
pub fn display_message(answer: Option<&str>) -> (message: String)
    ensures
        message@ == displayed(text::opt_ref(answer)),
{
    match answer {
        Some(output) => trim(output),
        None => String::new(),
    }
}

/// The session name containing a pane, from the answer to `#{session_name}`. `None`
/// when tmux can't find the pane (e.g. it has just been closed).
pub fn pane_session_name(answer: Option<&str>) -> (name: Option<String>)
    ensures
        text::opt(name) == if displayed(text::opt_ref(answer)).len() > 0 {
            Some(displayed(text::opt_ref(answer)))
        } else {
            None
        },
{
    let name = display_message(answer);
    if name.as_str().is_empty() {
        None
    } else {
        Some(name)
    }
}

// Windows.

/// The command that creates a new tmux window in `session` whose initial cwd is
/// `cwd` and whose title is `name`.
pub fn new_window_args(session: &str, cwd: &str, name: &str) -> (args: Vec<String>)
    ensures
        text::texts(args@) == seq![
            "new-window"@,
            "-t"@,
            session@,
            "-c"@,
            cwd@,
            "-n"@,
            name@,
            "-P"@,
            "-F"@,
            "#{pane_id} #{window_id}"@,
        ],
{
    let mut args: Vec<String> = Vec::new();
    args.push(owned("new-window"));
    args.push(owned("-t"));
    args.push(owned(session));
    args.push(owned("-c"));
    args.push(owned(cwd));
    args.push(owned("-n"));
    args.push(owned(name));
    args.push(owned("-P"));
    args.push(owned("-F"));
    args.push(owned("#{pane_id} #{window_id}"));
    proof {
        assert(text::texts(args@) =~= seq![
            "new-window"@,
            "-t"@,
            session@,
            "-c"@,
            cwd@,
            "-n"@,
            name@,
            "-P"@,
            "-F"@,
            "#{pane_id} #{window_id}"@,
        ]);
    }
    args
}

/// The pane and the window that an answer names, or what is wrong.
pub open spec fn created(reply: Result<Seq<char>, Seq<char>>) -> Result<
    (Seq<char>, Seq<char>),
    Seq<char>,
> {
    match reply {
        Ok(output) => {
            let parts = cut::words_of(output);
            if parts.len() == 0 {
                Err("new-window returned no pane id"@)
            } else if parts.len() == 1 {
                Err("new-window returned no window id"@)
            } else {
                Ok((parts[0], parts[1]))
            }
        },
        Err(message) => Err(message),
    }
}

/// `(pane_id, window_id)` of a window that was created: the window id
/// is used by the spawn flow to set markers at window scope so split panes
/// (e.g. subagents) inherit them.
pub fn new_window(reply: Result<String, String>) -> (ids: Result<(String, String), String>)
    ensures
        match ids {
            Ok(pair) => created(said(reply)) == Ok::<(Seq<char>, Seq<char>), Seq<char>>(
                (pair.0@, pair.1@),
            ),
            Err(message) => created(said(reply)) == Err::<(Seq<char>, Seq<char>), Seq<char>>(
                message@,
            ),
        },
{
    match reply {
        Ok(output) => {
            let parts = words(output.as_str());
            let ghost all = cut::words_of(output@);
            proof {
                assert(all == text::texts(parts@));
                assert(all.len() == parts@.len());
            }
            if parts.len() == 0 {
                return Err(owned("new-window returned no pane id"));
            }
            if parts.len() == 1 {
                return Err(owned("new-window returned no window id"));
            }
            proof {
                assert(all[0] == parts@[0]@ && all[1] == parts@[1]@);
            }
            Ok((owned(parts[0].as_str()), owned(parts[1].as_str())))
        },
        Err(message) => Err(message),
    }
}

/// The command that sets a user option at window scope. Needed so markers survive
/// through split panes that inherit from the window. Its error lets the
/// spawn flow roll back when a marker the remove path relies on
/// cannot be written — silently dropping the failure would leave an
/// un-removable pane.
pub fn set_window_option(window: &str, key: &str, value: &str) -> (args: Vec<String>)
    ensures
        text::texts(args@) == seq!["set"@, "-w"@, "-t"@, window@, key@, value@],
{
    let mut args: Vec<String> = Vec::new();
    args.push(owned("set"));
    args.push(owned("-w"));
    args.push(owned("-t"));
    args.push(owned(window));
    args.push(owned(key));
    args.push(owned(value));
    proof {
        assert(text::texts(args@) =~= seq!["set"@, "-w"@, "-t"@, window@, key@, value@]);
    }
    args
}

/// The models of commands.
pub open spec fn commands(list: Seq<Vec<String>>) -> Seq<Seq<Seq<char>>> {
    list.map_values(|args: Vec<String>| text::texts(args@))
}

/// How far a command line has been sent.
#[derive(Debug)]
pub enum Sent {
    Nothing,
    /// The text was sent, with what tmux said to it.
    Typed(Result<String, String>),
    /// Enter was sent, with what tmux said to it.
    Pressed(Result<String, String>),
}

/// What is to be done to send a command line.
#[derive(Debug)]
pub enum SendStep {
    /// Send the text.
    Type(Vec<String>),
    /// Send Enter.
    Press(Vec<String>),
    /// It is sent, or cannot be.
    Done(Result<(), String>),
}

/// The model of what is to be done.
pub enum SendModel {
    Type(Seq<Seq<char>>),
    Press(Seq<Seq<char>>),
    Done(Result<(), Seq<char>>),
}

impl View for SendStep {
    type V = SendModel;

    open spec fn view(&self) -> SendModel {
        match *self {
            SendStep::Type(args) => SendModel::Type(text::texts(args@)),
            SendStep::Press(args) => SendModel::Press(text::texts(args@)),
            SendStep::Done(Ok(_)) => SendModel::Done(Ok::<(), Seq<char>>(())),
            SendStep::Done(Err(message)) => SendModel::Done(Err::<(), Seq<char>>(message@)),
        }
    }
}

/// What is to be done to send a command line, by what was done so far.
pub open spec fn send_step(target: Seq<char>, command: Seq<char>, sent: Sent) -> SendModel {
    match sent {
        Sent::Nothing => SendModel::Type(seq!["send-keys"@, "-t"@, target, "-l"@, command]),
        Sent::Typed(Ok(_)) => SendModel::Press(seq!["send-keys"@, "-t"@, target, "Enter"@]),
        Sent::Typed(Err(message)) => SendModel::Done(Err::<(), Seq<char>>(message@)),
        Sent::Pressed(Ok(_)) => SendModel::Done(Ok::<(), Seq<char>>(())),
        Sent::Pressed(Err(message)) => SendModel::Done(Err::<(), Seq<char>>(message@)),
    }
}

fn typing_args(target: &str, command: &str) -> (args: Vec<String>)
    ensures
        text::texts(args@) == seq!["send-keys"@, "-t"@, target@, "-l"@, command@],
{
    let mut args: Vec<String> = Vec::new();
    args.push(owned("send-keys"));
    args.push(owned("-t"));
    args.push(owned(target));
    args.push(owned("-l"));
    args.push(owned(command));
    proof {
        assert(text::texts(args@) =~= seq!["send-keys"@, "-t"@, target@, "-l"@, command@]);
    }
    args
}

fn enter_args(target: &str) -> (args: Vec<String>)
    ensures
        text::texts(args@) == seq!["send-keys"@, "-t"@, target@, "Enter"@],
{
    let mut args: Vec<String> = Vec::new();
    args.push(owned("send-keys"));
    args.push(owned("-t"));
    args.push(owned(target));
    args.push(owned("Enter"));
    proof {
        assert(text::texts(args@) =~= seq!["send-keys"@, "-t"@, target@, "Enter"@]);
    }
    args
}

/// Sends a command line to `target` (a pane id) and presses Enter so the shell
/// executes it: tells the next step, by what was done so far. Used to launch the agent
/// binary right after window creation. The text is sent with `-l` (literal) so nothing
/// in `command` can collide with tmux key names (e.g. `Tab`, `BSpace`); Enter is issued
/// as a separate invocation so it's interpreted as the Return key, and only where the
/// text arrived.
pub fn send_command(target: &str, command: &str, sent: Sent) -> (step: SendStep)
    ensures
        step@ == send_step(target@, command@, sent),
{
    match sent {
        Sent::Nothing => SendStep::Type(typing_args(target, command)),
        Sent::Typed(Ok(_)) => SendStep::Press(enter_args(target)),
        Sent::Typed(Err(message)) => SendStep::Done(Err(message)),
        Sent::Pressed(Ok(_)) => SendStep::Done(Ok(())),
        Sent::Pressed(Err(message)) => SendStep::Done(Err(message)),
    }
}

/// Enter is sent only behind a text that arrived; the first complaint is the outcome,
/// and there is none where both arrived.
pub proof fn enter_follows_the_text(
    target: Seq<char>,
    command: Seq<char>,
    typed: Result<String, String>,
    pressed: Result<String, String>,
)
    ensures
        send_step(target, command, Sent::Typed(typed)) is Press <==> typed is Ok,
        typed matches Err(message) ==> send_step(target, command, Sent::Typed(typed))
            == SendModel::Done(Err::<(), Seq<char>>(message@)),
        send_step(target, command, Sent::Pressed(pressed)) == SendModel::Done(
            match pressed {
                Ok(_) => Ok::<(), Seq<char>>(()),
                Err(message) => Err::<(), Seq<char>>(message@),
            },
        ),
{
}

fn target_command(name: &str, target: &str) -> (args: Vec<String>)
    ensures
        text::texts(args@) == seq![name@, "-t"@, target@],
{
    let mut args: Vec<String> = Vec::new();
    args.push(owned(name));
    args.push(owned("-t"));
    args.push(owned(target));
    proof {
        assert(text::texts(args@) =~= seq![name@, "-t"@, target@]);
    }
    args
}

/// The command that kills the tmux window identified by `window_id` (e.g. `@7`).
pub fn kill_window(window_id: &str) -> (args: Vec<String>)
    ensures
        text::texts(args@) == seq!["kill-window"@, "-t"@, window_id@],
{
    target_command("kill-window", window_id)
}

/// A command, where it has a target.
pub open spec fn towards(name: Seq<char>, target: Seq<char>) -> Seq<Seq<Seq<char>>> {
    if target.len() > 0 {
        seq![seq![name, "-t"@, target]]
    } else {
        Seq::empty()
    }
}

fn push_towards(list: &mut Vec<Vec<String>>, name: &str, target: &str)
    ensures
        commands(final(list)@) == commands(old(list)@) + towards(name@, target@),
{
    let ghost before = commands(list@);
    if !target.is_empty() {
        let args = target_command(name, target);
        let ghost model = text::texts(args@);
        list.push(args);
        proof {
            assert(commands(list@) =~= before.push(model));
            assert(commands(list@) =~= before + towards(name@, target@));
        }
    } else {
        proof {
            assert(commands(list@) =~= before + towards(name@, target@));
        }
    }
}

/// The commands that bring a pane to the front: first the session that contains it,
/// then the window, then the pane. A session or window that is not known is passed
/// over.
pub fn select_pane(pane_id: &str, session_id: &str, window_id: &str) -> (list: Vec<Vec<String>>)
    ensures
        commands(list@) == towards("switch-client"@, session_id@) + towards(
            "select-window"@,
            window_id@,
        ) + seq![seq!["select-pane"@, "-t"@, pane_id@]],
{
    let mut list: Vec<Vec<String>> = Vec::new();
    proof {
        assert(commands(list@) =~= Seq::empty());
    }
    push_towards(&mut list, "switch-client", session_id);
    push_towards(&mut list, "select-window", window_id);
    let ghost before = commands(list@);
    let args = target_command("select-pane", pane_id);
    let ghost model = text::texts(args@);
    list.push(args);
    proof {
        assert(commands(list@) =~= before.push(model));
        assert(commands(list@) =~= towards("switch-client"@, session_id@) + towards(
            "select-window"@,
            window_id@,
        ) + seq![seq!["select-pane"@, "-t"@, pane_id@]]);
    }
    list
}

/// A new window is known by the pane and the window that tmux names, in this order; where
/// one of them is not named, it is an error.
pub proof fn a_new_window_is_named(pane: Seq<char>, window: Seq<char>, message: Seq<char>)
    requires
        pane.len() > 0 && window.len() > 0,
        forall|i: int| 0 <= i < pane.len() ==> !scan::is_space(#[trigger] pane[i]),
        forall|i: int| 0 <= i < window.len() ==> !scan::is_space(#[trigger] window[i]),
    ensures
        created(Ok(pane.push(' ') + window)) == Ok::<(Seq<char>, Seq<char>), Seq<char>>(
            (pane, window),
        ),
        created(Ok(pane)) is Err,
        created(Err(message)) == Err::<(Seq<char>, Seq<char>), Seq<char>>(message),
{
    let two = seq![pane, window];
    reveal_with_fuel(cut::joined, 3);
    assert(two.drop_last() =~= seq![pane]);
    assert(cut::joined(two, seq![' ']) =~= pane.push(' ') + window);
    assert forall|i: int, k: int| 0 <= i < two.len() && 0 <= k < two[i].len() implies !scan::is_space(
        #[trigger] two[i][k],
    ) by {
        if i == 0 {
            assert(!scan::is_space(pane[k]));
        } else {
            assert(!scan::is_space(window[k]));
        }
    }
    cut::written_words_are_read(two);
    let one = seq![pane];
    assert(one.drop_last() =~= Seq::<Seq<char>>::empty());
    assert(cut::joined(one, seq![' ']) =~= pane);
    assert forall|i: int, k: int| 0 <= i < one.len() && 0 <= k < one[i].len() implies !scan::is_space(
        #[trigger] one[i][k],
    ) by {
        assert(!scan::is_space(pane[k]));
    }
    cut::written_words_are_read(one);
}

/// A command that succeeds gives what it printed, without the space around it; one that
/// fails gives its complaint, and without one its status.
pub proof fn replies_are_what_was_printed(
    before: Seq<char>,
    text: Seq<char>,
    after: Seq<char>,
    status: Seq<char>,
    other: Seq<char>,
)
    requires
        forall|i: int| 0 <= i < before.len() ==> scan::is_space(#[trigger] before[i]),
        forall|i: int| 0 <= i < after.len() ==> scan::is_space(#[trigger] after[i]),
        text.len() > 0 && !scan::is_space(text[0]) && !scan::is_space(text.last()),
    ensures
        captured(true, status, before + text + after, other) == Ok::<Seq<char>, Seq<char>>(text),
        captured(false, status, other, before + text + after) == Err::<Seq<char>, Seq<char>>(text),
        captured(false, status, other, before) == Err::<Seq<char>, Seq<char>>(
            "tmux exited with status "@ + status,
        ),
        displayed(Some(before + text + after)) == text,
        displayed(None).len() == 0,
{
    let none = Seq::<char>::empty();
    scan::trim_takes_the_space_around(before, text, after);
    scan::trim_takes_the_space_around(before, none, none);
    assert(before + none + none =~= before);
}

} // verus!
