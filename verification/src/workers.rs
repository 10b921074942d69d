//! What the background threads decide: which checkout to look at, and when.

use vstd::prelude::*;

use crate::git::{GitData, PrCache};
use crate::order;
use crate::state::AppState;
use crate::text;
use crate::text::owned;
use crate::textmap::TextMap;
use crate::textmap::TextSet;

verus! {

/// How often repositories are looked at, in milliseconds.
pub const GIT_POLL_MS: u64 = 2_000;

/// How often session names are looked at, in milliseconds.
pub const SESSION_POLL_MS: u64 = 10_000;

/// The thread that looks at the checkout of the focused pane.
pub struct GitPoll {
    pub last_path: Option<String>,
    pub pr_cache: PrCache,
}

/// The path that is known after a tick. While the tab is not shown nothing is
/// learned; while no pane is focused the last path stays.
pub open spec fn known_path(
    last: Option<Seq<char>>,
    active: bool,
    focused: Option<Seq<char>>,
) -> Option<Seq<char>> {
    if active && focused is Some {
        focused
    } else {
        last
    }
}

/// The path to look at in a tick.
pub open spec fn polled_path(
    last: Option<Seq<char>>,
    active: bool,
    focused: Option<Seq<char>>,
) -> Option<Seq<char>> {
    if active {
        known_path(last, active, focused)
    } else {
        None
    }
}

impl GitPoll {
    /// A thread that has not looked yet.
    pub fn new() -> (poll: Self)
        ensures
            poll.last_path is None,
            poll.pr_cache@ is None,
    {
        GitPoll { last_path: None, pr_cache: PrCache::new() }
    }

    /// The path to look at. When the sidebar has focus there is no focused pane: the
    /// last known path is used again, so git data keeps updating. While the tab is
    /// not visible nothing is looked at.
    pub fn tick(&mut self, active: bool, focused: Option<String>) -> (path: Option<String>)
        ensures
            text::opt(path) == polled_path(
                text::opt(old(self).last_path),
                active,
                text::opt(focused),
            ),
            text::opt(final(self).last_path) == known_path(
                text::opt(old(self).last_path),
                active,
                text::opt(focused),
            ),
            final(self).pr_cache == old(self).pr_cache,
    {
        if !active {
            return None;
        }
        if focused.is_some() {
            self.last_path = focused;
        }
        self.last_path.clone()
    }
}

/// Git data with the number of the pull request.
pub fn with_pr_number(data: GitData, pr_number: Option<String>) -> (result: GitData)
    ensures
        result == (GitData { pr_number, ..data }),
{
    let mut result = data;
    result.pr_number = pr_number;
    result
}

/// The paths of repositories to look at: those of all panes there have been, each
/// once, in order. Paths are only added; this makes a just-closed pane still
/// reviewable.
pub struct PathHistory {
    pub paths: TextSet,
}

impl PathHistory {
    /// No path.
    pub fn new() -> (history: Self)
        ensures
            history.paths@ == Set::<Seq<char>>::empty(),
            history.paths.wf(),
    {
        PathHistory { paths: TextSet::new() }
    }

    /// Adds the path of a pane.
    pub fn add_path(&mut self, path: &str)
        ensures
            final(self).paths@ == old(self).paths@.insert(path@),
            old(self).paths.wf() ==> final(self).paths.wf(),
    {
        self.paths.insert(owned(path));
    }

    /// The paths to look at in a tick, in order: none while the tab is not visible.
    pub fn tick(&self, active: bool) -> (paths: Option<Vec<String>>)
        ensures
            match paths {
                Some(list) => {
                    &&& active
                    &&& forall|path: Seq<char>| #[trigger]
                        text::texts(list@).contains(path) <==> self.paths@.contains(path)
                    &&& self.paths.wf() ==> forall|i: int, j: int|
                        0 <= i < j < list@.len() ==> order::precedes(
                            #[trigger] list@[i]@,
                            #[trigger] list@[j]@,
                        )
                },
                None => !active,
            },
    {
        if active {
            Some(self.paths.to_list())
        } else {
            None
        }
    }
}

/// The state before the event loop starts: session names are there, so that
/// `/rename` labels render on the first frame.
pub fn init_state(tmux_pane: String, show_ports: bool, names: TextMap<String>) -> (state: AppState)
    ensures
        state.tmux_pane == tmux_pane,
        state.show_ports == show_ports,
        state.sessions.names == names,
        state.sessions.dirty,
        state.repo_groups@.len() == 0,
        state.focus_state.fresh(),
        state.layout.blank(),
        state.activity.fresh(),
        state.popup is Closed,
        state.git.blank(),
        state.vcs_entries@.len() == 0,
{
    let mut state = AppState::new(tmux_pane);
    state.show_ports = show_ports;
    state.sessions.names = names;
    state.sessions.dirty = true;
    state
}

/// A pane without focus does not make the thread forget the path.
pub proof fn a_lost_focus_keeps_the_path(last: Option<Seq<char>>, active: bool)
    ensures
        known_path(last, active, None) == last,
        polled_path(last, true, None) == last,
{
}

/// No path is ever forgotten.
pub proof fn paths_are_only_added(paths: Set<Seq<char>>, path: Seq<char>, known: Seq<char>)
    requires
        paths.contains(known),
    ensures
        paths.insert(path).contains(known),
        paths.insert(path).contains(path),
{
}

/// The repository of the focused pane is asked for while the panel is shown, and nothing
/// while it is not.
pub proof fn the_focused_path_is_polled(last: Option<Seq<char>>, focused: Option<Seq<char>>)
    ensures
        focused is Some ==> polled_path(last, true, focused) == focused,
        focused is Some ==> known_path(last, true, focused) == focused,
        polled_path(last, false, focused) is None,
        known_path(last, false, focused) == last,
{
}

} // verus!
