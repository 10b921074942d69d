//! What collectors said of panes, and how it is unfolded.

use vstd::prelude::*;
use vstd::string::StringExecFns;

use crate::assoc::{Assoc, AssocKey};
use crate::extension;
use crate::extension::{unknown, Detail, ExtensionsConfig, Inspection, PlannedCall, Reply};
use crate::state::layout::SubagentTarget;
use crate::text;
use crate::text::{borrowed, concat2, owned, same, same_opt};
use crate::textmap::TextSet;

verus! {

/// A frame target is identified by collector data, never by a rendered label
/// or a row number. Duplicate agent/capability labels are therefore harmless.
#[derive(Debug, PartialEq, Eq)]
pub struct TreeTarget {
    pub parent_pane_id: String,
    pub provider_id: String,
    pub session_id: Option<String>,
    pub agent_id: String,
    pub node_id: String,
    pub detail_token: Option<String>,
    pub inline_detail: Option<String>,
    pub is_disclosure: bool,
}

/// The model of a target.
pub struct TargetModel {
    pub parent_pane_id: Seq<char>,
    pub provider_id: Seq<char>,
    pub session_id: Option<Seq<char>>,
    pub agent_id: Seq<char>,
    pub node_id: Seq<char>,
    pub detail_token: Option<Seq<char>>,
    pub inline_detail: Option<Seq<char>>,
    pub is_disclosure: bool,
}

impl View for TreeTarget {
    type V = TargetModel;

    open spec fn view(&self) -> TargetModel {
        TargetModel {
            parent_pane_id: self.parent_pane_id@,
            provider_id: self.provider_id@,
            session_id: text::opt(self.session_id),
            agent_id: self.agent_id@,
            node_id: self.node_id@,
            detail_token: text::opt(self.detail_token),
            inline_detail: text::opt(self.inline_detail),
            is_disclosure: self.is_disclosure,
        }
    }
}

impl Clone for TreeTarget {
    fn clone(&self) -> (copy: Self)
        ensures
            copy == *self,
    {
        TreeTarget {
            parent_pane_id: self.parent_pane_id.clone(),
            provider_id: self.provider_id.clone(),
            session_id: self.session_id.clone(),
            agent_id: self.agent_id.clone(),
            node_id: self.node_id.clone(),
            detail_token: self.detail_token.clone(),
            inline_detail: self.inline_detail.clone(),
            is_disclosure: self.is_disclosure,
        }
    }
}

impl TreeTarget {
    /// Whether two targets are the same.
    pub fn same_target(&self, other: &TreeTarget) -> (yes: bool)
        ensures
            yes == (self@ == other@),
    {
        same(self.parent_pane_id.as_str(), other.parent_pane_id.as_str()) && same(
            self.provider_id.as_str(),
            other.provider_id.as_str(),
        ) && same_opt(&self.session_id, &other.session_id) && same(
            self.agent_id.as_str(),
            other.agent_id.as_str(),
        ) && same(self.node_id.as_str(), other.node_id.as_str()) && same_opt(
            &self.detail_token,
            &other.detail_token,
        ) && same_opt(&self.inline_detail, &other.inline_detail) && self.is_disclosure
            == other.is_disclosure
    }
}

/// A text that takes over the sidebar.
#[derive(Debug)]
pub struct DetailView {
    pub title: String,
    pub source: String,
    pub text: String,
    pub scroll: usize,
    pub previous_selection: Option<TreeTarget>,
    pub previous_pane_scroll: usize,
}

/// The transcript that takes over the sidebar, or the one that is awaited.
#[derive(Debug)]
pub struct TranscriptState {
    pub view: Option<DetailView>,
    pub loading: Option<SubagentTarget>,
}

pub struct CapabilityUiState {
    pub expanded: TextSet,
    pub selected: Option<TreeTarget>,
    pub detail: Option<DetailView>,
    pub transcript: TranscriptState,
}

/// The name of a node of a pane.
pub open spec fn node_key(pane_id: Seq<char>, node_id: Seq<char>) -> Seq<char> {
    pane_id + ":"@ + node_id
}

impl Default for CapabilityUiState {
    fn default() -> (ui: Self)
        ensures
            ui.blank(),
    {
        CapabilityUiState {
            expanded: TextSet::new(),
            selected: None,
            detail: None,
            transcript: TranscriptState { view: None, loading: None },
        }
    }
}

impl CapabilityUiState {
    /// Whether nothing is unfolded or selected.
    pub open spec fn blank(&self) -> bool {
        &&& self.expanded@ == Set::<Seq<char>>::empty()
        &&& self.selected is None
        &&& self.detail is None
        &&& self.transcript.view is None
        &&& self.transcript.loading is None
    }

    /// The name of a node of a pane.
    pub fn key(pane_id: &str, node_id: &str) -> (key: String)
        ensures
            key@ == node_key(pane_id@, node_id@),
    {
        let mut key = concat2(pane_id, ":");
        key.append(node_id);
        key
    }

    /// Whether a node is unfolded.
    pub open spec fn shows(&self, pane_id: Seq<char>, node_id: Seq<char>) -> bool {
        self.expanded@.contains(node_key(pane_id, node_id))
    }

    /// Whether a node is unfolded.
    pub fn is_expanded(&self, pane_id: &str, node_id: &str) -> (yes: bool)
        ensures
            yes == self.shows(pane_id@, node_id@),
    {
        self.expanded.contains(Self::key(pane_id, node_id).as_str())
    }

    /// Unfolds a node, or folds it up, and selects it.
    pub fn toggle(&mut self, target: &TreeTarget)
        ensures
            final(self).expanded@ == toggled(
                old(self).expanded@,
                node_key(target.parent_pane_id@, target.node_id@),
            ),
            final(self).selected == Some(*target),
            final(self).detail == old(self).detail,
            final(self).transcript == old(self).transcript,
    {
        let key = Self::key(target.parent_pane_id.as_str(), target.node_id.as_str());
        if self.expanded.contains(key.as_str()) {
            self.expanded.remove(key.as_str());
        } else {
            self.expanded.insert(key);
        }
        self.selected = Some(target.clone());
    }
}

/// A set with a member taken away where it is in it, and else added.
pub open spec fn toggled(set: Set<Seq<char>>, member: Seq<char>) -> Set<Seq<char>> {
    if set.contains(member) {
        set.remove(member)
    } else {
        set.insert(member)
    }
}

/// Unfolding a node and folding it up again leaves every node as it was.
pub proof fn toggle_twice_restores(set: Set<Seq<char>>, member: Seq<char>)
    ensures
        toggled(toggled(set, member), member) == set,
{
    assert(toggled(toggled(set, member), member) =~= set);
}

/// Two nodes of one pane have names of their own.
pub proof fn nodes_have_their_own_key(pane_id: Seq<char>, first: Seq<char>, second: Seq<char>)
    requires
        node_key(pane_id, first) == node_key(pane_id, second),
    ensures
        first == second,
{
    let head = pane_id + ":"@;
    assert(first =~= node_key(pane_id, first).skip(head.len() as int));
    assert(second =~= node_key(pane_id, second).skip(head.len() as int));
}

/// Nodes of two panes have names of their own, since no id of a pane holds a colon.
pub proof fn panes_have_their_own_keys(
    first_pane: Seq<char>,
    first: Seq<char>,
    second_pane: Seq<char>,
    second: Seq<char>,
)
    requires
        !first_pane.contains(':'),
        !second_pane.contains(':'),
        node_key(first_pane, first) == node_key(second_pane, second),
    ensures
        first_pane == second_pane,
        first == second,
{
    reveal_strlit(":");
    let one = node_key(first_pane, first);
    let other = node_key(second_pane, second);
    assert(one[first_pane.len() as int] == ':');
    assert(other[second_pane.len() as int] == ':');
    if first_pane.len() < second_pane.len() {
        assert(other[first_pane.len() as int] == second_pane[first_pane.len() as int]);
        assert(second_pane.contains(':'));
    }
    if second_pane.len() < first_pane.len() {
        assert(one[second_pane.len() as int] == first_pane[second_pane.len() as int]);
        assert(first_pane.contains(':'));
    }
    assert(first_pane =~= one.take(first_pane.len() as int));
    assert(second_pane =~= other.take(second_pane.len() as int));
    nodes_have_their_own_key(first_pane, first, second);
}

/// Under which an inspection is kept: a session of a pane, as one provider sees
/// it.
#[derive(Debug, PartialEq, Eq)]
pub struct CacheKey {
    pub provider: String,
    pub pane_id: String,
    pub session_id: Option<String>,
}

/// The model of a cache key.
pub struct KeyModel {
    pub provider: Seq<char>,
    pub pane_id: Seq<char>,
    pub session_id: Option<Seq<char>>,
}

impl CacheKey {
    pub fn new(provider: &str, pane_id: &str, session_id: Option<&str>) -> (key: Self)
        ensures
            key.model() == (KeyModel {
                provider: provider@,
                pane_id: pane_id@,
                session_id: text::opt_ref(session_id),
            }),
    {
        CacheKey {
            provider: owned(provider),
            pane_id: owned(pane_id),
            session_id: text::owned_opt(session_id),
        }
    }
}

impl AssocKey for CacheKey {
    type Model = KeyModel;

    open spec fn model(&self) -> KeyModel {
        KeyModel {
            provider: self.provider@,
            pane_id: self.pane_id@,
            session_id: text::opt(self.session_id),
        }
    }

    fn same_key(&self, other: &Self) -> (same: bool) {
        text::same(self.provider.as_str(), other.provider.as_str()) && text::same(
            self.pane_id.as_str(),
            other.pane_id.as_str(),
        ) && same_opt(&self.session_id, &other.session_id)
    }
}

impl Clone for CacheKey {
    fn clone(&self) -> (copy: Self)
        ensures
            copy == *self,
    {
        CacheKey {
            provider: self.provider.clone(),
            pane_id: self.pane_id.clone(),
            session_id: self.session_id.clone(),
        }
    }
}

/// What a worker is asked.
pub enum WorkerRequest {
    Inspect { key: CacheKey, cwd: Option<String> },
    Detail {
        target: TreeTarget,
        session_id: Option<String>,
        cwd: Option<String>,
        previous_pane_scroll: usize,
    },
    Activate { target: SubagentTarget, session_id: Option<String>, cwd: Option<String> },
}

/// What a worker answers.
pub enum WorkerResult {
    Inspect { key: CacheKey, result: Result<Reply, String> },
    Detail {
        target: TreeTarget,
        previous_pane_scroll: usize,
        result: Result<Detail, String>,
    },
    Activate { result: Result<Reply, String> },
}

/// What became of a request that was put into a queue.
#[derive(Debug, Clone, Copy, PartialEq, Eq, Structural)]
pub enum SendOutcome {
    Sent,
    Full,
    Disconnected,
}

/// How often panes are inspected at most, in milliseconds.
pub const REFRESH_MS: u64 = 2000;

pub struct ExtensionsState {
    pub config: Option<ExtensionsConfig>,
    pub config_error: Option<String>,
    pub config_mtime: Option<u64>,
    pub cache: Assoc<CacheKey, Inspection>,
    pub in_flight: Assoc<CacheKey, ()>,
    /// When the panes were last inspected, in milliseconds.
    pub last_refresh: Option<u64>,
    pub ui: CapabilityUiState,
}

/// The models of inspections, by key.
pub open spec fn cached(cache: Map<KeyModel, Inspection>) -> Map<
    KeyModel,
    extension::InspectionModel,
> {
    cache.map_values(|inspection: Inspection| inspection@)
}

/// A notice about collectors.
pub open spec fn notice(error: Seq<char>) -> Seq<char> {
    "extensions: "@ + error
}

/// The inspections once an inspection was answered. A failure marks what is
/// known as stale.
pub open spec fn answered(
    before: Map<KeyModel, extension::InspectionModel>,
    key: KeyModel,
    result: Result<Reply, String>,
) -> Map<KeyModel, extension::InspectionModel> {
    before.insert(
        key,
        match result {
            Ok(reply) => extension::InspectionModel { reply: reply@, stale: false },
            Err(error) => if before.dom().contains(key) {
                extension::InspectionModel { stale: true, ..before[key] }
            } else {
                extension::unknown_model(error@)
            },
        },
    )
}

/// What is in flight and cached, once results came.
pub open spec fn after_results(
    in_flight: Set<KeyModel>,
    cache: Map<KeyModel, extension::InspectionModel>,
    results: Seq<WorkerResult>,
) -> (Set<KeyModel>, Map<KeyModel, extension::InspectionModel>)
    decreases results.len(),
{
    if results.len() == 0 {
        (in_flight, cache)
    } else {
        let (flying, known) = after_results(in_flight, cache, results.drop_last());
        match results.last() {
            WorkerResult::Inspect { key, result } => (
                flying.remove(key.model()),
                answered(known, key.model(), result),
            ),
            _ => (flying, known),
        }
    }
}

/// A failure keeps what is known of a session and marks it as stale, so that a row
/// does not vanish because a collector was slow once. The session can be inspected
/// again.
pub proof fn a_failure_keeps_what_is_known(
    in_flight: Set<KeyModel>,
    cache: Map<KeyModel, extension::InspectionModel>,
    key: CacheKey,
    error: String,
)
    requires
        cache.dom().contains(key.model()),
    ensures
        ({
            let failed = WorkerResult::Inspect { key, result: Err(error) };
            let (flying, known) = after_results(in_flight, cache, seq![failed]);
            &&& !flying.contains(key.model())
            &&& known.dom() == cache.dom()
            &&& known[key.model()].reply == cache[key.model()].reply
            &&& known[key.model()].stale
        }),
{
    let failed = WorkerResult::Inspect { key, result: Err(error) };
    let results = seq![failed];
    assert(results.drop_last() =~= Seq::<WorkerResult>::empty());
    assert(after_results(in_flight, cache, results.drop_last()) == (in_flight, cache));
    assert(answered(cache, key.model(), Err(error)).dom() =~= cache.dom());
}

/// Whether a result is an inspection of a session.
pub open spec fn tells_of(result: WorkerResult, wanted: KeyModel) -> bool {
    result matches WorkerResult::Inspect { key, .. } && key.model() == wanted
}

/// Results of other sessions, and of other requests, leave what is known of a
/// session as it is.
pub proof fn sessions_are_told_apart(
    in_flight: Set<KeyModel>,
    cache: Map<KeyModel, extension::InspectionModel>,
    results: Seq<WorkerResult>,
    wanted: KeyModel,
)
    requires
        forall|i: int| 0 <= i < results.len() ==> !tells_of(#[trigger] results[i], wanted),
    ensures
        ({
            let (flying, known) = after_results(in_flight, cache, results);
            &&& flying.contains(wanted) == in_flight.contains(wanted)
            &&& known.dom().contains(wanted) == cache.dom().contains(wanted)
            &&& cache.dom().contains(wanted) ==> known[wanted] == cache[wanted]
        }),
    decreases results.len(),
{
    if results.len() > 0 {
        assert forall|i: int| 0 <= i < results.drop_last().len() implies !tells_of(
            #[trigger] results.drop_last()[i],
            wanted,
        ) by {
            assert(results.drop_last()[i] == results[i]);
        }
        sessions_are_told_apart(in_flight, cache, results.drop_last(), wanted);
        assert(!tells_of(results[results.len() - 1], wanted));
    }
}

impl ExtensionsState {
    /// The state before a configuration was read.
    pub fn new() -> (state: Self)
        ensures
            state.config is None,
            state.config_error is None,
            state.config_mtime is None,
            state.cache@ == Map::<KeyModel, Inspection>::empty(),
            state.in_flight@ == Map::<KeyModel, ()>::empty(),
            state.last_refresh is None,
            state.ui.blank(),
    {
        ExtensionsState {
            config: None,
            config_error: None,
            config_mtime: None,
            cache: Assoc::new(),
            in_flight: Assoc::new(),
            last_refresh: None,
            ui: CapabilityUiState::default(),
        }
    }

    /// What is known of a session of a pane.
    pub fn inspection(&self, pane_id: &str, provider: &str, session_id: Option<&str>) -> (found:
        Option<&Inspection>)
        ensures
            ({
                let key = KeyModel {
                    provider: provider@,
                    pane_id: pane_id@,
                    session_id: text::opt_ref(session_id),
                };
                match found {
                    Some(inspection) => self.cache@.dom().contains(key) && *inspection
                        == self.cache@[key],
                    None => !self.cache@.dom().contains(key),
                }
            }),
    {
        self.cache.get(&CacheKey::new(provider, pane_id, session_id))
    }

    /// Whether the panes are to be inspected now; if so, the time counts anew.
    pub fn refresh(&mut self, now_ms: u64) -> (due: bool)
        ensures
            ({
                let waited = match old(self).last_refresh {
                    Some(last) => now_ms >= last && now_ms - last >= REFRESH_MS,
                    None => true,
                };
                &&& due == (waited && old(self).config is Some)
                &&& *final(self) == (ExtensionsState {
                    last_refresh: if waited {
                        Some(now_ms)
                    } else {
                        old(self).last_refresh
                    },
                    ..*old(self)
                })
            }),
    {
        let waited = match self.last_refresh {
            Some(last) => now_ms >= last && now_ms - last >= REFRESH_MS,
            None => true,
        };
        if !waited {
            return false;
        }
        self.last_refresh = Some(now_ms);
        self.config.is_some()
    }

    /// The request that inspects a pane, unless one is in flight.
    pub fn inspect_request(
        &self,
        pane_id: &str,
        provider: &str,
        session_id: Option<&str>,
        cwd: Option<String>,
    ) -> (request: Option<WorkerRequest>)
        ensures
            ({
                let wanted = KeyModel {
                    provider: provider@,
                    pane_id: pane_id@,
                    session_id: text::opt_ref(session_id),
                };
                match request {
                    Some(WorkerRequest::Inspect { key, cwd: dir }) => {
                        &&& !self.in_flight@.dom().contains(wanted)
                        &&& key.model() == wanted
                        &&& dir == cwd
                    },
                    Some(_) => false,
                    None => self.in_flight@.dom().contains(wanted),
                }
            }),
    {
        let key = CacheKey::new(provider, pane_id, session_id);
        if self.in_flight.contains_key(&key) {
            None
        } else {
            Some(WorkerRequest::Inspect { key, cwd })
        }
    }

    /// Records what became of the request that inspects a pane.
    pub fn record_send(&mut self, key: CacheKey, outcome: SendOutcome)
        ensures
            match outcome {
                SendOutcome::Sent => final(self).in_flight@ == old(self).in_flight@.insert(
                    key.model(),
                    (),
                ) && *final(self) == (ExtensionsState {
                    in_flight: final(self).in_flight,
                    ..*old(self)
                }),
                SendOutcome::Full => text::opt(final(self).config_error) == Some(
                    notice("collector queue is full"@),
                ) && *final(self) == (ExtensionsState {
                    config_error: final(self).config_error,
                    ..*old(self)
                }),
                SendOutcome::Disconnected => text::opt(final(self).config_error) == Some(
                    notice("collector worker stopped"@),
                ) && *final(self) == (ExtensionsState {
                    config_error: final(self).config_error,
                    ..*old(self)
                }),
            },
    {
        match outcome {
            SendOutcome::Sent => {
                self.in_flight.insert(key, ());
            },
            SendOutcome::Full => self.set_notice("collector queue is full"),
            SendOutcome::Disconnected => self.set_notice("collector worker stopped"),
        }
    }

    /// The request for the detail of a capability.
    pub fn queue_detail(
        &self,
        target: TreeTarget,
        session_id: Option<String>,
        cwd: Option<String>,
        previous_pane_scroll: usize,
    ) -> (request: Result<WorkerRequest, String>)
        ensures
            match request {
                Ok(made) => self.config is Some && made == (WorkerRequest::Detail {
                    target,
                    session_id,
                    cwd,
                    previous_pane_scroll,
                }),
                Err(error) => self.config is None && error@ == "no provider collector configured"@,
            },
    {
        if self.config.is_none() {
            return Err(owned("no provider collector configured"));
        }
        Ok(WorkerRequest::Detail { target, session_id, cwd, previous_pane_scroll })
    }

    /// The request that activates a subagent.
    pub fn queue_activate(
        &self,
        target: SubagentTarget,
        session_id: Option<String>,
        cwd: Option<String>,
    ) -> (request: Result<WorkerRequest, String>)
        ensures
            match request {
                Ok(made) => self.config is Some && made == (WorkerRequest::Activate {
                    target,
                    session_id,
                    cwd,
                }),
                Err(error) => self.config is None && error@ == "no provider collector configured"@,
            },
    {
        if self.config.is_none() {
            return Err(owned("no provider collector configured"));
        }
        Ok(WorkerRequest::Activate { target, session_id, cwd })
    }

    /// Takes the results of workers in, in order, and hands them on.
    pub fn take_results(&mut self, received: Vec<WorkerResult>) -> (results: Vec<WorkerResult>)
        ensures
            results == received,
            ({
                let (flying, known) = after_results(
                    old(self).in_flight@.dom(),
                    cached(old(self).cache@),
                    received@,
                );
                &&& final(self).in_flight@.dom() == flying
                &&& cached(final(self).cache@) == known
            }),
            *final(self) == (ExtensionsState {
                in_flight: final(self).in_flight,
                cache: final(self).cache,
                ..*old(self)
            }),
    {
        let mut i: usize = 0;
        proof {
            assert(received@.take(0) =~= Seq::<WorkerResult>::empty());
        }
        while i < received.len()
            invariant
                i <= received@.len(),
                self.in_flight@.dom() == after_results(
                    old(self).in_flight@.dom(),
                    cached(old(self).cache@),
                    received@.take(i as int),
                ).0,
                cached(self.cache@) == after_results(
                    old(self).in_flight@.dom(),
                    cached(old(self).cache@),
                    received@.take(i as int),
                ).1,
                *self == (ExtensionsState {
                    in_flight: self.in_flight,
                    cache: self.cache,
                    ..*old(self)
                }),
            decreases received@.len() - i,
        {
            proof {
                assert(received@.take(i + 1).drop_last() =~= received@.take(i as int));
            }
            if let WorkerResult::Inspect { key, result } = &received[i] {
                let ghost flying = self.in_flight@;
                let ghost before = self.cache@;
                self.in_flight.remove(key);
                proof {
                    assert(self.in_flight@.dom() =~= flying.dom().remove(key.model()));
                }
                match result {
                    Ok(reply) => {
                        let fresh = Inspection { reply: reply.clone(), stale: false };
                        self.cache.insert(key.clone(), fresh);
                    },
                    Err(error) => {
                        if self.cache.contains_key(key) {
                            if let Some(previous) = self.cache.get_mut(key) {
                                previous.stale = true;
                            }
                        } else {
                            self.cache.insert(key.clone(), unknown(error.as_str()));
                        }
                    },
                }
                proof {
                    assert(cached(self.cache@) =~= answered(
                        cached(before),
                        key.model(),
                        *result,
                    ));
                }
            }
            i = i + 1;
        }
        proof {
            assert(received@.take(i as int) =~= received@);
        }
        received
    }

    /// Whether the configuration file is to be read again.
    pub fn needs_reload(&self, force: bool, mtime: Option<u64>) -> (yes: bool)
        ensures
            yes == (force || mtime != self.config_mtime),
    {
        force || mtime != self.config_mtime
    }

    /// Takes in what reading the configuration file gave. A file that cannot be
    /// used leaves a notice where it exists. Whatever is known of panes is
    /// forgotten.
    pub fn reload_config(
        &mut self,
        force: bool,
        mtime: Option<u64>,
        exists: bool,
        loaded: Result<ExtensionsConfig, String>,
    )
        ensures
            if !force && mtime == old(self).config_mtime {
                *final(self) == *old(self)
            } else {
                &&& final(self).config_mtime == mtime
                &&& final(self).cache@ == Map::<KeyModel, Inspection>::empty()
                &&& final(self).in_flight@ == Map::<KeyModel, ()>::empty()
                &&& final(self).last_refresh == old(self).last_refresh
                &&& final(self).ui == old(self).ui
                &&& match loaded {
                    Ok(config) => {
                        &&& final(self).config == Some(config)
                        &&& final(self).config_error is None
                    },
                    Err(error) => {
                        &&& final(self).config is None
                        &&& text::opt(final(self).config_error) == if exists {
                            Some(notice(error@))
                        } else {
                            None
                        }
                    },
                }
            },
    {
        if !self.needs_reload(force, mtime) {
            return;
        }
        self.config_mtime = mtime;
        self.cache.clear();
        self.in_flight.clear();
        match loaded {
            Ok(config) => {
                self.config = Some(config);
                self.config_error = None;
            },
            Err(error) => {
                self.config = None;
                if exists {
                    self.set_notice(error.as_str());
                } else {
                    self.config_error = None;
                }
            },
        }
    }

    /// Shows a notice about collectors.
    pub fn set_notice(&mut self, error: &str)
        ensures
            text::opt(final(self).config_error) == Some(notice(error@)),
            *final(self) == (ExtensionsState {
                config_error: final(self).config_error,
                ..*old(self)
            }),
    {
        self.config_error = Some(concat2("extensions: ", error));
    }
}

/// What is told of a request that was put into a queue.
pub fn queue_outcome(outcome: SendOutcome) -> (result: Result<(), String>)
    ensures
        match outcome {
            SendOutcome::Sent => result is Ok,
            SendOutcome::Full => result matches Err(error) && error@ == "collector queue is full"@,
            SendOutcome::Disconnected => result matches Err(error) && error@
                == "collector worker stopped"@,
        },
{
    match outcome {
        SendOutcome::Sent => Ok(()),
        SendOutcome::Full => Err(owned("collector queue is full")),
        SendOutcome::Disconnected => Err(owned("collector worker stopped")),
    }
}

/// The call that answers a request.
pub fn worker_call<'a>(request: &'a WorkerRequest, config: &'a ExtensionsConfig) -> (planned: Result<
    PlannedCall<'a>,
    String,
>)
    ensures
        match *request {
            WorkerRequest::Inspect { key, cwd } => extension::plans(
                planned,
                *config,
                "inspect"@,
                key.provider@,
                key.pane_id@,
                text::opt(cwd),
                text::opt(key.session_id),
                None,
            ),
            WorkerRequest::Detail { target, session_id, cwd, .. } => match target.detail_token {
                Some(token) => extension::plans(
                    planned,
                    *config,
                    "detail"@,
                    target.provider_id@,
                    target.parent_pane_id@,
                    text::opt(cwd),
                    text::opt(session_id),
                    Some(token@),
                ),
                None => planned matches Err(error) && error@
                    == "selected capability has no detail"@,
            },
            WorkerRequest::Activate { target, session_id, cwd } => extension::plans(
                planned,
                *config,
                "activate"@,
                target.provider_id@,
                target.parent_pane_id@,
                text::opt(cwd),
                text::opt(session_id),
                Some(target.agent_id@),
            ),
        },
{
    match request {
        WorkerRequest::Inspect { key, cwd } => extension::inspect_once(
            config,
            key.provider.as_str(),
            key.pane_id.as_str(),
            borrowed(cwd),
            borrowed(&key.session_id),
        ),
        WorkerRequest::Detail { target, session_id, cwd, .. } => match &target.detail_token {
            Some(token) => extension::detail(
                config,
                target.provider_id.as_str(),
                target.parent_pane_id.as_str(),
                borrowed(cwd),
                borrowed(session_id),
                token.as_str(),
            ),
            None => Err(owned("selected capability has no detail")),
        },
        WorkerRequest::Activate { target, session_id, cwd } => extension::activate(
            config,
            target.provider_id.as_str(),
            target.parent_pane_id.as_str(),
            borrowed(cwd),
            borrowed(session_id),
            target.agent_id.as_str(),
        ),
    }
}

/// The result that a worker hands back, once its call is answered.
pub fn worker_result(request: WorkerRequest, answer: Result<Reply, String>) -> (result:
    WorkerResult)
    ensures
        match (request, result) {
            (
                WorkerRequest::Inspect { key, .. },
                WorkerResult::Inspect { key: answered_key, result },
            ) => answered_key == key && result == answer,
            (
                WorkerRequest::Detail { target, previous_pane_scroll, .. },
                WorkerResult::Detail { target: shown, previous_pane_scroll: scroll, result },
            ) => {
                &&& shown == target
                &&& scroll == previous_pane_scroll
                &&& match (answer, result) {
                    (Ok(reply), Ok(found)) => reply.detail == Some(found),
                    (Ok(reply), Err(error)) => reply.detail is None && error@
                        == "collector returned no detail"@,
                    (Err(cause), Err(error)) => error == cause,
                    (Err(_), Ok(_)) => false,
                }
            },
            (WorkerRequest::Activate { .. }, WorkerResult::Activate { result }) => result == answer,
            _ => false,
        },
{
    match request {
        WorkerRequest::Inspect { key, .. } => WorkerResult::Inspect { key, result: answer },
        WorkerRequest::Detail { target, previous_pane_scroll, .. } => WorkerResult::Detail {
            target,
            previous_pane_scroll,
            result: extension::detail_answer(answer),
        },
        WorkerRequest::Activate { .. } => WorkerResult::Activate { result: answer },
    }
}

/// An answer is kept under its key as it came, the question is no longer open, and the last
/// answer counts.
pub proof fn an_answer_is_kept(
    in_flight: Set<KeyModel>,
    cache: Map<KeyModel, extension::InspectionModel>,
    results: Seq<WorkerResult>,
    key: CacheKey,
    reply: Reply,
)
    ensures
        ({
            let given = WorkerResult::Inspect { key, result: Ok::<Reply, String>(reply) };
            let (flying, known) = after_results(in_flight, cache, results.push(given));
            &&& !flying.contains(key.model())
            &&& known.dom().contains(key.model())
            &&& known[key.model()].reply == reply@
            &&& !known[key.model()].stale
        }),
{
    let given = WorkerResult::Inspect { key, result: Ok::<Reply, String>(reply) };
    assert(results.push(given).drop_last() =~= results);
}

/// A failure where nothing is known is shown as its error.
pub proof fn a_first_failure_is_told(
    in_flight: Set<KeyModel>,
    cache: Map<KeyModel, extension::InspectionModel>,
    key: CacheKey,
    error: String,
)
    requires
        !cache.dom().contains(key.model()),
    ensures
        ({
            let failed = WorkerResult::Inspect { key, result: Err::<Reply, String>(error) };
            let (flying, known) = after_results(in_flight, cache, seq![failed]);
            &&& !flying.contains(key.model())
            &&& known.dom().contains(key.model())
            &&& known[key.model()].reply.error == Some(error@)
            &&& known[key.model()].reply.tree.len() == 0
            &&& known[key.model()].reply.facts.len() == 0
        }),
{
    let failed = WorkerResult::Inspect { key, result: Err::<Reply, String>(error) };
    reveal_with_fuel(after_results, 2);
    assert(seq![failed].drop_last() =~= Seq::<WorkerResult>::empty());
}

} // verus!
