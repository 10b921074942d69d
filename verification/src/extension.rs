//! Versioned, external capability collectors.
//!
//! The sidebar intentionally knows no provider-specific transcript format.
//! Collectors receive a small request on stdin and return a bounded JSON reply.
//! This module holds what is decided around a collector: which program runs,
//! what it is asked, and whether its answer is accepted.

use vstd::prelude::*;
use vstd::string::StringExecFns;

use crate::chain;
use crate::chain::Link;
use crate::cut;
use crate::cut::replace;
use crate::number;
use crate::number::decimal;
use crate::paths;
use crate::paths::{absolute, join_path};
use crate::scan;
use crate::scan::{any_control, control, starts_with, strip_prefix};
use crate::text;
use crate::text::{chars_of, concat2, copy_texts, owned, same};
use crate::textmap::TextMap;

verus! {

pub const PROTOCOL_VERSION: u32 = 1;

pub const MAX_OUTPUT_BYTES: usize = 1048576;

/// How long a collector may run where its provider says nothing.
pub const DEFAULT_TIMEOUT_MS: u64 = 750;

/// The longest text, in bytes, that a collector may send for a row.
pub const MAX_TEXT: usize = 4096;

#[derive(Debug)]
pub struct SlotConfig {
    pub id: String,
    pub title: String,
}

#[derive(Debug)]
pub struct ProviderConfig {
    /// Executable plus arguments. It is never evaluated by a shell.
    pub argv: Vec<String>,
    pub timeout_ms: u64,
}

pub struct ExtensionsConfig {
    pub version: u32,
    pub hidden_rows: Vec<String>,
    pub row_order: Vec<String>,
    pub slots: Vec<SlotConfig>,
    pub providers: TextMap<ProviderConfig>,
}

#[derive(Debug, Clone, Copy)]
pub struct Request<'a> {
    pub version: u32,
    pub op: &'a str,
    pub provider: &'a str,
    pub pane_id: &'a str,
    /// Canonical current directory reported by tmux for this pane. The
    /// collector must not infer it from its own process working directory.
    pub cwd: Option<&'a str>,
    pub session_id: Option<&'a str>,
    pub subagent_id: Option<&'a str>,
}

#[derive(Debug, Clone, Copy, PartialEq, Eq, Structural)]
pub enum Evidence {
    Observed,
    Available,
    Inferred,
    Error,
    Unknown,
}

#[derive(Debug, PartialEq, Eq)]
pub struct Fact {
    pub id: String,
    pub agent_id: String,
    pub category: String,
    pub label: String,
    pub detail: String,
    pub evidence: Evidence,
    pub source: String,
    /// Opaque provider-owned token accepted only by the `detail` operation.
    /// It is deliberately not interpreted as a filesystem path by the UI.
    pub detail_token: Option<String>,
}

/// Provider-neutral identity. `id` is stable within `(provider, session_id)`;
/// UI code must never fall back to a row number or a rendered label.
#[derive(Debug, PartialEq, Eq)]
pub struct AgentNode {
    pub id: String,
    pub parent_id: Option<String>,
    pub label: String,
    pub model: Option<String>,
}

#[derive(Debug, PartialEq, Eq)]
pub struct TreeNode {
    pub id: String,
    pub agent_id: String,
    pub parent_id: Option<String>,
    pub label: String,
    pub fact_ids: Vec<String>,
    /// Optional provider-owned token for details attached directly to this node.
    pub detail_token: Option<String>,
    pub category: String,
}

/// The built-in capabilities of one agent, counted, with the few that differ.
#[derive(Debug)]
pub struct BuiltinSummary {
    pub agent_id: String,
    pub tools_count: u64,
    pub skills_count: u64,
    pub exceptions: Vec<Fact>,
}

/// Complete text returned by a `detail` request. It is rendered inline by the
/// sidebar and never turned into a popup or a second tmux pane.
#[derive(Debug, PartialEq, Eq)]
pub struct Detail {
    pub title: String,
    pub source: String,
    pub text: String,
}

pub struct Reply {
    pub version: u32,
    pub facts: Vec<Fact>,
    pub builtins: BuiltinSummary,
    pub slots: TextMap<String>,
    pub error: Option<String>,
    pub agents: Vec<AgentNode>,
    pub tree: Vec<TreeNode>,
    pub detail: Option<Detail>,
}

pub struct Inspection {
    pub reply: Reply,
    pub stale: bool,
}

/// The model of a fact.
pub struct FactModel {
    pub id: Seq<char>,
    pub agent_id: Seq<char>,
    pub category: Seq<char>,
    pub label: Seq<char>,
    pub detail: Seq<char>,
    pub evidence: Evidence,
    pub source: Seq<char>,
    pub detail_token: Option<Seq<char>>,
}

impl View for Fact {
    type V = FactModel;

    open spec fn view(&self) -> FactModel {
        FactModel {
            id: self.id@,
            agent_id: self.agent_id@,
            category: self.category@,
            label: self.label@,
            detail: self.detail@,
            evidence: self.evidence,
            source: self.source@,
            detail_token: text::opt(self.detail_token),
        }
    }
}

/// The models of a list of facts.
pub open spec fn fact_models(facts: Seq<Fact>) -> Seq<FactModel> {
    facts.map_values(|fact: Fact| fact@)
}

/// The model of an agent.
pub struct AgentModel {
    pub id: Seq<char>,
    pub parent_id: Option<Seq<char>>,
    pub label: Seq<char>,
    pub model: Option<Seq<char>>,
}

impl View for AgentNode {
    type V = AgentModel;

    open spec fn view(&self) -> AgentModel {
        AgentModel {
            id: self.id@,
            parent_id: text::opt(self.parent_id),
            label: self.label@,
            model: text::opt(self.model),
        }
    }
}

/// The models of a list of agents.
pub open spec fn agent_models(agents: Seq<AgentNode>) -> Seq<AgentModel> {
    agents.map_values(|agent: AgentNode| agent@)
}

/// The model of a tree node.
pub struct NodeModel {
    pub id: Seq<char>,
    pub agent_id: Seq<char>,
    pub parent_id: Option<Seq<char>>,
    pub label: Seq<char>,
    pub fact_ids: Seq<Seq<char>>,
    pub detail_token: Option<Seq<char>>,
    pub category: Seq<char>,
}

impl View for TreeNode {
    type V = NodeModel;

    open spec fn view(&self) -> NodeModel {
        NodeModel {
            id: self.id@,
            agent_id: self.agent_id@,
            parent_id: text::opt(self.parent_id),
            label: self.label@,
            fact_ids: text::texts(self.fact_ids@),
            detail_token: text::opt(self.detail_token),
            category: self.category@,
        }
    }
}

/// The models of a list of tree nodes.
pub open spec fn node_models(tree: Seq<TreeNode>) -> Seq<NodeModel> {
    tree.map_values(|node: TreeNode| node@)
}

/// The model of a detail.
pub struct DetailModel {
    pub title: Seq<char>,
    pub source: Seq<char>,
    pub text: Seq<char>,
}

impl View for Detail {
    type V = DetailModel;

    open spec fn view(&self) -> DetailModel {
        DetailModel { title: self.title@, source: self.source@, text: self.text@ }
    }
}

/// The model of an optional detail.
pub open spec fn detail_model(detail: Option<Detail>) -> Option<DetailModel> {
    match detail {
        Some(found) => Some(found@),
        None => None,
    }
}

/// The model of a reply.
pub struct ReplyModel {
    pub version: u32,
    pub facts: Seq<FactModel>,
    pub builtins_agent_id: Seq<char>,
    pub tools_count: u64,
    pub skills_count: u64,
    pub exceptions: Seq<FactModel>,
    pub slots: Seq<(Seq<char>, Seq<char>)>,
    pub error: Option<Seq<char>>,
    pub agents: Seq<AgentModel>,
    pub tree: Seq<NodeModel>,
    pub detail: Option<DetailModel>,
}

impl View for Reply {
    type V = ReplyModel;

    open spec fn view(&self) -> ReplyModel {
        ReplyModel {
            version: self.version,
            facts: fact_models(self.facts@),
            builtins_agent_id: self.builtins.agent_id@,
            tools_count: self.builtins.tools_count,
            skills_count: self.builtins.skills_count,
            exceptions: fact_models(self.builtins.exceptions@),
            slots: self.slots.listed().map_values(|slot: (String, String)| (slot.0@, slot.1@)),
            error: text::opt(self.error),
            agents: agent_models(self.agents@),
            tree: node_models(self.tree@),
            detail: detail_model(self.detail),
        }
    }
}

/// The model of an inspection.
pub struct InspectionModel {
    pub reply: ReplyModel,
    pub stale: bool,
}

impl View for Inspection {
    type V = InspectionModel;

    open spec fn view(&self) -> InspectionModel {
        InspectionModel { reply: self.reply@, stale: self.stale }
    }
}

/// A text that takes at most `MAX_TEXT` bytes and holds no control character.
pub open spec fn safe_text(value: Seq<char>) -> bool {
    vstd::utf8::encode_utf8(value).len() <= MAX_TEXT && !scan::has_control(value)
}

/// A safe text that is not empty.
pub open spec fn valid_text(value: Seq<char>) -> bool {
    value.len() > 0 && safe_text(value)
}

/// A text that is empty or valid.
pub open spec fn blank_or_valid(value: Seq<char>) -> bool {
    value.len() == 0 || valid_text(value)
}

fn is_safe_text(value: &str) -> (yes: bool)
    ensures
        yes == safe_text(value@),
{
    value_bytes_at_most(value, MAX_TEXT) && !any_control(value)
}

/// Whether a text takes at most `limit` bytes.
fn value_bytes_at_most(value: &str, limit: usize) -> (yes: bool)
    ensures
        yes == (vstd::utf8::encode_utf8(value@).len() <= limit),
{
    let bytes = value.as_bytes();
    bytes.len() <= limit
}

fn is_valid(value: &str) -> (yes: bool)
    ensures
        yes == valid_text(value@),
{
    !value.is_empty() && is_safe_text(value)
}

/// Whether the id of fact `at` occurs before it.
pub open spec fn fact_repeats(facts: Seq<Fact>, at: int) -> bool {
    exists|j: int| 0 <= j < at && (#[trigger] facts[j]).id@ == facts[at].id@
}

/// Whether fact `at` has its texts in order and its id for itself.
pub open spec fn fact_stands(facts: Seq<Fact>, at: int) -> bool {
    &&& valid_text(facts[at].id@)
    &&& valid_text(facts[at].label@)
    &&& blank_or_valid(facts[at].detail@)
    &&& blank_or_valid(facts[at].source@)
    &&& !fact_repeats(facts, at)
}

/// Whether a token is absent or valid.
pub open spec fn token_stands(token: Option<String>) -> bool {
    token matches Some(inner) ==> valid_text(inner@)
}

/// What is wrong with the first faulty fact from index `at` on.
pub open spec fn facts_fault(facts: Seq<Fact>, at: int) -> Option<Seq<char>>
    decreases facts.len() - at,
{
    if at < 0 || at >= facts.len() {
        None
    } else if !fact_stands(facts, at) {
        Some("invalid or duplicate fact id"@)
    } else if !token_stands(facts[at].detail_token) {
        Some("invalid detail token"@)
    } else {
        facts_fault(facts, at + 1)
    }
}

/// Whether agent `at` has its texts in order and its id for itself.
pub open spec fn agent_stands(agents: Seq<AgentNode>, at: int) -> bool {
    &&& valid_text(agents[at].id@)
    &&& valid_text(agents[at].label@)
    &&& forall|j: int| 0 <= j < at ==> (#[trigger] agents[j]).id@ != agents[at].id@
}

/// The links from agents to their parents.
pub open spec fn agent_links(agents: Seq<AgentNode>) -> Seq<chain::LinkModel> {
    agents.map_values(
        |node: AgentNode|
            (chain::LinkModel { id: node.id@, parent: text::opt(node.parent_id) }),
    )
}

/// Whether some agent has an id.
pub open spec fn is_agent(agents: Seq<AgentNode>, id: Seq<char>) -> bool {
    exists|j: int| 0 <= j < agents.len() && (#[trigger] agents[j]).id@ == id
}

/// Whether an agent names no parent, or another agent as its parent.
pub open spec fn agent_parent_stands(agents: Seq<AgentNode>, at: int) -> bool {
    agents[at].parent_id matches Some(parent) ==> is_agent(agents, parent@) && parent@
        != agents[at].id@
}

/// What is wrong with the agents: first their texts and ids, then cycles, then
/// parents that are missing.
pub open spec fn agents_fault(agents: Seq<AgentNode>) -> Option<Seq<char>> {
    if exists|i: int| 0 <= i < agents.len() && !(#[trigger] agent_stands(agents, i)) {
        Some("invalid or duplicate agent id"@)
    } else if exists|i: int|
        0 <= i < agents.len() && !chain::walk_ends(
            agent_links(agents),
            (#[trigger] agents[i]).id@,
        ) {
        Some("agent tree cycle"@)
    } else if exists|i: int|
        0 <= i < agents.len() && !(#[trigger] agent_parent_stands(agents, i)) {
        Some("invalid agent parent"@)
    } else {
        None
    }
}

/// Whether tree node `at` has its texts in order and an id that neither an
/// agent nor an earlier node has.
pub open spec fn node_stands(agents: Seq<AgentNode>, tree: Seq<TreeNode>, at: int) -> bool {
    &&& valid_text(tree[at].id@)
    &&& valid_text(tree[at].label@)
    &&& !is_agent(agents, tree[at].id@)
    &&& forall|j: int| 0 <= j < at ==> (#[trigger] tree[j]).id@ != tree[at].id@
}

/// What is wrong with the first tree node from index `at` on whose own texts
/// are faulty.
pub open spec fn nodes_fault(
    agents: Seq<AgentNode>,
    tree: Seq<TreeNode>,
    at: int,
) -> Option<Seq<char>>
    decreases tree.len() - at,
{
    if at < 0 || at >= tree.len() {
        None
    } else if !node_stands(agents, tree, at) {
        Some("invalid or duplicate tree id"@)
    } else if !token_stands(tree[at].detail_token) {
        Some("invalid detail token"@)
    } else {
        nodes_fault(agents, tree, at + 1)
    }
}

/// Whether every slot has a valid id and a valid value.
pub open spec fn slots_stand(slots: Seq<(String, String)>) -> bool {
    forall|i: int|
        0 <= i < slots.len() ==> valid_text((#[trigger] slots[i]).0@) && valid_text(slots[i].1@)
}

/// The links from tree nodes to their parents.
pub open spec fn tree_links(tree: Seq<TreeNode>) -> Seq<chain::LinkModel> {
    tree.map_values(
        |node: TreeNode|
            (chain::LinkModel { id: node.id@, parent: text::opt(node.parent_id) }),
    )
}

/// Whether some tree node has an id.
pub open spec fn is_node(tree: Seq<TreeNode>, id: Seq<char>) -> bool {
    exists|j: int| 0 <= j < tree.len() && (#[trigger] tree[j]).id@ == id
}

/// Whether a tree node names no parent, or one that is in the tree.
pub open spec fn node_parent_stands(tree: Seq<TreeNode>, at: int) -> bool {
    tree[at].parent_id matches Some(parent) ==> is_node(tree, parent@)
}

/// What is wrong with the place in the tree of the first misplaced node from
/// index `at` on.
pub open spec fn places_fault(tree: Seq<TreeNode>, at: int) -> Option<Seq<char>>
    decreases tree.len() - at,
{
    if at < 0 || at >= tree.len() {
        None
    } else if !chain::walk_ends(tree_links(tree), tree[at].id@) {
        Some("capability tree cycle"@)
    } else if !node_parent_stands(tree, at) {
        Some("invalid capability tree parent"@)
    } else {
        places_fault(tree, at + 1)
    }
}

/// A text with no control character but line ends and tabs.
pub open spec fn plain_body(body: Seq<char>) -> bool {
    forall|i: int|
        0 <= i < body.len() ==> (#[trigger] body[i]) == '\n' || body[i] == '\t' || !scan::is_control(
            body[i],
        )
}

/// Whether a detail may be shown.
pub open spec fn detail_stands(detail: Detail) -> bool {
    &&& valid_text(detail.title@)
    &&& vstd::utf8::encode_utf8(detail.text@).len() <= MAX_OUTPUT_BYTES
    &&& plain_body(detail.text@)
    &&& blank_or_valid(detail.source@)
}

/// What is wrong with a reply, the first fault in the order of the checks.
pub open spec fn reply_fault(reply: Reply) -> Option<Seq<char>> {
    let facts = reply.facts@ + reply.builtins.exceptions@;
    if facts_fault(facts, 0) is Some {
        facts_fault(facts, 0)
    } else if agents_fault(reply.agents@) is Some {
        agents_fault(reply.agents@)
    } else if nodes_fault(reply.agents@, reply.tree@, 0) is Some {
        nodes_fault(reply.agents@, reply.tree@, 0)
    } else if !slots_stand(reply.slots.listed()) {
        Some("invalid slot value"@)
    } else if places_fault(reply.tree@, 0) is Some {
        places_fault(reply.tree@, 0)
    } else if reply.detail matches Some(detail) && !detail_stands(detail) {
        Some("invalid detail reply"@)
    } else {
        None
    }
}

/// Whether one of the first `count` facts has an id.
fn has_fact_id(facts: &Vec<Fact>, count: usize, id: &str) -> (yes: bool)
    requires
        count <= facts@.len(),
    ensures
        yes == exists|k: int| 0 <= k < count && (#[trigger] facts@[k]).id@ == id@,
{
    let mut j: usize = 0;
    while j < count
        invariant
            j <= count <= facts@.len(),
            forall|k: int| 0 <= k < j ==> (#[trigger] facts@[k]).id@ != id@,
        decreases count - j,
    {
        if same(facts[j].id.as_str(), id) {
            return true;
        }
        j = j + 1;
    }
    false
}

/// Checks facts that follow `earlier` ones, which stand.
fn check_facts(earlier: &Vec<Fact>, facts: &Vec<Fact>) -> (result: Result<(), String>)
    ensures
        match result {
            Ok(_) => facts_fault(earlier@ + facts@, earlier@.len() as int) is None,
            Err(error) => facts_fault(earlier@ + facts@, earlier@.len() as int) == Some(error@),
        },
{
    let ghost all = earlier@ + facts@;
    let ghost base = earlier@.len() as int;
    let mut i: usize = 0;
    while i < facts.len()
        invariant
            i <= facts@.len(),
            all == earlier@ + facts@,
            base == earlier@.len(),
            facts_fault(all, base) == facts_fault(all, base + i),
        decreases facts@.len() - i,
    {
        let fact = &facts[i];
        let repeats = has_fact_id(earlier, earlier.len(), fact.id.as_str()) || has_fact_id(
            facts,
            i,
            fact.id.as_str(),
        );
        proof {
            assert(all[base + i] == *fact);
            if exists|k: int| 0 <= k < base && (#[trigger] earlier@[k]).id@ == fact.id@ {
                let k = choose|k: int| 0 <= k < base && (#[trigger] earlier@[k]).id@ == fact.id@;
                assert(all[k].id@ == fact.id@);
            }
            if exists|k: int| 0 <= k < i && (#[trigger] facts@[k]).id@ == fact.id@ {
                let k = choose|k: int| 0 <= k < i && (#[trigger] facts@[k]).id@ == fact.id@;
                assert(all[base + k].id@ == fact.id@);
            }
            if fact_repeats(all, base + i) {
                let k = choose|k: int|
                    0 <= k < base + i && (#[trigger] all[k]).id@ == all[base + i].id@;
                if k < base {
                    assert(earlier@[k].id@ == fact.id@);
                } else {
                    assert(facts@[k - base].id@ == fact.id@);
                }
            }
            assert(repeats == fact_repeats(all, base + i));
        }
        if !is_valid(fact.id.as_str()) || !is_valid(fact.label.as_str()) || (
        !fact.detail.as_str().is_empty() && !is_valid(fact.detail.as_str())) || (
        !fact.source.as_str().is_empty() && !is_valid(fact.source.as_str())) || repeats {
            return Err(owned("invalid or duplicate fact id"));
        }
        if let Some(token) = &fact.detail_token {
            if !is_valid(token.as_str()) {
                return Err(owned("invalid detail token"));
            }
        }
        i = i + 1;
    }
    Ok(())
}

/// Whether one of the first `count` agents has an id.
fn has_agent_id(agents: &Vec<AgentNode>, count: usize, id: &str) -> (yes: bool)
    requires
        count <= agents@.len(),
    ensures
        yes == exists|k: int| 0 <= k < count && (#[trigger] agents@[k]).id@ == id@,
{
    let mut j: usize = 0;
    while j < count
        invariant
            j <= count <= agents@.len(),
            forall|k: int| 0 <= k < j ==> (#[trigger] agents@[k]).id@ != id@,
        decreases count - j,
    {
        if same(agents[j].id.as_str(), id) {
            return true;
        }
        j = j + 1;
    }
    false
}

/// Whether one of the first `count` tree nodes has an id.
fn has_node_id(tree: &Vec<TreeNode>, count: usize, id: &str) -> (yes: bool)
    requires
        count <= tree@.len(),
    ensures
        yes == exists|k: int| 0 <= k < count && (#[trigger] tree@[k]).id@ == id@,
{
    let mut j: usize = 0;
    while j < count
        invariant
            j <= count <= tree@.len(),
            forall|k: int| 0 <= k < j ==> (#[trigger] tree@[k]).id@ != id@,
        decreases count - j,
    {
        if same(tree[j].id.as_str(), id) {
            return true;
        }
        j = j + 1;
    }
    false
}

/// The links from agents to their parents.
fn links_of_agents(agents: &Vec<AgentNode>) -> (links: Vec<Link>)
    ensures
        chain::links_of(links@) == agent_links(agents@),
{
    let mut links: Vec<Link> = Vec::new();
    let mut i: usize = 0;
    while i < agents.len()
        invariant
            i <= agents@.len(),
            links@.len() == i,
            forall|k: int|
                0 <= k < i ==> (#[trigger] links@[k])@ == agent_links(agents@)[k],
        decreases agents@.len() - i,
    {
        links.push(Link { id: agents[i].id.clone(), parent: agents[i].parent_id.clone() });
        i = i + 1;
    }
    proof {
        assert(chain::links_of(links@) =~= agent_links(agents@));
    }
    links
}

/// The links from tree nodes to their parents.
fn links_of_tree(tree: &Vec<TreeNode>) -> (links: Vec<Link>)
    ensures
        chain::links_of(links@) == tree_links(tree@),
{
    let mut links: Vec<Link> = Vec::new();
    let mut i: usize = 0;
    while i < tree.len()
        invariant
            i <= tree@.len(),
            links@.len() == i,
            forall|k: int| 0 <= k < i ==> (#[trigger] links@[k])@ == tree_links(tree@)[k],
        decreases tree@.len() - i,
    {
        links.push(Link { id: tree[i].id.clone(), parent: tree[i].parent_id.clone() });
        i = i + 1;
    }
    proof {
        assert(chain::links_of(links@) =~= tree_links(tree@));
    }
    links
}

fn check_agents(agents: &Vec<AgentNode>) -> (result: Result<(), String>)
    ensures
        match result {
            Ok(_) => agents_fault(agents@) is None,
            Err(error) => agents_fault(agents@) == Some(error@),
        },
{
    let mut i: usize = 0;
    while i < agents.len()
        invariant
            i <= agents@.len(),
            forall|k: int| 0 <= k < i ==> #[trigger] agent_stands(agents@, k),
        decreases agents@.len() - i,
    {
        let node = &agents[i];
        if !is_valid(node.id.as_str()) || !is_valid(node.label.as_str()) || has_agent_id(
            agents,
            i,
            node.id.as_str(),
        ) {
            proof {
                assert(!agent_stands(agents@, i as int));
            }
            return Err(owned("invalid or duplicate agent id"));
        }
        i = i + 1;
    }
    let links = links_of_agents(agents);
    let mut i: usize = 0;
    while i < agents.len()
        invariant
            i <= agents@.len(),
            chain::links_of(links@) == agent_links(agents@),
            forall|k: int| 0 <= k < agents@.len() ==> #[trigger] agent_stands(agents@, k),
            forall|k: int|
                0 <= k < i ==> chain::walk_ends(
                    agent_links(agents@),
                    (#[trigger] agents@[k]).id@,
                ),
        decreases agents@.len() - i,
    {
        if !chain::ends(&links, agents[i].id.as_str()) {
            return Err(owned("agent tree cycle"));
        }
        i = i + 1;
    }
    let mut i: usize = 0;
    while i < agents.len()
        invariant
            i <= agents@.len(),
            forall|k: int| 0 <= k < agents@.len() ==> #[trigger] agent_stands(agents@, k),
            forall|k: int|
                0 <= k < agents@.len() ==> chain::walk_ends(
                    agent_links(agents@),
                    (#[trigger] agents@[k]).id@,
                ),
            forall|k: int| 0 <= k < i ==> #[trigger] agent_parent_stands(agents@, k),
        decreases agents@.len() - i,
    {
        if let Some(parent) = &agents[i].parent_id {
            if !has_agent_id(agents, agents.len(), parent.as_str()) || same(
                parent.as_str(),
                agents[i].id.as_str(),
            ) {
                proof {
                    assert(!agent_parent_stands(agents@, i as int));
                }
                return Err(owned("invalid agent parent"));
            }
        }
        i = i + 1;
    }
    Ok(())
}

fn check_nodes(agents: &Vec<AgentNode>, tree: &Vec<TreeNode>) -> (result: Result<(), String>)
    ensures
        match result {
            Ok(_) => nodes_fault(agents@, tree@, 0) is None,
            Err(error) => nodes_fault(agents@, tree@, 0) == Some(error@),
        },
{
    let mut i: usize = 0;
    while i < tree.len()
        invariant
            i <= tree@.len(),
            nodes_fault(agents@, tree@, 0) == nodes_fault(agents@, tree@, i as int),
        decreases tree@.len() - i,
    {
        let node = &tree[i];
        if !is_valid(node.id.as_str()) || !is_valid(node.label.as_str()) || has_agent_id(
            agents,
            agents.len(),
            node.id.as_str(),
        ) || has_node_id(tree, i, node.id.as_str()) {
            return Err(owned("invalid or duplicate tree id"));
        }
        if let Some(token) = &node.detail_token {
            if !is_valid(token.as_str()) {
                return Err(owned("invalid detail token"));
            }
        }
        i = i + 1;
    }
    Ok(())
}

fn check_places(tree: &Vec<TreeNode>) -> (result: Result<(), String>)
    ensures
        match result {
            Ok(_) => places_fault(tree@, 0) is None,
            Err(error) => places_fault(tree@, 0) == Some(error@),
        },
{
    let links = links_of_tree(tree);
    let mut i: usize = 0;
    while i < tree.len()
        invariant
            i <= tree@.len(),
            chain::links_of(links@) == tree_links(tree@),
            places_fault(tree@, 0) == places_fault(tree@, i as int),
        decreases tree@.len() - i,
    {
        if !chain::ends(&links, tree[i].id.as_str()) {
            return Err(owned("capability tree cycle"));
        }
        if let Some(parent) = &tree[i].parent_id {
            if !has_node_id(tree, tree.len(), parent.as_str()) {
                return Err(owned("invalid capability tree parent"));
            }
        }
        i = i + 1;
    }
    Ok(())
}

fn check_slots(slots: &TextMap<String>) -> (stand: bool)
    ensures
        stand == slots_stand(slots.listed()),
{
    let mut i: usize = 0;
    while i < slots.len()
        invariant
            i <= slots.listed().len(),
            forall|k: int|
                0 <= k < i ==> valid_text((#[trigger] slots.listed()[k]).0@) && valid_text(
                    slots.listed()[k].1@,
                ),
        decreases slots.listed().len() - i,
    {
        if !is_valid(slots.key_at(i)) || !is_valid(slots.value_at(i).as_str()) {
            return false;
        }
        i = i + 1;
    }
    true
}

fn is_plain_body(body: &str) -> (yes: bool)
    ensures
        yes == plain_body(body@),
{
    let chars = chars_of(body);
    let mut i: usize = 0;
    while i < chars.len()
        invariant
            i <= chars@.len(),
            chars@ == body@,
            forall|k: int|
                0 <= k < i ==> (#[trigger] body@[k]) == '\n' || body@[k] == '\t'
                    || !scan::is_control(body@[k]),
        decreases chars@.len() - i,
    {
        if chars[i] != '\n' && chars[i] != '\t' && control(chars[i]) {
            return false;
        }
        i = i + 1;
    }
    true
}

fn check_detail(detail: &Detail) -> (stands: bool)
    ensures
        stands == detail_stands(*detail),
{
    is_valid(detail.title.as_str()) && value_bytes_at_most(detail.text.as_str(), MAX_OUTPUT_BYTES)
        && is_plain_body(detail.text.as_str()) && (detail.source.as_str().is_empty() || is_valid(
        detail.source.as_str(),
    ))
}

/// Accepts a reply, or says what is wrong with it.
pub fn validate_reply(reply: &Reply) -> (result: Result<(), String>)
    ensures
        match result {
            Ok(_) => reply_fault(*reply) is None,
            Err(error) => reply_fault(*reply) == Some(error@),
        },
{
    let none: Vec<Fact> = Vec::new();
    let ghost facts = reply.facts@ + reply.builtins.exceptions@;
    proof {
        assert(none@ + reply.facts@ =~= reply.facts@);
        facts_fault_prefix(reply.facts@, reply.builtins.exceptions@, 0);
    }
    if let Err(error) = check_facts(&none, &reply.facts) {
        return Err(error);
    }
    if let Err(error) = check_facts(&reply.facts, &reply.builtins.exceptions) {
        return Err(error);
    }
    if let Err(error) = check_agents(&reply.agents) {
        return Err(error);
    }
    if let Err(error) = check_nodes(&reply.agents, &reply.tree) {
        return Err(error);
    }
    if !check_slots(&reply.slots) {
        return Err(owned("invalid slot value"));
    }
    if let Err(error) = check_places(&reply.tree) {
        return Err(error);
    }
    if let Some(detail) = &reply.detail {
        if !check_detail(detail) {
            return Err(owned("invalid detail reply"));
        }
    }
    Ok(())
}

proof fn faultless_facts_stand(facts: Seq<Fact>, at: int)
    requires
        0 <= at,
        facts_fault(facts, at) is None,
    ensures
        forall|k: int| at <= k < facts.len() ==> #[trigger] fact_stands(facts, k),
    decreases facts.len() - at,
{
    if at < facts.len() {
        faultless_facts_stand(facts, at + 1);
    }
}

proof fn faultless_nodes_stand(agents: Seq<AgentNode>, tree: Seq<TreeNode>, at: int)
    requires
        0 <= at,
        nodes_fault(agents, tree, at) is None,
    ensures
        forall|k: int| at <= k < tree.len() ==> #[trigger] node_stands(agents, tree, k),
    decreases tree.len() - at,
{
    if at < tree.len() {
        faultless_nodes_stand(agents, tree, at + 1);
    }
}

proof fn faultless_places_stand(tree: Seq<TreeNode>, at: int)
    requires
        0 <= at,
        places_fault(tree, at) is None,
    ensures
        forall|k: int| at <= k < tree.len() ==> #[trigger] node_parent_stands(tree, k),
        forall|k: int|
            at <= k < tree.len() ==> chain::walk_ends(
                tree_links(tree),
                (#[trigger] tree[k]).id@,
            ),
    decreases tree.len() - at,
{
    if at < tree.len() {
        faultless_places_stand(tree, at + 1);
    }
}

/// In a reply that is accepted no two facts share an id.
pub proof fn accepted_facts_are_distinct(reply: Reply, i: int, j: int)
    requires
        reply_fault(reply) is None,
        0 <= i < j < (reply.facts@ + reply.builtins.exceptions@).len(),
    ensures
        (reply.facts@ + reply.builtins.exceptions@)[i].id@ != (reply.facts@
            + reply.builtins.exceptions@)[j].id@,
{
    let facts = reply.facts@ + reply.builtins.exceptions@;
    faultless_facts_stand(facts, 0);
    assert(fact_stands(facts, j));
    assert(facts[i].id@ == facts[j].id@ ==> fact_repeats(facts, j));
}

/// In a reply that is accepted no two agents, no two nodes of the tree, and no agent
/// and node share an id.
pub proof fn accepted_nodes_are_distinct(reply: Reply)
    requires
        reply_fault(reply) is None,
    ensures
        forall|i: int, j: int|
            0 <= i < j < reply.agents@.len() ==> (#[trigger] reply.agents@[i]).id@ != (
            #[trigger] reply.agents@[j]).id@,
        forall|i: int, j: int|
            0 <= i < j < reply.tree@.len() ==> (#[trigger] reply.tree@[i]).id@ != (
            #[trigger] reply.tree@[j]).id@,
        forall|i: int, j: int|
            0 <= i < reply.agents@.len() && 0 <= j < reply.tree@.len() ==> (
            #[trigger] reply.agents@[i]).id@ != (#[trigger] reply.tree@[j]).id@,
{
    let agents = reply.agents@;
    let tree = reply.tree@;
    faultless_nodes_stand(agents, tree, 0);
    assert forall|i: int, j: int| 0 <= i < j < agents.len() implies (#[trigger] agents[i]).id@ != (
    #[trigger] agents[j]).id@ by {
        assert(agent_stands(agents, j));
    }
    assert forall|i: int, j: int| 0 <= i < j < tree.len() implies (#[trigger] tree[i]).id@ != (
    #[trigger] tree[j]).id@ by {
        assert(node_stands(agents, tree, j));
    }
    assert forall|i: int, j: int| 0 <= i < agents.len() && 0 <= j < tree.len() implies (
    #[trigger] agents[i]).id@ != (#[trigger] tree[j]).id@ by {
        assert(node_stands(agents, tree, j));
    }
}

/// In a reply that is accepted each parent is there, and the way up from any agent
/// or node of the tree comes to an end.
pub proof fn accepted_trees_have_roots(reply: Reply)
    requires
        reply_fault(reply) is None,
    ensures
        forall|i: int|
            0 <= i < reply.agents@.len() ==> {
                &&& chain::walk_ends(agent_links(reply.agents@), (#[trigger] reply.agents@[i]).id@)
                &&& agent_parent_stands(reply.agents@, i)
            },
        forall|i: int|
            0 <= i < reply.tree@.len() ==> {
                &&& chain::walk_ends(tree_links(reply.tree@), (#[trigger] reply.tree@[i]).id@)
                &&& node_parent_stands(reply.tree@, i)
            },
{
    faultless_places_stand(reply.tree@, 0);
    assert forall|i: int| 0 <= i < reply.agents@.len() implies {
        &&& chain::walk_ends(agent_links(reply.agents@), (#[trigger] reply.agents@[i]).id@)
        &&& agent_parent_stands(reply.agents@, i)
    } by {
        assert(agent_parent_stands(reply.agents@, i));
    }
    assert forall|i: int| 0 <= i < reply.tree@.len() implies {
        &&& chain::walk_ends(tree_links(reply.tree@), (#[trigger] reply.tree@[i]).id@)
        &&& node_parent_stands(reply.tree@, i)
    } by {
        assert(node_parent_stands(reply.tree@, i));
    }
}

proof fn facts_fault_prefix(facts: Seq<Fact>, more: Seq<Fact>, at: int)
    requires
        0 <= at <= facts.len(),
    ensures
        facts_fault(facts + more, at) == if facts_fault(facts, at) is Some {
            facts_fault(facts, at)
        } else {
            facts_fault(facts + more, facts.len() as int)
        },
    decreases facts.len() - at,
{
    if at < facts.len() {
        let all = facts + more;
        assert(all[at] == facts[at]);
        assert(fact_repeats(all, at) == fact_repeats(facts, at)) by {
            if fact_repeats(all, at) {
                let k = choose|k: int| 0 <= k < at && (#[trigger] all[k]).id@ == all[at].id@;
                assert(facts[k].id@ == facts[at].id@);
            }
            if fact_repeats(facts, at) {
                let k = choose|k: int| 0 <= k < at && (#[trigger] facts[k]).id@ == facts[at].id@;
                assert(all[k].id@ == all[at].id@);
            }
        }
        facts_fault_prefix(facts, more, at + 1);
    }
}

impl Clone for Fact {
    fn clone(&self) -> (copy: Self)
        ensures
            copy == *self,
    {
        Fact {
            id: self.id.clone(),
            agent_id: self.agent_id.clone(),
            category: self.category.clone(),
            label: self.label.clone(),
            detail: self.detail.clone(),
            evidence: self.evidence,
            source: self.source.clone(),
            detail_token: self.detail_token.clone(),
        }
    }
}

impl Clone for AgentNode {
    fn clone(&self) -> (copy: Self)
        ensures
            copy == *self,
    {
        AgentNode {
            id: self.id.clone(),
            parent_id: self.parent_id.clone(),
            label: self.label.clone(),
            model: self.model.clone(),
        }
    }
}

impl Clone for Detail {
    fn clone(&self) -> (copy: Self)
        ensures
            copy == *self,
    {
        Detail {
            title: self.title.clone(),
            source: self.source.clone(),
            text: self.text.clone(),
        }
    }
}

impl Clone for TreeNode {
    fn clone(&self) -> (copy: Self)
        ensures
            copy@ == self@,
    {
        TreeNode {
            id: self.id.clone(),
            agent_id: self.agent_id.clone(),
            parent_id: self.parent_id.clone(),
            label: self.label.clone(),
            fact_ids: copy_texts(&self.fact_ids),
            detail_token: self.detail_token.clone(),
            category: self.category.clone(),
        }
    }
}

fn copy_facts(facts: &Vec<Fact>) -> (copy: Vec<Fact>)
    ensures
        copy@ == facts@,
{
    let mut copy: Vec<Fact> = Vec::new();
    let mut i: usize = 0;
    while i < facts.len()
        invariant
            i <= facts@.len(),
            copy@ == facts@.take(i as int),
        decreases facts@.len() - i,
    {
        copy.push(facts[i].clone());
        i = i + 1;
        proof {
            assert(facts@.take(i as int) =~= facts@.take(i - 1).push(facts@[i - 1]));
        }
    }
    proof {
        assert(facts@.take(i as int) =~= facts@);
    }
    copy
}

fn copy_agents(agents: &Vec<AgentNode>) -> (copy: Vec<AgentNode>)
    ensures
        copy@ == agents@,
{
    let mut copy: Vec<AgentNode> = Vec::new();
    let mut i: usize = 0;
    while i < agents.len()
        invariant
            i <= agents@.len(),
            copy@ == agents@.take(i as int),
        decreases agents@.len() - i,
    {
        copy.push(agents[i].clone());
        i = i + 1;
        proof {
            assert(agents@.take(i as int) =~= agents@.take(i - 1).push(agents@[i - 1]));
        }
    }
    proof {
        assert(agents@.take(i as int) =~= agents@);
    }
    copy
}

impl Clone for Reply {
    fn clone(&self) -> (copy: Self)
        ensures
            copy@ == self@,
    {
        let mut tree: Vec<TreeNode> = Vec::new();
        let mut i: usize = 0;
        while i < self.tree.len()
            invariant
                i <= self.tree@.len(),
                tree@.len() == i,
                forall|k: int| 0 <= k < i ==> (#[trigger] tree@[k])@ == self.tree@[k]@,
            decreases self.tree@.len() - i,
        {
            tree.push(self.tree[i].clone());
            i = i + 1;
        }
        proof {
            assert(node_models(tree@) =~= node_models(self.tree@));
        }
        Reply {
            version: self.version,
            facts: copy_facts(&self.facts),
            builtins: BuiltinSummary {
                agent_id: self.builtins.agent_id.clone(),
                tools_count: self.builtins.tools_count,
                skills_count: self.builtins.skills_count,
                exceptions: copy_facts(&self.builtins.exceptions),
            },
            slots: self.slots.copy(),
            error: self.error.clone(),
            agents: copy_agents(&self.agents),
            tree,
            detail: self.detail.clone(),
        }
    }
}

/// A reply that says nothing but a version and, where there is one, an error.
pub open spec fn bare_reply(version: u32, error: Option<Seq<char>>) -> ReplyModel {
    ReplyModel {
        version,
        facts: Seq::<FactModel>::empty(),
        builtins_agent_id: Seq::<char>::empty(),
        tools_count: 0,
        skills_count: 0,
        exceptions: Seq::<FactModel>::empty(),
        slots: Seq::<(Seq<char>, Seq<char>)>::empty(),
        error,
        agents: Seq::<AgentModel>::empty(),
        tree: Seq::<NodeModel>::empty(),
        detail: None,
    }
}

impl Default for Reply {
    fn default() -> (reply: Self)
        ensures
            reply@ == bare_reply(0, None),
            reply.facts@.len() == 0,
            reply.agents@.len() == 0,
            reply.tree@.len() == 0,
    {
        let reply = Reply {
            version: 0,
            facts: Vec::new(),
            builtins: BuiltinSummary {
                agent_id: String::new(),
                tools_count: 0,
                skills_count: 0,
                exceptions: Vec::new(),
            },
            slots: TextMap::new(),
            error: None,
            agents: Vec::new(),
            tree: Vec::new(),
            detail: None,
        };
        proof {
            let bare = bare_reply(0, None);
            assert(reply@.facts =~= bare.facts);
            assert(reply@.exceptions =~= bare.exceptions);
            assert(reply@.slots =~= bare.slots);
            assert(reply@.agents =~= bare.agents);
            assert(reply@.tree =~= bare.tree);
            assert(reply@.builtins_agent_id =~= bare.builtins_agent_id);
        }
        reply
    }
}

impl Default for ExtensionsConfig {
    fn default() -> (config: Self)
        ensures
            config.version == 0,
            config.hidden_rows@.len() == 0,
            config.row_order@.len() == 0,
            config.slots@.len() == 0,
            config.providers@ == Map::<Seq<char>, ProviderConfig>::empty(),
            config.providers.listed().len() == 0,
    {
        ExtensionsConfig {
            version: 0,
            hidden_rows: Vec::new(),
            row_order: Vec::new(),
            slots: Vec::new(),
            providers: TextMap::new(),
        }
    }
}

impl Clone for Inspection {
    fn clone(&self) -> (copy: Self)
        ensures
            copy@ == self@,
    {
        Inspection { reply: self.reply.clone(), stale: self.stale }
    }
}

/// What is shown of a collector that could not be asked.
pub open spec fn unknown_model(error: Seq<char>) -> InspectionModel {
    InspectionModel { reply: bare_reply(PROTOCOL_VERSION, Some(error)), stale: false }
}

/// What is shown of a collector that could not be asked.
pub fn unknown(error: &str) -> (inspection: Inspection)
    ensures
        inspection@ == unknown_model(error@),
{
    let mut reply = Reply::default();
    reply.version = PROTOCOL_VERSION;
    reply.error = Some(owned(error));
    Inspection { reply, stale: false }
}

/// The key under which the last inspection of a pane's session is kept.
pub open spec fn cache_key_of(
    provider: Seq<char>,
    pane_id: Seq<char>,
    session_id: Option<Seq<char>>,
) -> Seq<char> {
    provider + ":"@ + pane_id + ":"@ + match session_id {
        Some(id) => id,
        None => "<none>"@,
    }
}

/// The key under which the last inspection of a pane's session is kept.
pub fn inspection_cache_key(provider: &str, pane_id: &str, session_id: Option<&str>) -> (key:
    String)
    ensures
        key@ == cache_key_of(provider@, pane_id@, text::opt_ref(session_id)),
{
    let mut key = owned(provider);
    key.append(":");
    key.append(pane_id);
    key.append(":");
    match session_id {
        Some(id) => key.append(id),
        None => key.append("<none>"),
    }
    key
}

/// The models of inspections, by key.
pub open spec fn inspections(cache: Map<Seq<char>, Inspection>) -> Map<Seq<char>, InspectionModel> {
    cache.map_values(|inspection: Inspection| inspection@)
}

/// Records the answer to an inspection and says what is shown for it.
///
/// A provider without a collector shows what the cache holds. A good answer
/// replaces what the cache holds; after a failure the cached answer is shown as
/// stale, and the cache stays as it was.
pub fn inspect(
    config: &ExtensionsConfig,
    provider: &str,
    pane_id: &str,
    session_id: Option<&str>,
    answer: Result<Reply, String>,
    cache: &mut TextMap<Inspection>,
) -> (shown: Inspection)
    ensures
        ({
            let key = cache_key_of(provider@, pane_id@, text::opt_ref(session_id));
            let configured = config.providers@.dom().contains(provider@);
            let before = inspections(old(cache)@);
            let after = inspections(final(cache)@);
            if !configured {
                &&& after == before
                &&& shown@ == if before.dom().contains(key) {
                    before[key]
                } else {
                    unknown_model("no collector configured"@)
                }
            } else {
                match answer {
                    Ok(reply) => {
                        let fresh = InspectionModel { reply: reply@, stale: false };
                        shown@ == fresh && after == before.insert(key, fresh)
                    },
                    Err(error) => {
                        &&& after == before
                        &&& shown@ == if before.dom().contains(key) {
                            InspectionModel { stale: true, ..before[key] }
                        } else {
                            unknown_model(error@)
                        }
                    },
                }
            }
        }),
        old(cache).wf() ==> final(cache).wf(),
{
    let key = inspection_cache_key(provider, pane_id, session_id);
    if !config.providers.contains_key(provider) {
        return match cache.get(key.as_str()) {
            Some(previous) => previous.clone(),
            None => unknown("no collector configured"),
        };
    }
    match answer {
        Ok(reply) => {
            let shown = Inspection { reply: reply.clone(), stale: false };
            let ghost before = cache@;
            let kept = Inspection { reply, stale: false };
            cache.insert(key, kept);
            proof {
                assert(inspections(cache@) =~= inspections(before).insert(key@, kept@));
            }
            shown
        },
        Err(error) => match cache.get(key.as_str()) {
            Some(previous) => {
                let mut shown = previous.clone();
                shown.stale = true;
                shown
            },
            None => unknown(error.as_str()),
        },
    }
}

/// Inspections of two sessions of one pane are kept apart, as long as no
/// session is named `<none>`, the word for a pane without one.
pub proof fn sessions_have_their_own_key(
    provider: Seq<char>,
    pane_id: Seq<char>,
    first: Option<Seq<char>>,
    second: Option<Seq<char>>,
)
    requires
        first != Some("<none>"@),
        second != Some("<none>"@),
        cache_key_of(provider, pane_id, first) == cache_key_of(provider, pane_id, second),
    ensures
        first == second,
{
    let head = provider + ":"@ + pane_id + ":"@;
    let a = match first {
        Some(id) => id,
        None => "<none>"@,
    };
    let b = match second {
        Some(id) => id,
        None => "<none>"@,
    };
    assert(a =~= (head + a).skip(head.len() as int));
    assert(b =~= (head + b).skip(head.len() as int));
}

/// A collector program and what it is asked.
pub struct PlannedCall<'a> {
    pub program: &'a ProviderConfig,
    pub request: Request<'a>,
}

/// Whether a planned call asks the collector of a provider for `op`.
pub open spec fn plans(
    planned: Result<PlannedCall<'_>, String>,
    config: ExtensionsConfig,
    op: Seq<char>,
    provider: Seq<char>,
    pane_id: Seq<char>,
    cwd: Option<Seq<char>>,
    session_id: Option<Seq<char>>,
    subagent_id: Option<Seq<char>>,
) -> bool {
    match planned {
        Ok(call) => {
            &&& config.providers@.dom().contains(provider)
            &&& *call.program == config.providers@[provider]
            &&& call.request.version == PROTOCOL_VERSION
            &&& call.request.op@ == op
            &&& call.request.provider@ == provider
            &&& call.request.pane_id@ == pane_id
            &&& text::opt_ref(call.request.cwd) == cwd
            &&& text::opt_ref(call.request.session_id) == session_id
            &&& text::opt_ref(call.request.subagent_id) == subagent_id
        },
        Err(error) => {
            &&& !config.providers@.dom().contains(provider)
            &&& error@ == "no collector configured"@
        },
    }
}

fn plan<'a>(config: &'a ExtensionsConfig, request: Request<'a>) -> (planned: Result<
    PlannedCall<'a>,
    String,
>)
    ensures
        match planned {
            Ok(call) => config.providers@.dom().contains(request.provider@) && *call.program
                == config.providers@[request.provider@] && call.request == request,
            Err(error) => !config.providers@.dom().contains(request.provider@) && error@
                == "no collector configured"@,
        },
{
    match config.providers.get(request.provider) {
        Some(program) => Ok(PlannedCall { program, request }),
        None => Err(owned("no collector configured")),
    }
}

/// One bounded collector request. This is called only from the extension
/// worker; UI refresh/render paths consume its cache instead of spawning.
pub fn inspect_once<'a>(
    config: &'a ExtensionsConfig,
    provider: &'a str,
    pane_id: &'a str,
    cwd: Option<&'a str>,
    session_id: Option<&'a str>,
) -> (planned: Result<PlannedCall<'a>, String>)
    ensures
        plans(
            planned,
            *config,
            "inspect"@,
            provider@,
            pane_id@,
            text::opt_ref(cwd),
            text::opt_ref(session_id),
            None,
        ),
{
    plan(
        config,
        Request {
            version: PROTOCOL_VERSION,
            op: "inspect",
            provider,
            pane_id,
            cwd,
            session_id,
            subagent_id: None,
        },
    )
}

/// Uniform activation for every kind of agent.
/// A collector may automate its native viewer; otherwise it must return an
/// error. The sidebar always focuses the original pane before showing it.
pub fn activate<'a>(
    config: &'a ExtensionsConfig,
    provider: &'a str,
    pane_id: &'a str,
    cwd: Option<&'a str>,
    session_id: Option<&'a str>,
    subagent_id: &'a str,
) -> (planned: Result<PlannedCall<'a>, String>)
    ensures
        plans(
            planned,
            *config,
            "activate"@,
            provider@,
            pane_id@,
            text::opt_ref(cwd),
            text::opt_ref(session_id),
            Some(subagent_id@),
        ),
{
    plan(
        config,
        Request {
            version: PROTOCOL_VERSION,
            op: "activate",
            provider,
            pane_id,
            cwd,
            session_id,
            subagent_id: Some(subagent_id),
        },
    )
}

/// Load the text for one selected capability. `detail_token` must have come
/// from the collector's own inspect reply, so rendered labels can never cause
/// an arbitrary local file to be read.
pub fn detail<'a>(
    config: &'a ExtensionsConfig,
    provider: &'a str,
    pane_id: &'a str,
    cwd: Option<&'a str>,
    session_id: Option<&'a str>,
    detail_token: &'a str,
) -> (planned: Result<PlannedCall<'a>, String>)
    ensures
        plans(
            planned,
            *config,
            "detail"@,
            provider@,
            pane_id@,
            text::opt_ref(cwd),
            text::opt_ref(session_id),
            Some(detail_token@),
        ),
{
    plan(
        config,
        Request {
            version: PROTOCOL_VERSION,
            op: "detail",
            provider,
            pane_id,
            cwd,
            session_id,
            subagent_id: Some(detail_token),
        },
    )
}

/// The detail in the answer to a `detail` request.
pub fn detail_answer(answer: Result<Reply, String>) -> (result: Result<Detail, String>)
    ensures
        match (answer, result) {
            (Ok(reply), Ok(found)) => reply.detail == Some(found),
            (Ok(reply), Err(error)) => reply.detail is None && error@
                == "collector returned no detail"@,
            (Err(cause), Err(error)) => error == cause,
            (Err(_), Ok(_)) => false,
        },
{
    match answer {
        Ok(reply) => match reply.detail {
            Some(found) => Ok(found),
            None => Err(owned("collector returned no detail")),
        },
        Err(cause) => Err(cause),
    }
}

/// How a collector process ended.
pub enum CallEnd {
    /// The program could not be started.
    NotStarted(String),
    /// The child has no stdin.
    NoStdin,
    /// The child has no stdout.
    NoStdout,
    /// The request could not be encoded or written, or the child not waited for.
    Failed(String),
    /// The child was still running at its deadline.
    TimedOut,
    /// The thread that reads stdout panicked.
    ReaderPanicked,
    /// The child exited.
    Exited {
        /// How many bytes it wrote, counted to one above the limit.
        output_bytes: usize,
        /// Whether its exit status is a success.
        success: bool,
        /// Its exit status in words.
        status: String,
        /// What its output says as JSON.
        parsed: Result<Reply, String>,
    },
}

/// What is wrong with the way a call ended.
pub open spec fn call_fault(end: CallEnd) -> Option<Seq<char>> {
    match end {
        CallEnd::NotStarted(error) => Some("cannot start collector: "@ + error@),
        CallEnd::NoStdin => Some("collector stdin unavailable"@),
        CallEnd::NoStdout => Some("collector stdout unavailable"@),
        CallEnd::Failed(error) => Some(error@),
        CallEnd::TimedOut => Some("collector timed out"@),
        CallEnd::ReaderPanicked => Some("collector stdout reader panicked"@),
        CallEnd::Exited { output_bytes, success, status, parsed } => {
            if output_bytes > MAX_OUTPUT_BYTES {
                Some("collector output exceeds 1 MiB"@)
            } else if !success {
                Some("collector exited with "@ + status@)
            } else {
                match parsed {
                    Err(error) => Some("invalid collector reply: "@ + error@),
                    Ok(reply) => {
                        if reply.version != PROTOCOL_VERSION {
                            Some(
                                "unsupported collector reply version "@ + number::decimal_of(
                                    reply.version as nat,
                                ),
                            )
                        } else {
                            reply_fault(reply)
                        }
                    },
                }
            }
        },
    }
}

/// The answer of a collector, once its process is done.
pub fn call(end: CallEnd) -> (answer: Result<Reply, String>)
    ensures
        match answer {
            Ok(reply) => {
                &&& call_fault(end) is None
                &&& end matches CallEnd::Exited { parsed, .. } && parsed == Ok::<Reply, String>(
                    reply,
                )
            },
            Err(error) => call_fault(end) == Some(error@),
        },
{
    match end {
        CallEnd::NotStarted(error) => Err(concat2("cannot start collector: ", error.as_str())),
        CallEnd::NoStdin => Err(owned("collector stdin unavailable")),
        CallEnd::NoStdout => Err(owned("collector stdout unavailable")),
        CallEnd::Failed(error) => Err(error),
        CallEnd::TimedOut => Err(owned("collector timed out")),
        CallEnd::ReaderPanicked => Err(owned("collector stdout reader panicked")),
        CallEnd::Exited { output_bytes, success, status, parsed } => {
            if output_bytes > MAX_OUTPUT_BYTES {
                return Err(owned("collector output exceeds 1 MiB"));
            }
            if !success {
                return Err(concat2("collector exited with ", status.as_str()));
            }
            match parsed {
                Err(error) => Err(concat2("invalid collector reply: ", error.as_str())),
                Ok(reply) => {
                    if reply.version != PROTOCOL_VERSION {
                        let version = decimal(reply.version as u64);
                        return Err(
                            concat2("unsupported collector reply version ", version.as_str()),
                        );
                    }
                    match validate_reply(&reply) {
                        Ok(_) => Ok(reply),
                        Err(error) => Err(error),
                    }
                },
            }
        },
    }
}

/// What is done next with a collector that was started.
#[derive(Debug, Clone, Copy, PartialEq, Eq, Structural)]
pub enum WaitStep {
    /// It exited: read what it wrote.
    Collect,
    /// It is too late: end its process group.
    Kill,
    /// Look again after this many milliseconds.
    Sleep(u64),
}

/// The time, in milliseconds, at which a collector is given up. A timeout of
/// nothing counts as one millisecond.
pub fn call_deadline(started_ms: u64, timeout_ms: u64) -> (deadline: u64)
    requires
        started_ms + timeout_ms < u64::MAX,
    ensures
        deadline == started_ms + if timeout_ms == 0 {
            1
        } else {
            timeout_ms as int
        },
{
    if timeout_ms == 0 {
        started_ms + 1
    } else {
        started_ms + timeout_ms
    }
}

/// What is done next with a collector: its exit counts, even after the deadline.
pub fn call_wait(exited: bool, now_ms: u64, deadline_ms: u64) -> (step: WaitStep)
    ensures
        step == if exited {
            WaitStep::Collect
        } else if now_ms >= deadline_ms {
            WaitStep::Kill
        } else {
            WaitStep::Sleep(5)
        },
{
    if exited {
        WaitStep::Collect
    } else if now_ms >= deadline_ms {
        WaitStep::Kill
    } else {
        WaitStep::Sleep(5)
    }
}

/// A path whose `~/` stands for the home directory.
pub open spec fn expanded_executable(value: Seq<char>, home: Option<Seq<char>>) -> Seq<char> {
    match (scan::after_prefix(value, "~/"@), home) {
        (Some(rest), Some(dir)) => paths::below(dir, rest),
        _ => value,
    }
}

/// A path whose `~/` stands for the home directory.
pub fn expand_executable(value: &str, home: Option<&str>) -> (path: String)
    ensures
        path@ == expanded_executable(value@, text::opt_ref(home)),
{
    match (strip_prefix(value, "~/"), home) {
        (Some(rest), Some(dir)) => join_path(dir, rest.as_str()),
        _ => owned(value),
    }
}

/// A text whose `$HOME` and `${HOME}` stand for the home directory.
pub open spec fn expanded_home(value: Seq<char>, home: Option<Seq<char>>) -> Seq<char> {
    match home {
        Some(dir) => cut::replaced(cut::replaced(value, "$HOME"@, dir), "${HOME}"@, dir),
        None => value,
    }
}

/// A text whose `$HOME` and `${HOME}` stand for the home directory.
pub fn expand_home(value: &str, home: Option<&str>) -> (expanded: String)
    ensures
        expanded@ == expanded_home(value@, text::opt_ref(home)),
{
    match home {
        Some(dir) => {
            proof {
                reveal_strlit("$HOME");
                reveal_strlit("${HOME}");
            }
            let once = replace(value, "$HOME", dir);
            replace(once.as_str(), "${HOME}", dir)
        },
        None => owned(value),
    }
}

/// The command line of a collector: only its program is expanded.
pub fn collector_argv(program: &ProviderConfig, home: Option<&str>) -> (argv: Vec<String>)
    ensures
        argv@.len() == program.argv@.len(),
        forall|i: int|
            0 <= i < argv@.len() ==> (#[trigger] argv@[i])@ == if i == 0 {
                expanded_executable(program.argv@[0]@, text::opt_ref(home))
            } else {
                program.argv@[i]@
            },
{
    let mut argv: Vec<String> = Vec::new();
    let mut i: usize = 0;
    while i < program.argv.len()
        invariant
            i <= program.argv@.len(),
            argv@.len() == i,
            forall|k: int|
                0 <= k < i ==> (#[trigger] argv@[k])@ == if k == 0 {
                    expanded_executable(program.argv@[0]@, text::opt_ref(home))
                } else {
                    program.argv@[k]@
                },
        decreases program.argv@.len() - i,
    {
        if i == 0 {
            argv.push(expand_executable(program.argv[i].as_str(), home));
        } else {
            argv.push(program.argv[i].clone());
        }
        i = i + 1;
    }
    argv
}

/// Whether a program is named by a full path.
pub open spec fn is_full_path(value: Seq<char>) -> bool {
    paths::is_absolute(value) || scan::starts(value, "~/"@)
}

/// Accepts a program that is named by a full path.
pub fn validate_executable(value: &str) -> (result: Result<(), String>)
    ensures
        match result {
            Ok(_) => is_full_path(value@),
            Err(error) => !is_full_path(value@) && error@
                == "collector executable must be absolute or start with '~/'"@,
        },
{
    if absolute(value) || starts_with(value, "~/") {
        Ok(())
    } else {
        Err(owned("collector executable must be absolute or start with '~/'"))
    }
}

/// What is wrong with the first faulty provider from index `at` on.
pub open spec fn providers_fault(
    providers: Seq<(String, ProviderConfig)>,
    at: int,
) -> Option<Seq<char>>
    decreases providers.len() - at,
{
    if at < 0 || at >= providers.len() {
        None
    } else {
        let argv = providers[at].1.argv@;
        if argv.len() == 0 || argv[0]@.len() == 0 {
            Some("provider argv must contain an executable"@)
        } else if !is_full_path(argv[0]@) {
            Some("collector executable must be absolute or start with '~/'"@)
        } else {
            providers_fault(providers, at + 1)
        }
    }
}

/// Whether slot `at` has safe texts and its id for itself.
pub open spec fn slot_stands(slots: Seq<SlotConfig>, at: int) -> bool {
    &&& safe_text(slots[at].id@)
    &&& safe_text(slots[at].title@)
    &&& forall|j: int| 0 <= j < at ==> (#[trigger] slots[j]).id@ != slots[at].id@
}

/// What is wrong with a configuration, the first fault in the order of the
/// checks.
pub open spec fn config_fault(config: ExtensionsConfig) -> Option<Seq<char>> {
    if config.version != PROTOCOL_VERSION {
        Some("unsupported extensions config version "@ + number::decimal_of(config.version as nat))
    } else if providers_fault(config.providers.listed(), 0) is Some {
        providers_fault(config.providers.listed(), 0)
    } else if exists|i: int|
        0 <= i < config.slots@.len() && !(#[trigger] slot_stands(config.slots@, i)) {
        Some("invalid or duplicate slot id"@)
    } else {
        None
    }
}

fn check_config(config: &ExtensionsConfig) -> (result: Result<(), String>)
    ensures
        match result {
            Ok(_) => config_fault(*config) is None,
            Err(error) => config_fault(*config) == Some(error@),
        },
{
    if config.version != PROTOCOL_VERSION {
        let version = decimal(config.version as u64);
        return Err(concat2("unsupported extensions config version ", version.as_str()));
    }
    let mut i: usize = 0;
    while i < config.providers.len()
        invariant
            i <= config.providers.listed().len(),
            config.version == PROTOCOL_VERSION,
            providers_fault(config.providers.listed(), 0) == providers_fault(
                config.providers.listed(),
                i as int,
            ),
        decreases config.providers.listed().len() - i,
    {
        let provider = config.providers.value_at(i);
        if provider.argv.len() == 0 || provider.argv[0].as_str().is_empty() {
            return Err(owned("provider argv must contain an executable"));
        }
        if let Err(error) = validate_executable(provider.argv[0].as_str()) {
            return Err(error);
        }
        i = i + 1;
    }
    let mut i: usize = 0;
    while i < config.slots.len()
        invariant
            i <= config.slots@.len(),
            config.version == PROTOCOL_VERSION,
            providers_fault(config.providers.listed(), 0) is None,
            forall|k: int| 0 <= k < i ==> #[trigger] slot_stands(config.slots@, k),
        decreases config.slots@.len() - i,
    {
        let mut repeats = false;
        let mut j: usize = 0;
        while j < i
            invariant
                j <= i < config.slots@.len(),
                repeats == exists|k: int|
                    0 <= k < j && (#[trigger] config.slots@[k]).id@ == config.slots@[i as int].id@,
            decreases i - j,
        {
            if same(config.slots[j].id.as_str(), config.slots[i].id.as_str()) {
                repeats = true;
            }
            j = j + 1;
        }
        if !is_safe_text(config.slots[i].id.as_str()) || !is_safe_text(
            config.slots[i].title.as_str(),
        ) || repeats {
            proof {
                assert(!slot_stands(config.slots@, i as int));
            }
            return Err(owned("invalid or duplicate slot id"));
        }
        i = i + 1;
    }
    Ok(())
}

/// What reading a configuration file gave.
pub enum ConfigRead {
    /// The file could not be read.
    Unreadable(String),
    /// The file is no configuration.
    Invalid(String),
    /// The file as a configuration.
    Parsed(ExtensionsConfig),
}

/// Accepts the configuration in the file at `path`, or says what is wrong.
pub fn load_config(path: &str, read: ConfigRead) -> (result: Result<ExtensionsConfig, String>)
    ensures
        match (read, result) {
            (ConfigRead::Unreadable(cause), Err(error)) => error@ == "cannot read "@ + path@ + ": "@
                + cause@,
            (ConfigRead::Invalid(cause), Err(error)) => error@ == "invalid "@ + path@ + ": "@
                + cause@,
            (ConfigRead::Parsed(config), Ok(accepted)) => accepted == config && config_fault(
                config,
            ) is None,
            (ConfigRead::Parsed(config), Err(error)) => config_fault(config) == Some(error@),
            _ => false,
        },
{
    match read {
        ConfigRead::Unreadable(cause) => {
            let mut error = concat2("cannot read ", path);
            error.append(": ");
            error.append(cause.as_str());
            Err(error)
        },
        ConfigRead::Invalid(cause) => {
            let mut error = concat2("invalid ", path);
            error.append(": ");
            error.append(cause.as_str());
            Err(error)
        },
        ConfigRead::Parsed(config) => match check_config(&config) {
            Ok(_) => Ok(config),
            Err(error) => Err(error),
        },
    }
}

/// Where the configuration stands unless an option names another file.
pub fn default_config_path(config_home: Option<&str>, home: Option<&str>) -> (path: String)
    ensures
        path@ == paths::below(
            match (config_home, home) {
                (Some(dir), _) => dir@,
                (None, Some(dir)) => paths::below(dir@, ".config"@),
                (None, None) => ".config"@,
            },
            "tmux-agent-sidebar/extensions.json"@,
        ),
{
    let base = match (config_home, home) {
        (Some(dir), _) => owned(dir),
        (None, Some(dir)) => join_path(dir, ".config"),
        (None, None) => owned(".config"),
    };
    join_path(base.as_str(), "tmux-agent-sidebar/extensions.json")
}

// Laws of what is accepted.

/// A text of an answer holds at most four kilobytes and no control character; where it is
/// needed, it is not empty.
pub proof fn texts_are_bounded_and_plain(value: Seq<char>, i: int)
    ensures
        vstd::utf8::encode_utf8(value).len() > 4096 ==> !safe_text(value) && !valid_text(value),
        0 <= i < value.len() && ((value[i] as u32) < 32 || value[i] as u32 == 127) ==> !safe_text(
            value,
        ) && !valid_text(value),
        value.len() == 0 ==> !valid_text(value) && blank_or_valid(value),
        vstd::utf8::encode_utf8(value).len() <= 4096 && (forall|k: int|
            0 <= k < value.len() ==> !scan::is_control(#[trigger] value[k])) ==> safe_text(value),
        value.len() > 0 && safe_text(value) ==> valid_text(value),
{
    if 0 <= i < value.len() && ((value[i] as u32) < 32 || value[i] as u32 == 127) {
        assert(scan::is_control(value[i]));
        assert(scan::has_control(value));
    }
}

proof fn roots_end_their_walk(links: Seq<chain::LinkModel>, start: Seq<char>)
    requires
        forall|i: int| 0 <= i < links.len() ==> (#[trigger] links[i]).parent is None,
    ensures
        chain::walk_ends(links, start),
{
    no_parent(links, start);
    reveal_with_fuel(chain::walk, 3);
    assert(chain::walk(links, start, 1) is None);
}

proof fn no_parent(links: Seq<chain::LinkModel>, id: Seq<char>)
    requires
        forall|i: int| 0 <= i < links.len() ==> (#[trigger] links[i]).parent is None,
    ensures
        chain::parent_of(links, id) is None,
    decreases links.len(),
{
    if links.len() > 0 && links.last().id != id {
        let rest = links.drop_last();
        assert forall|i: int| 0 <= i < rest.len() implies (#[trigger] rest[i]).parent is None by {
            assert(links[i].parent is None);
        }
        no_parent(rest, id);
        last_is_inside(rest, id);
    } else if links.len() > 0 {
        assert(links[links.len() - 1].parent is None);
    }
}

proof fn last_is_inside(links: Seq<chain::LinkModel>, id: Seq<char>)
    ensures
        chain::last_with(links, id) matches Some(at) ==> 0 <= at < links.len(),
    decreases links.len(),
{
    if links.len() > 0 && links.last().id != id {
        last_is_inside(links.drop_last(), id);
    }
}

proof fn sound_facts_have_no_fault(facts: Seq<Fact>, at: int)
    requires
        0 <= at,
        forall|i: int| 0 <= i < facts.len() ==> #[trigger] fact_stands(facts, i),
        forall|i: int| 0 <= i < facts.len() ==> token_stands((#[trigger] facts[i]).detail_token),
    ensures
        facts_fault(facts, at) is None,
    decreases facts.len() - at,
{
    if at < facts.len() {
        assert(fact_stands(facts, at));
        assert(token_stands(facts[at].detail_token));
        sound_facts_have_no_fault(facts, at + 1);
    }
}

/// An answer of sound facts, with an id of its own for each, is accepted where it tells of
/// no agent and no tree and holds no detail.
pub proof fn sound_facts_are_accepted(reply: Reply)
    requires
        reply.agents@.len() == 0,
        reply.tree@.len() == 0,
        reply.slots.listed().len() == 0,
        reply.detail is None,
        ({
            let facts = reply.facts@ + reply.builtins.exceptions@;
            forall|i: int|
                0 <= i < facts.len() ==> {
                    &&& valid_text((#[trigger] facts[i]).id@)
                    &&& valid_text(facts[i].label@)
                    &&& facts[i].detail@.len() == 0 || valid_text(facts[i].detail@)
                    &&& facts[i].source@.len() == 0 || valid_text(facts[i].source@)
                    &&& facts[i].detail_token matches Some(token) ==> valid_text(token@)
                }
        }),
        ({
            let facts = reply.facts@ + reply.builtins.exceptions@;
            forall|i: int, j: int|
                0 <= i < j < facts.len() ==> (#[trigger] facts[i]).id@ != (#[trigger] facts[j]).id@
        }),
    ensures
        reply_fault(reply) is None,
{
    let facts = reply.facts@ + reply.builtins.exceptions@;
    assert forall|i: int| 0 <= i < facts.len() implies #[trigger] fact_stands(facts, i) by {
        assert(valid_text(facts[i].id@));
        if fact_repeats(facts, i) {
            let j = choose|j: int| 0 <= j < i && (#[trigger] facts[j]).id@ == facts[i].id@;
            assert(facts[j].id@ != facts[i].id@);
        }
    }
    assert forall|i: int| 0 <= i < facts.len() implies token_stands(
        (#[trigger] facts[i]).detail_token,
    ) by {
        assert(valid_text(facts[i].id@));
    }
    sound_facts_have_no_fault(facts, 0);
}

proof fn sound_nodes_have_no_fault(agents: Seq<AgentNode>, tree: Seq<TreeNode>, at: int)
    requires
        0 <= at,
        forall|i: int| 0 <= i < tree.len() ==> #[trigger] node_stands(agents, tree, i),
        forall|i: int| 0 <= i < tree.len() ==> token_stands((#[trigger] tree[i]).detail_token),
    ensures
        nodes_fault(agents, tree, at) is None,
    decreases tree.len() - at,
{
    if at < tree.len() {
        assert(node_stands(agents, tree, at));
        assert(token_stands(tree[at].detail_token));
        sound_nodes_have_no_fault(agents, tree, at + 1);
    }
}

proof fn roots_have_their_place(tree: Seq<TreeNode>, at: int)
    requires
        0 <= at,
        forall|i: int| 0 <= i < tree.len() ==> (#[trigger] tree[i]).parent_id is None,
    ensures
        places_fault(tree, at) is None,
    decreases tree.len() - at,
{
    if at < tree.len() {
        let links = tree_links(tree);
        assert forall|i: int| 0 <= i < links.len() implies (#[trigger] links[i]).parent is None by {
            assert(tree[i].parent_id is None);
        }
        roots_end_their_walk(links, tree[at].id@);
        assert(tree[at].parent_id is None);
        roots_have_their_place(tree, at + 1);
    }
}

/// An answer of sound nodes at the root, each with an id of its own, is accepted.
pub proof fn sound_roots_are_accepted(reply: Reply)
    requires
        reply.facts@.len() == 0,
        reply.builtins.exceptions@.len() == 0,
        reply.slots.listed().len() == 0,
        reply.detail is None,
        forall|i: int|
            0 <= i < reply.agents@.len() ==> valid_text((#[trigger] reply.agents@[i]).id@)
                && valid_text(reply.agents@[i].label@) && reply.agents@[i].parent_id is None,
        forall|i: int|
            0 <= i < reply.tree@.len() ==> valid_text((#[trigger] reply.tree@[i]).id@)
                && valid_text(reply.tree@[i].label@) && reply.tree@[i].parent_id is None
                && reply.tree@[i].detail_token is None,
        forall|i: int, j: int|
            0 <= i < j < reply.agents@.len() ==> (#[trigger] reply.agents@[i]).id@ != (
            #[trigger] reply.agents@[j]).id@,
        forall|i: int, j: int|
            0 <= i < j < reply.tree@.len() ==> (#[trigger] reply.tree@[i]).id@ != (
            #[trigger] reply.tree@[j]).id@,
        forall|i: int, j: int|
            0 <= i < reply.agents@.len() && 0 <= j < reply.tree@.len() ==> (
            #[trigger] reply.agents@[i]).id@ != (#[trigger] reply.tree@[j]).id@,
    ensures
        reply_fault(reply) is None,
{
    let agents = reply.agents@;
    let tree = reply.tree@;
    let facts = reply.facts@ + reply.builtins.exceptions@;
    sound_facts_have_no_fault(facts, 0);
    assert forall|i: int| 0 <= i < agents.len() implies #[trigger] agent_stands(agents, i) by {
        assert(valid_text(agents[i].id@));
        assert forall|j: int| 0 <= j < i implies (#[trigger] agents[j]).id@ != agents[i].id@ by {}
    }
    let links = agent_links(agents);
    assert forall|i: int| 0 <= i < links.len() implies (#[trigger] links[i]).parent is None by {
        assert(agents[i].parent_id is None);
    }
    assert forall|i: int| 0 <= i < agents.len() implies chain::walk_ends(
        links,
        (#[trigger] agents[i]).id@,
    ) by {
        roots_end_their_walk(links, agents[i].id@);
    }
    assert forall|i: int| 0 <= i < agents.len() implies #[trigger] agent_parent_stands(
        agents,
        i,
    ) by {
        assert(agents[i].parent_id is None);
    }
    assert forall|i: int| 0 <= i < tree.len() implies #[trigger] node_stands(agents, tree, i) by {
        assert(valid_text(tree[i].id@));
        assert forall|j: int| 0 <= j < i implies (#[trigger] tree[j]).id@ != tree[i].id@ by {}
        if is_agent(agents, tree[i].id@) {
            let j = choose|j: int|
                0 <= j < agents.len() && (#[trigger] agents[j]).id@ == tree[i].id@;
            assert(agents[j].id@ != tree[i].id@);
        }
    }
    assert forall|i: int| 0 <= i < tree.len() implies token_stands(
        (#[trigger] tree[i]).detail_token,
    ) by {
        assert(tree[i].detail_token is None);
    }
    sound_nodes_have_no_fault(agents, tree, 0);
    roots_have_their_place(tree, 0);
}

/// A collector is believed only where it ended well, wrote at most a megabyte, and answered
/// in the one version that there is, with nothing wrong in what it says.
pub proof fn only_sound_answers_are_believed(
    output_bytes: usize,
    success: bool,
    status: String,
    reply: Reply,
    error: String,
    end: CallEnd,
)
    ensures
        call_fault(
            CallEnd::Exited { output_bytes, success, status, parsed: Ok::<Reply, String>(reply) },
        ) is None <==> output_bytes <= 1048576 && success && reply.version == 1 && reply_fault(
            reply,
        ) is None,
        call_fault(
            CallEnd::Exited { output_bytes, success, status, parsed: Err::<Reply, String>(error) },
        ) is Some,
        end !is Exited ==> call_fault(end) is Some,
{
}

/// A program below the home directory is found there; any other path stays, and so does one
/// where no home is known.
pub proof fn programs_are_found_below_home(home: Seq<char>, rest: Seq<char>, value: Seq<char>)
    requires
        home.len() > 0 && home.last() != '/',
        rest.len() > 0 && rest[0] != '/',
        value.len() == 0 || value[0] != '~',
    ensures
        expanded_executable(seq!['~', '/'] + rest, Some(home)) == home.push('/') + rest,
        expanded_executable(seq!['~', '/'] + rest, None) == seq!['~', '/'] + rest,
        expanded_executable(value, Some(home)) == value,
        is_full_path(seq!['~', '/'] + rest),
        is_full_path(seq!['/'] + rest),
        value.len() == 0 || value[0] != '/' ==> !is_full_path(value),
{
    reveal_strlit("~/");
    reveal_strlit("/");
    let tilde = seq!['~', '/'] + rest;
    assert("~/"@ =~= seq!['~', '/']);
    assert(tilde.subrange(0, 2) =~= "~/"@);
    assert(tilde.skip(2) =~= rest);
    assert(home + "/"@ + rest =~= home.push('/') + rest);
    assert((seq!['/'] + rest)[0] == '/');
    if scan::starts(value, "~/"@) {
        assert(value.subrange(0, 2)[0] == value[0]);
    }
}

/// The name of the home directory is replaced where an argument leads with it, in either
/// way of writing it; an argument without it stays.
pub proof fn arguments_are_read_below_home(home: Seq<char>, rest: Seq<char>)
    requires
        !home.contains('$'),
        !rest.contains('$'),
    ensures
        expanded_home("$HOME"@ + rest, Some(home)) == home + rest,
        expanded_home("${HOME}"@ + rest, Some(home)) == home + rest,
        expanded_home(rest, Some(home)) == rest,
        expanded_home("$HOME"@ + rest, None) == "$HOME"@ + rest,
{
    reveal_strlit("$HOME");
    reveal_strlit("${HOME}");
    let short = "$HOME"@;
    let long = "${HOME}"@;
    assert forall|i: int| 0 <= i < rest.len() implies rest[i] != '$' by {
        assert(rest.contains(rest[i]));
    }
    assert forall|i: int| 0 <= i < home.len() implies home[i] != '$' by {
        assert(home.contains(home[i]));
    }
    assert(rest.skip(0) =~= rest);
    cut::nothing_to_replace(rest, short, home, 0);
    cut::nothing_to_replace(rest, long, home, 0);

    let first = short + rest;
    assert(first.subrange(0, 5) =~= short);
    cut::nothing_to_replace(first, short, home, 5);
    assert(first.skip(5) =~= rest);
    let made = home + rest;
    assert(cut::replaced(first, short, home) =~= made);
    cut::nothing_to_replace(made, long, home, 0);
    assert(made.skip(0) =~= made);

    let second = long + rest;
    assert(!scan::stands_at(second, short, 0)) by {
        if scan::stands_at(second, short, 0) {
            assert(second.subrange(0, 5)[1] == second[1]);
            assert(short[1] == 'H' && second[1] == '{');
        }
    }
    cut::nothing_to_replace(second, short, home, 1);
    assert(seq![second[0]] + second.skip(1) =~= second);
    assert(cut::replaced(second, short, home) =~= second);
    assert(second.subrange(0, 7) =~= long);
    cut::nothing_to_replace(second, long, home, 7);
    assert(second.skip(7) =~= rest);
    assert(cut::replaced(second, long, home) =~= made);
}

/// A configuration is accepted just where it has the one version that there is, each
/// provider names a program by a full path, and each slot has a plain id of its own and a
/// plain title.
pub proof fn sound_configurations_are_accepted(config: ExtensionsConfig)
    ensures
        config_fault(config) is None <==> config.version == 1 && (forall|i: int|
            0 <= i < config.providers.listed().len() ==> names_full_path(
                (#[trigger] config.providers.listed()[i]).1,
            )) && (forall|i: int|
            0 <= i < config.slots@.len() ==> safe_text((#[trigger] config.slots@[i]).id@)
                && safe_text(config.slots@[i].title@)) && (forall|i: int, j: int|
            0 <= i < j < config.slots@.len() ==> (#[trigger] config.slots@[i]).id@ != (
            #[trigger] config.slots@[j]).id@),
{
    providers_without_fault(config.providers.listed(), 0);
    let slots = config.slots@;
    if exists|i: int| 0 <= i < slots.len() && !(#[trigger] slot_stands(slots, i)) {
        let i = choose|i: int| 0 <= i < slots.len() && !(#[trigger] slot_stands(slots, i));
        if safe_text(slots[i].id@) && safe_text(slots[i].title@) {
            let j = choose|j: int| 0 <= j < i && (#[trigger] slots[j]).id@ == slots[i].id@;
            assert(slots[j].id@ == slots[i].id@);
        }
    } else {
        assert forall|i: int| 0 <= i < slots.len() implies safe_text((#[trigger] slots[i]).id@)
            && safe_text(slots[i].title@) by {
            assert(slot_stands(slots, i));
        }
        assert forall|i: int, j: int| 0 <= i < j < slots.len() implies (#[trigger] slots[i]).id@
            != (#[trigger] slots[j]).id@ by {
            assert(slot_stands(slots, j));
        }
    }
}

/// Whether a provider names a program by a path from the root or from the home directory.
pub open spec fn names_full_path(provider: ProviderConfig) -> bool {
    let argv = provider.argv@;
    argv.len() > 0 && argv[0]@.len() > 0 && (argv[0]@[0] == '/' || (argv[0]@.len() > 1
        && argv[0]@[0] == '~' && argv[0]@[1] == '/'))
}

proof fn providers_without_fault(providers: Seq<(String, ProviderConfig)>, at: int)
    requires
        0 <= at,
    ensures
        providers_fault(providers, at) is None <==> forall|i: int|
            at <= i < providers.len() ==> names_full_path((#[trigger] providers[i]).1),
    decreases providers.len() - at,
{
    if at < providers.len() {
        reveal_strlit("~/");
        assert("~/"@ =~= seq!['~', '/']);
        let argv = providers[at].1.argv@;
        if argv.len() > 0 && argv[0]@.len() > 1 {
            let start = argv[0]@.subrange(0, 2);
            assert(start[0] == argv[0]@[0] && start[1] == argv[0]@[1]);
            if argv[0]@[0] == '~' && argv[0]@[1] == '/' {
                assert(start =~= "~/"@);
            }
        }
        assert(providers_fault(providers, at) is None <==> names_full_path(providers[at].1)
            && providers_fault(providers, at + 1) is None);
        providers_without_fault(providers, at + 1);
        if names_full_path(providers[at].1) && (forall|i: int|
            at + 1 <= i < providers.len() ==> names_full_path((#[trigger] providers[i]).1)) {
            assert forall|i: int| at <= i < providers.len() implies names_full_path(
                (#[trigger] providers[i]).1,
            ) by {
                if i > at {
                    assert(names_full_path(providers[i].1));
                }
            }
        }
    }
}

} // verus!
