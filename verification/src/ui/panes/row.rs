//! The rows below an agent: what its collector knows of it.

use vstd::prelude::*;
use vstd::string::StringExecFns;

use crate::extension;
use crate::extension::{
    Evidence, ExtensionsConfig, Fact, FactModel, Inspection, NodeModel, SlotConfig, TreeNode,
};
use crate::activity::{TaskProgress, TaskStatus};
use crate::group::PaneGitInfo;
use crate::number;
use crate::number::decimal;
use crate::state::extensions;
use crate::state::extensions::{CapabilityUiState, TargetModel, TreeTarget};
use crate::text;
use crate::tmux::types::{PaneInfo, PaneStatus};
use crate::text::{concat2, concat3, list_has, owned, owned_opt, same};
use crate::ui::text as cells;
use crate::ui::text::truncate_to_width;

verus! {

/// How a row is coloured.
#[derive(Debug, Clone, Copy, PartialEq, Eq, Structural)]
pub enum Tone {
    Muted,
    Inactive,
    Error,
}

/// A row below an agent, and what a click on it means. The text is cut to the
/// width of the list.
#[derive(Debug)]
pub struct TreeRow {
    pub text: String,
    pub tone: Tone,
    pub target: TreeTarget,
}

/// The model of a row.
pub struct RowModel {
    pub text: Seq<char>,
    pub tone: Tone,
    pub target: TargetModel,
}

impl View for TreeRow {
    type V = RowModel;

    open spec fn view(&self) -> RowModel {
        RowModel { text: self.text@, tone: self.tone, target: self.target@ }
    }
}

/// The models of a list of rows.
pub open spec fn row_models(rows: Seq<TreeRow>) -> Seq<RowModel> {
    rows.map_values(|row: TreeRow| row@)
}

/// What rows are made for: an agent of a pane, as a provider sees it, which nodes
/// are unfolded, and how many cells a row has.
#[derive(Clone, Copy)]
pub struct Scope<'a> {
    pub pane_id: &'a str,
    pub provider_id: &'a str,
    pub session_id: Option<&'a str>,
    pub agent_id: &'a str,
    pub ui: &'a CapabilityUiState,
    pub room: usize,
}

/// The model of what rows are made for.
pub struct ScopeModel {
    pub pane_id: Seq<char>,
    pub provider_id: Seq<char>,
    pub session_id: Option<Seq<char>>,
    pub agent_id: Seq<char>,
    pub expanded: Set<Seq<char>>,
    pub room: usize,
}

impl<'a> View for Scope<'a> {
    type V = ScopeModel;

    open spec fn view(&self) -> ScopeModel {
        ScopeModel {
            pane_id: self.pane_id@,
            provider_id: self.provider_id@,
            session_id: text::opt_ref(self.session_id),
            agent_id: self.agent_id@,
            expanded: self.ui.expanded@,
            room: self.room,
        }
    }
}

impl ScopeModel {
    /// What a click on a row means.
    pub open spec fn target(
        self,
        agent_id: Seq<char>,
        node_id: Seq<char>,
        detail_token: Option<Seq<char>>,
        is_disclosure: bool,
    ) -> TargetModel {
        TargetModel {
            parent_pane_id: self.pane_id,
            provider_id: self.provider_id,
            session_id: self.session_id,
            agent_id,
            node_id,
            detail_token,
            inline_detail: None,
            is_disclosure,
        }
    }

    /// Whether a node is unfolded.
    pub open spec fn expands(self, node_id: Seq<char>) -> bool {
        self.expanded.contains(extensions::node_key(self.pane_id, node_id))
    }
}

impl<'a> Scope<'a> {
    fn target_at(
        &self,
        agent_id: &str,
        node_id: String,
        detail_token: Option<String>,
        is_disclosure: bool,
    ) -> (target: TreeTarget)
        ensures
            target@ == self@.target(agent_id@, node_id@, text::opt(detail_token), is_disclosure),
    {
        TreeTarget {
            parent_pane_id: owned(self.pane_id),
            provider_id: owned(self.provider_id),
            session_id: owned_opt(self.session_id),
            agent_id: owned(agent_id),
            node_id,
            detail_token,
            inline_detail: None,
            is_disclosure,
        }
    }
}

/// The category by which a fact is hidden and ordered.
pub fn fact_category(fact: &Fact) -> (category: &str)
    ensures
        category@ == fact@.category,
{
    fact.category.as_str()
}

/// Whether the configuration hides a category.
pub open spec fn hides(config: ExtensionsConfig, category: Seq<char>) -> bool {
    text::texts(config.hidden_rows@).contains(category)
}

/// Whether the configuration hides a category.
pub fn is_hidden(config: &ExtensionsConfig, category: &str) -> (yes: bool)
    ensures
        yes == hides(*config, category@),
{
    list_has(&config.hidden_rows, category)
}

/// The first place, counted from `from`, of a category in an order; the greatest
/// number for one that is not in it.
pub open spec fn rank_from(order: Seq<Seq<char>>, category: Seq<char>, from: int) -> int
    decreases order.len() - from,
{
    if from < 0 || from >= order.len() {
        usize::MAX as int
    } else if order[from] == category {
        from
    } else {
        rank_from(order, category, from + 1)
    }
}

/// The place of a category in the configured order.
pub open spec fn rank_of(config: ExtensionsConfig, category: Seq<char>) -> int {
    rank_from(text::texts(config.row_order@), category, 0)
}

/// The place of a category in the configured order. What the order leaves out
/// comes last.
pub fn category_rank(config: &ExtensionsConfig, category: &str) -> (rank: usize)
    ensures
        rank == rank_of(*config, category@),
        rank < config.row_order@.len() || rank == usize::MAX,
{
    let ghost order = text::texts(config.row_order@);
    let mut i: usize = 0;
    while i < config.row_order.len()
        invariant
            i <= config.row_order@.len(),
            order == text::texts(config.row_order@),
            rank_from(order, category@, 0) == rank_from(order, category@, i as int),
        decreases config.row_order@.len() - i,
    {
        proof {
            assert(order[i as int] == config.row_order@[i as int]@);
        }
        if same(config.row_order[i].as_str(), category) {
            return i;
        }
        i = i + 1;
    }
    usize::MAX
}

/// The indices of what has a rank, in order.
pub open spec fn bucket(ranks: Seq<int>, rank: int) -> Seq<int>
    decreases ranks.len(),
{
    if ranks.len() == 0 {
        Seq::<int>::empty()
    } else {
        let before = bucket(ranks.drop_last(), rank);
        if ranks.last() == rank {
            before.push(ranks.len() - 1)
        } else {
            before
        }
    }
}

/// The indices of what has a rank below `limit`: rank by rank, and in order
/// within each.
pub open spec fn ranked(ranks: Seq<int>, limit: int) -> Seq<int>
    decreases limit,
{
    if limit <= 0 {
        Seq::<int>::empty()
    } else {
        ranked(ranks, limit - 1) + bucket(ranks, limit - 1)
    }
}

proof fn bucket_holds(ranks: Seq<int>, rank: int)
    ensures
        forall|k: int|
            0 <= k < bucket(ranks, rank).len() ==> 0 <= #[trigger] bucket(ranks, rank)[k]
                < ranks.len() && ranks[bucket(ranks, rank)[k]] == rank,
        forall|j: int, k: int|
            0 <= j < k < bucket(ranks, rank).len() ==> #[trigger] bucket(ranks, rank)[j]
                < #[trigger] bucket(ranks, rank)[k],
        forall|i: int|
            0 <= i < ranks.len() && #[trigger] ranks[i] == rank ==> bucket(ranks, rank).contains(i),
    decreases ranks.len(),
{
    if ranks.len() > 0 {
        let rest = ranks.drop_last();
        bucket_holds(rest, rank);
        let before = bucket(rest, rank);
        let all = bucket(ranks, rank);
        assert forall|k: int| 0 <= k < all.len() implies 0 <= #[trigger] all[k] < ranks.len()
            && ranks[all[k]] == rank by {
            if k < before.len() {
                assert(all[k] == before[k]);
                assert(rest[before[k]] == rank);
            }
        }
        assert forall|j: int, k: int| 0 <= j < k < all.len() implies #[trigger] all[j]
            < #[trigger] all[k] by {
            assert(all[j] == before[j]);
            if k < before.len() {
                assert(all[k] == before[k]);
            }
        }
        assert forall|i: int| 0 <= i < ranks.len() && #[trigger] ranks[i]
            == rank implies all.contains(i) by {
            if i < rest.len() {
                assert(rest[i] == rank);
                let k = before.index_of(i);
                assert(before.contains(i));
                assert(all[k] == i);
            } else {
                assert(all[all.len() - 1] == i);
            }
        }
    }
}

/// Ranking neither loses nor repeats anything: it is ordered by rank, what has
/// the same rank stays in its order, and every index whose rank is in reach
/// comes once.
pub proof fn ranked_is_a_stable_order(ranks: Seq<int>, limit: int)
    ensures
        forall|k: int|
            0 <= k < ranked(ranks, limit).len() ==> 0 <= #[trigger] ranked(ranks, limit)[k]
                < ranks.len() && 0 <= ranks[ranked(ranks, limit)[k]] < limit,
        forall|j: int, k: int|
            0 <= j < k < ranked(ranks, limit).len() ==> {
                let first = #[trigger] ranked(ranks, limit)[j];
                let second = #[trigger] ranked(ranks, limit)[k];
                ranks[first] < ranks[second] || (ranks[first] == ranks[second] && first < second)
            },
        forall|i: int|
            0 <= i < ranks.len() && 0 <= #[trigger] ranks[i] < limit ==> ranked(
                ranks,
                limit,
            ).contains(i),
    decreases limit,
{
    if limit > 0 {
        ranked_is_a_stable_order(ranks, limit - 1);
        bucket_holds(ranks, limit - 1);
        let before = ranked(ranks, limit - 1);
        let last = bucket(ranks, limit - 1);
        let all = ranked(ranks, limit);
        assert forall|k: int| 0 <= k < all.len() implies 0 <= #[trigger] all[k] < ranks.len() && 0
            <= ranks[all[k]] < limit by {
            if k < before.len() {
                assert(all[k] == before[k]);
            } else {
                assert(all[k] == last[k - before.len()]);
            }
        }
        assert forall|j: int, k: int| 0 <= j < k < all.len() implies {
            let first = #[trigger] all[j];
            let second = #[trigger] all[k];
            ranks[first] < ranks[second] || (ranks[first] == ranks[second] && first < second)
        } by {
            if k < before.len() {
                assert(all[j] == before[j] && all[k] == before[k]);
            } else if j < before.len() {
                assert(all[j] == before[j] && all[k] == last[k - before.len()]);
            } else {
                assert(all[j] == last[j - before.len()] && all[k] == last[k - before.len()]);
            }
        }
        assert forall|i: int| 0 <= i < ranks.len() && 0 <= #[trigger] ranks[i]
            < limit implies all.contains(i) by {
            if ranks[i] < limit - 1 {
                assert(before.contains(i));
                let k = before.index_of(i);
                assert(all[k] == i);
            } else {
                assert(last.contains(i));
                let k = last.index_of(i);
                assert(all[before.len() + k] == i);
            }
        }
    }
}

/// The numbers of a list of ranks.
pub open spec fn numbers(list: Seq<usize>) -> Seq<int> {
    list.map_values(|value: usize| value as int)
}

/// Ranks that nothing has add nothing.
proof fn empty_ranks_add_nothing(ranks: Seq<int>, from: int, to: int)
    requires
        0 <= from <= to,
        forall|i: int| 0 <= i < ranks.len() ==> !(from <= #[trigger] ranks[i] < to),
    ensures
        ranked(ranks, to) == ranked(ranks, from),
    decreases to - from,
{
    if from < to {
        empty_ranks_add_nothing(ranks, from, to - 1);
        bucket_holds(ranks, to - 1);
        let last = bucket(ranks, to - 1);
        assert(last.len() == 0) by {
            if last.len() > 0 {
                assert(ranks[last[0]] == to - 1);
            }
        }
        assert(ranked(ranks, to) =~= ranked(ranks, to - 1));
    }
}

fn push_rank(ranks: &Vec<usize>, rank: usize, order: &mut Vec<usize>)
    requires
        forall|k: int| 0 <= k < old(order)@.len() ==> #[trigger] old(order)@[k] < ranks@.len(),
    ensures
        numbers(final(order)@) == numbers(old(order)@) + bucket(numbers(ranks@), rank as int),
        forall|k: int| 0 <= k < final(order)@.len() ==> #[trigger] final(order)@[k] < ranks@.len(),
{
    let ghost all = numbers(ranks@);
    let ghost before = numbers(order@);
    let mut i: usize = 0;
    proof {
        assert(all.take(0) =~= Seq::<int>::empty());
        assert(before + bucket(all.take(0), rank as int) =~= before);
    }
    while i < ranks.len()
        invariant
            i <= ranks@.len(),
            all == numbers(ranks@),
            numbers(order@) == before + bucket(all.take(i as int), rank as int),
            forall|k: int| 0 <= k < order@.len() ==> #[trigger] order@[k] < ranks@.len(),
        decreases ranks@.len() - i,
    {
        let ghost so_far = numbers(order@);
        proof {
            assert(all.take(i + 1).drop_last() =~= all.take(i as int));
            assert(all[i as int] == ranks@[i as int]);
        }
        if ranks[i] == rank {
            order.push(i);
            proof {
                assert(numbers(order@) =~= so_far.push(i as int));
                assert(numbers(order@) =~= before + bucket(all.take(i + 1), rank as int));
            }
        }
        i = i + 1;
    }
    proof {
        assert(all.take(i as int) =~= all);
    }
}

/// The indices of ranks in order, where each rank is below `count` or the greatest.
fn rank_indices(ranks: &Vec<usize>, count: usize) -> (order: Vec<usize>)
    requires
        forall|k: int|
            0 <= k < ranks@.len() ==> #[trigger] ranks@[k] < count || ranks@[k] == usize::MAX,
    ensures
        numbers(order@) == ranked(numbers(ranks@), usize::MAX + 1),
        forall|k: int| 0 <= k < order@.len() ==> #[trigger] order@[k] < ranks@.len(),
{
    let ghost all = numbers(ranks@);
    let mut order: Vec<usize> = Vec::new();
    let mut rank: usize = 0;
    proof {
        assert(numbers(order@) =~= ranked(all, 0));
    }
    while rank < count
        invariant
            rank <= count,
            all == numbers(ranks@),
            numbers(order@) == ranked(all, rank as int),
            forall|k: int| 0 <= k < order@.len() ==> #[trigger] order@[k] < ranks@.len(),
        decreases count - rank,
    {
        push_rank(ranks, rank, &mut order);
        rank = rank + 1;
    }
    proof {
        assert forall|i: int| 0 <= i < all.len() implies !(count <= #[trigger] all[i]
            < usize::MAX) by {
            assert(all[i] == ranks@[i]);
        }
        empty_ranks_add_nothing(all, count as int, usize::MAX as int);
    }
    push_rank(ranks, usize::MAX, &mut order);
    order
}

// Facts and nodes of an agent.

/// The facts that references stand for.
pub open spec fn fact_refs(facts: Seq<&Fact>) -> Seq<FactModel> {
    facts.map_values(|fact: &Fact| (*fact)@)
}

/// The nodes that references stand for.
pub open spec fn node_refs(nodes: Seq<&TreeNode>) -> Seq<NodeModel> {
    nodes.map_values(|node: &TreeNode| (*node)@)
}

/// The facts of an agent that are not hidden, in order.
pub open spec fn visible_facts(
    facts: Seq<FactModel>,
    agent_id: Seq<char>,
    config: ExtensionsConfig,
) -> Seq<FactModel>
    decreases facts.len(),
{
    if facts.len() == 0 {
        Seq::<FactModel>::empty()
    } else {
        let before = visible_facts(facts.drop_last(), agent_id, config);
        if facts.last().agent_id == agent_id && !hides(config, facts.last().category) {
            before.push(facts.last())
        } else {
            before
        }
    }
}

/// The nodes of an agent that are not hidden, in order.
pub open spec fn visible_nodes(
    nodes: Seq<NodeModel>,
    agent_id: Seq<char>,
    config: ExtensionsConfig,
) -> Seq<NodeModel>
    decreases nodes.len(),
{
    if nodes.len() == 0 {
        Seq::<NodeModel>::empty()
    } else {
        let before = visible_nodes(nodes.drop_last(), agent_id, config);
        if nodes.last().agent_id == agent_id && !hides(config, nodes.last().category) {
            before.push(nodes.last())
        } else {
            before
        }
    }
}

/// The ranks of facts.
pub open spec fn fact_ranks(facts: Seq<FactModel>, config: ExtensionsConfig) -> Seq<int> {
    facts.map_values(|fact: FactModel| rank_of(config, fact.category))
}

/// The ranks of nodes.
pub open spec fn node_ranks(nodes: Seq<NodeModel>, config: ExtensionsConfig) -> Seq<int> {
    nodes.map_values(|node: NodeModel| rank_of(config, node.category))
}

/// Facts in the configured order of their categories.
pub open spec fn ordered_facts(facts: Seq<FactModel>, config: ExtensionsConfig) -> Seq<FactModel> {
    ranked(fact_ranks(facts, config), usize::MAX + 1).map_values(
        |i: int| facts[i],
    )
}

/// Nodes in the configured order of their categories.
pub open spec fn ordered_nodes(nodes: Seq<NodeModel>, config: ExtensionsConfig) -> Seq<NodeModel> {
    ranked(node_ranks(nodes, config), usize::MAX + 1).map_values(
        |i: int| nodes[i],
    )
}

fn agent_facts<'a>(
    facts: &'a Vec<Fact>,
    agent_id: &str,
    config: &ExtensionsConfig,
) -> (found: Vec<&'a Fact>)
    ensures
        fact_refs(found@) == ordered_facts(
            visible_facts(extension::fact_models(facts@), agent_id@, *config),
            *config,
        ),
{
    let ghost all = extension::fact_models(facts@);
    let mut visible: Vec<&Fact> = Vec::new();
    let mut ranks: Vec<usize> = Vec::new();
    let mut i: usize = 0;
    proof {
        assert(all.take(0) =~= Seq::<FactModel>::empty());
        assert(fact_refs(visible@) =~= Seq::<FactModel>::empty());
        assert(numbers(ranks@) =~= fact_ranks(Seq::<FactModel>::empty(), *config));
    }
    while i < facts.len()
        invariant
            i <= facts@.len(),
            all == extension::fact_models(facts@),
            fact_refs(visible@) == visible_facts(all.take(i as int), agent_id@, *config),
            ranks@.len() == visible@.len(),
            numbers(ranks@) == fact_ranks(fact_refs(visible@), *config),
            forall|k: int|
                0 <= k < ranks@.len() ==> #[trigger] ranks@[k] < config.row_order@.len()
                    || ranks@[k] == usize::MAX,
        decreases facts@.len() - i,
    {
        let fact = &facts[i];
        proof {
            assert(all.take(i + 1).drop_last() =~= all.take(i as int));
            assert(all[i as int] == fact@);
        }
        let category = fact_category(fact);
        if same(fact.agent_id.as_str(), agent_id) && !is_hidden(config, category) {
            let ghost before = fact_refs(visible@);
            let ghost so_far = numbers(ranks@);
            visible.push(fact);
            ranks.push(category_rank(config, category));
            proof {
                assert(fact_refs(visible@) =~= before.push(fact@));
                assert(numbers(ranks@) =~= so_far.push(rank_of(*config, fact@.category)));
                assert(numbers(ranks@) =~= fact_ranks(fact_refs(visible@), *config));
            }
        }
        i = i + 1;
    }
    proof {
        assert(all.take(i as int) =~= all);
    }
    let order = rank_indices(&ranks, config.row_order.len());
    let ghost wanted = ordered_facts(fact_refs(visible@), *config);
    let mut found: Vec<&Fact> = Vec::new();
    let mut k: usize = 0;
    proof {
        assert(fact_refs(found@) =~= wanted.take(0));
    }
    while k < order.len()
        invariant
            k <= order@.len() == wanted.len(),
            ranks@.len() == visible@.len(),
            numbers(order@) == ranked(
                fact_ranks(fact_refs(visible@), *config),
                usize::MAX + 1,
            ),
            wanted == ordered_facts(fact_refs(visible@), *config),
            forall|j: int| 0 <= j < order@.len() ==> #[trigger] order@[j] < ranks@.len(),
            fact_refs(found@) == wanted.take(k as int),
        decreases order@.len() - k,
    {
        let ghost before = fact_refs(found@);
        proof {
            assert(order@[k as int] < ranks@.len());
            assert(numbers(order@)[k as int] == order@[k as int]);
        }
        found.push(visible[order[k]]);
        proof {
            assert(wanted[k as int] == fact_refs(visible@)[order@[k as int] as int]);
            assert(fact_refs(found@) =~= before.push(wanted[k as int]));
            assert(wanted.take(k + 1) =~= wanted.take(k as int).push(wanted[k as int]));
        }
        k = k + 1;
    }
    proof {
        assert(wanted.take(k as int) =~= wanted);
    }
    found
}

fn agent_nodes<'a>(
    nodes: &'a Vec<TreeNode>,
    agent_id: &str,
    config: &ExtensionsConfig,
) -> (found: Vec<&'a TreeNode>)
    ensures
        node_refs(found@) == ordered_nodes(
            visible_nodes(extension::node_models(nodes@), agent_id@, *config),
            *config,
        ),
{
    let ghost all = extension::node_models(nodes@);
    let mut visible: Vec<&TreeNode> = Vec::new();
    let mut ranks: Vec<usize> = Vec::new();
    let mut i: usize = 0;
    proof {
        assert(all.take(0) =~= Seq::<NodeModel>::empty());
        assert(node_refs(visible@) =~= Seq::<NodeModel>::empty());
        assert(numbers(ranks@) =~= node_ranks(Seq::<NodeModel>::empty(), *config));
    }
    while i < nodes.len()
        invariant
            i <= nodes@.len(),
            all == extension::node_models(nodes@),
            node_refs(visible@) == visible_nodes(all.take(i as int), agent_id@, *config),
            ranks@.len() == visible@.len(),
            numbers(ranks@) == node_ranks(node_refs(visible@), *config),
            forall|k: int|
                0 <= k < ranks@.len() ==> #[trigger] ranks@[k] < config.row_order@.len()
                    || ranks@[k] == usize::MAX,
        decreases nodes@.len() - i,
    {
        let node = &nodes[i];
        proof {
            assert(all.take(i + 1).drop_last() =~= all.take(i as int));
            assert(all[i as int] == node@);
        }
        let category = node.category.as_str();
        if same(node.agent_id.as_str(), agent_id) && !is_hidden(config, category) {
            let ghost before = node_refs(visible@);
            let ghost so_far = numbers(ranks@);
            visible.push(node);
            ranks.push(category_rank(config, category));
            proof {
                assert(node_refs(visible@) =~= before.push(node@));
                assert(numbers(ranks@) =~= so_far.push(rank_of(*config, node@.category)));
                assert(numbers(ranks@) =~= node_ranks(node_refs(visible@), *config));
            }
        }
        i = i + 1;
    }
    proof {
        assert(all.take(i as int) =~= all);
    }
    let order = rank_indices(&ranks, config.row_order.len());
    let ghost wanted = ordered_nodes(node_refs(visible@), *config);
    let mut found: Vec<&TreeNode> = Vec::new();
    let mut k: usize = 0;
    proof {
        assert(node_refs(found@) =~= wanted.take(0));
    }
    while k < order.len()
        invariant
            k <= order@.len() == wanted.len(),
            ranks@.len() == visible@.len(),
            numbers(order@) == ranked(
                node_ranks(node_refs(visible@), *config),
                usize::MAX + 1,
            ),
            wanted == ordered_nodes(node_refs(visible@), *config),
            forall|j: int| 0 <= j < order@.len() ==> #[trigger] order@[j] < ranks@.len(),
            node_refs(found@) == wanted.take(k as int),
        decreases order@.len() - k,
    {
        let ghost before = node_refs(found@);
        proof {
            assert(order@[k as int] < ranks@.len());
            assert(numbers(order@)[k as int] == order@[k as int]);
        }
        found.push(visible[order[k]]);
        proof {
            assert(wanted[k as int] == node_refs(visible@)[order@[k as int] as int]);
            assert(node_refs(found@) =~= before.push(wanted[k as int]));
            assert(wanted.take(k + 1) =~= wanted.take(k as int).push(wanted[k as int]));
        }
        k = k + 1;
    }
    proof {
        assert(wanted.take(k as int) =~= wanted);
    }
    found
}

/// The last fact with an id.
pub open spec fn fact_with(facts: Seq<FactModel>, id: Seq<char>) -> Option<FactModel>
    decreases facts.len(),
{
    if facts.len() == 0 {
        None
    } else if facts.last().id == id {
        Some(facts.last())
    } else {
        fact_with(facts.drop_last(), id)
    }
}

/// The last node with an id.
pub open spec fn node_with(nodes: Seq<NodeModel>, id: Seq<char>) -> Option<NodeModel>
    decreases nodes.len(),
{
    if nodes.len() == 0 {
        None
    } else if nodes.last().id == id {
        Some(nodes.last())
    } else {
        node_with(nodes.drop_last(), id)
    }
}

fn find_fact<'a>(facts: &Vec<&'a Fact>, id: &str) -> (found: Option<&'a Fact>)
    ensures
        match found {
            Some(fact) => fact_with(fact_refs(facts@), id@) == Some(fact@),
            None => fact_with(fact_refs(facts@), id@) is None,
        },
{
    let ghost all = fact_refs(facts@);
    let mut n: usize = facts.len();
    proof {
        assert(all.take(n as int) =~= all);
    }
    while n > 0
        invariant
            n <= facts@.len(),
            all == fact_refs(facts@),
            fact_with(all, id@) == fact_with(all.take(n as int), id@),
        decreases n,
    {
        proof {
            assert(all.take(n as int).drop_last() =~= all.take(n - 1));
        }
        if same(facts[n - 1].id.as_str(), id) {
            return Some(facts[n - 1]);
        }
        n = n - 1;
    }
    None
}

fn find_node<'a>(nodes: &'a Vec<TreeNode>, id: &str) -> (found: Option<&'a TreeNode>)
    ensures
        match found {
            Some(node) => node_with(extension::node_models(nodes@), id@) == Some(node@),
            None => node_with(extension::node_models(nodes@), id@) is None,
        },
{
    let ghost all = extension::node_models(nodes@);
    let mut n: usize = nodes.len();
    proof {
        assert(all.take(n as int) =~= all);
    }
    while n > 0
        invariant
            n <= nodes@.len(),
            all == extension::node_models(nodes@),
            node_with(all, id@) == node_with(all.take(n as int), id@),
        decreases n,
    {
        proof {
            assert(all.take(n as int).drop_last() =~= all.take(n - 1));
        }
        if same(nodes[n - 1].id.as_str(), id) {
            return Some(&nodes[n - 1]);
        }
        n = n - 1;
    }
    None
}

/// The ids of the nodes above, from `parent` upwards, behind those in `above`.
/// The way ends at a node that is not there or was passed before; it is no longer
/// than there are nodes.
pub open spec fn climbed(
    tree: Seq<NodeModel>,
    parent: Option<Seq<char>>,
    above: Seq<Seq<char>>,
) -> Seq<Seq<char>>
    decreases tree.len() - above.len(),
{
    if parent is None || above.len() >= tree.len() || above.contains(parent->0) || node_with(
        tree,
        parent->0,
    ) is None {
        above
    } else {
        climbed(tree, node_with(tree, parent->0)->0.parent_id, above.push(parent->0))
    }
}

/// The ids of the nodes above a node, upwards.
pub open spec fn ancestors(tree: Seq<NodeModel>, node: NodeModel) -> Seq<Seq<char>> {
    climbed(tree, node.parent_id, Seq::<Seq<char>>::empty())
}

fn ancestors_of(tree: &Vec<TreeNode>, node: &TreeNode) -> (above: Vec<String>)
    ensures
        text::texts(above@) == ancestors(extension::node_models(tree@), node@),
        above@.len() <= tree@.len(),
{
    let ghost models = extension::node_models(tree@);
    let mut above: Vec<String> = Vec::new();
    let mut at: &TreeNode = node;
    proof {
        assert(text::texts(above@) =~= Seq::<Seq<char>>::empty());
    }
    while above.len() < tree.len()
        invariant
            models == extension::node_models(tree@),
            above@.len() <= tree@.len(),
            ancestors(models, node@) == climbed(models, at@.parent_id, text::texts(above@)),
        decreases tree@.len() - above@.len(),
    {
        let parent_id: &String = match &at.parent_id {
            Some(id) => id,
            None => {
                return above;
            },
        };
        if list_has(&above, parent_id.as_str()) {
            return above;
        }
        match find_node(tree, parent_id.as_str()) {
            Some(parent) => {
                let ghost before = text::texts(above@);
                above.push(parent_id.clone());
                at = parent;
                proof {
                    assert(text::texts(above@) =~= before.push(parent_id@));
                }
            },
            None => {
                return above;
            },
        }
    }
    above
}

// Rows.

/// The blanks before a row, two for each level.
pub open spec fn indentation(levels: int) -> Seq<char>
    decreases levels,
{
    if levels <= 0 {
        Seq::<char>::empty()
    } else {
        indentation(levels - 1) + "  "@
    }
}

fn indent(levels: usize) -> (blanks: String)
    ensures
        blanks@ == indentation(levels as int),
{
    let mut blanks = String::new();
    let mut i: usize = 0;
    proof {
        assert(blanks@ =~= indentation(0));
    }
    while i < levels
        invariant
            i <= levels,
            blanks@ == indentation(i as int),
        decreases levels - i,
    {
        blanks.append("  ");
        i = i + 1;
    }
    blanks
}

/// The mark of what a fact rests on.
pub open spec fn evidence_mark(evidence: Evidence) -> Seq<char> {
    match evidence {
        Evidence::Observed => "●"@,
        Evidence::Available => "○"@,
        Evidence::Inferred => "~"@,
        Evidence::Error => "×"@,
        Evidence::Unknown => "?"@,
    }
}

/// The row of a fact at a level.
pub open spec fn fact_row(scope: ScopeModel, fact: FactModel, levels: int) -> RowModel {
    fact_row_behind(scope, fact, indentation(levels))
}

/// The row of a fact behind blanks.
pub open spec fn fact_row_behind(scope: ScopeModel, fact: FactModel, blanks: Seq<char>) -> RowModel {
    RowModel {
        text: cells::cut_to(
            "  "@ + blanks + evidence_mark(fact.evidence) + " "@ + fact.label,
            scope.room,
        ),
        tone: Tone::Muted,
        target: scope.target(fact.agent_id, "fact:"@ + fact.id, fact.detail_token, false),
    }
}

fn fact_line(scope: &Scope, fact: &Fact, blanks: &str) -> (row: TreeRow)
    ensures
        row@ == fact_row_behind(scope@, fact@, blanks@),
{
    let mark = match fact.evidence {
        Evidence::Observed => "●",
        Evidence::Available => "○",
        Evidence::Inferred => "~",
        Evidence::Error => "×",
        Evidence::Unknown => "?",
    };
    let mut line = concat3("  ", blanks, mark);
    line.append(" ");
    line.append(fact.label.as_str());
    TreeRow {
        text: truncate_to_width(line.as_str(), scope.room),
        tone: Tone::Muted,
        target: scope.target_at(
            fact.agent_id.as_str(),
            concat2("fact:", fact.id.as_str()),
            fact.detail_token.clone(),
            false,
        ),
    }
}

/// Whether a node of an agent lies right below a node.
pub open spec fn has_child(tree: Seq<NodeModel>, agent_id: Seq<char>, node_id: Seq<char>) -> bool {
    exists|k: int|
        0 <= k < tree.len() && (#[trigger] tree[k]).agent_id == agent_id && tree[k].parent_id
            == Some(node_id)
}

fn find_child(tree: &Vec<TreeNode>, agent_id: &str, node_id: &str) -> (yes: bool)
    ensures
        yes == has_child(extension::node_models(tree@), agent_id@, node_id@),
{
    let ghost models = extension::node_models(tree@);
    let mut i: usize = 0;
    while i < tree.len()
        invariant
            i <= tree@.len(),
            models == extension::node_models(tree@),
            forall|k: int|
                0 <= k < i ==> !((#[trigger] models[k]).agent_id == agent_id@
                    && models[k].parent_id == Some(node_id@)),
        decreases tree@.len() - i,
    {
        proof {
            assert(models[i as int] == tree@[i as int]@);
        }
        if same(tree[i].agent_id.as_str(), agent_id) {
            if let Some(parent) = &tree[i].parent_id {
                if same(parent.as_str(), node_id) {
                    return true;
                }
            }
        }
        i = i + 1;
    }
    false
}

/// Whether a node can be unfolded: a node lies below it, or it lists facts.
pub open spec fn has_content(scope: ScopeModel, tree: Seq<NodeModel>, node: NodeModel) -> bool {
    has_child(tree, scope.agent_id, node.id) || node.fact_ids.len() > 0
}

/// The row of a node.
pub open spec fn node_row(scope: ScopeModel, tree: Seq<NodeModel>, node: NodeModel) -> RowModel {
    let mark = if !has_content(scope, tree, node) {
        "•"@
    } else if scope.expands(node.id) {
        "▼"@
    } else {
        "▶"@
    };
    RowModel {
        text: cells::cut_to(
            "  "@ + indentation(ancestors(tree, node).len() as int) + mark + " "@ + node.label,
            scope.room,
        ),
        tone: Tone::Muted,
        target: scope.target(
            node.agent_id,
            node.id,
            node.detail_token,
            has_content(scope, tree, node),
        ),
    }
}

/// Whether every node above a node is unfolded.
pub open spec fn is_shown(scope: ScopeModel, tree: Seq<NodeModel>, node: NodeModel) -> bool {
    forall|k: int|
        0 <= k < ancestors(tree, node).len() ==> scope.expands(#[trigger] ancestors(tree, node)[k])
}

/// The ids in a list that name a fact.
pub open spec fn known_ids(facts: Seq<FactModel>, ids: Seq<Seq<char>>) -> Seq<Seq<char>>
    decreases ids.len(),
{
    if ids.len() == 0 {
        Seq::<Seq<char>>::empty()
    } else {
        let before = known_ids(facts, ids.drop_last());
        if fact_with(facts, ids.last()) is Some {
            before.push(ids.last())
        } else {
            before
        }
    }
}

/// The rows of the facts that a list of ids names.
pub open spec fn listed_rows(
    scope: ScopeModel,
    facts: Seq<FactModel>,
    ids: Seq<Seq<char>>,
    levels: int,
) -> Seq<RowModel>
    decreases ids.len(),
{
    if ids.len() == 0 {
        Seq::<RowModel>::empty()
    } else {
        let before = listed_rows(scope, facts, ids.drop_last(), levels);
        match fact_with(facts, ids.last()) {
            Some(fact) => before.push(fact_row(scope, fact, levels)),
            None => before,
        }
    }
}

/// The rows of a node: none while a node above it is folded, else its own, and
/// those of its facts while it is unfolded.
pub open spec fn node_rows(
    scope: ScopeModel,
    tree: Seq<NodeModel>,
    facts: Seq<FactModel>,
    node: NodeModel,
) -> Seq<RowModel> {
    if !is_shown(scope, tree, node) {
        Seq::<RowModel>::empty()
    } else if !scope.expands(node.id) {
        seq![node_row(scope, tree, node)]
    } else {
        seq![node_row(scope, tree, node)] + listed_rows(
            scope,
            facts,
            node.fact_ids,
            ancestors(tree, node).len() as int + 1,
        )
    }
}

/// The ids of the facts whose rows a node shows.
pub open spec fn node_facts(
    scope: ScopeModel,
    tree: Seq<NodeModel>,
    facts: Seq<FactModel>,
    node: NodeModel,
) -> Seq<Seq<char>> {
    if is_shown(scope, tree, node) && scope.expands(node.id) {
        known_ids(facts, node.fact_ids)
    } else {
        Seq::<Seq<char>>::empty()
    }
}

/// The rows of nodes.
pub open spec fn all_node_rows(
    scope: ScopeModel,
    tree: Seq<NodeModel>,
    facts: Seq<FactModel>,
    nodes: Seq<NodeModel>,
) -> Seq<RowModel>
    decreases nodes.len(),
{
    if nodes.len() == 0 {
        Seq::<RowModel>::empty()
    } else {
        all_node_rows(scope, tree, facts, nodes.drop_last()) + node_rows(
            scope,
            tree,
            facts,
            nodes.last(),
        )
    }
}

/// The ids of the facts whose rows nodes show.
pub open spec fn all_node_facts(
    scope: ScopeModel,
    tree: Seq<NodeModel>,
    facts: Seq<FactModel>,
    nodes: Seq<NodeModel>,
) -> Seq<Seq<char>>
    decreases nodes.len(),
{
    if nodes.len() == 0 {
        Seq::<Seq<char>>::empty()
    } else {
        all_node_facts(scope, tree, facts, nodes.drop_last()) + node_facts(
            scope,
            tree,
            facts,
            nodes.last(),
        )
    }
}

fn push_node(
    scope: &Scope,
    tree: &Vec<TreeNode>,
    facts: &Vec<&Fact>,
    node: &TreeNode,
    rows: &mut Vec<TreeRow>,
    used: &mut Vec<String>,
)
    ensures
        row_models(final(rows)@) == row_models(old(rows)@) + node_rows(
            scope@,
            extension::node_models(tree@),
            fact_refs(facts@),
            node@,
        ),
        text::texts(final(used)@) == text::texts(old(used)@) + node_facts(
            scope@,
            extension::node_models(tree@),
            fact_refs(facts@),
            node@,
        ),
{
    let ghost models = extension::node_models(tree@);
    let ghost known = fact_refs(facts@);
    let ghost rows_before = row_models(rows@);
    let ghost used_before = text::texts(used@);
    let above = ancestors_of(tree, node);
    let ghost chain = ancestors(models, node@);
    let mut i: usize = 0;
    while i < above.len()
        invariant
            i <= above@.len(),
            chain == text::texts(above@),
            chain == ancestors(models, node@),
            forall|k: int| 0 <= k < i ==> scope@.expands(#[trigger] chain[k]),
            rows_before == row_models(rows@),
            used_before == text::texts(used@),
            rows_before == row_models(old(rows)@),
            used_before == text::texts(old(used)@),
            models == extension::node_models(tree@),
            known == fact_refs(facts@),
        decreases above@.len() - i,
    {
        proof {
            assert(chain[i as int] == above@[i as int]@);
        }
        if !scope.ui.is_expanded(scope.pane_id, above[i].as_str()) {
            proof {
                assert(!is_shown(scope@, models, node@));
                assert(rows_before + node_rows(scope@, models, known, node@) =~= rows_before);
                assert(used_before + node_facts(scope@, models, known, node@) =~= used_before);
            }
            return ;
        }
        i = i + 1;
    }
    proof {
        assert(is_shown(scope@, models, node@));
        assert(text::texts(node.fact_ids@).len() == node.fact_ids@.len());
    }
    let content = find_child(tree, scope.agent_id, node.id.as_str()) || node.fact_ids.len() > 0;
    let expanded = scope.ui.is_expanded(scope.pane_id, node.id.as_str());
    let mark = if !content {
        "•"
    } else if expanded {
        "▼"
    } else {
        "▶"
    };
    let blanks = indent(above.len());
    let deeper = concat2(blanks.as_str(), "  ");
    let mut line = concat3("  ", blanks.as_str(), mark);
    line.append(" ");
    line.append(node.label.as_str());
    let row = TreeRow {
        text: truncate_to_width(line.as_str(), scope.room),
        tone: Tone::Muted,
        target: scope.target_at(
            node.agent_id.as_str(),
            node.id.clone(),
            node.detail_token.clone(),
            content,
        ),
    };
    let ghost own = node_row(scope@, models, node@);
    proof {
        assert(row@ == own);
    }
    rows.push(row);
    proof {
        assert(row_models(rows@) =~= rows_before.push(own));
        assert(rows_before.push(own) =~= rows_before + seq![own]);
    }
    if !expanded {
        proof {
            assert(used_before + node_facts(scope@, models, known, node@) =~= used_before);
        }
        return ;
    }
    let ghost ids = text::texts(node.fact_ids@);
    let ghost levels = chain.len() as int + 1;
    let mut k: usize = 0;
    proof {
        assert(ids.take(0) =~= Seq::<Seq<char>>::empty());
        assert(row_models(rows@) =~= rows_before + seq![own] + listed_rows(
            scope@,
            known,
            ids.take(0),
            levels,
        ));
        assert(text::texts(used@) =~= used_before + known_ids(known, ids.take(0)));
        assert(above@.len() == chain.len());
    }
    while k < node.fact_ids.len()
        invariant
            k <= node.fact_ids@.len(),
            ids == text::texts(node.fact_ids@),
            known == fact_refs(facts@),
            deeper@ == indentation(levels),
            row_models(rows@) == rows_before + seq![own] + listed_rows(
                scope@,
                known,
                ids.take(k as int),
                levels,
            ),
            text::texts(used@) == used_before + known_ids(known, ids.take(k as int)),
        decreases node.fact_ids@.len() - k,
    {
        let id = &node.fact_ids[k];
        proof {
            assert(ids.take(k + 1).drop_last() =~= ids.take(k as int));
            assert(ids[k as int] == id@);
        }
        if let Some(fact) = find_fact(facts, id.as_str()) {
            let ghost rows_so_far = row_models(rows@);
            let ghost used_so_far = text::texts(used@);
            used.push(id.clone());
            rows.push(fact_line(scope, fact, deeper.as_str()));
            proof {
                assert(row_models(rows@) =~= rows_so_far.push(fact_row(scope@, fact@, levels)));
                assert(row_models(rows@) =~= rows_before + seq![own] + listed_rows(
                    scope@,
                    known,
                    ids.take(k + 1),
                    levels,
                ));
                assert(text::texts(used@) =~= used_so_far.push(id@));
                assert(text::texts(used@) =~= used_before + known_ids(known, ids.take(k + 1)));
            }
        }
        k = k + 1;
    }
    proof {
        assert(ids.take(k as int) =~= ids);
        assert(row_models(rows@) =~= rows_before + node_rows(scope@, models, known, node@));
    }
}

/// The rows of the facts that no node shows.
pub open spec fn loose_rows(scope: ScopeModel, facts: Seq<FactModel>, used: Seq<Seq<char>>) -> Seq<
    RowModel,
>
    decreases facts.len(),
{
    if facts.len() == 0 {
        Seq::<RowModel>::empty()
    } else {
        let before = loose_rows(scope, facts.drop_last(), used);
        if used.contains(facts.last().id) {
            before
        } else {
            before.push(fact_row(scope, facts.last(), 0))
        }
    }
}

fn push_loose(scope: &Scope, facts: &Vec<&Fact>, used: &Vec<String>, rows: &mut Vec<TreeRow>)
    ensures
        row_models(final(rows)@) == row_models(old(rows)@) + loose_rows(
            scope@,
            fact_refs(facts@),
            text::texts(used@),
        ),
{
    let ghost known = fact_refs(facts@);
    let ghost before = row_models(rows@);
    let mut i: usize = 0;
    proof {
        assert(known.take(0) =~= Seq::<FactModel>::empty());
        assert(before + loose_rows(scope@, known.take(0), text::texts(used@)) =~= before);
    }
    while i < facts.len()
        invariant
            i <= facts@.len(),
            known == fact_refs(facts@),
            row_models(rows@) == before + loose_rows(
                scope@,
                known.take(i as int),
                text::texts(used@),
            ),
        decreases facts@.len() - i,
    {
        let fact = facts[i];
        proof {
            assert(known.take(i + 1).drop_last() =~= known.take(i as int));
            assert(known[i as int] == fact@);
        }
        if !list_has(used, fact.id.as_str()) {
            let ghost so_far = row_models(rows@);
            rows.push(fact_line(scope, fact, ""));
            proof {
                reveal_strlit("");
                assert(""@ =~= indentation(0));
                assert(row_models(rows@) =~= so_far.push(fact_row(scope@, fact@, 0)));
                assert(row_models(rows@) =~= before + loose_rows(
                    scope@,
                    known.take(i + 1),
                    text::texts(used@),
                ));
            }
        }
        i = i + 1;
    }
    proof {
        assert(known.take(i as int) =~= known);
    }
}

/// The id of the row that sums up what is built in.
pub const BUILTINS_NODE: &'static str = "__builtins__";

/// The category of the row that sums up what is built in.
pub const BUILTINS_CATEGORY: &'static str = "builtins";

/// The category of the rows of configured slots.
pub const SLOTS_CATEGORY: &'static str = "slots";

/// The facts that are not hidden.
pub open spec fn unhidden(facts: Seq<FactModel>, config: ExtensionsConfig) -> Seq<FactModel>
    decreases facts.len(),
{
    if facts.len() == 0 {
        Seq::<FactModel>::empty()
    } else {
        let before = unhidden(facts.drop_last(), config);
        if hides(config, facts.last().category) {
            before
        } else {
            before.push(facts.last())
        }
    }
}

/// The rows of facts at a level.
pub open spec fn fact_rows(scope: ScopeModel, facts: Seq<FactModel>, levels: int) -> Seq<RowModel> {
    facts.map_values(|fact: FactModel| fact_row(scope, fact, levels))
}

/// How exceptions are counted behind the summary.
pub open spec fn exception_note(count: nat) -> Seq<char> {
    if count == 0 {
        Seq::<char>::empty()
    } else if count == 1 {
        " ("@ + number::decimal_of(count) + " exception"@ + ")"@
    } else {
        " ("@ + number::decimal_of(count) + " exceptions"@ + ")"@
    }
}

/// The rows that sum up what is built into an agent.
pub open spec fn builtin_rows(
    scope: ScopeModel,
    config: ExtensionsConfig,
    reply: extension::ReplyModel,
) -> Seq<RowModel> {
    let exceptions = unhidden(reply.exceptions, config);
    let expanded = scope.expands(BUILTINS_NODE@);
    let summary = RowModel {
        text: cells::cut_to(
            "  "@ + (if expanded {
                "▼"@
            } else {
                "▶"@
            }) + " Built-ins: "@ + number::decimal_of(reply.tools_count as nat) + " tools, "@
                + number::decimal_of(reply.skills_count as nat) + " skills"@ + exception_note(
                exceptions.len(),
            ),
            scope.room,
        ),
        tone: Tone::Inactive,
        target: scope.target(reply.builtins_agent_id, BUILTINS_NODE@, None, true),
    };
    if reply.builtins_agent_id != scope.agent_id || hides(config, BUILTINS_CATEGORY@) {
        Seq::<RowModel>::empty()
    } else if expanded {
        seq![summary] + fact_rows(scope, exceptions, 1)
    } else {
        seq![summary]
    }
}

fn visible_exceptions<'a>(facts: &'a Vec<Fact>, config: &ExtensionsConfig) -> (found: Vec<&'a Fact>)
    ensures
        fact_refs(found@) == unhidden(extension::fact_models(facts@), *config),
{
    let ghost all = extension::fact_models(facts@);
    let mut found: Vec<&Fact> = Vec::new();
    let mut i: usize = 0;
    proof {
        assert(all.take(0) =~= Seq::<FactModel>::empty());
        assert(fact_refs(found@) =~= Seq::<FactModel>::empty());
    }
    while i < facts.len()
        invariant
            i <= facts@.len(),
            all == extension::fact_models(facts@),
            fact_refs(found@) == unhidden(all.take(i as int), *config),
        decreases facts@.len() - i,
    {
        let fact = &facts[i];
        proof {
            assert(all.take(i + 1).drop_last() =~= all.take(i as int));
            assert(all[i as int] == fact@);
        }
        if !is_hidden(config, fact_category(fact)) {
            let ghost before = fact_refs(found@);
            found.push(fact);
            proof {
                assert(fact_refs(found@) =~= before.push(fact@));
            }
        }
        i = i + 1;
    }
    proof {
        assert(all.take(i as int) =~= all);
    }
    found
}

fn note_exceptions(count: usize) -> (note: String)
    ensures
        note@ == exception_note(count as nat),
{
    if count == 0 {
        let note = String::new();
        proof {
            assert(note@ =~= exception_note(0));
        }
        return note;
    }
    let mut note = concat2(" (", decimal(count as u64).as_str());
    if count == 1 {
        note.append(" exception");
    } else {
        note.append(" exceptions");
    }
    note.append(")");
    note
}

fn push_builtins(
    scope: &Scope,
    config: &ExtensionsConfig,
    inspection: &Inspection,
    rows: &mut Vec<TreeRow>,
)
    ensures
        row_models(final(rows)@) == row_models(old(rows)@) + builtin_rows(
            scope@,
            *config,
            inspection.reply@,
        ),
{
    let ghost before = row_models(rows@);
    let builtins = &inspection.reply.builtins;
    if !same(builtins.agent_id.as_str(), scope.agent_id) || is_hidden(config, BUILTINS_CATEGORY) {
        proof {
            assert(before + builtin_rows(scope@, *config, inspection.reply@) =~= before);
        }
        return ;
    }
    let expanded = scope.ui.is_expanded(scope.pane_id, BUILTINS_NODE);
    let exceptions = visible_exceptions(&builtins.exceptions, config);
    let ghost known = fact_refs(exceptions@);
    proof {
        assert(known.len() == exceptions@.len());
    }
    let mut line = concat3(
        "  ",
        if expanded {
            "▼"
        } else {
            "▶"
        },
        " Built-ins: ",
    );
    line.append(decimal(builtins.tools_count).as_str());
    line.append(" tools, ");
    line.append(decimal(builtins.skills_count).as_str());
    line.append(" skills");
    line.append(note_exceptions(exceptions.len()).as_str());
    let row = TreeRow {
        text: truncate_to_width(line.as_str(), scope.room),
        tone: Tone::Inactive,
        target: scope.target_at(builtins.agent_id.as_str(), owned(BUILTINS_NODE), None, true),
    };
    let ghost summary = row@;
    rows.push(row);
    proof {
        assert(row_models(rows@) =~= before + seq![summary]);
    }
    if !expanded {
        return ;
    }
    let mut k: usize = 0;
    let ghost listed = fact_rows(scope@, known, 1);
    proof {
        assert(row_models(rows@) =~= before + seq![summary] + listed.take(0));
    }
    while k < exceptions.len()
        invariant
            k <= exceptions@.len() == listed.len(),
            known == fact_refs(exceptions@),
            listed == fact_rows(scope@, known, 1),
            row_models(rows@) == before + seq![summary] + listed.take(k as int),
        decreases exceptions@.len() - k,
    {
        let ghost so_far = row_models(rows@);
        rows.push(fact_line(scope, exceptions[k], "  "));
        proof {
            reveal_with_fuel(indentation, 2);
            assert("  "@ =~= indentation(1));
            assert(listed[k as int] == fact_row(scope@, exceptions@[k as int]@, 1));
            assert(row_models(rows@) =~= so_far.push(listed[k as int]));
            assert(row_models(rows@) =~= before + seq![summary] + listed.take(k + 1));
        }
        k = k + 1;
    }
    proof {
        assert(listed.take(k as int) =~= listed);
        assert(row_models(rows@) =~= before + (seq![summary] + listed));
    }
}

/// The row of a configured slot with a value.
pub open spec fn slot_row(scope: ScopeModel, slot: SlotConfig, value: Seq<char>) -> RowModel {
    RowModel {
        text: cells::cut_to("  "@ + slot.title@ + ": "@ + value, scope.room),
        tone: Tone::Muted,
        target: scope.target(scope.agent_id, "slot:"@ + slot.id@, None, false),
    }
}

/// The rows of the configured slots that have a value.
pub open spec fn slot_rows(
    scope: ScopeModel,
    slots: Seq<SlotConfig>,
    values: Map<Seq<char>, String>,
) -> Seq<RowModel>
    decreases slots.len(),
{
    if slots.len() == 0 {
        Seq::<RowModel>::empty()
    } else {
        let before = slot_rows(scope, slots.drop_last(), values);
        if values.contains_key(slots.last().id@) {
            before.push(slot_row(scope, slots.last(), values[slots.last().id@]@))
        } else {
            before
        }
    }
}

fn push_slots(
    scope: &Scope,
    config: &ExtensionsConfig,
    inspection: &Inspection,
    rows: &mut Vec<TreeRow>,
)
    ensures
        row_models(final(rows)@) == row_models(old(rows)@) + if hides(*config, SLOTS_CATEGORY@) {
            Seq::<RowModel>::empty()
        } else {
            slot_rows(scope@, config.slots@, inspection.reply.slots@)
        },
{
    let ghost before = row_models(rows@);
    if is_hidden(config, SLOTS_CATEGORY) {
        proof {
            assert(before + Seq::<RowModel>::empty() =~= before);
        }
        return ;
    }
    let slots = &config.slots;
    let values = &inspection.reply.slots;
    let mut i: usize = 0;
    proof {
        assert(slots@.take(0) =~= Seq::<SlotConfig>::empty());
        assert(before + slot_rows(scope@, slots@.take(0), values@) =~= before);
    }
    while i < slots.len()
        invariant
            i <= slots@.len(),
            row_models(rows@) == before + slot_rows(scope@, slots@.take(i as int), values@),
        decreases slots@.len() - i,
    {
        let slot = &slots[i];
        proof {
            assert(slots@.take(i + 1).drop_last() =~= slots@.take(i as int));
        }
        if let Some(value) = values.get(slot.id.as_str()) {
            let ghost so_far = row_models(rows@);
            let mut line = concat3("  ", slot.title.as_str(), ": ");
            line.append(value.as_str());
            rows.push(
                TreeRow {
                    text: truncate_to_width(line.as_str(), scope.room),
                    tone: Tone::Muted,
                    target: scope.target_at(
                        scope.agent_id,
                        concat2("slot:", slot.id.as_str()),
                        None,
                        false,
                    ),
                },
            );
            proof {
                assert(row_models(rows@) =~= so_far.push(slot_row(scope@, *slot, value@)));
                assert(row_models(rows@) =~= before + slot_rows(
                    scope@,
                    slots@.take(i + 1),
                    values@,
                ));
            }
        }
        i = i + 1;
    }
    proof {
        assert(slots@.take(i as int) =~= slots@);
    }
}

/// The row that says that what is shown is old, or what went wrong.
pub open spec fn note_rows(scope: ScopeModel, inspection: extension::InspectionModel) -> Seq<RowModel> {
    if inspection.stale {
        seq![
            RowModel {
                text: "  ~ collector data stale"@,
                tone: Tone::Inactive,
                target: scope.target(scope.agent_id, "__stale__"@, None, false),
            },
        ]
    } else {
        match inspection.reply.error {
            Some(error) => seq![
                RowModel {
                    text: cells::cut_to("  × "@ + error, scope.room),
                    tone: Tone::Error,
                    target: scope.target(scope.agent_id, "__error__"@, None, false),
                },
            ],
            None => Seq::<RowModel>::empty(),
        }
    }
}

fn push_note(scope: &Scope, inspection: &Inspection, rows: &mut Vec<TreeRow>)
    ensures
        row_models(final(rows)@) == row_models(old(rows)@) + note_rows(scope@, inspection@),
{
    let ghost before = row_models(rows@);
    if inspection.stale {
        rows.push(
            TreeRow {
                text: owned("  ~ collector data stale"),
                tone: Tone::Inactive,
                target: scope.target_at(scope.agent_id, owned("__stale__"), None, false),
            },
        );
    } else if let Some(error) = &inspection.reply.error {
        rows.push(
            TreeRow {
                text: truncate_to_width(
                    concat2("  × ", error.as_str()).as_str(),
                    scope.room,
                ),
                tone: Tone::Error,
                target: scope.target_at(scope.agent_id, owned("__error__"), None, false),
            },
        );
    }
    proof {
        assert(row_models(rows@) =~= before + note_rows(scope@, inspection@));
    }
}

/// The first agent without a parent, counted from `from`.
pub open spec fn root_agent(agents: Seq<extension::AgentModel>, from: int) -> Option<Seq<char>>
    decreases agents.len() - from,
{
    if from < 0 || from >= agents.len() {
        None
    } else if agents[from].parent_id is None {
        Some(agents[from].id)
    } else {
        root_agent(agents, from + 1)
    }
}

/// The agent whose capabilities are shown: the selected one, else the root agent
/// of the reply, else the pane itself.
pub open spec fn shown_agent(
    inspection: extension::InspectionModel,
    pane_id: Seq<char>,
    selected: Option<Seq<char>>,
) -> Seq<char> {
    match selected {
        Some(id) => id,
        None => match root_agent(inspection.reply.agents, 0) {
            Some(id) => id,
            None => pane_id,
        },
    }
}

fn find_root<'a>(inspection: &'a Inspection) -> (found: Option<&'a str>)
    ensures
        text::opt_ref(found) == root_agent(inspection@.reply.agents, 0),
{
    let agents = &inspection.reply.agents;
    let ghost models = extension::agent_models(agents@);
    let mut i: usize = 0;
    while i < agents.len()
        invariant
            i <= agents@.len(),
            *agents == inspection.reply.agents,
            models == extension::agent_models(agents@),
            root_agent(models, 0) == root_agent(models, i as int),
        decreases agents@.len() - i,
    {
        proof {
            assert(models[i as int] == agents@[i as int]@);
        }
        if agents[i].parent_id.is_none() {
            return Some(agents[i].id.as_str());
        }
        i = i + 1;
    }
    None
}

/// The rows below an agent: its nodes, the facts that no node shows, what is
/// built in, the configured slots, and what is wrong.
pub open spec fn tree_rows(scope: ScopeModel, config: ExtensionsConfig, inspection: Inspection) -> Seq<
    RowModel,
> {
    let reply = inspection.reply@;
    let facts = ordered_facts(visible_facts(reply.facts, scope.agent_id, config), config);
    let nodes = ordered_nodes(visible_nodes(reply.tree, scope.agent_id, config), config);
    all_node_rows(scope, reply.tree, facts, nodes) + loose_rows(
        scope,
        facts,
        all_node_facts(scope, reply.tree, facts, nodes),
    ) + builtin_rows(scope, config, reply) + (if hides(config, SLOTS_CATEGORY@) {
        Seq::<RowModel>::empty()
    } else {
        slot_rows(scope, config.slots@, inspection.reply.slots@)
    }) + note_rows(scope, inspection@)
}

fn push_nodes(
    scope: &Scope,
    tree: &Vec<TreeNode>,
    facts: &Vec<&Fact>,
    nodes: &Vec<&TreeNode>,
    rows: &mut Vec<TreeRow>,
) -> (used: Vec<String>)
    ensures
        row_models(final(rows)@) == row_models(old(rows)@) + all_node_rows(
            scope@,
            extension::node_models(tree@),
            fact_refs(facts@),
            node_refs(nodes@),
        ),
        text::texts(used@) == all_node_facts(
            scope@,
            extension::node_models(tree@),
            fact_refs(facts@),
            node_refs(nodes@),
        ),
{
    let ghost models = extension::node_models(tree@);
    let ghost known = fact_refs(facts@);
    let ghost list = node_refs(nodes@);
    let ghost before = row_models(rows@);
    let mut used: Vec<String> = Vec::new();
    let mut i: usize = 0;
    proof {
        assert(list.take(0) =~= Seq::<NodeModel>::empty());
        assert(before + all_node_rows(scope@, models, known, list.take(0)) =~= before);
        assert(text::texts(used@) =~= Seq::<Seq<char>>::empty());
    }
    while i < nodes.len()
        invariant
            i <= nodes@.len(),
            models == extension::node_models(tree@),
            known == fact_refs(facts@),
            list == node_refs(nodes@),
            row_models(rows@) == before + all_node_rows(
                scope@,
                models,
                known,
                list.take(i as int),
            ),
            text::texts(used@) == all_node_facts(scope@, models, known, list.take(i as int)),
        decreases nodes@.len() - i,
    {
        push_node(scope, tree, facts, nodes[i], rows, &mut used);
        proof {
            assert(list.take(i + 1).drop_last() =~= list.take(i as int));
            assert(list[i as int] == nodes@[i as int]@);
            assert(row_models(rows@) =~= before + all_node_rows(
                scope@,
                models,
                known,
                list.take(i + 1),
            ));
        }
        i = i + 1;
    }
    proof {
        assert(list.take(i as int) =~= list);
    }
    used
}

/// How many cells of a row are left beside the marker.
pub open spec fn row_room(width: usize) -> usize {
    (if width > 2 {
        width - 2
    } else {
        0
    }) as usize
}

/// The rows below an agent. Facts are data, not UI code: configuration may hide
/// and reorder them, and what is built in collapses to one row. A root node is
/// visible by default; descendants require that the nodes above are unfolded, so
/// that a dense collector cannot flood the sidebar. Two cells of the width are left
/// for a marker. Without an inspection or a configuration there are no rows.
pub fn render_extension_tree(
    inspection: Option<&Inspection>,
    config: Option<&ExtensionsConfig>,
    pane_id: &str,
    provider_id: &str,
    session_id: Option<&str>,
    selected_agent_id: Option<&str>,
    ui: &CapabilityUiState,
    width: usize,
) -> (rows: Vec<TreeRow>)
    ensures
        match (inspection, config) {
            (Some(known), Some(settings)) => row_models(rows@) == tree_rows(
                (ScopeModel {
                    pane_id: pane_id@,
                    provider_id: provider_id@,
                    session_id: text::opt_ref(session_id),
                    agent_id: shown_agent(known@, pane_id@, text::opt_ref(selected_agent_id)),
                    expanded: ui.expanded@,
                    room: row_room(width),
                }),
                *settings,
                *known,
            ),
            _ => rows@.len() == 0,
        },
{
    let mut rows: Vec<TreeRow> = Vec::new();
    let (known, settings) = match (inspection, config) {
        (Some(known), Some(settings)) => (known, settings),
        _ => {
            return rows;
        },
    };
    let agent_id: &str = match selected_agent_id {
        Some(id) => id,
        None => match find_root(known) {
            Some(id) => id,
            None => pane_id,
        },
    };
    let room: usize = width.saturating_sub(2);
    let scope = Scope { pane_id, provider_id, session_id, agent_id, ui, room };
    let facts = agent_facts(&known.reply.facts, agent_id, settings);
    let nodes = agent_nodes(&known.reply.tree, agent_id, settings);
    proof {
        assert(row_models(rows@) =~= Seq::<RowModel>::empty());
    }
    let used = push_nodes(&scope, &known.reply.tree, &facts, &nodes, &mut rows);
    push_loose(&scope, &facts, &used, &mut rows);
    push_builtins(&scope, settings, known, &mut rows);
    push_slots(&scope, settings, known, &mut rows);
    push_note(&scope, known, &mut rows);
    proof {
        assert(row_models(rows@) =~= tree_rows(scope@, *settings, *known));
    }
    rows
}

// The rows of a pane itself.

/// A part of what is shown of a pane, from top to bottom.
#[derive(Debug, Clone, Copy, PartialEq, Eq, Structural)]
pub enum PaneRow {
    /// Status, name, badge and elapsed time.
    Status,
    /// Branch and ports.
    Branch,
    Tasks,
    Subagents,
    WaitReason,
    /// The command of a background shell.
    Background,
    /// The prompt or the response, wrapped.
    Prompt,
    /// What to do with an idle agent.
    IdleHint,
}

/// Ports, where they are known.
pub open spec fn known_ports(ports: Option<&[u16]>) -> Option<Seq<u16>> {
    match ports {
        Some(list) => Some(list@),
        None => None,
    }
}

/// Tasks, where they are known.
pub open spec fn known_tasks(progress: Option<&TaskProgress>) -> Option<
    Seq<(Seq<char>, TaskStatus)>,
> {
    match progress {
        Some(tasks) => Some(tasks@),
        None => None,
    }
}

/// Whether the branch row is shown: there is a branch, or a port.
pub open spec fn has_branch_row(git_info: PaneGitInfo, ports: Option<Seq<u16>>) -> bool {
    ||| git_info.branch matches Some(branch) && branch@.len() > 0
    ||| ports matches Some(list) && list.len() > 0
}

/// A part where it is shown.
pub open spec fn row_if(shown: bool, row: PaneRow) -> Seq<PaneRow> {
    if shown {
        seq![row]
    } else {
        Seq::<PaneRow>::empty()
    }
}

/// The parts of a pane that are shown, in order.
pub open spec fn pane_rows(
    pane: PaneInfo,
    git_info: PaneGitInfo,
    ports: Option<Seq<u16>>,
    tasks: Option<Seq<(Seq<char>, TaskStatus)>>,
) -> Seq<PaneRow> {
    seq![PaneRow::Status] + row_if(has_branch_row(git_info, ports), PaneRow::Branch) + row_if(
        tasks matches Some(list) && list.len() > 0,
        PaneRow::Tasks,
    ) + row_if(pane.subagents@.len() > 0, PaneRow::Subagents) + row_if(
        pane.wait_reason@.len() > 0,
        PaneRow::WaitReason,
    ) + row_if(pane.bg_shell_cmd is Some, PaneRow::Background) + row_if(
        pane.prompt@.len() > 0,
        PaneRow::Prompt,
    ) + row_if(pane.prompt@.len() == 0 && pane.status == PaneStatus::Idle, PaneRow::IdleHint)
}

/// Whether the branch row is shown.
pub fn branch_row_shown(git_info: &PaneGitInfo, ports: Option<&[u16]>) -> (shown: bool)
    ensures
        shown == has_branch_row(*git_info, known_ports(ports)),
{
    let branch = match &git_info.branch {
        Some(branch) => !branch.as_str().is_empty(),
        None => false,
    };
    branch || match ports {
        Some(list) => list.len() > 0,
        None => false,
    }
}

/// A part of a pane as it stands out.
#[derive(Debug, Clone, Copy, PartialEq, Eq, Structural)]
pub struct PaneLine {
    pub row: PaneRow,
    /// Whether the marker of tmux's focused pane stands at its left.
    pub marked: bool,
    /// Whether it has the background of the selected pane.
    pub highlighted: bool,
}

/// A part of a pane as it stands out. To keep the accent compact, the marker of
/// tmux's focused pane (`active`) and the background of the pane under the cursor
/// (`selected`) are on the status and the branch alone, never on what comes below.
pub open spec fn styled(row: PaneRow, selected: bool, active: bool) -> PaneLine {
    let leads = row is Status || row is Branch;
    PaneLine { row, marked: active && leads, highlighted: selected && leads }
}

/// The parts of a list as they stand out.
pub open spec fn all_styled(rows: Seq<PaneRow>, selected: bool, active: bool) -> Seq<PaneLine> {
    rows.map_values(|row: PaneRow| styled(row, selected, active))
}

/// A part of a pane as it stands out.
pub fn row_style(row: PaneRow, selected: bool, active: bool) -> (line: PaneLine)
    ensures
        line == styled(row, selected, active),
{
    let leads = match row {
        PaneRow::Status => true,
        PaneRow::Branch => true,
        _ => false,
    };
    PaneLine { row, marked: active && leads, highlighted: selected && leads }
}

/// The parts of a pane that are shown, in order, and how each stands out.
pub fn render_pane_lines_with_ports(
    pane: &PaneInfo,
    git_info: &PaneGitInfo,
    ports: Option<&[u16]>,
    task_progress: Option<&TaskProgress>,
    selected: bool,
    active: bool,
) -> (lines: Vec<PaneLine>)
    ensures
        lines@ == all_styled(
            pane_rows(*pane, *git_info, known_ports(ports), known_tasks(task_progress)),
            selected,
            active,
        ),
{
    let rows = shown_rows(pane, git_info, ports, task_progress);
    let ghost wanted = all_styled(rows@, selected, active);
    let mut lines: Vec<PaneLine> = Vec::new();
    let mut i: usize = 0;
    while i < rows.len()
        invariant
            i <= rows@.len(),
            wanted == all_styled(rows@, selected, active),
            lines@ == wanted.take(i as int),
        decreases rows@.len() - i,
    {
        lines.push(row_style(rows[i], selected, active));
        i = i + 1;
        proof {
            assert(lines@ =~= wanted.take(i as int));
        }
    }
    proof {
        assert(wanted.take(i as int) =~= wanted);
    }
    lines
}

fn shown_rows(
    pane: &PaneInfo,
    git_info: &PaneGitInfo,
    ports: Option<&[u16]>,
    task_progress: Option<&TaskProgress>,
) -> (rows: Vec<PaneRow>)
    ensures
        rows@ == pane_rows(*pane, *git_info, known_ports(ports), known_tasks(task_progress)),
{
    let mut rows: Vec<PaneRow> = Vec::new();
    rows.push(PaneRow::Status);
    proof {
        assert(rows@ =~= seq![PaneRow::Status]);
    }
    let tasks = match task_progress {
        Some(progress) => !progress.is_empty(),
        None => false,
    };
    let prompt = !pane.prompt.as_str().is_empty();
    push_if(&mut rows, branch_row_shown(git_info, ports), PaneRow::Branch);
    push_if(&mut rows, tasks, PaneRow::Tasks);
    push_if(&mut rows, pane.subagents.len() > 0, PaneRow::Subagents);
    push_if(&mut rows, !pane.wait_reason.as_str().is_empty(), PaneRow::WaitReason);
    push_if(&mut rows, pane.bg_shell_cmd.is_some(), PaneRow::Background);
    push_if(&mut rows, prompt, PaneRow::Prompt);
    push_if(&mut rows, !prompt && pane.status == PaneStatus::Idle, PaneRow::IdleHint);
    rows
}

fn push_if(rows: &mut Vec<PaneRow>, shown: bool, row: PaneRow)
    ensures
        final(rows)@ == old(rows)@ + row_if(shown, row),
{
    let ghost before = rows@;
    if shown {
        rows.push(row);
    }
    proof {
        assert(rows@ =~= before + row_if(shown, row));
    }
}

/// Whether the branch row of a pane ends in a marker that removes the worktree.
pub open spec fn has_remove_marker(git_info: PaneGitInfo, sidebar_spawned: bool) -> bool {
    &&& sidebar_spawned
    &&& git_info.is_worktree
    &&& git_info.branch matches Some(branch) && branch@.len() > 0
}

/// The column of the marker that removes the worktree of a pane, where there is
/// one. It is pinned to the right edge, whatever the branch and the ports are.
pub fn sidebar_remove_marker_col(
    git_info: &PaneGitInfo,
    _ports: Option<&[u16]>,
    sidebar_spawned: bool,
    inner_width: usize,
) -> (col: Option<u16>)
    ensures
        match col {
            Some(x) => has_remove_marker(*git_info, sidebar_spawned) && x == inner_width + 1,
            None => !has_remove_marker(*git_info, sidebar_spawned) || inner_width + 1 > u16::MAX,
        },
{
    let branch = match &git_info.branch {
        Some(branch) => !branch.as_str().is_empty(),
        None => false,
    };
    if sidebar_spawned && git_info.is_worktree && branch && inner_width < u16::MAX as usize {
        Some((inner_width + 1) as u16)
    } else {
        None
    }
}

// Laws.

proof fn climb_keeps_the_way(tree: Seq<NodeModel>, parent: Option<Seq<char>>, above: Seq<Seq<char>>)
    ensures
        climbed(tree, parent, above).len() >= above.len(),
        climbed(tree, parent, above).take(above.len() as int) == above,
    decreases tree.len() - above.len(),
{
    let all = climbed(tree, parent, above);
    if !(parent is None || above.len() >= tree.len() || above.contains(parent->0) || node_with(
        tree,
        parent->0,
    ) is None) {
        climb_keeps_the_way(
            tree,
            node_with(tree, parent->0)->0.parent_id,
            above.push(parent->0),
        );
        assert(all.take(above.len() as int + 1).take(above.len() as int) =~= all.take(
            above.len() as int,
        ));
        assert(above.push(parent->0).take(above.len() as int) =~= above);
    } else {
        assert(all.take(above.len() as int) =~= above);
    }
}

/// What lies below a folded node is not shown.
pub proof fn folded_nodes_hide_their_children(
    scope: ScopeModel,
    tree: Seq<NodeModel>,
    facts: Seq<FactModel>,
    node: NodeModel,
    parent: Seq<char>,
)
    requires
        node.parent_id == Some(parent),
        node_with(tree, parent) is Some,
        !scope.expands(parent),
    ensures
        node_rows(scope, tree, facts, node) == Seq::<RowModel>::empty(),
{
    let way = Seq::<Seq<char>>::empty().push(parent);
    climb_keeps_the_way(tree, node_with(tree, parent)->0.parent_id, way);
    assert(ancestors(tree, node).take(1) == way);
    assert(ancestors(tree, node)[0] == ancestors(tree, node).take(1)[0]);
    assert(ancestors(tree, node)[0] == parent);
}

/// A node without a parent is always shown.
pub proof fn root_nodes_are_shown(
    scope: ScopeModel,
    tree: Seq<NodeModel>,
    facts: Seq<FactModel>,
    node: NodeModel,
)
    requires
        node.parent_id is None,
    ensures
        node_rows(scope, tree, facts, node).len() > 0,
        node_rows(scope, tree, facts, node)[0] == node_row(scope, tree, node),
{
}

proof fn visible_facts_belong(facts: Seq<FactModel>, agent_id: Seq<char>, config: ExtensionsConfig)
    ensures
        forall|k: int|
            0 <= k < visible_facts(facts, agent_id, config).len() ==> (#[trigger] visible_facts(
                facts,
                agent_id,
                config,
            )[k]).agent_id == agent_id,
    decreases facts.len(),
{
    if facts.len() > 0 {
        visible_facts_belong(facts.drop_last(), agent_id, config);
        let before = visible_facts(facts.drop_last(), agent_id, config);
        let all = visible_facts(facts, agent_id, config);
        assert forall|k: int| 0 <= k < all.len() implies (#[trigger] all[k]).agent_id
            == agent_id by {
            if k < before.len() {
                assert(all[k] == before[k]);
            }
        }
    }
}

proof fn visible_nodes_belong(nodes: Seq<NodeModel>, agent_id: Seq<char>, config: ExtensionsConfig)
    ensures
        forall|k: int|
            0 <= k < visible_nodes(nodes, agent_id, config).len() ==> (#[trigger] visible_nodes(
                nodes,
                agent_id,
                config,
            )[k]).agent_id == agent_id,
    decreases nodes.len(),
{
    if nodes.len() > 0 {
        visible_nodes_belong(nodes.drop_last(), agent_id, config);
        let before = visible_nodes(nodes.drop_last(), agent_id, config);
        let all = visible_nodes(nodes, agent_id, config);
        assert forall|k: int| 0 <= k < all.len() implies (#[trigger] all[k]).agent_id
            == agent_id by {
            if k < before.len() {
                assert(all[k] == before[k]);
            }
        }
    }
}

/// Whether every row belongs to an agent.
pub open spec fn rows_belong(rows: Seq<RowModel>, agent_id: Seq<char>) -> bool {
    forall|k: int| 0 <= k < rows.len() ==> (#[trigger] rows[k]).target.agent_id == agent_id
}

proof fn fact_with_belongs(facts: Seq<FactModel>, id: Seq<char>, agent_id: Seq<char>)
    requires
        forall|k: int| 0 <= k < facts.len() ==> (#[trigger] facts[k]).agent_id == agent_id,
    ensures
        fact_with(facts, id) matches Some(fact) ==> fact.agent_id == agent_id,
    decreases facts.len(),
{
    if facts.len() > 0 {
        assert(facts[facts.len() - 1].agent_id == agent_id);
        assert forall|k: int| 0 <= k < facts.drop_last().len() implies (
        #[trigger] facts.drop_last()[k]).agent_id == agent_id by {
            assert(facts[k].agent_id == agent_id);
        }
        fact_with_belongs(facts.drop_last(), id, agent_id);
    }
}

proof fn listed_rows_belong(
    scope: ScopeModel,
    facts: Seq<FactModel>,
    ids: Seq<Seq<char>>,
    levels: int,
    agent_id: Seq<char>,
)
    requires
        forall|k: int| 0 <= k < facts.len() ==> (#[trigger] facts[k]).agent_id == agent_id,
    ensures
        rows_belong(listed_rows(scope, facts, ids, levels), agent_id),
    decreases ids.len(),
{
    if ids.len() > 0 {
        listed_rows_belong(scope, facts, ids.drop_last(), levels, agent_id);
        fact_with_belongs(facts, ids.last(), agent_id);
        let before = listed_rows(scope, facts, ids.drop_last(), levels);
        let all = listed_rows(scope, facts, ids, levels);
        assert forall|k: int| 0 <= k < all.len() implies (#[trigger] all[k]).target.agent_id
            == agent_id by {
            if k < before.len() {
                assert(all[k] == before[k]);
            }
        }
    }
}

proof fn node_rows_belong(
    scope: ScopeModel,
    tree: Seq<NodeModel>,
    facts: Seq<FactModel>,
    nodes: Seq<NodeModel>,
    agent_id: Seq<char>,
)
    requires
        forall|k: int| 0 <= k < facts.len() ==> (#[trigger] facts[k]).agent_id == agent_id,
        forall|k: int| 0 <= k < nodes.len() ==> (#[trigger] nodes[k]).agent_id == agent_id,
    ensures
        rows_belong(all_node_rows(scope, tree, facts, nodes), agent_id),
    decreases nodes.len(),
{
    if nodes.len() > 0 {
        let node = nodes.last();
        assert(nodes[nodes.len() - 1].agent_id == agent_id);
        assert forall|k: int| 0 <= k < nodes.drop_last().len() implies (
        #[trigger] nodes.drop_last()[k]).agent_id == agent_id by {
            assert(nodes[k].agent_id == agent_id);
        }
        node_rows_belong(scope, tree, facts, nodes.drop_last(), agent_id);
        let levels = ancestors(tree, node).len() as int + 1;
        listed_rows_belong(scope, facts, node.fact_ids, levels, agent_id);
        let before = all_node_rows(scope, tree, facts, nodes.drop_last());
        let own = node_rows(scope, tree, facts, node);
        let listed = listed_rows(scope, facts, node.fact_ids, levels);
        let all = all_node_rows(scope, tree, facts, nodes);
        assert forall|k: int| 0 <= k < all.len() implies (#[trigger] all[k]).target.agent_id
            == agent_id by {
            if k < before.len() {
                assert(all[k] == before[k]);
            } else {
                let j = k - before.len();
                assert(all[k] == own[j]);
                if j > 0 {
                    assert(own[j] == listed[j - 1]);
                }
            }
        }
    }
}

proof fn loose_rows_belong(
    scope: ScopeModel,
    facts: Seq<FactModel>,
    used: Seq<Seq<char>>,
    agent_id: Seq<char>,
)
    requires
        forall|k: int| 0 <= k < facts.len() ==> (#[trigger] facts[k]).agent_id == agent_id,
    ensures
        rows_belong(loose_rows(scope, facts, used), agent_id),
    decreases facts.len(),
{
    if facts.len() > 0 {
        assert(facts[facts.len() - 1].agent_id == agent_id);
        assert forall|k: int| 0 <= k < facts.drop_last().len() implies (
        #[trigger] facts.drop_last()[k]).agent_id == agent_id by {
            assert(facts[k].agent_id == agent_id);
        }
        loose_rows_belong(scope, facts.drop_last(), used, agent_id);
        let before = loose_rows(scope, facts.drop_last(), used);
        let all = loose_rows(scope, facts, used);
        assert forall|k: int| 0 <= k < all.len() implies (#[trigger] all[k]).target.agent_id
            == agent_id by {
            if k < before.len() {
                assert(all[k] == before[k]);
            }
        }
    }
}

/// The nodes and facts that are shown all belong to the agent they are shown for.
pub proof fn only_the_shown_agent(scope: ScopeModel, config: ExtensionsConfig, inspection: Inspection)
    ensures
        ({
            let reply = inspection.reply@;
            let facts = ordered_facts(
                visible_facts(reply.facts, scope.agent_id, config),
                config,
            );
            let nodes = ordered_nodes(visible_nodes(reply.tree, scope.agent_id, config), config);
            let used = all_node_facts(scope, reply.tree, facts, nodes);
            &&& rows_belong(all_node_rows(scope, reply.tree, facts, nodes), scope.agent_id)
            &&& rows_belong(loose_rows(scope, facts, used), scope.agent_id)
        }),
{
    let reply = inspection.reply@;
    let agent_id = scope.agent_id;
    let some_facts = visible_facts(reply.facts, agent_id, config);
    let some_nodes = visible_nodes(reply.tree, agent_id, config);
    let facts = ordered_facts(some_facts, config);
    let nodes = ordered_nodes(some_nodes, config);
    let limit = usize::MAX + 1;
    visible_facts_belong(reply.facts, agent_id, config);
    visible_nodes_belong(reply.tree, agent_id, config);
    ranked_is_a_stable_order(fact_ranks(some_facts, config), limit);
    ranked_is_a_stable_order(node_ranks(some_nodes, config), limit);
    assert forall|k: int| 0 <= k < facts.len() implies (#[trigger] facts[k]).agent_id
        == agent_id by {
        let at = ranked(fact_ranks(some_facts, config), limit)[k];
        assert(some_facts[at].agent_id == agent_id);
    }
    assert forall|k: int| 0 <= k < nodes.len() implies (#[trigger] nodes[k]).agent_id
        == agent_id by {
        let at = ranked(node_ranks(some_nodes, config), limit)[k];
        assert(some_nodes[at].agent_id == agent_id);
    }
    node_rows_belong(scope, reply.tree, facts, nodes, agent_id);
    loose_rows_belong(scope, facts, all_node_facts(scope, reply.tree, facts, nodes), agent_id);
}

/// A pane has a row for each thing that there is to tell of it, and for nothing else.
pub proof fn panes_have_rows_for_what_is_known(
    pane: PaneInfo,
    git_info: PaneGitInfo,
    ports: Option<Seq<u16>>,
    tasks: Option<Seq<(Seq<char>, TaskStatus)>>,
)
    ensures
        ({
            let rows = pane_rows(pane, git_info, ports, tasks);
            &&& rows[0] is Status
            &&& rows.contains(PaneRow::Tasks) <==> tasks is Some && tasks->0.len() > 0
            &&& rows.contains(PaneRow::Subagents) <==> pane.subagents@.len() > 0
            &&& rows.contains(PaneRow::WaitReason) <==> pane.wait_reason@.len() > 0
            &&& rows.contains(PaneRow::Background) <==> pane.bg_shell_cmd is Some
            &&& rows.contains(PaneRow::Prompt) <==> pane.prompt@.len() > 0
            &&& rows.contains(PaneRow::IdleHint) <==> pane.prompt@.len() == 0 && pane.status is Idle
            &&& rows.contains(PaneRow::Branch) <==> (git_info.branch is Some
                && git_info.branch->0@.len() > 0) || (ports is Some && ports->0.len() > 0)
        }),
{
    let one = seq![PaneRow::Status];
    let two = one + row_if(has_branch_row(git_info, ports), PaneRow::Branch);
    let three = two + row_if(tasks is Some && tasks->0.len() > 0, PaneRow::Tasks);
    let four = three + row_if(pane.subagents@.len() > 0, PaneRow::Subagents);
    let five = four + row_if(pane.wait_reason@.len() > 0, PaneRow::WaitReason);
    let six = five + row_if(pane.bg_shell_cmd is Some, PaneRow::Background);
    let seven = six + row_if(pane.prompt@.len() > 0, PaneRow::Prompt);
    let eight = seven + row_if(
        pane.prompt@.len() == 0 && pane.status == PaneStatus::Idle,
        PaneRow::IdleHint,
    );
    assert(eight == pane_rows(pane, git_info, ports, tasks));
    assert forall|row: PaneRow| #[trigger] eight.contains(row) <==> {
        ||| row is Status
        ||| row is Branch && has_branch_row(git_info, ports)
        ||| row is Tasks && tasks is Some && tasks->0.len() > 0
        ||| row is Subagents && pane.subagents@.len() > 0
        ||| row is WaitReason && pane.wait_reason@.len() > 0
        ||| row is Background && pane.bg_shell_cmd is Some
        ||| row is Prompt && pane.prompt@.len() > 0
        ||| row is IdleHint && pane.prompt@.len() == 0 && pane.status == PaneStatus::Idle
    } by {
        assert(one[0] == PaneRow::Status);
        row_joins(one, has_branch_row(git_info, ports), PaneRow::Branch, row);
        row_joins(two, tasks is Some && tasks->0.len() > 0, PaneRow::Tasks, row);
        row_joins(three, pane.subagents@.len() > 0, PaneRow::Subagents, row);
        row_joins(four, pane.wait_reason@.len() > 0, PaneRow::WaitReason, row);
        row_joins(five, pane.bg_shell_cmd is Some, PaneRow::Background, row);
        row_joins(six, pane.prompt@.len() > 0, PaneRow::Prompt, row);
        row_joins(
            seven,
            pane.prompt@.len() == 0 && pane.status == PaneStatus::Idle,
            PaneRow::IdleHint,
            row,
        );
    }
}

proof fn row_joins(rows: Seq<PaneRow>, shown: bool, added: PaneRow, row: PaneRow)
    ensures
        (rows + row_if(shown, added)).contains(row) <==> rows.contains(row) || (shown && row
            == added),
{
    let all = rows + row_if(shown, added);
    if rows.contains(row) {
        assert(all[rows.index_of(row)] == row);
    }
    if shown {
        assert(all[rows.len() as int] == added);
    }
    if all.contains(row) {
        let at = all.index_of(row);
        if at < rows.len() {
            assert(rows[at] == row);
        }
    }
}

/// The facts that are shown of an agent are its own, but those of a hidden category.
pub proof fn facts_are_those_of_the_agent(
    facts: Seq<FactModel>,
    agent_id: Seq<char>,
    config: ExtensionsConfig,
    fact: FactModel,
)
    ensures
        visible_facts(facts, agent_id, config).contains(fact) <==> facts.contains(fact)
            && fact.agent_id == agent_id && !text::texts(config.hidden_rows@).contains(
            fact.category,
        ),
    decreases facts.len(),
{
    let all = visible_facts(facts, agent_id, config);
    if facts.len() > 0 {
        let rest = facts.drop_last();
        let before = visible_facts(rest, agent_id, config);
        facts_are_those_of_the_agent(rest, agent_id, config, fact);
        if before.contains(fact) {
            assert(all[before.index_of(fact)] == fact);
        }
        if rest.contains(fact) {
            assert(facts[rest.index_of(fact)] == fact);
        }
        if facts.last() == fact {
            assert(facts[facts.len() - 1] == fact);
            if all.len() > before.len() {
                assert(all[before.len() as int] == fact);
            }
        }
        if facts.contains(fact) && facts.last() != fact {
            let at = facts.index_of(fact);
            assert(rest[at] == fact);
        }
        if all.contains(fact) && !before.contains(fact) {
            let at = all.index_of(fact);
            if at < before.len() {
                assert(before[at] == fact);
            }
        }
    }
}

/// The nodes that are shown of an agent are its own, but those of a hidden category.
pub proof fn nodes_are_those_of_the_agent(
    nodes: Seq<NodeModel>,
    agent_id: Seq<char>,
    config: ExtensionsConfig,
    node: NodeModel,
)
    ensures
        visible_nodes(nodes, agent_id, config).contains(node) <==> nodes.contains(node)
            && node.agent_id == agent_id && !text::texts(config.hidden_rows@).contains(
            node.category,
        ),
    decreases nodes.len(),
{
    let all = visible_nodes(nodes, agent_id, config);
    if nodes.len() > 0 {
        let rest = nodes.drop_last();
        let before = visible_nodes(rest, agent_id, config);
        nodes_are_those_of_the_agent(rest, agent_id, config, node);
        if before.contains(node) {
            assert(all[before.index_of(node)] == node);
        }
        if rest.contains(node) {
            assert(nodes[rest.index_of(node)] == node);
        }
        if nodes.last() == node {
            assert(nodes[nodes.len() - 1] == node);
            if all.len() > before.len() {
                assert(all[before.len() as int] == node);
            }
        }
        if nodes.contains(node) && nodes.last() != node {
            let at = nodes.index_of(node);
            assert(rest[at] == node);
        }
        if all.contains(node) && !before.contains(node) {
            let at = all.index_of(node);
            if at < before.len() {
                assert(before[at] == node);
            }
        }
    }
}

/// A level is indented by two blanks.
pub proof fn levels_are_indented_by_two(levels: int, i: int)
    requires
        levels >= 0,
    ensures
        indentation(levels).len() == 2 * levels,
        0 <= i < 2 * levels ==> indentation(levels)[i] == ' ',
    decreases levels,
{
    reveal_strlit("  ");
    if levels > 0 {
        levels_are_indented_by_two(levels - 1, i);
    }
}

/// A category ranks by its place in the configured order, and behind all of it where it is
/// not named there.
pub proof fn categories_rank_by_their_place(
    order: Seq<Seq<char>>,
    category: Seq<char>,
    from: int,
    k: int,
)
    requires
        0 <= from <= k < order.len(),
        order[k] == category,
        forall|j: int| from <= j < k ==> order[j] != category,
    ensures
        rank_from(order, category, from) == k,
    decreases k - from,
{
    if from < k {
        categories_rank_by_their_place(order, category, from + 1, k);
    }
}

} // verus!
