use crate::enums::{ActionType, Procedure};
use crate::game::GameState;
use crate::heuristic::{HeuristicValuePolicy, SCALE};
use crate::model::Action;
use crate::prob::{num_sum, sums_to_one, Prob};
use crate::registry::ActionRegistry;
use crate::rollout::probs;
use vstd::prelude::*;

verus! {

#[derive(Debug, PartialEq, Eq, Structural, Clone, Copy)]
pub enum NodeType {
    Decision,
    Chance,
}

/// A node of the search tree. Children are indices into the tree's arena.
#[derive(Debug)]
pub struct MCTSNode {
    pub state: GameState,
    pub node_type: NodeType,
    pub parent: Option<usize>,
    /// The actions tried from a decision node, beside the children they lead to.
    pub child_actions: Vec<Action>,
    pub children: Vec<usize>,
    /// The outcomes of a chance node, beside their probabilities.
    pub chance_children: Vec<usize>,
    pub outcome_probs: Vec<Prob>,
    pub visits: u64,
    pub total_score: i128,
    pub untried_actions: Vec<Action>,
    pub is_terminal: bool,
    /// The probability of reaching this node from its parent chance node.
    pub chance_probability: Prob,
}

/// Visits are counted up to this bound.
pub const MAX_VISITS: u64 = 4294967295;

/// The action types left out of the search.
pub open spec fn pruned(t: ActionType) -> bool {
    t == ActionType::StartBlitz || t == ActionType::StartPass || t == ActionType::StartHandoff || t
        == ActionType::StartFoul
}

/// Whether a decision node with these actions left to try ends the search line.
pub open spec fn ends_search(s: crate::game::GameStateView, untried_len: int) -> bool {
    untried_len == 0 || s.game_over || s.procedure == Some(Procedure::EndTurn) || s.procedure
        == Some(Procedure::Touchdown) || s.procedure == Some(Procedure::Turnover)
}

/// The first `n` of `acts` without those left out of the search, in order.
pub open spec fn kept(acts: Seq<crate::model::ActionKey>, n: int) -> Seq<crate::model::ActionKey>
    decreases n,
{
    if n <= 0 {
        Seq::empty()
    } else if pruned(acts[n - 1].action_type) {
        kept(acts, n - 1)
    } else {
        kept(acts, n - 1).push(acts[n - 1])
    }
}

fn keep_action(a: &Action) -> (r: bool)
    ensures
        r == !pruned(a.action_type),
{
    !(a.action_type == ActionType::StartBlitz || a.action_type == ActionType::StartPass
        || a.action_type == ActionType::StartHandoff || a.action_type == ActionType::StartFoul)
}

impl MCTSNode {
    /// The statistics bound: the total score is within the number of visits times one.
    pub open spec fn stats_ok(&self) -> bool {
        self.visits <= MAX_VISITS && -(self.visits * SCALE) <= self.total_score <= self.visits
            * SCALE
    }

    /// Adds one visit with `score`, up to the bound on visits.
    pub fn add_visit(&mut self, score: i64)
        requires
            old(self).stats_ok(),
            -SCALE <= score <= SCALE,
        ensures
            final(self).stats_ok(),
            old(self).visits < MAX_VISITS ==> final(self).visits == old(self).visits + 1
                && final(self).total_score == old(self).total_score + score,
            old(self).visits == MAX_VISITS ==> final(self).visits == old(self).visits
                && final(self).total_score == old(self).total_score,
            final(self).state == old(self).state,
            final(self).node_type == old(self).node_type,
            final(self).parent == old(self).parent,
            final(self).child_actions == old(self).child_actions,
            final(self).children == old(self).children,
            final(self).chance_children == old(self).chance_children,
            final(self).outcome_probs == old(self).outcome_probs,
            final(self).untried_actions == old(self).untried_actions,
            final(self).is_terminal == old(self).is_terminal,
            final(self).chance_probability == old(self).chance_probability,
    {
        if self.visits < MAX_VISITS {
            self.visits = self.visits + 1;
            self.total_score = self.total_score + score as i128;
        }
    }

    /// True when nothing is left to try: a decision node that ends the line or has tried
    /// every action, or a chance node whose outcomes are expanded.
    pub fn is_fully_expanded(&self) -> (r: bool)
        ensures
            r == match self.node_type {
                NodeType::Decision => self.is_terminal || self.untried_actions@.len() == 0,
                NodeType::Chance => self.chance_children@.len() > 0,
            },
    {
        match self.node_type {
            NodeType::Decision => self.is_terminal || self.untried_actions.len() == 0,
            NodeType::Chance => self.chance_children.len() > 0,
        }
    }

    /// A chance node for `state`, reached with `probability`.
    pub fn new_chance_node(state: GameState, parent: Option<usize>, probability: Prob) -> (r:
        MCTSNode)
        ensures
            r.state == state,
            r.node_type == NodeType::Chance,
            r.parent == parent,
            r.chance_probability == probability,
            r.children@.len() == 0,
            r.child_actions@.len() == 0,
            r.chance_children@.len() == 0,
            r.outcome_probs@.len() == 0,
            r.visits == 0,
            r.total_score == 0,
            !r.is_terminal,
    {
        MCTSNode {
            state,
            node_type: NodeType::Chance,
            parent,
            child_actions: Vec::new(),
            children: Vec::new(),
            chance_children: Vec::new(),
            outcome_probs: Vec::new(),
            visits: 0,
            total_score: 0,
            untried_actions: Vec::new(),
            is_terminal: false,
            chance_probability: probability,
        }
    }

    /// A decision node for `state`: its actions to try are the available ones but those
    /// left out of the search, in order; it ends the line when none is left, the game is
    /// over, or the turn is over.
    pub fn new_decision_node(state: GameState, parent: Option<usize>, probability: Prob) -> (r:
        MCTSNode)
        ensures
            r.state@ == state@,
            r.node_type == NodeType::Decision,
            r.parent == parent,
            r.chance_probability == probability,
            r.children@.len() == 0,
            r.child_actions@.len() == 0,
            r.chance_children@.len() == 0,
            r.outcome_probs@.len() == 0,
            r.visits == 0,
            r.total_score == 0,
            forall|i: int|
                0 <= i < r.untried_actions@.len() ==> !pruned(
                    (#[trigger] r.untried_actions@[i]).action_type,
                ),
            r.is_terminal == ends_search(state@, r.untried_actions@.len() as int),
            crate::discovery::keys(r.untried_actions@) == kept(
                state@.available_actions,
                state@.available_actions.len() as int,
            ),
    {
        let mut untried: Vec<Action> = Vec::new();
        let mut i: usize = 0;
        proof {
            assert(crate::discovery::keys(untried@) =~= Seq::<crate::model::ActionKey>::empty());
        }
        while i < state.available_actions.len()
            invariant
                i <= state.available_actions@.len(),
                forall|k: int|
                    0 <= k < untried@.len() ==> !pruned((#[trigger] untried@[k]).action_type),
                crate::discovery::keys(untried@) == kept(state@.available_actions, i as int),
            decreases state.available_actions@.len() - i,
        {
            if keep_action(&state.available_actions[i]) {
                let a = state.available_actions[i].clone();
                let ghost before = untried@;
                untried.push(a);
                proof {
                    assert(crate::discovery::keys(untried@) =~= crate::discovery::keys(before).push(a@));
                    assert(state@.available_actions[i as int] == state.available_actions@[i as int]@);
                }
            }
            i = i + 1;
        }
        let terminal = untried.len() == 0 || state.game_over || state.procedure == Some(
            Procedure::EndTurn,
        ) || state.procedure == Some(Procedure::Touchdown) || state.procedure == Some(
            Procedure::Turnover,
        );
        MCTSNode {
            state,
            node_type: NodeType::Decision,
            parent,
            child_actions: Vec::new(),
            children: Vec::new(),
            chance_children: Vec::new(),
            outcome_probs: Vec::new(),
            visits: 0,
            total_score: 0,
            untried_actions: untried,
            is_terminal: terminal,
            chance_probability: probability,
        }
    }
}

/// The node after one more visit with `score`, up to the bound on visits.
pub open spec fn visited(n: MCTSNode, score: int) -> MCTSNode {
    if n.visits < MAX_VISITS {
        MCTSNode { visits: (n.visits + 1) as u64, total_score: (n.total_score + score) as i128, ..n }
    } else {
        n
    }
}

/// Two nodes agree on everything but their links to children and their actions left.
pub open spec fn same_stats(a: MCTSNode, b: MCTSNode) -> bool {
    &&& a.state == b.state
    &&& a.node_type == b.node_type
    &&& a.parent == b.parent
    &&& a.visits == b.visits
    &&& a.total_score == b.total_score
    &&& a.chance_probability == b.chance_probability
    &&& a.is_terminal == b.is_terminal
}

/// The state held by a node made for state `t`: `t` itself where the dice decide, else `t`
/// with its actions discovered, exactly those of the registry where discovery is exact.
pub open spec fn node_state_for(t: crate::game::GameStateView, held: crate::game::GameStateView) -> bool {
    if t.procedure matches Some(p) && crate::registry::is_chance(p) {
        held == t
    } else {
        &&& held == crate::discovery::with_actions(t, held.available_actions)
        &&& (t.procedure matches Some(p) && crate::registry::exact_discovery(p)) ==> held.available_actions
            == crate::registry::discovered(t).unwrap()
    }
}

/// A decision node `i` expanded into the new node `c`: its first action left to try was
/// executed, and the result hangs below it as a chance node exactly when the dice decide.
pub open spec fn decision_expanded(before: Seq<MCTSNode>, after: Seq<MCTSNode>, i: int, c: int) -> bool {
    &&& c == before.len()
    &&& after.len() == before.len() + 1
    &&& before[i].untried_actions@.len() > 0
    &&& after[i].untried_actions@ == before[i].untried_actions@.drop_first()
    &&& after[i].child_actions@ == before[i].child_actions@.push(before[i].untried_actions@[0])
    &&& after[i].children@ == before[i].children@.push(c as usize)
    &&& after[c].parent == Some(i as usize)
    &&& (after[c].node_type == NodeType::Chance <==> (after[c].state.procedure matches Some(p)
        && crate::registry::is_chance(p)))
    &&& after[c].visits == 0
    &&& exists|t: crate::game::GameStateView|
        crate::registry::executes_to(before[i].state@, before[i].untried_actions@[0], t)
            && node_state_for(t, after[c].state@)
}

/// A chance node `i` expanded: one new child per outcome of its roll, each hung below it
/// with the outcome's probability, all nonzero and summing to one; `c` is the first.
pub open spec fn chance_expanded(before: Seq<MCTSNode>, after: Seq<MCTSNode>, i: int, c: int) -> bool {
    let cc = after[i].chance_children@;
    &&& c == before.len()
    &&& before[i].chance_children@.len() == 0
    &&& 0 < cc.len() <= 5
    &&& after.len() == before.len() + cc.len()
    &&& forall|k: int| 0 <= k < cc.len() ==> #[trigger] cc[k] == before.len() + k
    &&& after[i].outcome_probs@.len() == cc.len()
    &&& sums_to_one(after[i].outcome_probs@)
    &&& forall|k: int|
        0 <= k < cc.len() ==> after[#[trigger] cc[k] as int].parent == Some(i as usize)
            && after[cc[k] as int].chance_probability == after[i].outcome_probs@[k]
            && after[i].outcome_probs@[k].num > 0 && after[cc[k] as int].visits == 0
    &&& exists|v: Seq<crate::rollout::RolloutOutcome>|
        crate::registry::rolls_out(before[i].state@, v) && v.len() == cc.len() && forall|k: int|
            0 <= k < cc.len() ==> after[i].outcome_probs@[k] == (#[trigger] v[k]).probability
                && node_state_for(v[k].resulting_state@, after[cc[k] as int].state@)
}

/// The value of node `i` for the side on move: the value policy's for a node without
/// children, the mean of the children's values for an expanded decision node, the
/// children's values weighted by their probabilities for an expanded chance node; `None`
/// where the policy fails somewhere below.
pub open spec fn tree_value(nodes: Seq<MCTSNode>, i: int) -> Option<int>
    decreases nodes.len() - i, 1int, 0int,
{
    if !(0 <= i < nodes.len()) {
        None
    } else {
        let n = nodes[i];
        match n.node_type {
            NodeType::Decision => {
                let len = n.children@.len() as int;
                if len == 0 {
                    crate::heuristic::heuristic_value(n.state@)
                } else {
                    match child_sum(nodes, i, len) {
                        Some(sum) => Some((sum + len * SCALE) / len - SCALE),
                        None => None,
                    }
                }
            },
            NodeType::Chance => {
                let len = n.chance_children@.len() as int;
                if len == 0 {
                    crate::heuristic::heuristic_value(n.state@)
                } else {
                    let den = n.outcome_probs@[0].den as int;
                    match weighted_sum(nodes, i, len) {
                        Some(sum) => Some((sum + den * SCALE) / den - SCALE),
                        None => None,
                    }
                }
            },
        }
    }
}

/// The sum of the values of the first `k` children of decision node `i`.
pub open spec fn child_sum(nodes: Seq<MCTSNode>, i: int, k: int) -> Option<int>
    decreases nodes.len() - i, 0int, k,
{
    if k <= 0 || !(0 <= i < nodes.len()) || k > nodes[i].children@.len() {
        Some(0)
    } else {
        let c = nodes[i].children@[k - 1] as int;
        match child_sum(nodes, i, k - 1) {
            Some(a) => if i < c < nodes.len() {
                match tree_value(nodes, c) {
                    Some(v) => Some(a + v),
                    None => None,
                }
            } else {
                None
            },
            None => None,
        }
    }
}

/// The sum of the values of the first `k` outcomes of chance node `i`, each times the
/// numerator of its probability.
pub open spec fn weighted_sum(nodes: Seq<MCTSNode>, i: int, k: int) -> Option<int>
    decreases nodes.len() - i, 0int, k,
{
    if k <= 0 || !(0 <= i < nodes.len()) || k > nodes[i].chance_children@.len() || k
        > nodes[i].outcome_probs@.len() {
        Some(0)
    } else {
        let c = nodes[i].chance_children@[k - 1] as int;
        match weighted_sum(nodes, i, k - 1) {
            Some(a) => if i < c < nodes.len() {
                match tree_value(nodes, c) {
                    Some(v) => Some(a + nodes[i].outcome_probs@[k - 1].num * v),
                    None => None,
                }
            } else {
                None
            },
            None => None,
        }
    }
}

/// The root built for `s`: a chance node on `s` itself when the dice decide there, else a
/// decision node on `s` with its actions discovered, trying them all but those left out of
/// the search; no parent, no visits.
pub open spec fn root_built(s: crate::game::GameStateView, root: MCTSNode) -> bool {
    &&& root.parent is None
    &&& root.visits == 0
    &&& root.children@.len() == 0
    &&& root.chance_children@.len() == 0
    &&& if s.procedure matches Some(p) && crate::registry::is_chance(p) {
        root.node_type == NodeType::Chance && root.state@ == s
    } else {
        &&& root.node_type == NodeType::Decision
        &&& root.state@ == crate::discovery::with_actions(s, root.state@.available_actions)
        &&& crate::discovery::keys(root.untried_actions@) == kept(
            root.state@.available_actions,
            root.state@.available_actions.len() as int,
        )
        &&& (s.procedure matches Some(p) && crate::registry::exact_discovery(p)) ==> root.state@.available_actions
            == crate::registry::discovered(s).unwrap()
        &&& root.is_terminal == ends_search(root.state@, root.untried_actions@.len() as int)
    }
}

/// Node `before` with the links to children and the actions left of `after`.
pub open spec fn with_links(before: MCTSNode, after: MCTSNode) -> MCTSNode {
    MCTSNode {
        children: after.children,
        child_actions: after.child_actions,
        chance_children: after.chance_children,
        outcome_probs: after.outcome_probs,
        untried_actions: after.untried_actions,
        ..before
    }
}

/// The root after a round: one more visit, up to the bound, with the round's score added.
pub open spec fn visited_root(before: MCTSNode, after: MCTSNode) -> MCTSNode {
    if before.visits < MAX_VISITS {
        MCTSNode {
            visits: (before.visits + 1) as u64,
            total_score: after.total_score,
            children: after.children,
            child_actions: after.child_actions,
            chance_children: after.chance_children,
            outcome_probs: after.outcome_probs,
            untried_actions: after.untried_actions,
            ..before
        }
    } else {
        MCTSNode {
            children: after.children,
            child_actions: after.child_actions,
            chance_children: after.chance_children,
            outcome_probs: after.outcome_probs,
            untried_actions: after.untried_actions,
            ..before
        }
    }
}

/// `a` is the action of a root child that is played: one with the best mean score among
/// the visited children, or any child when none was visited.
pub open spec fn best_choice(nodes: Seq<MCTSNode>, a: crate::model::ActionKey) -> bool {
    let root = nodes[0];
    exists|k: int|
        0 <= k < root.children@.len() && a == (#[trigger] root.child_actions@[k])@ && ((exists|j: int|
            0 <= j < root.children@.len() && nodes[root.children@[j] as int].visits > 0)
            ==> nodes[root.children@[k] as int].visits > 0 && forall|j: int|
            0 <= j < root.children@.len() && nodes[root.children@[j] as int].visits > 0 ==> !mean_above(
                nodes[root.children@[j] as int],
                nodes[root.children@[k] as int],
            ))
}

/// Node `j` lies on the parent chain from node `i` up to the root, `i` included.
pub open spec fn on_chain(nodes: Seq<MCTSNode>, i: int, j: int) -> bool
    decreases i,
{
    if i == j {
        true
    } else if i <= 0 || i >= nodes.len() {
        false
    } else {
        match nodes[i].parent {
            Some(p) => p < i && on_chain(nodes, p as int, j),
            None => false,
        }
    }
}

/// A chain step: from `cur` with parent `p`, the nodes on the chain from `cur` are `cur` and
/// those on the chain from `p`.
proof fn lemma_chain_step(nodes: Seq<MCTSNode>, i: int, cur: int, p: usize)
    requires
        0 < cur < nodes.len(),
        nodes[cur].parent == Some(p),
        p < cur,
    ensures
        forall|j: int| #[trigger] on_chain(nodes, cur, j) == (j == cur || on_chain(nodes, p as int, j)),
{
    assert forall|j: int| #[trigger] on_chain(nodes, cur, j) == (j == cur || on_chain(nodes, p as int, j)) by {
        reveal_with_fuel(on_chain, 2);
        if j != cur {
            assert(on_chain(nodes, cur, j) == on_chain(nodes, p as int, j));
        } else {
            lemma_chain_le(nodes, p as int, j);
        }
    }
}

/// The chain from `i` holds only nodes up to `i`.
proof fn lemma_chain_le(nodes: Seq<MCTSNode>, i: int, j: int)
    ensures
        on_chain(nodes, i, j) ==> j <= i,
    decreases i,
{
    if i != j && 0 < i < nodes.len() {
        if let Some(p) = nodes[i].parent {
            if p < i {
                lemma_chain_le(nodes, p as int, j);
            }
        }
    }
}

/// Chains compose: a node on the chain from a node on the chain from `i` is on it too.
proof fn lemma_chain_trans(nodes: Seq<MCTSNode>, i: int, m: int, j: int)
    requires
        on_chain(nodes, i, m),
        on_chain(nodes, m, j),
    ensures
        on_chain(nodes, i, j),
    decreases i,
{
    if i != m {
        let p = nodes[i].parent.unwrap() as int;
        lemma_chain_trans(nodes, p, m, j);
    }
}

/// In a sound arena the root lies on the chain from every node.
proof fn lemma_chain_reaches_root(nodes: Seq<MCTSNode>, i: int)
    requires
        arena_ok(nodes),
        0 <= i < nodes.len(),
    ensures
        on_chain(nodes, i, 0),
    decreases i,
{
    if i > 0 {
        let p = nodes[i].parent.unwrap() as int;
        lemma_chain_reaches_root(nodes, p);
    }
}

/// The chain from the root holds only the root.
proof fn lemma_chain_to_root(nodes: Seq<MCTSNode>, i: int, j: int)
    ensures
        on_chain(nodes, 0, j) == (j == 0),
{
}

/// Following the parent links from node `i` reaches the root, each step to an earlier node.
pub open spec fn climbs_to_root(nodes: Seq<MCTSNode>, i: int) -> bool
    decreases i,
{
    if i <= 0 {
        i == 0
    } else {
        match nodes[i].parent {
            Some(p) => p < i && climbs_to_root(nodes, p as int),
            None => false,
        }
    }
}

/// The search tree: an arena of nodes, the root first.
pub struct MCTSTree {
    pub nodes: Vec<MCTSNode>,
    pub root_index: usize,
    /// The exploration constant of UCB1, in thousandths.
    pub exploration_constant: u64,
    pub registry: ActionRegistry,
    pub policy: HeuristicValuePolicy,
}

/// The arena is sound: every node but the root has a parent created before it, every child
/// was created after its parent, and the outcome probabilities of each expanded chance node
/// are those of its children and sum to one.
pub open spec fn arena_ok(nodes: Seq<MCTSNode>) -> bool {
    &&& nodes.len() > 0
    &&& nodes[0].parent is None
    &&& forall|i: int|
        0 < i < nodes.len() ==> (#[trigger] nodes[i]).parent is Some && nodes[i].parent.unwrap() < i
    &&& forall|i: int| 0 <= i < nodes.len() ==> (#[trigger] nodes[i]).node_ok(i, nodes)
}

impl MCTSNode {
    pub open spec fn node_ok(&self, i: int, nodes: Seq<MCTSNode>) -> bool {
        &&& self.stats_ok()
        &&& self.child_actions@.len() == self.children@.len()
        &&& forall|k: int|
            0 <= k < self.children@.len() ==> i < #[trigger] self.children@[k] < nodes.len()
        &&& forall|k: int|
            0 <= k < self.children@.len() ==> nodes[#[trigger] self.children@[k] as int].parent == Some(
                i as usize,
            )
        &&& forall|k: int|
            0 <= k < self.chance_children@.len() ==> nodes[#[trigger] self.chance_children@[k] as int].parent
                == Some(i as usize)
        &&& self.outcome_probs@.len() == self.chance_children@.len()
        &&& forall|k: int|
            0 <= k < self.chance_children@.len() ==> i < #[trigger] self.chance_children@[k]
                < nodes.len() && nodes[self.chance_children@[k] as int].chance_probability
                == self.outcome_probs@[k]
        &&& self.chance_children@.len() > 0 ==> sums_to_one(self.outcome_probs@)
        &&& forall|k: int| 0 <= k < self.outcome_probs@.len() ==> (#[trigger] self.outcome_probs@[k]).wf()
    }
}

/// Following the parent links from any node reaches the root in finitely many steps.
pub proof fn lemma_arena_reaches_root(nodes: Seq<MCTSNode>, i: int)
    requires
        arena_ok(nodes),
        0 <= i < nodes.len(),
    ensures
        climbs_to_root(nodes, i),
    decreases i,
{
    if i > 0 {
        let p = nodes[i].parent.unwrap() as int;
        lemma_arena_reaches_root(nodes, p);
    }
}

/// Every expanded chance node's children carry probabilities that sum to one.
pub proof fn lemma_chance_closure(nodes: Seq<MCTSNode>, i: int)
    requires
        arena_ok(nodes),
        0 <= i < nodes.len(),
        nodes[i].chance_children@.len() > 0,
    ensures
        sums_to_one(
            nodes[i].chance_children@.map_values(|c: usize| nodes[c as int].chance_probability),
        ),
{
    let n = nodes[i];
    assert(n.node_ok(i, nodes));
    assert(n.chance_children@.map_values(|c: usize| nodes[c as int].chance_probability)
        =~= n.outcome_probs@);
}

/// A uniform draw below `n`.
///
/// Relies on fastrand's `u64` on the range `0..n`, which returns a value of that range.
#[verifier::external_body]
fn draw_below(n: u64) -> (r: u64)
    requires
        n > 0,
    ensures
        r < n,
{
    fastrand::u64(0..n)
}

/// The outcome that a draw below the common denominator picks: the first whose running
/// sum of numerators exceeds the draw, else the last.
pub open spec fn picked(ps: Seq<Prob>, draw: int, k: int) -> int
    decreases ps.len() - k,
{
    if k >= ps.len() - 1 {
        ps.len() - 1
    } else if draw < num_sum(ps.subrange(0, k + 1)) {
        k
    } else {
        picked(ps, draw, k + 1)
    }
}

/// The outcome picked by `draw`, from the running sums of the numerators.
pub fn pick_outcome(ps: &Vec<Prob>, draw: u64) -> (r: usize)
    requires
        ps@.len() > 0,
    ensures
        r == picked(ps@, draw as int, 0),
        r < ps@.len(),
{
    let n = ps.len();
    let mut cumulative: u128 = 0;
    let mut k: usize = 0;
    while k < n - 1
        invariant
            n == ps@.len(),
            n > 0,
            k <= n - 1,
            cumulative == num_sum(ps@.subrange(0, k as int)),
            cumulative <= k * u64::MAX,
            picked(ps@, draw as int, 0) == picked(ps@, draw as int, k as int),
        decreases n - k,
    {
        proof {
            assert(ps@.subrange(0, k + 1).drop_last() =~= ps@.subrange(0, k as int));
        }
        cumulative = cumulative + ps[k].num as u128;
        if (draw as u128) < cumulative {
            return k;
        }
        proof {
            assert(cumulative <= (k + 1) * u64::MAX) by (nonlinear_arith)
                requires
                    cumulative <= k * u64::MAX + u64::MAX,
            ;
        }
        k = k + 1;
    }
    k
}

/// The integer square root: the `r` with `r * r <= x < (r + 1) * (r + 1)`.
pub fn isqrt(x: u64) -> (r: u64)
    ensures
        r * r <= x < (r + 1) * (r + 1),
{
    let mut lo: u64 = 0;
    let mut hi: u64 = 4294967296;
    proof {
        assert(4294967296 * 4294967296 > u64::MAX) by (nonlinear_arith);
    }
    while hi - lo > 1
        invariant
            lo < hi <= 4294967296,
            lo * lo <= x,
            x < hi * hi,
        decreases hi - lo,
    {
        let mid = lo + (hi - lo) / 2;
        proof {
            assert(mid * mid <= 4294967296 * 4294967296) by (nonlinear_arith)
                requires
                    mid <= 4294967296,
            ;
        }
        if (mid as u128) * (mid as u128) <= x as u128 {
            lo = mid;
        } else {
            hi = mid;
        }
    }
    lo
}

/// The integer part of the binary logarithm of `n`, at most 63.
/// The halvings that take `m` down to one, counted from `k` and stopped at 63.
pub open spec fn halvings(m: int, k: int) -> int
    decreases m,
{
    if m > 1 && k < 63 {
        halvings(m / 2, k + 1)
    } else {
        k
    }
}

/// The natural logarithm of `n`, in millionths, taken as its binary logarithm times ln 2.
pub open spec fn ln_micro(n: int) -> int {
    halvings(n, 0) * 693147
}

fn log2_floor(n: u64) -> (r: u64)
    ensures
        r < 64,
        r == halvings(n as int, 0),
{
    let mut m = n;
    let mut k: u64 = 0;
    while m > 1 && k < 63
        invariant
            k < 64,
            halvings(m as int, k as int) == halvings(n as int, 0),
        decreases m,
    {
        m = m / 2;
        k = k + 1;
    }
    k
}

/// The UCB1 score of a child, in millionths: its mean score plus the exploration constant
/// (in thousandths) times the square root of the logarithm of the parent's visits over the
/// child's visits. `None` stands for an unvisited child, which beats every score.
pub open spec fn ucb1(total: int, visits: int, parent_visits: int, c: int, root: int) -> int {
    (total + visits * SCALE) / visits - SCALE + c * root / 1000
}

impl MCTSNode {
    /// The UCB1 score of this node as a child of a node with `parent_visits` visits.
    pub fn get_ucb1_value(&self, exploration_constant: u64, parent_visits: u64) -> (r: Option<i128>)
        requires
            self.stats_ok(),
            exploration_constant <= 1000000,
        ensures
            self.visits == 0 <==> r is None,
            r matches Some(v) ==> exists|root: int|
                0 <= root && root * root <= ln_micro(parent_visits as int) * 1000000 / (self.visits as int)
                    < (root + 1) * (root + 1) && v == ucb1(
                    self.total_score as int,
                    self.visits as int,
                    parent_visits as int,
                    exploration_constant as int,
                    root,
                ),
    {
        if self.visits == 0 {
            return None;
        }
        let v = self.visits as i128;
        let mean = (self.total_score + v * 1000000) / v - 1000000;
        let ln: u64 = log2_floor(parent_visits) * 693147;
        let ratio: u64 = ((ln as u128) * 1000000 / (self.visits as u128)) as u64;
        let root = isqrt(ratio);
        proof {
            assert(root <= 4294967296) by (nonlinear_arith)
                requires
                    root * root <= ratio,
                    ratio <= u64::MAX,
            ;
        }
        proof {
            assert((exploration_constant as int) * (root as int) <= 1000000 * 4294967296) by (nonlinear_arith)
                requires
                    exploration_constant <= 1000000,
                    root <= 4294967296,
            ;
            assert(self.total_score + v * 1000000 >= 0);
        }
        let result = mean + (exploration_constant as i128) * (root as i128) / 1000;
        proof {
            assert(result == ucb1(
                self.total_score as int,
                self.visits as int,
                parent_visits as int,
                exploration_constant as int,
                root as int,
            ));
        }
        Some(result)
    }
}

/// A fresh node hung below `parent`: no children, no statistics yet.
pub open spec fn fresh_child(n: MCTSNode, parent: int) -> bool {
    &&& n.parent == Some(parent as usize)
    &&& n.children@.len() == 0
    &&& n.child_actions@.len() == 0
    &&& n.chance_children@.len() == 0
    &&& n.outcome_probs@.len() == 0
    &&& n.visits == 0
    &&& n.total_score == 0
}

/// The mean score of a node, compared across two nodes without division: whether the
/// mean of `a` exceeds that of `b`.
pub open spec fn mean_above(a: MCTSNode, b: MCTSNode) -> bool {
    a.total_score * b.visits > b.total_score * a.visits
}

impl MCTSTree {
    pub open spec fn wf(&self) -> bool {
        &&& arena_ok(self.nodes@)
        &&& self.root_index == 0
        &&& self.exploration_constant <= 1000000
    }

    /// A tree holding only the root, built from `initial_state`: a chance node when the
    /// dice decide there, else a decision node over the actions discovered in it.
    pub fn new(initial_state: GameState, exploration_constant: u64) -> (r: Result<MCTSTree, String>)
        requires
            exploration_constant <= 1000000,
        ensures
            r matches Ok(t) ==> t.wf() && t.nodes@.len() == 1 && t.root_index == 0
                && t.exploration_constant == exploration_constant && root_built(
                initial_state@,
                t.nodes@[0],
            ),
            (initial_state.procedure matches Some(p) && crate::registry::is_chance(p)) ==> r is Ok,
            (initial_state.procedure matches Some(p) && !crate::registry::is_chance(p)
                && crate::registry::exact_discovery(p)) ==> (r is Ok <==> crate::registry::discovered(
                initial_state@,
            ) is Some),
            (initial_state.procedure is None) ==> r is Err,
    {
        let registry = ActionRegistry::new();
        let mut state = initial_state;
        let chance = match state.procedure {
            Some(p) => p == Procedure::GFI || p == Procedure::Dodge || p == Procedure::BlockRoll,
            None => false,
        };
        let root = if chance {
            MCTSNode::new_chance_node(state, None, Prob::one())
        } else {
            match registry.discover_actions(&mut state) {
                Ok(()) => {},
                Err(e) => {
                    return Err(e);
                },
            }
            MCTSNode::new_decision_node(state, None, Prob::one())
        };
        let mut nodes: Vec<MCTSNode> = Vec::new();
        nodes.push(root);
        proof {
            assert(nodes@[0].node_ok(0, nodes@));
        }
        Ok(
            MCTSTree {
                nodes,
                root_index: 0,
                exploration_constant,
                registry,
                policy: HeuristicValuePolicy {},
            },
        )
    }

    /// Appends `node` to the arena and returns its index.
    fn push_node(&mut self, node: MCTSNode) -> (r: usize)
        requires
            old(self).wf(),
            node.parent matches Some(p) && p < old(self).nodes@.len(),
            fresh_child(node, node.parent.unwrap() as int),
            old(self).nodes@.len() < usize::MAX,
        ensures
            final(self).wf(),
            r == old(self).nodes@.len(),
            final(self).nodes@ == old(self).nodes@.push(node),
            final(self).exploration_constant == old(self).exploration_constant,
    {
        let ghost before = self.nodes@;
        let r = self.nodes.len();
        self.nodes.push(node);
        proof {
            let after = self.nodes@;
            assert forall|i: int| 0 <= i < after.len() implies (#[trigger] after[i]).node_ok(i, after) by {
                if i < before.len() {
                    assert(after[i] == before[i]);
                    assert(before[i].node_ok(i, before));
                    let n = before[i];
                    assert forall|k: int| 0 <= k < n.chance_children@.len() implies i < #[trigger] n.chance_children@[k]
                        < after.len() && after[n.chance_children@[k] as int].chance_probability
                        == n.outcome_probs@[k] by {
                        assert(after[n.chance_children@[k] as int] == before[n.chance_children@[k] as int]);
                    }
                }
            }
            assert forall|i: int| 0 < i < after.len() implies (#[trigger] after[i]).parent is Some && after[i].parent.unwrap() < i by {
                if i < before.len() {
                    assert(after[i] == before[i]);
                }
            }
        }
        r
    }

    /// Records that `action` from decision node `i` leads to `child`.
    fn link_child(&mut self, i: usize, action: Action, child: usize)
        requires
            old(self).wf(),
            i < child < old(self).nodes@.len(),
            old(self).nodes@[child as int].parent == Some(i),
        ensures
            final(self).wf(),
            final(self).nodes@.len() == old(self).nodes@.len(),
            final(self).exploration_constant == old(self).exploration_constant,
            final(self).nodes@[i as int].children@ == old(self).nodes@[i as int].children@.push(child),
            final(self).nodes@[i as int].child_actions@ == old(self).nodes@[i as int].child_actions@.push(action),
            final(self).nodes@[i as int].state == old(self).nodes@[i as int].state,
            final(self).nodes@[i as int].node_type == old(self).nodes@[i as int].node_type,
            final(self).nodes@[i as int].is_terminal == old(self).nodes@[i as int].is_terminal,
            same_stats(final(self).nodes@[i as int], old(self).nodes@[i as int]),
            final(self).nodes@[i as int].untried_actions == old(self).nodes@[i as int].untried_actions,
            forall|j: int| 0 <= j < final(self).nodes@.len() && j != i ==> #[trigger] final(self).nodes@[j] == old(self).nodes@[j],
    {
        let ghost before = self.nodes@;
        assert(before[i as int].node_ok(i as int, before));
        self.nodes[i].children.push(child);
        self.nodes[i].child_actions.push(action);
        proof {
            let after = self.nodes@;
            assert forall|j: int| 0 <= j < after.len() implies (#[trigger] after[j]).node_ok(j, after) by {
                assert(before[j].node_ok(j, before));
                if j != i {
                    assert(after[j] == before[j]);
                }
                let n = after[j];
                assert forall|k: int| 0 <= k < n.chance_children@.len() implies j < #[trigger] n.chance_children@[k]
                    < after.len() && after[n.chance_children@[k] as int].chance_probability
                    == n.outcome_probs@[k] by {
                    assert(before[j].chance_children@[k] == n.chance_children@[k]);
                }
                assert forall|k: int| 0 <= k < n.children@.len() implies j < #[trigger] n.children@[k] < after.len() by {
                    if j == i && k == n.children@.len() - 1 {
                    } else {
                        assert(n.children@[k] == before[j].children@[k]);
                    }
                }
            }
            assert forall|j: int| 0 < j < after.len() implies (#[trigger] after[j]).parent is Some && after[j].parent.unwrap() < j by {
                assert(after[j].parent == before[j].parent);
            }
        }
    }

    /// Records the outcomes of chance node `i` with their probabilities.
    fn set_outcomes(&mut self, i: usize, children: Vec<usize>, outcome_probs: Vec<Prob>)
        requires
            old(self).wf(),
            i < old(self).nodes@.len(),
            children@.len() == outcome_probs@.len(),
            children@.len() > 0 ==> sums_to_one(outcome_probs@),
            forall|k: int| 0 <= k < outcome_probs@.len() ==> (#[trigger] outcome_probs@[k]).wf(),
            forall|k: int|
                0 <= k < children@.len() ==> i < #[trigger] children@[k] < old(self).nodes@.len()
                    && old(self).nodes@[children@[k] as int].chance_probability == outcome_probs@[k]
                    && old(self).nodes@[children@[k] as int].parent == Some(i),
        ensures
            final(self).wf(),
            final(self).nodes@.len() == old(self).nodes@.len(),
            final(self).exploration_constant == old(self).exploration_constant,
            final(self).nodes@[i as int].chance_children@ == children@,
            final(self).nodes@[i as int].outcome_probs@ == outcome_probs@,
            same_stats(final(self).nodes@[i as int], old(self).nodes@[i as int]),
            forall|j: int| 0 <= j < final(self).nodes@.len() && j != i ==> #[trigger] final(self).nodes@[j] == old(self).nodes@[j],
    {
        let ghost before = self.nodes@;
        assert(before[i as int].node_ok(i as int, before));
        self.nodes[i].chance_children = children;
        self.nodes[i].outcome_probs = outcome_probs;
        proof {
            let after = self.nodes@;
            assert forall|j: int| 0 <= j < after.len() implies (#[trigger] after[j]).node_ok(j, after) by {
                assert(before[j].node_ok(j, before));
                if j != i {
                    assert(after[j] == before[j]);
                    let n = after[j];
                    assert forall|k: int| 0 <= k < n.chance_children@.len() implies j < #[trigger] n.chance_children@[k]
                        < after.len() && after[n.chance_children@[k] as int].chance_probability
                        == n.outcome_probs@[k] by {
                        let c = n.chance_children@[k] as int;
                        assert(after[c].chance_probability == before[c].chance_probability);
                    }
                } else {
                    let n = after[j];
                    assert forall|k: int| 0 <= k < n.chance_children@.len() implies j < #[trigger] n.chance_children@[k]
                        < after.len() && after[n.chance_children@[k] as int].chance_probability
                        == n.outcome_probs@[k] by {
                        let c = n.chance_children@[k] as int;
                        assert(after[c].chance_probability == before[c].chance_probability);
                    }
                }
            }
            assert forall|j: int| 0 < j < after.len() implies (#[trigger] after[j]).parent is Some && after[j].parent.unwrap() < j by {
                assert(after[j].parent == before[j].parent);
            }
        }
    }

    /// Adds one visit with `score` to node `i`.
    fn visit(&mut self, i: usize, score: i64)
        requires
            old(self).wf(),
            i < old(self).nodes@.len(),
            -SCALE <= score <= SCALE,
        ensures
            final(self).wf(),
            final(self).nodes@.len() == old(self).nodes@.len(),
            final(self).exploration_constant == old(self).exploration_constant,
            final(self).nodes@ == old(self).nodes@.update(i as int, visited(old(self).nodes@[i as int], score as int)),
    {
        let ghost before = self.nodes@;
        assert(before[i as int].node_ok(i as int, before));
        self.nodes[i].add_visit(score);
        assert(self.nodes@ =~= before.update(i as int, visited(before[i as int], score as int)));
        proof {
            let after = self.nodes@;
            assert forall|j: int| 0 <= j < after.len() implies (#[trigger] after[j]).node_ok(j, after) by {
                assert(before[j].node_ok(j, before));
                if j != i {
                    assert(after[j] == before[j]);
                }
                let n = after[j];
                assert forall|k: int| 0 <= k < n.chance_children@.len() implies j < #[trigger] n.chance_children@[k]
                    < after.len() && after[n.chance_children@[k] as int].chance_probability
                    == n.outcome_probs@[k] by {
                    let c = n.chance_children@[k] as int;
                    assert(after[c].chance_probability == before[c].chance_probability);
                    assert(n.chance_children@[k] == before[j].chance_children@[k]);
                }
                assert forall|k: int| 0 <= k < n.children@.len() implies j < #[trigger] n.children@[k] < after.len() by {
                    assert(n.children@[k] == before[j].children@[k]);
                }
            }
            assert forall|j: int| 0 < j < after.len() implies (#[trigger] after[j]).parent is Some && after[j].parent.unwrap() < j by {
                assert(after[j].parent == before[j].parent);
            }
        }
    }

    /// Takes the first action left to try at decision node `i`.
    fn pop_untried(&mut self, i: usize) -> (r: Action)
        requires
            old(self).wf(),
            i < old(self).nodes@.len(),
            old(self).nodes@[i as int].untried_actions@.len() > 0,
        ensures
            final(self).wf(),
            final(self).nodes@.len() == old(self).nodes@.len(),
            final(self).exploration_constant == old(self).exploration_constant,
            r == old(self).nodes@[i as int].untried_actions@[0],
            final(self).nodes@[i as int].untried_actions@ == old(self).nodes@[i as int].untried_actions@.drop_first(),
            same_stats(final(self).nodes@[i as int], old(self).nodes@[i as int]),
            final(self).nodes@[i as int].children == old(self).nodes@[i as int].children,
            final(self).nodes@[i as int].child_actions == old(self).nodes@[i as int].child_actions,
            forall|j: int| 0 <= j < final(self).nodes@.len() && j != i ==> #[trigger] final(self).nodes@[j] == old(self).nodes@[j],
    {
        let ghost before = self.nodes@;
        assert(before[i as int].node_ok(i as int, before));
        let r = self.nodes[i].untried_actions.remove(0);
        proof {
            let after = self.nodes@;
            assert(after[i as int].untried_actions@ =~= before[i as int].untried_actions@.drop_first());
            assert forall|j: int| 0 <= j < after.len() implies (#[trigger] after[j]).node_ok(j, after) by {
                assert(before[j].node_ok(j, before));
                if j != i {
                    assert(after[j] == before[j]);
                }
                let n = after[j];
                assert forall|k: int| 0 <= k < n.chance_children@.len() implies j < #[trigger] n.chance_children@[k]
                    < after.len() && after[n.chance_children@[k] as int].chance_probability
                    == n.outcome_probs@[k] by {
                    let c = n.chance_children@[k] as int;
                    assert(after[c].chance_probability == before[c].chance_probability);
                    assert(n.chance_children@[k] == before[j].chance_children@[k]);
                }
                assert forall|k: int| 0 <= k < n.children@.len() implies j < #[trigger] n.children@[k] < after.len() by {
                    assert(n.children@[k] == before[j].children@[k]);
                }
            }
            assert forall|j: int| 0 < j < after.len() implies (#[trigger] after[j]).parent is Some && after[j].parent.unwrap() < j by {
                assert(after[j].parent == before[j].parent);
            }
        }
        r
    }
}

/// Child `k` of `n` is passed over in selection: an `EndTurn` child already visited, beside
/// other children.
pub open spec fn passed_over(nodes: Seq<MCTSNode>, n: MCTSNode, k: int) -> bool {
    n.child_actions@[k].action_type == ActionType::EndTurn && nodes[n.children@[k] as int].visits
        >= 1 && n.children@.len() > 1
}

/// Node `r` is where a descent stops: it ends the line, is a decision node with actions
/// left to try, a chance node whose outcomes are not expanded, or a decision node none of
/// whose children can be followed.
pub open spec fn descent_stops(nodes: Seq<MCTSNode>, r: int) -> bool {
    let n = nodes[r];
    ||| n.is_terminal
    ||| (n.node_type == NodeType::Decision && n.untried_actions@.len() > 0)
    ||| (n.node_type == NodeType::Chance && n.chance_children@.len() == 0)
    ||| (n.node_type == NodeType::Decision && forall|k: int|
        0 <= k < n.children@.len() ==> #[trigger] passed_over(nodes, n, k))
}

impl MCTSTree {
    /// Descends from node `idx` to the node to expand or evaluate next: a node that ends
    /// the line, a decision node with actions left to try, or a chance node whose outcomes
    /// are not expanded. Among the children of a decision node the highest UCB1 score is
    /// followed, an unvisited child first; an `EndTurn` child already visited is passed over
    /// unless it is the only child. A chance node's outcome is drawn by its probability.
    pub fn select(&self, idx: usize) -> (r: usize)
        requires
            self.wf(),
            idx < self.nodes@.len(),
        ensures
            idx <= r < self.nodes@.len(),
            descent_stops(self.nodes@, r as int),
            on_chain(self.nodes@, r as int, idx as int),
        decreases self.nodes@.len() - idx,
    {
        let node = &self.nodes[idx];
        proof {
            assert(self.nodes@[idx as int].node_ok(idx as int, self.nodes@));
        }
        if node.is_terminal {
            return idx;
        }
        match node.node_type {
            NodeType::Decision => {
                if !node.is_fully_expanded() {
                    return idx;
                }
                let mut best: Option<usize> = None;
                let mut best_infinite = false;
                let mut best_value: i128 = 0;
                let n = node.children.len();
                let mut k: usize = 0;
                while k < n
                    invariant
                        self.wf(),
                        idx < self.nodes@.len(),
                        node == self.nodes@[idx as int],
                        n == node.children@.len(),
                        node.child_actions@.len() == n,
                        forall|t: int| 0 <= t < n ==> idx < #[trigger] node.children@[t] < self.nodes@.len(),
                        best matches Some(b) ==> idx < b < self.nodes@.len() && exists|t: int|
                            0 <= t < n && node.children@[t] == b,
                        best is None ==> !best_infinite,
                        best is None ==> forall|t: int| 0 <= t < k ==> #[trigger] passed_over(self.nodes@, *node, t),
                        k <= n,
                    decreases n - k,
                {
                    let c = node.children[k];
                    let child = &self.nodes[c];
                    proof {
                        assert(self.nodes@[c as int].node_ok(c as int, self.nodes@));
                    }
                    let skip = node.child_actions[k].action_type == ActionType::EndTurn
                        && child.visits >= 1 && n > 1;
                    if !skip {
                        match child.get_ucb1_value(self.exploration_constant, node.visits) {
                            None => {
                                if !best_infinite {
                                    best = Some(c);
                                    best_infinite = true;
                                }
                            },
                            Some(v) => {
                                if !best_infinite && (best.is_none() || v > best_value) {
                                    best = Some(c);
                                    best_value = v;
                                }
                            },
                        }
                    }
                    k = k + 1;
                }
                match best {
                    Some(c) => {
                        let r = self.select(c);
                        proof {
                            let k = choose|k: int| 0 <= k < n && node.children@[k] == c;
                            assert(self.nodes@[idx as int].node_ok(idx as int, self.nodes@));
                            assert(self.nodes@[c as int].parent == Some(idx));
                            reveal_with_fuel(on_chain, 2);
                            assert(on_chain(self.nodes@, c as int, idx as int));
                            lemma_chain_trans(self.nodes@, r as int, c as int, idx as int);
                        }
                        r
                    },
                    None => idx,
                }
            },
            NodeType::Chance => {
                let m = node.chance_children.len();
                if m == 0 {
                    return idx;
                }
                let den = node.outcome_probs[0].den;
                proof {
                    assert(node.outcome_probs@[0].wf());
                }
                let draw = draw_below(den);
                let pick = pick_outcome(&node.outcome_probs, draw);
                let chosen = node.chance_children[pick];
                let r = self.select(chosen);
                proof {
                    assert(self.nodes@[idx as int].node_ok(idx as int, self.nodes@));
                    assert(self.nodes@[chosen as int].parent == Some(idx));
                    reveal_with_fuel(on_chain, 2);
                    assert(on_chain(self.nodes@, chosen as int, idx as int));
                    lemma_chain_trans(self.nodes@, r as int, chosen as int, idx as int);
                }
                r
            },
        }
    }

    /// Expands node `idx`. A decision node executes its first action left to try on a copy
    /// of its state and hangs the result below it: a chance node when the dice decide next,
    /// else a decision node over the actions discovered there. A chance node hangs one child
    /// per outcome of its roll, each with the outcome's probability. Returns the first new
    /// child. Expanding a node that ends the line, has nothing left to try or whose outcomes
    /// are expanded already is an error, as is a failed execution, discovery or rollout.
    pub fn expand(&mut self, idx: usize) -> (r: Result<usize, String>)
        requires
            old(self).wf(),
            idx < old(self).nodes@.len(),
            old(self).nodes@.len() + 64 < usize::MAX,
        ensures
            final(self).wf(),
            final(self).nodes@.len() >= old(self).nodes@.len(),
            final(self).nodes@.len() <= old(self).nodes@.len() + 5,
            forall|j: int|
                0 <= j < old(self).nodes@.len() && j != idx ==> #[trigger] final(self).nodes@[j] == old(self).nodes@[j],
            same_stats(final(self).nodes@[idx as int], old(self).nodes@[idx as int]),
            r matches Ok(c) ==> idx < c < final(self).nodes@.len() && final(self).nodes@[c as int].parent == Some(idx),
            old(self).nodes@[idx as int].node_type == NodeType::Decision && (old(self).nodes@[idx as int].is_terminal
                || old(self).nodes@[idx as int].untried_actions@.len() == 0) ==> r is Err,
            old(self).nodes@[idx as int].node_type == NodeType::Decision && r is Ok ==> decision_expanded(
                old(self).nodes@,
                final(self).nodes@,
                idx as int,
                r.unwrap() as int,
            ),
            old(self).nodes@[idx as int].node_type == NodeType::Chance && old(self).nodes@[idx as int].chance_children@.len() > 0 ==> r is Err,
            old(self).nodes@[idx as int].node_type == NodeType::Chance && r is Ok ==> chance_expanded(
                old(self).nodes@,
                final(self).nodes@,
                idx as int,
                r.unwrap() as int,
            ),
    {
        let is_decision = match self.nodes[idx].node_type {
            NodeType::Decision => true,
            NodeType::Chance => false,
        };
        if is_decision {
            self.expand_decision_node(idx)
        } else {
            self.expand_chance_node(idx)
        }
    }

    /// A node for `state` below `parent`: a chance node when the dice decide there, else a
    /// decision node over the actions discovered in it.
    fn child_node(&self, state: GameState, parent: usize, probability: Prob) -> (r: Result<MCTSNode, String>)
        ensures
            r matches Ok(n) ==> fresh_child(n, parent as int) && n.chance_probability == probability
                && (n.node_type == NodeType::Chance <==> (n.state.procedure matches Some(p)
                && crate::registry::is_chance(p))) && node_state_for(state@, n.state@),
    {
        let mut state = state;
        let chance = match state.procedure {
            Some(p) => p == Procedure::GFI || p == Procedure::Dodge || p == Procedure::BlockRoll,
            None => false,
        };
        if chance {
            Ok(MCTSNode::new_chance_node(state, Some(parent), probability))
        } else {
            match self.registry.discover_actions(&mut state) {
                Ok(()) => Ok(MCTSNode::new_decision_node(state, Some(parent), probability)),
                Err(e) => Err(e),
            }
        }
    }

    fn expand_decision_node(&mut self, idx: usize) -> (r: Result<usize, String>)
        requires
            old(self).nodes@[idx as int].node_type == NodeType::Decision,
            old(self).wf(),
            idx < old(self).nodes@.len(),
            old(self).nodes@.len() + 64 < usize::MAX,
        ensures
            final(self).wf(),
            final(self).nodes@.len() >= old(self).nodes@.len(),
            final(self).nodes@.len() <= old(self).nodes@.len() + 5,
            forall|j: int|
                0 <= j < old(self).nodes@.len() && j != idx ==> #[trigger] final(self).nodes@[j] == old(self).nodes@[j],
            same_stats(final(self).nodes@[idx as int], old(self).nodes@[idx as int]),
            r matches Ok(c) ==> idx < c < final(self).nodes@.len() && final(self).nodes@[c as int].parent == Some(idx),
            old(self).nodes@[idx as int].node_type == NodeType::Decision && (old(self).nodes@[idx as int].is_terminal
                || old(self).nodes@[idx as int].untried_actions@.len() == 0) ==> r is Err,
            old(self).nodes@[idx as int].node_type == NodeType::Decision && r is Ok ==> decision_expanded(
                old(self).nodes@,
                final(self).nodes@,
                idx as int,
                r.unwrap() as int,
            ),
    {
        if self.nodes[idx].untried_actions.len() == 0 {
            return Err("Cannot expand a node with nothing left to try".to_string());
        }
        if self.nodes[idx].is_terminal {
            return Err("Cannot expand a node that ends the line".to_string());
        }
        let action = self.pop_untried(idx);
        let mut state = self.nodes[idx].state.clone();
        match self.registry.execute_action(&mut state, &action) {
            Ok(()) => {},
            Err(e) => {
                return Err(e);
            },
        }
        let node = match self.child_node(state, idx, Prob::one()) {
            Ok(n) => n,
            Err(e) => {
                return Err(e);
            },
        };
        let ghost t = state@;
        let c = self.push_node(node);
        self.link_child(idx, action, c);
        proof {
            assert(crate::registry::executes_to(old(self).nodes@[idx as int].state@, old(self).nodes@[idx as int].untried_actions@[0], t));
        }
        Ok(c)
    }

    fn expand_chance_node(&mut self, idx: usize) -> (r: Result<usize, String>)
        requires
            old(self).nodes@[idx as int].node_type == NodeType::Chance,
            old(self).wf(),
            idx < old(self).nodes@.len(),
            old(self).nodes@.len() + 64 < usize::MAX,
        ensures
            final(self).wf(),
            final(self).nodes@.len() >= old(self).nodes@.len(),
            final(self).nodes@.len() <= old(self).nodes@.len() + 5,
            forall|j: int|
                0 <= j < old(self).nodes@.len() && j != idx ==> #[trigger] final(self).nodes@[j] == old(self).nodes@[j],
            same_stats(final(self).nodes@[idx as int], old(self).nodes@[idx as int]),
            r matches Ok(c) ==> idx < c < final(self).nodes@.len() && final(self).nodes@[c as int].parent == Some(idx),
            old(self).nodes@[idx as int].node_type == NodeType::Chance && old(self).nodes@[idx as int].chance_children@.len() > 0 ==> r is Err,
            old(self).nodes@[idx as int].node_type == NodeType::Chance && r is Ok ==> chance_expanded(
                old(self).nodes@,
                final(self).nodes@,
                idx as int,
                r.unwrap() as int,
            ),
    {
        if self.nodes[idx].chance_children.len() > 0 {
            return Err("Chance node already expanded".to_string());
        }
        let outcomes = match self.registry.rollout_chance_outcomes(&self.nodes[idx].state) {
            Ok(v) => v,
            Err(e) => {
                return Err(e);
            },
        };
        proof {
            assert forall|k: int| 0 <= k < outcomes@.len() implies (#[trigger] outcomes@[k]).probability.wf() by {
                assert(probs(outcomes@)[k] == outcomes@[k].probability);
            }
            assert(old(self).nodes@[idx as int].node_ok(idx as int, old(self).nodes@));
        }
        let start = self.nodes.len();
        let mut children: Vec<usize> = Vec::new();
        let mut ps: Vec<Prob> = Vec::new();
        let mut k: usize = 0;
        while k < outcomes.len()
            invariant
                self.wf(),
                idx < start <= self.nodes@.len(),
                start == old(self).nodes@.len(),
                self.nodes@.len() == start + k,
                old(self).nodes@[idx as int].chance_children@.len() == 0,
                forall|j: int| 0 <= j < start ==> #[trigger] self.nodes@[j] == old(self).nodes@[j],
                forall|t: int| 0 <= t < k ==> #[trigger] children@[t] == start + t,
                forall|t: int| 0 <= t < outcomes@.len() ==> (#[trigger] outcomes@[t]).probability.num > 0,
                forall|t: int| 0 <= t < k ==> self.nodes@[#[trigger] children@[t] as int].visits == 0,
                forall|t: int|
                    0 <= t < k ==> node_state_for(
                        (#[trigger] outcomes@[t]).resulting_state@,
                        self.nodes@[children@[t] as int].state@,
                    ),
                start + 64 < usize::MAX,
                outcomes@.len() <= 5,
                k <= outcomes@.len(),
                children@.len() == k,
                ps@.len() == k,
                ps@ == probs(outcomes@).subrange(0, k as int),
                forall|t: int| 0 <= t < outcomes@.len() ==> (#[trigger] outcomes@[t]).probability.wf(),
                forall|t: int|
                    0 <= t < k ==> idx < #[trigger] children@[t] < self.nodes@.len()
                        && self.nodes@[children@[t] as int].chance_probability == ps@[t]
                        && self.nodes@[children@[t] as int].parent == Some(idx),
            decreases outcomes@.len() - k,
        {
            let o = &outcomes[k];
            let node = match self.child_node(o.resulting_state.clone(), idx, o.probability) {
                Ok(n) => n,
                Err(e) => {
                    return Err(e);
                },
            };
            let ghost before = self.nodes@;
            let c = self.push_node(node);
            children.push(c);
            ps.push(o.probability);
            proof {
                assert(ps@ =~= probs(outcomes@).subrange(0, k + 1));
                assert forall|t: int|
                    0 <= t < k + 1 implies idx < #[trigger] children@[t] < self.nodes@.len()
                        && self.nodes@[children@[t] as int].chance_probability == ps@[t]
                        && self.nodes@[children@[t] as int].parent == Some(idx) by {
                    if t < k {
                        assert(self.nodes@[children@[t] as int] == before[children@[t] as int]);
                    }
                }
                assert forall|t: int| 0 <= t < k + 1 implies self.nodes@[#[trigger] children@[t] as int].visits == 0 by {
                    if t < k {
                        assert(self.nodes@[children@[t] as int] == before[children@[t] as int]);
                    }
                }
                assert forall|t: int| 0 <= t < k + 1 implies node_state_for(
                    (#[trigger] outcomes@[t]).resulting_state@,
                    self.nodes@[children@[t] as int].state@,
                ) by {
                    if t < k {
                        assert(self.nodes@[children@[t] as int] == before[children@[t] as int]);
                    }
                }
            }
            k = k + 1;
        }
        proof {
            assert(ps@ =~= probs(outcomes@));
        }
        if children.len() == 0 {
            return Err("No outcomes".to_string());
        }
        let first = children[0];
        let ghost cc = children@;
        let ghost pre = self.nodes@;
        self.set_outcomes(idx, children, ps);
        proof {
            assert forall|k: int| 0 <= k < cc.len() implies self.nodes@[#[trigger] cc[k] as int].parent == Some(idx)
                && self.nodes@[cc[k] as int].chance_probability == self.nodes@[idx as int].outcome_probs@[k]
                && self.nodes@[idx as int].outcome_probs@[k].num > 0 && self.nodes@[cc[k] as int].visits == 0 by {
                assert(self.nodes@[cc[k] as int] == pre[cc[k] as int]);
                assert(probs(outcomes@)[k] == outcomes@[k].probability);
            }
            assert forall|k: int| 0 <= k < cc.len() implies self.nodes@[idx as int].outcome_probs@[k] == (#[trigger] outcomes@[k]).probability
                && node_state_for(outcomes@[k].resulting_state@, self.nodes@[cc[k] as int].state@) by {
                assert(self.nodes@[cc[k] as int] == pre[cc[k] as int]);
                assert(probs(outcomes@)[k] == outcomes@[k].probability);
            }
        }
        Ok(first)
    }
}

impl MCTSTree {
    /// The value of node `idx` for the side on move, in millionths within `[-1, 1]`: the
    /// value policy's for a node without children, the mean of the children's values for
    /// an expanded decision node, and the children's values weighted by their probabilities
    /// for an expanded chance node.
    pub fn evaluate(&self, idx: usize) -> (r: Result<i64, String>)
        requires
            self.wf(),
            idx < self.nodes@.len(),
        ensures
            r matches Ok(v) ==> -SCALE <= v <= SCALE,
            r is Ok <==> tree_value(self.nodes@, idx as int) is Some,
            r matches Ok(v) ==> v == tree_value(self.nodes@, idx as int).unwrap(),
        decreases self.nodes@.len() - idx,
    {
        let node = &self.nodes[idx];
        proof {
            assert(self.nodes@[idx as int].node_ok(idx as int, self.nodes@));
        }
        match node.node_type {
            NodeType::Decision => {
                let n = node.children.len();
                if n == 0 {
                    return self.policy.evaluate(&node.state);
                }
                let mut sum: i128 = 0;
                let mut k: usize = 0;
                while k < n
                    invariant
                        self.wf(),
                        idx < self.nodes@.len(),
                        node == self.nodes@[idx as int],
                        n == node.children@.len(),
                        n > 0,
                        node.node_type == NodeType::Decision,
                        forall|t: int| 0 <= t < n ==> idx < #[trigger] node.children@[t] < self.nodes@.len(),
                        k <= n,
                        -(k * SCALE) <= sum <= k * SCALE,
                        child_sum(self.nodes@, idx as int, k as int) == Some(sum as int),
                    decreases n - k,
                {
                    let v = match self.evaluate(node.children[k]) {
                        Ok(v) => v,
                        Err(e) => {
                            proof {
                                let c = node.children@[k as int] as int;
                                assert(tree_value(self.nodes@, c) is None);
                                assert(child_sum(self.nodes@, idx as int, k as int + 1) is None);
                                lemma_child_sum_fails(self.nodes@, idx as int, k as int + 1, n as int);
                                assert(tree_value(self.nodes@, idx as int) is None);
                            }
                            return Err(e);
                        },
                    };
                    sum = sum + v as i128;
                    k = k + 1;
                }
                let nn = n as i128;
                proof {
                    assert(0 <= sum + nn * 1000000 <= 2 * nn * 1000000);
                    assert((sum + nn * 1000000) / (nn as int) <= 2 * 1000000) by (nonlinear_arith)
                        requires
                            0 <= sum + nn * 1000000 <= 2 * nn * 1000000,
                            nn > 0,
                    ;
                    assert((sum + nn * 1000000) / (nn as int) >= 0) by (nonlinear_arith)
                        requires
                            0 <= sum + nn * 1000000,
                            nn > 0,
                    ;
                }
                Ok(((sum + nn * 1000000) / nn - 1000000) as i64)
            },
            NodeType::Chance => {
                let m = node.chance_children.len();
                if m == 0 {
                    return self.policy.evaluate(&node.state);
                }
                let den = node.outcome_probs[0].den as i128;
                let mut sum: i128 = 0;
                let mut nums: i128 = 0;
                let mut k: usize = 0;
                while k < m
                    invariant
                        self.wf(),
                        idx < self.nodes@.len(),
                        node == self.nodes@[idx as int],
                        m == node.chance_children@.len(),
                        m > 0,
                        node.node_type == NodeType::Chance,
                        m == node.outcome_probs@.len(),
                        sums_to_one(node.outcome_probs@),
                        den == node.outcome_probs@[0].den,
                        forall|t: int| 0 <= t < m ==> idx < #[trigger] node.chance_children@[t] < self.nodes@.len(),
                        k <= m,
                        nums == num_sum(node.outcome_probs@.subrange(0, k as int)),
                        nums <= den,
                        den <= u64::MAX,
                        -(nums * SCALE) <= sum <= nums * SCALE,
                        weighted_sum(self.nodes@, idx as int, k as int) == Some(sum as int),
                    decreases m - k,
                {
                    let v = match self.evaluate(node.chance_children[k]) {
                        Ok(v) => v,
                        Err(e) => {
                            proof {
                                let c = node.chance_children@[k as int] as int;
                                assert(tree_value(self.nodes@, c) is None);
                                assert(weighted_sum(self.nodes@, idx as int, k as int + 1) is None);
                                lemma_weighted_sum_fails(self.nodes@, idx as int, k as int + 1, m as int);
                                assert(tree_value(self.nodes@, idx as int) is None);
                            }
                            return Err(e);
                        },
                    };
                    let p = node.outcome_probs[k].num as i128;
                    proof {
                        assert(node.outcome_probs@[k as int].wf());
                        assert(node.outcome_probs@.subrange(0, k + 1).drop_last() =~= node.outcome_probs@.subrange(0, k as int));
                        assert(-(p * SCALE) <= p * v <= p * SCALE) by (nonlinear_arith)
                            requires
                                -SCALE <= v <= SCALE,
                                p >= 0,
                        ;
                        lemma_prefix_sum_bound(node.outcome_probs@, k as int);
                        lemma_prefix_le_total(node.outcome_probs@, k + 1);
                        assert(-(nums * SCALE) - p * SCALE <= sum + p * v <= nums * SCALE + p * SCALE);
                    }
                    sum = sum + p * (v as i128);
                    nums = nums + p;
                    k = k + 1;
                }
                proof {
                    assert(node.outcome_probs@.subrange(0, m as int) =~= node.outcome_probs@);
                    assert(node.outcome_probs@[0].wf());
                    assert((sum + den * 1000000) / (den as int) <= 2 * 1000000) by (nonlinear_arith)
                        requires
                            0 <= sum + den * 1000000 <= 2 * den * 1000000,
                            den > 0,
                    ;
                    assert((sum + den * 1000000) / (den as int) >= 0) by (nonlinear_arith)
                        requires
                            0 <= sum + den * 1000000,
                            den > 0,
                    ;
                }
                Ok(((sum + den * 1000000) / den - 1000000) as i64)
            },
        }
    }

    /// Adds one visit with `score` to node `idx` and to each node above it up to the root.
    pub fn backpropagate(&mut self, idx: usize, score: i64)
        requires
            old(self).wf(),
            idx < old(self).nodes@.len(),
            -SCALE <= score <= SCALE,
        ensures
            final(self).wf(),
            final(self).nodes@.len() == old(self).nodes@.len(),
            final(self).exploration_constant == old(self).exploration_constant,
            forall|j: int|
                0 <= j < old(self).nodes@.len() ==> #[trigger] final(self).nodes@[j] == if on_chain(
                    old(self).nodes@,
                    idx as int,
                    j,
                ) {
                    visited(old(self).nodes@[j], score as int)
                } else {
                    old(self).nodes@[j]
                },
    {
        let ghost orig = self.nodes@;
        let mut cur = idx;
        let mut done = false;
        while !done
            invariant
                self.wf(),
                self.nodes@.len() == old(self).nodes@.len(),
                orig == old(self).nodes@,
                self.exploration_constant == old(self).exploration_constant,
                cur < self.nodes@.len(),
                -SCALE <= score <= SCALE,
                on_chain(orig, idx as int, cur as int),
                forall|j: int| 0 <= j < orig.len() ==> (#[trigger] self.nodes@[j]).parent == orig[j].parent,
                !done ==> forall|j: int|
                    0 <= j < orig.len() ==> #[trigger] self.nodes@[j] == if on_chain(orig, idx as int, j)
                        && !on_chain(orig, cur as int, j) {
                        visited(orig[j], score as int)
                    } else {
                        orig[j]
                    },
                done ==> forall|j: int|
                    0 <= j < orig.len() ==> #[trigger] self.nodes@[j] == if on_chain(orig, idx as int, j) {
                        visited(orig[j], score as int)
                    } else {
                        orig[j]
                    },
            decreases cur + (if done {
                0int
            } else {
                1
            }),
        {
            let ghost before = self.nodes@;
            self.visit(cur, score);
            match self.nodes[cur].parent {
                Some(p) => {
                    proof {
                        assert(cur > 0 ==> self.nodes@[cur as int].parent.unwrap() < cur);
                        assert(cur != 0);
                        assert(orig[cur as int].parent == Some(p));
                        lemma_chain_step(orig, idx as int, cur as int, p);
                        lemma_chain_trans(orig, idx as int, cur as int, p as int);
                        assert forall|j: int| 0 <= j < orig.len() implies #[trigger] self.nodes@[j] == if on_chain(orig, idx as int, j)
                            && !on_chain(orig, p as int, j) {
                            visited(orig[j], score as int)
                        } else {
                            orig[j]
                        } by {
                            lemma_chain_le(orig, p as int, j);
                            if j != cur {
                                assert(self.nodes@[j] == before[j]);
                            }
                        }
                    }
                    cur = p;
                },
                None => {
                    proof {
                        assert(cur == 0);
                        assert forall|j: int| 0 <= j < orig.len() implies #[trigger] self.nodes@[j] == if on_chain(orig, idx as int, j) {
                            visited(orig[j], score as int)
                        } else {
                            orig[j]
                        } by {
                            lemma_chain_to_root(orig, idx as int, j);
                            if j != 0 {
                                assert(self.nodes@[j] == before[j]);
                            }
                        }
                    }
                    done = true;
                },
            }
        }
    }

    /// The action to play at the root: that of the visited child with the best mean score,
    /// the first of equals; a random child's when none was visited. Fails without children.
    pub fn get_best_action(&self) -> (r: Result<Action, String>)
        requires
            self.wf(),
        ensures
            r is Ok <==> self.nodes@[0].children@.len() > 0,
            r matches Ok(a) ==> best_choice(self.nodes@, a@),
    {
        let root = &self.nodes[0];
        proof {
            assert(self.nodes@[0].node_ok(0, self.nodes@));
        }
        let n = root.children.len();
        if n == 0 {
            return Err("No children available".to_string());
        }
        let mut best: Option<usize> = None;
        let mut k: usize = 0;
        while k < n
            invariant
                self.wf(),
                root == self.nodes@[0],
                n == root.children@.len(),
                n == root.child_actions@.len(),
                forall|t: int| 0 <= t < n ==> 0 < #[trigger] root.children@[t] < self.nodes@.len(),
                k <= n,
                best matches Some(b) ==> b < k && self.nodes@[root.children@[b as int] as int].visits > 0,
                best is None ==> forall|j: int| 0 <= j < k ==> self.nodes@[root.children@[j] as int].visits == 0,
                best matches Some(b) ==> forall|j: int|
                    0 <= j < k && self.nodes@[root.children@[j] as int].visits > 0 ==> !mean_above(
                        self.nodes@[root.children@[j] as int],
                        self.nodes@[root.children@[b as int] as int],
                    ),
            decreases n - k,
        {
            let c = &self.nodes[root.children[k]];
            proof {
                assert(self.nodes@[root.children@[k as int] as int].node_ok(root.children@[k as int] as int, self.nodes@));
            }
            if c.visits > 0 {
                let better = match best {
                    None => true,
                    Some(b) => {
                        let o = &self.nodes[root.children[b]];
                        proof {
                            assert(self.nodes@[root.children@[b as int] as int].node_ok(root.children@[b as int] as int, self.nodes@));
                        }
                        wide_product(c.total_score, o.visits) > wide_product(o.total_score, c.visits)
                    },
                };
                if better {
                    proof {
                        if best is Some {
                            let b = best.unwrap();
                            let bn = self.nodes@[root.children@[b as int] as int];
                            assert forall|j: int|
                                0 <= j < k + 1 && self.nodes@[root.children@[j] as int].visits > 0 implies !mean_above(
                                    self.nodes@[root.children@[j] as int],
                                    *c,
                                ) by {
                                if j < k {
                                    lemma_mean_above_trans(self.nodes@[root.children@[j] as int], bn, *c);
                                }
                            }
                        }
                    }
                    best = Some(k);
                }
            }
            k = k + 1;
        }
        match best {
            Some(b) => Ok(root.child_actions[b].clone()),
            None => {
                let pick = draw_below(n as u64) as usize;
                Ok(root.child_actions[pick].clone())
            },
        }
    }

    /// One round of the search: select a node; one that ends the line is evaluated, any
    /// other is expanded and its first new child evaluated; the value is backed up to the
    /// root.
    pub fn run_iteration(&mut self) -> (r: Result<(), String>)
        requires
            old(self).wf(),
            old(self).nodes@.len() + 64 < usize::MAX,
        ensures
            final(self).wf(),
            final(self).nodes@.len() >= old(self).nodes@.len(),
            final(self).nodes@.len() <= old(self).nodes@.len() + 5,
            r is Ok ==> final(self).nodes@[0] == visited_root(old(self).nodes@[0], final(self).nodes@[0]),
            r is Ok ==> exists|score: int|
                -SCALE <= score <= SCALE && final(self).nodes@[0] == visited(
                    with_links(old(self).nodes@[0], final(self).nodes@[0]),
                    score,
                ),
            final(self).nodes@[0].state == old(self).nodes@[0].state,
            final(self).nodes@[0].node_type == old(self).nodes@[0].node_type,
    {
        let selected = self.select(0);
        if self.nodes[selected].is_terminal {
            let score = match self.evaluate(selected) {
                Ok(v) => v,
                Err(e) => {
                    return Err(e);
                },
            };
            proof {
                lemma_chain_reaches_root(self.nodes@, selected as int);
            }
            self.backpropagate(selected, score);
        } else {
            let expanded = match self.expand(selected) {
                Ok(c) => c,
                Err(e) => {
                    return Err(e);
                },
            };
            let score = match self.evaluate(expanded) {
                Ok(v) => v,
                Err(e) => {
                    return Err(e);
                },
            };
            proof {
                lemma_chain_reaches_root(self.nodes@, expanded as int);
            }
            let ghost mid = self.nodes@;
            self.backpropagate(expanded, score);
            proof {
                assert(mid[0] == old(self).nodes@[0] || (selected == 0 && same_stats(mid[0], old(self).nodes@[0])));
            }
        }
        Ok(())
    }
}

/// The product of a score total and a visit count, without overflow.
fn wide_product(total: i128, visits: u64) -> (r: i128)
    requires
        -(MAX_VISITS * SCALE) <= total <= MAX_VISITS * SCALE,
        visits <= MAX_VISITS,
    ensures
        r == total * visits,
{
    proof {
        assert(-(MAX_VISITS * SCALE) * MAX_VISITS <= total * visits <= MAX_VISITS * SCALE * MAX_VISITS) by (nonlinear_arith)
            requires
                -(MAX_VISITS * SCALE) <= total <= MAX_VISITS * SCALE,
                0 <= visits <= MAX_VISITS,
        ;
    }
    total * (visits as i128)
}

/// A mean above another that is above a third is above the third.
proof fn lemma_mean_above_trans(a: MCTSNode, b: MCTSNode, c: MCTSNode)
    requires
        a.visits > 0,
        b.visits > 0,
        c.visits > 0,
        !mean_above(a, b),
        mean_above(c, b),
    ensures
        !mean_above(a, c),
{
    assert(a.total_score * c.visits <= c.total_score * a.visits) by (nonlinear_arith)
        requires
            a.total_score * b.visits <= b.total_score * a.visits,
            c.total_score * b.visits > b.total_score * c.visits,
            a.visits > 0,
            b.visits > 0,
            c.visits > 0,
    ;
}

/// A prefix's numerators add up to no more than all of them.
proof fn lemma_prefix_le_total(ps: Seq<Prob>, k: int)
    requires
        0 <= k <= ps.len(),
    ensures
        num_sum(ps.subrange(0, k)) <= num_sum(ps),
    decreases ps.len(),
{
    if k == ps.len() {
        assert(ps.subrange(0, k) =~= ps);
    } else {
        lemma_prefix_le_total(ps.drop_last(), k);
        assert(ps.drop_last().subrange(0, k) =~= ps.subrange(0, k));
    }
}

/// Once a partial sum of child values fails, every longer one does.
proof fn lemma_child_sum_fails(nodes: Seq<MCTSNode>, i: int, k: int, n: int)
    requires
        0 < k <= n <= nodes[i].children@.len(),
        0 <= i < nodes.len(),
        child_sum(nodes, i, k) is None,
    ensures
        child_sum(nodes, i, n) is None,
    decreases n - k,
{
    if k < n {
        lemma_child_sum_fails(nodes, i, k + 1, n);
    }
}

/// Once a partial weighted sum fails, every longer one does.
proof fn lemma_weighted_sum_fails(nodes: Seq<MCTSNode>, i: int, k: int, n: int)
    requires
        0 < k <= n <= nodes[i].chance_children@.len(),
        n <= nodes[i].outcome_probs@.len(),
        0 <= i < nodes.len(),
        weighted_sum(nodes, i, k) is None,
    ensures
        weighted_sum(nodes, i, n) is None,
    decreases n - k,
{
    if k < n {
        lemma_weighted_sum_fails(nodes, i, k + 1, n);
    }
}

/// The partial sums of the numerators stay within the whole sum.
proof fn lemma_prefix_sum_bound(ps: Seq<Prob>, k: int)
    requires
        0 <= k < ps.len(),
        forall|i: int| 0 <= i < ps.len() ==> (#[trigger] ps[i]).num >= 0,
    ensures
        num_sum(ps.subrange(0, k + 1)) == num_sum(ps.subrange(0, k)) + ps[k].num,
{
    assert(ps.subrange(0, k + 1).drop_last() =~= ps.subrange(0, k));
}

/// A search run for a fixed number of rounds.
pub struct MCTSSearch {
    /// The exploration constant of UCB1, in thousandths.
    pub exploration_constant: u64,
    /// The time the caller gives the search, in milliseconds.
    pub time_limit_ms: u64,
    pub iterations: usize,
}

impl MCTSSearch {
    /// The usual settings: an exploration constant of 1.4 and one second.
    pub fn new() -> (r: MCTSSearch)
        ensures
            r.exploration_constant == 1400,
            r.time_limit_ms == 1000,
            r.iterations == 0,
    {
        MCTSSearch { exploration_constant: 1400, time_limit_ms: 1000, iterations: 0 }
    }

    pub fn with_config(exploration_constant: u64, time_limit_ms: u64) -> (r: MCTSSearch)
        ensures
            r.exploration_constant == exploration_constant,
            r.time_limit_ms == time_limit_ms,
            r.iterations == 0,
    {
        MCTSSearch { exploration_constant, time_limit_ms, iterations: 0 }
    }

    /// Runs `rounds` rounds of the search from `initial_state` and returns the best root
    /// action. A failed round ends the search with its error.
    pub fn search(&mut self, initial_state: GameState, rounds: usize) -> (r: Result<Action, String>)
        requires
            old(self).exploration_constant <= 1000000,
        ensures
            r matches Ok(a) ==> exists|nodes: Seq<MCTSNode>|
                arena_ok(nodes) && nodes[0].children@.len() > 0 && best_choice(nodes, a@)
                    && node_state_for(initial_state@, nodes[0].state@),
            rounds == 0 ==> r is Err,
            r is Ok && old(self).iterations + rounds <= usize::MAX ==> final(self).iterations
                == old(self).iterations + rounds,
            (initial_state.procedure matches Some(p) && crate::registry::exact_discovery(p)
                && !crate::registry::is_chance(p) && crate::registry::discovered(initial_state@) is None)
                ==> r is Err,
    {
        let mut tree = match MCTSTree::new(initial_state, self.exploration_constant) {
            Ok(t) => t,
            Err(e) => {
                return Err(e);
            },
        };
        proof {
            assert(node_state_for(initial_state@, tree.nodes@[0].state@));
        }
        let mut i: usize = 0;
        while i < rounds
            invariant
                tree.wf(),
                i <= rounds,
                node_state_for(initial_state@, tree.nodes@[0].state@),
                i == 0 ==> tree.nodes@[0].children@.len() == 0,
                old(self).iterations + i <= usize::MAX ==> self.iterations == old(self).iterations + i,
                i > 0 ==> self.iterations >= old(self).iterations,
                self.exploration_constant == old(self).exploration_constant,
            decreases rounds - i,
        {
            if tree.nodes.len() > usize::MAX - 65 {
                return Err("Search tree is full".to_string());
            }
            match tree.run_iteration() {
                Ok(()) => {},
                Err(e) => {
                    return Err(e);
                },
            }
            if self.iterations < usize::MAX {
                self.iterations = self.iterations + 1;
            }
            i = i + 1;
        }
        let r = tree.get_best_action();
        proof {
            if r is Ok {
                assert(arena_ok(tree.nodes@) && tree.nodes@[0].children@.len() > 0 && best_choice(tree.nodes@, r.unwrap()@)
                    && node_state_for(initial_state@, tree.nodes@[0].state@));
            }
        }
        r
    }
}

} // verus!
