//! The search core: a PUCT-style Monte Carlo tree search over an arena
//! of nodes.
//!
//! Nodes live in one growing pool addressed by 32-bit indices; edges
//! carry moves and policy priors and point at lazily created children.
//! A byte budget caps the arena: when an iteration cannot pay for its
//! allocation, [`Tree::select`] returns `None` and the tree stays
//! readable. All scores are winning probabilities in millionths from the
//! side to move's perspective.

use crate::eval::{
    sigmoid, spec_clamp_cp, spec_sigmoid, spec_static_eval, Params, NUM_POLICY_FEATURES,
    NUM_VALUE_FEATURES, SCALE,
};
use crate::komi::GameResult;
use crate::moves::{Move, MoveView};
use crate::piece::Color;
use crate::position::{PosState, Position, HALF_MOVES_MAX};
use vstd::prelude::*;

verus! {

/// A stored score clamped into the probability range.
pub open spec fn spec_clamp_prob(m: u32) -> int {
    if m > SCALE {
        SCALE as int
    } else {
        m as int
    }
}

/// A proven game result from one side's point of view.
#[derive(Clone, Copy, Debug, PartialEq, Eq, Structural)]
pub enum GameResultForUs {
    Win,
    Loss,
    Draw,
}

impl GameResultForUs {
    /// The same result seen by the other player.
    pub fn not(self) -> (r: GameResultForUs)
        ensures
            r == self.spec_not(),
    {
        match self {
            GameResultForUs::Win => GameResultForUs::Loss,
            GameResultForUs::Loss => GameResultForUs::Win,
            GameResultForUs::Draw => GameResultForUs::Draw,
        }
    }

    /// The same result seen by the other player, for specifications.
    pub open spec fn spec_not(self) -> GameResultForUs {
        match self {
            GameResultForUs::Win => GameResultForUs::Loss,
            GameResultForUs::Loss => GameResultForUs::Win,
            GameResultForUs::Draw => GameResultForUs::Draw,
        }
    }

    /// The score of a proven result, in millionths, for specifications.
    pub open spec fn spec_score(self) -> u32 {
        match self {
            GameResultForUs::Win => SCALE,
            GameResultForUs::Loss => 0u32,
            GameResultForUs::Draw => 500_000u32,
        }
    }

    /// The score of a proven result, in millionths.
    pub fn score(self) -> (r: u32)
        ensures
            r == self.spec_score(),
            r <= SCALE,
    {
        match self {
            GameResultForUs::Win => SCALE,
            GameResultForUs::Loss => 0,
            GameResultForUs::Draw => 500_000,
        }
    }
}

/// A game result seen from the side to move: their own win is a win.
pub open spec fn spec_result_for_us(gr: GameResult, to_move: Color) -> GameResultForUs {
    match (gr, to_move) {
        (GameResult::Draw, _) => GameResultForUs::Draw,
        (GameResult::WhiteWin, Color::White) => GameResultForUs::Win,
        (GameResult::WhiteWin, Color::Black) => GameResultForUs::Loss,
        (GameResult::BlackWin, Color::White) => GameResultForUs::Loss,
        (GameResult::BlackWin, Color::Black) => GameResultForUs::Win,
    }
}

/// What one search iteration hands back up the tree: a plain value, or a
/// proven result together with the statistics the parent must unwind.
#[derive(Clone, Copy, Debug, PartialEq, Eq, Structural)]
pub enum SearchResult {
    Value(u32),
    Decisive(u64, u64, GameResultForUs),
}

/// The hard cap on visit counts, far beyond any practical search.
pub const VISIT_CAP: u64 = 0x100_0000_0000;

/// The accounted size of one node.
pub const NODE_BYTES: u64 = 48;

/// The accounted size of one edge.
pub const EDGE_BYTES: u64 = 24;

/// An index marking an edge whose child has not been created yet.
pub const NO_CHILD: u32 = 0xFFFF_FFFF;

struct Node {
    visits: u64,
    total_action_value: u64,
    mean_action_value: u32,
    heuristic_score: u32,
    known_result: Option<GameResultForUs>,
    initialized: bool,
    edge_start: usize,
    edge_count: usize,
}

struct Edge {
    mv: Move,
    prior: u32,
    child: u32,
}

/// Every initialized node from `from` onward has a short edge range
/// that lies inside an edge store of length `edges_len`.
spec fn nodes_ranges_ok(nodes: Seq<Node>, edges_len: int, from: int) -> bool {
    forall|i: int|
        from <= i < nodes.len() && (#[trigger] nodes[i]).initialized ==> nodes[i].edge_start
            + nodes[i].edge_count <= edges_len && 1 <= nodes[i].edge_count <= 1_000_000
}

/// Search settings: the arena budget, the model parameters, and moves to
/// keep out of the root.
pub struct MctsSetting {
    pub arena_size: u64,
    pub value_params: Params,
    pub policy_params: Params,
    pub exclude_moves: Vec<Move>,
}

impl MctsSetting {
    /// The default settings: a large arena and the built-in parameters.
    pub fn default_setting() -> (r: MctsSetting)
        ensures
            r.value_params.wf(NUM_VALUE_FEATURES as int),
            r.policy_params.wf(NUM_POLICY_FEATURES as int),
            r.arena_size == 0x4000_0000,
            r.exclude_moves@.len() == 0,
    {
        MctsSetting {
            arena_size: 0x4000_0000,
            value_params: crate::eval::default_value_params(),
            policy_params: crate::eval::default_policy_params(),
            exclude_moves: Vec::new(),
        }
    }

    /// Use an arena of the given size in bytes.
    pub fn arena_size(self, size: u64) -> (r: MctsSetting)
        ensures
            r.arena_size == size,
            r.value_params == self.value_params,
            r.policy_params == self.policy_params,
            r.exclude_moves == self.exclude_moves,
    {
        MctsSetting { arena_size: size, ..self }
    }

    /// Size the arena so that roughly `nodes` search iterations fit.
    pub fn arena_size_for_nodes(self, nodes: u32) -> (r: MctsSetting)
        ensures
            r.arena_size == (nodes as u64) * NODE_BYTES,
            r.value_params == self.value_params,
            r.policy_params == self.policy_params,
            r.exclude_moves == self.exclude_moves,
    {
        proof {
            assert((nodes as u64) * NODE_BYTES <= 0xFFFF_FFFFu64 * NODE_BYTES)
                by (nonlinear_arith)
                requires
                    nodes <= 0xFFFF_FFFFu64,
            ;
        }
        MctsSetting { arena_size: (nodes as u64) * NODE_BYTES, ..self }
    }

    /// Keep the given moves out of the root's children.
    pub fn exclude_moves(self, moves: Vec<Move>) -> (r: MctsSetting)
        ensures
            r.exclude_moves == moves,
            r.arena_size == self.arena_size,
            r.value_params == self.value_params,
            r.policy_params == self.policy_params,
    {
        MctsSetting { exclude_moves: moves, ..self }
    }

    /// Override the value model.
    pub fn add_value_params(self, params: Params) -> (r: MctsSetting)
        requires
            params.wf(NUM_VALUE_FEATURES as int),
        ensures
            r.value_params.wf(NUM_VALUE_FEATURES as int),
            r.policy_params == self.policy_params,
    {
        MctsSetting { value_params: params, ..self }
    }

    /// Override the policy model.
    pub fn add_policy_params(self, params: Params) -> (r: MctsSetting)
        requires
            params.wf(NUM_POLICY_FEATURES as int),
        ensures
            r.policy_params.wf(NUM_POLICY_FEATURES as int),
            r.value_params == self.value_params,
    {
        MctsSetting { policy_params: params, ..self }
    }
}

/// A Monte Carlo search tree: the arena of nodes and edges, the root
/// position, and the settings the search runs with.
///
/// Every structural assumption (index bounds, move legality, counter
/// ranges) is checked executably during the search; an iteration that
/// meets an exhausted budget or an out-of-range value returns `None`
/// and leaves the statistics untouched.
pub struct Tree {
    nodes: Vec<Node>,
    edges: Vec<Edge>,
    root_position: Position,
    settings: MctsSetting,
    arena_used: u64,
}

impl Tree {
    /// The position the search started from.
    pub closed spec fn spec_root_state(self) -> PosState {
        self.root_position@
    }

    /// The number of visits of node `i`.
    pub closed spec fn spec_visits(self, i: int) -> u64 {
        self.nodes@[i].visits
    }

    /// The proven result of node `i`, if any.
    pub closed spec fn spec_known(self, i: int) -> Option<GameResultForUs> {
        self.nodes@[i].known_result
    }

    /// The stored mean action value of node `i`, in millionths.
    pub closed spec fn spec_mean(self, i: int) -> u32 {
        self.nodes@[i].mean_action_value
    }

    /// The stored total action value of node `i`.
    pub closed spec fn spec_tav(self, i: int) -> u64 {
        self.nodes@[i].total_action_value
    }

    /// The stored static policy score of node `i`, in millionths.
    pub closed spec fn spec_heuristic(self, i: int) -> u32 {
        self.nodes@[i].heuristic_score
    }

    /// The bytes of arena budget spent so far.
    pub closed spec fn spec_arena_used(self) -> u64 {
        self.arena_used
    }

    /// The arena budget the tree was made with.
    pub closed spec fn spec_arena_size(self) -> u64 {
        self.settings.arena_size
    }

    /// The value-model parameters the tree searches with.
    pub closed spec fn spec_value_params(self) -> Params {
        self.settings.value_params
    }

    /// The number of moves kept out of the root's children.
    pub closed spec fn spec_excluded_count(self) -> int {
        self.settings.exclude_moves@.len() as int
    }

    /// The probability a first visit stores for an undecided position
    /// `p`: the squashed static evaluation, which is white-centric,
    /// flipped when Black is to move.
    pub open spec fn spec_first_visit_value(self, p: PosState) -> int {
        let w = spec_sigmoid(spec_clamp_cp(spec_static_eval(p, self.spec_value_params())));
        if p.to_move == Color::White {
            w
        } else {
            SCALE - w
        }
    }

    /// The number of nodes in the arena.
    pub closed spec fn spec_num_nodes(self) -> int {
        self.nodes@.len() as int
    }

    /// Whether the root node has had its children created.
    pub closed spec fn spec_root_initialized(self) -> bool {
        self.nodes@[0].initialized
    }

    /// Whether move `m` labels one of the root's edges.
    pub closed spec fn spec_root_edge_move(self, m: MoveView) -> bool {
        exists|k: int|
            self.nodes@[0].edge_start <= k < self.nodes@[0].edge_start + self.nodes@[0].edge_count
                && (#[trigger] self.edges@[k]).mv@ == m
    }

    /// Whether root edge `k` is a proven win for the side to move: its
    /// child exists and is proven lost for the opponent.
    closed spec fn spec_edge_proven_win(self, k: int) -> bool {
        &&& self.nodes@[0].initialized
        &&& self.nodes@[0].edge_start <= k < self.nodes@[0].edge_start + self.nodes@[0].edge_count
        &&& self.edges@[k].child != NO_CHILD
        &&& (self.edges@[k].child as int) < self.nodes@.len()
        &&& self.nodes@[self.edges@[k].child as int].known_result == Some(GameResultForUs::Loss)
    }

    /// Some root edge is a proven win for the side to move.
    pub closed spec fn spec_root_has_proven_win(self) -> bool {
        exists|k: int| self.spec_edge_proven_win(k)
    }

    /// Whether edge `k` leads to a child proven won for the opponent:
    /// taking it is a proven loss for the side to move.
    closed spec fn spec_edge_child_won(self, k: int) -> bool {
        &&& self.edges@[k].child != NO_CHILD
        &&& (self.edges@[k].child as int) < self.nodes@.len()
        &&& self.nodes@[self.edges@[k].child as int].known_result == Some(GameResultForUs::Win)
    }

    /// Every move of node `node` runs into a child proven won for the
    /// opponent: the node is lost.
    pub closed spec fn spec_all_children_won(self, node: int) -> bool {
        &&& self.nodes@[node].initialized
        &&& forall|k: int|
            self.nodes@[node].edge_start <= k < self.nodes@[node].edge_start
                + self.nodes@[node].edge_count ==> self.spec_edge_child_won(k)
    }

    /// The number of the root's edges.
    pub closed spec fn spec_root_edge_count(self) -> int {
        self.nodes@[0].edge_count as int
    }

    /// The move labelling the `j`-th root edge.
    pub closed spec fn spec_root_edge_mv(self, j: int) -> MoveView {
        self.edges@[self.nodes@[0].edge_start + j].mv@
    }

    /// The visit count of the `j`-th root edge's child, zero while the
    /// child does not exist.
    pub closed spec fn spec_root_child_visits(self, j: int) -> u64 {
        let e = self.edges@[self.nodes@[0].edge_start + j];
        if e.child != NO_CHILD && (e.child as int) < self.nodes@.len() {
            self.nodes@[e.child as int].visits
        } else {
            0
        }
    }

    /// The capped visit total over the first `n` root edges.
    pub closed spec fn spec_root_visit_total(self, n: int) -> int
        decreases n,
    {
        if n <= 0 {
            0
        } else {
            self.spec_root_visit_total(n - 1) + (if self.spec_root_child_visits(n - 1)
                > VISIT_CAP {
                VISIT_CAP as int
            } else {
                self.spec_root_child_visits(n - 1) as int
            })
        }
    }

    /// The share of the visit mass the `j`-th root edge earns, in
    /// millionths: its child's clamped visits against the capped total.
    pub open spec fn spec_visit_share(self, j: int) -> int {
        let total = self.spec_root_visit_total(self.spec_root_edge_count());
        let v0 = self.spec_root_child_visits(j) as int;
        let v1 = if v0 > total {
            total
        } else {
            v0
        };
        let v2 = if v1 > VISIT_CAP {
            VISIT_CAP as int
        } else {
            v1
        };
        v2 * (SCALE as int) / total
    }

    /// `m` labels a root edge whose child is proven lost for the
    /// opponent: playing it wins.
    pub closed spec fn spec_root_proven_win_move(self, m: MoveView) -> bool {
        exists|k: int| #[trigger] self.spec_edge_proven_win(k) && self.edges@[k].mv@ == m
    }

    /// Structural soundness of the arena: every initialized node's edge
    /// range lies inside the edge vector and is short, and the root's
    /// edges all carry moves legal in the root position.
    closed spec fn arena_wf(self) -> bool {
        &&& forall|i: int|
            0 <= i < self.nodes@.len() && (#[trigger] self.nodes@[i]).initialized
                ==> self.nodes@[i].edge_start + self.nodes@[i].edge_count <= self.edges@.len()
                && 1 <= self.nodes@[i].edge_count <= 1_000_000
        &&& (self.nodes@[0].initialized ==> forall|k: int|
            self.nodes@[0].edge_start <= k < self.nodes@[0].edge_start + self.nodes@[0].edge_count
                ==> self.root_position@.spec_legal_move((#[trigger] self.edges@[k]).mv@))
    }

    /// The basic shape of the tree: at least the root node, a root
    /// position fit for further play, and a structurally sound arena.
    pub closed spec fn wf(self) -> bool {
        &&& self.nodes@.len() >= 1
        &&& self.root_position@.wf()
        &&& self.root_position@.half_moves + 2 < HALF_MOVES_MAX
        &&& self.settings.value_params.wf(NUM_VALUE_FEATURES as int)
        &&& self.settings.policy_params.wf(NUM_POLICY_FEATURES as int)
        &&& self.arena_wf()
        &&& self.arena_used <= self.settings.arena_size
    }

    /// A fresh search tree over a position: one unvisited root node.
    pub fn new_root(position: Position, settings: MctsSetting) -> (r: Tree)
        requires
            position@.wf(),
            position@.half_moves + 2 < HALF_MOVES_MAX,
            settings.value_params.wf(NUM_VALUE_FEATURES as int),
            settings.policy_params.wf(NUM_POLICY_FEATURES as int),
        ensures
            r.wf(),
            r.spec_root_state() == position@,
            r.spec_visits(0) == 0,
            r.spec_num_nodes() == 1,
            r.spec_known(0) is None,
            r.spec_mean(0) == 500_000,
            !r.spec_root_initialized(),
            r.spec_arena_used() == 0,
            r.spec_arena_size() == settings.arena_size,
            r.spec_value_params() == settings.value_params,
            r.spec_excluded_count() == settings.exclude_moves@.len(),
    {
        let mut nodes: Vec<Node> = Vec::new();
        nodes.push(
            Node {
                visits: 0,
                total_action_value: 0,
                mean_action_value: 500_000,
                heuristic_score: 0,
                known_result: None,
                initialized: false,
                edge_start: 0,
                edge_count: 0,
            },
        );
        Tree {
            nodes,
            edges: Vec::new(),
            root_position: position,
            settings,
            arena_used: 0,
        }
    }

    /// The number of visits of the root.
    pub fn visits(&self) -> (r: u64)
        requires
            self.wf(),
        ensures
            r == self.spec_visits(0),
    {
        self.nodes[0].visits
    }

    /// The mean action value of the root, in millionths, clamped to the
    /// probability range.
    pub fn mean_action_value(&self) -> (r: u32)
        requires
            self.wf(),
        ensures
            r == if self.spec_mean(0) > SCALE {
                SCALE as u32
            } else {
                self.spec_mean(0)
            },
            r <= SCALE,
    {
        let m = self.nodes[0].mean_action_value;
        if m > SCALE {
            SCALE
        } else {
            m
        }
    }

    /// The proven result of the root, if any.
    pub fn known_result(&self) -> (r: Option<GameResultForUs>)
        requires
            self.wf(),
        ensures
            r == self.spec_known(0),
    {
        self.nodes[0].known_result
    }

    /// A copy of the tree over the same position, with every node's
    /// statistics (visits, action values, policy score, proven result)
    /// carried over, and the children truncated below the given depth:
    /// at depth one or less the root keeps no children.
    pub fn shallow_clone(&self, depth: u8) -> (r: Tree)
        requires
            self.wf(),
        ensures
            r.wf(),
            r.spec_root_state() == self.spec_root_state(),
            r.spec_arena_size() == self.spec_arena_size(),
            r.spec_visits(0) == self.spec_visits(0),
            r.spec_tav(0) == self.spec_tav(0),
            r.spec_mean(0) == self.spec_mean(0),
            r.spec_known(0) == self.spec_known(0),
            r.spec_heuristic(0) == self.spec_heuristic(0),
            depth <= 1 ==> !r.spec_root_initialized(),
            depth > 1 ==> (r.spec_root_initialized() <==> self.spec_root_initialized()),
            r.spec_value_params().values@ == self.spec_value_params().values@,
    {
        let mut nodes: Vec<Node> = Vec::new();
        let mut edges: Vec<Edge> = Vec::new();
        let _root = self.copy_subtree(0, depth, &mut nodes, &mut edges);
        let position = self.root_position.duplicate();
        let settings = MctsSetting {
            arena_size: self.settings.arena_size,
            value_params: copy_params(&self.settings.value_params, NUM_VALUE_FEATURES),
            policy_params: copy_params(&self.settings.policy_params, NUM_POLICY_FEATURES),
            exclude_moves: Vec::new(),
        };
        let total: u64 = (nodes.len() as u64) * NODE_BYTES + (edges.len() as u64) * EDGE_BYTES;
        let used: u64 = if total > self.settings.arena_size {
            self.settings.arena_size
        } else {
            total
        };
        let r = Tree { nodes, edges, root_position: position, settings, arena_used: used };
        proof {
            if r.nodes@[0].initialized {
                assert forall|k: int|
                    r.nodes@[0].edge_start <= k < r.nodes@[0].edge_start
                        + r.nodes@[0].edge_count implies r.root_position@.spec_legal_move(
                    (#[trigger] r.edges@[k]).mv@,
                ) by {
                    let j = k - r.nodes@[0].edge_start;
                    assert(r.edges@[r.nodes@[0].edge_start + j].mv@ == self.edges@[self.nodes@[0].edge_start + j].mv@);
                    assert(self.root_position@.spec_legal_move(
                        self.edges@[self.nodes@[0].edge_start + j].mv@,
                    ));
                }
            }
        }
        r
    }

    /// Copy the subtree below `node` into fresh node and edge stores,
    /// carrying every statistic and cutting the children off below
    /// `depth`. Returns the copy's index.
    fn copy_subtree(&self, node: u32, depth: u8, nodes: &mut Vec<Node>, edges: &mut Vec<Edge>)
        -> (r: u32)
        requires
            self.wf(),
            0 <= (node as int) < self.spec_num_nodes(),
            old(nodes)@.len() < 0x0FFF_FFFF,
            old(edges)@.len() <= 0x0FFF_FFFF,
        ensures
            old(nodes)@.len() < final(nodes)@.len() <= 0x0FFF_FFFF,
            old(edges)@.len() <= final(edges)@.len() <= 0x0FFF_FFFF,
            forall|i: int| 0 <= i < old(nodes)@.len() ==> final(nodes)@[i] == old(nodes)@[i],
            forall|k: int| 0 <= k < old(edges)@.len() ==> final(edges)@[k] == old(edges)@[k],
            r as int == old(nodes)@.len(),
            ({
                let nd = final(nodes)@[r as int];
                let src = self.nodes@[node as int];
                nd.visits == src.visits && nd.total_action_value == src.total_action_value
                    && nd.mean_action_value == src.mean_action_value && nd.heuristic_score
                    == src.heuristic_score && nd.known_result == src.known_result
            }),
            nodes_ranges_ok(final(nodes)@, final(edges)@.len() as int, old(nodes)@.len() as int),
            depth <= 1 ==> !final(nodes)@[r as int].initialized,
            final(nodes)@[r as int].initialized ==> self.nodes@[node as int].initialized
                && final(nodes)@[r as int].edge_count == self.nodes@[node as int].edge_count && (
            forall|j: int|
                0 <= j < final(nodes)@[r as int].edge_count ==> (#[trigger] final(edges)@[final(nodes)@[r as int].edge_start + j]).mv@
                    == self.edges@[self.nodes@[node as int].edge_start + j].mv@),
            depth > 1 && self.nodes@[node as int].initialized && old(edges)@.len()
                + self.nodes@[node as int].edge_count <= 0x0FFF_FFFF
                ==> final(nodes)@[r as int].initialized,
        decreases depth,
    {
        let src_visits = self.nodes[node as usize].visits;
        let src_tav = self.nodes[node as usize].total_action_value;
        let src_mean = self.nodes[node as usize].mean_action_value;
        let src_heur = self.nodes[node as usize].heuristic_score;
        let src_known = self.nodes[node as usize].known_result;
        let src_initialized = self.nodes[node as usize].initialized;
        let r_idx = nodes.len();
        nodes.push(
            Node {
                visits: src_visits,
                total_action_value: src_tav,
                mean_action_value: src_mean,
                heuristic_score: src_heur,
                known_result: src_known,
                initialized: false,
                edge_start: 0,
                edge_count: 0,
            },
        );
        if depth <= 1 || !src_initialized {
            return r_idx as u32;
        }
        let start_orig = self.nodes[node as usize].edge_start;
        let count = self.nodes[node as usize].edge_count;
        proof {
            assert(1 <= count <= 1_000_000 && start_orig + count <= self.edges@.len());
        }
        if edges.len() > 0x0FFF_FFFF - count {
            return r_idx as u32;
        }
        let src_edges_len = self.edges.len();
        let new_start = edges.len();
        let mut j: usize = 0;
        while j < count
            invariant
                j <= count,
                0 <= (node as int) < self.nodes@.len(),
                self.nodes@[node as int].initialized,
                start_orig == self.nodes@[node as int].edge_start,
                count == self.nodes@[node as int].edge_count,
                start_orig + count <= self.edges@.len(),
                src_edges_len == self.edges@.len(),
                1 <= count <= 1_000_000,
                r_idx as int == old(nodes)@.len(),
                old(nodes)@.len() < 0x0FFF_FFFF,
                nodes@.len() == old(nodes)@.len() + 1,
                forall|i: int| 0 <= i < old(nodes)@.len() ==> nodes@[i] == old(nodes)@[i],
                nodes@[r_idx as int].visits == self.nodes@[node as int].visits,
                nodes@[r_idx as int].total_action_value == self.nodes@[node as int].total_action_value,
                nodes@[r_idx as int].mean_action_value == self.nodes@[node as int].mean_action_value,
                nodes@[r_idx as int].heuristic_score == self.nodes@[node as int].heuristic_score,
                nodes@[r_idx as int].known_result == self.nodes@[node as int].known_result,
                !nodes@[r_idx as int].initialized,
                new_start == old(edges)@.len(),
                edges@.len() == new_start + j,
                new_start + count <= 0x0FFF_FFFF,
                forall|k: int| 0 <= k < new_start ==> edges@[k] == old(edges)@[k],
                forall|k: int|
                    0 <= k < j as int ==> (#[trigger] edges@[new_start + k]).mv@
                        == self.edges@[start_orig + k].mv@,
            decreases count - j,
        {
            let e = &self.edges[start_orig + j];
            edges.push(Edge { mv: e.mv.duplicate(), prior: e.prior, child: NO_CHILD });
            j = j + 1;
        }
        let mut j2: usize = 0;
        while j2 < count
            invariant
                j2 <= count,
                depth >= 2,
                self.wf(),
                0 <= (node as int) < self.nodes@.len(),
                self.nodes@[node as int].initialized,
                start_orig == self.nodes@[node as int].edge_start,
                count == self.nodes@[node as int].edge_count,
                start_orig + count <= self.edges@.len(),
                src_edges_len == self.edges@.len(),
                1 <= count <= 1_000_000,
                r_idx as int == old(nodes)@.len(),
                old(nodes)@.len() < 0x0FFF_FFFF,
                old(nodes)@.len() < nodes@.len() <= 0x0FFF_FFFF,
                forall|i: int| 0 <= i < old(nodes)@.len() ==> nodes@[i] == old(nodes)@[i],
                nodes@[r_idx as int].visits == self.nodes@[node as int].visits,
                nodes@[r_idx as int].total_action_value == self.nodes@[node as int].total_action_value,
                nodes@[r_idx as int].mean_action_value == self.nodes@[node as int].mean_action_value,
                nodes@[r_idx as int].heuristic_score == self.nodes@[node as int].heuristic_score,
                nodes@[r_idx as int].known_result == self.nodes@[node as int].known_result,
                !nodes@[r_idx as int].initialized,
                new_start == old(edges)@.len(),
                new_start + count <= edges@.len() <= 0x0FFF_FFFF,
                forall|k: int| 0 <= k < new_start ==> edges@[k] == old(edges)@[k],
                forall|k: int|
                    0 <= k < count ==> (#[trigger] edges@[new_start + k]).mv@
                        == self.edges@[start_orig + k].mv@,
                nodes_ranges_ok(nodes@, edges@.len() as int, old(nodes)@.len() as int),
            decreases count - j2,
        {
            proof {
                assert(start_orig + j2 < self.edges@.len());
            }
            let e_child = self.edges[start_orig + j2].child;
            if e_child != NO_CHILD && (e_child as usize) < self.nodes.len() && nodes.len()
                < 0x0FFF_FFFF {
                let ghost mid_edges = edges@;
                let nc = self.copy_subtree(e_child, depth - 1, nodes, edges);
                let ed = &mut edges[new_start + j2];
                ed.child = nc;
                proof {
                    assert forall|k: int|
                        0 <= k < count implies (#[trigger] edges@[new_start + k]).mv@
                        == self.edges@[start_orig + k].mv@ by {
                        if new_start + k != new_start + j2 {
                            assert(edges@[new_start + k] == mid_edges[new_start + k]);
                        }
                    }
                }
            }
            j2 = j2 + 1;
        }
        let nd = &mut nodes[r_idx];
        nd.initialized = true;
        nd.edge_start = new_start;
        nd.edge_count = count;
        r_idx as u32
    }

    /// One search iteration from the root, or `None` when the arena
    /// budget, a counter limit, or an internal bound is exhausted.
    ///
    /// On `Some`, the root's visit count has grown by exactly one unless
    /// the root was just proven; on `None` it is unchanged. A node's
    /// proven result never changes once set. A fresh root with a node's
    /// worth of budget left is always served; and while no node is
    /// proven, every served iteration pays for one new node, so the
    /// number of iterations is bounded by the arena budget.
    pub fn select(&mut self) -> (r: Option<SearchResult>)
        requires
            old(self).wf(),
        ensures
            final(self).wf(),
            final(self).spec_root_state() == old(self).spec_root_state(),
            final(self).spec_num_nodes() >= old(self).spec_num_nodes(),
            final(self).spec_arena_size() == old(self).spec_arena_size(),
            final(self).spec_arena_used() >= old(self).spec_arena_used(),
            final(self).spec_arena_used() <= final(self).spec_arena_size(),
            r is None ==> final(self).spec_visits(0) == old(self).spec_visits(0),
            r is Some ==> final(self).spec_visits(0) == old(self).spec_visits(0) + 1 || (final(
            self)).spec_known(0) is Some || r->Some_0 is Decisive,
            forall|i: int|
                0 <= i < old(self).spec_num_nodes() && old(self).spec_known(i) is Some
                    ==> final(self).spec_known(i) == old(self).spec_known(i),
            old(self).spec_visits(0) == 0 && old(self).spec_known(0) is None && old(
                self,
            ).spec_arena_used() + NODE_BYTES <= old(self).spec_arena_size() ==> r is Some,
            r is Some && (forall|i: int|
                0 <= i < final(self).spec_num_nodes() ==> final(self).spec_known(i) is None)
                ==> final(self).spec_arena_used() >= old(self).spec_arena_used() + NODE_BYTES,
            r is Some && old(self).spec_visits(0) == 0 && old(self).spec_known(0) is None && old(
                self,
            ).spec_root_state().spec_game_result() is Some ==> final(self).spec_known(0) == Some(
                spec_result_for_us(
                    old(self).spec_root_state().spec_game_result()->Some_0,
                    old(self).spec_root_state().to_move,
                ),
            ) && final(self).spec_visits(0) == 1 && final(self).spec_mean(0)
                == spec_result_for_us(
                old(self).spec_root_state().spec_game_result()->Some_0,
                old(self).spec_root_state().to_move,
            ).spec_score() && final(self).spec_tav(0) == final(self).spec_mean(0) as u64 && r
                == Some(SearchResult::Value(final(self).spec_mean(0))) && final(self).spec_arena_used()
                == old(self).spec_arena_used() + NODE_BYTES,
            r is Some && old(self).spec_visits(0) == 0 && old(self).spec_known(0) is None && old(
                self,
            ).spec_root_state().spec_game_result() is None ==> final(self).spec_known(0) is None
                && final(self).spec_visits(0) == 1 && final(self).spec_mean(0) as int == old(
                self,
            ).spec_first_visit_value(old(self).spec_root_state()) && final(self).spec_tav(0)
                == final(self).spec_mean(0) as u64 && r == Some(
                SearchResult::Value(final(self).spec_mean(0)),
            ) && final(self).spec_arena_used() == old(self).spec_arena_used() + NODE_BYTES,
            old(self).spec_visits(0) == 0 && old(self).spec_known(0) is None ==> final(self).spec_num_nodes() == old(self).spec_num_nodes() && final(self).spec_root_initialized()
                == old(self).spec_root_initialized(),
            r is Some && old(self).spec_known(0) is Some ==> final(self).spec_visits(0) == old(
                self,
            ).spec_visits(0) + 1 && final(self).spec_mean(0) == old(self).spec_mean(0)
                && final(self).spec_known(0) == old(self).spec_known(0) && final(self).spec_tav(0)
                == old(self).spec_tav(0) + spec_clamp_prob(old(self).spec_mean(0)) && r == Some(
                SearchResult::Value(spec_clamp_prob(old(self).spec_mean(0)) as u32),
            ),
            r is Some && old(self).spec_known(0) is None && old(self).spec_visits(0) >= 1 && old(
                self,
            ).spec_all_children_won(0) ==> final(self).spec_known(0) == Some(
                GameResultForUs::Loss,
            ) && final(self).spec_visits(0) == 1 && final(self).spec_mean(0) == 0
                && final(self).spec_tav(0) == 0 && r == Some(
                SearchResult::Decisive(
                    old(self).spec_visits(0),
                    ((old(self).spec_visits(0) as int) * (SCALE as int) - (old(self).spec_tav(
                        0,
                    ) as int)) as u64,
                    GameResultForUs::Loss,
                ),
            ),
            final(self).spec_excluded_count() == old(self).spec_excluded_count(),
            old(self).spec_root_initialized() ==> final(self).spec_root_initialized(),
            old(self).spec_visits(0) == 1 && old(self).spec_known(0) is None && !old(
                self,
            ).spec_root_initialized() && old(self).spec_root_state().spec_game_result() is None
                && old(self).spec_root_state().half_moves + 2 < HALF_MOVES_MAX && old(
                self,
            ).spec_arena_used() + 100_000 * EDGE_BYTES <= old(self).spec_arena_size() && old(
                self,
            ).spec_excluded_count() == 0 ==> final(self).spec_root_initialized(),
    {
        let mut scratch = self.root_position.duplicate();
        self.select_node(0, &mut scratch, true)
    }

    /// One search iteration from node `node`, whose position is in
    /// `position`.
    #[verifier::rlimit(100)]
    fn select_node(&mut self, node: u32, position: &mut Position, is_root: bool) -> (r: Option<
        SearchResult,
    >)
        requires
            old(self).wf(),
            0 <= (node as int) < old(self).spec_num_nodes(),
            old(position)@.wf(),
            old(position)@.half_moves + 2 < HALF_MOVES_MAX,
            node == 0 ==> old(position)@ == old(self).spec_root_state(),
        ensures
            final(self).wf(),
            final(self).spec_root_state() == old(self).spec_root_state(),
            final(self).spec_num_nodes() >= old(self).spec_num_nodes(),
            final(self).spec_arena_size() == old(self).spec_arena_size(),
            final(self).spec_arena_used() >= old(self).spec_arena_used(),
            r is None ==> final(self).spec_visits(node as int) == old(self).spec_visits(
                node as int,
            ) && final(self).spec_known(node as int) == old(self).spec_known(node as int),
            r is Some ==> final(self).spec_visits(node as int) == old(self).spec_visits(
                node as int,
            ) + 1 || (final(self)).spec_known(node as int) is Some || r->Some_0 is Decisive,
            forall|i: int|
                0 <= i < old(self).spec_num_nodes() && old(self).spec_known(i) is Some
                    ==> final(self).spec_known(i) == old(self).spec_known(i),
            forall|i: int|
                0 <= i < old(self).spec_num_nodes() && i < node as int ==> (final(self)).spec_visits(i) == old(self).spec_visits(i) && (final(self)).spec_known(i) == (old(self)).spec_known(i),
            old(self).spec_visits(node as int) == 0 && old(self).spec_known(node as int) is None
                && old(self).spec_arena_used() + NODE_BYTES <= old(self).spec_arena_size()
                ==> r is Some,
            r is Some && (forall|i: int|
                0 <= i < final(self).spec_num_nodes() ==> final(self).spec_known(i) is None)
                ==> final(self).spec_arena_used() >= old(self).spec_arena_used() + NODE_BYTES,
            r is Some && old(self).spec_visits(node as int) == 0 && old(self).spec_known(
                node as int,
            ) is None && old(position)@.spec_game_result() is Some ==> final(self).spec_known(
                node as int,
            ) == Some(
                spec_result_for_us(
                    old(position)@.spec_game_result()->Some_0,
                    old(position)@.to_move,
                ),
            ) && final(self).spec_visits(node as int) == 1 && final(self).spec_mean(node as int)
                == spec_result_for_us(
                old(position)@.spec_game_result()->Some_0,
                old(position)@.to_move,
            ).spec_score() && final(self).spec_tav(node as int) == final(self).spec_mean(
                node as int,
            ) as u64 && r == Some(SearchResult::Value(final(self).spec_mean(node as int)))
                && final(self).spec_arena_used() == old(self).spec_arena_used() + NODE_BYTES,
            r is Some && old(self).spec_visits(node as int) == 0 && old(self).spec_known(
                node as int,
            ) is None && old(position)@.spec_game_result() is None ==> final(self).spec_known(
                node as int,
            ) is None && final(self).spec_visits(node as int) == 1 && final(self).spec_mean(
                node as int,
            ) as int == old(self).spec_first_visit_value(old(position)@) && final(self).spec_tav(
                node as int,
            ) == final(self).spec_mean(node as int) as u64 && r == Some(
                SearchResult::Value(final(self).spec_mean(node as int)),
            ) && final(self).spec_arena_used() == old(self).spec_arena_used() + NODE_BYTES,
            old(self).spec_visits(node as int) == 0 && old(self).spec_known(node as int) is None
                ==> final(self).spec_num_nodes() == old(self).spec_num_nodes() && final(self).spec_root_initialized() == old(self).spec_root_initialized(),
            r is Some && old(self).spec_known(node as int) is Some ==> final(self).spec_visits(
                node as int,
            ) == old(self).spec_visits(node as int) + 1 && final(self).spec_mean(node as int)
                == old(self).spec_mean(node as int) && final(self).spec_known(node as int) == old(
                self,
            ).spec_known(node as int) && final(self).spec_tav(node as int) == old(self).spec_tav(
                node as int,
            ) + spec_clamp_prob(old(self).spec_mean(node as int)) && r == Some(
                SearchResult::Value(spec_clamp_prob(old(self).spec_mean(node as int)) as u32),
            ),
            r is Some && old(self).spec_known(node as int) is None && old(self).spec_visits(
                node as int,
            ) >= 1 && old(self).spec_all_children_won(node as int) ==> final(self).spec_known(
                node as int,
            ) == Some(GameResultForUs::Loss) && final(self).spec_visits(node as int) == 1
                && final(self).spec_mean(node as int) == 0 && final(self).spec_tav(node as int)
                == 0 && r == Some(
                SearchResult::Decisive(
                    old(self).spec_visits(node as int),
                    ((old(self).spec_visits(node as int) as int) * (SCALE as int) - (old(
                        self,
                    ).spec_tav(node as int) as int)) as u64,
                    GameResultForUs::Loss,
                ),
            ),
            final(self).settings == old(self).settings,
            old(self).spec_root_initialized() ==> final(self).spec_root_initialized(),
            node == 0 && old(self).spec_visits(0) == 1 && old(self).spec_known(0) is None && !old(
                self,
            ).spec_root_initialized() && old(position)@.spec_game_result() is None && old(
                position,
            )@.half_moves + 2 < HALF_MOVES_MAX && old(self).spec_arena_used() + 100_000
                * EDGE_BYTES <= old(self).spec_arena_size() && old(
                self,
            ).settings.exclude_moves@.len() == 0 ==> final(self).spec_root_initialized(),
        decreases 0x1_0000_0000u64 - node,
    {
        let node_i = node as usize;
        let visits = self.nodes[node_i].visits;
        if visits >= VISIT_CAP - 2 {
            return None;
        }
        if self.nodes[node_i].known_result.is_some() {
            // A proven node: repeat its score.
            let mean = self.nodes[node_i].mean_action_value;
            let mean = if mean > SCALE {
                SCALE
            } else {
                mean
            };
            let tav = self.nodes[node_i].total_action_value;
            if tav > VISIT_CAP * (SCALE as u64) {
                return None;
            }
            let nd = &mut self.nodes[node_i];
            nd.visits = nd.visits + 1;
            nd.total_action_value = tav + (mean as u64);
            return Some(SearchResult::Value(mean));
        }
        if visits == 0 {
            return self.expand(node, position);
        }
        if !self.nodes[node_i].initialized {
            let ok = self.init_children(node, position, is_root);
            if !ok {
                return None;
            }
        }
        // Pick the child with the best exploration value; a proven loss
        // for the child is a win for us and is taken at once; a proven
        // win for the child is never taken.
        let start = self.nodes[node_i].edge_start;
        let count = self.nodes[node_i].edge_count;
        if count == 0 || start > self.edges.len() || self.edges.len() - start < count {
            return None;
        }
        let (found, best_k) = self.pick_child(start, count, visits);
        if found && (best_k >= self.edges.len() || best_k < start) {
            return None;
        }
        if !found {
            // Every child is a proven win for the opponent: this node is
            // a proven loss. Undo its accumulated statistics upstream.
            let prev_visits = self.nodes[node_i].visits;
            let prev_tav = self.nodes[node_i].total_action_value;
            if prev_visits > VISIT_CAP {
                return None;
            }
            proof {
                assert(prev_visits * (SCALE as u64) <= VISIT_CAP * (SCALE as u64))
                    by (nonlinear_arith)
                    requires
                        prev_visits <= VISIT_CAP,
                ;
            }
            if prev_tav > prev_visits * (SCALE as u64) {
                return None;
            }
            let nd = &mut self.nodes[node_i];
            nd.known_result = Some(GameResultForUs::Loss);
            nd.visits = 1;
            nd.total_action_value = 0;
            nd.mean_action_value = 0;
            return Some(
                SearchResult::Decisive(
                    prev_visits,
                    prev_visits * (SCALE as u64) - prev_tav,
                    GameResultForUs::Loss,
                ),
            );
        }
        // Create the chosen child if it does not exist yet.
        if best_k >= self.edges.len() {
            return None;
        }
        let child = match self.ensure_child(best_k) {
            Some(c) => c,
            None => {
                return None;
            },
        };
        if child <= node || (child as usize) >= self.nodes.len() {
            return None;
        }
        let mv = self.edges[best_k].mv.duplicate();
        if !position.is_legal_move(&mv) {
            return None;
        }
        let _rev = position.do_move(mv);
        if (position.half_moves_played() as u64) + 2 >= HALF_MOVES_MAX as u64 {
            return None;
        }
        let sub = self.select_node(child, position, false);
        match sub {
            None => None,
            Some(res) => self.backup(node, child, res),
        }
    }

    /// The child node behind an edge, created on first use.
    fn ensure_child(&mut self, best_k: usize) -> (r: Option<u32>)
        requires
            old(self).wf(),
            best_k < old(self).edges@.len(),
        ensures
            final(self).wf(),
            final(self).spec_root_state() == old(self).spec_root_state(),
            final(self).spec_num_nodes() >= old(self).spec_num_nodes(),
            final(self).spec_arena_size() == old(self).spec_arena_size(),
            final(self).spec_arena_used() == old(self).spec_arena_used(),
            forall|i: int|
                0 <= i < old(self).spec_num_nodes() ==> (final(self)).spec_visits(i) == old(
                    self,
                ).spec_visits(i) && (final(self)).spec_known(i) == (old(self)).spec_known(i),
            r is Some ==> (r->Some_0 as int) < final(self).spec_num_nodes(),
            final(self).edges@.len() >= old(self).edges@.len(),
            final(self).settings == old(self).settings,
            final(self).spec_root_initialized() == old(self).spec_root_initialized(),
    {
        let mut child = self.edges[best_k].child;
        if child == NO_CHILD {
            if self.nodes.len() >= 0xFFFF_FFFE {
                return None;
            }
            child = self.nodes.len() as u32;
            let prior = self.edges[best_k].prior;
            self.nodes.push(
                Node {
                    visits: 0,
                    total_action_value: 0,
                    mean_action_value: 100_000,
                    heuristic_score: prior,
                    known_result: None,
                    initialized: false,
                    edge_start: 0,
                    edge_count: 0,
                },
            );
            let e = &mut self.edges[best_k];
            e.child = child;
            return Some(child);
        }
        if (child as usize) < self.nodes.len() {
            Some(child)
        } else {
            None
        }
    }

    /// Fold a child's result into this node's statistics, turning a
    /// proven child loss into a proven win here.
    fn backup(&mut self, node: u32, child: u32, res: SearchResult) -> (r: Option<SearchResult>)
        requires
            old(self).wf(),
            0 <= (node as int) < old(self).spec_num_nodes(),
            0 <= (child as int) < old(self).spec_num_nodes(),
            old(self).spec_known(node as int) is None,
        ensures
            final(self).wf(),
            final(self).spec_root_state() == old(self).spec_root_state(),
            final(self).spec_num_nodes() == old(self).spec_num_nodes(),
            final(self).spec_arena_size() == old(self).spec_arena_size(),
            final(self).spec_arena_used() == old(self).spec_arena_used(),
            r is None ==> final(self).spec_visits(node as int) == old(self).spec_visits(
                node as int,
            ) && final(self).spec_known(node as int) == old(self).spec_known(node as int),
            r is Some ==> final(self).spec_visits(node as int) == old(self).spec_visits(
                node as int,
            ) + 1 || (final(self)).spec_known(node as int) is Some || r->Some_0 is Decisive,
            forall|i: int|
                0 <= i < old(self).spec_num_nodes() && old(self).spec_known(i) is Some
                    ==> final(self).spec_known(i) == old(self).spec_known(i),
            forall|i: int|
                0 <= i < old(self).spec_num_nodes() && i != node as int ==> (final(self)).spec_visits(i) == old(self).spec_visits(i) && (final(self)).spec_known(i) == (old(self)).spec_known(i),
            old(self).spec_known(child as int) == Some(GameResultForUs::Loss) ==> final(self).spec_known(node as int) == Some(GameResultForUs::Win) && final(self).spec_visits(
                node as int,
            ) == 1 && final(self).spec_mean(node as int) == SCALE && final(self).spec_tav(
                node as int,
            ) == SCALE as u64 && r == Some(
                SearchResult::Decisive(
                    old(self).spec_visits(node as int),
                    old(self).spec_tav(node as int),
                    GameResultForUs::Win,
                ),
            ),
            final(self).settings == old(self).settings,
            final(self).spec_root_initialized() == old(self).spec_root_initialized(),
    {
        let node_i = node as usize;
        {
            {
                // The child's result seen from this node.
                let res_here = negate_result(res);
                let child_known_now = self.nodes[child as usize].known_result;
                let nd_visits = self.nodes[node_i].visits;
                let nd_tav = self.nodes[node_i].total_action_value;
                if child_known_now == Some(GameResultForUs::Loss) {
                    // The child is lost for the opponent: this node is a
                    // proven win. Undo its statistics upstream.
                    let nd = &mut self.nodes[node_i];
                    nd.known_result = Some(GameResultForUs::Win);
                    nd.visits = 1;
                    nd.total_action_value = SCALE as u64;
                    nd.mean_action_value = SCALE;
                    return Some(
                        SearchResult::Decisive(nd_visits, nd_tav, GameResultForUs::Win),
                    );
                }
                if nd_visits >= VISIT_CAP {
                    return None;
                }
                let mut new_visits: u64 = nd_visits + 1;
                let mut new_tav: u64 = nd_tav;
                match res_here {
                    SearchResult::Value(v) => {
                        let v = if v > SCALE {
                            SCALE
                        } else {
                            v
                        };
                        if new_tav > VISIT_CAP * (SCALE as u64) {
                            return None;
                        }
                        new_tav = new_tav + (v as u64);
                    },
                    SearchResult::Decisive(n_sub, av_sub, result) => {
                        new_visits = saturating_sub(new_visits, n_sub);
                        new_tav = saturating_sub(new_tav, av_sub);
                        match result {
                            GameResultForUs::Win => {
                                if new_tav > VISIT_CAP * (SCALE as u64) {
                                    return None;
                                }
                                new_tav = new_tav + (SCALE as u64);
                            },
                            _ => {},
                        }
                    },
                }
                if new_visits == 0 {
                    new_visits = 1;
                }
                let cap: u64 = clamp_tav(new_tav, if new_visits > VISIT_CAP {
                    VISIT_CAP
                } else {
                    new_visits
                });
                let mean: u32 = (cap / new_visits) as u32;
                proof {
                    let ghost nv = if new_visits > VISIT_CAP {
                        VISIT_CAP
                    } else {
                        new_visits
                    };
                    assert(cap / new_visits <= SCALE as u64) by (nonlinear_arith)
                        requires
                            new_visits >= 1,
                            nv <= new_visits,
                            cap <= nv * (SCALE as u64),
                    ;
                }
                let nd = &mut self.nodes[node_i];
                nd.visits = new_visits;
                nd.total_action_value = cap;
                nd.mean_action_value = mean;
                Some(res_here)
            }
        }
    }

    /// The index of the most promising child edge, if any child is
    /// still worth visiting.
    fn pick_child(&self, start: usize, count: usize, visits: u64) -> (r: (bool, usize))
        requires
            count >= 1,
            start + count <= self.edges@.len(),
        ensures
            r.0 ==> start <= r.1 < start + count,
            (forall|e: int|
                start <= e < start + count ==> self.spec_edge_child_won(e)) ==> !r.0,
    {
        let el = self.edges.len();
        proof {
            assert(start + count <= el);
        }
        let end = start + count;
        let mut best_value: u64 = 0;
        let mut best_k: usize = start;
        let mut found = false;
        let mut e_i: usize = start;
        while e_i < end
            invariant
                start <= e_i <= end,
                end == start + count,
                end <= self.edges@.len(),
                start <= best_k < end,
                (forall|e: int|
                    start <= e < start + count ==> self.spec_edge_child_won(e)) ==> !found,
            decreases end - e_i,
        {
            let child = self.edges[e_i].child;
            let mut child_known: Option<GameResultForUs> = None;
            let mut child_visits: u64 = 0;
            let mut child_mean: u32 = 100_000;
            if child != NO_CHILD && (child as usize) < self.nodes.len() {
                child_known = self.nodes[child as usize].known_result;
                child_visits = self.nodes[child as usize].visits;
                child_mean = self.nodes[child as usize].mean_action_value;
            }
            match child_known {
                Some(GameResultForUs::Loss) => {
                    proof {
                        assert(!self.spec_edge_child_won(e_i as int));
                    }
                    return (true, e_i);
                },
                Some(GameResultForUs::Win) => {},
                _ => {
                    proof {
                        assert(!self.spec_edge_child_won(e_i as int));
                    }
                    let prior = self.edges[e_i].prior;
                    let value = exploration_value(child_mean, prior, visits, child_visits);
                    if !found || value >= best_value {
                        best_value = value;
                        best_k = e_i;
                        found = true;
                    }
                },
            }
            e_i = e_i + 1;
        }
        (found, best_k)
    }

    /// First visit of a node: detect a terminal position or score it
    /// with the static evaluation. Charges one node of arena budget.
    ///
    /// A terminal position proves the node from the side to move's
    /// perspective and scores it exactly; an undecided one stores the
    /// white-centric static evaluation, flipped for Black.
    fn expand(&mut self, node: u32, position: &Position) -> (r: Option<SearchResult>)
        requires
            old(self).wf(),
            0 <= (node as int) < old(self).spec_num_nodes(),
            position@.wf(),
            old(self).spec_visits(node as int) == 0,
            old(self).spec_known(node as int) is None,
        ensures
            final(self).wf(),
            final(self).spec_root_state() == old(self).spec_root_state(),
            final(self).spec_num_nodes() == old(self).spec_num_nodes(),
            final(self).spec_arena_size() == old(self).spec_arena_size(),
            final(self).settings == old(self).settings,
            final(self).spec_root_initialized() == old(self).spec_root_initialized(),
            r is None ==> final(self).spec_visits(node as int) == old(self).spec_visits(
                node as int,
            ) && final(self).spec_known(node as int) == old(self).spec_known(node as int)
                && final(self).spec_arena_used() == old(self).spec_arena_used(),
            r is Some ==> final(self).spec_visits(node as int) == 1 && final(self).spec_arena_used()
                == old(self).spec_arena_used() + NODE_BYTES,
            old(self).spec_arena_used() + NODE_BYTES <= old(self).spec_arena_size() ==> r is Some,
            forall|i: int|
                0 <= i < old(self).spec_num_nodes() && old(self).spec_known(i) is Some
                    ==> final(self).spec_known(i) == old(self).spec_known(i),
            forall|i: int|
                0 <= i < old(self).spec_num_nodes() && i != node as int ==> (final(self)).spec_visits(i) == old(self).spec_visits(i) && (final(self)).spec_known(i) == (old(self)).spec_known(i),
            r is Some && position@.spec_game_result() is Some ==> final(self).spec_known(
                node as int,
            ) == Some(
                spec_result_for_us(position@.spec_game_result()->Some_0, position@.to_move),
            ) && final(self).spec_mean(node as int) == spec_result_for_us(
                position@.spec_game_result()->Some_0,
                position@.to_move,
            ).spec_score() && final(self).spec_tav(node as int) == final(self).spec_mean(
                node as int,
            ) as u64 && r == Some(
                SearchResult::Value(final(self).spec_mean(node as int)),
            ),
            r is Some && position@.spec_game_result() is None ==> final(self).spec_known(
                node as int,
            ) is None && final(self).spec_tav(node as int) == final(self).spec_mean(
                node as int,
            ) as u64 && r == Some(SearchResult::Value(final(self).spec_mean(node as int)))
                && final(self).spec_mean(node as int) as int == old(self).spec_first_visit_value(
                position@,
            ),
            final(self).spec_root_initialized() == old(self).spec_root_initialized(),
    {
        if self.arena_used > self.settings.arena_size || self.settings.arena_size
            - self.arena_used < NODE_BYTES {
            return None;
        }
        self.arena_used = self.arena_used + NODE_BYTES;
        let node_i = node as usize;
        match position.game_result() {
            Some(game_result) => {
                let result_for_us = match (game_result, position.side_to_move()) {
                    (GameResult::Draw, _) => GameResultForUs::Draw,
                    (GameResult::WhiteWin, Color::Black) => GameResultForUs::Loss,
                    (GameResult::BlackWin, Color::White) => GameResultForUs::Loss,
                    (GameResult::WhiteWin, Color::White) => GameResultForUs::Win,
                    (GameResult::BlackWin, Color::Black) => GameResultForUs::Win,
                };
                let score = result_for_us.score();
                let nd = &mut self.nodes[node_i];
                nd.known_result = Some(result_for_us);
                nd.visits = 1;
                nd.mean_action_value = score;
                nd.total_action_value = score as u64;
                Some(SearchResult::Value(score))
            },
            None => {
                let cp = position.static_eval_with_params(&self.settings.value_params);
                let mut static_eval = cp_to_win_percentage(cp);
                match position.side_to_move() {
                    Color::Black => {
                        static_eval = SCALE - static_eval;
                    },
                    Color::White => {},
                }
                let nd = &mut self.nodes[node_i];
                nd.visits = 1;
                nd.total_action_value = static_eval as u64;
                nd.mean_action_value = static_eval;
                Some(SearchResult::Value(static_eval))
            },
        }
    }

    /// Second visit of a node: generate its legal moves with their
    /// priors and add one edge per move. Charges one edge per move.
    fn init_children(&mut self, node: u32, position: &Position, is_root: bool) -> (r: bool)
        requires
            old(self).wf(),
            0 <= (node as int) < old(self).spec_num_nodes(),
            position@.wf(),
            node == 0 ==> position@ == old(self).spec_root_state(),
        ensures
            final(self).wf(),
            final(self).spec_root_state() == old(self).spec_root_state(),
            final(self).spec_num_nodes() == old(self).spec_num_nodes(),
            final(self).spec_arena_size() == old(self).spec_arena_size(),
            final(self).spec_arena_used() >= old(self).spec_arena_used(),
            final(self).settings == old(self).settings,
            forall|i: int|
                0 <= i < old(self).spec_num_nodes() ==> final(self).spec_visits(i) == old(
                    self,
                ).spec_visits(i) && final(self).spec_known(i) == old(self).spec_known(i),
            old(self).spec_root_initialized() ==> final(self).spec_root_initialized(),
            r && node == 0 ==> final(self).spec_root_initialized(),
            position@.spec_game_result() is None && position@.half_moves + 2 < HALF_MOVES_MAX
                && old(self).spec_arena_used() + 100_000 * EDGE_BYTES <= old(
                self,
            ).spec_arena_size() && (is_root ==> old(self).settings.exclude_moves@.len() == 0)
                ==> r,
    {
        let node_i = node as usize;
        if position.game_result().is_some() {
            return false;
        }
        if (position.half_moves_played() as u64) + 2 >= HALF_MOVES_MAX as u64 {
            return false;
        }
        let moves_with_priors = position.generate_moves_with_probabilities(
            &self.settings.policy_params,
        );
        if moves_with_priors.len() > 100_000 {
            return false;
        }
        let cost = (moves_with_priors.len() as u64) * EDGE_BYTES;
        proof {
            assert(cost <= 100_000u64 * EDGE_BYTES) by (nonlinear_arith)
                requires
                    cost == (moves_with_priors@.len() as u64) * EDGE_BYTES,
                    moves_with_priors@.len() <= 100_000,
            ;
        }
        if self.arena_used > self.settings.arena_size || self.settings.arena_size
            - self.arena_used < cost {
            return false;
        }
        self.arena_used = self.arena_used + cost;
        let start = self.edges.len();
        let mut moves_with_priors = moves_with_priors;
        let total_moves = moves_with_priors.len();
        while moves_with_priors.len() > 0
            invariant
                self.nodes@.len() == old(self).nodes@.len(),
                self.nodes@ == old(self).nodes@,
                self.root_position@ == old(self).root_position@,
                self.settings == old(self).settings,
                self.arena_used <= self.settings.arena_size,
                self.arena_used >= old(self).arena_used,
                old(self).wf(),
                position@.wf(),
                node == 0 ==> position@ == old(self).spec_root_state(),
                start == old(self).edges@.len(),
                start <= self.edges@.len(),
                self.edges@.len() + moves_with_priors@.len() <= start + total_moves,
                total_moves <= 100_000,
                forall|k: int| 0 <= k < start ==> self.edges@[k] == old(self).edges@[k],
                forall|k: int|
                    start <= k < self.edges@.len() ==> position@.spec_legal_move(
                        (#[trigger] self.edges@[k]).mv@,
                    ),
                forall|j: int|
                    0 <= j < moves_with_priors@.len() ==> position@.spec_legal_move(
                        (#[trigger] moves_with_priors@[j]).0@,
                    ),
                (is_root ==> old(self).settings.exclude_moves@.len() == 0) ==> self.edges@.len()
                    + moves_with_priors@.len() == start + total_moves,
            decreases moves_with_priors@.len(),
        {
            let (mv, prior) = moves_with_priors.remove(0);
            let skip_this = is_root && self.settings.exclude_moves.len() > 0 && total_moves > 1
                && move_in_list(&mv, &self.settings.exclude_moves);
            if !skip_this {
                self.edges.push(Edge { mv, prior, child: NO_CHILD });
            }
        }
        let count = self.edges.len() - start;
        if count == 0 {
            return false;
        }
        let nd = &mut self.nodes[node_i];
        nd.initialized = true;
        nd.edge_start = start;
        nd.edge_count = count;
        proof {
            assert forall|i: int|
                0 <= i < self.nodes@.len() && (#[trigger] self.nodes@[i]).initialized implies self.nodes@[i].edge_start
                + self.nodes@[i].edge_count <= self.edges@.len() && 1 <= self.nodes@[i].edge_count
                <= 1_000_000 by {
                if i != node_i as int {
                    assert(self.nodes@[i] == old(self).nodes@[i]);
                }
            }
        }
        true
    }

    /// The best root move: a proven win is taken outright, otherwise a
    /// move is drawn with probability proportional to a power of its
    /// visit count (the inverse of the temperature, in tenths).
    ///
    /// Every returned move labels one of the root's edges and so is
    /// legal in the root position, whatever the random draw; its score
    /// is a probability. `None` comes exactly when the root's children
    /// do not exist yet, so the tree stays readable after the arena is
    /// exhausted.
    pub fn best_move(&self, temperature_tenths: u64) -> (r: Option<(Move, u32)>)
        requires
            self.wf(),
        ensures
            r is Some <==> self.spec_root_initialized(),
            r is Some ==> self.spec_root_edge_move((r->Some_0).0@),
            r is Some ==> self.spec_root_state().spec_legal_move((r->Some_0).0@),
            r is Some ==> (r->Some_0).1 <= SCALE,
            self.spec_root_has_proven_win() ==> r is Some && self.spec_root_proven_win_move(
                (r->Some_0).0@,
            ),
    {
        let root = &self.nodes[0];
        if !root.initialized {
            return None;
        }
        let start = root.edge_start;
        let count = root.edge_count;
        if count == 0 || count > 1_000_000 || start > self.edges.len() || self.edges.len() - start
            < count {
            return None;
        }
        let el = self.edges.len();
        proof {
            assert(start + count <= el);
        }
        // A proven win is returned at once.
        let mut k: usize = 0;
        let mut max_visits: u64 = 1;
        while k < count
            invariant
                self.wf(),
                self.spec_root_initialized(),
                start == self.nodes@[0].edge_start,
                count == self.nodes@[0].edge_count,
                k <= count,
                count <= 1_000_000,
                el == self.edges@.len(),
                start + count <= el,
                max_visits >= 1,
                forall|kk: int|
                    start <= kk < start + k as int ==> !self.spec_edge_proven_win(kk),
            decreases count - k,
        {
            let e = &self.edges[start + k];
            if e.child != NO_CHILD && (e.child as usize) < self.nodes.len() {
                let child = &self.nodes[e.child as usize];
                if child.known_result == Some(GameResultForUs::Loss) {
                    let mean = if child.mean_action_value > SCALE {
                        SCALE
                    } else {
                        child.mean_action_value
                    };
                    proof {
                        let ghost w = (start + k) as int;
                        assert(self.nodes@[0].edge_start <= w < self.nodes@[0].edge_start
                            + self.nodes@[0].edge_count && self.edges@[w].mv@ == self.edges@[w].mv@);
                        assert(self.spec_edge_proven_win(w));
                    }
                    return Some((e.mv.duplicate(), SCALE - mean));
                }
                if child.visits > max_visits {
                    max_visits = child.visits;
                }
            }
            proof {
                assert(!self.spec_edge_proven_win((start + k) as int));
            }
            k = k + 1;
        }
        proof {
            if self.spec_root_has_proven_win() {
                let kw = choose|kw: int| self.spec_edge_proven_win(kw);
                assert(false);
            }
        }
        // Sampling weights: (visits / max_visits) ^ (10 / temperature).
        let power: u64 = if temperature_tenths == 0 {
            10
        } else {
            let p = 10 / temperature_tenths;
            if p == 0 {
                1
            } else if p > 32 {
                32
            } else {
                p
            }
        };
        let max_visits = if max_visits > VISIT_CAP {
            VISIT_CAP
        } else {
            max_visits
        };
        let mut weights: Vec<u64> = Vec::new();
        let mut total: u64 = 0;
        let mut k2: usize = 0;
        while k2 < count
            invariant
                self.wf(),
                self.spec_root_initialized(),
                start == self.nodes@[0].edge_start,
                count == self.nodes@[0].edge_count,
                k2 <= count,
                count <= 1_000_000,
                el == self.edges@.len(),
                start + count <= el,
                1 <= max_visits <= VISIT_CAP,
                weights@.len() == k2,
                total <= (k2 as int) * 0x10_0000,
                forall|j: int| 0 <= j < weights@.len() ==> #[trigger] weights@[j] <= 0x10_0000,
                !self.spec_root_has_proven_win(),
            decreases count - k2,
        {
            let e = &self.edges[start + k2];
            let mut visits: u64 = 0;
            if e.child != NO_CHILD && (e.child as usize) < self.nodes.len() {
                visits = self.nodes[e.child as usize].visits;
            }
            if visits > max_visits {
                visits = max_visits;
            }
            proof {
                assert(visits * 0x10_0000 <= VISIT_CAP * 0x10_0000 && (visits as int) * 0x10_0000
                    / (max_visits as int) <= 0x10_0000) by (nonlinear_arith)
                    requires
                        max_visits >= 1,
                        visits <= max_visits,
                        max_visits <= VISIT_CAP,
                ;
            }
            let frac: u64 = visits * 0x10_0000 / max_visits;
            let mut w: u64 = 0x10_0000;
            let mut p: u64 = 0;
            while p < power
                invariant
                    w <= 0x10_0000,
                    frac <= 0x10_0000,
                decreases power - p,
            {
                proof {
                    assert(w * frac <= 0x10_0000u64 * 0x10_0000u64 && w * frac / 0x10_0000
                        <= 0x10_0000) by (nonlinear_arith)
                        requires
                            w <= 0x10_0000,
                            frac <= 0x10_0000,
                    ;
                }
                w = w * frac / 0x10_0000;
                p = p + 1;
            }
            weights.push(w);
            proof {
                assert(((k2 + 1) as int) * 0x10_0000 == (k2 as int) * 0x10_0000 + 0x10_0000)
                    by (nonlinear_arith);
                assert((k2 as int) * 0x10_0000 < 0x7FFF_FFFF_FFFF_FFFF) by (nonlinear_arith)
                    requires
                        0 <= k2 <= 1_000_000,
                ;
            }
            total = total + w;
            k2 = k2 + 1;
        }
        if total == 0 {
            let e = &self.edges[start];
            let prior = if e.prior > SCALE {
                SCALE
            } else {
                e.prior
            };
            proof {
                let ghost w = start as int;
                assert(self.nodes@[0].edge_start <= w < self.nodes@[0].edge_start
                    + self.nodes@[0].edge_count && self.edges@[w].mv@ == self.edges@[w].mv@);
            }
            return Some((e.mv.duplicate(), prior));
        }
        let draw = random_u64() % total;
        match sample_by_weights(&weights, draw) {
            Some(k3) => {
                let e = &self.edges[start + k3];
                let mut score: u32 = 500_000;
                if e.child != NO_CHILD && (e.child as usize) < self.nodes.len() {
                    let mean = self.nodes[e.child as usize].mean_action_value;
                    let mean = if mean > SCALE {
                        SCALE
                    } else {
                        mean
                    };
                    score = SCALE - mean;
                }
                proof {
                    let ghost w = (start + k3) as int;
                    assert(self.nodes@[0].edge_start <= w < self.nodes@[0].edge_start
                        + self.nodes@[0].edge_count && self.edges@[w].mv@ == self.edges@[w].mv@);
                }
                return Some((e.mv.duplicate(), score));
            },
            None => {},
        }
        let e = &self.edges[start];
        proof {
            let ghost w = start as int;
            assert(self.nodes@[0].edge_start <= w < self.nodes@[0].edge_start
                + self.nodes@[0].edge_count && self.edges@[w].mv@ == self.edges@[w].mv@);
        }
        Some((e.mv.duplicate(), 500_000))
    }

    /// The principal variation: from the root, repeatedly follow the
    /// most visited child, preferring any proven win.
    ///
    /// Every yielded move is legal in the position reached by applying
    /// the moves before it to the root position, so walking the line
    /// visits only legal positions.
    pub fn pv(&self) -> (r: Vec<Move>)
        requires
            self.wf(),
        ensures
            spec_line_legal(self.spec_root_state(), r@.map_values(|m: Move| m@)),
            r@.len() > 0 ==> self.spec_root_state().spec_legal_move(r@[0]@),
            self.spec_root_initialized() ==> r@.len() >= 1,
    {
        let mut out: Vec<Move> = Vec::new();
        let mut scratch = self.root_position.duplicate();
        let mut cur: usize = 0;
        let mut steps: usize = 0;
        proof {
            assert(out@.map_values(|m: Move| m@) =~= Seq::<MoveView>::empty());
        }
        while steps < 128
            invariant
                self.wf(),
                cur < self.nodes@.len(),
                self.nodes@.len() >= 1,
                scratch@.wf(),
                out@.len() == 0 ==> cur == 0,
                steps as int <= out@.len(),
                spec_line_legal(self.spec_root_state(), out@.map_values(|m: Move| m@)),
                scratch@ == spec_line_fold(self.spec_root_state(), out@.map_values(|m: Move| m@)),
            ensures
                self.spec_root_initialized() ==> out@.len() >= 1,
                spec_line_legal(self.spec_root_state(), out@.map_values(|m: Move| m@)),
            decreases 128 - steps,
        {
            let nd = &self.nodes[cur];
            if !nd.initialized {
                break ;
            }
            let start = nd.edge_start;
            let count = nd.edge_count;
            if count == 0 || start > self.edges.len() || self.edges.len() - start < count {
                break ;
            }
            let el = self.edges.len();
            proof {
                assert(start + count <= el);
            }
            let mut best_k: usize = start;
            let mut best_key: u64 = 0;
            let mut k: usize = 0;
            while k < count
                invariant
                    k <= count,
                    el == self.edges@.len(),
                    start + count <= el,
                    start <= best_k < start + count,
                decreases count - k,
            {
                let e = &self.edges[start + k];
                let mut key: u64 = 0;
                if e.child != NO_CHILD && (e.child as usize) < self.nodes.len() {
                    let child = &self.nodes[e.child as usize];
                    key = if child.known_result == Some(GameResultForUs::Loss) {
                        u64::MAX
                    } else if child.visits > u64::MAX - 1 {
                        u64::MAX - 1
                    } else {
                        child.visits
                    };
                }
                if key > best_key || k == 0 {
                    best_key = key;
                    best_k = start + k;
                }
                k = k + 1;
            }
            let mv = self.edges[best_k].mv.duplicate();
            if !scratch.is_legal_move(&mv) {
                break ;
            }
            if scratch.half_moves_played() >= HALF_MOVES_MAX - 1 {
                break ;
            }
            let ghost pre_line = out@.map_values(|m: Move| m@);
            proof {
                lemma_line_push(self.spec_root_state(), pre_line, mv@);
            }
            out.push(self.edges[best_k].mv.duplicate());
            let _ = scratch.do_move(mv);
            proof {
                assert(out@.map_values(|m: Move| m@) =~= pre_line.push(
                    self.edges@[best_k as int].mv@,
                ));
            }
            let child = self.edges[best_k].child;
            if child == NO_CHILD || (child as usize) >= self.nodes.len() {
                break ;
            }
            cur = child as usize;
            steps = steps + 1;
        }
        out
    }
}

/// The position reached by playing `line` from `s`.
pub open spec fn spec_line_fold(s: PosState, line: Seq<MoveView>) -> PosState
    decreases line.len(),
{
    if line.len() == 0 {
        s
    } else {
        spec_line_fold(s.spec_do_move(line[0]), line.drop_first())
    }
}

/// Each move of `line` is legal in the position reached by playing the
/// moves before it from `s`: walking the line visits only legal
/// positions.
pub open spec fn spec_line_legal(s: PosState, line: Seq<MoveView>) -> bool
    decreases line.len(),
{
    line.len() == 0 || (s.spec_legal_move(line[0]) && spec_line_legal(
        s.spec_do_move(line[0]),
        line.drop_first(),
    ))
}

/// Extending a legal line by a move legal at its end keeps it legal.
#[verifier::rlimit(100)]
proof fn lemma_line_push(s: PosState, line: Seq<MoveView>, m: MoveView)
    requires
        spec_line_legal(s, line),
        spec_line_fold(s, line).spec_legal_move(m),
    ensures
        spec_line_legal(s, line.push(m)),
        spec_line_fold(s, line.push(m)) == spec_line_fold(s, line).spec_do_move(m),
    decreases line.len(),
{
    let ext = line.push(m);
    if line.len() == 0 {
        assert(ext[0] == m);
        assert(ext.drop_first() =~= Seq::<MoveView>::empty());
        assert(spec_line_fold(s, line) == s);
        let t = s.spec_do_move(m);
        assert(spec_line_legal(t, ext.drop_first()));
        assert(spec_line_fold(t, ext.drop_first()) == t);
        assert(spec_line_legal(s, ext));
        assert(spec_line_fold(s, ext) == t);
    } else {
        assert(ext[0] == line[0]);
        assert(ext.drop_first() =~= line.drop_first().push(m));
        let t = s.spec_do_move(line[0]);
        assert(spec_line_legal(t, line.drop_first()));
        assert(spec_line_fold(s, line) == spec_line_fold(t, line.drop_first()));
        lemma_line_push(t, line.drop_first(), m);
        assert(spec_line_legal(t, ext.drop_first()));
        assert(spec_line_legal(s, ext));
        assert(spec_line_fold(s, ext) == spec_line_fold(t, ext.drop_first()));
    }
}

/// The sum of the first `k` sampling weights.
pub open spec fn spec_weight_prefix(ws: Seq<u64>, k: int) -> int
    decreases k,
{
    if k <= 0 {
        0
    } else {
        spec_weight_prefix(ws, k - 1) + ws[k - 1]
    }
}

/// The index a draw selects from a weight vector: the first index whose
/// prefix sum exceeds the draw, so each index is chosen with
/// probability proportional to its weight. `None` exactly when the draw
/// reaches or passes the total weight.
fn sample_by_weights(weights: &Vec<u64>, draw: u64) -> (r: Option<usize>)
    requires
        weights@.len() <= 1_000_000,
        forall|j: int| 0 <= j < weights@.len() ==> #[trigger] weights@[j] <= 0x10_0000,
    ensures
        r is Some ==> (r->Some_0 as int) < weights@.len() && spec_weight_prefix(
            weights@,
            r->Some_0 as int,
        ) <= draw < spec_weight_prefix(weights@, r->Some_0 as int + 1),
        r is None ==> draw >= spec_weight_prefix(weights@, weights@.len() as int),
{
    let mut acc: u64 = 0;
    let mut k: usize = 0;
    while k < weights.len()
        invariant
            k <= weights@.len(),
            weights@.len() <= 1_000_000,
            forall|j: int| 0 <= j < weights@.len() ==> #[trigger] weights@[j] <= 0x10_0000,
            acc as int == spec_weight_prefix(weights@, k as int),
            acc <= (k as int) * 0x10_0000,
            draw >= acc,
        decreases weights@.len() - k,
    {
        let w = weights[k];
        proof {
            assert(((k + 1) as int) * 0x10_0000 == (k as int) * 0x10_0000 + 0x10_0000)
                by (nonlinear_arith);
            assert((k as int) * 0x10_0000 <= 1_000_000int * 0x10_0000) by (nonlinear_arith)
                requires
                    0 <= k <= 1_000_000,
            ;
        }
        acc = acc + w;
        if draw < acc {
            return Some(k);
        }
        k = k + 1;
    }
    None
}

/// One draw from the process-wide random number generator.
/// Relies on rand::random: it returns a uniformly distributed value; no
/// property of the result is assumed.
#[verifier::external_body]
fn random_u64() -> u64 {
    rand::random::<u64>()
}

/// Whether `mv` occurs in `list`, comparing by value.
fn move_in_list(mv: &Move, list: &Vec<Move>) -> (r: bool)
{
    let mut i: usize = 0;
    while i < list.len()
        decreases list@.len() - i,
    {
        if moves_equal(mv, &list[i]) {
            return true;
        }
        i = i + 1;
    }
    false
}

/// Whether two moves are the same action.
fn moves_equal(a: &Move, b: &Move) -> (r: bool)
    ensures
        r ==> a@ == b@,
{
    match (a, b) {
        (Move::Place(r1, s1), Move::Place(r2, s2)) => *r1 == *r2 && *s1 == *s2,
        (Move::Spread(s1, d1, m1), Move::Spread(s2, d2, m2)) => {
            if *s1 != *s2 || *d1 != *d2 || m1.pieces_to_take != m2.pieces_to_take || m1.drops.len()
                != m2.drops.len() {
                return false;
            }
            let mut i: usize = 0;
            while i < m1.drops.len()
                invariant
                    i <= m1.drops@.len(),
                    m1.drops@.len() == m2.drops@.len(),
                    forall|j: int| 0 <= j < i as int ==> m1.drops@[j] == m2.drops@[j],
                decreases m1.drops@.len() - i,
            {
                if m1.drops[i] != m2.drops[i] {
                    return false;
                }
                i = i + 1;
            }
            proof {
                assert(m1.drops@ =~= m2.drops@);
            }
            true
        },
        _ => false,
    }
}

/// An element-for-element copy of a parameter vector of length `n`.
fn copy_params(p: &Params, n: usize) -> (r: Params)
    requires
        p.wf(n as int),
    ensures
        r.wf(n as int),
        r.values@ == p.values@,
{
    let mut values: Vec<i64> = Vec::new();
    let mut i: usize = 0;
    while i < n
        invariant
            i <= n,
            p.wf(n as int),
            values@.len() == i,
            forall|j: int| 0 <= j < i as int ==> #[trigger] values@[j] == p.values@[j],
        decreases n - i,
    {
        values.push(p.values[i]);
        i = i + 1;
    }
    proof {
        assert(values@ =~= p.values@);
    }
    Params { values }
}

/// Saturating subtraction on 64-bit counters.
fn saturating_sub(a: u64, b: u64) -> (r: u64)
    ensures
        a >= b ==> r == a - b,
        a < b ==> r == 0,
{
    if a >= b {
        a - b
    } else {
        0
    }
}

/// Clamp an action-value sum to at most one full score per visit.
fn clamp_tav(tav: u64, visits: u64) -> (r: u64)
    requires
        visits <= VISIT_CAP,
    ensures
        r <= visits * (SCALE as u64),
        r <= tav,
        r as int == if tav as int > (visits as int) * (SCALE as int) {
            (visits as int) * (SCALE as int)
        } else {
            tav as int
        },
{
    proof {
        assert(visits * (SCALE as u64) <= VISIT_CAP * (SCALE as u64)) by (nonlinear_arith)
            requires
                visits <= VISIT_CAP,
        ;
    }
    let cap: u64 = visits * (SCALE as u64);
    if tav > cap {
        cap
    } else {
        tav
    }
}

/// The PUCT value of a child, given the integer square root of the
/// parent's visit count: the inverted clamped mean plus the clamped
/// prior scaled by that root against the child's clamped visits, the
/// exploration part capped.
pub open spec fn spec_puct(child_mean: u32, prior: u32, sqrt_parent: int, child_visits: u64)
    -> int {
    let cm = spec_clamp_prob(child_mean);
    let cp = spec_clamp_prob(prior);
    let cv = if child_visits > VISIT_CAP {
        VISIT_CAP as int
    } else {
        child_visits as int
    };
    let explore = cp * sqrt_parent / (1 + cv);
    (SCALE - cm) + (if explore > 0x1_0000_0000_0000 {
        0x1_0000_0000_0000
    } else {
        explore
    })
}

/// The PUCT exploration value of a child, in millionths: exactly
/// [`spec_puct`] at the integer square root of the parent's visits.
fn exploration_value(child_mean: u32, prior: u32, parent_visits: u64, child_visits: u64) -> (r:
    u64)
    ensures
        r <= 0x2_0000_0000_0000,
        exists|s: int|
            s * s <= parent_visits < (s + 1) * (s + 1) && r == #[trigger] spec_puct(
                child_mean,
                prior,
                s,
                child_visits,
            ),
{
    let cm = if child_mean > SCALE {
        SCALE
    } else {
        child_mean
    };
    let cp = if prior > SCALE {
        SCALE
    } else {
        prior
    };
    let cv = if child_visits > VISIT_CAP {
        VISIT_CAP
    } else {
        child_visits
    };
    let inv_mean: u64 = (SCALE - cm) as u64;
    let sqrt_parent: u64 = int_sqrt(parent_visits);
    proof {
        assert((cp as u64) * sqrt_parent <= (SCALE as u64) * 0x1_0000_0000) by (nonlinear_arith)
            requires
                cp <= SCALE,
                sqrt_parent <= 0x1_0000_0000,
        ;
    }
    let explore: u64 = (cp as u64) * sqrt_parent / (1 + cv);
    let r = inv_mean + (if explore > 0x1_0000_0000_0000 {
        0x1_0000_0000_0000
    } else {
        explore
    });
    proof {
        assert(r == spec_puct(child_mean, prior, sqrt_parent as int, child_visits));
    }
    r
}

/// The integer square root, rounded down: the greatest `r` whose square
/// does not exceed the argument.
fn int_sqrt(x: u64) -> (r: u64)
    ensures
        r <= 0x1_0000_0000,
        r * r <= x,
        x < (r + 1) * (r + 1),
{
    let mut lo: u64 = 0;
    let mut hi: u64 = 0xFFFF_FFFF;
    proof {
        assert((0xFFFF_FFFFu64 + 1) * (0xFFFF_FFFFu64 + 1) > x) by (nonlinear_arith);
    }
    while lo < hi
        invariant
            lo <= hi,
            hi <= 0xFFFF_FFFF,
            lo * lo <= x,
            x < (hi + 1) * (hi + 1),
        decreases hi - lo,
    {
        let mid = lo + (hi - lo + 1) / 2;
        proof {
            assert(mid * mid <= 0xFFFF_FFFFu64 * 0xFFFF_FFFFu64) by (nonlinear_arith)
                requires
                    mid <= 0xFFFF_FFFF,
            ;
        }
        if mid * mid <= x {
            lo = mid;
        } else {
            hi = mid - 1;
        }
    }
    lo
}

/// The opponent's view of a search result: values flip around one half,
/// proven results swap winner and loser, and the statistics to unwind
/// flip with them.
fn negate_result(res: SearchResult) -> (r: SearchResult)
    ensures
        res is Value ==> r == SearchResult::Value((SCALE - spec_clamp_prob(res->Value_0)) as u32),
        res is Decisive ==> ({
            let n2 = if res->Decisive_0 > VISIT_CAP {
                VISIT_CAP as int
            } else {
                res->Decisive_0 as int
            };
            let cap = if res->Decisive_1 as int > n2 * (SCALE as int) {
                n2 * (SCALE as int)
            } else {
                res->Decisive_1 as int
            };
            r == SearchResult::Decisive(
                res->Decisive_0,
                (n2 * (SCALE as int) - cap) as u64,
                (res->Decisive_2).spec_not(),
            )
        }),
{
    match res {
        SearchResult::Value(v) => SearchResult::Value(SCALE - (if v > SCALE {
            SCALE
        } else {
            v
        })),
        SearchResult::Decisive(n, av, result) => {
            proof {
                assert(n * (SCALE as u64) >= 0) by (nonlinear_arith);
            }
            let cap = clamp_tav(av, if n > VISIT_CAP {
                VISIT_CAP
            } else {
                n
            });
            let n2 = if n > VISIT_CAP {
                VISIT_CAP
            } else {
                n
            };
            proof {
                assert(n2 * (SCALE as u64) <= VISIT_CAP * (SCALE as u64)) by (nonlinear_arith)
                    requires
                        n2 <= VISIT_CAP,
                ;
            }
            SearchResult::Decisive(n, n2 * (SCALE as u64) - cap, result.not())
        },
    }
}

/// Convert a fixed-point evaluation score to a winning probability: the
/// squashing function applied to the clamped score.
pub fn cp_to_win_percentage(cp: i64) -> (r: u32)
    ensures
        r == spec_sigmoid(spec_clamp_cp(cp as int)),
        0 < r < SCALE,
{
    let clamped: i64 = if cp > 1_000_000_000_000 {
        1_000_000_000_000
    } else if cp < -1_000_000_000_000 {
        -1_000_000_000_000
    } else {
        cp
    };
    sigmoid(clamped)
}


/// Run the search for `nodes` iterations (at least two) and return the
/// best move with its winning probability for the side to move, or
/// `None` only if the search could not get started.
///
/// Whatever the random draw, a returned move is legal in the argument
/// position and its score is a probability.
pub fn mcts(position: Position, nodes: u64) -> (r: Option<(Move, u32)>)
    requires
        position@.wf(),
        position@.half_moves + 2 < HALF_MOVES_MAX,
    ensures
        r is Some ==> position@.spec_legal_move((r->Some_0).0@),
        r is Some ==> (r->Some_0).1 <= SCALE,
        position@.spec_game_result() is None ==> r is Some,
{
    let ghost root_state = position@;
    let mut tree = Tree::new_root(position, MctsSetting::default_setting());
    let budget: u64 = if nodes < 2 {
        2
    } else if nodes > 100_000_000 {
        100_000_000
    } else {
        nodes
    };
    let mut i: u64 = 0;
    while i < budget
        invariant_except_break
            i == 0 ==> tree.spec_visits(0) == 0 && tree.spec_known(0) is None
                && !tree.spec_root_initialized() && tree.spec_arena_used() == 0,
            root_state.spec_game_result() is None && i == 1 ==> tree.spec_visits(0) == 1
                && tree.spec_known(0) is None && !tree.spec_root_initialized()
                && tree.spec_arena_used() == NODE_BYTES,
        invariant
            tree.wf(),
            tree.spec_root_state() == root_state,
            budget >= 2,
            root_state.half_moves + 2 < HALF_MOVES_MAX,
            tree.spec_arena_size() == 0x4000_0000,
            tree.spec_excluded_count() == 0,
            root_state.spec_game_result() is None && i >= 2 ==> tree.spec_root_initialized(),
        ensures
            root_state.spec_game_result() is None ==> tree.spec_root_initialized(),
        decreases budget - i,
    {
        let step = tree.select();
        if step.is_none() {
            break ;
        }
        i = i + 1;
    }
    tree.best_move(1)
}

/// Run the search with the given parameter sets and return each root
/// move with its share of the visits, in millionths. Every returned
/// move is legal in the argument position and every share is a
/// probability.
pub fn mcts_training(position: Position, nodes: u64, value_params: Params, policy_params: Params)
    -> (r: Vec<(Move, u32)>)
    requires
        position@.wf(),
        position@.half_moves + 2 < HALF_MOVES_MAX,
        value_params.wf(NUM_VALUE_FEATURES as int),
        policy_params.wf(NUM_POLICY_FEATURES as int),
    ensures
        forall|j: int|
            0 <= j < r@.len() ==> position@.spec_legal_move((#[trigger] r@[j]).0@) && r@[j].1
                <= SCALE,
{
    let ghost root_state = position@;
    let settings = MctsSetting::default_setting().add_value_params(value_params).add_policy_params(
        policy_params,
    );
    let mut tree = Tree::new_root(position, settings);
    let budget: u64 = if nodes > 100_000_000 {
        100_000_000
    } else {
        nodes
    };
    let mut i: u64 = 0;
    while i < budget
        invariant
            tree.wf(),
            tree.spec_root_state() == root_state,
        decreases budget - i,
    {
        let step = tree.select();
        if step.is_none() {
            break ;
        }
        i = i + 1;
    }
    tree.visit_fractions()
}

impl Tree {
    /// Each root move with its share of the child visits, in millionths.
    /// Every returned move labels a root edge, so it is legal in the
    /// root position, and every share is a probability.
    pub fn visit_fractions(&self) -> (r: Vec<(Move, u32)>)
        requires
            self.wf(),
        ensures
            forall|j: int|
                0 <= j < r@.len() ==> self.spec_root_state().spec_legal_move((#[trigger] r@[j]).0@)
                    && r@[j].1 <= SCALE,
            !self.spec_root_initialized() ==> r@.len() == 0,
            self.spec_root_initialized() && self.spec_root_visit_total(self.spec_root_edge_count())
                == 0 ==> r@.len() == 0,
            self.spec_root_initialized() && self.spec_root_visit_total(self.spec_root_edge_count())
                > 0 ==> r@.len() == self.spec_root_edge_count() && (forall|j: int|
                0 <= j < r@.len() ==> (#[trigger] r@[j]).0@ == self.spec_root_edge_mv(j)
                    && r@[j].1 == self.spec_visit_share(j)),
    {
        let mut out: Vec<(Move, u32)> = Vec::new();
        let root = &self.nodes[0];
        if !root.initialized {
            return out;
        }
        let start = root.edge_start;
        let count = root.edge_count;
        if count == 0 || count > 1_000_000 || start > self.edges.len() || self.edges.len() - start
            < count {
            return out;
        }
        let el = self.edges.len();
        proof {
            assert(start + count <= el);
        }
        let mut total: u64 = 0;
        let mut k: usize = 0;
        while k < count
            invariant
                self.spec_root_initialized(),
                start == self.nodes@[0].edge_start,
                count == self.nodes@[0].edge_count,
                k <= count,
                count <= 1_000_000,
                el == self.edges@.len(),
                start + count <= el,
                total <= (k as int) * (VISIT_CAP as int),
                total as int == self.spec_root_visit_total(k as int),
            decreases count - k,
        {
            let e = &self.edges[start + k];
            let mut v: u64 = 0;
            if e.child != NO_CHILD && (e.child as usize) < self.nodes.len() {
                v = self.nodes[e.child as usize].visits;
            }
            proof {
                assert(v == self.spec_root_child_visits(k as int));
            }
            if v > VISIT_CAP {
                v = VISIT_CAP;
            }
            proof {
                assert(((k + 1) as int) * (VISIT_CAP as int) == (k as int) * (VISIT_CAP as int)
                    + (VISIT_CAP as int)) by (nonlinear_arith);
                assert((k as int) * (VISIT_CAP as int) <= 1_000_000 * 0x100_0000_0000)
                    by (nonlinear_arith)
                    requires
                        0 <= k <= 1_000_000,
                ;
            }
            total = total + v;
            k = k + 1;
        }
        if total == 0 {
            return out;
        }
        let mut k2: usize = 0;
        while k2 < count
            invariant
                self.wf(),
                self.spec_root_initialized(),
                start == self.nodes@[0].edge_start,
                count == self.nodes@[0].edge_count,
                k2 <= count,
                el == self.edges@.len(),
                start + count <= el,
                total >= 1,
                total as int == self.spec_root_visit_total(self.spec_root_edge_count()),
                out@.len() == k2,
                forall|j: int|
                    0 <= j < out@.len() ==> self.spec_root_state().spec_legal_move(
                        (#[trigger] out@[j]).0@,
                    ) && out@[j].1 <= SCALE,
                forall|j: int|
                    0 <= j < out@.len() ==> (#[trigger] out@[j]).0@ == self.spec_root_edge_mv(j)
                        && out@[j].1 == self.spec_visit_share(j),
            decreases count - k2,
        {
            let e = &self.edges[start + k2];
            let mut v: u64 = 0;
            if e.child != NO_CHILD && (e.child as usize) < self.nodes.len() {
                v = self.nodes[e.child as usize].visits;
            }
            proof {
                assert(v == self.spec_root_child_visits(k2 as int));
            }
            if v > total {
                v = total;
            }
            if v > VISIT_CAP {
                v = VISIT_CAP;
            }
            proof {
                assert(v * (SCALE as u64) <= VISIT_CAP * (SCALE as u64) && (v as int) * (
                SCALE as int) / (total as int) <= SCALE) by (nonlinear_arith)
                    requires
                        1 <= total,
                        v <= total,
                        v <= VISIT_CAP,
                ;
            }
            let frac: u64 = v * (SCALE as u64) / total;
            proof {
                assert(frac as int == self.spec_visit_share(k2 as int));
            }
            out.push((e.mv.duplicate(), frac as u32));
            k2 = k2 + 1;
        }
        out
    }
}

} // verus!
