//! The lattice of candidate morphemes over an input, and the search for
//! its cheapest path.

use crate::matrix::CostMatrix;
use crate::term::TermId;
use vstd::prelude::*;

verus! {

/// Position of a node inside its lattice.
pub type NodeId = usize;

/// The node before the first byte of the input.
pub const START_ID: NodeId = 0;

/// The node after the last byte of the input.
pub const END_ID: NodeId = 1;

/// The longest input for which the total cost of every path fits `i32`,
/// whatever the nodes and the connections cost.
pub const MAX_LATTICE_LEN: usize = 32766;

/// A candidate morpheme over the bytes from `start` to `end`, with what the
/// search has found for it: the cheapest total cost of reaching it and the
/// node before it on that way.
#[derive(Debug, Clone, Copy, PartialEq, Eq, Structural)]
pub struct Node {
    pub term_id: TermId,
    pub unknown: bool,
    pub start: usize,
    pub end: usize,
    pub context_id: u16,
    pub cost: i16,
    pub total_cost: i32,
    pub prev_node: Option<NodeId>,
}

impl Node {
    /// A node that the search has not reached yet.
    pub fn new(
        term_id: usize,
        unknown: bool,
        start: usize,
        end: usize,
        context_id: u16,
        cost: i16,
    ) -> (node: Self)
        ensures
            node == (Node {
                term_id,
                unknown,
                start,
                end,
                context_id,
                cost,
                total_cost: i32::MAX,
                prev_node: None,
            }),
    {
        Self {
            term_id,
            unknown,
            start,
            end,
            context_id,
            cost,
            total_cost: i32::MAX,
            prev_node: None,
        }
    }

    /// Whether two nodes are the same candidate, whatever the search has
    /// found for them.
    pub open spec fn same_candidate(self, other: Node) -> bool {
        &&& self.term_id == other.term_id
        &&& self.unknown == other.unknown
        &&& self.start == other.start
        &&& self.end == other.end
        &&& self.context_id == other.context_id
        &&& self.cost == other.cost
    }

    /// The node that stands at a boundary of the input: it spans nothing,
    /// costs nothing and has context 0.
    pub open spec fn is_sentinel_at(self, position: int) -> bool {
        &&& self.start == position
        &&& self.end == position
        &&& self.context_id == 0
        &&& self.cost == 0
    }
}

impl Default for Node {
    fn default() -> (node: Self)
        ensures
            node == (Node {
                term_id: 0,
                unknown: false,
                start: 0,
                end: 0,
                context_id: 0,
                cost: 0,
                total_cost: 0,
                prev_node: None,
            }),
    {
        Self {
            term_id: 0,
            unknown: false,
            start: 0,
            end: 0,
            context_id: 0,
            cost: 0,
            total_cost: 0,
            prev_node: None,
        }
    }
}

/// The node before the first byte of an input: it costs nothing to reach.
pub open spec fn start_node() -> Node {
    Node {
        term_id: 0,
        unknown: false,
        start: 0,
        end: 0,
        context_id: 0,
        cost: 0,
        total_cost: 0,
        prev_node: None,
    }
}

/// The node after the last byte of an input of `len` bytes.
pub open spec fn end_node(len: usize) -> Node {
    Node {
        term_id: 0,
        unknown: false,
        start: len,
        end: len,
        context_id: 0,
        cost: 0,
        total_cost: i32::MAX,
        prev_node: None,
    }
}

/// Whether two lists hold the same candidates in the same order.
pub open spec fn same_candidates(a: Seq<Node>, b: Seq<Node>) -> bool {
    &&& a.len() == b.len()
    &&& forall|i: int| 0 <= i < a.len() ==> (#[trigger] a[i]).same_candidate(b[i])
}

/// Whether `next` may directly follow `prev` on a path: it begins where
/// `prev` ends, nothing follows the end node and nothing precedes the
/// start node.
pub open spec fn is_step(nodes: Seq<Node>, prev: NodeId, next: NodeId) -> bool {
    &&& prev < nodes.len()
    &&& next < nodes.len()
    &&& prev != END_ID
    &&& next != START_ID
    &&& nodes[prev as int].end == nodes[next as int].start
}

/// A path that begins at the start node and goes on step by step.
pub open spec fn is_walk(nodes: Seq<Node>, walk: Seq<NodeId>) -> bool {
    &&& walk.len() >= 1
    &&& walk[0] == START_ID
    &&& nodes.len() >= 1
    &&& forall|j: int, k: int|
        0 <= j && k == j + 1 && k < walk.len() ==> is_step(
            nodes,
            #[trigger] walk[j],
            #[trigger] walk[k],
        )
}

/// A walk that arrives at the end node.
pub open spec fn is_route(nodes: Seq<Node>, route: Seq<NodeId>) -> bool {
    &&& is_walk(nodes, route)
    &&& route.len() >= 2
    &&& route[route.len() - 1] == END_ID
}

/// What one step of a path costs: emitting `next`, and connecting the
/// context of `prev` to that of `next`.
pub open spec fn step_cost(nodes: Seq<Node>, matrix: &CostMatrix, prev: NodeId, next: NodeId) -> int {
    nodes[next as int].cost + matrix.cost(
        nodes[prev as int].context_id,
        nodes[next as int].context_id,
    )
}

/// What a walk costs: the sum of its steps.
pub open spec fn walk_cost(nodes: Seq<Node>, matrix: &CostMatrix, walk: Seq<NodeId>) -> int
    decreases walk.len(),
{
    if walk.len() <= 1 {
        0
    } else {
        walk_cost(nodes, matrix, walk.drop_last()) + step_cost(
            nodes,
            matrix,
            walk[walk.len() - 2],
            walk[walk.len() - 1],
        )
    }
}

/// The lists of a table of node ids, position by position.
pub open spec fn id_lists(table: Seq<Vec<NodeId>>) -> Seq<Seq<NodeId>> {
    table.map_values(|list: Vec<NodeId>| list@)
}

/// Candidate morphemes over an input of `len` bytes, between a start node
/// and an end node, indexed by where they begin and where they end.
#[derive(Debug)]
pub struct Lattice {
    nodes: Vec<Node>,
    starts_at: Vec<Vec<NodeId>>,
    ends_at: Vec<Vec<NodeId>>,
}

impl Lattice {
    /// The nodes in the order in which they were added, after the start
    /// node and the end node.
    pub closed spec fn nodes(&self) -> Seq<Node> {
        self.nodes@
    }

    /// For each position, the nodes that begin there.
    pub closed spec fn starts(&self) -> Seq<Seq<NodeId>> {
        id_lists(self.starts_at@)
    }

    /// For each position, the nodes that end there.
    pub closed spec fn ends(&self) -> Seq<Seq<NodeId>> {
        id_lists(self.ends_at@)
    }

    /// Length in bytes of the input that the lattice spans.
    pub open spec fn len(&self) -> int {
        self.starts().len() - 1
    }

    /// Whether some node ends at `position`.
    pub open spec fn reaches(&self, position: int) -> bool {
        0 <= position <= self.len() && self.ends()[position].len() > 0
    }

    /// Whether `node` can be added: it spans at least one byte inside the
    /// input and begins where some node ends.
    pub open spec fn admits(&self, node: Node) -> bool {
        node.start < node.end <= self.len() && self.reaches(node.start as int)
    }

    /// The two tables list each node where it begins and where it ends, and
    /// nothing else; the first two nodes stand at the boundaries of the
    /// input; every other node spans at least one byte and begins where
    /// some node ends.
    pub closed spec fn wf(&self) -> bool {
        let nodes = self.nodes();
        let starts = self.starts();
        let ends = self.ends();
        &&& starts.len() == ends.len()
        &&& starts.len() >= 1
        &&& 2 <= nodes.len() <= usize::MAX
        &&& nodes[0].is_sentinel_at(0)
        &&& nodes[1].is_sentinel_at(self.len())
        &&& forall|id: int|
            2 <= id < nodes.len() ==> (#[trigger] nodes[id]).start < nodes[id].end <= self.len()
        &&& forall|p: int, k: int|
            0 <= p < starts.len() && 0 <= k < starts[p].len() ==> {
                let id = #[trigger] starts[p][k];
                1 <= id < nodes.len() && nodes[id as int].start == p
            }
        &&& forall|p: int, k: int|
            0 <= p < ends.len() && 0 <= k < ends[p].len() ==> {
                let id = #[trigger] ends[p][k];
                id < nodes.len() && id != END_ID && nodes[id as int].end == p
            }
        &&& forall|id: int|
            1 <= id < nodes.len() ==> starts[(#[trigger] nodes[id]).start as int].contains(
                id as usize,
            )
        &&& forall|id: int|
            0 <= id < nodes.len() && id != 1 ==> ends[(#[trigger] nodes[id]).end as int].contains(
                id as usize,
            )
        &&& forall|p: int| 0 <= p < starts.len() ==> (#[trigger] starts[p]).no_duplicates()
        &&& forall|id: int|
            2 <= id < nodes.len() ==> ends[(#[trigger] nodes[id]).start as int].len() > 0
        &&& forall|p: int, j: int, k: int|
            0 <= p < ends.len() && 0 <= j < k < ends[p].len() ==> (#[trigger] ends[p][j]) < (
            #[trigger] ends[p][k])
    }

    /// A lattice over an input of `len` bytes that holds the start node and
    /// the end node only.
    pub fn new(len: usize) -> (lattice: Self)
        requires
            len < usize::MAX,
        ensures
            lattice.wf(),
            lattice.len() == len,
            lattice.nodes() == seq![start_node(), end_node(len)],
            forall|p: int| lattice.reaches(p) <==> p == 0,
    {
        let first = Node::default();
        let last = Node {
            term_id: 0,
            unknown: false,
            start: len,
            end: len,
            context_id: 0,
            cost: 0,
            total_cost: i32::MAX,
            prev_node: None,
        };
        let mut nodes: Vec<Node> = Vec::new();
        nodes.push(first);
        nodes.push(last);
        let mut starts_at: Vec<Vec<NodeId>> = Vec::new();
        let mut ends_at: Vec<Vec<NodeId>> = Vec::new();
        let mut i: usize = 0;
        while i <= len
            invariant
                i <= len + 1,
                len < usize::MAX,
                starts_at.len() == i,
                ends_at.len() == i,
                forall|p: int| 0 <= p < i ==> (#[trigger] starts_at@[p])@.len() == 0,
                forall|p: int| 0 <= p < i ==> (#[trigger] ends_at@[p])@.len() == 0,
            decreases len + 1 - i,
        {
            starts_at.push(Vec::new());
            ends_at.push(Vec::new());
            i += 1;
        }
        ends_at[0].push(START_ID);
        starts_at[len].push(END_ID);
        let lattice = Self { nodes, starts_at, ends_at };
        proof {
            assert(lattice.nodes() =~= seq![start_node(), end_node(len)]);
            let starts = lattice.starts();
            let ends = lattice.ends();
            assert(ends[0] =~= seq![START_ID]);
            assert(starts[len as int] =~= seq![END_ID]);
            assert(forall|p: int| 0 <= p <= len && p != len ==> (#[trigger] starts[p]).len() == 0);
            assert(forall|p: int| 0 < p <= len ==> (#[trigger] ends[p]).len() == 0);
            assert(starts[len as int].contains(END_ID)) by {
                assert(starts[len as int][0] == END_ID);
            }
            assert(ends[0].contains(START_ID)) by {
                assert(ends[0][0] == START_ID);
            }
        }
        lattice
    }

    /// Adds `node` where the lattice admits it, and leaves the lattice
    /// unchanged where it does not: such a node could not lie on any path.
    pub fn add_node(&mut self, node: Node)
        requires
            old(self).wf(),
        ensures
            final(self).wf(),
            final(self).len() == old(self).len(),
            old(self).admits(node) ==> final(self).nodes() == old(self).nodes().push(node),
            !old(self).admits(node) ==> final(self).nodes() == old(self).nodes(),
            forall|p: int|
                final(self).reaches(p) <==> (old(self).reaches(p) || (old(self).admits(node) && p
                    == node.end)),
    {
        if node.start >= node.end || node.end >= self.starts_at.len() {
            return ;
        }
        if self.ends_at[node.start].len() == 0 {
            return ;
        }
        let node_id: NodeId = self.nodes.len();
        let ghost before = *self;
        self.starts_at[node.start].push(node_id);
        self.ends_at[node.end].push(node_id);
        self.nodes.push(node);
        let count: usize = self.nodes.len();
        proof {
            let nodes = self.nodes();
            let starts = self.starts();
            let ends = self.ends();
            let old_starts = before.starts();
            let old_ends = before.ends();
            assert(starts.len() == old_starts.len());
            assert(ends.len() == old_ends.len());
            assert(starts[node.start as int] =~= old_starts[node.start as int].push(node_id));
            assert(ends[node.end as int] =~= old_ends[node.end as int].push(node_id));
            assert(forall|p: int|
                0 <= p < starts.len() && p != node.start ==> #[trigger] starts[p]
                    == old_starts[p]);
            assert(forall|p: int|
                0 <= p < ends.len() && p != node.end ==> #[trigger] ends[p] == old_ends[p]);
            assert forall|p: int, k: int|
                0 <= p < starts.len() && 0 <= k < starts[p].len() implies {
                let id = #[trigger] starts[p][k];
                1 <= id < nodes.len() && nodes[id as int].start == p
            } by {
                if p == node.start && k == old_starts[p].len() {
                } else {
                    assert(starts[p][k] == old_starts[p][k]);
                }
            }
            assert forall|p: int, k: int|
                0 <= p < ends.len() && 0 <= k < ends[p].len() implies {
                let id = #[trigger] ends[p][k];
                id < nodes.len() && id != END_ID && nodes[id as int].end == p
            } by {
                if p == node.end && k == old_ends[p].len() {
                } else {
                    assert(ends[p][k] == old_ends[p][k]);
                }
            }
            assert forall|id: int| 1 <= id < nodes.len() implies starts[(
            #[trigger] nodes[id]).start as int].contains(id as usize) by {
                let p = nodes[id].start as int;
                if id == node_id {
                    assert(starts[p][old_starts[p].len() as int] == node_id);
                } else {
                    assert(before.nodes()[id] == nodes[id]);
                    assert(old_starts[p].contains(id as usize));
                    let k = choose|k: int| 0 <= k < old_starts[p].len() && old_starts[p][k] == id;
                    assert(starts[p][k] == id);
                }
            }
            assert forall|id: int| 0 <= id < nodes.len() && id != 1 implies ends[(
            #[trigger] nodes[id]).end as int].contains(id as usize) by {
                let p = nodes[id].end as int;
                if id == node_id {
                    assert(ends[p][old_ends[p].len() as int] == node_id);
                } else {
                    assert(before.nodes()[id] == nodes[id]);
                    assert(old_ends[p].contains(id as usize));
                    let k = choose|k: int| 0 <= k < old_ends[p].len() && old_ends[p][k] == id;
                    assert(ends[p][k] == id);
                }
            }
            assert forall|p: int| 0 <= p < starts.len() implies (
            #[trigger] starts[p]).no_duplicates() by {
                assert(old_starts[p].no_duplicates());
                if p == node.start {
                    assert forall|a: int, b: int|
                        0 <= a < starts[p].len() && 0 <= b < starts[p].len() && a
                            != b implies starts[p][a] != starts[p][b] by {
                        if a < old_starts[p].len() {
                            assert(old_starts[p][a] < before.nodes().len());
                        }
                        if b < old_starts[p].len() {
                            assert(old_starts[p][b] < before.nodes().len());
                        }
                    }
                }
            }
            assert forall|id: int| 2 <= id < nodes.len() implies ends[(
            #[trigger] nodes[id]).start as int].len() > 0 by {
                if id != node_id {
                    assert(before.nodes()[id] == nodes[id]);
                }
            }
            assert forall|id: int| 2 <= id < nodes.len() implies (#[trigger] nodes[id]).start
                < nodes[id].end <= self.len() by {
                if id != node_id {
                    assert(before.nodes()[id] == nodes[id]);
                }
            }
            assert forall|p: int, j: int, k: int|
                0 <= p < ends.len() && 0 <= j < k < ends[p].len() implies (#[trigger] ends[p][j])
                < (#[trigger] ends[p][k]) by {
                if p == node.end {
                    if k < old_ends[p].len() {
                        assert(ends[p][j] == old_ends[p][j]);
                        assert(ends[p][k] == old_ends[p][k]);
                    } else {
                        assert(ends[p][j] == old_ends[p][j]);
                        assert(old_ends[p][j] < before.nodes().len());
                    }
                } else {
                    assert(ends[p] == old_ends[p]);
                }
            }
        }
    }

    pub fn has_node_ending_at(&self, index: usize) -> (has: bool)
        requires
            self.wf(),
            index <= self.len(),
        ensures
            has == self.reaches(index as int),
    {
        self.ends_at[index].len() > 0
    }

    fn get_node(&self, id: NodeId) -> (node: &Node)
        requires
            id < self.nodes().len(),
        ensures
            *node == self.nodes()[id as int],
    {
        &self.nodes[id]
    }
}

/// `cost` where it lies in the range of the total costs, else the end of
/// that range on its side.
pub open spec fn clamped(cost: int) -> int {
    if cost < i32::MIN {
        i32::MIN as int
    } else if cost > i32::MAX {
        i32::MAX as int
    } else {
        cost
    }
}

/// The total cost that the search finds for `id` when it comes from
/// `prev`: the total cost of `prev` and the cost of the step, held to the
/// range of the total costs.
pub open spec fn arrival(
    arcs: Seq<Node>,
    matrix: &CostMatrix,
    nodes: Seq<Node>,
    prev: NodeId,
    id: NodeId,
) -> int {
    clamped(nodes[prev as int].total_cost + step_cost(arcs, matrix, prev, id))
}

/// Whether the cost of every walk lies in the range of the total costs.
pub open spec fn sums_fit(nodes: Seq<Node>, matrix: &CostMatrix) -> bool {
    forall|walk: Seq<NodeId>| #[trigger]
        is_walk(nodes, walk) ==> i32::MIN <= walk_cost(nodes, matrix, walk) <= i32::MAX
}

/// Whether some walk arrives at `id` at the cost `cost`.
spec fn attained(arcs: Seq<Node>, matrix: &CostMatrix, id: int, cost: int) -> bool {
    exists|walk: Seq<NodeId>| #[trigger]
        is_walk(arcs, walk) && walk[walk.len() - 1] == id && walk_cost(arcs, matrix, walk) == cost
}

/// How far from the start node a node stands: 0 for the start node itself.
pub open spec fn rank(nodes: Seq<Node>, id: int) -> int {
    if id == 0 {
        0
    } else {
        nodes[id].start + 1
    }
}

/// The way to `id` that the search has recorded: the nodes from the start
/// node to `id`, each the recorded predecessor of the next.
pub open spec fn trail(nodes: Seq<Node>, id: int) -> Seq<NodeId>
    decreases rank(nodes, id),
{
    match nodes[id].prev_node {
        Some(p) => if 0 <= rank(nodes, p as int) < rank(nodes, id) {
            trail(nodes, p as int).push(id as usize)
        } else {
            seq![id as usize]
        },
        None => seq![id as usize],
    }
}

/// The nodes of a route without the start node and the end node.
pub open spec fn inner_nodes(nodes: Seq<Node>, route: Seq<NodeId>) -> Seq<Node> {
    Seq::new((route.len() - 2) as nat, |k: int| nodes[route[k + 1] as int])
}

spec fn fresh(node: Node) -> bool {
    node.total_cost == i32::MAX && node.prev_node is None
}

spec fn reached(arcs: Seq<Node>, matrix: &CostMatrix, nodes: Seq<Node>, id: int) -> bool {
    match nodes[id].prev_node {
        Some(p) => {
            &&& is_step(arcs, p, id as usize)
            &&& nodes[id].total_cost == arrival(arcs, matrix, nodes, p, id as usize)
        },
        None => false,
    }
}

spec fn started_before(list: Seq<NodeId>, id: int, a: int) -> bool {
    exists|k: int| 0 <= k < a && k < list.len() && #[trigger] list[k] == id
}

spec fn done(arcs: Seq<Node>, starts: Seq<Seq<NodeId>>, id: int, i: int, a: int) -> bool {
    id == 0 || arcs[id].start < i || (arcs[id].start == i && i < starts.len() && started_before(
        starts[i],
        id,
        a,
    ))
}

/// Whether `prev` stands at position `k` of `list`, and coming from any
/// node before it there would cost `id` more than its recorded total.
pub open spec fn is_first_best(
    arcs: Seq<Node>,
    list: Seq<NodeId>,
    matrix: &CostMatrix,
    nodes: Seq<Node>,
    id: int,
    prev: NodeId,
    k: int,
) -> bool {
    &&& 0 <= k < list.len()
    &&& list[k] == prev
    &&& forall|j: int|
        0 <= j < k ==> nodes[id].total_cost < arrival(
            arcs,
            matrix,
            nodes,
            #[trigger] list[j],
            id as usize,
        )
}

/// Whether the predecessor that is recorded for `id` is the first of the
/// nodes in `list` from which `id` is reached at the least total cost.
pub open spec fn chose_first_best(
    arcs: Seq<Node>,
    list: Seq<NodeId>,
    matrix: &CostMatrix,
    nodes: Seq<Node>,
    id: int,
) -> bool {
    match nodes[id].prev_node {
        Some(prev) => {
            &&& nodes[id].total_cost == arrival(arcs, matrix, nodes, prev, id as usize)
            &&& exists|k: int| #[trigger] is_first_best(arcs, list, matrix, nodes, id, prev, k)
            &&& forall|j: int|
                0 <= j < list.len() ==> nodes[id].total_cost <= arrival(
                    arcs,
                    matrix,
                    nodes,
                    #[trigger] list[j],
                    id as usize,
                )
        },
        None => true,
    }
}

spec fn settled(base: Lattice, matrix: &CostMatrix, nodes: Seq<Node>, id: int) -> bool {
    (reached(base.nodes(), matrix, nodes, id) && chose_first_best(
        base.nodes(),
        base.ends()[base.nodes()[id].start as int],
        matrix,
        nodes,
        id,
    ) && (sums_fit(base.nodes(), matrix) ==> attained(
        base.nodes(),
        matrix,
        id,
        nodes[id].total_cost as int,
    ))) || (id == 1 && base.ends()[base.len()].len() == 0 && fresh(nodes[1]))
}

/// Going one step on from a node that a walk arrives at, at the node's
/// total cost, is a walk again, and where the costs of all walks fit,
/// nothing is cut off the sum.
proof fn lemma_attained_step(
    arcs: Seq<Node>,
    matrix: &CostMatrix,
    nodes: Seq<Node>,
    prev: NodeId,
    id: NodeId,
)
    requires
        sums_fit(arcs, matrix),
        is_step(arcs, prev, id),
        attained(arcs, matrix, prev as int, nodes[prev as int].total_cost as int),
    ensures
        arrival(arcs, matrix, nodes, prev, id) == nodes[prev as int].total_cost + step_cost(
            arcs,
            matrix,
            prev,
            id,
        ),
        attained(arcs, matrix, id as int, arrival(arcs, matrix, nodes, prev, id)),
{
    let head = choose|walk: Seq<NodeId>| #[trigger]
        is_walk(arcs, walk) && walk[walk.len() - 1] == prev && walk_cost(arcs, matrix, walk)
            == nodes[prev as int].total_cost;
    let whole = head.push(id);
    assert(whole.drop_last() =~= head);
    assert forall|j: int, k: int| 0 <= j && k == j + 1 && k < whole.len() implies is_step(
        arcs,
        #[trigger] whole[j],
        #[trigger] whole[k],
    ) by {
        if k < head.len() {
            assert(is_step(arcs, head[j], head[k]));
        }
    }
    assert(is_walk(arcs, whole));
    assert(walk_cost(arcs, matrix, whole) == walk_cost(arcs, matrix, head) + step_cost(
        arcs,
        matrix,
        prev,
        id,
    ));
    assert(whole[whole.len() - 1] == id);
}

/// Where the costs of all walks fit, some walk arrives at each node that
/// the search has dealt with, at the node's total cost.
proof fn lemma_done_attained(
    base: Lattice,
    matrix: &CostMatrix,
    nodes: Seq<Node>,
    i: int,
    a: int,
    id: int,
)
    requires
        base.wf(),
        searched(base, matrix, nodes, i, a),
        sums_fit(base.nodes(), matrix),
        0 <= id < nodes.len(),
        id != 1,
        done(base.nodes(), base.starts(), id, i, a),
    ensures
        attained(base.nodes(), matrix, id, nodes[id].total_cost as int),
{
    let arcs = base.nodes();
    if id == 0 {
        let walk = seq![START_ID];
        assert(is_walk(arcs, walk));
        assert(walk_cost(arcs, matrix, walk) == 0);
        assert(walk[walk.len() - 1] == 0);
    } else {
        assert(settled(base, matrix, nodes, id));
    }
}

/// State of the search when the first `a` nodes that begin at position `i`
/// have been dealt with, and all nodes that begin before `i`.
spec fn searched(base: Lattice, matrix: &CostMatrix, nodes: Seq<Node>, i: int, a: int) -> bool {
    let arcs = base.nodes();
    let starts = base.starts();
    &&& same_candidates(arcs, nodes)
    &&& nodes[0].total_cost == 0
    &&& nodes[0].prev_node is None
    &&& forall|id: int|
        1 <= id < nodes.len() ==> if #[trigger] done(arcs, starts, id, i, a) {
            settled(base, matrix, nodes, id)
        } else {
            fresh(nodes[id])
        }
    &&& sums_fit(arcs, matrix) ==> forall|w: Seq<NodeId>|
        #[trigger] is_walk(arcs, w) && done(arcs, starts, w[w.len() - 1] as int, i, a)
            ==> nodes[w[w.len() - 1] as int].total_cost <= walk_cost(arcs, matrix, w)
}

proof fn lemma_searched_start(base: Lattice, matrix: &CostMatrix, nodes: Seq<Node>)
    requires
        base.wf(),
        same_candidates(base.nodes(), nodes),
        nodes[0].total_cost == 0,
        nodes[0].prev_node is None,
        forall|id: int| 1 <= id < nodes.len() ==> fresh(#[trigger] nodes[id]),
    ensures
        searched(base, matrix, nodes, 0, 0),
{
    let arcs = base.nodes();
    let starts = base.starts();
    assert forall|id: int| 1 <= id < nodes.len() implies if #[trigger] done(
        arcs,
        starts,
        id,
        0,
        0,
    ) {
        settled(base, matrix, nodes, id)
    } else {
        fresh(nodes[id])
    } by {
        assert(!started_before(starts[0], id, 0));
    }
    assert forall|w: Seq<NodeId>|
        #[trigger] is_walk(arcs, w) && done(
            arcs,
            starts,
            w[w.len() - 1] as int,
            0,
            0,
        ) && sums_fit(arcs, matrix) implies nodes[w[w.len() - 1] as int].total_cost <= walk_cost(
        arcs,
        matrix,
        w,
    ) by {
        let last = w[w.len() - 1] as int;
        assert(!started_before(starts[0], last, 0));
        assert(last == 0);
        if w.len() >= 2 {
            assert(is_step(arcs, w[w.len() - 2], w[w.len() - 2 + 1]));
        }
    }
}

proof fn lemma_searched_settle(
    base: Lattice,
    matrix: &CostMatrix,
    before: Seq<Node>,
    after: Seq<Node>,
    i: int,
    a: int,
    c: int,
)
    requires
        base.wf(),
        0 <= i <= base.len(),
        0 <= a < base.starts()[i].len(),
        c == base.starts()[i][a],
        searched(base, matrix, before, i, a),
        same_candidates(base.nodes(), after),
        forall|id: int| 0 <= id < before.len() && id != c ==> after[id] == before[id],
        base.ends()[i].len() == 0 ==> fresh(after[c]),
        base.ends()[i].len() > 0 ==> reached(base.nodes(), matrix, after, c),
        base.ends()[i].len() > 0 ==> exists|k: int| #[trigger]
            is_first_best(
                base.nodes(),
                base.ends()[i],
                matrix,
                after,
                c,
                after[c].prev_node->0,
                k,
            ),
        base.ends()[i].len() > 0 && sums_fit(base.nodes(), matrix) ==> attained(
            base.nodes(),
            matrix,
            c,
            after[c].total_cost as int,
        ),
        forall|k: int|
            0 <= k < base.ends()[i].len() ==> after[c].total_cost <= arrival(
                base.nodes(),
                matrix,
                after,
                #[trigger] base.ends()[i][k],
                c as usize,
            ),
    ensures
        searched(base, matrix, after, i, a + 1),
{
    let arcs = base.nodes();
    let starts = base.starts();
    let ends = base.ends();
    assert(1 <= c < arcs.len() && arcs[c].start == i);
    assert(started_before(starts[i], c, a + 1)) by {
        assert(starts[i][a] == c);
    }
    assert(!started_before(starts[i], c, a)) by {
        if started_before(starts[i], c, a) {
            let k = choose|k: int| 0 <= k < a && k < starts[i].len() && starts[i][k] == c;
            assert(starts[i].no_duplicates());
            assert(starts[i][k] == starts[i][a]);
        }
    }
    assert forall|id: int| 1 <= id < after.len() && id != c implies (done(
        arcs,
        starts,
        id,
        i,
        a + 1,
    ) <==> done(arcs, starts, id, i, a)) by {
        if started_before(starts[i], id, a + 1) {
            let k = choose|k: int| 0 <= k < a + 1 && k < starts[i].len() && starts[i][k] == id;
            assert(k != a);
            assert(started_before(starts[i], id, a));
        }
        if started_before(starts[i], id, a) {
            let k = choose|k: int| 0 <= k < a && k < starts[i].len() && starts[i][k] == id;
            assert(started_before(starts[i], id, a + 1));
        }
    }
    assert forall|id: int| 1 <= id < after.len() implies if #[trigger] done(
        arcs,
        starts,
        id,
        i,
        a + 1,
    ) {
        settled(base, matrix, after, id)
    } else {
        fresh(after[id])
    } by {
        if id == c {
            if ends[i].len() == 0 {
                if c >= 2 {
                    assert(ends[arcs[c].start as int].len() > 0);
                }
                assert(c == 1);
            }
        } else {
            assert(done(arcs, starts, id, i, a + 1) <==> done(arcs, starts, id, i, a));
            if done(arcs, starts, id, i, a) {
                assert(settled(base, matrix, before, id));
                if reached(arcs, matrix, before, id) {
                    let p = before[id].prev_node->0 as int;
                    assert(is_step(arcs, p as usize, id as usize));
                    if p == c {
                        assert(arcs[c].end == arcs[id].start);
                        assert(c >= 2);
                        assert(arcs[c].start < arcs[c].end);
                        assert(!started_before(starts[i], id, a) || arcs[id].start == i);
                    }
                    assert(p != c);
                    assert(after[p] == before[p]);
                    let list = ends[arcs[id].start as int];
                    assert(arcs[id].start <= i);
                    assert forall|j: int| 0 <= j < list.len() implies after[(
                    #[trigger] list[j]) as int] == before[list[j] as int] by {
                        let q = list[j] as int;
                        assert(arcs[q].end == arcs[id].start);
                        if q == c {
                            assert(c >= 2);
                            assert(arcs[c].start < arcs[c].end);
                        }
                    }
                    let k = choose|k: int| #[trigger]
                        is_first_best(arcs, list, matrix, before, id, p as usize, k);
                    assert(is_first_best(arcs, list, matrix, after, id, p as usize, k));
                }
            }
        }
    }
    assert forall|w: Seq<NodeId>|
        #[trigger] is_walk(arcs, w) && done(
            arcs,
            starts,
            w[w.len() - 1] as int,
            i,
            a + 1,
        ) && sums_fit(arcs, matrix) implies after[w[w.len() - 1] as int].total_cost <= walk_cost(
        arcs,
        matrix,
        w,
    ) by {
        let last = w[w.len() - 1] as int;
        if w.len() >= 2 {
            assert(is_step(arcs, w[w.len() - 2], w[w.len() - 2 + 1]));
        }
        if last == c {
            assert(w.len() >= 2);
            let p = w[w.len() - 2] as int;
            let head = w.drop_last();
            assert(is_walk(arcs, head)) by {
                assert forall|j: int, k: int| 0 <= j && k == j + 1 && k < head.len() implies is_step(
                    arcs,
                    #[trigger] head[j],
                    #[trigger] head[k],
                ) by {
                    assert(is_step(arcs, w[j], w[j + 1]));
                }
            }
            assert(head[head.len() - 1] == p);
            assert(arcs[p].end == i);
            assert(p != 1);
            if p >= 2 {
                assert(arcs[p].start < arcs[p].end);
            }
            assert(done(arcs, starts, p, i, a));
            assert(before[p].total_cost <= walk_cost(arcs, matrix, head));
            assert(p != c);
            assert(ends[arcs[p].end as int].contains(p as usize));
            let k = choose|k: int| 0 <= k < ends[i].len() && ends[i][k] == p;
            assert(after[c].total_cost <= arrival(arcs, matrix, after, ends[i][k], c as usize));
            assert(after[p] == before[p]);
            lemma_done_attained(base, matrix, before, i, a, p);
            lemma_attained_step(arcs, matrix, before, p as usize, c as usize);
        } else {
            if last >= 1 {
                assert(is_step(arcs, w[w.len() - 2], w[w.len() - 2 + 1]));
                assert(last < arcs.len());
                assert(done(arcs, starts, last, i, a + 1) <==> done(arcs, starts, last, i, a));
            }
            assert(done(arcs, starts, last, i, a));
        }
    }
}

proof fn lemma_searched_advance(base: Lattice, matrix: &CostMatrix, nodes: Seq<Node>, i: int)
    requires
        base.wf(),
        0 <= i <= base.len(),
        searched(base, matrix, nodes, i, base.starts()[i].len() as int),
    ensures
        searched(base, matrix, nodes, i + 1, 0),
{
    let arcs = base.nodes();
    let starts = base.starts();
    let full = starts[i].len() as int;
    assert forall|id: int| 0 <= id < nodes.len() implies (done(arcs, starts, id, i + 1, 0)
        <==> done(arcs, starts, id, i, full)) by {
        if id >= 1 && arcs[id].start == i {
            assert(starts[arcs[id].start as int].contains(id as usize));
            let k = choose|k: int| 0 <= k < starts[i].len() && starts[i][k] == id;
            assert(started_before(starts[i], id, full));
        }
        if i + 1 < starts.len() {
            assert(!started_before(starts[i + 1], id, 0));
        }
    }
    assert forall|id: int| 1 <= id < nodes.len() implies if #[trigger] done(
        arcs,
        starts,
        id,
        i + 1,
        0,
    ) {
        settled(base, matrix, nodes, id)
    } else {
        fresh(nodes[id])
    } by {
        assert(done(arcs, starts, id, i + 1, 0) <==> done(arcs, starts, id, i, full));
    }
    assert forall|w: Seq<NodeId>|
        #[trigger] is_walk(arcs, w) && done(
            arcs,
            starts,
            w[w.len() - 1] as int,
            i + 1,
            0,
        ) && sums_fit(arcs, matrix) implies nodes[w[w.len() - 1] as int].total_cost <= walk_cost(
        arcs,
        matrix,
        w,
    ) by {
        let last = w[w.len() - 1] as int;
        if w.len() >= 2 {
            assert(is_step(arcs, w[w.len() - 2], w[w.len() - 2 + 1]));
        }
        assert(0 <= last < nodes.len());
        assert(done(arcs, starts, last, i + 1, 0) <==> done(arcs, starts, last, i, full));
    }
}

proof fn lemma_wf_frame(a: Lattice, b: Lattice)
    requires
        a.wf(),
        same_candidates(a.nodes(), b.nodes()),
        a.starts() == b.starts(),
        a.ends() == b.ends(),
    ensures
        b.wf(),
        b.len() == a.len(),
{
    let nodes = b.nodes();
    let starts = b.starts();
    let ends = b.ends();
    assert forall|id: int| 0 <= id < nodes.len() implies (#[trigger] nodes[id]).start
        == a.nodes()[id].start && nodes[id].end == a.nodes()[id].end by {
        assert(a.nodes()[id].same_candidate(nodes[id]));
    }
    assert(a.nodes()[0].same_candidate(nodes[0]));
    assert(a.nodes()[1].same_candidate(nodes[1]));
    assert forall|p: int, k: int| 0 <= p < starts.len() && 0 <= k < starts[p].len() implies {
        let id = #[trigger] starts[p][k];
        1 <= id < nodes.len() && nodes[id as int].start == p
    } by {
        let id = starts[p][k] as int;
        assert(a.nodes()[id].same_candidate(nodes[id]));
    }
    assert forall|p: int, k: int| 0 <= p < ends.len() && 0 <= k < ends[p].len() implies {
        let id = #[trigger] ends[p][k];
        id < nodes.len() && id != END_ID && nodes[id as int].end == p
    } by {
        let id = ends[p][k] as int;
        assert(a.nodes()[id].same_candidate(nodes[id]));
    }
}

/// What the search leaves behind when it has dealt with every node.
spec fn search_complete(base: Lattice, matrix: &CostMatrix, nodes: Seq<Node>) -> bool {
    searched(base, matrix, nodes, base.len() + 1, 0)
}

proof fn lemma_all_done(base: Lattice, id: int)
    requires
        base.wf(),
        0 <= id < base.nodes().len(),
    ensures
        done(base.nodes(), base.starts(), id, base.len() + 1, 0),
{
    let arcs = base.nodes();
    if id >= 2 {
        assert(arcs[id].start < arcs[id].end);
    }
}

proof fn lemma_prev_is_nearer(base: Lattice, matrix: &CostMatrix, nodes: Seq<Node>, id: int)
    requires
        base.wf(),
        search_complete(base, matrix, nodes),
        1 <= id < nodes.len(),
        reached(base.nodes(), matrix, nodes, id),
    ensures
        nodes[id].prev_node is Some,
        ({
            let p = nodes[id].prev_node->0 as int;
            &&& 0 <= p < nodes.len()
            &&& p != 1
            &&& 0 <= rank(nodes, p) < rank(nodes, id)
            &&& (p == 0 || reached(base.nodes(), matrix, nodes, p))
            &&& trail(nodes, id) == trail(nodes, p).push(id as usize)
        }),
{
    let arcs = base.nodes();
    let p = nodes[id].prev_node->0 as int;
    assert(is_step(arcs, p as usize, id as usize));
    assert(arcs[p].same_candidate(nodes[p]));
    assert(arcs[id].same_candidate(nodes[id]));
    if p >= 2 {
        assert(arcs[p].start < arcs[p].end);
    }
    lemma_all_done(base, p);
    if p != 0 {
        assert(settled(base, matrix, nodes, p));
    }
}

proof fn lemma_trail(base: Lattice, matrix: &CostMatrix, nodes: Seq<Node>, id: int)
    requires
        base.wf(),
        search_complete(base, matrix, nodes),
        0 <= id < nodes.len(),
        id == 0 || reached(base.nodes(), matrix, nodes, id),
    ensures
        is_walk(base.nodes(), trail(nodes, id)),
        trail(nodes, id)[trail(nodes, id).len() - 1] == id,
        sums_fit(base.nodes(), matrix) ==> walk_cost(base.nodes(), matrix, trail(nodes, id))
            == nodes[id].total_cost,
    decreases rank(nodes, id),
{
    let arcs = base.nodes();
    if id == 0 {
        assert(trail(nodes, id) =~= seq![0usize]);
    } else {
        lemma_prev_is_nearer(base, matrix, nodes, id);
        let p = nodes[id].prev_node->0 as int;
        lemma_trail(base, matrix, nodes, p);
        if sums_fit(arcs, matrix) {
            lemma_all_done(base, p);
            lemma_done_attained(base, matrix, nodes, base.len() + 1, 0, p);
            lemma_attained_step(arcs, matrix, nodes, p as usize, id as usize);
        }
        let before = trail(nodes, p);
        let whole = before.push(id as usize);
        assert(whole.drop_last() =~= before);
        assert forall|j: int, k: int| 0 <= j && k == j + 1 && k < whole.len() implies is_step(
            arcs,
            #[trigger] whole[j],
            #[trigger] whole[k],
        ) by {
            if j < before.len() - 1 {
                assert(is_step(arcs, before[j], before[j + 1]));
            }
        }
    }
}

/// The sum of a total cost, the cost of a node and the cost of a
/// connection, held to the range of the total costs.
fn total_through(total: i32, cost: i16, connection: i16) -> (sum: i32)
    ensures
        sum == clamped(total + cost + connection),
{
    let wide: i64 = total as i64 + cost as i64 + connection as i64;
    if wide > i32::MAX as i64 {
        i32::MAX
    } else if wide < i32::MIN as i64 {
        i32::MIN
    } else {
        wide as i32
    }
}

impl Lattice {
    /// The way through the lattice that the search has recorded:
    /// the nodes from the start node to the end node, or nothing where the
    /// end node was not reached.
    pub open spec fn route(&self) -> Seq<NodeId> {
        if self.nodes()[1].prev_node is None {
            Seq::empty()
        } else {
            trail(self.nodes(), 1)
        }
    }

    /// What a search leaves in the nodes. The start node costs nothing
    /// and has no predecessor; every added node has one; the predecessor of
    /// a node is the first, among the nodes that end where it begins, from
    /// which it is reached at the least total cost; and where the costs of
    /// all walks fit, the totals are what `is_exact` says.
    pub open spec fn is_searched(&self, matrix: &CostMatrix) -> bool {
        let nodes = self.nodes();
        &&& nodes[0].total_cost == 0
        &&& nodes[0].prev_node is None
        &&& forall|id: int| 2 <= id < nodes.len() ==> (#[trigger] nodes[id]).prev_node is Some
        &&& forall|id: int|
            1 <= id < nodes.len() ==> #[trigger] chose_first_best(
                nodes,
                self.ends()[nodes[id].start as int],
                matrix,
                nodes,
                id,
            )
        &&& sums_fit(nodes, matrix) ==> self.is_exact(matrix)
    }

    /// Whether the total costs are sums from which nothing was cut off:
    /// that of a node is that of its predecessor and the cost of the step
    /// between them, and no walk to the node costs less.
    pub open spec fn is_exact(&self, matrix: &CostMatrix) -> bool {
        let nodes = self.nodes();
        &&& forall|id: int|
            1 <= id < nodes.len() ==> match (#[trigger] nodes[id]).prev_node {
                Some(prev) => nodes[id].total_cost == nodes[prev as int].total_cost + step_cost(
                    nodes,
                    matrix,
                    prev,
                    id as usize,
                ),
                None => true,
            }
        &&& forall|walk: Seq<NodeId>| #[trigger]
            is_walk(nodes, walk) ==> nodes[walk[walk.len() - 1] as int].total_cost <= walk_cost(
                nodes,
                matrix,
                walk,
            )
    }

    /// The nodes that the search has found to lie on the cheapest path,
    /// without the start node and the end node.
    pub open spec fn found_path(&self) -> Seq<Node> {
        if self.route().len() >= 2 {
            inner_nodes(self.nodes(), self.route())
        } else {
            Seq::empty()
        }
    }

    /// Whether `matrix` has a cell for every pair of contexts that occur
    /// in the lattice.
    pub open spec fn covered_by(&self, matrix: &CostMatrix) -> bool {
        forall|id: int|
            0 <= id < self.nodes().len() ==> matrix.covers(
                (#[trigger] self.nodes()[id]).context_id,
                self.nodes()[id].context_id,
            )
    }

    fn reset(&mut self)
        requires
            old(self).wf(),
        ensures
            final(self).wf(),
            final(self).starts() == old(self).starts(),
            final(self).ends() == old(self).ends(),
            same_candidates(old(self).nodes(), final(self).nodes()),
            final(self).nodes()[0].total_cost == 0,
            final(self).nodes()[0].prev_node is None,
            forall|id: int| 1 <= id < final(self).nodes().len() ==> fresh(#[trigger] final(self).nodes()[id]),
    {
        let ghost base = *self;
        let count: usize = self.nodes.len();
        let mut id: usize = 0;
        while id < count
            invariant
                id <= count,
                count == self.nodes@.len(),
                count >= 2,
                self.starts_at == base.starts_at,
                self.ends_at == base.ends_at,
                same_candidates(base.nodes(), self.nodes()),
                id > 0 ==> self.nodes@[0].total_cost == 0 && self.nodes@[0].prev_node is None,
                forall|k: int| 1 <= k < id ==> fresh(#[trigger] self.nodes@[k]),
            decreases count - id,
        {
            let ghost before = self.nodes@;
            self.nodes[id].total_cost = if id == START_ID {
                0
            } else {
                i32::MAX
            };
            self.nodes[id].prev_node = None;
            proof {
                assert forall|k: int| 0 <= k < self.nodes@.len() implies (
                #[trigger] base.nodes()[k]).same_candidate(self.nodes@[k]) by {
                    assert(base.nodes()[k].same_candidate(before[k]));
                }
            }
            id += 1;
        }
        proof {
            lemma_wf_frame(base, *self);
        }
    }

    /// Searches the cheapest path from the start node to the end node and
    /// returns its nodes, without those two. What the nodes held of an
    /// earlier search is overwritten. A node takes the first node that
    /// ends where it begins for its predecessor, and a later one in its
    /// place only where the total cost is less by way of that one. A total
    /// cost that leaves the range of `i32` is held at the end of that
    /// range; where the costs of all walks fit, as `lemma_short_sums_fit`
    /// shows for a lattice over at most `MAX_LATTICE_LEN` bytes, no route
    /// costs less than the one found.
    pub fn find_path(&mut self, matrix: &CostMatrix) -> (path: Vec<Node>)
        requires
            old(self).wf(),
            old(self).covered_by(matrix),
        ensures
            final(self).wf(),
            final(self).len() == old(self).len(),
            final(self).starts() == old(self).starts(),
            final(self).ends() == old(self).ends(),
            same_candidates(old(self).nodes(), final(self).nodes()),
            final(self).is_searched(matrix),
            old(self).reaches(old(self).len()) ==> is_route(old(self).nodes(), final(self).route())
                && path@ == inner_nodes(final(self).nodes(), final(self).route()),
            !old(self).reaches(old(self).len()) ==> path@.len() == 0 && final(self).route().len()
                == 0,
            path@ == final(self).found_path(),
            forall|other: Seq<NodeId>| #[trigger]
                is_route(old(self).nodes(), other) ==> old(self).reaches(old(self).len()),
            sums_fit(old(self).nodes(), matrix) ==> forall|other: Seq<NodeId>| #[trigger]
                is_route(old(self).nodes(), other) ==> walk_cost(
                    old(self).nodes(),
                    matrix,
                    final(self).route(),
                ) <= walk_cost(old(self).nodes(), matrix, other),
    {
        let ghost given = *self;
        self.reset();
        let ghost base = *self;
        let ghost arcs = base.nodes();
        let ghost starts = base.starts();
        let ghost ends = base.ends();
        let positions: usize = self.starts_at.len();
        proof {
            lemma_searched_start(base, matrix, self.nodes());
            assert forall|id: int| 0 <= id < arcs.len() implies matrix.covers(
                (#[trigger] arcs[id]).context_id,
                arcs[id].context_id,
            ) by {
                assert(given.nodes()[id].same_candidate(arcs[id]));
            }
        }
        let mut i: usize = 0;
        while i < positions
            invariant
                i <= positions,
                positions == starts.len(),
                base.wf(),
                arcs == base.nodes(),
                starts == base.starts(),
                ends == base.ends(),
                self.starts_at == base.starts_at,
                self.ends_at == base.ends_at,
                base.covered_by(matrix),
                searched(base, matrix, self.nodes(), i as int, 0),
            decreases positions - i,
        {
            let mut a: usize = 0;
            while a < self.starts_at[i].len()
                invariant
                    i < positions,
                    positions == starts.len(),
                    a <= starts[i as int].len(),
                    base.wf(),
                    arcs == base.nodes(),
                    starts == base.starts(),
                    ends == base.ends(),
                    self.starts_at == base.starts_at,
                    self.ends_at == base.ends_at,
                    base.covered_by(matrix),
                    searched(base, matrix, self.nodes(), i as int, a as int),
                decreases starts[i as int].len() - a,
            {
                let current_id: NodeId = self.starts_at[i][a];
                let ghost before = self.nodes();
                proof {
                    assert(starts[i as int][a as int] == current_id);
                    assert(1 <= current_id < arcs.len() && arcs[current_id as int].start == i);
                    assert(!started_before(starts[i as int], current_id as int, a as int)) by {
                        if started_before(starts[i as int], current_id as int, a as int) {
                            let k = choose|k: int|
                                0 <= k < a && k < starts[i as int].len() && starts[i as int][k]
                                    == current_id;
                            assert(starts[i as int].no_duplicates());
                        }
                    }
                    assert(!done(arcs, starts, current_id as int, i as int, a as int));
                    assert(fresh(before[current_id as int]));
                }
                let mut b: usize = 0;
                let ghost mut at: int = 0;
                while b < self.ends_at[i].len()
                    invariant
                        i < positions,
                        positions == starts.len(),
                        b <= ends[i as int].len(),
                        a < starts[i as int].len(),
                        current_id == starts[i as int][a as int],
                        1 <= current_id < arcs.len(),
                        arcs[current_id as int].start == i,
                        base.wf(),
                        arcs == base.nodes(),
                        starts == base.starts(),
                        ends == base.ends(),
                        self.starts_at == base.starts_at,
                        self.ends_at == base.ends_at,
                        base.covered_by(matrix),
                        searched(base, matrix, before, i as int, a as int),
                        same_candidates(arcs, self.nodes()),
                        forall|id: int|
                            0 <= id < before.len() && id != current_id ==> (
                            #[trigger] self.nodes()[id]) == before[id],
                        b == 0 ==> fresh(self.nodes()[current_id as int]),
                        b > 0 ==> reached(arcs, matrix, self.nodes(), current_id as int),
                        b > 0 && sums_fit(arcs, matrix) ==> attained(
                            arcs,
                            matrix,
                            current_id as int,
                            self.nodes()[current_id as int].total_cost as int,
                        ),
                        b > 0 ==> is_first_best(
                            arcs,
                            ends[i as int],
                            matrix,
                            self.nodes(),
                            current_id as int,
                            self.nodes()[current_id as int].prev_node->0,
                            at,
                        ),
                        forall|k: int|
                            0 <= k < b ==> self.nodes()[current_id as int].total_cost <= arrival(
                                arcs,
                                matrix,
                                self.nodes(),
                                #[trigger] ends[i as int][k],
                                current_id,
                            ),
                    decreases ends[i as int].len() - b,
                {
                    let prev_id: NodeId = self.ends_at[i][b];
                    proof {
                        assert(ends[i as int][b as int] == prev_id);
                        assert(prev_id < arcs.len() && prev_id != END_ID && arcs[prev_id as int].end
                            == i);
                        if prev_id >= 2 {
                            assert(arcs[prev_id as int].start < arcs[prev_id as int].end);
                        }
                        assert(prev_id != current_id);
                        assert(done(arcs, starts, prev_id as int, i as int, a as int));
                        if sums_fit(arcs, matrix) {
                            lemma_done_attained(
                                base,
                                matrix,
                                before,
                                i as int,
                                a as int,
                                prev_id as int,
                            );
                        }
                        assert(self.nodes()[prev_id as int] == before[prev_id as int]);
                        assert(arcs[prev_id as int].same_candidate(self.nodes()[prev_id as int]));
                        assert(arcs[current_id as int].same_candidate(
                            self.nodes()[current_id as int],
                        ));
                        assert(is_step(arcs, prev_id, current_id));
                    }
                    let prev_node: Node = *self.get_node(prev_id);
                    let current: Node = *self.get_node(current_id);
                    let connection_cost: i16 = matrix.get(prev_node.context_id, current.context_id);
                    let total_cost: i32 = total_through(
                        prev_node.total_cost,
                        current.cost,
                        connection_cost,
                    );
                    let ghost earlier = self.nodes();
                    let better: bool = current.prev_node.is_none() || total_cost
                        < current.total_cost;
                    if better {
                        self.nodes[current_id].total_cost = total_cost;
                        self.nodes[current_id].prev_node = Some(prev_id);
                    }
                    proof {
                        let now = self.nodes();
                        assert forall|k: int| 0 <= k < now.len() implies (
                        #[trigger] arcs[k]).same_candidate(now[k]) by {
                            assert(arcs[k].same_candidate(earlier[k]));
                        }
                        assert forall|id: int|
                            0 <= id < before.len() && id != current_id implies (
                        #[trigger] now[id]) == before[id] by {
                            assert(earlier[id] == before[id]);
                        }
                        assert(total_cost == arrival(arcs, matrix, earlier, prev_id, current_id));
                        assert(now[prev_id as int] == earlier[prev_id as int]);
                        if !better {
                            let p = earlier[current_id as int].prev_node->0;
                            assert(is_step(arcs, p, current_id));
                            assert(p != current_id);
                            assert(now[p as int] == earlier[p as int]);
                        } else if sums_fit(arcs, matrix) {
                            lemma_attained_step(arcs, matrix, earlier, prev_id, current_id);
                        }
                        assert(reached(arcs, matrix, now, current_id as int));
                        assert forall|k: int| 0 <= k < ends[i as int].len() implies now[(
                        #[trigger] ends[i as int][k]) as int] == earlier[ends[i as int][k] as int] by {
                            let q = ends[i as int][k] as int;
                            assert(arcs[q].end == i);
                            assert(q != END_ID);
                            if q >= 2 {
                                assert(arcs[q].start < arcs[q].end);
                            }
                        }
                        assert forall|k: int| 0 <= k < b + 1 implies now[current_id as int].total_cost
                            <= arrival(arcs, matrix, now, #[trigger] ends[i as int][k], current_id) by {
                            assert(arrival(arcs, matrix, now, ends[i as int][k], current_id)
                                == arrival(arcs, matrix, earlier, ends[i as int][k], current_id));
                        }
                        if better {
                            at = b as int;
                        }
                        assert forall|j: int| 0 <= j < at implies now[current_id as int].total_cost
                            < arrival(arcs, matrix, now, #[trigger] ends[i as int][j], current_id) by {
                            assert(arrival(arcs, matrix, now, ends[i as int][j], current_id)
                                == arrival(arcs, matrix, earlier, ends[i as int][j], current_id));
                        }
                        assert(is_first_best(
                            arcs,
                            ends[i as int],
                            matrix,
                            now,
                            current_id as int,
                            now[current_id as int].prev_node->0,
                            at,
                        ));
                    }
                    b += 1;
                }
                proof {
                    lemma_searched_settle(
                        base,
                        matrix,
                        before,
                        self.nodes(),
                        i as int,
                        a as int,
                        current_id as int,
                    );
                }
                a += 1;
            }
            proof {
                lemma_searched_advance(base, matrix, self.nodes(), i as int);
            }
            i += 1;
        }
        proof {
            lemma_wf_frame(base, *self);
            let nodes = self.nodes();
            let len = base.len();
            lemma_all_done(base, 1);
            assert(settled(base, matrix, nodes, 1));
            assert(given.reaches(len) == (ends[len].len() > 0));
            if ends[len].len() > 0 {
                lemma_trail(base, matrix, nodes, 1);
            } else {
                if reached(arcs, matrix, nodes, 1) {
                    let p = nodes[1].prev_node->0 as int;
                    assert(is_step(arcs, p as usize, 1));
                    assert(ends[arcs[p].end as int].contains(p as usize));
                }
            }
            assert forall|w: Seq<NodeId>| is_walk(arcs, w) <==> is_walk(given.nodes(), w) by {
                lemma_same_walks(given.nodes(), arcs, matrix, w);
            }
            assert forall|other: Seq<NodeId>| #[trigger]
                is_route(given.nodes(), other) implies given.reaches(len) by {
                lemma_same_walks(given.nodes(), arcs, matrix, other);
                let p = other[other.len() - 2] as int;
                assert(is_step(arcs, other[other.len() - 2], other[other.len() - 2 + 1]));
                assert(ends[arcs[p].end as int].contains(p as usize));
            }
            if sums_fit(given.nodes(), matrix) {
                lemma_sums_fit_frame(given.nodes(), arcs, matrix);
                assert forall|other: Seq<NodeId>| #[trigger]
                    is_route(given.nodes(), other) implies walk_cost(
                    given.nodes(),
                    matrix,
                    self.route(),
                ) <= walk_cost(given.nodes(), matrix, other) by {
                    lemma_same_walks(given.nodes(), arcs, matrix, other);
                    lemma_same_walks(given.nodes(), arcs, matrix, self.route());
                    assert(is_walk(arcs, other));
                    assert(given.reaches(len));
                    assert(nodes[1].total_cost <= walk_cost(arcs, matrix, other));
                }
            }
            if ends[len].len() > 0 {
                lemma_same_walks(given.nodes(), arcs, matrix, self.route());
            }
            lemma_is_searched(base, *self, matrix);
        }
        self.build_path(Ghost(base), matrix)
    }

    fn build_path(&self, Ghost(base): Ghost<Lattice>, matrix: &CostMatrix) -> (path: Vec<Node>)
        requires
            base.wf(),
            self.nodes().len() == base.nodes().len(),
            search_complete(base, matrix, self.nodes()),
        ensures
            self.route().len() == 0 ==> path@.len() == 0,
            self.route().len() > 0 ==> path@ == inner_nodes(self.nodes(), self.route()),
    {
        let ghost nodes = self.nodes();
        let ghost arcs = base.nodes();
        let ghost whole = trail(nodes, 1);
        let mut rev: Vec<Node> = Vec::new();
        let mut next: Option<NodeId> = self.get_node(END_ID).prev_node;
        let ghost mut tail: Seq<NodeId> = seq![END_ID];
        proof {
            lemma_all_done(base, 1);
            assert(settled(base, matrix, nodes, 1));
            if next is Some {
                lemma_prev_is_nearer(base, matrix, nodes, 1);
                assert(trail(nodes, next->0 as int) + tail =~= whole);
            }
        }
        loop
            invariant
                nodes == self.nodes(),
                arcs == base.nodes(),
                base.wf(),
                nodes.len() == arcs.len(),
                search_complete(base, matrix, nodes),
                whole == trail(nodes, 1),
                tail.len() == rev.len() + 1,
                forall|j: int|
                    0 <= j < rev.len() ==> #[trigger] rev@[j] == nodes[tail[tail.len() - 2
                        - j] as int],
                match next {
                    Some(id) => {
                        &&& id < nodes.len()
                        &&& (id == 0 || reached(arcs, matrix, nodes, id as int))
                        &&& trail(nodes, id as int) + tail == whole
                    },
                    None => tail == whole,
                },
            ensures
                tail == whole,
                tail.len() == rev.len() + 1,
                forall|j: int|
                    0 <= j < rev.len() ==> #[trigger] rev@[j] == nodes[tail[tail.len() - 2
                        - j] as int],
            decreases
                    match next {
                        Some(id) => rank(nodes, id as int) + 1,
                        None => 0,
                    },
        {
            match next {
                None => {
                    break ;
                },
                Some(id) => {
                    let node: Node = *self.get_node(id);
                    proof {
                        if id != 0 {
                            lemma_prev_is_nearer(base, matrix, nodes, id as int);
                            let p = nodes[id as int].prev_node->0 as int;
                            assert(trail(nodes, p) + (seq![id] + tail) =~= trail(nodes, id as int)
                                + tail);
                        } else {
                            assert(trail(nodes, 0) =~= seq![0usize]);
                            assert(seq![id] + tail =~= trail(nodes, 0) + tail);
                        }
                        let longer = seq![id] + tail;
                        assert forall|j: int| 0 <= j < rev.len() + 1 implies #[trigger] rev@.push(
                            node,
                        )[j] == nodes[longer[longer.len() - 2 - j] as int] by {
                            if j < rev.len() {
                                assert(longer[longer.len() - 2 - j] == tail[tail.len() - 2 - j]);
                            }
                        }
                        tail = longer;
                    }
                    rev.push(node);
                    next = node.prev_node;
                },
            }
        }
        rev.pop();
        let mut path: Vec<Node> = Vec::new();
        let mut k: usize = rev.len();
        while k > 0
            invariant
                k <= rev.len(),
                path.len() == rev.len() - k,
                forall|j: int|
                    0 <= j < path.len() ==> #[trigger] path@[j] == rev@[rev.len() - 1 - j],
            decreases k,
        {
            k -= 1;
            path.push(rev[k]);
        }
        proof {
            if self.route().len() > 0 {
                assert(path@ =~= inner_nodes(nodes, whole));
            } else {
                assert(whole =~= seq![END_ID]);
            }
        }
        path
    }
}

/// Walks and their costs depend on the candidates only, not on what a
/// search has recorded in the nodes.
pub proof fn lemma_same_walks(a: Seq<Node>, b: Seq<Node>, matrix: &CostMatrix, walk: Seq<NodeId>)
    requires
        same_candidates(a, b),
    ensures
        is_walk(a, walk) == is_walk(b, walk),
        is_route(a, walk) == is_route(b, walk),
        is_walk(a, walk) ==> walk_cost(a, matrix, walk) == walk_cost(b, matrix, walk),
    decreases walk.len(),
{
    assert forall|p: NodeId, n: NodeId| is_step(a, p, n) == is_step(b, p, n) by {
        if p < a.len() && n < a.len() {
            assert(a[p as int].same_candidate(b[p as int]));
            assert(a[n as int].same_candidate(b[n as int]));
        }
    }
    if is_walk(a, walk) && walk.len() >= 2 {
        let head = walk.drop_last();
        assert(is_walk(a, head)) by {
            assert forall|j: int, k: int| 0 <= j && k == j + 1 && k < head.len() implies is_step(
                a,
                #[trigger] head[j],
                #[trigger] head[k],
            ) by {
                assert(is_step(a, walk[j], walk[j + 1]));
            }
        }
        lemma_same_walks(a, b, matrix, head);
        let p = walk[walk.len() - 2];
        let n = walk[walk.len() - 1];
        assert(is_step(a, walk[walk.len() - 2], walk[walk.len() - 2 + 1]));
        assert(a[p as int].same_candidate(b[p as int]));
        assert(a[n as int].same_candidate(b[n as int]));
    }
}

/// A route leaves the start node at offset 0, passes only nodes that were
/// added, each beginning where the one before it ends, and arrives at the
/// end node at the end of the input.
pub proof fn lemma_route_shape(lattice: &Lattice, route: Seq<NodeId>)
    requires
        lattice.wf(),
        is_route(lattice.nodes(), route),
    ensures
        forall|k: int|
            1 <= k < route.len() - 1 ==> 2 <= #[trigger] route[k] < lattice.nodes().len(),
        forall|k: int|
            1 <= k < route.len() - 2 ==> lattice.nodes()[(#[trigger] route[k]) as int].end
                == lattice.nodes()[route[k + 1] as int].start,
        route.len() > 2 ==> lattice.nodes()[route[1] as int].start == 0,
        route.len() > 2 ==> lattice.nodes()[route[route.len() - 2] as int].end == lattice.len(),
        route.len() == 2 ==> lattice.len() == 0,
{
    let nodes = lattice.nodes();
    assert forall|k: int| 1 <= k < route.len() - 1 implies 2 <= #[trigger] route[k]
        < nodes.len() by {
        assert(is_step(nodes, route[k - 1], route[k - 1 + 1]));
        assert(is_step(nodes, route[k], route[k + 1]));
    }
    assert forall|k: int| 1 <= k < route.len() - 2 implies nodes[(#[trigger] route[k]) as int].end
        == nodes[route[k + 1] as int].start by {
        assert(is_step(nodes, route[k], route[k + 1]));
    }
    assert(is_step(nodes, route[0int], route[0int + 1]));
    assert(is_step(nodes, route[route.len() - 2], route[route.len() - 2 + 1]));
}

/// Some node ends at a position exactly where the start node does, or a
/// node that was added.
pub proof fn lemma_reaches(lattice: &Lattice, position: int)
    requires
        lattice.wf(),
    ensures
        lattice.reaches(position) <==> (0 <= position <= lattice.len() && exists|id: int|
            0 <= id < lattice.nodes().len() && id != 1 && (#[trigger] lattice.nodes()[id]).end
                == position),
{
    let nodes = lattice.nodes();
    let ends = lattice.ends();
    if lattice.reaches(position) {
        let id = ends[position][0] as int;
        assert(nodes[id].end == position);
    }
    if 0 <= position <= lattice.len() && exists|id: int|
        0 <= id < nodes.len() && id != 1 && (#[trigger] nodes[id]).end == position {
        let id = choose|id: int|
            0 <= id < nodes.len() && id != 1 && (#[trigger] nodes[id]).end == position;
        assert(ends[nodes[id].end as int].contains(id as usize));
    }
}

/// A lattice begins with the start node and the end node, which stand at
/// the two ends of the input, and every other node spans at least one
/// byte inside the input.
pub proof fn lemma_nodes_in_range(lattice: &Lattice)
    requires
        lattice.wf(),
    ensures
        lattice.len() >= 0,
        2 <= lattice.nodes().len() <= usize::MAX,
        lattice.nodes()[0].is_sentinel_at(0),
        lattice.nodes()[1].is_sentinel_at(lattice.len()),
        forall|id: int|
            2 <= id < lattice.nodes().len() ==> (#[trigger] lattice.nodes()[id]).start
                < lattice.nodes()[id].end <= lattice.len(),
{
}

proof fn lemma_first_best_frame(
    arcs: Seq<Node>,
    nodes: Seq<Node>,
    list: Seq<NodeId>,
    matrix: &CostMatrix,
    id: int,
)
    requires
        same_candidates(arcs, nodes),
        0 <= id < nodes.len(),
        forall|j: int| 0 <= j < list.len() ==> (#[trigger] list[j]) < nodes.len(),
        nodes[id].prev_node matches Some(prev) ==> prev < nodes.len(),
        chose_first_best(arcs, list, matrix, nodes, id),
    ensures
        chose_first_best(nodes, list, matrix, nodes, id),
{
    assert(arcs[id].same_candidate(nodes[id]));
    assert forall|p: NodeId| p < nodes.len() implies #[trigger] step_cost(
        arcs,
        matrix,
        p,
        id as usize,
    ) == step_cost(nodes, matrix, p, id as usize) by {
        assert(arcs[p as int].same_candidate(nodes[p as int]));
    }
    if let Some(prev) = nodes[id].prev_node {
        let k = choose|k: int| #[trigger] is_first_best(arcs, list, matrix, nodes, id, prev, k);
        assert(is_first_best(nodes, list, matrix, nodes, id, prev, k));
    }
}

proof fn lemma_is_searched(base: Lattice, after: Lattice, matrix: &CostMatrix)
    requires
        base.wf(),
        after.wf(),
        after.ends() == base.ends(),
        search_complete(base, matrix, after.nodes()),
    ensures
        after.is_searched(matrix),
{
    let arcs = base.nodes();
    let nodes = after.nodes();
    let ends = base.ends();
    assert forall|id: int| 2 <= id < nodes.len() implies (#[trigger] nodes[id]).prev_node is Some by {
        lemma_all_done(base, id);
        assert(settled(base, matrix, nodes, id));
    }
    assert forall|id: int| 1 <= id < nodes.len() implies #[trigger] chose_first_best(
        nodes,
        after.ends()[nodes[id].start as int],
        matrix,
        nodes,
        id,
    ) by {
        lemma_all_done(base, id);
        assert(settled(base, matrix, nodes, id));
        assert(arcs[id].same_candidate(nodes[id]));
        if nodes[id].prev_node is Some {
            assert(reached(arcs, matrix, nodes, id));
            let list = ends[arcs[id].start as int];
            lemma_first_best_frame(arcs, nodes, list, matrix, id);
        }
    }
    if sums_fit(nodes, matrix) {
        lemma_sums_fit_frame(nodes, arcs, matrix);
        assert forall|id: int| 1 <= id < nodes.len() implies match (#[trigger] nodes[id]).prev_node {
            Some(prev) => nodes[id].total_cost == nodes[prev as int].total_cost + step_cost(
                nodes,
                matrix,
                prev,
                id as usize,
            ),
            None => true,
        } by {
            if let Some(prev) = nodes[id].prev_node {
                lemma_all_done(base, id);
                assert(settled(base, matrix, nodes, id));
                assert(reached(arcs, matrix, nodes, id));
                lemma_prev_is_nearer(base, matrix, nodes, id);
                lemma_all_done(base, prev as int);
                lemma_done_attained(base, matrix, nodes, base.len() + 1, 0, prev as int);
                lemma_attained_step(arcs, matrix, nodes, prev, id as usize);
                assert(arcs[id].same_candidate(nodes[id]));
                assert(arcs[prev as int].same_candidate(nodes[prev as int]));
            }
        }
        assert forall|walk: Seq<NodeId>| #[trigger] is_walk(nodes, walk) implies nodes[walk[walk.len()
            - 1] as int].total_cost <= walk_cost(nodes, matrix, walk) by {
            lemma_same_walks(arcs, nodes, matrix, walk);
            let last = walk[walk.len() - 1] as int;
            if walk.len() >= 2 {
                assert(is_step(arcs, walk[walk.len() - 2], walk[walk.len() - 2 + 1]));
            }
            lemma_all_done(base, last);
            assert(is_walk(arcs, walk));
        }
    }
}

/// Whether the costs of all walks fit depends on the candidates only.
pub proof fn lemma_sums_fit_frame(a: Seq<Node>, b: Seq<Node>, matrix: &CostMatrix)
    requires
        same_candidates(a, b),
    ensures
        sums_fit(a, matrix) == sums_fit(b, matrix),
{
    if sums_fit(a, matrix) {
        assert forall|walk: Seq<NodeId>| #[trigger] is_walk(b, walk) implies i32::MIN <= walk_cost(
            b,
            matrix,
            walk,
        ) <= i32::MAX by {
            lemma_same_walks(a, b, matrix, walk);
            assert(is_walk(a, walk));
        }
    }
    if sums_fit(b, matrix) {
        assert forall|walk: Seq<NodeId>| #[trigger] is_walk(a, walk) implies i32::MIN <= walk_cost(
            a,
            matrix,
            walk,
        ) <= i32::MAX by {
            lemma_same_walks(a, b, matrix, walk);
            assert(is_walk(b, walk));
        }
    }
}

/// The cost of a walk is at most 65,536 for each position up to the one
/// at which its last node begins, in either direction.
pub proof fn lemma_walk_bound(lattice: &Lattice, matrix: &CostMatrix, walk: Seq<NodeId>)
    requires
        lattice.wf(),
        is_walk(lattice.nodes(), walk),
    ensures
        walk[walk.len() - 1] < lattice.nodes().len(),
        0 <= rank(lattice.nodes(), walk[walk.len() - 1] as int) <= lattice.len() + 1,
        -65536 * rank(lattice.nodes(), walk[walk.len() - 1] as int) <= walk_cost(
            lattice.nodes(),
            matrix,
            walk,
        ) <= 65536 * rank(lattice.nodes(), walk[walk.len() - 1] as int),
    decreases walk.len(),
{
    let nodes = lattice.nodes();
    let last = walk[walk.len() - 1] as int;
    if walk.len() >= 2 {
        let head = walk.drop_last();
        assert(is_walk(nodes, head)) by {
            assert forall|j: int, k: int| 0 <= j && k == j + 1 && k < head.len() implies is_step(
                nodes,
                #[trigger] head[j],
                #[trigger] head[k],
            ) by {
                assert(is_step(nodes, walk[j], walk[j + 1]));
            }
        }
        lemma_walk_bound(lattice, matrix, head);
        let prev = walk[walk.len() - 2] as int;
        assert(is_step(nodes, walk[walk.len() - 2], walk[walk.len() - 2 + 1]));
        assert(head[head.len() - 1] == prev);
        if prev >= 2 {
            assert(nodes[prev].start < nodes[prev].end);
        }
        if last >= 2 {
            assert(nodes[last].start < nodes[last].end);
        }
        assert(rank(nodes, prev) + 1 <= rank(nodes, last));
        assert(-65536 <= step_cost(nodes, matrix, prev as usize, last as usize) <= 65536);
    }
}

/// In a lattice over at most `MAX_LATTICE_LEN` bytes the costs of all
/// walks fit.
pub proof fn lemma_short_sums_fit(lattice: &Lattice, matrix: &CostMatrix)
    requires
        lattice.wf(),
        lattice.len() <= MAX_LATTICE_LEN,
    ensures
        sums_fit(lattice.nodes(), matrix),
{
    assert forall|walk: Seq<NodeId>| #[trigger] is_walk(lattice.nodes(), walk) implies i32::MIN
        <= walk_cost(lattice.nodes(), matrix, walk) <= i32::MAX by {
        lemma_walk_bound(lattice, matrix, walk);
    }
}

/// The list of a position holds the nodes that end there, each once, in
/// the order in which they were added.
pub proof fn lemma_ends_in_order(lattice: &Lattice, position: int)
    requires
        lattice.wf(),
        0 <= position <= lattice.len(),
    ensures
        forall|k: int|
            0 <= k < lattice.ends()[position].len() ==> {
                let id = #[trigger] lattice.ends()[position][k];
                id < lattice.nodes().len() && id != END_ID && lattice.nodes()[id as int].end
                    == position
            },
        forall|id: int|
            0 <= id < lattice.nodes().len() && id != 1 && (#[trigger] lattice.nodes()[id]).end
                == position ==> lattice.ends()[position].contains(id as usize),
        forall|j: int, k: int|
            0 <= j < k < lattice.ends()[position].len() ==> (#[trigger] lattice.ends()[position][j])
                < (#[trigger] lattice.ends()[position][k]),
{
    let nodes = lattice.nodes();
    let ends = lattice.ends();
    assert forall|id: int|
        0 <= id < nodes.len() && id != 1 && (#[trigger] nodes[id]).end
            == position implies ends[position].contains(id as usize) by {
        assert(ends[nodes[id].end as int].contains(id as usize));
    }
}

} // verus!
