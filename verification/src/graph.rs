use vstd::prelude::*;
use petgraph::graph::NodeIndex;
use crate::cfg::{BasicBlock, StmtView, stmts_view};

verus! {

/// A control flow graph: basic blocks joined by edges.
pub type Cfg = petgraph::graph::DiGraph<BasicBlock, ()>;

/// petgraph's `Graph`, known to Verus only as an opaque value.
#[verifier::external_type_specification]
#[verifier::external_body]
#[verifier::reject_recursive_types(N)]
#[verifier::reject_recursive_types(E)]
#[verifier::reject_recursive_types(Ty)]
#[verifier::reject_recursive_types(Ix)]
pub struct ExGraph<N, E, Ty, Ix>(petgraph::graph::Graph<N, E, Ty, Ix>);

/// petgraph's marker for directed edges.
#[verifier::external_type_specification]
#[verifier::external_body]
pub struct ExDirected(petgraph::Directed);

/// The blocks of a graph, in the order they were added (a block's position is its index).
pub uninterp spec fn cfg_blocks(g: Cfg) -> Seq<BasicBlock>;

/// The edges of a graph as (source, target) block indices, in the order they were added.
pub uninterp spec fn cfg_edges(g: Cfg) -> Seq<(usize, usize)>;

/// The sources of the edges into `i`, most recently added first.
pub open spec fn predecessors(edges: Seq<(usize, usize)>, i: usize) -> Seq<usize> {
    edges.filter_map(source_if_into(i)).reverse()
}

pub open spec fn source_if_into(i: usize) -> spec_fn((usize, usize)) -> Option<usize> {
    |e: (usize, usize)| if e.1 == i { Some(e.0) } else { None }
}

pub open spec fn target_if_from(i: usize) -> spec_fn((usize, usize)) -> Option<usize> {
    |e: (usize, usize)| if e.0 == i { Some(e.1) } else { None }
}

/// The targets of the edges out of `i`, most recently added first.
pub open spec fn successors(edges: Seq<(usize, usize)>, i: usize) -> Seq<usize> {
    edges.filter_map(target_if_from(i)).reverse()
}

/// Every edge joins blocks of the graph.
pub open spec fn edges_in_range(edges: Seq<(usize, usize)>, n: nat) -> bool {
    forall|k: int| 0 <= k < edges.len() ==> #[trigger] edges[k].0 < n && edges[k].1 < n
}

pub open spec fn cfg_wf(g: Cfg) -> bool {
    &&& edges_in_range(cfg_edges(g), cfg_blocks(g).len())
    &&& cfg_blocks(g).len() < u32::MAX
    &&& cfg_edges(g).len() < u32::MAX
}

/// A graph as its blocks' statements and its edges.
pub struct GraphView {
    pub blocks: Seq<Seq<StmtView>>,
    pub edges: Seq<(usize, usize)>,
}

pub open spec fn block_view(b: BasicBlock) -> Seq<StmtView> {
    stmts_view(b.statements@)
}

pub open spec fn graph_view(g: Cfg) -> GraphView {
    GraphView {
        blocks: cfg_blocks(g).map_values(|b: BasicBlock| block_view(b)),
        edges: cfg_edges(g),
    }
}

/// `Graph::new`: a graph with no blocks and no edges.
#[verifier::external_body]
pub(crate) fn cfg_new() -> (g: Cfg)
    ensures
        cfg_blocks(g) == Seq::<BasicBlock>::empty(),
        cfg_edges(g) == Seq::<(usize, usize)>::empty(),
{
    Cfg::new()
}

/// `Graph::add_node`: appends a block and returns its index. petgraph panics when the graph
/// already holds `u32::MAX` nodes, which `requires` leaves out.
#[verifier::external_body]
pub(crate) fn cfg_add_block(g: &mut Cfg, b: BasicBlock) -> (i: usize)
    requires
        cfg_blocks(*old(g)).len() + 1 < u32::MAX,
    ensures
        i == cfg_blocks(*old(g)).len(),
        cfg_blocks(*final(g)) == cfg_blocks(*old(g)).push(b),
        cfg_edges(*final(g)) == cfg_edges(*old(g)),
{
    g.add_node(b).index()
}

/// `Graph::add_edge`: appends the edge `a -> b`. petgraph panics when an index is not a node,
/// or when the graph already holds `u32::MAX` edges; `requires` leaves both out.
#[verifier::external_body]
pub(crate) fn cfg_add_edge(g: &mut Cfg, a: usize, b: usize)
    requires
        a < cfg_blocks(*old(g)).len(),
        b < cfg_blocks(*old(g)).len(),
        cfg_blocks(*old(g)).len() < u32::MAX,
        cfg_edges(*old(g)).len() + 1 < u32::MAX,
    ensures
        cfg_blocks(*final(g)) == cfg_blocks(*old(g)),
        cfg_edges(*final(g)) == cfg_edges(*old(g)).push((a, b)),
{
    g.add_edge(NodeIndex::new(a), NodeIndex::new(b), ());
}

/// `Graph::node_count`.
#[verifier::external_body]
pub(crate) fn cfg_len(g: &Cfg) -> (n: usize)
    ensures
        n == cfg_blocks(*g).len(),
{
    g.node_count()
}

/// `Index` on a graph: the block at index `i`, which must exist.
#[verifier::external_body]
pub(crate) fn cfg_block(g: &Cfg, i: usize) -> (r: &BasicBlock)
    requires
        i < cfg_blocks(*g).len(),
        cfg_blocks(*g).len() < u32::MAX,
    ensures
        *r == cfg_blocks(*g)[i as int],
{
    &g[NodeIndex::new(i)]
}

/// `IndexMut` on a graph: the block at index `i`, to be changed in place.
#[verifier::external_body]
pub(crate) fn cfg_block_mut(g: &mut Cfg, i: usize) -> (r: &mut BasicBlock)
    requires
        i < cfg_blocks(*old(g)).len(),
        cfg_blocks(*old(g)).len() < u32::MAX,
    ensures
        *r == cfg_blocks(*old(g))[i as int],
        cfg_blocks(*final(g)) == cfg_blocks(*old(g)).update(i as int, *final(r)),
        cfg_edges(*final(g)) == cfg_edges(*old(g)),
{
    &mut g[NodeIndex::new(i)]
}

/// `Graph::neighbors_directed`: the blocks with an edge into `i` (`incoming`) or out of `i`,
/// most recently added edge first, as petgraph's documentation states for directed graphs.
#[verifier::external_body]
pub(crate) fn cfg_neighbors(g: &Cfg, i: usize, incoming: bool) -> (r: Vec<usize>)
    requires
        i < cfg_blocks(*g).len(),
        cfg_blocks(*g).len() < u32::MAX,
    ensures
        r@ == (if incoming {
            predecessors(cfg_edges(*g), i)
        } else {
            successors(cfg_edges(*g), i)
        }),
{
    let dir = if incoming { petgraph::Direction::Incoming } else { petgraph::Direction::Outgoing };
    g.neighbors_directed(NodeIndex::new(i), dir).map(|n| n.index()).collect()
}

} // verus!
