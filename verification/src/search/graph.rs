//! The directed graph that records the live part of a search, kept in a
//! `petgraph::Graph`.
//!
//! Verus does not look inside `petgraph`. This file declares the graph type,
//! gives its contents a mathematical name, and states for each method that
//! the search calls what the method does to those contents. Nothing in this
//! file is proved: the contracts restate the documentation and source of
//! `petgraph`.

use petgraph::graph::{Graph, NodeIndex};
use petgraph::{Directed, Direction};
use vstd::prelude::*;

verus! {

/// `petgraph::graph::Graph`, of which Verus sees nothing but the name.
#[verifier::external_type_specification]
#[verifier::external_body]
#[verifier::reject_recursive_types(N)]
#[verifier::reject_recursive_types(E)]
#[verifier::reject_recursive_types(Ty)]
#[verifier::reject_recursive_types(Ix)]
pub struct ExGraph<N, E, Ty, Ix>(Graph<N, E, Ty, Ix>);

/// `petgraph::Directed`, the marker of a graph whose edges have a direction.
#[verifier::external_type_specification]
#[verifier::external_body]
pub struct ExDirected(Directed);

/// The nodes of a graph in index order. Each entry is the node's weight, the
/// targets of its outgoing edges and the sources of its incoming edges, both
/// in the order in which `neighbors_directed` lists them.
pub uninterp spec fn graph_nodes(g: Graph<usize, (), Directed, usize>) -> Seq<
    (usize, Seq<usize>, Seq<usize>),
>;

/// Which of a node's two edge lists is meant.
#[derive(Clone, Copy, PartialEq, Eq, Debug)]
pub enum EdgeSide {
    Outgoing,
    Incoming,
}

/// The neighbours of node `a` on one side, most recently linked first.
pub open spec fn neighbors(
    nodes: Seq<(usize, Seq<usize>, Seq<usize>)>,
    a: int,
    side: EdgeSide,
) -> Seq<usize> {
    if 0 <= a < nodes.len() {
        match side {
            EdgeSide::Outgoing => nodes[a].1,
            EdgeSide::Incoming => nodes[a].2,
        }
    } else {
        Seq::empty()
    }
}

/// `nodes` after an edge from `a` to `b` was added: `b` is now the first
/// outgoing neighbour of `a`, and `a` the first incoming neighbour of `b`.
pub open spec fn with_edge(nodes: Seq<(usize, Seq<usize>, Seq<usize>)>, a: usize, b: usize) -> Seq<
    (usize, Seq<usize>, Seq<usize>),
> {
    nodes.update(a as int, (nodes[a as int].0, seq![b] + nodes[a as int].1, nodes[a as int].2))
        .update(b as int, (nodes[b as int].0, nodes[b as int].1, seq![a] + nodes[b as int].2))
}

/// `list` without the entries equal to `a`, the others in their order.
pub open spec fn without(list: Seq<usize>, a: usize) -> Seq<usize>
    decreases list.len(),
{
    if list.len() == 0 {
        list
    } else if list[0] == a {
        without(list.drop_first(), a)
    } else {
        seq![list[0]] + without(list.drop_first(), a)
    }
}

/// `nodes` after its last node was removed together with every edge that
/// touched it.
pub open spec fn without_last(nodes: Seq<(usize, Seq<usize>, Seq<usize>)>) -> Seq<
    (usize, Seq<usize>, Seq<usize>),
> {
    let last = (nodes.len() - 1) as usize;
    Seq::new(
        (nodes.len() - 1) as nat,
        |i: int| (nodes[i].0, without(nodes[i].1, last), without(nodes[i].2, last)),
    )
}

/// `Graph::default`: a graph with no node and no edge.
#[verifier::external_body]
pub(crate) fn graph_new() -> (g: Graph<usize, (), Directed, usize>)
    ensures
        graph_nodes(g).len() == 0,
{
    Graph::default()
}

/// `Graph::add_node`: the new node takes the next free index and has no
/// edges; the nodes already there keep their indices and edges. With `usize`
/// indices the call has no capacity limit of its own.
#[verifier::external_body]
pub(crate) fn graph_add_node(g: &mut Graph<usize, (), Directed, usize>, weight: usize) -> (a: usize)
    ensures
        a == graph_nodes(*old(g)).len(),
        graph_nodes(*final(g)) == graph_nodes(*old(g)).push((weight, Seq::empty(), Seq::empty())),
{
    g.add_node(weight).index()
}

/// `Graph::add_edge` between two distinct nodes of the graph: the edge is
/// put at the head of the source's outgoing list and of the target's
/// incoming list. The call panics on an index that is not in the graph,
/// which the precondition leaves out.
#[verifier::external_body]
pub(crate) fn graph_add_edge(g: &mut Graph<usize, (), Directed, usize>, a: usize, b: usize)
    requires
        a < graph_nodes(*old(g)).len(),
        b < graph_nodes(*old(g)).len(),
        a != b,
    ensures
        graph_nodes(*final(g)) == with_edge(graph_nodes(*old(g)), a, b),
{
    g.add_edge(NodeIndex::new(a), NodeIndex::new(b), ());
}

/// `Graph::node_weight`: the weight of node `a`, or nothing where the graph
/// has no such node.
#[verifier::external_body]
pub(crate) fn graph_node_weight(g: &Graph<usize, (), Directed, usize>, a: usize) -> (w: Option<usize>)
    ensures
        w == if a < graph_nodes(*g).len() {
            Some(graph_nodes(*g)[a as int].0)
        } else {
            None
        },
{
    g.node_weight(NodeIndex::new(a)).copied()
}

/// `Graph::neighbors_directed`, of which only the first item is taken: the
/// neighbour across the most recently added edge of `a` on the given side,
/// or nothing where `a` has no such edge or is no node of the graph.
#[verifier::external_body]
pub(crate) fn graph_first_neighbor(
    g: &Graph<usize, (), Directed, usize>,
    a: usize,
    side: EdgeSide,
) -> (first: Option<usize>)
    ensures
        first == if neighbors(graph_nodes(*g), a as int, side).len() > 0 {
            Some(neighbors(graph_nodes(*g), a as int, side)[0])
        } else {
            None
        },
{
    let dir = match side {
        EdgeSide::Outgoing => Direction::Outgoing,
        EdgeSide::Incoming => Direction::Incoming,
    };
    g.neighbors_directed(NodeIndex::new(a), dir).next().map(|n| n.index())
}

/// `Graph::remove_node` on the node with the highest index: no other node
/// changes its index, the removed node's weight is returned, and every edge
/// from or to it leaves the lists of the remaining nodes. (On any other node
/// the call would move the last node into the gap; the precondition leaves
/// that out.)
#[verifier::external_body]
pub(crate) fn graph_remove_last(g: &mut Graph<usize, (), Directed, usize>, a: usize) -> (w: Option<
    usize,
>)
    requires
        a + 1 == graph_nodes(*old(g)).len(),
    ensures
        w == Some(graph_nodes(*old(g))[a as int].0),
        graph_nodes(*final(g)) == without_last(graph_nodes(*old(g))),
{
    g.remove_node(NodeIndex::new(a))
}

} // verus!
