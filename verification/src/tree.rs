//! The document tree: an arena of nodes addressed by index, with an edge
//! from each parent to each of its children.

use crate::graph::{
    graph_add_edge, graph_add_node, graph_edges, graph_first_source, graph_new, graph_node,
    graph_node_count, graph_nodes, graph_targets_newest_first, newest_source, targets,
    GRAPH_LIMIT,
};
use crate::node::{LayoutNode, NodeModel};
use vstd::prelude::*;

verus! {

/// A tree as plain values: the nodes by index, and the parent-to-child
/// edges in the order in which the children were attached.
pub struct TreeModel {
    pub nodes: Seq<NodeModel>,
    pub edges: Seq<(int, int)>,
}

impl TreeModel {
    /// The tree without nodes.
    pub open spec fn empty() -> TreeModel {
        TreeModel { nodes: Seq::empty(), edges: Seq::empty() }
    }

    /// Every edge leads from a node to a node added later, and the children
    /// were attached in the order of their indices. So a node has at most
    /// one parent and nothing is its own ancestor.
    pub open spec fn wf(self) -> bool {
        &&& forall|k: int|
            0 <= k < self.edges.len() ==> 0 <= (#[trigger] self.edges[k]).0 < self.edges[k].1
                < self.nodes.len()
        &&& forall|j: int, k: int|
            0 <= j < k < self.edges.len() ==> (#[trigger] self.edges[j]).1 < (
            #[trigger] self.edges[k]).1
    }

    /// The parent of `node`, if it has one.
    pub open spec fn parent(self, node: int) -> Option<int> {
        newest_source(self.edges, node)
    }

    /// The children of `node` in document order.
    pub open spec fn children(self, node: int) -> Seq<int> {
        targets(self.edges, node)
    }

    /// The tree after a parentless node has been added.
    pub open spec fn with_node(self, node: NodeModel) -> TreeModel {
        TreeModel { nodes: self.nodes.push(node), edges: self.edges }
    }

    /// The tree after `child` has been added as the last child of `parent`.
    pub open spec fn with_child(self, parent: int, child: NodeModel) -> TreeModel {
        TreeModel {
            nodes: self.nodes.push(child),
            edges: self.edges.push((parent, self.nodes.len() as int)),
        }
    }
}

/// The index that an optional position stands for.
pub open spec fn as_index(position: Option<usize>) -> Option<int> {
    match position {
        Some(i) => Some(i as int),
        None => None,
    }
}

/// A well-formed tree without its last edge is well formed.
pub proof fn lemma_without_last_edge_wf(t: TreeModel)
    requires
        t.wf(),
        t.edges.len() > 0,
    ensures
        (TreeModel { nodes: t.nodes, edges: t.edges.drop_last() }).wf(),
{
    let rest = TreeModel { nodes: t.nodes, edges: t.edges.drop_last() };
    assert forall|k: int| 0 <= k < rest.edges.len() implies 0 <= (#[trigger] rest.edges[k]).0
        < rest.edges[k].1 < rest.nodes.len() by {
        assert(rest.edges[k] == t.edges[k]);
    }
    assert forall|j: int, k: int| 0 <= j < k < rest.edges.len() implies (
    #[trigger] rest.edges[j]).1 < (#[trigger] rest.edges[k]).1 by {
        assert(rest.edges[j] == t.edges[j]);
    }
}

/// An index outside a well-formed tree has neither parent nor children.
pub proof fn lemma_nothing_outside(t: TreeModel, node: int)
    requires
        t.wf(),
        node >= t.nodes.len(),
    ensures
        t.parent(node) is None,
        t.children(node) == Seq::<int>::empty(),
    decreases t.edges.len(),
{
    lemma_newest_source_is_edge(t.edges, node);
    if t.edges.len() > 0 {
        let rest = TreeModel { nodes: t.nodes, edges: t.edges.drop_last() };
        lemma_without_last_edge_wf(t);
        lemma_nothing_outside(rest, node);
    }
    if let Some(p) = t.parent(node) {
        let k = choose|k: int| 0 <= k < t.edges.len() && t.edges[k] == (p, node);
        assert(t.edges[k].1 < t.nodes.len());
    }
}

/// In a well-formed tree a parent's index lies below its child's.
pub proof fn lemma_parent_below(t: TreeModel, node: int)
    requires
        t.wf(),
    ensures
        match t.parent(node) {
            Some(p) => 0 <= p < node < t.nodes.len(),
            None => true,
        },
{
    lemma_newest_source_is_edge(t.edges, node);
}

/// Where `newest_source` finds a source, the edge is in the sequence.
pub proof fn lemma_newest_source_is_edge(edges: Seq<(int, int)>, node: int)
    ensures
        match newest_source(edges, node) {
            Some(p) => exists|k: int| 0 <= k < edges.len() && edges[k] == (p, node),
            None => forall|k: int| 0 <= k < edges.len() ==> (#[trigger] edges[k]).1 != node,
        },
    decreases edges.len(),
{
    if edges.len() > 0 {
        let k = edges.len() - 1;
        if edges.last().1 == node {
            assert(edges[k] == (edges.last().0, node));
        } else {
            let rest = edges.drop_last();
            lemma_newest_source_is_edge(rest, node);
            match newest_source(rest, node) {
                Some(p) => {
                    let j = choose|j: int| 0 <= j < rest.len() && rest[j] == (p, node);
                    assert(edges[j] == (p, node));
                },
                None => {
                    assert forall|j: int| 0 <= j < edges.len() implies (#[trigger] edges[j]).1
                        != node by {
                        if j < k {
                            assert(rest[j] == edges[j]);
                        }
                    }
                },
            }
        }
    }
}

/// Every child of a node is an edge's target: it lies above its parent and
/// inside the tree, and the children ascend.
pub proof fn lemma_children_above(t: TreeModel, node: int)
    requires
        t.wf(),
    ensures
        forall|i: int|
            0 <= i < t.children(node).len() ==> node < (#[trigger] t.children(node)[i])
                < t.nodes.len(),
        forall|i: int|
            0 <= i < t.children(node).len() ==> t.parent(#[trigger] t.children(node)[i]) == Some(
                node,
            ),
        forall|i: int, j: int|
            0 <= i < j < t.children(node).len() ==> t.children(node)[i] < t.children(node)[j],
    decreases t.edges.len(),
{
    if t.edges.len() > 0 {
        let last = t.edges.last();
        let rest = TreeModel { nodes: t.nodes, edges: t.edges.drop_last() };
        lemma_without_last_edge_wf(t);
        lemma_children_above(rest, node);
        let n = t.edges.len() - 1;
        assert(t.edges[n] == last);
        let old_children = rest.children(node);
        assert forall|i: int| 0 <= i < old_children.len() implies old_children[i] < last.1
            && t.parent(#[trigger] old_children[i]) == Some(node) by {
            let c = old_children[i];
            assert(rest.parent(c) == Some(node));
            lemma_newest_source_is_edge(rest.edges, c);
            let k = choose|k: int| 0 <= k < rest.edges.len() && rest.edges[k] == (node, c);
            assert(t.edges[k] == (node, c));
        }
        if last.0 == node {
            assert(t.children(node) == old_children.push(last.1));
        } else {
            assert(t.children(node) == old_children);
        }
    }
}

/// Every node that has `node` as its parent is among the children of
/// `node`.
pub proof fn lemma_children_complete(t: TreeModel, node: int, child: int)
    requires
        t.wf(),
        t.parent(child) == Some(node),
    ensures
        t.children(node).contains(child),
    decreases t.edges.len(),
{
    if t.edges.len() > 0 {
        let last = t.edges.last();
        let rest = TreeModel { nodes: t.nodes, edges: t.edges.drop_last() };
        let now = t.children(node);
        if last.1 == child {
            assert(now[now.len() - 1] == child);
        } else {
            lemma_without_last_edge_wf(t);
            lemma_children_complete(rest, node, child);
            let before = rest.children(node);
            let k = choose|k: int| 0 <= k < before.len() && before[k] == child;
            assert(now[k] == child);
        }
    }
}

/// The document tree.
pub struct Tree {
    graph: petgraph::Graph<LayoutNode, i32>,
}

impl View for Tree {
    type V = TreeModel;

    closed spec fn view(&self) -> TreeModel {
        TreeModel {
            nodes: graph_nodes(self.graph).map_values(|n: LayoutNode| n@),
            edges: graph_edges(self.graph),
        }
    }
}

impl Tree {
    /// The largest number of nodes that a tree can hold.
    pub const MAX_NODES: usize = GRAPH_LIMIT;

    /// Whether the tree is well formed; every tree that this module hands
    /// out is.
    pub open spec fn wf(&self) -> bool {
        self@.wf()
    }

    /// The node stored at `index`.
    pub closed spec fn node(&self, index: int) -> LayoutNode {
        graph_nodes(self.graph)[index]
    }

    /// An empty tree.
    pub fn new() -> (tree: Tree)
        ensures
            tree.wf(),
            tree@ == TreeModel::empty(),
    {
        let tree = Tree { graph: graph_new() };
        assert(tree@.nodes =~= Seq::<NodeModel>::empty());
        tree
    }

    /// The number of nodes.
    pub fn len(&self) -> (n: usize)
        ensures
            n == self@.nodes.len(),
    {
        graph_node_count(&self.graph)
    }

    /// Adds `node` without a parent and returns its index.
    pub fn add_node(&mut self, node: LayoutNode) -> (index: usize)
        requires
            old(self).wf(),
            old(self)@.nodes.len() < Tree::MAX_NODES,
        ensures
            final(self).wf(),
            index == old(self)@.nodes.len(),
            final(self)@ == old(self)@.with_node(node@),
    {
        let index = graph_add_node(&mut self.graph, node);
        proof {
            assert(self@.nodes =~= old(self)@.nodes.push(node@));
            lemma_with_node_wf(old(self)@, node@);
        }
        index
    }

    /// Adds `child` as the last child of `parent` and returns the child's
    /// index.
    pub fn add_child(&mut self, parent: usize, child: LayoutNode) -> (index: usize)
        requires
            old(self).wf(),
            parent < old(self)@.nodes.len(),
            old(self)@.nodes.len() < Tree::MAX_NODES,
        ensures
            final(self).wf(),
            index == old(self)@.nodes.len(),
            final(self)@ == old(self)@.with_child(parent as int, child@),
    {
        proof {
            lemma_fewer_edges_than_nodes(old(self)@);
        }
        let index = graph_add_node(&mut self.graph, child);
        graph_add_edge(&mut self.graph, parent, index, 1);
        proof {
            assert(self@.nodes =~= old(self)@.nodes.push(child@));
            lemma_with_child_wf(old(self)@, parent as int, child@);
        }
        index
    }

    /// The parent of `child`; `None` for a node without one and for an index
    /// outside the tree.
    pub fn parent_of(&self, child: usize) -> (parent: Option<usize>)
        requires
            self.wf(),
        ensures
            as_index(parent) == self@.parent(child as int),
    {
        if child < graph_node_count(&self.graph) {
            graph_first_source(&self.graph, child)
        } else {
            proof {
                lemma_nothing_outside(self@, child as int);
            }
            None
        }
    }

    /// The children of `parent` in document order; none for an index outside
    /// the tree.
    pub fn children_of(&self, parent: usize) -> (children: Vec<usize>)
        requires
            self.wf(),
        ensures
            children@.map_values(|c: usize| c as int) == self@.children(parent as int),
    {
        let mut children: Vec<usize> = Vec::new();
        if parent < graph_node_count(&self.graph) {
            let newest_first = graph_targets_newest_first(&self.graph, parent);
            let ghost want = self@.children(parent as int);
            let ghost got = newest_first@.map_values(|c: usize| c as int);
            assert(got.len() == want.len());
            let mut i: usize = newest_first.len();
            while i > 0
                invariant
                    i <= newest_first.len(),
                    got == newest_first@.map_values(|c: usize| c as int),
                    got == want.reverse(),
                    want.len() == newest_first.len(),
                    children@.len() == newest_first.len() - i,
                    forall|k: int|
                        0 <= k < children@.len() ==> (#[trigger] children@[k]) as int == want[k],
                decreases i,
            {
                i = i - 1;
                assert(got[i as int] == newest_first@[i as int] as int);
                children.push(newest_first[i]);
            }
        } else {
            proof {
                lemma_nothing_outside(self@, parent as int);
            }
        }
        children
    }

    /// The node at `index`.
    pub fn get_layout_node(&self, index: usize) -> (node: &LayoutNode)
        requires
            index < self@.nodes.len(),
        ensures
            node@ == self@.nodes[index as int],
            *node == self.node(index as int),
    {
        graph_node(&self.graph, index)
    }
}

/// A well-formed tree with nodes has fewer edges than nodes.
pub proof fn lemma_fewer_edges_than_nodes(t: TreeModel)
    requires
        t.wf(),
    ensures
        t.edges.len() <= t.nodes.len(),
        t.nodes.len() > 0 ==> t.edges.len() < t.nodes.len(),
{
    lemma_targets_climb(t, t.edges.len() as int);
    if t.edges.len() > 0 {
        let last = t.edges.len() - 1;
        assert(t.edges[last].1 >= last + 1);
        assert(t.edges[last].1 < t.nodes.len());
    }
}

/// Adding a parentless node keeps a tree well formed.
pub proof fn lemma_with_node_wf(t: TreeModel, node: NodeModel)
    requires
        t.wf(),
    ensures
        t.with_node(node).wf(),
{
}

/// Adding a child below an existing node keeps a tree well formed.
pub proof fn lemma_with_child_wf(t: TreeModel, parent: int, child: NodeModel)
    requires
        t.wf(),
        0 <= parent < t.nodes.len(),
    ensures
        t.with_child(parent, child).wf(),
{
    let u = t.with_child(parent, child);
    let n = t.edges.len() as int;
    assert forall|k: int| 0 <= k < u.edges.len() implies 0 <= (#[trigger] u.edges[k]).0
        < u.edges[k].1 < u.nodes.len() by {
        if k < n {
            assert(u.edges[k] == t.edges[k]);
        }
    }
    assert forall|j: int, k: int| 0 <= j < k < u.edges.len() implies (#[trigger] u.edges[j]).1 < (
    #[trigger] u.edges[k]).1 by {
        if k < n {
            assert(u.edges[k] == t.edges[k]);
        }
    }
}

/// The target of the `k`-th edge is at least `k + 1`.
proof fn lemma_targets_climb(t: TreeModel, n: int)
    requires
        t.wf(),
        0 <= n <= t.edges.len(),
    ensures
        forall|k: int| 0 <= k < n ==> (#[trigger] t.edges[k]).1 >= k + 1,
    decreases n,
{
    if n > 0 {
        lemma_targets_climb(t, n - 1);
        if n >= 2 {
            assert(t.edges[n - 2].1 < t.edges[n - 1].1);
        }
    }
}

} // verus!
