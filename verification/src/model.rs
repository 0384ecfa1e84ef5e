//! The graph as a mathematical value, and what each operation of the store
//! makes of it.
//!
//! The store in [`crate::graph`] says of each of its operations that it
//! takes the graph from one of these values to another. Nothing of this module
//! is compiled.

use crate::graph::CAPACITY;
use crate::graph::DijkstraNode;
use crate::graph::Line;
use crate::paths::is_shortest;
use crate::paths::reachable;
use crate::paths::Edges;
use vstd::prelude::*;
use vstd::seq_lib::seq_to_set_is_finite;

verus! {

/// The graph as a mathematical value: the live nodes by id, the weight of
/// every line by its ordered pair of ends, the chosen start and end, and the
/// path that the last search has found.
#[verifier::ext_equal]
pub struct GraphView {
    pub nodes: Map<usize, DijkstraNode>,
    pub edges: Edges,
    pub start: Option<usize>,
    pub end: Option<usize>,
    pub path: Option<Seq<usize>>,
}

/// The pairs of node ids of which one is `id`.
pub open spec fn touching(id: usize) -> Set<(usize, usize)> {
    Set::new(|ends: (usize, usize)| ends.0 == id || ends.1 == id)
}

impl GraphView {
    /// The graph without nodes.
    pub open spec fn empty() -> GraphView {
        GraphView {
            nodes: Map::empty(),
            edges: Map::empty(),
            start: None,
            end: None,
            path: None,
        }
    }

    /// What holds of every graph: node ids are slots, lines join live nodes,
    /// start and end are live nodes, and a cached path is a shortest walk
    /// from the start to the end that passes no node twice.
    pub open spec fn valid(self) -> bool {
        &&& forall|id: usize| #[trigger] self.nodes.contains_key(id) ==> id < CAPACITY
        &&& forall|from: usize, to: usize| #[trigger]
            self.edges.contains_key((from, to)) ==> self.nodes.contains_key(from)
                && self.nodes.contains_key(to)
        &&& self.start matches Some(s) ==> self.nodes.contains_key(s)
        &&& self.end matches Some(t) ==> self.nodes.contains_key(t)
        &&& self.path matches Some(p) ==> {
            &&& self.start is Some
            &&& self.end is Some
            &&& is_shortest(self.edges, p, self.start.unwrap(), self.end.unwrap())
            &&& p.no_duplicates()
        }
    }

    /// Start and end are chosen, and a walk leads from the one to the other.
    pub open spec fn connected(self) -> bool {
        &&& self.start is Some
        &&& self.end is Some
        &&& reachable(self.edges, self.start.unwrap(), self.end.unwrap())
    }

    /// `id` is the lowest slot without a node.
    pub open spec fn first_free(self, id: usize) -> bool {
        &&& id < CAPACITY
        &&& !self.nodes.contains_key(id)
        &&& forall|lower: usize| lower < id ==> #[trigger] self.nodes.contains_key(lower)
    }

    /// Every slot holds a node.
    pub open spec fn full(self) -> bool {
        forall|id: usize| id < CAPACITY ==> #[trigger] self.nodes.contains_key(id)
    }

    /// The lowest slot without a node, where there is one.
    pub open spec fn lowest_free(self) -> usize {
        choose|id: usize| self.first_free(id)
    }

    /// The graph with `node` in the slot `id` and without cached path.
    pub open spec fn place(self, id: usize, node: DijkstraNode) -> GraphView {
        GraphView { nodes: self.nodes.insert(id, node), path: None, ..self }
    }

    /// The graph after `node` was put into the slot `id`: with the node,
    /// where `id` is a slot and was free; without the cached path, where
    /// `id` is a slot.
    pub open spec fn add_point(self, id: usize, node: DijkstraNode) -> GraphView {
        if id >= CAPACITY {
            self
        } else if self.nodes.contains_key(id) {
            self.clear_path()
        } else {
            self.place(id, node)
        }
    }

    /// The graph after `node` was put into the lowest free slot; as before
    /// where every slot holds a node.
    pub open spec fn append_point(self, node: DijkstraNode) -> GraphView {
        if self.full() {
            self
        } else {
            self.place(self.lowest_free(), node)
        }
    }

    /// The graph after the node `id` has moved to `node`; as before where no
    /// such node is there. The cached path stays: the lines are as they were.
    pub open spec fn move_point(self, id: usize, node: DijkstraNode) -> GraphView {
        if self.nodes.contains_key(id) {
            GraphView { nodes: self.nodes.insert(id, node), ..self }
        } else {
            self
        }
    }

    /// The graph after the node `id` was removed: without the node, without
    /// every line that began or ended in it, without start or end where `id`
    /// was the one or the other, and without cached path. As before where no
    /// such node is there.
    pub open spec fn remove_point(self, id: usize) -> GraphView {
        if self.nodes.contains_key(id) {
            GraphView {
                nodes: self.nodes.remove(id),
                edges: self.edges.remove_keys(touching(id)),
                start: if self.start == Some(id) {
                    None
                } else {
                    self.start
                },
                end: if self.end == Some(id) {
                    None
                } else {
                    self.end
                },
                path: None,
            }
        } else {
            self
        }
    }

    /// The graph after a line of length `length` was drawn from `from` to
    /// `to`, or the line between them was given that length; as before where
    /// either of the two is no node.
    pub open spec fn add_line(self, from: usize, to: usize, length: u16) -> GraphView {
        if self.nodes.contains_key(from) && self.nodes.contains_key(to) {
            GraphView { edges: self.edges.insert((from, to), length), path: None, ..self }
        } else {
            self
        }
    }

    /// The graph after the line from `from` to `to` was removed; as before
    /// where there is no such line.
    pub open spec fn remove_line(self, from: usize, to: usize) -> GraphView {
        if self.edges.contains_key((from, to)) {
            GraphView { edges: self.edges.remove((from, to)), path: None, ..self }
        } else {
            self
        }
    }

    /// The graph after `id` was chosen as start; as before where `id` is no
    /// node.
    pub open spec fn set_start(self, id: usize) -> GraphView {
        if self.nodes.contains_key(id) {
            GraphView { start: Some(id), path: None, ..self }
        } else {
            self
        }
    }

    /// The graph without start and without cached path.
    pub open spec fn clear_start(self) -> GraphView {
        GraphView { start: None, path: None, ..self }
    }

    /// The graph after `id` was chosen as end; as before where `id` is no
    /// node.
    pub open spec fn set_end(self, id: usize) -> GraphView {
        if self.nodes.contains_key(id) {
            GraphView { end: Some(id), path: None, ..self }
        } else {
            self
        }
    }

    /// The graph without end and without cached path.
    pub open spec fn clear_end(self) -> GraphView {
        GraphView { end: None, path: None, ..self }
    }

    /// The graph without its cached path.
    pub open spec fn clear_path(self) -> GraphView {
        GraphView { path: None, ..self }
    }

    /// `after` is what a search may leave of this graph when it answers
    /// `found`. Nodes, lines, start and end are as before. A path that was
    /// cached stays, and the answer is yes. Without one, the answer is yes
    /// exactly where the graph is connected, and then `after` holds a
    /// shortest walk from the start to the end that passes no node twice;
    /// which one of several is not determined.
    pub open spec fn find_shortest_path(self, after: GraphView, found: bool) -> bool {
        &&& after.nodes == self.nodes
        &&& after.edges == self.edges
        &&& after.start == self.start
        &&& after.end == self.end
        &&& found == after.path.is_some()
        &&& found == (self.path.is_some() || self.connected())
        &&& self.path.is_some() ==> after.path == self.path
        &&& after.path matches Some(p) ==> {
            &&& is_shortest(after.edges, p, after.start.unwrap(), after.end.unwrap())
            &&& p.no_duplicates()
        }
    }

    /// `line` is a line of this graph, with the nodes at its two ends.
    pub open spec fn has_line(self, line: Line) -> bool {
        &&& self.edges.contains_key((line.0, line.3))
        &&& self.edges[(line.0, line.3)] == line.2
        &&& self.nodes[line.0] == *line.1
        &&& self.nodes[line.3] == *line.4
    }

    /// `all` lists the lines of this graph, each once, in the order of the
    /// ids of the nodes where they begin.
    pub open spec fn listed_by(self, all: Seq<Line>) -> bool {
        &&& forall|k: int| 0 <= k < all.len() ==> self.has_line(#[trigger] all[k])
        &&& forall|from: usize, to: usize| #[trigger]
            self.edges.contains_key((from, to)) ==> exists|k: int|
                0 <= k < all.len() && (#[trigger] all[k]).0 == from && all[k].3 == to
        &&& forall|j: int, k: int|
            #![trigger all[j], all[k]]
            0 <= j < k < all.len() ==> all[j].0 <= all[k].0 && !(all[j].0 == all[k].0 && all[j].3
                == all[k].3)
    }
}

/// The ends of the lines that `all` lists.
pub open spec fn ends_of(all: Seq<Line>) -> Seq<(usize, usize)> {
    Seq::new(all.len(), |k: int| (all[k].0, all[k].3))
}

/// A list of the lines of a graph has as many entries as the graph has lines,
/// which are finitely many.
pub proof fn lemma_listed_lines_count(graph: GraphView, all: Seq<Line>)
    requires
        graph.listed_by(all),
    ensures
        graph.edges.dom().finite(),
        all.len() == graph.edges.len(),
{
    let ends = ends_of(all);
    assert forall|j: int, k: int|
        0 <= j < ends.len() && 0 <= k < ends.len() && j != k implies ends[j] != ends[k] by {
        if j < k {
            assert(!(all[j].0 == all[k].0 && all[j].3 == all[k].3));
        } else {
            assert(!(all[k].0 == all[j].0 && all[k].3 == all[j].3));
        }
    }
    assert forall|pair: (usize, usize)|
        ends.to_set().contains(pair) <==> graph.edges.dom().contains(pair) by {
        if ends.to_set().contains(pair) {
            let k: int = choose|k: int| 0 <= k < ends.len() && ends[k] == pair;
            assert(graph.has_line(all[k]));
        }
        if graph.edges.contains_key((pair.0, pair.1)) {
            let k: int = choose|k: int|
                0 <= k < all.len() && (#[trigger] all[k]).0 == pair.0 && all[k].3 == pair.1;
            assert(ends[k] == pair);
        }
    }
    assert(ends.to_set() =~= graph.edges.dom());
    seq_to_set_is_finite(ends);
    ends.unique_seq_to_set();
}

/// Only one slot is the lowest free one, and none is where the graph is
/// full.
pub proof fn lemma_lowest_free(graph: GraphView, id: usize)
    requires
        graph.first_free(id),
    ensures
        graph.lowest_free() == id,
        !graph.full(),
{
    let other = graph.lowest_free();
    assert(graph.first_free(other));
    if other < id {
        assert(graph.nodes.contains_key(other));
    }
    if id < other {
        assert(graph.nodes.contains_key(id));
    }
}

/// Where a slot is free, one slot is the lowest free one.
pub proof fn lemma_lowest_free_exists(graph: GraphView, free: usize) -> (lowest: usize)
    requires
        free < CAPACITY,
        !graph.nodes.contains_key(free),
    ensures
        graph.first_free(lowest),
    decreases free,
{
    if exists|lower: usize| lower < free && !graph.nodes.contains_key(lower) {
        let lower: usize = choose|lower: usize| lower < free && !graph.nodes.contains_key(lower);
        lemma_lowest_free_exists(graph, lower)
    } else {
        free
    }
}

} // verus!
