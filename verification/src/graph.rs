//! The graph store: nodes in a fixed number of slots, directed weighted
//! lines between them, the chosen start and end, and the cached path.
//!
//! Every operation is total. An id that names no node, a line between nodes
//! that are not there, a node beyond the capacity: each is absorbed, and the
//! graph stays as it was.

use crate::engine::shortest_walk;
use crate::lists::lemma_line_pushed;
use crate::lists::lemma_line_removed;
use crate::lists::lemma_line_set;
use crate::lists::lemma_lines_cleared;
use crate::lists::listed;
use crate::lists::lists_are_sets;
use crate::lists::lists_hold;
use crate::lists::position;
use crate::model::lemma_listed_lines_count;
use crate::model::lemma_lowest_free;
use crate::model::GraphView;
use crate::paths::distance;
use crate::paths::lemma_shortest_weighs_distance;
use crate::paths::walk_weight;
use crate::paths::Edges;
use vstd::prelude::*;

verus! {

/// The number of slots for nodes. Node ids are the slot numbers, so every id
/// is below this.
pub const CAPACITY: usize = 100;

/// A line that leaves a node: where it leads and how long it is.
#[derive(Clone, Copy, Debug)]
pub struct Edge {
    pub destination: usize,
    pub distance: u16,
}

/// A node of the graph: its place on the canvas. The store keeps it and
/// hands it back, and reads nothing of it.
#[derive(Clone, Copy, Debug)]
pub struct DijkstraNode {
    pub x: i32,
    pub y: i32,
}

impl DijkstraNode {
    /// A node at `(x, y)`.
    pub fn new(x: i32, y: i32) -> (node: DijkstraNode)
        ensures
            node == (DijkstraNode { x, y }),
    {
        DijkstraNode { x, y }
    }
}

/// A line as it is drawn: the id and the node where it begins, its length,
/// and the id and the node where it ends.
pub type Line<'a> = (usize, &'a DijkstraNode, u16, usize, &'a DijkstraNode);

/// The store of the graph.
pub struct DijkstraGraph {
    /// The nodes, each in the slot of its id.
    points: Vec<Option<DijkstraNode>>,
    /// For every slot the lines that leave its node, at most one to each
    /// destination.
    lines: Vec<Vec<Edge>>,
    start: Option<usize>,
    end: Option<usize>,
    /// What the last search has found, until the graph changes.
    path: Option<Vec<usize>>,
    /// The lines as a map from their ends to their length.
    edges: Ghost<Edges>,
}

impl View for DijkstraGraph {
    type V = GraphView;

    closed spec fn view(&self) -> GraphView {
        GraphView {
            nodes: Map::new(
                |id: usize| id < self.points@.len() && self.points@[id as int] is Some,
                |id: usize| self.points@[id as int].unwrap(),
            ),
            edges: self.edges@,
            start: self.start,
            end: self.end,
            path: match self.path {
                Some(p) => Some(p@),
                None => None,
            },
        }
    }
}

/// The nodes in the slots below `below`.
spec fn live_below(points: Seq<Option<DijkstraNode>>, below: int) -> Set<usize> {
    Set::new(|id: usize| id < below && id < points.len() && points[id as int] is Some)
}

/// The nodes in the slots below any bound are finitely many, and one slot
/// more makes one node more or none.
proof fn lemma_live_below(points: Seq<Option<DijkstraNode>>, below: int)
    requires
        0 <= below <= points.len(),
        points.len() <= usize::MAX,
    ensures
        live_below(points, below).finite(),
        live_below(points, below).len() <= below,
        below < points.len() ==> live_below(points, below + 1).len() == live_below(
            points,
            below,
        ).len() + if points[below] is Some {
            1nat
        } else {
            0nat
        },
    decreases below,
{
    if below == 0 {
        assert(live_below(points, 0) =~= Set::<usize>::empty());
    } else {
        lemma_live_below(points, below - 1);
        let lower = live_below(points, below - 1);
        if points[below - 1] is Some {
            assert(live_below(points, below) =~= lower.insert((below - 1) as usize));
        } else {
            assert(live_below(points, below) =~= lower);
        }
    }
    if below < points.len() {
        let here = live_below(points, below);
        if points[below] is Some {
            assert(live_below(points, below + 1) =~= here.insert(below as usize));
        } else {
            assert(live_below(points, below + 1) =~= here);
        }
    }
}

/// The pairs that end in `id` and begin below `below`.
spec fn ending_in(id: usize, below: usize) -> Set<(usize, usize)> {
    Set::new(|ends: (usize, usize)| ends.1 == id && ends.0 < below)
}

impl DijkstraGraph {
    /// The store is laid out as it should be: one slot per id, and the
    /// adjacency lists hold the lines, each once.
    pub closed spec fn inv(&self) -> bool {
        &&& self.points@.len() == CAPACITY
        &&& lists_hold(self.lines@, self.edges@)
        &&& lists_are_sets(self.lines@)
    }

    /// The store is laid out as it should be, and the graph it holds is
    /// valid.
    pub open spec fn wf(&self) -> bool {
        &&& self.inv()
        &&& self@.valid()
    }

    /// A graph without nodes.
    pub fn new() -> (graph: DijkstraGraph)
        ensures
            graph.wf(),
            graph@ == GraphView::empty(),
    {
        let mut points: Vec<Option<DijkstraNode>> = Vec::new();
        let mut lines: Vec<Vec<Edge>> = Vec::new();
        let mut i: usize = 0;
        while i < CAPACITY
            invariant
                i <= CAPACITY,
                points@.len() == i,
                lines@.len() == i,
                forall|k: int| 0 <= k < i ==> (#[trigger] points@[k]) is None,
                forall|k: int| 0 <= k < i ==> (#[trigger] lines@[k])@.len() == 0,
            decreases CAPACITY - i,
        {
            points.push(None);
            lines.push(Vec::new());
            i += 1;
        }
        let graph = DijkstraGraph {
            points,
            lines,
            start: None,
            end: None,
            path: None,
            edges: Ghost(Map::empty()),
        };
        assert(graph@ =~= GraphView::empty());
        graph
    }

    /// Empties the graph: no node, no line, no start, no end and no path
    /// are left.
    pub fn clear(&mut self)
        ensures
            final(self).wf(),
            final(self)@ == GraphView::empty(),
            final(self)@.nodes.len() == 0,
            final(self)@.start is None,
            final(self)@.end is None,
            final(self)@.path is None,
    {
        *self = DijkstraGraph::new();
    }

    /// The number of nodes.
    pub fn size(&self) -> (count: usize)
        requires
            self.wf(),
        ensures
            count == self@.nodes.len(),
            count <= CAPACITY,
            self@.nodes.dom().finite(),
    {
        let mut count: usize = 0;
        let mut id: usize = 0;
        proof {
            lemma_live_below(self.points@, 0);
        }
        while id < CAPACITY
            invariant
                id <= CAPACITY,
                self.points@.len() == CAPACITY,
                count == live_below(self.points@, id as int).len(),
                count <= id,
            decreases CAPACITY - id,
        {
            proof {
                lemma_live_below(self.points@, id as int);
            }
            if self.points[id].is_some() {
                count += 1;
            }
            id += 1;
        }
        proof {
            lemma_live_below(self.points@, CAPACITY as int);
            assert(self@.nodes.dom() =~= live_below(self.points@, CAPACITY as int));
        }
        count
    }

    /// Whether `id` is a node of the graph.
    pub fn contains(&self, id: usize) -> (live: bool)
        requires
            self.wf(),
        ensures
            live == self@.nodes.contains_key(id),
    {
        id < CAPACITY && self.points[id].is_some()
    }

    /// The node `id`, `None` where there is no such node.
    pub fn get(&self, id: usize) -> (node: Option<&DijkstraNode>)
        requires
            self.wf(),
        ensures
            match node {
                Some(n) => self@.nodes.contains_key(id) && *n == self@.nodes[id],
                None => !self@.nodes.contains_key(id),
            },
    {
        if id < CAPACITY {
            self.points[id].as_ref()
        } else {
            None
        }
    }

    /// The node `id`, to be moved by whoever holds the reference; `None`
    /// where there is no such node. Lines and cached path stay as they are.
    pub fn get_mut(&mut self, id: usize) -> (node: Option<&mut DijkstraNode>)
        requires
            old(self).wf(),
        ensures
            final(self).wf(),
            match node {
                Some(n) => {
                    &&& old(self)@.nodes.contains_key(id)
                    &&& *n == old(self)@.nodes[id]
                    &&& final(self)@ == old(self)@.move_point(id, *final(n))
                },
                None => !old(self)@.nodes.contains_key(id) && final(self)@ == old(self)@,
            },
    {
        if id < CAPACITY {
            self.points[id].as_mut()
        } else {
            None
        }
    }

    /// The slots, in the order of their ids: each holds its node or nothing.
    pub fn points(&self) -> (slots: &Vec<Option<DijkstraNode>>)
        requires
            self.wf(),
        ensures
            slots@.len() == CAPACITY,
            forall|id: usize|
                id < CAPACITY ==> #[trigger] slots@[id as int] == if self@.nodes.contains_key(id) {
                    Some(self@.nodes[id])
                } else {
                    None
                },
    {
        &self.points
    }

    /// The lines of the graph, each once, in the order of the ids of the
    /// nodes where they begin: for each the node where it begins, its
    /// length, and the node where it ends.
    pub fn lines(&self) -> (all: Vec<Line>)
        requires
            self.wf(),
        ensures
            self@.listed_by(all@),
            all@.len() == self@.edges.len(),
    {
        let mut all: Vec<Line> = Vec::new();
        let ghost mut origin: Seq<int> = Seq::empty();
        let mut from: usize = 0;
        while from < CAPACITY
            invariant
                from <= CAPACITY,
                self.wf(),
                origin.len() == all@.len(),
                forall|k: int| 0 <= k < all@.len() ==> self@.has_line(#[trigger] all@[k]),
                forall|k: int|
                    0 <= k < all@.len() ==> {
                        &&& (#[trigger] all@[k]).0 < from
                        &&& 0 <= origin[k] < self.lines@[all@[k].0 as int]@.len()
                        &&& self.lines@[all@[k].0 as int]@[origin[k]].destination == all@[k].3
                    },
                forall|j: int, k: int|
                    #![trigger all@[j], all@[k]]
                    0 <= j < k < all@.len() ==> all@[j].0 <= all@[k].0 && (all@[j].0 == all@[k].0
                        ==> origin[j] < origin[k]),
                forall|u: usize, v: usize| #[trigger]
                    self@.edges.contains_key((u, v)) && u < from ==> exists|k: int|
                        0 <= k < all@.len() && (#[trigger] all@[k]).0 == u && all@[k].3 == v,
            decreases CAPACITY - from,
        {
            let list = &self.lines[from];
            let mut j: usize = 0;
            while j < list.len()
                invariant
                    from < CAPACITY,
                    j <= list@.len(),
                    list@ == self.lines@[from as int]@,
                    self.wf(),
                    origin.len() == all@.len(),
                    forall|k: int| 0 <= k < all@.len() ==> self@.has_line(#[trigger] all@[k]),
                    forall|k: int|
                        0 <= k < all@.len() ==> {
                            &&& (#[trigger] all@[k]).0 <= from
                            &&& (all@[k].0 == from ==> origin[k] < j)
                            &&& 0 <= origin[k] < self.lines@[all@[k].0 as int]@.len()
                            &&& self.lines@[all@[k].0 as int]@[origin[k]].destination == all@[k].3
                        },
                    forall|a: int, b: int|
                        #![trigger all@[a], all@[b]]
                        0 <= a < b < all@.len() ==> all@[a].0 <= all@[b].0 && (all@[a].0
                            == all@[b].0 ==> origin[a] < origin[b]),
                    forall|u: usize, v: usize| #[trigger]
                        self@.edges.contains_key((u, v)) && u < from ==> exists|k: int|
                            0 <= k < all@.len() && (#[trigger] all@[k]).0 == u && all@[k].3 == v,
                    forall|i: int|
                        0 <= i < j ==> exists|k: int|
                            0 <= k < all@.len() && (#[trigger] all@[k]).0 == from && all@[k].3 == (
                            #[trigger] list@[i]).destination,
                decreases list@.len() - j,
            {
                let line = list[j];
                proof {
                    assert(self.lines@[from as int]@[j as int] == line);
                    assert(self@.edges.contains_key((from, line.destination)));
                }
                let here: &DijkstraNode = self.points[from].as_ref().unwrap();
                let there: &DijkstraNode = self.points[line.destination].as_ref().unwrap();
                let ghost so_far = all@;
                all.push((from, here, line.distance, line.destination, there));
                proof {
                    origin = origin.push(j as int);
                    let last: int = so_far.len() as int;
                    assert(all@[last].0 == from && all@[last].3 == line.destination);
                    assert forall|k: int| 0 <= k < all@.len() implies self@.has_line(
                        #[trigger] all@[k],
                    ) by {
                        if k < last {
                            assert(all@[k] == so_far[k]);
                        }
                    }
                    assert forall|u: usize, v: usize| #[trigger]
                        self@.edges.contains_key((u, v)) && u < from implies exists|k: int|
                        0 <= k < all@.len() && (#[trigger] all@[k]).0 == u && all@[k].3 == v by {
                        let k: int = choose|k: int|
                            0 <= k < so_far.len() && (#[trigger] so_far[k]).0 == u && so_far[k].3
                                == v;
                        assert(all@[k] == so_far[k]);
                    }
                    assert forall|i: int| 0 <= i < j + 1 implies exists|k: int|
                        0 <= k < all@.len() && (#[trigger] all@[k]).0 == from && all@[k].3 == (
                        #[trigger] list@[i]).destination by {
                        if i < j {
                            let k: int = choose|k: int|
                                0 <= k < so_far.len() && (#[trigger] so_far[k]).0 == from
                                    && so_far[k].3 == list@[i].destination;
                            assert(all@[k] == so_far[k]);
                        } else {
                            assert(all@[last].0 == from);
                        }
                    }
                    assert forall|a: int, b: int|
                        #![trigger all@[a], all@[b]]
                        0 <= a < b < all@.len() implies all@[a].0 <= all@[b].0 && (all@[a].0
                        == all@[b].0 ==> origin[a] < origin[b]) by {
                        assert(all@[a] == so_far[a]);
                        if b < last {
                            assert(all@[b] == so_far[b]);
                        }
                    }
                    assert forall|k: int| 0 <= k < all@.len() implies {
                        &&& (#[trigger] all@[k]).0 <= from
                        &&& (all@[k].0 == from ==> origin[k] < j + 1)
                        &&& 0 <= origin[k] < self.lines@[all@[k].0 as int]@.len()
                        &&& self.lines@[all@[k].0 as int]@[origin[k]].destination == all@[k].3
                    } by {
                        if k < last {
                            assert(all@[k] == so_far[k]);
                        }
                    }
                }
                j += 1;
            }
            proof {
                assert forall|u: usize, v: usize| #[trigger]
                    self@.edges.contains_key((u, v)) && u < from + 1 implies exists|k: int|
                    0 <= k < all@.len() && (#[trigger] all@[k]).0 == u && all@[k].3 == v by {
                    if u == from {
                        assert(listed(self.lines@[from as int]@, v));
                        let i: int = choose|i: int|
                            0 <= i < list@.len() && (#[trigger] list@[i]).destination == v;
                        assert(list@[i].destination == v);
                    }
                }
            }
            from += 1;
        }
        proof {
            assert forall|j: int, k: int|
                #![trigger all@[j], all@[k]]
                0 <= j < k < all@.len() implies all@[j].0 <= all@[k].0 && !(all@[j].0 == all@[k].0
                && all@[j].3 == all@[k].3) by {
                if all@[j].0 == all@[k].0 {
                    let list = self.lines@[all@[j].0 as int]@;
                    assert(list[origin[j]].destination != list[origin[k]].destination);
                }
            }
            lemma_listed_lines_count(self@, all@);
        }
        all
    }

    /// The chosen start.
    pub fn start(&self) -> (id: Option<usize>)
        ensures
            id == self@.start,
    {
        self.start
    }

    /// The chosen end.
    pub fn end(&self) -> (id: Option<usize>)
        ensures
            id == self@.end,
    {
        self.end
    }

    /// The path that the last search has found, from the start to the end;
    /// `None` where it found none, or the graph has changed since.
    pub fn get_path(&self) -> (path: Option<Vec<usize>>)
        requires
            self.wf(),
        ensures
            match path {
                Some(p) => self@.path == Some(p@),
                None => self@.path is None,
            },
    {
        match &self.path {
            Some(p) => Some(p.clone()),
            None => None,
        }
    }

    /// Puts a node at `(x, y)` into the slot `id` and forgets the cached
    /// path. A slot that holds a node keeps it; an `id` that is no slot is
    /// ignored.
    pub fn add_point(&mut self, id: usize, x: i32, y: i32)
        requires
            old(self).wf(),
        ensures
            final(self).wf(),
            final(self)@ == old(self)@.add_point(id, DijkstraNode { x, y }),
    {
        if id >= CAPACITY {
            return;
        }
        if self.points[id].is_none() {
            self.points[id] = Some(DijkstraNode::new(x, y));
        }
        self.path = None;
        assert(self@ =~= old(self)@.add_point(id, DijkstraNode { x, y }));
    }

    /// Puts a node at `(x, y)` into the lowest free slot, forgets the
    /// cached path and returns the id of the node. Returns `None`, and leaves
    /// the graph as it is, where no slot is free.
    pub fn append_point(&mut self, x: i32, y: i32) -> (id: Option<usize>)
        requires
            old(self).wf(),
        ensures
            final(self).wf(),
            final(self)@ == old(self)@.append_point(DijkstraNode { x, y }),
            match id {
                Some(id) => old(self)@.first_free(id) && final(self)@ == old(self)@.place(
                    id,
                    DijkstraNode { x, y },
                ),
                None => old(self)@.full() && final(self)@ == old(self)@,
            },
    {
        let mut id: usize = 0;
        while id < CAPACITY
            invariant
                id <= CAPACITY,
                self.wf(),
                self == old(self),
                forall|lower: usize| lower < id ==> #[trigger] self@.nodes.contains_key(lower),
            decreases CAPACITY - id,
        {
            if self.points[id].is_none() {
                self.points[id] = Some(DijkstraNode::new(x, y));
                self.path = None;
                assert(self@ =~= old(self)@.place(id, DijkstraNode { x, y }));
                proof {
                    lemma_lowest_free(old(self)@, id);
                }
                return Some(id);
            }
            id += 1;
        }
        None
    }

    /// Removes the node `id` with every line that begins or ends in it,
    /// leaves the graph without start or end where `id` was the one or the
    /// other, and forgets the cached path. Does nothing where `id` is no
    /// node.
    pub fn remove_point(&mut self, id: usize)
        requires
            old(self).wf(),
        ensures
            final(self).wf(),
            final(self)@ == old(self)@.remove_point(id),
            forall|from: usize, to: usize| #[trigger]
                final(self)@.edges.contains_key((from, to)) ==> from != id && to != id,
    {
        if !self.contains(id) {
            return;
        }
        let mut from: usize = 0;
        assert(self.edges@ =~= self.edges@.remove_keys(ending_in(id, 0)));
        while from < CAPACITY
            invariant
                from <= CAPACITY,
                id < CAPACITY,
                self.inv(),
                self.points == old(self).points,
                self.start == old(self).start,
                self.end == old(self).end,
                self.edges@ == old(self).edges@.remove_keys(ending_in(id, from)),
            decreases CAPACITY - from,
        {
            self.detach(from, id);
            proof {
                assert(self.edges@ =~= old(self).edges@.remove_keys(
                    ending_in(id, (from + 1) as usize),
                ));
            }
            from += 1;
        }
        let ghost met = self.lines@;
        self.lines[id].clear();
        proof {
            lemma_lines_cleared(met, self.lines@, self.edges@, id);
        }
        self.edges = Ghost(
            self.edges@.remove_keys(Set::new(|ends: (usize, usize)| ends.0 == id)),
        );
        self.points[id] = None;
        match self.start {
            Some(s) => {
                if s == id {
                    self.start = None;
                }
            },
            None => {},
        }
        match self.end {
            Some(t) => {
                if t == id {
                    self.end = None;
                }
            },
            None => {},
        }
        self.path = None;
        assert(self@ =~= old(self)@.remove_point(id));
    }

    /// Draws a line of length `length` from `from` to `to` and forgets the
    /// cached path. A line that is there already gets the new length. Does
    /// nothing where `from` or `to` is no node.
    pub fn add_line(&mut self, from: usize, to: usize, length: u16)
        requires
            old(self).wf(),
        ensures
            final(self).wf(),
            final(self)@ == old(self)@.add_line(from, to, length),
    {
        if !self.contains(from) || !self.contains(to) {
            return;
        }
        match position(&self.lines[from], to) {
            Some(j) => {
                self.lines[from][j].distance = length;
                proof {
                    lemma_line_set(
                        old(self).lines@,
                        self.lines@,
                        old(self).edges@,
                        from,
                        j as int,
                        length,
                    );
                }
            },
            None => {
                let line = Edge { destination: to, distance: length };
                self.lines[from].push(line);
                proof {
                    lemma_line_pushed(old(self).lines@, self.lines@, old(self).edges@, from, line);
                }
            },
        }
        self.edges = Ghost(self.edges@.insert((from, to), length));
        self.path = None;
        assert(self@ =~= old(self)@.add_line(from, to, length));
    }

    /// Takes the line from `from` to `to` out of the lists and of the map,
    /// where there is one, and says whether there was.
    fn detach(&mut self, from: usize, to: usize) -> (was: bool)
        requires
            old(self).inv(),
            from < CAPACITY,
        ensures
            final(self).inv(),
            was == old(self).edges@.contains_key((from, to)),
            final(self).edges@ == old(self).edges@.remove((from, to)),
            final(self).points == old(self).points,
            final(self).start == old(self).start,
            final(self).end == old(self).end,
            final(self).path == old(self).path,
            forall|u: int|
                0 <= u < CAPACITY && u != from ==> #[trigger] final(self).lines@[u] == old(
                    self,
                ).lines@[u],
    {
        match position(&self.lines[from], to) {
            Some(j) => {
                self.lines[from].remove(j);
                proof {
                    lemma_line_removed(
                        old(self).lines@,
                        self.lines@,
                        old(self).edges@,
                        from,
                        j as int,
                    );
                }
                self.edges = Ghost(self.edges@.remove((from, to)));
                true
            },
            None => {
                assert(self.edges@.remove((from, to)) =~= self.edges@);
                false
            },
        }
    }

    /// Removes the line from `from` to `to` and forgets the cached path;
    /// does nothing where there is no such line.
    pub fn remove_line(&mut self, from: usize, to: usize)
        requires
            old(self).wf(),
        ensures
            final(self).wf(),
            final(self)@ == old(self)@.remove_line(from, to),
    {
        if from < CAPACITY {
            if self.detach(from, to) {
                self.path = None;
            }
        }
        assert(self@ =~= old(self)@.remove_line(from, to));
    }

    /// Chooses the node `id` as start and forgets the cached path; does
    /// nothing where `id` is no node.
    pub fn set_start(&mut self, start: usize)
        requires
            old(self).wf(),
        ensures
            final(self).wf(),
            final(self)@ == old(self)@.set_start(start),
    {
        if self.contains(start) {
            self.start = Some(start);
            self.path = None;
        }
    }

    /// Leaves the graph without start and forgets the cached path.
    pub fn clear_start(&mut self)
        requires
            old(self).wf(),
        ensures
            final(self).wf(),
            final(self)@ == old(self)@.clear_start(),
    {
        self.start = None;
        self.path = None;
    }

    /// Chooses the node `id` as end and forgets the cached path; does
    /// nothing where `id` is no node.
    pub fn set_end(&mut self, end: usize)
        requires
            old(self).wf(),
        ensures
            final(self).wf(),
            final(self)@ == old(self)@.set_end(end),
    {
        if self.contains(end) {
            self.end = Some(end);
            self.path = None;
        }
    }

    /// Leaves the graph without end and forgets the cached path.
    pub fn clear_end(&mut self)
        requires
            old(self).wf(),
        ensures
            final(self).wf(),
            final(self)@ == old(self)@.clear_end(),
    {
        self.end = None;
        self.path = None;
    }

    /// Forgets the cached path and leaves nodes, lines, start and end as
    /// they are.
    pub fn clear_path(&mut self)
        requires
            old(self).wf(),
        ensures
            final(self).wf(),
            final(self)@ == old(self)@.clear_path(),
    {
        self.path = None;
    }

    /// Searches a shortest path from the start to the end and caches it.
    /// Returns whether there is one: never where start or end is not
    /// chosen.
    ///
    /// Where several paths are equally short, a coin is tossed wherever two
    /// ways to a node tie, so that a search after a change may cache
    /// another of them than the search before; its weight is the same. A
    /// path that is cached already is kept as the answer: a second search
    /// of an unchanged graph gives what the first gave.
    pub fn find_shortest_path(&mut self) -> (found: bool)
        requires
            old(self).wf(),
        ensures
            final(self).wf(),
            old(self)@.find_shortest_path(final(self)@, found),
            found == old(self)@.connected(),
            found ==> walk_weight(final(self)@.edges, final(self)@.path.unwrap()) == distance(
                final(self)@.edges,
                final(self)@.start.unwrap(),
                final(self)@.end.unwrap(),
            ),
    {
        if self.path.is_some() {
            proof {
                lemma_shortest_weighs_distance(
                    self@.edges,
                    self@.path.unwrap(),
                    self@.start.unwrap(),
                    self@.end.unwrap(),
                );
            }
            return true;
        }
        let (start, end) = match (self.start, self.end) {
            (Some(s), Some(t)) => (s, t),
            _ => {
                return false;
            },
        };
        match shortest_walk(&self.lines, Ghost(self.edges@), start, end) {
            Some(path) => {
                proof {
                    lemma_shortest_weighs_distance(self@.edges, path@, start, end);
                }
                self.path = Some(path);
                true
            },
            None => false,
        }
    }
}

impl Default for DijkstraGraph {
    fn default() -> (graph: DijkstraGraph)
        ensures
            graph.wf(),
            graph@ == GraphView::empty(),
    {
        DijkstraGraph::new()
    }
}

} // verus!
