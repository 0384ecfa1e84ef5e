//! The working state of one search: for every slot the tentative distance
//! from the start, the predecessor, and whether the node is visited, with
//! the single steps that Dijkstra's algorithm is made of.

use crate::graph::CAPACITY;
use crate::graph::Edge;
use vstd::prelude::*;

verus! {

/// The greatest weight that an edge can have.
pub const MAX_WEIGHT: u32 = 65535;

/// How many of `flags` are set.
pub open spec fn count_set(flags: Seq<bool>) -> nat
    decreases flags.len(),
{
    if flags.len() == 0 {
        0
    } else {
        count_set(flags.drop_last()) + if flags.last() {
            1nat
        } else {
            0nat
        }
    }
}

/// How many entries of `distance` are finite.
pub open spec fn count_known(distance: Seq<Option<u32>>) -> nat
    decreases distance.len(),
{
    if distance.len() == 0 {
        0
    } else {
        count_known(distance.drop_last()) + if distance.last() is Some {
            1nat
        } else {
            0nat
        }
    }
}

/// No more flags are set than there are flags.
pub proof fn lemma_count_set_at_most_len(flags: Seq<bool>)
    ensures
        count_set(flags) <= flags.len(),
    decreases flags.len(),
{
    if flags.len() > 0 {
        lemma_count_set_at_most_len(flags.drop_last());
    }
}

/// Setting a flag that was not set makes one more.
pub proof fn lemma_count_set_grows(flags: Seq<bool>, i: int)
    requires
        0 <= i < flags.len(),
        !flags[i],
    ensures
        count_set(flags.update(i, true)) == count_set(flags) + 1,
    decreases flags.len(),
{
    let after = flags.update(i, true);
    if i == flags.len() - 1 {
        assert(after.drop_last() =~= flags.drop_last());
    } else {
        lemma_count_set_grows(flags.drop_last(), i);
        assert(after.drop_last() =~= flags.drop_last().update(i, true));
    }
}

/// No more entries are finite than there are entries, and where one is
/// finite the count is not zero.
pub proof fn lemma_count_known_bounds(distance: Seq<Option<u32>>, i: int)
    ensures
        count_known(distance) <= distance.len(),
        0 <= i < distance.len() && distance[i] is Some ==> count_known(distance) >= 1,
    decreases distance.len(),
{
    if distance.len() > 0 {
        lemma_count_known_bounds(distance.drop_last(), i);
    }
}

/// Writing a finite entry makes one more where the entry was infinite and
/// as many as before where it was finite.
pub proof fn lemma_count_known_update(distance: Seq<Option<u32>>, i: int, d: u32)
    requires
        0 <= i < distance.len(),
    ensures
        count_known(distance.update(i, Some(d))) == count_known(distance) + if distance[i] is Some {
            0nat
        } else {
            1nat
        },
    decreases distance.len(),
{
    let after = distance.update(i, Some(d));
    if i == distance.len() - 1 {
        assert(after.drop_last() =~= distance.drop_last());
    } else {
        lemma_count_known_update(distance.drop_last(), i, d);
        assert(after.drop_last() =~= distance.drop_last().update(i, Some(d)));
    }
}

/// The working state of one search, one entry per slot.
pub struct SearchState {
    distance: Vec<Option<u32>>,
    parent: Vec<Option<usize>>,
    visited: Vec<bool>,
}

/// What a `SearchState` holds: for each slot the tentative distance from the
/// start (`None` for infinity), the predecessor on the best route known, and
/// whether the node is visited.
#[verifier::ext_equal]
pub struct SearchView {
    pub distance: Seq<Option<u32>>,
    pub parent: Seq<Option<usize>>,
    pub visited: Seq<bool>,
}

impl SearchView {
    /// The state before the first step of a search from `start`: nothing is
    /// visited, and nothing is known but that `start` is at distance zero
    /// from itself and its own predecessor.
    pub open spec fn fresh(start: usize) -> SearchView {
        SearchView {
            distance: Seq::new(
                CAPACITY as nat,
                |v: int|
                    if v == start {
                        Some(0u32)
                    } else {
                        None
                    },
            ),
            parent: Seq::new(
                CAPACITY as nat,
                |v: int|
                    if v == start {
                        Some(start)
                    } else {
                        None
                    },
            ),
            visited: Seq::new(CAPACITY as nat, |v: int| false),
        }
    }

    /// One entry per slot in each of the three, and no finite distance is
    /// longer than a route of greatest weight through all the nodes whose
    /// distance is finite.
    pub open spec fn valid(self) -> bool {
        &&& self.distance.len() == CAPACITY
        &&& self.parent.len() == CAPACITY
        &&& self.visited.len() == CAPACITY
        &&& forall|v: int|
            0 <= v < CAPACITY && (#[trigger] self.distance[v]) is Some ==> self.distance[v].unwrap()
                + MAX_WEIGHT <= count_known(self.distance) * MAX_WEIGHT
    }

    /// The tentative distance of `v`, where it is finite.
    pub open spec fn dist(self, v: usize) -> int {
        self.distance[v as int].unwrap() as int
    }

    /// `v` has a finite tentative distance and is not yet visited.
    pub open spec fn pending(self, v: usize) -> bool {
        &&& v < CAPACITY
        &&& !self.visited[v as int]
        &&& self.distance[v as int] is Some
    }

    /// `u` is pending and no pending node is nearer to the start.
    pub open spec fn nearest(self, u: usize) -> bool {
        &&& self.pending(u)
        &&& forall|v: usize| #[trigger] self.pending(v) ==> self.dist(u) <= self.dist(v)
    }

    /// `edge` leaves the node `from`, whose tentative distance is finite, and
    /// leads to an unvisited node.
    pub open spec fn leads_on(self, from: usize, edge: Edge) -> bool {
        &&& from < CAPACITY
        &&& edge.destination < CAPACITY
        &&& self.distance[from as int] is Some
        &&& !self.visited[edge.destination as int]
    }

    /// The way over `from` along `edge` is exactly as long as the tentative
    /// distance of the unvisited node to which `edge` leads.
    pub open spec fn ties(self, from: usize, edge: Edge) -> bool {
        &&& self.leads_on(from, edge)
        &&& self.distance[edge.destination as int] is Some
        &&& self.dist(from) + edge.distance == self.dist(edge.destination)
    }

    /// Relaxing `edge`, which leaves `from`, changes what is known of the
    /// node to which it leads: that node is unvisited, and the way over
    /// `from` is shorter than its tentative distance, or as long while
    /// `prefer_on_tie` is set.
    pub open spec fn improves(self, from: usize, edge: Edge, prefer_on_tie: bool) -> bool {
        &&& self.leads_on(from, edge)
        &&& match self.distance[edge.destination as int] {
            None => true,
            Some(d) => self.dist(from) + edge.distance < d || (self.dist(from) + edge.distance == d
                && prefer_on_tie),
        }
    }

    /// The state in which the node to which `edge` leads is reached over
    /// `from`.
    pub open spec fn routed(self, from: usize, edge: Edge) -> SearchView {
        SearchView {
            distance: self.distance.update(
                edge.destination as int,
                Some((self.dist(from) + edge.distance) as u32),
            ),
            parent: self.parent.update(edge.destination as int, Some(from)),
            visited: self.visited,
        }
    }

    /// The state in which `v` is visited.
    pub open spec fn settled(self, v: usize) -> SearchView {
        SearchView { visited: self.visited.update(v as int, true), ..self }
    }
}

/// Where relaxing an edge changes a valid state, the way over `from` fits
/// the distances' type, and the state that comes of it is valid.
pub proof fn lemma_routed_valid(st: SearchView, from: usize, edge: Edge)
    requires
        st.valid(),
        st.improves(from, edge, true),
    ensures
        st.dist(from) + edge.distance <= u32::MAX,
        st.routed(from, edge).valid(),
{
    let after = st.routed(from, edge);
    let candidate: u32 = (st.dist(from) + edge.distance) as u32;
    lemma_count_known_bounds(st.distance, from as int);
    lemma_count_known_update(st.distance, edge.destination as int, candidate);
    assert forall|v: int|
        0 <= v < CAPACITY && (#[trigger] after.distance[v]) is Some
        implies after.distance[v].unwrap() + MAX_WEIGHT <= count_known(after.distance)
        * MAX_WEIGHT by {
        if v != edge.destination {
            assert(st.distance[v] is Some);
        }
    }
}

impl View for SearchState {
    type V = SearchView;

    closed spec fn view(&self) -> SearchView {
        SearchView { distance: self.distance@, parent: self.parent@, visited: self.visited@ }
    }
}

impl SearchState {
    /// The state before the first step of a search from `start`.
    pub fn new(start: usize) -> (state: SearchState)
        ensures
            state@ == SearchView::fresh(start),
            state@.valid(),
    {
        let mut distance: Vec<Option<u32>> = Vec::new();
        let mut parent: Vec<Option<usize>> = Vec::new();
        let mut visited: Vec<bool> = Vec::new();
        let mut i: usize = 0;
        while i < CAPACITY
            invariant
                i <= CAPACITY,
                distance@.len() == i,
                parent@.len() == i,
                visited@.len() == i,
                forall|v: int| 0 <= v < i ==> !#[trigger] visited@[v],
                forall|v: int|
                    0 <= v < i ==> #[trigger] distance@[v] == if v == start {
                        Some(0u32)
                    } else {
                        None
                    },
                forall|v: int|
                    0 <= v < i ==> #[trigger] parent@[v] == if v == start {
                        Some(start)
                    } else {
                        None
                    },
            decreases CAPACITY - i,
        {
            if i == start {
                distance.push(Some(0));
                parent.push(Some(start));
            } else {
                distance.push(None);
                parent.push(None);
            }
            visited.push(false);
            i += 1;
        }
        let state = SearchState { distance, parent, visited };
        proof {
            assert(state@ =~= SearchView::fresh(start));
            if start < CAPACITY {
                lemma_count_known_bounds(state@.distance, start as int);
            }
        }
        state
    }

    /// The tentative distance of `id`, `None` for infinity and for an `id`
    /// that is no slot.
    pub fn distance(&self, id: usize) -> (d: Option<u32>)
        requires
            self@.valid(),
        ensures
            d == if id < CAPACITY {
                self@.distance[id as int]
            } else {
                None
            },
    {
        if id < CAPACITY {
            self.distance[id]
        } else {
            None
        }
    }

    /// The predecessor of `id` on the best route known to it, `None` where
    /// none is known and for an `id` that is no slot.
    pub fn parent(&self, id: usize) -> (p: Option<usize>)
        requires
            self@.valid(),
        ensures
            p == if id < CAPACITY {
                self@.parent[id as int]
            } else {
                None
            },
    {
        if id < CAPACITY {
            self.parent[id]
        } else {
            None
        }
    }

    /// Whether `id` is a visited node.
    pub fn is_visited(&self, id: usize) -> (b: bool)
        requires
            self@.valid(),
        ensures
            b == (id < CAPACITY && self@.visited[id as int]),
    {
        id < CAPACITY && self.visited[id]
    }

    /// The pending node that is nearest to the start, the one with the
    /// lowest id among several; `None` where no node is pending.
    pub fn nearest_pending(&self) -> (found: Option<usize>)
        requires
            self@.valid(),
        ensures
            match found {
                Some(u) => self@.nearest(u) && forall|v: usize|
                    v < u && #[trigger] self@.pending(v) ==> self@.dist(u) < self@.dist(v),
                None => forall|v: usize| !#[trigger] self@.pending(v),
            },
    {
        let mut best: Option<(usize, u32)> = None;
        let mut i: usize = 0;
        while i < CAPACITY
            invariant
                i <= CAPACITY,
                self@.valid(),
                match best {
                    Some((u, d)) => {
                        &&& u < i
                        &&& self@.pending(u)
                        &&& self@.dist(u) == d
                        &&& forall|v: usize|
                            v < i && #[trigger] self@.pending(v) ==> d <= self@.dist(v)
                        &&& forall|v: usize|
                            v < u && #[trigger] self@.pending(v) ==> d < self@.dist(v)
                    },
                    None => forall|v: usize| v < i ==> !#[trigger] self@.pending(v),
                },
            decreases CAPACITY - i,
        {
            if !self.visited[i] {
                match self.distance[i] {
                    Some(d) => {
                        match best {
                            Some((_, least)) => {
                                if d < least {
                                    best = Some((i, d));
                                }
                            },
                            None => {
                                best = Some((i, d));
                            },
                        }
                    },
                    None => {},
                }
            }
            i += 1;
        }
        match best {
            Some((u, _)) => Some(u),
            None => None,
        }
    }

    /// Marks `id` as visited; an `id` that is no slot changes nothing.
    pub fn settle(&mut self, id: usize)
        requires
            old(self)@.valid(),
        ensures
            final(self)@.valid(),
            final(self)@ == if id < CAPACITY {
                old(self)@.settled(id)
            } else {
                old(self)@
            },
    {
        if id < CAPACITY {
            self.visited[id] = true;
        }
    }

    /// Whether the way over `from` along `edge` is exactly as long as the
    /// tentative distance of the unvisited node to which `edge` leads.
    pub fn is_tie(&self, from: usize, edge: Edge) -> (tie: bool)
        requires
            self@.valid(),
        ensures
            tie == self@.ties(from, edge),
    {
        if from >= CAPACITY || edge.destination >= CAPACITY || self.visited[edge.destination] {
            return false;
        }
        match (self.distance[from], self.distance[edge.destination]) {
            (Some(through), Some(known)) => {
                proof {
                    lemma_count_known_bounds(self@.distance, from as int);
                }
                through + edge.distance as u32 == known
            },
            _ => false,
        }
    }

    /// Relaxes `edge`, which leaves `from`: where the way over `from` is
    /// shorter than what is known of the unvisited node to which `edge`
    /// leads, that node gets the shorter distance and `from` as its
    /// predecessor. Where both are equally long, `prefer_on_tie` decides
    /// whether `from` becomes the predecessor. Returns whether the state has
    /// changed.
    pub fn relax(&mut self, from: usize, edge: Edge, prefer_on_tie: bool) -> (taken: bool)
        requires
            old(self)@.valid(),
        ensures
            final(self)@.valid(),
            taken == old(self)@.improves(from, edge, prefer_on_tie),
            final(self)@ == if taken {
                old(self)@.routed(from, edge)
            } else {
                old(self)@
            },
    {
        if from >= CAPACITY || edge.destination >= CAPACITY || self.visited[edge.destination] {
            return false;
        }
        let through: u32 = match self.distance[from] {
            Some(d) => d,
            None => {
                return false;
            },
        };
        proof {
            lemma_count_known_bounds(self@.distance, from as int);
        }
        let candidate: u32 = through + edge.distance as u32;
        let taken = match self.distance[edge.destination] {
            None => true,
            Some(d) => candidate < d || (candidate == d && prefer_on_tie),
        };
        if taken {
            proof {
                lemma_routed_valid(self@, from, edge);
            }
            self.distance[edge.destination] = Some(candidate);
            self.parent[edge.destination] = Some(from);
            assert(self@ =~= old(self)@.routed(from, edge));
        }
        taken
    }
}

} // verus!
