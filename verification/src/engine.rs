//! Dijkstra's algorithm over the adjacency lists of the graph store, and the
//! proof that what it returns is a shortest walk.
//!
//! The nearest pending node is found by a linear scan, so a search takes a
//! number of steps that is quadratic in the number of slots.

use crate::graph::CAPACITY;
use crate::graph::Edge;
use crate::lists::listed;
use crate::lists::lists_hold;
use crate::paths::is_shortest;
use crate::paths::is_walk;
use crate::paths::joins;
use crate::paths::lemma_walk_drop_last;
use crate::paths::lemma_walk_prepend;
use crate::paths::lemma_walk_single;
use crate::paths::lemma_weight_not_negative;
use crate::paths::reachable;
use crate::paths::walk_weight;
use crate::paths::Edges;
use crate::search::count_set;
use crate::search::lemma_count_set_at_most_len;
use crate::search::lemma_count_set_grows;
use crate::search::lemma_routed_valid;
use crate::search::SearchState;
use crate::search::SearchView;
use vstd::prelude::*;

verus! {

/// Every edge that leaves `u` has been relaxed: its destination has a finite
/// tentative distance, no longer than the way over `u`.
pub open spec fn closed_from(edges: Edges, st: SearchView, u: usize) -> bool {
    forall|v: usize| #[trigger]
        edges.contains_key((u, v)) ==> {
            &&& v < CAPACITY
            &&& st.distance[v as int] is Some
            &&& st.dist(v) <= st.dist(u) + edges[(u, v)]
        }
}

/// Every edge that leaves a visited node other than `but` has been relaxed.
pub open spec fn closed_but(edges: Edges, st: SearchView, but: Option<usize>) -> bool {
    forall|u: usize|
        u < CAPACITY && #[trigger] st.visited[u as int] && but != Some(u) ==> closed_from(
            edges,
            st,
            u,
        )
}

/// `v` hangs on its predecessor: that is a visited node from which one edge
/// leads to `v`, and the tentative distance of `v` is the predecessor's plus
/// that edge. `depth` counts the steps back to the start.
pub open spec fn hangs(edges: Edges, st: SearchView, depth: Seq<nat>, v: usize) -> bool {
    &&& st.parent[v as int] is Some
    &&& {
        let u = st.parent[v as int].unwrap();
        &&& u < CAPACITY
        &&& st.visited[u as int]
        &&& st.distance[u as int] is Some
        &&& edges.contains_key((u, v))
        &&& st.dist(v) == st.dist(u) + edges[(u, v)]
        &&& depth[v as int] == depth[u as int] + 1
    }
}

/// Every node but `start` that has a finite tentative distance hangs on its
/// predecessor.
pub open spec fn rooted(edges: Edges, start: usize, st: SearchView, depth: Seq<nat>) -> bool {
    forall|v: usize|
        v < CAPACITY && v != start && (#[trigger] st.distance[v as int]) is Some ==> hangs(
            edges,
            st,
            depth,
            v,
        )
}

/// No visited node is farther from the start than a pending one.
pub open spec fn ordered(st: SearchView) -> bool {
    forall|u: usize, v: usize|
        u < CAPACITY && #[trigger] st.visited[u as int] && #[trigger] st.pending(v) ==> st.dist(u)
            <= st.dist(v)
}

/// Every visited node has a finite tentative distance.
pub open spec fn visited_are_known(st: SearchView) -> bool {
    forall|v: usize|
        v < CAPACITY && #[trigger] st.visited[v as int] ==> st.distance[v as int] is Some
}

/// No visited node is farther from the start than `u`.
pub open spec fn capped(st: SearchView, u: usize) -> bool {
    forall|x: usize| x < CAPACITY && #[trigger] st.visited[x as int] ==> st.dist(x) <= st.dist(u)
}

/// The first `done` edges of `list`, which leave `u`, have been relaxed.
pub open spec fn relaxed(st: SearchView, u: usize, list: Seq<Edge>, done: int) -> bool {
    forall|j: int|
        0 <= j < done ==> {
            let e = #[trigger] list[j];
            &&& e.destination < CAPACITY
            &&& st.distance[e.destination as int] is Some
            &&& st.dist(e.destination) <= st.dist(u) + e.distance
        }
}

/// What holds of a search from `start` between any two of its steps.
pub open spec fn search_inv(edges: Edges, start: usize, st: SearchView, depth: Seq<nat>) -> bool {
    &&& st.valid()
    &&& depth.len() == CAPACITY
    &&& start < CAPACITY
    &&& st.distance[start as int] == Some(0u32)
    &&& visited_are_known(st)
    &&& !st.visited[start as int] ==> forall|v: usize|
        v < CAPACITY && v != start ==> (#[trigger] st.distance[v as int]) is None
    &&& rooted(edges, start, st, depth)
    &&& ordered(st)
}

/// While the edges of the visited node `u` are being relaxed, `done` of
/// them so far.
pub open spec fn expanding(
    edges: Edges,
    start: usize,
    st: SearchView,
    depth: Seq<nat>,
    u: usize,
    list: Seq<Edge>,
    done: int,
) -> bool {
    &&& search_inv(edges, start, st, depth)
    &&& closed_but(edges, st, Some(u))
    &&& u < CAPACITY
    &&& st.visited[u as int]
    &&& st.visited[start as int]
    &&& capped(st, u)
    &&& 0 <= done <= list.len()
    &&& relaxed(st, u, list, done)
}

/// Visiting the nearest pending node keeps the search in order and leaves
/// only that node's edges to relax.
proof fn lemma_settle(
    edges: Edges,
    start: usize,
    st: SearchView,
    depth: Seq<nat>,
    u: usize,
    list: Seq<Edge>,
)
    requires
        search_inv(edges, start, st, depth),
        closed_but(edges, st, None),
        st.nearest(u),
    ensures
        expanding(edges, start, st.settled(u), depth, u, list, 0),
{
    let after = st.settled(u);
    assert(after.visited[start as int]) by {
        if !st.visited[start as int] {
            assert(st.distance[u as int] is Some);
            assert(u == start);
        }
    }
    assert(ordered(after)) by {
        assert forall|x: usize, v: usize|
            x < CAPACITY && #[trigger] after.visited[x as int] && #[trigger] after.pending(
                v,
            ) implies after.dist(x) <= after.dist(v) by {
            assert(st.pending(v));
            if x != u {
                assert(st.visited[x as int]);
            }
        }
    }
    assert(capped(after, u)) by {
        assert forall|x: usize|
            x < CAPACITY && #[trigger] after.visited[x as int] implies after.dist(x)
            <= after.dist(u) by {
            if x != u {
                assert(st.visited[x as int]);
                assert(st.pending(u));
            }
        }
    }
    assert(rooted(edges, start, after, depth)) by {
        assert forall|v: usize|
            v < CAPACITY && v != start && (#[trigger] after.distance[v as int]) is Some
            implies hangs(edges, after, depth, v) by {
            assert(st.distance[v as int] is Some);
            assert(hangs(edges, st, depth, v));
        }
    }
    assert(closed_but(edges, after, Some(u))) by {
        assert forall|x: usize|
            x < CAPACITY && #[trigger] after.visited[x as int] && Some(u) != Some(
                x,
            ) implies closed_from(edges, after, x) by {
            assert(st.visited[x as int]);
            assert(closed_from(edges, st, x));
        }
    }
    assert(visited_are_known(after)) by {
        assert forall|v: usize|
            v < CAPACITY && #[trigger] after.visited[v as int]
            implies after.distance[v as int] is Some by {
            if v != u {
                assert(st.visited[v as int]);
            }
        }
    }
    assert(st.distance[u as int] is Some);
}

/// The facts about one relaxation that changes the state: the edge `e`
/// leaves the visited node `u` and leads to an unvisited node other than the
/// start, and the way over `u` is no longer than what was known.
spec fn shortens(edges: Edges, start: usize, st: SearchView, u: usize, e: Edge) -> bool {
    &&& st.valid()
    &&& u < CAPACITY
    &&& e.destination < CAPACITY
    &&& e.destination != start
    &&& e.destination != u
    &&& st.visited[u as int]
    &&& !st.visited[e.destination as int]
    &&& st.distance[u as int] is Some
    &&& st.dist(u) + e.distance <= u32::MAX
    &&& edges.contains_key((u, e.destination))
    &&& edges[(u, e.destination)] == e.distance
    &&& st.distance[e.destination as int] is Some ==> st.dist(u) + e.distance <= st.dist(
        e.destination,
    )
}

proof fn lemma_relax_rooted(
    edges: Edges,
    start: usize,
    st: SearchView,
    depth: Seq<nat>,
    u: usize,
    e: Edge,
)
    requires
        shortens(edges, start, st, u, e),
        depth.len() == CAPACITY,
        rooted(edges, start, st, depth),
    ensures
        rooted(
            edges,
            start,
            st.routed(u, e),
            depth.update(e.destination as int, depth[u as int] + 1),
        ),
{
    let v: usize = e.destination;
    let after = st.routed(u, e);
    let deeper = depth.update(v as int, depth[u as int] + 1);
    assert forall|x: usize|
        x < CAPACITY && x != start && (#[trigger] after.distance[x as int]) is Some implies hangs(
        edges,
        after,
        deeper,
        x,
    ) by {
        if x != v {
            assert(st.distance[x as int] is Some);
            assert(hangs(edges, st, depth, x));
        }
    }
}

proof fn lemma_relax_ordered(edges: Edges, start: usize, st: SearchView, u: usize, e: Edge)
    requires
        shortens(edges, start, st, u, e),
        ordered(st),
        capped(st, u),
    ensures
        ordered(st.routed(u, e)),
        capped(st.routed(u, e), u),
{
    let v: usize = e.destination;
    let after = st.routed(u, e);
    assert forall|x: usize, y: usize|
        x < CAPACITY && #[trigger] after.visited[x as int] && #[trigger] after.pending(
            y,
        ) implies after.dist(x) <= after.dist(y) by {
        assert(st.visited[x as int]);
        if y != v {
            assert(st.pending(y));
        }
    }
    assert forall|x: usize| x < CAPACITY && #[trigger] after.visited[x as int] implies after.dist(x)
        <= after.dist(u) by {
        assert(st.visited[x as int]);
    }
}

proof fn lemma_relax_closed(edges: Edges, start: usize, st: SearchView, u: usize, e: Edge)
    requires
        shortens(edges, start, st, u, e),
        closed_but(edges, st, Some(u)),
        visited_are_known(st),
    ensures
        closed_but(edges, st.routed(u, e), Some(u)),
        visited_are_known(st.routed(u, e)),
{
    let v: usize = e.destination;
    let after = st.routed(u, e);
    assert forall|x: usize|
        x < CAPACITY && #[trigger] after.visited[x as int] && Some(u) != Some(x)
        implies closed_from(edges, after, x) by {
        assert(st.visited[x as int]);
        assert(closed_from(edges, st, x));
        assert forall|y: usize| #[trigger] edges.contains_key((x, y)) implies {
            &&& y < CAPACITY
            &&& after.distance[y as int] is Some
            &&& after.dist(y) <= after.dist(x) + edges[(x, y)]
        } by {
            assert(st.distance[y as int] is Some);
        }
    }
    assert forall|x: usize|
        x < CAPACITY && #[trigger] after.visited[x as int]
        implies after.distance[x as int] is Some by {
        assert(st.visited[x as int]);
    }
}

proof fn lemma_relax_relaxed(
    edges: Edges,
    start: usize,
    st: SearchView,
    u: usize,
    list: Seq<Edge>,
    done: int,
)
    requires
        0 <= done < list.len(),
        shortens(edges, start, st, u, list[done]),
        relaxed(st, u, list, done),
    ensures
        relaxed(st.routed(u, list[done]), u, list, done + 1),
{
    let e = list[done];
    let after = st.routed(u, e);
    assert forall|j: int| 0 <= j < done + 1 implies {
        let f = #[trigger] list[j];
        &&& f.destination < CAPACITY
        &&& after.distance[f.destination as int] is Some
        &&& after.dist(f.destination) <= after.dist(u) + f.distance
    } by {
        if j < done {
            let f = list[j];
            assert(st.distance[f.destination as int] is Some);
        }
    }
}

/// Relaxing the next edge of the node that is being expanded keeps the
/// search in order, whichever way a tie goes.
proof fn lemma_relax(
    edges: Edges,
    start: usize,
    st: SearchView,
    depth: Seq<nat>,
    u: usize,
    list: Seq<Edge>,
    done: int,
    prefer_on_tie: bool,
)
    requires
        expanding(edges, start, st, depth, u, list, done),
        done < list.len(),
        list[done].destination < CAPACITY,
        edges.contains_key((u, list[done].destination)),
        edges[(u, list[done].destination)] == list[done].distance,
    ensures
        st.improves(u, list[done], prefer_on_tie) ==> expanding(
            edges,
            start,
            st.routed(u, list[done]),
            depth.update(list[done].destination as int, depth[u as int] + 1),
            u,
            list,
            done + 1,
        ),
        !st.improves(u, list[done], prefer_on_tie) ==> expanding(
            edges,
            start,
            st,
            depth,
            u,
            list,
            done + 1,
        ),
{
    let e = list[done];
    let v: usize = e.destination;
    assert(st.distance[u as int] is Some);
    if st.improves(u, e, prefer_on_tie) {
        lemma_routed_valid(st, u, e);
        assert(shortens(edges, start, st, u, e));
        lemma_relax_rooted(edges, start, st, depth, u, e);
        lemma_relax_ordered(edges, start, st, u, e);
        lemma_relax_closed(edges, start, st, u, e);
        lemma_relax_relaxed(edges, start, st, u, list, done);
    } else {
        assert forall|j: int| 0 <= j < done + 1 implies {
            let f = #[trigger] list[j];
            &&& f.destination < CAPACITY
            &&& st.distance[f.destination as int] is Some
            &&& st.dist(f.destination) <= st.dist(u) + f.distance
        } by {
            if j == done {
                if st.visited[v as int] {
                    assert(st.dist(v) <= st.dist(u));
                }
            }
        }
    }
}

/// Once every edge of the expanded node has been relaxed, the search is
/// ready for its next step.
proof fn lemma_expanded(
    lines: Seq<Vec<Edge>>,
    edges: Edges,
    start: usize,
    st: SearchView,
    depth: Seq<nat>,
    u: usize,
)
    requires
        lists_hold(lines, edges),
        expanding(edges, start, st, depth, u, lines[u as int]@, lines[u as int]@.len() as int),
    ensures
        closed_but(edges, st, None),
{
    let list = lines[u as int]@;
    assert forall|x: usize| x < CAPACITY && #[trigger] st.visited[x as int] implies closed_from(
        edges,
        st,
        x,
    ) by {
        if x == u {
            assert forall|y: usize| #[trigger] edges.contains_key((u, y)) implies {
                &&& y < CAPACITY
                &&& st.distance[y as int] is Some
                &&& st.dist(y) <= st.dist(u) + edges[(u, y)]
            } by {
                assert(listed(list, y));
                let j: int = choose|j: int|
                    0 <= j < list.len() && (#[trigger] list[j]).destination == y;
                assert(lines[u as int]@[j].destination == y);
            }
        }
    }
}

/// Every edge joins two slots.
pub open spec fn in_range(edges: Edges) -> bool {
    forall|a: usize, b: usize| #[trigger]
        edges.contains_key((a, b)) ==> a < CAPACITY && b < CAPACITY
}

/// While `u` is the nearest pending node, a walk from the start to a visited
/// node weighs at least that node's tentative distance, and a walk from the
/// start to any other node weighs at least the tentative distance of `u`.
proof fn lemma_no_shorter(
    edges: Edges,
    start: usize,
    st: SearchView,
    depth: Seq<nat>,
    u: usize,
    q: Seq<usize>,
)
    requires
        in_range(edges),
        search_inv(edges, start, st, depth),
        closed_but(edges, st, None),
        st.nearest(u),
        is_walk(edges, q),
        q.first() == start,
    ensures
        q.last() < CAPACITY,
        st.visited[q.last() as int] ==> st.dist(q.last()) <= walk_weight(edges, q),
        !st.visited[q.last() as int] ==> st.dist(u) <= walk_weight(edges, q),
    decreases q.len(),
{
    let z: usize = q.last();
    if q.len() == 1 {
        if !st.visited[start as int] {
            assert(st.pending(start));
        }
    } else {
        let r = q.drop_last();
        let y: usize = r.last();
        lemma_walk_drop_last(edges, q);
        lemma_no_shorter(edges, start, st, depth, u, r);
        lemma_weight_not_negative(edges, r);
        assert(edges.contains_key((y, z)));
        if st.visited[y as int] {
            assert(closed_from(edges, st, y));
            if !st.visited[z as int] {
                assert(st.pending(z));
            }
        } else {
            if st.visited[z as int] {
                assert(st.pending(u));
            }
        }
    }
}

/// Once no node is pending, every walk from the start ends in a visited
/// node.
proof fn lemma_all_found(edges: Edges, start: usize, st: SearchView, depth: Seq<nat>, q: Seq<usize>)
    requires
        search_inv(edges, start, st, depth),
        closed_but(edges, st, None),
        forall|v: usize| !#[trigger] st.pending(v),
        is_walk(edges, q),
        q.first() == start,
    ensures
        q.last() < CAPACITY,
        st.visited[q.last() as int],
    decreases q.len(),
{
    let z: usize = q.last();
    if q.len() == 1 {
        assert(!st.pending(start));
    } else {
        let r = q.drop_last();
        let y: usize = r.last();
        lemma_walk_drop_last(edges, q);
        lemma_all_found(edges, start, st, depth, r);
        assert(edges.contains_key((y, z)));
        assert(closed_from(edges, st, y));
        assert(!st.pending(z));
    }
}

/// A random `bool`: one call of `rand::random::<bool>()`, which draws from
/// the generator of the thread. The call is believed to come back; nothing is
/// claimed of what it brings, so that whoever asks must do right by either
/// answer. The generator is seeded by the operating system when a thread first
/// draws from it, and `rand` panics where that fails.
#[verifier::external_body]
fn coin_flip() -> (heads: bool) {
    rand::random::<bool>()
}

/// Follows the predecessors back from `end` to `start` and returns the
/// nodes passed in the order from `start` to `end`. Every step back leads to
/// a node that is nearer to the start by one edge, so no node is passed
/// twice.
fn trace(
    state: &SearchState,
    Ghost(edges): Ghost<Edges>,
    Ghost(depth): Ghost<Seq<nat>>,
    start: usize,
    end: usize,
) -> (path: Vec<usize>)
    requires
        search_inv(edges, start, state@, depth),
        end < CAPACITY,
        state@.distance[end as int] is Some,
    ensures
        joins(edges, path@, start, end),
        walk_weight(edges, path@) == state@.dist(end),
        path@.no_duplicates(),
{
    let mut back: Vec<usize> = Vec::new();
    back.push(end);
    let mut current: usize = end;
    let ghost mut walk: Seq<usize> = seq![end];
    proof {
        lemma_walk_single(edges, end);
    }
    while current != start
        invariant
            search_inv(edges, start, state@, depth),
            current < CAPACITY,
            state@.distance[current as int] is Some,
            joins(edges, walk, current, end),
            walk_weight(edges, walk) + state@.dist(current) == state@.dist(end),
            forall|i: int| 0 <= i < walk.len() ==> (#[trigger] walk[i]) < CAPACITY,
            forall|i: int, j: int|
                #![trigger walk[i], walk[j]]
                0 <= i < j < walk.len() ==> depth[walk[i] as int] < depth[walk[j] as int],
            back@.len() == walk.len(),
            forall|i: int| 0 <= i < walk.len() ==> #[trigger] back@[i] == walk[walk.len() - 1 - i],
        decreases depth[current as int],
    {
        proof {
            assert(hangs(edges, state@, depth, current));
        }
        let before: usize = state.parent(current).unwrap();
        proof {
            lemma_walk_prepend(edges, before, walk);
            let longer = seq![before] + walk;
            assert forall|i: int, j: int|
                #![trigger longer[i], longer[j]]
                0 <= i < j < longer.len() implies depth[longer[i] as int]
                < depth[longer[j] as int] by {
                assert(longer[j] == walk[j - 1]);
                if i > 0 {
                    assert(longer[i] == walk[i - 1]);
                } else if j > 1 {
                    assert(depth[walk[0] as int] < depth[walk[j - 1] as int]);
                }
            }
            walk = longer;
        }
        back.push(before);
        current = before;
    }
    let mut path: Vec<usize> = Vec::new();
    let mut i: usize = back.len();
    while i > 0
        invariant
            i <= back@.len(),
            back@.len() == walk.len(),
            path@.len() == back@.len() - i,
            forall|k: int| 0 <= k < walk.len() ==> #[trigger] back@[k] == walk[walk.len() - 1 - k],
            forall|k: int| 0 <= k < path@.len() ==> #[trigger] path@[k] == walk[k],
        decreases i,
    {
        i -= 1;
        path.push(back[i]);
    }
    assert(path@ =~= walk);
    assert forall|i: int, j: int|
        0 <= i < walk.len() && 0 <= j < walk.len() && i != j implies walk[i] != walk[j] by {
        if i < j {
            assert(depth[walk[i] as int] < depth[walk[j] as int]);
        } else {
            assert(depth[walk[j] as int] < depth[walk[i] as int]);
        }
    }
    path
}

/// Visits `u`, the nearest pending node, and relaxes every edge that leaves
/// it. Where the way over `u` to an unvisited node is exactly as long as
/// the one known, a coin is tossed for the predecessor.
fn expand(
    state: &mut SearchState,
    lines: &Vec<Vec<Edge>>,
    Ghost(edges): Ghost<Edges>,
    Ghost(depth): Ghost<Seq<nat>>,
    start: usize,
    u: usize,
) -> (deeper: Ghost<Seq<nat>>)
    requires
        lists_hold(lines@, edges),
        search_inv(edges, start, old(state)@, depth),
        closed_but(edges, old(state)@, None),
        old(state)@.nearest(u),
    ensures
        search_inv(edges, start, final(state)@, deeper@),
        closed_but(edges, final(state)@, None),
        final(state)@.visited == old(state)@.visited.update(u as int, true),
{
    proof {
        lemma_settle(edges, start, state@, depth, u, lines@[u as int]@);
    }
    state.settle(u);
    let list = &lines[u];
    let ghost mut depth = depth;
    let mut j: usize = 0;
    while j < list.len()
        invariant
            lists_hold(lines@, edges),
            u < CAPACITY,
            list@ == lines@[u as int]@,
            expanding(edges, start, state@, depth, u, list@, j as int),
            state@.visited == old(state)@.visited.update(u as int, true),
        decreases list.len() - j,
    {
        let edge = list[j];
        proof {
            assert(lines@[u as int]@[j as int] == edge);
        }
        let prefer = if state.is_tie(u, edge) {
            coin_flip()
        } else {
            false
        };
        proof {
            lemma_relax(edges, start, state@, depth, u, list@, j as int, prefer);
        }
        let taken = state.relax(u, edge, prefer);
        proof {
            if taken {
                depth = depth.update(edge.destination as int, depth[u as int] + 1);
            }
        }
        j += 1;
    }
    proof {
        lemma_expanded(lines@, edges, start, state@, depth, u);
    }
    Ghost(depth)
}

/// The search itself: a shortest walk from `start` to `end` through the
/// graph whose adjacency lists are `lines`, one that passes no node twice,
/// or `None` where no walk leads from the one to the other.
pub(crate) fn shortest_walk(
    lines: &Vec<Vec<Edge>>,
    Ghost(edges): Ghost<Edges>,
    start: usize,
    end: usize,
) -> (route: Option<Vec<usize>>)
    requires
        lists_hold(lines@, edges),
        start < CAPACITY,
        end < CAPACITY,
    ensures
        match route {
            Some(path) => is_shortest(edges, path@, start, end) && path@.no_duplicates(),
            None => !reachable(edges, start, end),
        },
{
    let mut state = SearchState::new(start);
    let ghost mut depth: Seq<nat> = Seq::new(CAPACITY as nat, |i: int| 0nat);
    proof {
        lemma_count_set_at_most_len(state@.visited);
        assert(search_inv(edges, start, state@, depth));
    }
    loop
        invariant
            lists_hold(lines@, edges),
            start < CAPACITY,
            end < CAPACITY,
            search_inv(edges, start, state@, depth),
            closed_but(edges, state@, None),
            !state@.visited[end as int],
        decreases CAPACITY - count_set(state@.visited),
    {
        match state.nearest_pending() {
            None => {
                proof {
                    assert forall|q: Seq<usize>| !joins(edges, q, start, end) by {
                        if joins(edges, q, start, end) {
                            lemma_all_found(edges, start, state@, depth, q);
                        }
                    }
                }
                return None;
            },
            Some(u) => {
                if u == end {
                    proof {
                        assert(in_range(edges));
                        assert forall|q: Seq<usize>| #[trigger]
                            joins(edges, q, start, end) implies state@.dist(end) <= walk_weight(
                            edges,
                            q,
                        ) by {
                            lemma_no_shorter(edges, start, state@, depth, u, q);
                        }
                    }
                    let path = trace(&state, Ghost(edges), Ghost(depth), start, end);
                    return Some(path);
                }
                proof {
                    lemma_count_set_grows(state@.visited, u as int);
                    lemma_count_set_at_most_len(state@.visited.update(u as int, true));
                }
                let deeper = expand(&mut state, lines, Ghost(edges), Ghost(depth), start, u);
                proof {
                    depth = deeper@;
                }
            },
        }
    }
}

} // verus!
