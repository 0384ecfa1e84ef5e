//! Walks through a directed, weighted graph and what it means for one of
//! them to be shortest.
//!
//! A graph is seen here as nothing but its edge relation: a map from the
//! ordered pair `(from, to)` to the weight of that edge. Everything in this
//! module is ghost code: definitions and lemmas, of which nothing is compiled.

use vstd::prelude::*;

verus! {

/// The edge relation of a graph: `(from, to)` to the edge's weight.
pub type Edges = Map<(usize, usize), u16>;

/// The `i`-th step of the node sequence `p`: the pair of its `i`-th node and
/// the node after it.
pub open spec fn hop(p: Seq<usize>, i: int) -> (usize, usize) {
    (p[i], p[i + 1])
}

/// `p` is a walk: a non-empty node sequence in which every step is an edge.
/// Nodes may repeat, so a walk may run round a cycle any number of times.
pub open spec fn is_walk(edges: Edges, p: Seq<usize>) -> bool {
    &&& p.len() > 0
    &&& forall|i: int| 0 <= i < p.len() - 1 ==> edges.contains_key(#[trigger] hop(p, i))
}

/// The sum of the weights of the steps of `p`.
pub open spec fn walk_weight(edges: Edges, p: Seq<usize>) -> int
    decreases p.len(),
{
    if p.len() <= 1 {
        0
    } else {
        walk_weight(edges, p.drop_last()) + edges[hop(p, p.len() - 2)] as int
    }
}

/// `p` is a walk that begins in `from` and ends in `to`.
pub open spec fn joins(edges: Edges, p: Seq<usize>, from: usize, to: usize) -> bool {
    &&& is_walk(edges, p)
    &&& p.first() == from
    &&& p.last() == to
}

/// Some walk leads from `from` to `to`.
pub open spec fn reachable(edges: Edges, from: usize, to: usize) -> bool {
    exists|p: Seq<usize>| joins(edges, p, from, to)
}

/// `p` leads from `from` to `to`, and no walk between the two weighs less.
pub open spec fn is_shortest(edges: Edges, p: Seq<usize>, from: usize, to: usize) -> bool {
    &&& joins(edges, p, from, to)
    &&& forall|q: Seq<usize>| #[trigger]
        joins(edges, q, from, to) ==> walk_weight(edges, p) <= walk_weight(edges, q)
}

/// `d` is the weight of a shortest walk from `from` to `to`.
pub open spec fn is_distance(edges: Edges, from: usize, to: usize, d: int) -> bool {
    exists|p: Seq<usize>| #[trigger]
        is_shortest(edges, p, from, to) && walk_weight(edges, p) == d
}

/// The shortest-path distance from `from` to `to`; meaningful only where
/// `to` is reachable from `from`.
pub open spec fn distance(edges: Edges, from: usize, to: usize) -> int
    recommends
        reachable(edges, from, to),
{
    choose|d: int| is_distance(edges, from, to, d)
}

/// A single node is a walk of weight zero from itself to itself.
pub proof fn lemma_walk_single(edges: Edges, v: usize)
    ensures
        joins(edges, seq![v], v, v),
        walk_weight(edges, seq![v]) == 0,
{
}

/// A walk without its last node is still a walk, and the last step is an
/// edge whose weight is exactly what the walk loses.
pub proof fn lemma_walk_drop_last(edges: Edges, p: Seq<usize>)
    requires
        is_walk(edges, p),
        p.len() >= 2,
    ensures
        is_walk(edges, p.drop_last()),
        p.drop_last().first() == p.first(),
        edges.contains_key((p[p.len() - 2], p.last())),
        walk_weight(edges, p) == walk_weight(edges, p.drop_last()) + edges[(
            p[p.len() - 2],
            p.last(),
        )],
{
    let q = p.drop_last();
    assert forall|i: int| 0 <= i < q.len() - 1 implies edges.contains_key(#[trigger] hop(q, i)) by {
        assert(hop(q, i) == hop(p, i));
    }
    assert(edges.contains_key(hop(p, p.len() - 2)));
}

/// A walk may be entered along any edge that leads to its first node.
pub proof fn lemma_walk_prepend(edges: Edges, u: usize, p: Seq<usize>)
    requires
        is_walk(edges, p),
        edges.contains_key((u, p.first())),
    ensures
        is_walk(edges, seq![u] + p),
        (seq![u] + p).first() == u,
        (seq![u] + p).last() == p.last(),
        walk_weight(edges, seq![u] + p) == edges[(u, p.first())] + walk_weight(edges, p),
    decreases p.len(),
{
    let q = seq![u] + p;
    assert forall|i: int| 0 <= i < q.len() - 1 implies edges.contains_key(#[trigger] hop(q, i)) by {
        if i == 0 {
            assert(hop(q, i) == (u, p.first()));
        } else {
            assert(hop(q, i) == hop(p, i - 1));
        }
    }
    if p.len() == 1 {
        assert(q.drop_last() =~= seq![u]);
        assert(walk_weight(edges, q.drop_last()) == 0);
        assert(hop(q, q.len() - 2) == (u, p.first()));
    } else {
        let r = p.drop_last();
        lemma_walk_drop_last(edges, p);
        lemma_walk_prepend(edges, u, r);
        assert(q.drop_last() =~= seq![u] + r);
        assert(hop(q, q.len() - 2) == hop(p, p.len() - 2));
        assert(r.first() == p.first());
    }
}

/// No walk weighs less than nothing.
pub proof fn lemma_weight_not_negative(edges: Edges, p: Seq<usize>)
    ensures
        walk_weight(edges, p) >= 0,
    decreases p.len(),
{
    if p.len() > 1 {
        lemma_weight_not_negative(edges, p.drop_last());
    }
}

/// All shortest walks between two nodes weigh the same, and that weight is
/// the distance.
pub proof fn lemma_shortest_weighs_distance(edges: Edges, p: Seq<usize>, from: usize, to: usize)
    requires
        is_shortest(edges, p, from, to),
    ensures
        walk_weight(edges, p) == distance(edges, from, to),
        forall|q: Seq<usize>| #[trigger]
            joins(edges, q, from, to) ==> distance(edges, from, to) <= walk_weight(edges, q),
{
    let w: int = walk_weight(edges, p);
    assert(is_distance(edges, from, to, w));
    let d: int = distance(edges, from, to);
    assert(is_distance(edges, from, to, d));
    let p2 = choose|p2: Seq<usize>| #[trigger]
        is_shortest(edges, p2, from, to) && walk_weight(edges, p2) == d;
    assert(joins(edges, p2, from, to));
    assert(joins(edges, p, from, to));
}

} // verus!
