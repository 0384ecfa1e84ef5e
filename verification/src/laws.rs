//! What holds of the graph whatever is done with it, stated of the graph as
//! a mathematical value and proved from the definitions of its operations.

use crate::graph::CAPACITY;
use crate::graph::DijkstraNode;
use crate::model::lemma_lowest_free;
use crate::model::lemma_lowest_free_exists;
use crate::model::GraphView;
use crate::paths::distance;
use crate::paths::hop;
use crate::paths::joins;
use crate::paths::lemma_shortest_weighs_distance;
use crate::paths::walk_weight;
use vstd::prelude::*;
use vstd::set_lib::lemma_len_subset;

verus! {

/// Once a node is removed, no line begins or ends in it: not where the node
/// was there before, and not where it was not.
pub proof fn lemma_removed_point_has_no_line(graph: GraphView, id: usize)
    requires
        graph.valid(),
    ensures
        graph.remove_point(id).valid(),
        !graph.remove_point(id).nodes.contains_key(id),
        forall|from: usize, to: usize| #[trigger]
            graph.remove_point(id).edges.contains_key((from, to)) ==> from != id && to != id,
{
}

/// Whatever is done to a valid graph leaves a valid graph: lines still join
/// nodes that are there, and start and end are still nodes.
pub proof fn lemma_changes_keep_the_graph_valid(
    graph: GraphView,
    id: usize,
    to: usize,
    length: u16,
    node: DijkstraNode,
)
    requires
        graph.valid(),
    ensures
        graph.add_point(id, node).valid(),
        graph.append_point(node).valid(),
        graph.move_point(id, node).valid(),
        graph.remove_point(id).valid(),
        graph.add_line(id, to, length).valid(),
        graph.remove_line(id, to).valid(),
        graph.set_start(id).valid(),
        graph.clear_start().valid(),
        graph.set_end(id).valid(),
        graph.clear_end().valid(),
        graph.clear_path().valid(),
{
    if !graph.full() {
        let free: usize = choose|free: usize| free < CAPACITY && !graph.nodes.contains_key(free);
        let lowest: usize = lemma_lowest_free_exists(graph, free);
        lemma_lowest_free(graph, lowest);
    }
}

/// Every change of the graph forgets the cached path; only moving a node
/// keeps it.
pub proof fn lemma_changes_forget_the_path(
    graph: GraphView,
    id: usize,
    to: usize,
    length: u16,
    node: DijkstraNode,
)
    ensures
        id < CAPACITY ==> graph.add_point(id, node).path is None,
        !graph.full() ==> graph.append_point(node).path is None,
        graph.nodes.contains_key(id) ==> graph.remove_point(id).path is None,
        graph.nodes.contains_key(id) && graph.nodes.contains_key(to) ==> graph.add_line(
            id,
            to,
            length,
        ).path is None,
        graph.edges.contains_key((id, to)) ==> graph.remove_line(id, to).path is None,
        graph.nodes.contains_key(id) ==> graph.set_start(id).path is None,
        graph.nodes.contains_key(id) ==> graph.set_end(id).path is None,
        graph.clear_start().path is None,
        graph.clear_end().path is None,
        graph.clear_path().path is None,
        graph.move_point(id, node).path == graph.path,
{
}

/// The empty graph has no node, no line, no start, no end and no path.
pub proof fn lemma_empty_graph()
    ensures
        GraphView::empty().valid(),
        GraphView::empty().nodes.len() == 0,
        GraphView::empty().edges.len() == 0,
        GraphView::empty().start is None,
        GraphView::empty().end is None,
        GraphView::empty().path is None,
{
}

/// A second search of a graph that has not changed since the first gives
/// what the first gave: the same answer and the same path.
pub proof fn lemma_second_search_agrees(
    graph: GraphView,
    first: GraphView,
    found_first: bool,
    second: GraphView,
    found_second: bool,
)
    requires
        graph.find_shortest_path(first, found_first),
        first.find_shortest_path(second, found_second),
    ensures
        found_second == found_first,
        second.path == first.path,
        second == first,
{
}

/// The cached path leads from the start to the end, and its weight is the
/// distance between the two: no walk from the start to the end weighs less,
/// whichever of several shortest walks the path is.
pub proof fn lemma_cached_path_is_optimal(graph: GraphView)
    requires
        graph.valid(),
        graph.path is Some,
    ensures
        joins(graph.edges, graph.path.unwrap(), graph.start.unwrap(), graph.end.unwrap()),
        walk_weight(graph.edges, graph.path.unwrap()) == distance(
            graph.edges,
            graph.start.unwrap(),
            graph.end.unwrap(),
        ),
        forall|other: Seq<usize>| #[trigger]
            joins(graph.edges, other, graph.start.unwrap(), graph.end.unwrap()) ==> walk_weight(
                graph.edges,
                graph.path.unwrap(),
            ) <= walk_weight(graph.edges, other),
{
    lemma_shortest_weighs_distance(
        graph.edges,
        graph.path.unwrap(),
        graph.start.unwrap(),
        graph.end.unwrap(),
    );
}

/// The ids below `bound`.
pub open spec fn slots_below(bound: int) -> Set<usize> {
    Set::new(|id: usize| id < bound)
}

/// There are as many ids below a bound as the bound says.
pub proof fn lemma_slots_below(bound: int)
    requires
        0 <= bound <= usize::MAX,
    ensures
        slots_below(bound).finite(),
        slots_below(bound).len() == bound,
    decreases bound,
{
    if bound == 0 {
        assert(slots_below(0) =~= Set::<usize>::empty());
    } else {
        lemma_slots_below(bound - 1);
        assert(slots_below(bound) =~= slots_below(bound - 1).insert((bound - 1) as usize));
    }
}

/// A graph has no more nodes than there are slots.
pub proof fn lemma_nodes_fit_the_slots(graph: GraphView)
    requires
        graph.valid(),
    ensures
        graph.nodes.dom().finite(),
        graph.nodes.len() <= CAPACITY,
{
    lemma_slots_below(CAPACITY as int);
    assert(graph.nodes.dom().subset_of(slots_below(CAPACITY as int)));
    lemma_len_subset(graph.nodes.dom(), slots_below(CAPACITY as int));
}

/// The cached path passes nodes of the graph only and none of them twice,
/// whatever cycles the graph has: it is no longer than there are nodes.
pub proof fn lemma_cached_path_is_finite(graph: GraphView)
    requires
        graph.valid(),
        graph.path is Some,
    ensures
        graph.path.unwrap().no_duplicates(),
        forall|i: int|
            0 <= i < graph.path.unwrap().len() ==> graph.nodes.contains_key(
                #[trigger] graph.path.unwrap()[i],
            ),
        graph.path.unwrap().len() <= graph.nodes.len(),
        graph.path.unwrap().len() <= CAPACITY,
{
    let path = graph.path.unwrap();
    assert forall|i: int| 0 <= i < path.len() implies graph.nodes.contains_key(
        #[trigger] path[i],
    ) by {
        if i > 0 {
            assert(graph.edges.contains_key(hop(path, i - 1)));
        }
    }
    lemma_nodes_fit_the_slots(graph);
    assert(path.to_set().subset_of(graph.nodes.dom()));
    lemma_len_subset(path.to_set(), graph.nodes.dom());
    path.unique_seq_to_set();
}

/// A search finds a path exactly where the graph is connected, and leaves a
/// valid graph.
pub proof fn lemma_search_finds_what_is_there(graph: GraphView, after: GraphView, found: bool)
    requires
        graph.valid(),
        graph.find_shortest_path(after, found),
    ensures
        after.valid(),
        found == graph.connected(),
{
    if graph.path is Some {
        assert(joins(graph.edges, graph.path.unwrap(), graph.start.unwrap(), graph.end.unwrap()));
    }
}

} // verus!
