//! The adjacency lists of the store: for every slot the lines that leave its
//! node, and how they stay in step with the map from ends to length when a
//! line comes or goes.

use crate::graph::CAPACITY;
use crate::graph::Edge;
use crate::paths::Edges;
use vstd::prelude::*;

verus! {

/// The adjacency lists `lines` hold exactly the edges of `edges`: every
/// entry of the list of `u` is an edge that leaves `u`, with its weight, and
/// every edge that leaves `u` stands in the list of `u`.
pub open spec fn lists_hold(lines: Seq<Vec<Edge>>, edges: Edges) -> bool {
    &&& lines.len() == CAPACITY
    &&& forall|u: usize, j: int|
        u < CAPACITY && 0 <= j < lines[u as int]@.len() ==> {
            let e = #[trigger] lines[u as int]@[j];
            &&& e.destination < CAPACITY
            &&& edges.contains_key((u, e.destination))
            &&& edges[(u, e.destination)] == e.distance
        }
    &&& forall|u: usize, v: usize| #[trigger]
        edges.contains_key((u, v)) ==> {
            &&& u < CAPACITY
            &&& v < CAPACITY
            &&& listed(lines[u as int]@, v)
        }
}

/// Some entry of `list` leads to `to`.
pub open spec fn listed(list: Seq<Edge>, to: usize) -> bool {
    exists|j: int| 0 <= j < list.len() && (#[trigger] list[j]).destination == to
}

/// No two entries of one list lead to the same node.
pub open spec fn lists_are_sets(lines: Seq<Vec<Edge>>) -> bool {
    forall|u: usize, j: int, k: int|
        #![trigger lines[u as int]@[j], lines[u as int]@[k]]
        u < CAPACITY && 0 <= j < k < lines[u as int]@.len() ==> lines[u as int]@[j].destination
            != lines[u as int]@[k].destination
}

/// `after` is `lines` but for the list of `from`, which is `list`.
pub open spec fn differs_at(
    lines: Seq<Vec<Edge>>,
    after: Seq<Vec<Edge>>,
    from: usize,
    list: Seq<Edge>,
) -> bool {
    &&& from < CAPACITY
    &&& after.len() == lines.len()
    &&& after[from as int]@ == list
    &&& forall|u: int| 0 <= u < lines.len() && u != from ==> #[trigger] after[u] == lines[u]
}

/// The place of the line to `to` in `list`, `None` where the list has none.
pub(crate) fn position(list: &Vec<Edge>, to: usize) -> (place: Option<usize>)
    ensures
        match place {
            Some(j) => j < list@.len() && list@[j as int].destination == to,
            None => !listed(list@, to),
        },
{
    let mut j: usize = 0;
    while j < list.len()
        invariant
            j <= list@.len(),
            forall|k: int| 0 <= k < j ==> (#[trigger] list@[k]).destination != to,
        decreases list@.len() - j,
    {
        if list[j].destination == to {
            return Some(j);
        }
        j += 1;
    }
    None
}

/// Giving a line another length keeps the lists in step with the map.
pub proof fn lemma_line_set(
    lines: Seq<Vec<Edge>>,
    after: Seq<Vec<Edge>>,
    edges: Edges,
    from: usize,
    j: int,
    length: u16,
)
    requires
        lists_hold(lines, edges),
        lists_are_sets(lines),
        from < CAPACITY,
        0 <= j < lines[from as int]@.len(),
        differs_at(
            lines,
            after,
            from,
            lines[from as int]@.update(
                j,
                Edge { destination: lines[from as int]@[j].destination, distance: length },
            ),
        ),
    ensures
        lists_hold(after, edges.insert((from, lines[from as int]@[j].destination), length)),
        lists_are_sets(after),
{
    let to: usize = lines[from as int]@[j].destination;
    let grown = edges.insert((from, to), length);
    assert forall|u: usize, k: int| u < CAPACITY && 0 <= k < after[u as int]@.len() implies {
        let e = #[trigger] after[u as int]@[k];
        &&& e.destination < CAPACITY
        &&& grown.contains_key((u, e.destination))
        &&& grown[(u, e.destination)] == e.distance
    } by {
        let e = lines[u as int]@[k];
        if u == from && k != j {
            assert(lines[from as int]@[j].destination != e.destination);
        }
    }
    assert forall|u: usize, v: usize| #[trigger] grown.contains_key((u, v)) implies {
        &&& u < CAPACITY
        &&& v < CAPACITY
        &&& listed(after[u as int]@, v)
    } by {
        if u == from && v == to {
            assert(after[u as int]@[j].destination == v);
        } else {
            assert(edges.contains_key((u, v)));
            let k: int = choose|k: int|
                0 <= k < lines[u as int]@.len() && (#[trigger] lines[u as int]@[k]).destination
                    == v;
            assert(after[u as int]@[k].destination == v);
        }
    }
    assert forall|u: usize, a: int, b: int|
        #![trigger after[u as int]@[a], after[u as int]@[b]]
        u < CAPACITY && 0 <= a < b < after[u as int]@.len() implies after[u as int]@[a].destination
        != after[u as int]@[b].destination by {
        assert(lines[u as int]@[a].destination != lines[u as int]@[b].destination);
    }
}

/// A new line at the end of a list that had none to its destination keeps
/// the lists in step with the map.
pub proof fn lemma_line_pushed(
    lines: Seq<Vec<Edge>>,
    after: Seq<Vec<Edge>>,
    edges: Edges,
    from: usize,
    e: Edge,
)
    requires
        lists_hold(lines, edges),
        lists_are_sets(lines),
        from < CAPACITY,
        e.destination < CAPACITY,
        !listed(lines[from as int]@, e.destination),
        differs_at(lines, after, from, lines[from as int]@.push(e)),
    ensures
        lists_hold(after, edges.insert((from, e.destination), e.distance)),
        lists_are_sets(after),
{
    let grown = edges.insert((from, e.destination), e.distance);
    let last: int = lines[from as int]@.len() as int;
    assert forall|u: usize, k: int| u < CAPACITY && 0 <= k < after[u as int]@.len() implies {
        let f = #[trigger] after[u as int]@[k];
        &&& f.destination < CAPACITY
        &&& grown.contains_key((u, f.destination))
        &&& grown[(u, f.destination)] == f.distance
    } by {
        if !(u == from && k == last) {
            let f = lines[u as int]@[k];
            assert(edges.contains_key((u, f.destination)));
        }
    }
    assert forall|u: usize, v: usize| #[trigger] grown.contains_key((u, v)) implies {
        &&& u < CAPACITY
        &&& v < CAPACITY
        &&& listed(after[u as int]@, v)
    } by {
        if u == from && v == e.destination {
            assert(after[u as int]@[last].destination == v);
        } else {
            assert(edges.contains_key((u, v)));
            let k: int = choose|k: int|
                0 <= k < lines[u as int]@.len() && (#[trigger] lines[u as int]@[k]).destination
                    == v;
            assert(after[u as int]@[k].destination == v);
        }
    }
    assert forall|u: usize, a: int, b: int|
        #![trigger after[u as int]@[a], after[u as int]@[b]]
        u < CAPACITY && 0 <= a < b < after[u as int]@.len() implies after[u as int]@[a].destination
        != after[u as int]@[b].destination by {
        if u == from && b == last {
            assert(lines[from as int]@[a].destination != e.destination);
        } else {
            assert(lines[u as int]@[a].destination != lines[u as int]@[b].destination);
        }
    }
}

/// Taking a line out of its list keeps the lists in step with the map.
pub proof fn lemma_line_removed(
    lines: Seq<Vec<Edge>>,
    after: Seq<Vec<Edge>>,
    edges: Edges,
    from: usize,
    j: int,
)
    requires
        lists_hold(lines, edges),
        lists_are_sets(lines),
        from < CAPACITY,
        0 <= j < lines[from as int]@.len(),
        differs_at(lines, after, from, lines[from as int]@.remove(j)),
    ensures
        lists_hold(after, edges.remove((from, lines[from as int]@[j].destination))),
        lists_are_sets(after),
{
    let to: usize = lines[from as int]@[j].destination;
    let less = edges.remove((from, to));
    assert forall|u: usize, k: int| u < CAPACITY && 0 <= k < after[u as int]@.len() implies {
        let f = #[trigger] after[u as int]@[k];
        &&& f.destination < CAPACITY
        &&& less.contains_key((u, f.destination))
        &&& less[(u, f.destination)] == f.distance
    } by {
        if u == from {
            let shifted: int = if k < j {
                k
            } else {
                k + 1
            };
            let f = lines[u as int]@[shifted];
            assert(after[u as int]@[k] == f);
            assert(edges.contains_key((u, f.destination)));
            if shifted < j {
                assert(lines[u as int]@[shifted].destination != lines[u as int]@[j].destination);
            } else {
                assert(lines[u as int]@[j].destination != lines[u as int]@[shifted].destination);
            }
        } else {
            let f = lines[u as int]@[k];
            assert(edges.contains_key((u, f.destination)));
        }
    }
    assert forall|u: usize, v: usize| #[trigger] less.contains_key((u, v)) implies {
        &&& u < CAPACITY
        &&& v < CAPACITY
        &&& listed(after[u as int]@, v)
    } by {
        assert(edges.contains_key((u, v)));
        let k: int = choose|k: int|
            0 <= k < lines[u as int]@.len() && (#[trigger] lines[u as int]@[k]).destination == v;
        if u == from {
            let shifted: int = if k < j {
                k
            } else {
                k - 1
            };
            assert(after[u as int]@[shifted].destination == v);
        } else {
            assert(after[u as int]@[k].destination == v);
        }
    }
    assert forall|u: usize, a: int, b: int|
        #![trigger after[u as int]@[a], after[u as int]@[b]]
        u < CAPACITY && 0 <= a < b < after[u as int]@.len() implies after[u as int]@[a].destination
        != after[u as int]@[b].destination by {
        if u == from {
            let a0: int = if a < j {
                a
            } else {
                a + 1
            };
            let b0: int = if b < j {
                b
            } else {
                b + 1
            };
            assert(lines[u as int]@[a0].destination != lines[u as int]@[b0].destination);
        } else {
            assert(lines[u as int]@[a].destination != lines[u as int]@[b].destination);
        }
    }
}

/// With the last line that left a node gone, the lists are in step with a
/// map that has no line from that node.
pub proof fn lemma_lines_cleared(
    lines: Seq<Vec<Edge>>,
    after: Seq<Vec<Edge>>,
    edges: Edges,
    id: usize,
)
    requires
        lists_hold(lines, edges),
        lists_are_sets(lines),
        differs_at(lines, after, id, Seq::<Edge>::empty()),
    ensures
        lists_hold(after, edges.remove_keys(Set::new(|ends: (usize, usize)| ends.0 == id))),
        lists_are_sets(after),
{
    let less = edges.remove_keys(Set::new(|ends: (usize, usize)| ends.0 == id));
    assert forall|u: usize, k: int| u < CAPACITY && 0 <= k < after[u as int]@.len() implies {
        let f = #[trigger] after[u as int]@[k];
        &&& f.destination < CAPACITY
        &&& less.contains_key((u, f.destination))
        &&& less[(u, f.destination)] == f.distance
    } by {
        let f = lines[u as int]@[k];
        assert(edges.contains_key((u, f.destination)));
    }
    assert forall|u: usize, v: usize| #[trigger] less.contains_key((u, v)) implies {
        &&& u < CAPACITY
        &&& v < CAPACITY
        &&& listed(after[u as int]@, v)
    } by {
        assert(edges.contains_key((u, v)));
        let k: int = choose|k: int|
            0 <= k < lines[u as int]@.len() && (#[trigger] lines[u as int]@[k]).destination == v;
        assert(after[u as int]@[k].destination == v);
    }
    assert forall|u: usize, a: int, b: int|
        #![trigger after[u as int]@[a], after[u as int]@[b]]
        u < CAPACITY && 0 <= a < b < after[u as int]@.len() implies after[u as int]@[a].destination
        != after[u as int]@[b].destination by {
        assert(lines[u as int]@[a].destination != lines[u as int]@[b].destination);
    }
}

} // verus!
