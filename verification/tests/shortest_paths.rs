use graph_visualiser::graph::CAPACITY;
use graph_visualiser::graph::DijkstraGraph;
use rand::thread_rng;
use rand::Rng;

const UNREACHABLE: u64 = u64::MAX;

/// The distance between every two slots of `graph`, by trying every node as
/// a stop on the way.
fn all_distances(graph: &DijkstraGraph) -> Vec<Vec<u64>> {
    let mut d = vec![vec![UNREACHABLE; CAPACITY]; CAPACITY];
    for id in 0..CAPACITY {
        if graph.contains(id) {
            d[id][id] = 0;
        }
    }
    for (from, _, length, to, _) in graph.lines().iter() {
        if (*length as u64) < d[*from][*to] {
            d[*from][*to] = *length as u64;
        }
    }
    for over in 0..CAPACITY {
        for from in 0..CAPACITY {
            if d[from][over] == UNREACHABLE {
                continue;
            }
            for to in 0..CAPACITY {
                if d[over][to] == UNREACHABLE {
                    continue;
                }
                let through = d[from][over] + d[over][to];
                if through < d[from][to] {
                    d[from][to] = through;
                }
            }
        }
    }
    d
}

/// The weight of `path` in `graph`; panics where a step is no line.
fn weight_of(graph: &DijkstraGraph, path: &[usize]) -> u64 {
    let lines = graph.lines();
    let mut weight: u64 = 0;
    for step in path.windows(2) {
        let line = lines
            .iter()
            .find(|(from, _, _, to, _)| *from == step[0] && *to == step[1])
            .expect("every step of a path is a line");
        weight += line.2 as u64;
    }
    weight
}

/// Searches between every two points of `graph` and holds the answer
/// against the distances.
fn check_every_pair(graph: &mut DijkstraGraph) {
    let distances = all_distances(graph);
    for start in 0..CAPACITY {
        if !graph.contains(start) {
            continue;
        }
        for end in 0..CAPACITY {
            if !graph.contains(end) {
                continue;
            }
            graph.set_start(start);
            graph.set_end(end);
            let found = graph.find_shortest_path();
            assert_eq!(found, distances[start][end] != UNREACHABLE);
            match graph.get_path() {
                Some(path) => {
                    assert!(found);
                    assert_eq!(path.first(), Some(&start));
                    assert_eq!(path.last(), Some(&end));
                    assert_eq!(weight_of(graph, &path), distances[start][end]);
                    for (at, id) in path.iter().enumerate() {
                        assert!(!path[..at].contains(id));
                    }
                }
                None => assert!(!found),
            }
        }
    }
}

fn random_graph(points: usize, lines: usize, longest: u16) -> DijkstraGraph {
    let mut graph = DijkstraGraph::new();
    let mut rng = thread_rng();
    for _ in 0..points {
        graph.add_point(rng.gen_range(0..CAPACITY), 0, 0);
    }
    for _ in 0..lines {
        graph.add_line(
            rng.gen_range(0..CAPACITY),
            rng.gen_range(0..CAPACITY),
            rng.gen_range(0..=longest),
        );
    }
    graph
}

#[test]
fn sample_graphs_give_the_distance_between_every_pair() {
    let mut graph = DijkstraGraph::new();
    graph.insert_small_graph();
    check_every_pair(&mut graph);
    graph.insert_medium_graph();
    check_every_pair(&mut graph);
    graph.insert_large_graph();
    check_every_pair(&mut graph);
}

#[test]
fn random_graphs_give_the_distance_between_every_pair() {
    for _ in 0..20 {
        let mut graph = random_graph(25, 90, 12);
        check_every_pair(&mut graph);
    }
}

#[test]
fn random_graphs_with_many_ties_give_the_distance() {
    for _ in 0..20 {
        let mut graph = random_graph(30, 200, 2);
        check_every_pair(&mut graph);
    }
}

#[test]
fn search_without_start_or_end_finds_nothing() {
    let mut graph = DijkstraGraph::new();
    graph.insert_small_graph();
    assert!(!graph.find_shortest_path());
    assert!(graph.get_path().is_none());
    graph.set_start(2);
    assert!(!graph.find_shortest_path());
    assert!(graph.get_path().is_none());
    graph.clear_start();
    graph.set_end(0);
    assert!(!graph.find_shortest_path());
    assert!(graph.get_path().is_none());
    graph.set_start(2);
    assert!(graph.find_shortest_path());
}

#[test]
fn search_from_a_point_to_itself_takes_no_step() {
    let mut graph = DijkstraGraph::new();
    graph.insert_small_graph();
    graph.add_line(0, 0, 4);
    graph.set_start(0);
    graph.set_end(0);
    assert!(graph.find_shortest_path());
    assert_eq!(graph.get_path(), Some(vec![0]));
}

#[test]
fn search_between_points_without_lines_finds_nothing() {
    let mut graph = DijkstraGraph::new();
    graph.add_point(0, 0, 0);
    graph.add_point(1, 5, 5);
    graph.add_point(2, 9, 9);
    graph.add_line(2, 1, 3);
    graph.set_start(0);
    graph.set_end(1);
    assert!(!graph.find_shortest_path());
    assert!(graph.get_path().is_none());
}

#[test]
fn search_twice_gives_the_same_path() {
    for _ in 0..50 {
        let mut graph = DijkstraGraph::new();
        graph.insert_medium_graph();
        graph.set_start(3);
        graph.set_end(1);
        let first_answer = graph.find_shortest_path();
        let first_path = graph.get_path();
        let second_answer = graph.find_shortest_path();
        let second_path = graph.get_path();
        assert!(first_answer);
        assert_eq!(first_answer, second_answer);
        assert_eq!(first_path, second_path);

        graph.set_start(0);
        let first_answer = graph.find_shortest_path();
        let first_path = graph.get_path();
        let second_answer = graph.find_shortest_path();
        let second_path = graph.get_path();
        assert!(!first_answer);
        assert_eq!(first_answer, second_answer);
        assert_eq!(first_path, None);
        assert_eq!(second_path, None);
    }
}

#[test]
fn equal_paths_are_all_shortest() {
    // Between 3 and 1 the medium graph has three shortest paths, of weight
    // 13; whichever comes is one of them.
    for _ in 0..50 {
        let mut graph = DijkstraGraph::new();
        graph.insert_medium_graph();
        graph.set_start(3);
        graph.set_end(1);
        assert!(graph.find_shortest_path());
        let path = graph.get_path().expect("a path was found");
        assert_eq!(weight_of(&graph, &path), 13);
        assert!(
            path == vec![3, 10, 7, 1] || path == vec![3, 10, 7, 4, 1] || path == vec![3, 9, 8, 4, 1]
        );
    }
}

#[test]
fn tie_between_two_paths_weighs_thirteen() {
    let mut graph = DijkstraGraph::new();
    for id in 1..=8 {
        graph.add_point(id, 0, 0);
    }
    for (from, to, length) in [
        (4, 5, 3),
        (3, 6, 5),
        (6, 8, 4),
        (7, 2, 5),
        (2, 1, 5),
        (6, 2, 7),
        (4, 8, 5),
        (8, 1, 4),
        (3, 7, 4),
        (3, 4, 7),
        (7, 8, 6),
        (6, 5, 8),
        (5, 1, 3),
    ] {
        graph.add_line(from, to, length);
    }
    graph.set_start(3);
    graph.set_end(1);
    assert!(graph.find_shortest_path());
    let path = graph.get_path().expect("a path was found");
    assert_eq!(weight_of(&graph, &path), 13);
    assert!(path == vec![3, 4, 5, 1] || path == vec![3, 6, 8, 1]);
}

#[test]
fn three_equal_paths_weigh_twelve() {
    let mut graph = DijkstraGraph::new();
    for id in 1..=12 {
        graph.add_point(id, 0, 0);
    }
    for (from, to, length) in [
        (11, 7, 4),
        (8, 2, 5),
        (4, 10, 4),
        (12, 7, 4),
        (4, 12, 6),
        (8, 6, 4),
        (6, 3, 20),
        (8, 5, 3),
        (12, 8, 2),
        (9, 5, 3),
        (11, 8, 3),
        (4, 11, 5),
        (5, 1, 1),
        (9, 1, 5),
        (10, 9, 4),
        (7, 6, 7),
        (5, 2, 2),
    ] {
        graph.add_line(from, to, length);
    }
    graph.set_start(4);
    graph.set_end(1);
    for _ in 0..50 {
        graph.clear_path();
        assert!(graph.find_shortest_path());
        let path = graph.get_path().expect("a path was found");
        assert_eq!(weight_of(&graph, &path), 12);
        assert!(
            path == vec![4, 10, 9, 5, 1]
                || path == vec![4, 11, 8, 5, 1]
                || path == vec![4, 12, 8, 5, 1]
        );
    }
}

#[test]
fn cycle_is_passed_once() {
    let mut graph = DijkstraGraph::new();
    for id in 1..=12 {
        graph.add_point(id, 0, 0);
    }
    for (from, to, length) in [
        (7, 11, 1),
        (6, 12, 1),
        (7, 6, 1),
        (5, 4, 1),
        (6, 5, 1),
        (8, 7, 1),
        (4, 8, 1),
        (4, 1, 1),
        (8, 3, 1),
        (7, 10, 1),
        (1, 2, 1),
        (8, 9, 1),
    ] {
        graph.add_line(from, to, length);
    }
    graph.set_start(4);
    graph.set_end(5);
    assert!(graph.find_shortest_path());
    let path = graph.get_path().expect("a path was found");
    assert_eq!(path, vec![4, 8, 7, 6, 5]);
    assert_eq!(weight_of(&graph, &path), 4);
    // Round the cycle and back to the start.
    graph.set_end(4);
    graph.set_start(5);
    assert!(graph.find_shortest_path());
    assert_eq!(graph.get_path(), Some(vec![5, 4]));
}

#[test]
fn lines_of_no_length_and_loops_do_no_harm() {
    let mut graph = DijkstraGraph::new();
    for id in 0..5 {
        graph.add_point(id, 0, 0);
    }
    graph.add_line(0, 1, 0);
    graph.add_line(1, 0, 0);
    graph.add_line(1, 1, 0);
    graph.add_line(1, 2, 0);
    graph.add_line(2, 1, 0);
    graph.add_line(2, 3, 5);
    graph.add_line(0, 3, 6);
    graph.add_line(3, 3, 1);
    graph.set_start(0);
    graph.set_end(3);
    for _ in 0..20 {
        graph.clear_path();
        assert!(graph.find_shortest_path());
        let path = graph.get_path().expect("a path was found");
        assert_eq!(path, vec![0, 1, 2, 3]);
        assert_eq!(weight_of(&graph, &path), 5);
    }
    graph.set_end(4);
    assert!(!graph.find_shortest_path());
}

#[test]
fn longest_lines_through_every_point_do_not_overflow() {
    let mut graph = DijkstraGraph::new();
    for id in 0..CAPACITY {
        graph.append_point(0, 0);
        if id > 0 {
            graph.add_line(id - 1, id, u16::MAX);
        }
    }
    graph.set_start(0);
    graph.set_end(CAPACITY - 1);
    assert!(graph.find_shortest_path());
    let path = graph.get_path().expect("a path was found");
    assert_eq!(path, (0..CAPACITY).collect::<Vec<usize>>());
    assert_eq!(weight_of(&graph, &path), 99 * 65535);
    graph.set_start(CAPACITY - 1);
    graph.set_end(0);
    assert!(!graph.find_shortest_path());
}

#[test]
fn shorter_way_over_more_points_is_taken() {
    let mut graph = DijkstraGraph::new();
    for id in 0..4 {
        graph.add_point(id, 0, 0);
    }
    graph.add_line(0, 3, 10);
    graph.add_line(0, 1, 3);
    graph.add_line(1, 2, 3);
    graph.add_line(2, 3, 3);
    graph.set_start(0);
    graph.set_end(3);
    assert!(graph.find_shortest_path());
    assert_eq!(graph.get_path(), Some(vec![0, 1, 2, 3]));
    graph.add_line(2, 3, 5);
    assert!(graph.find_shortest_path());
    assert_eq!(graph.get_path(), Some(vec![0, 3]));
}
