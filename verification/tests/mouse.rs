use graph_visualiser::editor::handle_mouse_input;
use graph_visualiser::editor::Mode;
use graph_visualiser::graph::DijkstraGraph;

/// The state of the buttons: left pressed, left down, left released, right
/// pressed.
type Buttons = (bool, bool, bool, bool);

const NOTHING: Buttons = (false, false, false, false);
const LEFT_PRESS: Buttons = (true, true, false, false);
const LEFT_HELD: Buttons = (false, true, false, false);
const LEFT_RELEASE: Buttons = (false, false, true, false);
const RIGHT_PRESS: Buttons = (false, false, false, true);
const BOTH_PRESS: Buttons = (true, true, false, true);

fn handle(
    buttons: Buttons,
    mode: Mode,
    graph: &mut DijkstraGraph,
    hovered: Option<usize>,
    selected: &mut Option<usize>,
) {
    let mut line_length: u16 = 7;
    handle_mouse_input(
        buttons.0,
        buttons.1,
        buttons.2,
        buttons.3,
        &mode,
        graph,
        &hovered,
        selected,
        &mut line_length,
        300,
        200,
    );
    assert_eq!(line_length, 7);
}

fn lines_of(graph: &DijkstraGraph) -> Vec<(usize, u16, usize)> {
    graph
        .lines()
        .iter()
        .map(|(from, _, length, to, _)| (*from, *length, *to))
        .collect()
}

fn two_points() -> DijkstraGraph {
    let mut graph = DijkstraGraph::new();
    graph.add_point(0, 10, 10);
    graph.add_point(1, 50, 50);
    graph
}

fn place_of(graph: &DijkstraGraph, id: usize) -> (i32, i32) {
    let node = graph.get(id).expect("the point is there");
    (node.x, node.y)
}

#[test]
fn move_mode_selects_drags_and_releases() {
    let mut graph = two_points();
    let mut selected = None;
    handle(LEFT_PRESS, Mode::Move, &mut graph, Some(1), &mut selected);
    assert_eq!(selected, Some(1));
    assert_eq!(place_of(&graph, 1), (50, 50));
    handle(LEFT_HELD, Mode::Move, &mut graph, Some(1), &mut selected);
    assert_eq!(selected, Some(1));
    assert_eq!(place_of(&graph, 1), (300, 200));
    assert_eq!(place_of(&graph, 0), (10, 10));
    handle(LEFT_RELEASE, Mode::Move, &mut graph, Some(1), &mut selected);
    assert_eq!(selected, None);
    handle(LEFT_HELD, Mode::Move, &mut graph, Some(0), &mut selected);
    assert_eq!(place_of(&graph, 0), (10, 10));
}

#[test]
fn move_mode_ignores_the_right_button() {
    let mut graph = two_points();
    let mut selected = Some(0);
    handle(BOTH_PRESS, Mode::Move, &mut graph, Some(1), &mut selected);
    assert_eq!(selected, Some(0));
    assert_eq!(place_of(&graph, 0), (10, 10));
    handle(RIGHT_PRESS, Mode::Move, &mut graph, Some(1), &mut selected);
    assert_eq!(selected, Some(0));
    handle(
        (false, false, true, true),
        Mode::Move,
        &mut graph,
        None,
        &mut selected,
    );
    assert_eq!(selected, Some(0));
}

#[test]
fn move_mode_keeps_the_path() {
    let mut graph = two_points();
    graph.add_line(0, 1, 2);
    graph.set_start(0);
    graph.set_end(1);
    assert!(graph.find_shortest_path());
    let mut selected = Some(1);
    handle(LEFT_HELD, Mode::Move, &mut graph, None, &mut selected);
    assert_eq!(place_of(&graph, 1), (300, 200));
    assert_eq!(graph.get_path(), Some(vec![0, 1]));
    // A selected id that names no point moves nothing.
    let mut stale = Some(40);
    handle(LEFT_HELD, Mode::Move, &mut graph, None, &mut stale);
    assert_eq!(stale, Some(40));
    assert_eq!(graph.size(), 2);
}

#[test]
fn point_mode_creates_and_removes() {
    let mut graph = two_points();
    let mut selected = None;
    handle(LEFT_PRESS, Mode::Point, &mut graph, None, &mut selected);
    assert_eq!(graph.size(), 3);
    assert_eq!(place_of(&graph, 2), (300, 200));
    // Not on a point, and not while one is selected.
    handle(LEFT_PRESS, Mode::Point, &mut graph, Some(2), &mut selected);
    assert_eq!(graph.size(), 3);
    let mut other = Some(0);
    handle(LEFT_PRESS, Mode::Point, &mut graph, None, &mut other);
    assert_eq!(graph.size(), 3);
    assert_eq!(other, Some(0));
    handle(RIGHT_PRESS, Mode::Point, &mut graph, Some(0), &mut selected);
    assert_eq!(graph.size(), 2);
    assert!(graph.get(0).is_none());
    handle(RIGHT_PRESS, Mode::Point, &mut graph, None, &mut selected);
    handle(BOTH_PRESS, Mode::Point, &mut graph, Some(1), &mut selected);
    handle(BOTH_PRESS, Mode::Point, &mut graph, None, &mut selected);
    handle(NOTHING, Mode::Point, &mut graph, None, &mut selected);
    assert_eq!(graph.size(), 2);
    assert_eq!(selected, None);
}

#[test]
fn line_mode_draws_from_the_selected_point() {
    let mut graph = two_points();
    let mut selected = None;
    handle(LEFT_PRESS, Mode::Line, &mut graph, Some(0), &mut selected);
    assert_eq!(selected, Some(0));
    assert!(graph.lines().is_empty());
    handle(LEFT_PRESS, Mode::Line, &mut graph, Some(1), &mut selected);
    assert_eq!(selected, None);
    assert_eq!(lines_of(&graph), vec![(0, 7, 1)]);
}

#[test]
fn line_mode_removes_with_the_right_button() {
    let mut graph = two_points();
    graph.add_line(0, 1, 3);
    graph.add_line(1, 0, 4);
    let mut selected = None;
    handle(RIGHT_PRESS, Mode::Line, &mut graph, Some(0), &mut selected);
    assert_eq!(selected, None);
    let mut selected = Some(0);
    handle(RIGHT_PRESS, Mode::Line, &mut graph, Some(1), &mut selected);
    assert_eq!(selected, None);
    assert_eq!(lines_of(&graph), vec![(1, 4, 0)]);
}

#[test]
fn line_mode_drops_the_selection_on_empty_canvas() {
    let mut graph = two_points();
    for buttons in [LEFT_PRESS, RIGHT_PRESS, BOTH_PRESS] {
        let mut selected = Some(0);
        handle(buttons, Mode::Line, &mut graph, None, &mut selected);
        assert_eq!(selected, None);
    }
    let mut selected = Some(0);
    handle(LEFT_HELD, Mode::Line, &mut graph, None, &mut selected);
    assert_eq!(selected, Some(0));
    handle(BOTH_PRESS, Mode::Line, &mut graph, Some(1), &mut selected);
    assert_eq!(selected, Some(0));
    assert!(graph.lines().is_empty());
}

#[test]
fn path_mode_chooses_start_and_end() {
    let mut graph = two_points();
    graph.add_line(0, 1, 3);
    let mut selected = None;
    handle(LEFT_PRESS, Mode::Path, &mut graph, Some(0), &mut selected);
    handle(RIGHT_PRESS, Mode::Path, &mut graph, Some(1), &mut selected);
    assert_eq!(graph.start(), Some(0));
    assert_eq!(graph.end(), Some(1));
    assert_eq!(selected, None);
    assert!(graph.find_shortest_path());
    handle(RIGHT_PRESS, Mode::Path, &mut graph, None, &mut selected);
    assert_eq!(graph.end(), None);
    assert!(graph.get_path().is_none());
    handle(LEFT_PRESS, Mode::Path, &mut graph, None, &mut selected);
    assert_eq!(graph.start(), None);
}

#[test]
fn path_mode_forgets_the_path_even_on_a_stale_point() {
    let mut graph = two_points();
    graph.add_line(0, 1, 3);
    graph.set_start(0);
    graph.set_end(1);
    assert!(graph.find_shortest_path());
    let mut selected = None;
    handle(LEFT_PRESS, Mode::Path, &mut graph, Some(40), &mut selected);
    assert_eq!(graph.start(), Some(0));
    assert!(graph.get_path().is_none());
    assert!(graph.find_shortest_path());
    // With a point selected, or both buttons, nothing happens.
    let mut other = Some(1);
    handle(LEFT_PRESS, Mode::Path, &mut graph, Some(1), &mut other);
    handle(RIGHT_PRESS, Mode::Path, &mut graph, None, &mut other);
    handle(BOTH_PRESS, Mode::Path, &mut graph, Some(1), &mut selected);
    assert_eq!(graph.start(), Some(0));
    assert_eq!(graph.end(), Some(1));
    assert_eq!(graph.get_path(), Some(vec![0, 1]));
    assert_eq!(other, Some(1));
}
