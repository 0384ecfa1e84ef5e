//! What the mouse does to the graph and to the selection, by the mode that
//! the editor is in.

use crate::graph::DijkstraGraph;
use crate::graph::DijkstraNode;
use crate::model::GraphView;
use vstd::prelude::*;

verus! {

/// What the mouse is used for.
#[derive(PartialEq, Eq, Clone, Copy, Debug)]
pub enum Mode {
    /// Points are dragged about.
    Move,
    /// Points are created and removed.
    Point,
    /// Lines are drawn and removed.
    Line,
    /// Start and end of the path are chosen.
    Path,
}

/// The graph after the mouse was handled. The first of these that applies
/// is done, and nothing where none applies.
///
/// In `Move`, with a point selected and the left button held without a
/// press of the right one, the point follows the pointer; a press of the
/// left button on a point does not move anything.
///
/// In `Point`, a press of the left button alone on empty canvas, with no
/// point selected, creates a point; a press of the right button alone on a
/// point removes it.
///
/// In `Line`, with a point selected, a press of the left button alone on a
/// point draws a line of length `line_length` from the selected point to
/// that one, and a press of the right button alone on a point removes the
/// line between them.
///
/// In `Path`, with no point selected, a press of the left button alone
/// chooses the point under the pointer as start, or leaves the graph
/// without start on empty canvas; a press of the right button alone does
/// the same with the end. The cached path is forgotten in each case.
pub open spec fn graph_after(
    left_pressed: bool,
    left_down: bool,
    right_pressed: bool,
    mode: Mode,
    graph: GraphView,
    hovered: Option<usize>,
    selected: Option<usize>,
    line_length: u16,
    mouse_x: i32,
    mouse_y: i32,
) -> GraphView {
    let at = DijkstraNode { x: mouse_x, y: mouse_y };
    match mode {
        Mode::Move => {
            if left_pressed && !right_pressed && hovered is Some {
                graph
            } else if left_down && !right_pressed && selected is Some {
                graph.move_point(selected.unwrap(), at)
            } else {
                graph
            }
        },
        Mode::Point => {
            if left_pressed && !right_pressed && hovered is None && selected is None {
                graph.append_point(at)
            } else if !left_pressed && right_pressed && hovered is Some {
                graph.remove_point(hovered.unwrap())
            } else {
                graph
            }
        },
        Mode::Line => {
            if hovered is Some && selected is Some && left_pressed && !right_pressed {
                graph.add_line(selected.unwrap(), hovered.unwrap(), line_length)
            } else if hovered is Some && selected is Some && !left_pressed
                && right_pressed {
                graph.remove_line(selected.unwrap(), hovered.unwrap())
            } else {
                graph
            }
        },
        Mode::Path => {
            if selected is Some {
                graph
            } else if left_pressed && !right_pressed {
                match hovered {
                    Some(id) => graph.set_start(id).clear_path(),
                    None => graph.clear_start(),
                }
            } else if !left_pressed && right_pressed {
                match hovered {
                    Some(id) => graph.set_end(id).clear_path(),
                    None => graph.clear_end(),
                }
            } else {
                graph
            }
        },
    }
}

/// The selected point after the mouse was handled.
///
/// In `Move`, a press of the left button alone on a point selects it; the
/// selection is dropped when the left button is released without a press
/// of the right one, unless the point is being dragged.
///
/// In `Line`, a press of the left button alone on a point selects it where
/// none is selected. With a point selected, a press of either button on
/// empty canvas drops the selection, and so does the press that draws or
/// removes a line.
///
/// `Point` and `Path` leave the selection as it is.
pub open spec fn selection_after(
    left_pressed: bool,
    left_down: bool,
    left_released: bool,
    right_pressed: bool,
    mode: Mode,
    hovered: Option<usize>,
    selected: Option<usize>,
) -> Option<usize> {
    match mode {
        Mode::Move => {
            if left_pressed && !right_pressed && hovered is Some {
                hovered
            } else if left_down && !right_pressed && selected is Some {
                selected
            } else if left_released && !right_pressed {
                None
            } else {
                selected
            }
        },
        Mode::Point => selected,
        Mode::Line => {
            if selected is None {
                if left_pressed && !right_pressed && hovered is Some {
                    hovered
                } else {
                    selected
                }
            } else if hovered is None {
                if left_pressed || right_pressed {
                    None
                } else {
                    selected
                }
            } else if left_pressed != right_pressed {
                None
            } else {
                selected
            }
        },
        Mode::Path => selected,
    }
}

/// Handles the mouse: changes the graph and the selection as the mode, the
/// buttons, the point under the pointer and the selected point ask for.
/// `mouse_x` and `mouse_y` say where the pointer is.
pub fn handle_mouse_input(
    left_mouse_pressed: bool,
    left_mouse_down: bool,
    left_mouse_released: bool,
    right_mouse_pressed: bool,
    mode: &Mode,
    graph: &mut DijkstraGraph,
    hovered_point_id_option: &Option<usize>,
    selected_point_id_option: &mut Option<usize>,
    line_length: &mut u16,
    mouse_x: i32,
    mouse_y: i32,
)
    requires
        old(graph).wf(),
    ensures
        final(graph).wf(),
        final(graph)@ == graph_after(
            left_mouse_pressed,
            left_mouse_down,
            right_mouse_pressed,
            *mode,
            old(graph)@,
            *hovered_point_id_option,
            *old(selected_point_id_option),
            *old(line_length),
            mouse_x,
            mouse_y,
        ),
        *final(selected_point_id_option) == selection_after(
            left_mouse_pressed,
            left_mouse_down,
            left_mouse_released,
            right_mouse_pressed,
            *mode,
            *hovered_point_id_option,
            *old(selected_point_id_option),
        ),
        *final(line_length) == *old(line_length),
{
    let left_only = left_mouse_pressed && !right_mouse_pressed;
    let right_only = !left_mouse_pressed && right_mouse_pressed;
    let hovered = *hovered_point_id_option;
    let selected = *selected_point_id_option;
    match mode {
        Mode::Move => {
            if left_only && hovered.is_some() {
                *selected_point_id_option = hovered;
            } else if left_mouse_down && !right_mouse_pressed && selected.is_some() {
                match graph.get_mut(selected.unwrap()) {
                    Some(point) => {
                        point.x = mouse_x;
                        point.y = mouse_y;
                    },
                    None => {},
                }
            } else if left_mouse_released && !right_mouse_pressed {
                *selected_point_id_option = None;
            }
        },
        Mode::Point => {
            if left_only && hovered.is_none() && selected.is_none() {
                graph.append_point(mouse_x, mouse_y);
            } else if right_only && hovered.is_some() {
                graph.remove_point(hovered.unwrap());
            }
        },
        Mode::Line => {
            match (hovered, selected) {
                (Some(hovered_point_id), None) => {
                    if left_only {
                        *selected_point_id_option = Some(hovered_point_id);
                    }
                },
                (None, Some(_)) => {
                    if left_mouse_pressed || right_mouse_pressed {
                        *selected_point_id_option = None;
                    }
                },
                (Some(hovered_point_id), Some(selected_point_id)) => {
                    if left_only {
                        graph.add_line(selected_point_id, hovered_point_id, *line_length);
                        *selected_point_id_option = None;
                    } else if right_only {
                        graph.remove_line(selected_point_id, hovered_point_id);
                        *selected_point_id_option = None;
                    }
                },
                (None, None) => {},
            }
        },
        Mode::Path => {
            match (hovered, selected) {
                (Some(hovered_point_id), None) => {
                    if left_only {
                        graph.set_start(hovered_point_id);
                        graph.clear_path();
                    } else if right_only {
                        graph.set_end(hovered_point_id);
                        graph.clear_path();
                    }
                },
                (None, None) => {
                    if left_only {
                        graph.clear_start();
                        graph.clear_path();
                    } else if right_only {
                        graph.clear_end();
                        graph.clear_path();
                    }
                },
                _ => {},
            }
        },
    }
}

} // verus!
