//! A directed graph with weighted lines between at most a hundred points, as
//! an editor on a canvas builds it up click by click, and the shortest path
//! between two of its points.
//!
//! [`graph`] holds the store: points, lines, the chosen start and end, and
//! the path that the last search has found, which every change of the graph
//! forgets. [`model`] is the graph as a mathematical value, of which the
//! contracts of the store speak, and [`lists`] is how the store keeps its
//! lines. [`search`] holds the working state of one search and its single
//! steps; [`engine`] puts them together to Dijkstra's algorithm and proves
//! that what it finds is a shortest walk in the sense of [`paths`].
//! [`editor`] says what the mouse does to the graph, [`config`] how the
//! window of the editor is opened, [`samples`] holds three graphs to try
//! things on, and [`laws`] states what holds whatever is done.

pub mod config;
pub mod editor;
pub mod engine;
pub mod graph;
pub mod laws;
pub mod lists;
pub mod model;
pub mod paths;
pub mod samples;
pub mod search;
