//! Three graphs to try the search on: a small, a medium-sized and a large
//! one.

use crate::graph::DijkstraGraph;
use crate::graph::DijkstraNode;
use crate::model::GraphView;
use vstd::prelude::*;

verus! {

/// The small sample graph: 8 nodes and 13 lines, without start, end or path.
pub open spec fn small_graph() -> GraphView {
    GraphView {
        nodes: map![
            0usize => DijkstraNode { x: 942, y: 355 },
            1usize => DijkstraNode { x: 720, y: 208 },
            2usize => DijkstraNode { x: 198, y: 342 },
            3usize => DijkstraNode { x: 463, y: 507 },
            4usize => DijkstraNode { x: 735, y: 513 },
            5usize => DijkstraNode { x: 458, y: 346 },
            6usize => DijkstraNode { x: 468, y: 202 },
            7usize => DijkstraNode { x: 721, y: 360 },
        ],
        edges: map![
            (3usize, 4usize) => 3u16,
            (2usize, 5usize) => 5u16,
            (5usize, 7usize) => 4u16,
            (6usize, 1usize) => 5u16,
            (1usize, 0usize) => 5u16,
            (5usize, 1usize) => 7u16,
            (3usize, 7usize) => 5u16,
            (7usize, 0usize) => 4u16,
            (2usize, 6usize) => 4u16,
            (2usize, 3usize) => 7u16,
            (6usize, 7usize) => 6u16,
            (5usize, 4usize) => 8u16,
            (4usize, 0usize) => 3u16,
        ],
        start: None,
        end: None,
        path: None,
    }
}

/// The medium-sized sample graph: 12 nodes and 16 lines, without start, end or path.
pub open spec fn medium_graph() -> GraphView {
    GraphView {
        nodes: map![
            0usize => DijkstraNode { x: 959, y: 211 },
            1usize => DijkstraNode { x: 967, y: 394 },
            2usize => DijkstraNode { x: 946, y: 532 },
            3usize => DijkstraNode { x: 144, y: 377 },
            4usize => DijkstraNode { x: 775, y: 295 },
            5usize => DijkstraNode { x: 734, y: 523 },
            6usize => DijkstraNode { x: 559, y: 493 },
            7usize => DijkstraNode { x: 570, y: 361 },
            8usize => DijkstraNode { x: 569, y: 200 },
            9usize => DijkstraNode { x: 353, y: 206 },
            10usize => DijkstraNode { x: 355, y: 350 },
            11usize => DijkstraNode { x: 342, y: 488 },
        ],
        edges: map![
            (10usize, 6usize) => 4u16,
            (7usize, 1usize) => 5u16,
            (3usize, 9usize) => 4u16,
            (11usize, 6usize) => 4u16,
            (3usize, 11usize) => 6u16,
            (5usize, 2usize) => 20u16,
            (7usize, 4usize) => 3u16,
            (11usize, 7usize) => 3u16,
            (8usize, 4usize) => 3u16,
            (10usize, 7usize) => 3u16,
            (3usize, 10usize) => 5u16,
            (4usize, 0usize) => 1u16,
            (8usize, 0usize) => 5u16,
            (9usize, 8usize) => 4u16,
            (6usize, 5usize) => 7u16,
            (4usize, 1usize) => 2u16,
        ],
        start: None,
        end: None,
        path: None,
    }
}

/// The large sample graph: 19 nodes and 32 lines, without start, end or path.
pub open spec fn large_graph() -> GraphView {
    GraphView {
        nodes: map![
            0usize => DijkstraNode { x: 595, y: 640 },
            1usize => DijkstraNode { x: 864, y: 300 },
            2usize => DijkstraNode { x: 550, y: 369 },
            3usize => DijkstraNode { x: 280, y: 606 },
            4usize => DijkstraNode { x: 748, y: 127 },
            5usize => DijkstraNode { x: 177, y: 71 },
            6usize => DijkstraNode { x: 467, y: 84 },
            7usize => DijkstraNode { x: 260, y: 431 },
            8usize => DijkstraNode { x: 928, y: 642 },
            9usize => DijkstraNode { x: 466, y: 181 },
            10usize => DijkstraNode { x: 433, y: 27 },
            11usize => DijkstraNode { x: 667, y: 52 },
            12usize => DijkstraNode { x: 847, y: 75 },
            13usize => DijkstraNode { x: 734, y: 270 },
            14usize => DijkstraNode { x: 931, y: 233 },
            15usize => DijkstraNode { x: 904, y: 389 },
            16usize => DijkstraNode { x: 423, y: 467 },
            17usize => DijkstraNode { x: 445, y: 551 },
            18usize => DijkstraNode { x: 691, y: 559 },
        ],
        edges: map![
            (11usize, 12usize) => 1u16,
            (5usize, 7usize) => 12u16,
            (13usize, 2usize) => 1u16,
            (15usize, 8usize) => 10u16,
            (14usize, 8usize) => 14u16,
            (1usize, 18usize) => 10u16,
            (17usize, 18usize) => 3u16,
            (16usize, 17usize) => 2u16,
            (7usize, 3usize) => 1u16,
            (0usize, 8usize) => 1u16,
            (6usize, 4usize) => 1u16,
            (15usize, 2usize) => 2u16,
            (2usize, 7usize) => 1u16,
            (2usize, 16usize) => 3u16,
            (14usize, 15usize) => 1u16,
            (4usize, 13usize) => 3u16,
            (9usize, 2usize) => 8u16,
            (12usize, 1usize) => 2u16,
            (11usize, 4usize) => 2u16,
            (10usize, 11usize) => 1u16,
            (5usize, 10usize) => 2u16,
            (9usize, 4usize) => 3u16,
            (4usize, 1usize) => 1u16,
            (15usize, 16usize) => 5u16,
            (5usize, 6usize) => 1u16,
            (17usize, 0usize) => 1u16,
            (5usize, 9usize) => 2u16,
            (1usize, 2usize) => 1u16,
            (18usize, 8usize) => 4u16,
            (16usize, 3usize) => 2u16,
            (12usize, 14usize) => 1u16,
            (3usize, 0usize) => 1u16,
        ],
        start: None,
        end: None,
        path: None,
    }
}

impl DijkstraGraph {
    /// Replaces the graph with the small sample graph.
    pub fn insert_small_graph(&mut self)
        ensures
            final(self).wf(),
            final(self)@ == small_graph(),
    {
        self.clear();
        self.add_point(0, 942, 355);
        self.add_point(1, 720, 208);
        self.add_point(2, 198, 342);
        self.add_point(3, 463, 507);
        self.add_point(4, 735, 513);
        self.add_point(5, 458, 346);
        self.add_point(6, 468, 202);
        self.add_point(7, 721, 360);
        self.add_line(3, 4, 3);
        self.add_line(2, 5, 5);
        self.add_line(5, 7, 4);
        self.add_line(6, 1, 5);
        self.add_line(1, 0, 5);
        self.add_line(5, 1, 7);
        self.add_line(3, 7, 5);
        self.add_line(7, 0, 4);
        self.add_line(2, 6, 4);
        self.add_line(2, 3, 7);
        self.add_line(6, 7, 6);
        self.add_line(5, 4, 8);
        self.add_line(4, 0, 3);
        assert(self@ =~= small_graph());
    }

    /// Replaces the graph with the medium-sized sample graph.
    pub fn insert_medium_graph(&mut self)
        ensures
            final(self).wf(),
            final(self)@ == medium_graph(),
    {
        self.clear();
        self.add_point(0, 959, 211);
        self.add_point(1, 967, 394);
        self.add_point(2, 946, 532);
        self.add_point(3, 144, 377);
        self.add_point(4, 775, 295);
        self.add_point(5, 734, 523);
        self.add_point(6, 559, 493);
        self.add_point(7, 570, 361);
        self.add_point(8, 569, 200);
        self.add_point(9, 353, 206);
        self.add_point(10, 355, 350);
        self.add_point(11, 342, 488);
        self.add_line(10, 6, 4);
        self.add_line(7, 1, 5);
        self.add_line(3, 9, 4);
        self.add_line(11, 6, 4);
        self.add_line(3, 11, 6);
        self.add_line(5, 2, 20);
        self.add_line(7, 4, 3);
        self.add_line(11, 7, 3);
        self.add_line(8, 4, 3);
        self.add_line(10, 7, 3);
        self.add_line(3, 10, 5);
        self.add_line(4, 0, 1);
        self.add_line(8, 0, 5);
        self.add_line(9, 8, 4);
        self.add_line(6, 5, 7);
        self.add_line(4, 1, 2);
        assert(self@ =~= medium_graph());
    }

    /// Replaces the graph with the large sample graph.
    pub fn insert_large_graph(&mut self)
        ensures
            final(self).wf(),
            final(self)@ == large_graph(),
    {
        self.clear();
        self.add_point(0, 595, 640);
        self.add_point(1, 864, 300);
        self.add_point(2, 550, 369);
        self.add_point(3, 280, 606);
        self.add_point(4, 748, 127);
        self.add_point(5, 177, 71);
        self.add_point(6, 467, 84);
        self.add_point(7, 260, 431);
        self.add_point(8, 928, 642);
        self.add_point(9, 466, 181);
        self.add_point(10, 433, 27);
        self.add_point(11, 667, 52);
        self.add_point(12, 847, 75);
        self.add_point(13, 734, 270);
        self.add_point(14, 931, 233);
        self.add_point(15, 904, 389);
        self.add_point(16, 423, 467);
        self.add_point(17, 445, 551);
        self.add_point(18, 691, 559);
        self.add_line(11, 12, 1);
        self.add_line(5, 7, 12);
        self.add_line(13, 2, 1);
        self.add_line(15, 8, 10);
        self.add_line(14, 8, 14);
        self.add_line(1, 18, 10);
        self.add_line(17, 18, 3);
        self.add_line(16, 17, 2);
        self.add_line(7, 3, 1);
        self.add_line(0, 8, 1);
        self.add_line(6, 4, 1);
        self.add_line(15, 2, 2);
        self.add_line(2, 7, 1);
        self.add_line(2, 16, 3);
        self.add_line(14, 15, 1);
        self.add_line(4, 13, 3);
        self.add_line(9, 2, 8);
        self.add_line(12, 1, 2);
        self.add_line(11, 4, 2);
        self.add_line(10, 11, 1);
        self.add_line(5, 10, 2);
        self.add_line(9, 4, 3);
        self.add_line(4, 1, 1);
        self.add_line(15, 16, 5);
        self.add_line(5, 6, 1);
        self.add_line(17, 0, 1);
        self.add_line(5, 9, 2);
        self.add_line(1, 2, 1);
        self.add_line(18, 8, 4);
        self.add_line(16, 3, 2);
        self.add_line(12, 14, 1);
        self.add_line(3, 0, 1);
        assert(self@ =~= large_graph());
    }
}

} // verus!
