use route_generator::graph::{Edge, Graph, NodeId};
use route_generator::parser::ApprovedHighwayType;
use route_generator::tcas::{CongestionStats, EdgeCongestionLevel, TCASAdapter};
use route_generator::weather::{produce_grid, ImagePixel, PixelColor, GRID_SIZE};

fn edge(from: i64, to: i64) -> Edge {
    Edge::new(NodeId(from), NodeId(to), 1, ApprovedHighwayType::NA)
}

fn key(from: i64, to: i64) -> i128 {
    route_generator::graph::edge_key_of(NodeId(from), NodeId(to))
}

#[test]
fn congestion_lists_the_drones_of_each_directed_edge() {
    let mut stats = CongestionStats::new();
    assert!(stats.congestion().is_empty());
    stats.add_congestion(edge(1, 2), 7);
    stats.add_congestion(edge(1, 2), 8);
    stats.add_congestion(edge(1, 2), 7);
    stats.add_congestion(edge(2, 1), 9);

    assert_eq!(stats.congestion().len(), 2);
    assert_eq!(stats.congestion().get(&key(1, 2)), Some(&vec![7, 8, 7]));
    assert_eq!(stats.congestion().get(&key(2, 1)), Some(&vec![9]));

    stats.remove_congestion(7, edge(1, 2));
    assert_eq!(stats.congestion().get(&key(1, 2)), Some(&vec![8]));
    stats.remove_congestion(7, edge(1, 2));
    assert_eq!(stats.congestion().get(&key(1, 2)), Some(&vec![8]));
    stats.remove_congestion(9, edge(2, 1));
    assert_eq!(stats.congestion().get(&key(2, 1)), Some(&vec![]));
    stats.remove_congestion(9, edge(5, 6));
    assert_eq!(stats.congestion().len(), 2);
    assert!(CongestionStats::new_random().congestion().is_empty());
    assert!(CongestionStats::default().congestion().is_empty());
    let copy = stats.clone();
    assert_eq!(copy.congestion().get(&key(1, 2)), Some(&vec![8]));
    assert!(format!("{:?}", copy).contains("congestion"));
}

#[test]
fn the_adapter_knows_the_edges_of_the_graph() {
    let mut g = Graph::new();
    g.add_edge(edge(1, 2));
    let adapter = TCASAdapter::new();
    assert_eq!(
        adapter.read_edge_usage(&g, edge(1, 2)),
        Some(EdgeCongestionLevel::NA)
    );
    assert_eq!(adapter.read_edge_usage(&g, edge(2, 1)), None);
    assert_eq!(TCASAdapter::default().read_edge_usage(&g, edge(3, 4)), None);
}

fn pixel(x: u32, y: u32, r: u8, g: u8, b: u8) -> ImagePixel {
    ImagePixel {
        x,
        y,
        color: PixelColor { r, g, b, a: 255 },
    }
}

#[test]
fn each_cell_of_the_grid_holds_its_brightest_pixel() {
    let clear = PixelColor { r: 0, g: 0, b: 0, a: 0 };
    let pixels = vec![
        // cell (0, 0): red (luma 54), then green (182), then blue (18)
        pixel(0, 0, 255, 0, 0),
        pixel(1, 1, 0, 255, 0),
        pixel(1, 0, 0, 0, 255),
        // cell (3, 2): two pixels of equal brightness, the first stays
        pixel(6, 4, 100, 100, 100),
        pixel(7, 5, 100, 100, 100),
        pixel(7, 4, 99, 100, 100),
        // cell (99, 99)
        pixel(199, 199, 1, 2, 3),
        // too dark to show: luma of (1, 0, 0) is 0
        pixel(20, 20, 1, 0, 0),
        // behind the raster
        pixel(0, 200, 255, 255, 255),
    ];
    let grid = produce_grid(200, &pixels).unwrap();
    assert_eq!(grid.len(), GRID_SIZE * GRID_SIZE);
    assert_eq!(grid[0], PixelColor { r: 0, g: 255, b: 0, a: 255 });
    assert_eq!(grid[2 * 100 + 3], PixelColor { r: 100, g: 100, b: 100, a: 255 });
    assert_eq!(grid[99 * 100 + 99], PixelColor { r: 1, g: 2, b: 3, a: 255 });
    assert_eq!(grid[10 * 100 + 10], clear);
    assert_eq!(grid.iter().filter(|c| **c != clear).count(), 3);
    assert!(grid[0].blocked());
    assert!(!clear.blocked());
    assert!(PixelColor { r: 0, g: 0, b: 1, a: 0 }.blocked());
    assert!(!PixelColor { r: 0, g: 0, b: 0, a: 255 }.blocked());
}

#[test]
fn brightness_weighs_green_most() {
    // One cell per pixel: the image is as wide as the raster.
    let order = |first: (u8, u8, u8), second: (u8, u8, u8)| {
        let pixels = vec![
            pixel(5, 5, first.0, first.1, first.2),
            pixel(5, 5, second.0, second.1, second.2),
        ];
        let grid = produce_grid(100, &pixels).unwrap();
        let c = grid[5 * 100 + 5];
        (c.r, c.g, c.b)
    };
    // luma 2126 * 47 / 10000 = 9 against 722 * 138 / 10000 = 9: the first stays
    assert_eq!(order((47, 0, 0), (0, 0, 138)), (47, 0, 0));
    // 722 * 139 / 10000 = 10 is brighter
    assert_eq!(order((47, 0, 0), (0, 0, 139)), (0, 0, 139));
    // 7152 * 14 / 10000 = 10 against 2126 * 51 / 10000 = 10
    assert_eq!(order((0, 14, 0), (51, 0, 0)), (0, 14, 0));
    assert_eq!(order((0, 14, 0), (52, 0, 0)), (52, 0, 0));
    assert_eq!(order((255, 255, 254), (255, 255, 255)), (255, 255, 255));
}

#[test]
fn an_image_narrower_than_the_grid_yields_nothing() {
    assert!(produce_grid(99, &vec![pixel(0, 0, 9, 9, 9)]).is_none());
    assert!(produce_grid(0, &vec![]).is_none());
    let blank = produce_grid(100, &vec![]).unwrap();
    assert!(blank
        .iter()
        .all(|c| *c == PixelColor { r: 0, g: 0, b: 0, a: 0 }));
    // In an image 250 wide a cell is two pixels wide, so column 249 falls into the row below.
    let wrapped = produce_grid(250, &vec![pixel(249, 0, 200, 200, 200)]).unwrap();
    assert_eq!(wrapped[124].r, 200);
}
