use image_palette_recoloring::convex_hull::{RawFacet, RawHull, RawVertex};
use image_palette_recoloring::edges::EdgeData;
use image_palette_recoloring::ConvexHull;

type Hull3 = ConvexHull<[f64; 3], [f64; 3], f64>;

fn hull_of(points: &[[f64; 3]], facets: &[[u64; 3]]) -> Hull3 {
    let vertices = points
        .iter()
        .enumerate()
        .map(|(i, p)| RawVertex { id: i as u64, point: *p })
        .collect();
    let facets = facets
        .iter()
        .enumerate()
        .map(|(i, f)| RawFacet {
            id: i as u64,
            normal: [0.0, 0.0, 0.0],
            offset: 0.0,
            vertices: f.to_vec(),
            neighbors: vec![0, 0, 0],
            reversed: false,
        })
        .collect();
    Hull3::from_qhull_raw(RawHull { dim: 3, vertices, facets }).unwrap()
}

fn octahedron() -> Hull3 {
    hull_of(
        &[
            [1.0, 0.0, 0.0],
            [-1.0, 0.0, 0.0],
            [0.0, 1.0, 0.0],
            [0.0, -1.0, 0.0],
            [0.0, 0.0, 1.0],
            [0.0, 0.0, -1.0],
        ],
        &[
            [0, 2, 4],
            [2, 1, 4],
            [1, 3, 4],
            [3, 0, 4],
            [2, 0, 5],
            [1, 2, 5],
            [3, 1, 5],
            [0, 3, 5],
        ],
    )
}

#[test]
fn octahedron_has_twelve_edges_in_order() {
    let hull = octahedron();
    let data = EdgeData::new(&hull);
    let ends: Vec<(usize, usize)> = data.edges().iter().map(|e| (e.start, e.end)).collect();
    assert_eq!(
        ends,
        vec![
            (0, 2),
            (0, 3),
            (0, 4),
            (0, 5),
            (1, 2),
            (1, 3),
            (1, 4),
            (1, 5),
            (2, 4),
            (2, 5),
            (3, 4),
            (3, 5),
        ]
    );
    assert_eq!(data.len(), 12);
}

#[test]
fn an_edge_lists_the_facets_at_either_end() {
    let hull = octahedron();
    let data = EdgeData::new(&hull);
    let edges = data.edges();
    assert_eq!((edges[0].start, edges[0].end), (0, 2));
    assert_eq!(edges[0].facets, vec![0, 1, 3, 4, 5, 7]);
    assert_eq!((edges[11].start, edges[11].end), (3, 5));
    assert_eq!(edges[11].facets, vec![2, 3, 4, 5, 6, 7]);
}

#[test]
fn tetrahedron_edges_touch_every_facet() {
    let hull = hull_of(
        &[[0.0, 0.0, 0.0], [1.0, 0.0, 0.0], [0.0, 1.0, 0.0], [0.0, 0.0, 1.0]],
        &[[0, 1, 2], [0, 1, 3], [0, 2, 3], [1, 2, 3]],
    );
    let data = EdgeData::new(&hull);
    assert_eq!(data.len(), 6);
    for edge in data.edges() {
        assert!(edge.start < edge.end);
        assert_eq!(edge.facets, vec![0, 1, 2, 3]);
    }
}

#[test]
fn a_facet_that_repeats_a_vertex_gives_a_loop() {
    let hull = hull_of(&[[0.0, 0.0, 0.0], [1.0, 0.0, 0.0]], &[[1, 1, 0]]);
    let data = EdgeData::new(&hull);
    let ends: Vec<(usize, usize)> = data.edges().iter().map(|e| (e.start, e.end)).collect();
    assert_eq!(ends, vec![(0, 1), (1, 1)]);
    assert_eq!(data.edges()[1].facets, vec![0]);
}

#[test]
fn a_hull_without_facets_has_no_edges() {
    let hull = hull_of(&[[0.0, 0.0, 0.0]], &[]);
    assert_eq!(EdgeData::new(&hull).len(), 0);
}
