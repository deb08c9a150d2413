use image_palette_recoloring::convex_hull::{RawFacet, RawHull, RawVertex};
use image_palette_recoloring::delaunay::{RawDelaunay, RawNeighbor, RawSimplex, NON_SIMPLEX_IDX};
use image_palette_recoloring::{ConvexHull, Delaunay, Error};

type Hull2 = ConvexHull<[f64; 2], [f64; 2], f64>;
type Tri2 = Delaunay<[f64; 2], [f64; 3], f64>;

fn vertex(id: u64, x: f64, y: f64) -> RawVertex<[f64; 2]> {
    RawVertex { id, point: [x, y] }
}

fn edge(id: u64, normal: [f64; 2], offset: f64, vertices: [u64; 2], neighbors: [u64; 2]) -> RawFacet<[f64; 2], f64> {
    RawFacet {
        id,
        normal,
        offset,
        vertices: vertices.to_vec(),
        neighbors: neighbors.to_vec(),
        reversed: false,
    }
}

/// What the engine reports for the points (1,1), (2,1), (1,2), (2,2), (1.5,1.5), (1.5,1.0):
/// the two inner points are no vertices.
fn square_report() -> RawHull<[f64; 2], [f64; 2], f64> {
    RawHull {
        dim: 2,
        vertices: vec![
            vertex(7, 2.0, 2.0),
            vertex(3, 1.0, 2.0),
            vertex(5, 1.0, 1.0),
            vertex(4, 2.0, 1.0),
        ],
        facets: vec![
            edge(11, [0.0, -1.0], 1.0, [5, 4], [14, 12]),
            edge(12, [-1.0, 0.0], 1.0, [3, 5], [11, 13]),
            edge(13, [0.0, 1.0], -2.0, [7, 3], [12, 14]),
            edge(14, [1.0, 0.0], -2.0, [4, 7], [13, 11]),
        ],
    }
}

#[test]
fn convex_hull_test_construction() {
    let cv = Hull2::from_qhull_raw(square_report()).unwrap();
    let mut vertices = cv.vertices().iter().map(|v| *v.point()).collect::<Vec<_>>();
    vertices.sort_by(|a, b| a.partial_cmp(b).unwrap());
    assert_eq!(vertices, [[1.0, 1.0], [1.0, 2.0], [2.0, 1.0], [2.0, 2.0]]);

    let mut facets = cv
        .facets()
        .iter()
        .map(|f| {
            let mut points = f.vertices().iter().map(|v| *v.point()).collect::<Vec<_>>();
            points.sort_by(|a, b| a.partial_cmp(b).unwrap());
            points
        })
        .collect::<Vec<_>>();
    facets.sort_by(|a, b| a.partial_cmp(b).unwrap());
    assert_eq!(
        facets,
        [
            [[1.0, 1.0], [1.0, 2.0]],
            [[1.0, 1.0], [2.0, 1.0]],
            [[1.0, 2.0], [2.0, 2.0]],
            [[2.0, 1.0], [2.0, 2.0]],
        ]
    );
}

#[test]
fn hull_numbers_follow_the_report() {
    let cv = Hull2::from_qhull_raw(square_report()).unwrap();
    assert_eq!(cv.dim(), 2);
    assert_eq!(cv.vertex_count(), 4);
    assert_eq!(cv.facet_count(), 4);
    assert_eq!(*cv.point_at(0), [2.0, 2.0]);
    assert_eq!(*cv.point_at(3), [2.0, 1.0]);
    assert_eq!(cv.facet_row(0), &vec![2, 3]);
    assert_eq!(cv.facet_row(2), &vec![0, 1]);
    assert_eq!(cv.neighbor_row(0), &vec![3, 1]);
    assert_eq!(cv.neighbor_row(3), &vec![2, 0]);
    let facets = cv.facets();
    assert_eq!(*facets[1].normal(), [-1.0, 0.0]);
    assert_eq!(*facets[2].offset(), -2.0);
    assert_eq!(facets[2].index(), 2);
    let around: Vec<usize> = facets[1].neighbors().iter().map(|f| f.index()).collect();
    assert_eq!(around, vec![0, 2]);
}

fn triangle(id: u64, reversed: bool) -> RawFacet<[f64; 3], f64> {
    RawFacet {
        id,
        normal: [0.0, 0.0, 1.0],
        offset: 0.0,
        vertices: vec![10, 20, 30],
        neighbors: vec![1, 2, 1],
        reversed,
    }
}

#[test]
fn reversed_facets_are_repaired_in_three_dimensions() {
    let report = RawHull {
        dim: 3,
        vertices: vec![
            RawVertex { id: 10, point: [0u8, 0, 0] },
            RawVertex { id: 20, point: [1u8, 0, 0] },
            RawVertex { id: 30, point: [0u8, 1, 0] },
        ],
        facets: vec![triangle(1, false), triangle(2, true)],
    };
    let cv = ConvexHull::from_qhull_raw(report).unwrap();
    assert_eq!(cv.facet_row(0), &vec![0, 1, 2]);
    assert_eq!(cv.neighbor_row(0), &vec![0, 1, 0]);
    assert_eq!(cv.facet_row(1), &vec![1, 0, 2]);
    assert_eq!(cv.neighbor_row(1), &vec![1, 0, 0]);
}

#[test]
fn reversed_is_not_read_in_two_dimensions() {
    let mut report = square_report();
    report.facets[0].reversed = true;
    let cv = Hull2::from_qhull_raw(report).unwrap();
    assert_eq!(cv.facet_row(0), &vec![2, 3]);
}

#[test]
fn inconsistent_hull_reports_are_refused() {
    let mut twice = square_report();
    twice.vertices[1].id = 7;
    assert_eq!(Hull2::from_qhull_raw(twice).err(), Some(Error::HullConstructionFailed));

    let mut facet_twice = square_report();
    facet_twice.facets[3].id = 11;
    assert_eq!(Hull2::from_qhull_raw(facet_twice).err(), Some(Error::HullConstructionFailed));

    let mut unknown_vertex = square_report();
    unknown_vertex.facets[2].vertices[1] = 99;
    assert_eq!(Hull2::from_qhull_raw(unknown_vertex).err(), Some(Error::HullConstructionFailed));

    let mut unknown_neighbor = square_report();
    unknown_neighbor.facets[2].neighbors[0] = 99;
    assert_eq!(Hull2::from_qhull_raw(unknown_neighbor).err(), Some(Error::HullConstructionFailed));

    let mut short = square_report();
    short.facets[1].vertices.pop();
    assert_eq!(Hull2::from_qhull_raw(short).err(), Some(Error::HullConstructionFailed));
}

#[test]
fn only_the_first_dim_entries_of_a_row_are_read() {
    let mut report = square_report();
    report.facets[0].vertices.push(99);
    report.facets[0].neighbors.push(98);
    let cv = Hull2::from_qhull_raw(report).unwrap();
    assert_eq!(cv.facet_row(0), &vec![2, 3]);
    assert_eq!(cv.neighbor_row(0), &vec![3, 1]);
}

fn near(id: u64, upper_delaunay: bool) -> RawNeighbor {
    RawNeighbor { id, upper_delaunay }
}

/// What the engine reports for the points (1,1), (2,1), (1,2), (2,2): two triangles of the
/// lower hull of the lifted points and two of the upper hull.
fn square_triangulation() -> RawDelaunay<[f64; 2], [f64; 3], f64> {
    RawDelaunay {
        dim: 2,
        vertices: vec![
            vertex(0, 1.0, 1.0),
            vertex(1, 2.0, 1.0),
            vertex(2, 1.0, 2.0),
            vertex(3, 2.0, 2.0),
        ],
        simplices: vec![
            RawSimplex {
                id: 40,
                upper_delaunay: true,
                normal: [0.0, 0.0, 1.0],
                offset: -1.0,
                vertices: vec![1, 2, 3],
                neighbors: vec![near(42, false), near(41, false), near(43, true)],
            },
            RawSimplex {
                id: 41,
                upper_delaunay: false,
                normal: [0.5, 0.5, -0.5],
                offset: 0.25,
                vertices: vec![3, 0, 2],
                neighbors: vec![near(43, true), near(40, true), near(42, false)],
            },
            RawSimplex {
                id: 43,
                upper_delaunay: true,
                normal: [0.0, 0.0, 1.0],
                offset: -1.0,
                vertices: vec![0, 1, 2],
                neighbors: vec![near(40, true), near(41, false), near(42, false)],
            },
            RawSimplex {
                id: 42,
                upper_delaunay: false,
                normal: [0.5, 0.5, -0.5],
                offset: 0.25,
                vertices: vec![0, 3, 1],
                neighbors: vec![near(40, true), near(43, true), near(41, false)],
            },
        ],
        paraboloid_scale: 0.125,
        paraboloid_shift: -0.5,
    }
}

#[test]
fn delaunay_test_construction() {
    let tri = Tri2::from_qhull_raw(square_triangulation()).unwrap();
    let mut simplices = tri
        .simplices()
        .iter()
        .map(|s| {
            let mut points = s.vertices().iter().map(|v| *v.point()).collect::<Vec<_>>();
            points.sort_by(|a, b| a.partial_cmp(b).unwrap());
            points
        })
        .collect::<Vec<_>>();
    simplices.sort_by(|a, b| a.partial_cmp(b).unwrap());
    assert_eq!(
        simplices,
        [
            [[1.0, 1.0], [1.0, 2.0], [2.0, 2.0]],
            [[1.0, 1.0], [2.0, 1.0], [2.0, 2.0]],
        ]
    );
}

#[test]
fn delaunay_numbers_follow_first_use() {
    let tri = Tri2::from_qhull_raw(square_triangulation()).unwrap();
    assert_eq!(tri.dim(), 2);
    assert_eq!(tri.simplex_count(), 2);
    assert_eq!(tri.vertex_count(), 4);
    // The kept simplices name the vertices 3, 0, 2 and then 0, 3, 1.
    assert_eq!(*tri.point_at(0), [2.0, 2.0]);
    assert_eq!(*tri.point_at(1), [1.0, 1.0]);
    assert_eq!(*tri.point_at(2), [1.0, 2.0]);
    assert_eq!(*tri.point_at(3), [2.0, 1.0]);
    assert_eq!(tri.simplex_row(0), &vec![0, 1, 2]);
    assert_eq!(tri.simplex_row(1), &vec![1, 0, 3]);
    assert_eq!(tri.neighbor_row(0), &vec![NON_SIMPLEX_IDX, NON_SIMPLEX_IDX, 1]);
    assert_eq!(tri.neighbor_row(1), &vec![NON_SIMPLEX_IDX, NON_SIMPLEX_IDX, 0]);
    assert_eq!(*tri.paraboloid_scale(), 0.125);
    assert_eq!(*tri.paraboloid_shift(), -0.5);
    let simplices = tri.simplices();
    let around: Vec<Option<usize>> =
        simplices[0].neighbors().iter().map(|n| n.as_ref().map(|s| s.index())).collect();
    assert_eq!(around, vec![None, None, Some(1)]);
    assert_eq!(*simplices[1].normal(), [0.5, 0.5, -0.5]);
    assert_eq!(*simplices[1].offset(), 0.25);
}

#[test]
fn vertices_of_upper_simplices_only_are_dropped() {
    let mut report = square_triangulation();
    report.vertices.push(vertex(9, 5.0, 5.0));
    report.simplices[0].vertices[0] = 9;
    let tri = Tri2::from_qhull_raw(report).unwrap();
    assert_eq!(tri.vertex_count(), 4);
}

#[test]
fn inconsistent_triangulation_reports_are_refused() {
    let mut twice = square_triangulation();
    twice.simplices[3].id = 41;
    twice.simplices[1].neighbors[2].id = 41;
    assert_eq!(Tri2::from_qhull_raw(twice).err(), Some(Error::HullConstructionFailed));

    let mut unknown_vertex = square_triangulation();
    unknown_vertex.simplices[1].vertices[0] = 77;
    assert_eq!(Tri2::from_qhull_raw(unknown_vertex).err(), Some(Error::HullConstructionFailed));

    let mut dropped_neighbor = square_triangulation();
    dropped_neighbor.simplices[1].neighbors[0].upper_delaunay = false;
    assert_eq!(Tri2::from_qhull_raw(dropped_neighbor).err(), Some(Error::HullConstructionFailed));

    let mut short = square_triangulation();
    short.simplices[3].neighbors.pop();
    assert_eq!(Tri2::from_qhull_raw(short).err(), Some(Error::HullConstructionFailed));

    let mut vertex_twice = square_triangulation();
    vertex_twice.vertices[2].id = 0;
    assert_eq!(Tri2::from_qhull_raw(vertex_twice).err(), Some(Error::HullConstructionFailed));
}

fn winding(v0: [i64; 3], v1: [i64; 3], v2: [i64; 3], n: [i64; 3]) -> i64 {
    let a = [v1[0] - v0[0], v1[1] - v0[1], v1[2] - v0[2]];
    let b = [v2[0] - v0[0], v2[1] - v0[1], v2[2] - v0[2]];
    (a[1] * b[2] - a[2] * b[1]) * n[0]
        + (a[2] * b[0] - a[0] * b[2]) * n[1]
        + (a[0] * b[1] - a[1] * b[0]) * n[2]
}

#[test]
fn every_facet_winds_with_its_normal_after_the_repair() {
    let points: [[i64; 3]; 6] =
        [[2, 0, 0], [-2, 0, 0], [0, 2, 0], [0, -2, 0], [0, 0, 2], [0, 0, -2]];
    // The facets of an octahedron, some listed against their normals.
    let facets: [([u64; 3], [i64; 3]); 8] = [
        ([0, 2, 4], [1, 1, 1]),
        ([2, 1, 4], [-1, 1, 1]),
        ([3, 1, 4], [-1, -1, 1]),
        ([3, 0, 4], [1, -1, 1]),
        ([2, 0, 5], [1, 1, -1]),
        ([2, 1, 5], [-1, 1, -1]),
        ([3, 1, 5], [-1, -1, -1]),
        ([3, 0, 5], [1, -1, -1]),
    ];
    let mut reversed_count = 0;
    let report = RawHull {
        dim: 3,
        vertices: points
            .iter()
            .enumerate()
            .map(|(i, p)| RawVertex { id: 10 + i as u64, point: *p })
            .collect(),
        facets: facets
            .iter()
            .enumerate()
            .map(|(i, (corners, normal))| {
                let [a, b, c] = corners.map(|v| points[v as usize]);
                let reversed = winding(a, b, c, *normal) < 0;
                if reversed {
                    reversed_count += 1;
                }
                RawFacet {
                    id: i as u64,
                    normal: *normal,
                    offset: -2i64,
                    vertices: corners.iter().map(|v| 10 + v).collect(),
                    neighbors: vec![0, 1, 2],
                    reversed,
                }
            })
            .collect(),
    };
    assert!(reversed_count > 0 && reversed_count < 8);
    let hull = ConvexHull::from_qhull_raw(report).unwrap();
    for facet in hull.facets() {
        let corners: Vec<[i64; 3]> = facet.vertices().iter().map(|v| *v.point()).collect();
        assert!(winding(corners[0], corners[1], corners[2], *facet.normal()) > 0);
    }
}

#[test]
fn a_copy_of_a_facade_holds_the_same() {
    let cv = Hull2::from_qhull_raw(square_report()).unwrap();
    let copy = cv.clone();
    drop(cv);
    assert_eq!(copy.vertex_count(), 4);
    assert_eq!(copy.facet_row(2), &vec![0, 1]);
    assert_eq!(copy.neighbor_row(3), &vec![2, 0]);
    assert_eq!(*copy.normal_at(1), [-1.0, 0.0]);
    assert_eq!(*copy.offset_at(2), -2.0);

    let tri = Tri2::from_qhull_raw(square_triangulation()).unwrap();
    let copy = tri.clone();
    drop(tri);
    assert_eq!(copy.simplex_row(1), &vec![1, 0, 3]);
    assert_eq!(copy.neighbor_row(0), &vec![NON_SIMPLEX_IDX, NON_SIMPLEX_IDX, 1]);
    assert_eq!(*copy.point_at(3), [2.0, 1.0]);
    assert_eq!(*copy.normal_at(0), [0.5, 0.5, -0.5]);
    assert_eq!(*copy.offset_at(1), 0.25);
    assert_eq!(*copy.paraboloid_scale(), 0.125);
}

#[test]
fn handles_of_one_facade_are_compared_by_number() {
    let cv = Hull2::from_qhull_raw(square_report()).unwrap();
    let vertices = cv.vertices();
    let facets = cv.facets();
    assert!(vertices[1] == vertices[1]);
    assert!(vertices[1] != vertices[2]);
    // Facet 2 holds the vertices 0 and 1.
    assert!(facets[2].vertices()[1] == vertices[1]);
    assert!(facets[2].vertices()[0] != vertices[1]);
    assert!(facets[1].neighbors()[1] == facets[2]);
    assert!(facets[1].neighbors()[0] != facets[2]);

    let tri = Tri2::from_qhull_raw(square_triangulation()).unwrap();
    let simplices = tri.simplices();
    assert!(simplices[0].vertices()[1] == simplices[1].vertices()[0]);
    assert!(simplices[0].vertices()[0] != simplices[1].vertices()[0]);
    assert!(simplices[0].neighbors()[2] == Some(simplices[1]));
    assert!(simplices[0] != simplices[1]);
}
