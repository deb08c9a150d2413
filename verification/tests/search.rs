use image_palette_recoloring::convex_hull::RawVertex;
use image_palette_recoloring::delaunay::{RawDelaunay, RawNeighbor, RawSimplex};
use image_palette_recoloring::searcher::{
    accepts, Classes, CoordClass, DirectedStep, Probe, ScanStep, SearchStart, SimplexSearcher,
};
use image_palette_recoloring::Delaunay;

use CoordClass::{Above, Below, Within};

type Tri2 = Delaunay<[f64; 2], [f64; 3], f64>;

fn near(id: u64) -> RawNeighbor {
    RawNeighbor { id, upper_delaunay: false }
}

fn outer() -> RawNeighbor {
    RawNeighbor { id: 0, upper_delaunay: true }
}

fn simplex(id: u64, vertices: [u64; 3], neighbors: [RawNeighbor; 3]) -> RawSimplex<[f64; 3], f64> {
    RawSimplex {
        id,
        upper_delaunay: false,
        normal: [0.0, 0.0, -1.0],
        offset: 0.0,
        vertices: vertices.to_vec(),
        neighbors: neighbors.into_iter().collect(),
    }
}

/// A strip of `n` triangles: triangle `i` has triangle `i - 1` across the face opposite
/// corner 1 and triangle `i + 1` across the face opposite corner 0.
fn strip(n: u64) -> Tri2 {
    let vertices = (0..n + 2).map(|i| RawVertex { id: i, point: [i as f64, (i % 2) as f64] }).collect();
    let simplices = (0..n)
        .map(|i| {
            let next = if i + 1 < n { near(101 + i) } else { outer() };
            let prev = if i > 0 { near(99 + i) } else { outer() };
            simplex(100 + i, [i, i + 1, i + 2], [next, prev, outer()])
        })
        .collect();
    Tri2::from_qhull_raw(RawDelaunay {
        dim: 2,
        vertices,
        simplices,
        paraboloid_scale: 1.0,
        paraboloid_shift: 0.0,
    })
    .unwrap()
}

#[test]
fn a_new_searcher_has_the_defaults() {
    let tri = strip(3);
    let searcher = tri.simplex_searcher(f64::EPSILON);
    assert!(!searcher.bruteforce());
    assert_eq!(*searcher.eps(), f64::EPSILON);
    assert_eq!(searcher.start_hint(), None);
}

#[test]
fn settings_can_be_changed() {
    let tri = strip(3);
    let mut searcher = SimplexSearcher::new(&tri, 1e-10);
    searcher.set_bruteforce(true).set_eps(2e-10);
    assert!(searcher.bruteforce());
    assert_eq!(*searcher.eps(), 2e-10);
    searcher.set_eps(4e-10).set_bruteforce(false).clear_start_hint();
    assert!(!searcher.bruteforce());
    assert_eq!(*searcher.eps(), 4e-10);
    searcher.set_bruteforce(true);
    assert_eq!(searcher.scan_next(Probe::Simplex(2), Some(&all(Within))), ScanStep::Found(2));
    assert_eq!(searcher.start_hint(), Some(2));
    searcher.clear_start_hint();
    assert_eq!(searcher.start_hint(), None);
}

fn all(class: CoordClass) -> Classes {
    Classes { tight: vec![class; 3], broad: vec![class; 3] }
}

#[test]
fn a_search_starts_at_the_hint_or_at_simplex_one() {
    let tri = strip(3);
    let mut searcher = tri.simplex_searcher(1e-10);
    assert_eq!(searcher.start(), SearchStart::Directed(1));
    assert_eq!(searcher.directed_step(2, Some(&vec![Within, Within, Within])), DirectedStep::Found);
    assert_eq!(searcher.start(), SearchStart::Directed(2));
    searcher.set_bruteforce(true);
    assert_eq!(searcher.start(), SearchStart::Bruteforce);
}

#[test]
fn a_triangulation_without_a_simplex_one_is_scanned() {
    let tri = strip(1);
    let mut searcher = tri.simplex_searcher(1e-10);
    assert_eq!(searcher.start(), SearchStart::Bruteforce);
    assert_eq!(searcher.scan_next(Probe::Simplex(0), Some(&all(Within))), ScanStep::Found(0));
    assert_eq!(searcher.start(), SearchStart::Directed(0));
}

#[test]
fn the_cycle_limit_is_a_quarter_rounded_up_and_one() {
    assert_eq!(strip(1).simplex_searcher(0.0).cycle_limit(), 2);
    assert_eq!(strip(4).simplex_searcher(0.0).cycle_limit(), 2);
    assert_eq!(strip(5).simplex_searcher(0.0).cycle_limit(), 3);
    assert_eq!(strip(8).simplex_searcher(0.0).cycle_limit(), 3);
    assert_eq!(strip(9).simplex_searcher(0.0).cycle_limit(), 4);
}

#[test]
fn all_coordinates_within_means_found() {
    let tri = strip(3);
    let mut searcher = tri.simplex_searcher(1e-10);
    searcher.start();
    let step = searcher.directed_step(1, Some(&vec![Within, Within, Within]));
    assert_eq!(step, DirectedStep::Found);
    assert_eq!(searcher.start_hint(), Some(1));
}

#[test]
fn the_first_coordinate_below_decides_where_to_go() {
    let tri = strip(9);
    let mut searcher = tri.simplex_searcher(1e-10);
    searcher.start();
    assert_eq!(searcher.directed_step(1, Some(&vec![Below, Below, Within])), DirectedStep::MoveTo(2));
    assert_eq!(searcher.directed_step(1, Some(&vec![Above, Below, Below])), DirectedStep::MoveTo(0));
    assert_eq!(searcher.start_hint(), None);
}

#[test]
fn a_coordinate_below_at_the_outer_boundary_means_outside() {
    let tri = strip(3);
    let mut searcher = tri.simplex_searcher(1e-10);
    searcher.start();
    assert_eq!(searcher.directed_step(1, Some(&vec![Within, Within, Below])), DirectedStep::Outside);
    assert_eq!(searcher.start_hint(), Some(1));
    searcher.start();
    assert_eq!(searcher.directed_step(2, Some(&vec![Below, Within, Within])), DirectedStep::Outside);
    assert_eq!(searcher.start_hint(), Some(2));
}

#[test]
fn a_coordinate_above_and_none_below_means_fallback() {
    let tri = strip(3);
    let mut searcher = tri.simplex_searcher(1e-10);
    searcher.start();
    assert_eq!(searcher.directed_step(0, Some(&vec![Within, Within, Within])), DirectedStep::Found);
    searcher.start();
    assert_eq!(searcher.directed_step(1, Some(&vec![Within, Above, Within])), DirectedStep::Fallback);
    assert_eq!(searcher.start_hint(), Some(0));
}

#[test]
fn a_degenerate_simplex_means_fallback() {
    let tri = strip(3);
    let mut searcher = tri.simplex_searcher(1e-10);
    searcher.start();
    assert_eq!(searcher.directed_step(1, None), DirectedStep::Fallback);
    assert_eq!(searcher.start_hint(), None);
}

#[test]
fn the_directed_search_gives_up_when_its_cycles_are_spent() {
    // Five simplices allow three cycles: the third may not move on.
    let tri = strip(5);
    let mut searcher = tri.simplex_searcher(1e-10);
    assert_eq!(searcher.start(), SearchStart::Directed(1));
    let onwards = vec![Below, Within, Within];
    assert_eq!(searcher.directed_step(1, Some(&onwards)), DirectedStep::MoveTo(2));
    assert_eq!(searcher.directed_step(2, Some(&onwards)), DirectedStep::MoveTo(3));
    assert_eq!(searcher.directed_step(3, Some(&onwards)), DirectedStep::Fallback);
    assert_eq!(searcher.directed_step(3, Some(&onwards)), DirectedStep::Fallback);
    // The last cycle may still find the point.
    searcher.start();
    assert_eq!(searcher.directed_step(1, Some(&onwards)), DirectedStep::MoveTo(2));
    assert_eq!(searcher.directed_step(2, Some(&onwards)), DirectedStep::MoveTo(3));
    assert_eq!(searcher.directed_step(3, Some(&vec![Within, Within, Within])), DirectedStep::Found);
}

#[test]
fn without_a_start_no_cycle_is_allowed() {
    let tri = strip(5);
    let mut searcher = tri.simplex_searcher(1e-10);
    assert_eq!(searcher.directed_step(1, Some(&vec![Within, Within, Within])), DirectedStep::Fallback);
    assert_eq!(searcher.start_hint(), None);
}

#[test]
fn coordinates_are_accepted_where_all_are_within() {
    assert!(accepts(&vec![Within, Within, Within]));
    assert!(!accepts(&vec![Within, Below, Within]));
    assert!(!accepts(&vec![Within, Within, Above]));
    assert!(accepts(&vec![]));
}

#[test]
fn the_shared_face_is_judged_by_the_wide_interval() {
    let tri = strip(3);
    let searcher = tri.simplex_searcher(1e-10);
    // Simplex 1 is degenerate; its neighbor 2 has it across the face opposite corner 1,
    // nothing across the other two faces.
    let tight = vec![Within, Below, Within];
    let broad = vec![Within, Within, Within];
    assert!(searcher.neighbor_accepts(1, 2, &tight, &broad));
    let broad = vec![Within, Below, Within];
    assert!(!searcher.neighbor_accepts(1, 2, &tight, &broad));
    // Its neighbor 0 has it across the face opposite corner 0.
    assert!(searcher.neighbor_accepts(1, 0, &vec![Below, Within, Within], &vec![Within; 3]));
    assert!(!searcher.neighbor_accepts(1, 0, &vec![Within; 3], &vec![Above, Within, Within]));
}

#[test]
fn other_faces_are_judged_by_the_narrow_interval() {
    let tri = strip(3);
    let searcher = tri.simplex_searcher(1e-10);
    // Seen from the degenerate simplex 0, simplex 1 has simplex 2 across the face opposite
    // corner 0, simplex 0 across the face opposite corner 1, nothing opposite corner 2.
    assert!(searcher.neighbor_accepts(0, 1, &vec![Within, Below, Within], &vec![Below, Within, Below]));
    assert!(!searcher.neighbor_accepts(0, 1, &vec![Below, Within, Within], &vec![Within; 3]));
    assert!(!searcher.neighbor_accepts(0, 1, &vec![Above, Within, Within], &vec![Within; 3]));
}

#[test]
fn a_coordinate_that_faces_the_outer_boundary_is_judged_too() {
    let tri = strip(3);
    let searcher = tri.simplex_searcher(1e-10);
    // Simplex 2 has nothing across the faces opposite corners 0 and 2.
    assert!(!searcher.neighbor_accepts(1, 2, &vec![Below, Within, Within], &vec![Within; 3]));
    assert!(!searcher.neighbor_accepts(1, 2, &vec![Within, Within, Below], &vec![Within; 3]));
    assert!(!searcher.neighbor_accepts(1, 2, &vec![Within, Within, Above], &vec![Within; 3]));
    assert!(!searcher.neighbor_accepts(1, 2, &vec![Below; 3], &vec![Below, Within, Below]));
    // The wide interval is for the shared face only.
    assert!(!searcher.neighbor_accepts(1, 2, &vec![Below, Below, Within], &vec![Within; 3]));
}

#[test]
fn a_point_out_of_bounds_is_not_scanned_for() {
    let tri = strip(3);
    let searcher = tri.simplex_searcher(1e-10);
    assert_eq!(searcher.scan_first(false), ScanStep::NotFound);
    assert_eq!(searcher.scan_first(true), ScanStep::Look(Probe::Simplex(0)));
}

#[test]
fn a_scan_looks_at_the_simplices_in_order() {
    let tri = strip(3);
    let mut searcher = tri.simplex_searcher(1e-10);
    let no = all(Above);
    assert_eq!(searcher.scan_next(Probe::Simplex(0), Some(&no)), ScanStep::Look(Probe::Simplex(1)));
    assert_eq!(searcher.scan_next(Probe::Simplex(1), Some(&no)), ScanStep::Look(Probe::Simplex(2)));
    assert_eq!(searcher.scan_next(Probe::Simplex(2), Some(&no)), ScanStep::NotFound);
    assert_eq!(searcher.start_hint(), None);
    assert_eq!(searcher.scan_next(Probe::Simplex(1), Some(&all(Within))), ScanStep::Found(1));
    assert_eq!(searcher.start_hint(), Some(1));
}

#[test]
fn a_scan_looks_at_the_neighbors_of_a_degenerate_simplex() {
    let tri = strip(3);
    let mut searcher = tri.simplex_searcher(1e-10);
    let no = all(Above);
    // Simplex 1 has simplex 2 in slot 0 and simplex 0 in slot 1, nothing in slot 2.
    let first = Probe::Neighbor { of: 1, slot: 0 };
    let second = Probe::Neighbor { of: 1, slot: 1 };
    assert_eq!(searcher.scan_next(Probe::Simplex(1), None), ScanStep::Look(first));
    assert_eq!(searcher.simplex_of(first), 2);
    assert_eq!(searcher.scan_next(first, Some(&no)), ScanStep::Look(second));
    assert_eq!(searcher.simplex_of(second), 0);
    assert_eq!(searcher.scan_next(second, None), ScanStep::Look(Probe::Simplex(2)));
    // Simplex 0 has nothing in slot 1: its only neighbor is in slot 0.
    assert_eq!(
        searcher.scan_next(Probe::Simplex(0), None),
        ScanStep::Look(Probe::Neighbor { of: 0, slot: 0 })
    );
    assert_eq!(
        searcher.scan_next(Probe::Neighbor { of: 0, slot: 0 }, Some(&no)),
        ScanStep::Look(Probe::Simplex(1))
    );
    // The last simplex has its only neighbor in slot 1.
    assert_eq!(
        searcher.scan_next(Probe::Simplex(2), None),
        ScanStep::Look(Probe::Neighbor { of: 2, slot: 1 })
    );
    assert_eq!(searcher.scan_next(Probe::Neighbor { of: 2, slot: 1 }, None), ScanStep::NotFound);
}

#[test]
fn a_neighbor_that_is_taken_is_found() {
    let tri = strip(3);
    let mut searcher = tri.simplex_searcher(1e-10);
    // Simplex 2 has the degenerate simplex 1 across the face opposite corner 1.
    let classes = Classes { tight: vec![Within, Below, Within], broad: vec![Within; 3] };
    assert_eq!(
        searcher.scan_next(Probe::Neighbor { of: 1, slot: 0 }, Some(&classes)),
        ScanStep::Found(2)
    );
    assert_eq!(searcher.start_hint(), Some(2));
    searcher.clear_start_hint();
    let classes = Classes { tight: vec![Within, Below, Within], broad: vec![Within, Below, Within] };
    assert_eq!(
        searcher.scan_next(Probe::Neighbor { of: 1, slot: 0 }, Some(&classes)),
        ScanStep::Look(Probe::Neighbor { of: 1, slot: 1 })
    );
    // A coordinate below the interval that faces the outer boundary: not taken.
    let classes = Classes { tight: vec![Below, Below, Below], broad: vec![Below, Within, Below] };
    assert_eq!(
        searcher.scan_next(Probe::Neighbor { of: 1, slot: 0 }, Some(&classes)),
        ScanStep::Look(Probe::Neighbor { of: 1, slot: 1 })
    );
    assert_eq!(searcher.start_hint(), None);
}

#[test]
fn a_scan_of_a_strip_ends() {
    let tri = strip(6);
    let mut searcher = tri.simplex_searcher(1e-10);
    let mut step = searcher.scan_first(true);
    let mut looks = 0;
    while let ScanStep::Look(probe) = step {
        looks += 1;
        step = searcher.scan_next(probe, None);
    }
    assert_eq!(step, ScanStep::NotFound);
    // Six simplices and the two neighbors of each, but one for the first and the last.
    assert_eq!(looks, 6 + 10);
}
