//! The orientation of a facet in three dimensions, over exact coordinates.
//!
//! The facade stores each facet so that its vertices wind with its normal. What the repair
//! achieves is stated here for whole-number coordinates, for which the arithmetic is exact:
//! for points and normals of any type, and any map from them to such coordinates.

use crate::convex_hull::{position, HullView, RawHull};
use vstd::prelude::*;

verus! {

/// A point or a direction in three dimensions with whole-number coordinates.
pub struct Vec3 {
    pub x: int,
    pub y: int,
    pub z: int,
}

/// `((v1 - v0) x (v2 - v0)) . n`: positive where `v0`, `v1`, `v2` wind with the normal
/// `n`, negative where they wind against it.
pub open spec fn winding(v0: Vec3, v1: Vec3, v2: Vec3, n: Vec3) -> int {
    let ax = v1.x - v0.x;
    let ay = v1.y - v0.y;
    let az = v1.z - v0.z;
    let bx = v2.x - v0.x;
    let by = v2.y - v0.y;
    let bz = v2.z - v0.z;
    (ay * bz - az * by) * n.x + (az * bx - ax * bz) * n.y + (ax * by - ay * bx) * n.z
}

/// Exchanging the first two vertices of a facet turns its winding round.
pub proof fn lemma_swap_turns_winding(v0: Vec3, v1: Vec3, v2: Vec3, n: Vec3)
    ensures
        winding(v1, v0, v2, n) == -winding(v0, v1, v2, n),
{
    let ax = v1.x - v0.x;
    let ay = v1.y - v0.y;
    let az = v1.z - v0.z;
    let bx = v2.x - v0.x;
    let by = v2.y - v0.y;
    let bz = v2.z - v0.z;
    let nx = n.x;
    let ny = n.y;
    let nz = n.z;
    let cx = ay * bz - az * by;
    let cy = az * bx - ax * bz;
    let cz = ax * by - ay * bx;
    assert((-ay) * (bz - az) - (-az) * (by - ay) == -cx) by (nonlinear_arith)
        requires
            cx == ay * bz - az * by,
    ;
    assert((-az) * (bx - ax) - (-ax) * (bz - az) == -cy) by (nonlinear_arith)
        requires
            cy == az * bx - ax * bz,
    ;
    assert((-ax) * (by - ay) - (-ay) * (bx - ax) == -cz) by (nonlinear_arith)
        requires
            cz == ax * by - ay * bx,
    ;
    assert((-cx) * nx + (-cy) * ny + (-cz) * nz == -(cx * nx + cy * ny + cz * nz))
        by (nonlinear_arith);
    assert(v0.x - v1.x == -ax && v0.y - v1.y == -ay && v0.z - v1.z == -az);
    assert(v2.x - v1.x == bx - ax && v2.y - v1.y == by - ay && v2.z - v1.z == bz - az);
}

/// The point that the report gives for the vertex named `id`.
pub open spec fn reported_point<P, N, S>(raw: RawHull<P, N, S>, id: u64) -> P {
    raw.vertices@[position(raw.vertex_ids(), id) as int].point
}

/// The winding of facet `f` of the report, by its first three vertices as listed.
/// `place` gives the coordinates of a point and `direction` those of a normal.
pub open spec fn reported_winding<P, N, S>(
    raw: RawHull<P, N, S>,
    place: spec_fn(P) -> Vec3,
    direction: spec_fn(N) -> Vec3,
    f: int,
) -> int {
    let facet = raw.facets@[f];
    winding(
        place(reported_point(raw, facet.vertices@[0])),
        place(reported_point(raw, facet.vertices@[1])),
        place(reported_point(raw, facet.vertices@[2])),
        direction(facet.normal),
    )
}

/// The winding of facet `f` of a hull, by its vertices as stored.
pub open spec fn stored_winding<P, N, S>(
    hull: HullView<P, N, S>,
    place: spec_fn(P) -> Vec3,
    direction: spec_fn(N) -> Vec3,
    f: int,
) -> int {
    winding(
        place(hull.points[hull.facets[f][0] as int]),
        place(hull.points[hull.facets[f][1] as int]),
        place(hull.points[hull.facets[f][2] as int]),
        direction(hull.normals[f]),
    )
}

/// Where a report in three dimensions marks as reversed exactly the facets that wind
/// against their normals, every facet of the facade winds with its normal, or is flat.
/// This holds for points and normals of any type, whatever whole-number coordinates
/// `place` and `direction` give them.
pub proof fn lemma_facets_wind_with_normals<P, N, S>(
    raw: RawHull<P, N, S>,
    place: spec_fn(P) -> Vec3,
    direction: spec_fn(N) -> Vec3,
)
    requires
        raw.consistent(),
        raw.dim == 3,
        forall|f: int|
            0 <= f < raw.facets@.len() ==> ((#[trigger] raw.facets@[f]).reversed
                <==> reported_winding(raw, place, direction, f) < 0),
    ensures
        forall|f: int|
            0 <= f < raw.facade().facets.len() ==> #[trigger] stored_winding(
                raw.facade(),
                place,
                direction,
                f,
            ) >= 0,
{
    let hull = raw.facade();
    assert forall|f: int| 0 <= f < hull.facets.len() implies #[trigger] stored_winding(
        hull,
        place,
        direction,
        f,
    ) >= 0 by {
        let facet = raw.facets@[f];
        let v0 = place(reported_point(raw, facet.vertices@[0]));
        let v1 = place(reported_point(raw, facet.vertices@[1]));
        let v2 = place(reported_point(raw, facet.vertices@[2]));
        let n = direction(facet.normal);
        let ids = raw.vertex_ids();
        assert(ids.contains(facet.vertices@[0]));
        assert(ids.contains(facet.vertices@[1]));
        assert(ids.contains(facet.vertices@[2]));
        if facet.reversed {
            lemma_swap_turns_winding(v0, v1, v2, n);
            assert(stored_winding(hull, place, direction, f) == winding(v1, v0, v2, n));
        } else {
            assert(stored_winding(hull, place, direction, f) == winding(v0, v1, v2, n));
        }
    }
}

} // verus!
