//! The edges of a hull, each with the facets that touch one of its two ends.
//!
//! The geometry engine reports facets only. An edge is a pair of vertices that some facet
//! holds in two of its slots; the facets that an edge collapse has to respect are those
//! that hold one of its ends.

use crate::convex_hull::ConvexHull;
use crate::sorted::{ascending, insert_sorted, lemma_take_step, union_sorted};
use vstd::prelude::*;

verus! {

/// `row` holds `a` in one slot and `b` in another.
pub open spec fn joins(row: Seq<usize>, a: usize, b: usize) -> bool {
    exists|i: int, j: int| joins_at(row, a, b, i, j)
}

/// `row` holds `a` in slot `i` and `b` in another slot `j`.
pub open spec fn joins_at(row: Seq<usize>, a: usize, b: usize, i: int, j: int) -> bool {
    0 <= i < row.len() && 0 <= j < row.len() && i != j && row[i] == a && row[j] == b
}

/// Facet `f` holds `a` and `b` in two of its slots.
pub open spec fn facet_joins(facets: Seq<Seq<usize>>, f: int, a: usize, b: usize) -> bool {
    0 <= f < facets.len() && joins(facets[f], a, b)
}

/// `a` and `b`, the lower first, are the ends of an edge of `facets`.
pub open spec fn is_edge(facets: Seq<Seq<usize>>, a: usize, b: usize) -> bool {
    a <= b && exists|f: int| facet_joins(facets, f, a, b)
}

/// Facet `f` holds `a` or `b`.
pub open spec fn touches(facets: Seq<Seq<usize>>, f: usize, a: usize, b: usize) -> bool {
    f < facets.len() && (facets[f as int].contains(a) || facets[f as int].contains(b))
}

/// What an `Edge` holds.
pub struct EdgeView {
    pub start: usize,
    pub end: usize,
    pub facets: Seq<usize>,
}

/// An edge of a hull: its two ends, the lower first, and the facets that hold one of them.
pub struct Edge {
    pub start: usize,
    pub end: usize,
    pub facets: Vec<usize>,
}

impl View for Edge {
    type V = EdgeView;

    open spec fn view(&self) -> EdgeView {
        EdgeView { start: self.start, end: self.end, facets: self.facets@ }
    }
}

/// The edge at `k` is named by `a` and `b`.
pub open spec fn names(edges: Seq<EdgeView>, k: int, a: usize, b: usize) -> bool {
    0 <= k < edges.len() && edges[k].start == a && edges[k].end == b
}

/// Some edge of `edges` is named by `a` and `b`.
pub open spec fn listed(edges: Seq<EdgeView>, a: usize, b: usize) -> bool {
    exists|k: int| names(edges, k, a, b)
}

/// The edge `x` comes before the edge `y`: by its start, then by its end.
pub open spec fn before(x: EdgeView, y: EdgeView) -> bool {
    x.start < y.start || (x.start == y.start && x.end < y.end)
}

/// `edges` lists every edge of `facets` once, in order, each with the facets that touch
/// it, in ascending order.
pub open spec fn describes(edges: Seq<EdgeView>, facets: Seq<Seq<usize>>) -> bool {
    &&& sound(edges, facets)
    &&& ordered(edges)
    &&& forall|a: usize, b: usize| #[trigger] is_edge(facets, a, b) ==> listed(edges, a, b)
}

/// The views of `edges`.
pub open spec fn edge_views(edges: Seq<Edge>) -> Seq<EdgeView> {
    Seq::new(edges.len(), |k: int| edges[k]@)
}

/// The edges of a hull.
pub struct EdgeData {
    edges: Vec<Edge>,
}

impl View for EdgeData {
    type V = Seq<EdgeView>;

    closed spec fn view(&self) -> Seq<EdgeView> {
        edge_views(self.edges@)
    }
}

/// `lists[v]` holds, in ascending order, the facets below `upto` that hold `v`, and facet
/// `upto` too where `v` is in `slots`.
pub open spec fn lists_facets_of(
    lists: Seq<Vec<usize>>,
    facets: Seq<Seq<usize>>,
    upto: int,
    slots: Seq<usize>,
    v: int,
) -> bool {
    &&& ascending(lists[v]@)
    &&& forall|g: usize| #[trigger]
        lists[v]@.contains(g) <==> (g < upto && facets[g as int].contains(v as usize)) || (g
            == upto && slots.contains(v as usize))
}

/// For each vertex the facets that hold it, in ascending order.
fn incidence<P, N, S>(hull: &ConvexHull<P, N, S>) -> (lists: Vec<Vec<usize>>)
    ensures
        hull@.wf(),
        lists@.len() == hull@.points.len(),
        forall|v: int|
            0 <= v < lists@.len() ==> #[trigger] lists_facets_of(
                lists@,
                hull@.facets,
                hull@.facets.len() as int,
                Seq::empty(),
                v,
            ),
{
    let vertex_count: usize = hull.vertex_count();
    let facet_count: usize = hull.facet_count();
    let mut lists: Vec<Vec<usize>> = Vec::new();
    let mut v: usize = 0;
    while v < vertex_count
        invariant
            v <= vertex_count,
            lists@.len() == v,
            forall|u: int| 0 <= u < v ==> (#[trigger] lists@[u])@.len() == 0,
        decreases vertex_count - v,
    {
        lists.push(Vec::new());
        v += 1;
    }
    assert forall|u: int| 0 <= u < lists@.len() implies #[trigger] lists_facets_of(
        lists@,
        hull@.facets,
        0,
        Seq::empty(),
        u,
    ) by {
        assert(lists@[u]@.len() == 0);
    }
    let mut f: usize = 0;
    while f < facet_count
        invariant
            f <= facet_count,
            hull@.wf(),
            facet_count == hull@.facets.len(),
            vertex_count == hull@.points.len(),
            lists@.len() == vertex_count,
            forall|u: int|
                0 <= u < lists@.len() ==> #[trigger] lists_facets_of(
                    lists@,
                    hull@.facets,
                    f as int,
                    Seq::empty(),
                    u,
                ),
        decreases facet_count - f,
    {
        let row = hull.facet_row(f);
        let mut j: usize = 0;
        proof {
            assert(row@.take(0) =~= Seq::<usize>::empty());
            assert forall|u: int| 0 <= u < lists@.len() implies #[trigger] lists_facets_of(
                lists@,
                hull@.facets,
                f as int,
                row@.take(0),
                u,
            ) by {
                assert(lists_facets_of(lists@, hull@.facets, f as int, Seq::empty(), u));
            }
        }
        while j < row.len()
            invariant
                j <= row@.len(),
                f < facet_count,
                hull@.wf(),
                facet_count == hull@.facets.len(),
                vertex_count == hull@.points.len(),
                row@ == hull@.facets[f as int],
                lists@.len() == vertex_count,
                forall|u: int|
                    0 <= u < lists@.len() ==> #[trigger] lists_facets_of(
                        lists@,
                        hull@.facets,
                        f as int,
                        row@.take(j as int),
                        u,
                    ),
            decreases row@.len() - j,
        {
            let u: usize = row[j];
            assert(hull@.facets[f as int][j as int] < hull@.points.len());
            let ghost old_lists = lists@;
            assert(lists_facets_of(old_lists, hull@.facets, f as int, row@.take(j as int), u as int));
            insert_sorted(&mut lists[u], f);
            proof {
                let done = row@.take(j as int);
                let next = row@.take(j as int + 1);
                assert forall|t: int| 0 <= t < lists@.len() implies #[trigger] lists_facets_of(
                    lists@,
                    hull@.facets,
                    f as int,
                    next,
                    t,
                ) by {
                    assert(lists_facets_of(old_lists, hull@.facets, f as int, done, t));
                    lemma_take_step(row@, j as int, t as usize);
                    if t != u {
                        assert(lists@[t] == old_lists[t]);
                    }
                }
            }
            j += 1;
        }
        proof {
            assert(row@.take(row@.len() as int) =~= row@);
            let upto = f as int + 1;
            assert forall|u: int| 0 <= u < lists@.len() implies #[trigger] lists_facets_of(
                lists@,
                hull@.facets,
                upto,
                Seq::empty(),
                u,
            ) by {
                assert(lists_facets_of(lists@, hull@.facets, f as int, row@, u));
            }
        }
        f += 1;
    }
    lists
}

/// `row` holds `a` in a slot `i2` and `b` in another slot `j2`, with `i2` below `i`, or
/// `i2` equal to `i` and `j2` below `j`.
pub open spec fn joins_before(row: Seq<usize>, a: usize, b: usize, i: int, j: int) -> bool {
    exists|i2: int, j2: int| #[trigger]
        joins_at(row, a, b, i2, j2) && (i2 < i || (i2 == i && j2 < j))
}

/// Adds to `ends` the vertices at or above `a` that `row` holds in another slot than `a`.
fn partners_in_row(row: &Vec<usize>, a: usize, ends: &mut Vec<usize>)
    requires
        ascending(old(ends)@),
    ensures
        ascending(final(ends)@),
        forall|w: usize|
            final(ends)@.contains(w) <==> old(ends)@.contains(w) || (w >= a && joins(row@, a, w)),
{
    let n: usize = row.len();
    let mut i: usize = 0;
    while i < n
        invariant
            i <= n == row@.len(),
            ascending(ends@),
            forall|w: usize|
                ends@.contains(w) <==> old(ends)@.contains(w) || (w >= a && joins_before(
                    row@,
                    a,
                    w,
                    i as int,
                    0,
                )),
        decreases n - i,
    {
        if row[i] == a {
            let mut j: usize = 0;
            while j < n
                invariant
                    j <= n == row@.len(),
                    i < n,
                    row@[i as int] == a,
                    ascending(ends@),
                    forall|w: usize|
                        ends@.contains(w) <==> old(ends)@.contains(w) || (w >= a && joins_before(
                            row@,
                            a,
                            w,
                            i as int,
                            j as int,
                        )),
                decreases n - j,
            {
                let ghost seen = ends@;
                let b: usize = row[j];
                let add: bool = j != i && b >= a;
                if add {
                    insert_sorted(ends, b);
                }
                proof {
                    assert forall|w: usize|
                        ends@.contains(w) <==> old(ends)@.contains(w) || (w >= a && joins_before(
                            row@,
                            a,
                            w,
                            i as int,
                            j as int + 1,
                        )) by {
                        if joins_before(row@, a, w, i as int, j as int) {
                            let (i2, j2) = choose|i2: int, j2: int| #[trigger]
                                joins_at(row@, a, w, i2, j2) && (i2 < i || (i2 == i && j2 < j));
                            assert(joins_at(row@, a, w, i2, j2) && (i2 < i || (i2 == i && j2 < j
                                + 1)));
                        }
                        if add && w == b {
                            assert(joins_at(row@, a, w, i as int, j as int));
                        }
                        if joins_before(row@, a, w, i as int, j as int + 1) {
                            let (i2, j2) = choose|i2: int, j2: int| #[trigger]
                                joins_at(row@, a, w, i2, j2) && (i2 < i || (i2 == i && j2 < j
                                    + 1));
                            if i2 == i && j2 == j {
                                assert(w == b);
                            } else {
                                assert(joins_at(row@, a, w, i2, j2) && (i2 < i || (i2 == i && j2
                                    < j)));
                            }
                        }
                    }
                }
                j += 1;
            }
        }
        proof {
            assert forall|w: usize|
                ends@.contains(w) <==> old(ends)@.contains(w) || (w >= a && joins_before(
                    row@,
                    a,
                    w,
                    i as int + 1,
                    0,
                )) by {
                if joins_before(row@, a, w, i as int + 1, 0) {
                    let (i2, j2) = choose|i2: int, j2: int| #[trigger]
                        joins_at(row@, a, w, i2, j2) && (i2 < i + 1 || (i2 == i + 1 && j2 < 0));
                    if i2 < i {
                        assert(joins_at(row@, a, w, i2, j2) && (i2 < i || (i2 == i && j2 < 0)));
                    } else {
                        assert(joins_at(row@, a, w, i2, j2) && (i2 < i || (i2 == i && j2 < n)));
                    }
                }
                if row@[i as int] == a {
                    if joins_before(row@, a, w, i as int, n as int) {
                        let (i2, j2) = choose|i2: int, j2: int| #[trigger]
                            joins_at(row@, a, w, i2, j2) && (i2 < i || (i2 == i && j2 < n));
                        assert(joins_at(row@, a, w, i2, j2) && (i2 < i + 1 || (i2 == i + 1 && j2
                            < 0)));
                    }
                } else {
                    if joins_before(row@, a, w, i as int, 0) {
                        let (i2, j2) = choose|i2: int, j2: int| #[trigger]
                            joins_at(row@, a, w, i2, j2) && (i2 < i || (i2 == i && j2 < 0));
                        assert(joins_at(row@, a, w, i2, j2) && (i2 < i + 1 || (i2 == i + 1 && j2
                            < 0)));
                    }
                }
            }
        }
        i += 1;
    }
    proof {
        assert forall|w: usize|
            ends@.contains(w) <==> old(ends)@.contains(w) || (w >= a && joins(row@, a, w)) by {
            if joins(row@, a, w) {
                let (i2, j2) = choose|i2: int, j2: int| joins_at(row@, a, w, i2, j2);
                assert(joins_at(row@, a, w, i2, j2) && (i2 < n || (i2 == n && j2 < 0)));
            }
        }
    }
}

/// Each edge of `edges` is an edge of `facets` and lists the facets that touch it.
pub open spec fn sound(edges: Seq<EdgeView>, facets: Seq<Seq<usize>>) -> bool {
    &&& forall|k: int|
        0 <= k < edges.len() ==> is_edge(facets, (#[trigger] edges[k]).start, edges[k].end)
    &&& forall|k: int| 0 <= k < edges.len() ==> ascending((#[trigger] edges[k]).facets)
    &&& forall|k: int, f: usize|
        0 <= k < edges.len() ==> ((#[trigger] edges[k]).facets.contains(f) <==> #[trigger] touches(
            facets,
            f,
            edges[k].start,
            edges[k].end,
        ))
}

/// The edges of `edges` come in order.
pub open spec fn ordered(edges: Seq<EdgeView>) -> bool {
    forall|k: int, l: int|
        0 <= k < l < edges.len() ==> before(#[trigger] edges[k], #[trigger] edges[l])
}

/// Each edge of `facets` that starts below `a` is in `edges`.
pub open spec fn complete_below(edges: Seq<EdgeView>, facets: Seq<Seq<usize>>, a: int) -> bool {
    forall|x: usize, b: usize| #[trigger]
        is_edge(facets, x, b) && x < a ==> exists|k: int| names(edges, k, x, b)
}

impl EdgeData {
    /// The edges, in order.
    pub fn edges(&self) -> (all: &Vec<Edge>)
        ensures
            edge_views(all@) == self@,
    {
        &self.edges
    }

    /// The number of edges.
    pub fn len(&self) -> (n: usize)
        ensures
            n == self@.len(),
    {
        self.edges.len()
    }

    /// The edges of `hull`, in order, each with the facets that hold one of its ends.
    pub fn new<P, N, S>(hull: &ConvexHull<P, N, S>) -> (data: EdgeData)
        ensures
            describes(data@, hull@.facets),
    {
        let lists = incidence(hull);
        let vertex_count: usize = hull.vertex_count();
        let facet_count: usize = hull.facet_count();
        let ghost facets = hull@.facets;
        let mut edges: Vec<Edge> = Vec::new();
        let mut a: usize = 0;
        while a < vertex_count
            invariant
                a <= vertex_count,
                hull@.wf(),
                facets == hull@.facets,
                facet_count == facets.len(),
                vertex_count == hull@.points.len(),
                lists@.len() == vertex_count,
                forall|v: int|
                    0 <= v < lists@.len() ==> #[trigger] lists_facets_of(
                        lists@,
                        facets,
                        facets.len() as int,
                        Seq::empty(),
                        v,
                    ),
                sound(edge_views(edges@), facets),
                ordered(edge_views(edges@)),
                complete_below(edge_views(edges@), facets, a as int),
                forall|k: int| 0 <= k < edges@.len() ==> (#[trigger] edges@[k]).start < a,
            decreases vertex_count - a,
        {
            let around = &lists[a];
            assert(lists_facets_of(lists@, facets, facets.len() as int, Seq::empty(), a as int));
            let mut ends: Vec<usize> = Vec::new();
            let mut t: usize = 0;
            while t < around.len()
                invariant
                    t <= around@.len(),
                    a < vertex_count,
                    hull@.wf(),
                    facets == hull@.facets,
                    around@ == lists@[a as int]@,
                    lists_facets_of(lists@, facets, facets.len() as int, Seq::empty(), a as int),
                    ascending(ends@),
                    forall|w: usize|
                        ends@.contains(w) <==> w >= a && exists|t2: int|
                            0 <= t2 < t && joins(#[trigger] facets[around@[t2] as int], a, w),
                decreases around@.len() - t,
            {
                let f: usize = around[t];
                assert(around@.contains(around@[t as int]));
                let row = hull.facet_row(f);
                let ghost seen = ends@;
                partners_in_row(row, a, &mut ends);
                proof {
                    assert forall|w: usize|
                        ends@.contains(w) <==> w >= a && exists|t2: int|
                            0 <= t2 < t + 1 && joins(#[trigger] facets[around@[t2] as int], a, w) by {
                        if seen.contains(w) {
                            let t2 = choose|t2: int|
                                0 <= t2 < t && joins(#[trigger] facets[around@[t2] as int], a, w);
                            assert(0 <= t2 < t + 1 && joins(facets[around@[t2] as int], a, w));
                        }
                        if w >= a && joins(row@, a, w) {
                            assert(0 <= t < t + 1 && joins(facets[around@[t as int] as int], a, w));
                        }
                        if w >= a && exists|t2: int|
                            0 <= t2 < t + 1 && joins(#[trigger] facets[around@[t2] as int], a, w) {
                            let t2 = choose|t2: int|
                                0 <= t2 < t + 1 && joins(
                                    #[trigger] facets[around@[t2] as int],
                                    a,
                                    w,
                                );
                            if t2 < t {
                                assert(0 <= t2 < t && joins(facets[around@[t2] as int], a, w));
                            }
                        }
                    }
                }
                t += 1;
            }
            proof {
                assert forall|w: usize| ends@.contains(w) <==> is_edge(facets, a, w) by {
                    if ends@.contains(w) {
                        let t2 = choose|t2: int|
                            0 <= t2 < t && joins(#[trigger] facets[around@[t2] as int], a, w);
                        assert(around@.contains(around@[t2]));
                        assert(facet_joins(facets, around@[t2] as int, a, w));
                    }
                    if is_edge(facets, a, w) {
                        let f = choose|f: int| facet_joins(facets, f, a, w);
                        let (i, j) = choose|i: int, j: int| joins_at(facets[f], a, w, i, j);
                        assert(facets[f][i] == a);
                        assert(facets[f].contains(a));
                        let fu = f as usize;
                        assert(fu as int == f);
                        assert(lists@[a as int]@.contains(fu));
                        let t2 = around@.index_of(fu);
                        assert(0 <= t2 < t && joins(facets[around@[t2] as int], a, w));
                    }
                }
            }
            let ghost settled = edge_views(edges@);
            let mut e: usize = 0;
            while e < ends.len()
                invariant
                    e <= ends@.len(),
                    a < vertex_count,
                    hull@.wf(),
                    facets == hull@.facets,
                    vertex_count == hull@.points.len(),
                    lists@.len() == vertex_count,
                    around@ == lists@[a as int]@,
                    forall|v: int|
                        0 <= v < lists@.len() ==> #[trigger] lists_facets_of(
                            lists@,
                            facets,
                            facets.len() as int,
                            Seq::empty(),
                            v,
                        ),
                    lists_facets_of(lists@, facets, facets.len() as int, Seq::empty(), a as int),
                    ascending(ends@),
                    forall|w: usize| ends@.contains(w) <==> is_edge(facets, a, w),
                    sound(edge_views(edges@), facets),
                    ordered(edge_views(edges@)),
                    complete_below(edge_views(edges@), facets, a as int),
                    forall|k: int|
                        0 <= k < edges@.len() ==> (#[trigger] edges@[k]).start < a || (
                        edges@[k].start == a && exists|e2: int|
                            0 <= e2 < e && #[trigger] ends@[e2] == edges@[k].end),
                    forall|e2: int|
                        0 <= e2 < e ==> listed(edge_views(edges@), a, #[trigger] ends@[e2]),
                decreases ends@.len() - e,
            {
                let b: usize = ends[e];
                proof {
                    assert(ends@.contains(ends@[e as int]));
                    assert(is_edge(facets, a, b));
                    let f = choose|f: int| facet_joins(facets, f, a, b);
                    let (i, j) = choose|i: int, j: int| joins_at(facets[f], a, b, i, j);
                    assert(facets[f][j] < hull@.points.len());
                    assert(lists_facets_of(
                        lists@,
                        facets,
                        facets.len() as int,
                        Seq::empty(),
                        b as int,
                    ));
                }
                let touching = union_sorted(around, &lists[b]);
                let ghost old_edges = edges@;
                let ghost old_views = edge_views(edges@);
                let edge = Edge { start: a, end: b, facets: touching };
                edges.push(edge);
                proof {
                    let views = edge_views(edges@);
                    let last = old_views.len() as int;
                    assert(views.len() == last + 1);
                    assert forall|k: int| 0 <= k < last implies #[trigger] views[k]
                        == old_views[k] && edges@[k] == old_edges[k] by {}
                    assert(views[last].start == a && views[last].end == b);
                    assert forall|f: usize|
                        views[last].facets.contains(f) <==> #[trigger] touches(facets, f, a, b) by {
                        assert(lists_facets_of(
                            lists@,
                            facets,
                            facets.len() as int,
                            Seq::empty(),
                            b as int,
                        ));
                        assert(lists@[a as int]@.contains(f) <==> f < facets.len()
                            && facets[f as int].contains(a));
                        assert(lists@[b as int]@.contains(f) <==> f < facets.len()
                            && facets[f as int].contains(b));
                    }
                    assert forall|k: int, f: usize| 0 <= k < views.len() implies ((
                    #[trigger] views[k]).facets.contains(f) <==> #[trigger] touches(
                        facets,
                        f,
                        views[k].start,
                        views[k].end,
                    )) by {
                        if k < last {
                            assert(old_views[k].facets.contains(f) <==> touches(
                                facets,
                                f,
                                old_views[k].start,
                                old_views[k].end,
                            ));
                        }
                    }
                    assert forall|k: int| 0 <= k < views.len() implies is_edge(
                        facets,
                        (#[trigger] views[k]).start,
                        views[k].end,
                    ) && ascending(views[k].facets) by {
                        if k < last {
                            assert(is_edge(facets, old_views[k].start, old_views[k].end));
                            assert(ascending(old_views[k].facets));
                        }
                    }
                    assert forall|k: int, l: int| 0 <= k < l < views.len() implies before(
                        #[trigger] views[k],
                        #[trigger] views[l],
                    ) by {
                        if l == last {
                            let ek = old_edges[k];
                            assert(views[k] == old_views[k]);
                            if ek.start == a {
                                let e2 = choose|e2: int|
                                    0 <= e2 < e && #[trigger] ends@[e2] == ek.end;
                                assert(ends@[e2] < ends@[e as int]);
                            }
                        } else {
                            assert(before(old_views[k], old_views[l]));
                        }
                    }
                    assert forall|x: usize, y: usize| #[trigger]
                        is_edge(facets, x, y) && x < a implies exists|k: int|
                        names(views, k, x, y) by {
                        let k = choose|k: int| names(old_views, k, x, y);
                        assert(names(views, k, x, y));
                    }
                    assert forall|k: int| 0 <= k < edges@.len() implies (#[trigger] edges@[k]).start
                        < a || (edges@[k].start == a && exists|e2: int|
                        0 <= e2 < e + 1 && #[trigger] ends@[e2] == edges@[k].end) by {
                        if k < last {
                            let ek = old_edges[k];
                            if ek.start == a {
                                let e2 = choose|e2: int|
                                    0 <= e2 < e && #[trigger] ends@[e2] == ek.end;
                                assert(0 <= e2 < e + 1 && ends@[e2] == edges@[k].end);
                            }
                        } else {
                            assert(0 <= e < e + 1 && ends@[e as int] == edges@[k].end);
                        }
                    }
                    assert forall|e2: int| 0 <= e2 < e + 1 implies listed(
                        views,
                        a,
                        #[trigger] ends@[e2],
                    ) by {
                        if e2 < e {
                            assert(listed(old_views, a, ends@[e2]));
                            let k = choose|k: int| names(old_views, k, a, ends@[e2]);
                            assert(names(views, k, a, ends@[e2]));
                        } else {
                            assert(names(views, last, a, ends@[e2]));
                        }
                    }
                }
                e += 1;
            }
            proof {
                let views = edge_views(edges@);
                assert forall|x: usize, y: usize| #[trigger]
                    is_edge(facets, x, y) && x < a + 1 implies exists|k: int|
                    names(views, k, x, y) by {
                    if x == a {
                        assert(ends@.contains(y));
                        let e2 = ends@.index_of(y);
                        assert(ends@[e2] == y);
                        assert(listed(views, a, ends@[e2]));
                    }
                }
            }
            a += 1;
        }
        proof {
            let views = edge_views(edges@);
            assert forall|x: usize, y: usize| #[trigger] is_edge(facets, x, y) implies exists|
                k: int,
            |
                names(views, k, x, y) by {
                let f = choose|f: int| facet_joins(facets, f, x, y);
                let (i, j) = choose|i: int, j: int| joins_at(facets[f], x, y, i, j);
                assert(facets[f][i] < hull@.points.len());
            }
        }
        EdgeData { edges }
    }
}

} // verus!
