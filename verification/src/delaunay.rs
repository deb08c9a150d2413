//! The Delaunay facade: the simplices of a triangulation that are no artifacts of the
//! lift, their vertices and their neighbors, in struct-of-arrays form.
//!
//! As with the hull, the facade never looks into a coordinate: `P` is the type of a point,
//! `N` that of a normal in the lifted space, `S` that of a scalar.

use crate::convex_hull::{copy_list, copy_rows, position, rows_view, RawVertex};
use crate::error::Error;
use crate::ids::{first_seen, lemma_first_seen, IdTable};
use vstd::prelude::*;

verus! {

/// Stands in a neighbor row where the neighbor is an artifact of the lift.
pub const NON_SIMPLEX_IDX: usize = usize::MAX;

/// A neighbor of a simplex as the geometry engine reports it.
pub struct RawNeighbor {
    pub id: u64,
    pub upper_delaunay: bool,
}

/// A simplex as the geometry engine reports it: its vertices by identifier.
pub struct RawSimplex<N, S> {
    pub id: u64,
    /// Whether the simplex is a face of the lifted paraboloid seen from above.
    pub upper_delaunay: bool,
    pub normal: N,
    pub offset: S,
    pub vertices: Vec<u64>,
    pub neighbors: Vec<RawNeighbor>,
}

/// A triangulation as the geometry engine reports it.
pub struct RawDelaunay<P, N, S> {
    pub dim: usize,
    pub vertices: Vec<RawVertex<P>>,
    pub simplices: Vec<RawSimplex<N, S>>,
    pub paraboloid_scale: S,
    pub paraboloid_shift: S,
}

impl<P, N, S> RawDelaunay<P, N, S> {
    /// The identifiers of the vertices, in the order reported.
    pub open spec fn vertex_ids(&self) -> Seq<u64> {
        Seq::new(self.vertices@.len(), |i: int| self.vertices@[i].id)
    }

    /// The number of corners of a simplex.
    pub open spec fn corners(&self) -> nat {
        (self.dim + 1) as nat
    }

    /// The positions, among the first `m` simplices reported, of those that are kept.
    pub open spec fn kept_upto(&self, m: int) -> Seq<int>
        decreases m,
    {
        if m <= 0 {
            Seq::empty()
        } else if self.simplices@[m - 1].upper_delaunay {
            self.kept_upto(m - 1)
        } else {
            self.kept_upto(m - 1).push(m - 1)
        }
    }

    /// The positions of the simplices that are kept: all but the upper-Delaunay ones.
    pub open spec fn kept(&self) -> Seq<int> {
        self.kept_upto(self.simplices@.len() as int)
    }

    /// The identifiers of the simplices that are kept, in the order reported.
    pub open spec fn kept_ids(&self) -> Seq<u64> {
        Seq::new(self.kept().len(), |k: int| self.simplices@[self.kept()[k]].id)
    }

    /// The identifiers of the kept simplices among the first `m` reported.
    pub open spec fn kept_ids_upto(&self, m: int) -> Seq<u64> {
        Seq::new(self.kept_upto(m).len(), |k: int| self.simplices@[self.kept_upto(m)[k]].id)
    }

    /// The corners of the kept simplices among the first `m` reported, one simplex after
    /// the other.
    pub open spec fn corners_upto(&self, m: int) -> Seq<u64>
        decreases m,
    {
        if m <= 0 {
            Seq::empty()
        } else if self.simplices@[m - 1].upper_delaunay {
            self.corners_upto(m - 1)
        } else {
            self.corners_upto(m - 1) + self.simplices@[m - 1].vertices@.take(
                self.corners() as int,
            )
        }
    }

    /// The identifiers of the vertices that a kept simplex uses, in the order in which the
    /// kept simplices first name them.
    pub open spec fn vertex_order(&self) -> Seq<u64> {
        first_seen(self.corners_upto(self.simplices@.len() as int))
    }

    /// Simplex `m` of the report names enough vertices and neighbors, all of them known.
    pub open spec fn simplex_known(&self, m: int) -> bool {
        let s = self.simplices@[m];
        &&& self.corners() <= s.vertices@.len()
        &&& self.corners() <= s.neighbors@.len()
        &&& forall|j: int|
            0 <= j < self.corners() ==> self.vertex_ids().contains(#[trigger] s.vertices@[j])
        &&& forall|j: int|
            0 <= j < self.corners() && !(#[trigger] s.neighbors@[j]).upper_delaunay
                ==> self.kept_ids().contains(s.neighbors@[j].id)
    }

    /// No vertex and no kept simplex is reported twice, and each kept simplex names
    /// `dim + 1` known vertices and `dim + 1` neighbors that are upper Delaunay or kept.
    pub open spec fn consistent(&self) -> bool {
        &&& self.dim < usize::MAX
        &&& self.vertex_ids().no_duplicates()
        &&& self.kept_ids().no_duplicates()
        &&& forall|m: int|
            0 <= m < self.simplices@.len() && !(#[trigger] self.simplices@[m]).upper_delaunay
                ==> self.simplex_known(m)
    }

    /// The entry of a neighbor row for the neighbor `n`.
    pub open spec fn neighbor_entry(&self, n: RawNeighbor) -> usize {
        if n.upper_delaunay {
            NON_SIMPLEX_IDX
        } else {
            position(self.kept_ids(), n.id)
        }
    }

    /// The facade of a consistent report.
    pub open spec fn facade(&self) -> DelaunayView<P, N, S> {
        DelaunayView {
            dim: self.dim as nat,
            points: Seq::new(
                self.vertex_order().len(),
                |i: int| self.vertices@[position(self.vertex_ids(), self.vertex_order()[i]) as int].point,
            ),
            simplices: Seq::new(
                self.kept().len(),
                |k: int|
                    Seq::new(
                        self.corners(),
                        |j: int|
                            position(
                                self.vertex_order(),
                                self.simplices@[self.kept()[k]].vertices@[j],
                            ),
                    ),
            ),
            neighbors: Seq::new(
                self.kept().len(),
                |k: int|
                    Seq::new(
                        self.corners(),
                        |j: int| self.neighbor_entry(self.simplices@[self.kept()[k]].neighbors@[j]),
                    ),
            ),
            normals: Seq::new(self.kept().len(), |k: int| self.simplices@[self.kept()[k]].normal),
            offsets: Seq::new(self.kept().len(), |k: int| self.simplices@[self.kept()[k]].offset),
            paraboloid_scale: self.paraboloid_scale,
            paraboloid_shift: self.paraboloid_shift,
        }
    }

    /// The kept positions are below the number of simplices looked at, and ascend.
    pub proof fn lemma_kept_upto(&self, m: int)
        requires
            0 <= m <= self.simplices@.len(),
        ensures
            self.kept_upto(m).len() <= m,
            forall|k: int|
                0 <= k < self.kept_upto(m).len() ==> 0 <= (#[trigger] self.kept_upto(m)[k]) < m
                    && !self.simplices@[self.kept_upto(m)[k]].upper_delaunay,
            forall|g: int|
                0 <= g < m && !(#[trigger] self.simplices@[g]).upper_delaunay ==> self.kept_upto(
                    m,
                ).contains(g),
            forall|n: int|
                m <= n <= self.simplices@.len() ==> self.kept_upto(m).len() <= (
                #[trigger] self.kept_upto(n)).len() && self.kept_upto(n).take(
                    self.kept_upto(m).len() as int,
                ) == self.kept_upto(m),
    {
        self.lemma_kept_members(m);
        assert forall|n: int| m <= n <= self.simplices@.len() implies self.kept_upto(m).len() <= (
        #[trigger] self.kept_upto(n)).len() && self.kept_upto(n).take(
            self.kept_upto(m).len() as int,
        ) == self.kept_upto(m) by {
            self.lemma_kept_prefix(m, n);
        }
    }

    proof fn lemma_kept_members(&self, m: int)
        requires
            0 <= m <= self.simplices@.len(),
        ensures
            self.kept_upto(m).len() <= m,
            forall|k: int|
                0 <= k < self.kept_upto(m).len() ==> 0 <= (#[trigger] self.kept_upto(m)[k]) < m
                    && !self.simplices@[self.kept_upto(m)[k]].upper_delaunay,
            forall|g: int|
                0 <= g < m && !(#[trigger] self.simplices@[g]).upper_delaunay ==> self.kept_upto(
                    m,
                ).contains(g),
        decreases m,
    {
        if m > 0 {
            self.lemma_kept_members(m - 1);
            let before = self.kept_upto(m - 1);
            assert forall|g: int|
                0 <= g < m && !(#[trigger] self.simplices@[g]).upper_delaunay implies self.kept_upto(
                m,
            ).contains(g) by {
                if g < m - 1 {
                    assert(before.contains(g));
                    let k = before.index_of(g);
                    assert(self.kept_upto(m)[k] == g);
                } else {
                    assert(self.kept_upto(m)[before.len() as int] == g);
                }
            }
        }
    }

    proof fn lemma_kept_prefix(&self, m: int, n: int)
        requires
            0 <= m <= n <= self.simplices@.len(),
        ensures
            self.kept_upto(m).len() <= self.kept_upto(n).len(),
            self.kept_upto(n).take(self.kept_upto(m).len() as int) == self.kept_upto(m),
        decreases n - m,
    {
        if m < n {
            self.lemma_kept_prefix(m, n - 1);
            let before = self.kept_upto(n - 1);
            let len = self.kept_upto(m).len() as int;
            assert(before.take(len) == self.kept_upto(m));
            assert(self.kept_upto(n).take(len) =~= before.take(len));
        } else {
            assert(self.kept_upto(n).take(self.kept_upto(m).len() as int) =~= self.kept_upto(m));
        }
    }
}

impl<P, N, S> RawDelaunay<P, N, S> {
    /// Each corner gathered from the first `m` simplices is a corner of a kept simplex
    /// among them.
    proof fn lemma_corners_upto(&self, m: int, id: u64)
        requires
            0 <= m <= self.simplices@.len(),
            forall|g: int|
                0 <= g < m && !(#[trigger] self.simplices@[g]).upper_delaunay ==> self.corners()
                    <= self.simplices@[g].vertices@.len(),
            self.corners_upto(m).contains(id),
        ensures
            exists|g: int, j: int|
                0 <= g < m && !self.simplices@[g].upper_delaunay && 0 <= j < self.corners()
                    && j < self.simplices@[g].vertices@.len()
                    && #[trigger] self.simplices@[g].vertices@[j] == id,
        decreases m,
    {
        if m > 0 {
            let before = self.corners_upto(m - 1);
            let simplex = self.simplices@[m - 1];
            if simplex.upper_delaunay {
                self.lemma_corners_upto(m - 1, id);
            } else {
                let corner = simplex.vertices@.take(self.corners() as int);
                let at = self.corners_upto(m).index_of(id);
                if at < before.len() {
                    assert(before[at] == id);
                    self.lemma_corners_upto(m - 1, id);
                } else {
                    let j = at - before.len();
                    assert(corner[j] == id);
                    assert(0 <= m - 1 < m && !self.simplices@[m - 1].upper_delaunay && 0 <= j
                        < self.corners() && self.simplices@[m - 1].vertices@[j] == id);
                }
            }
        }
    }

    /// Every vertex of the facade is a corner of one of its simplices.
    pub proof fn lemma_every_vertex_is_used(&self, v: int)
        requires
            self.consistent(),
            self.facade().wf(),
            0 <= v < self.facade().points.len(),
        ensures
            exists|k: int, j: int|
                0 <= k < self.facade().simplices.len() && 0 <= j < self.corners()
                    && #[trigger] self.facade().simplices[k][j] == v,
    {
        let order = self.vertex_order();
        let total = self.simplices@.len() as int;
        lemma_first_seen(self.corners_upto(total));
        let id = order[v];
        assert(order.contains(id));
        assert(self.corners_upto(total).contains(id));
        assert forall|g: int|
            0 <= g < total && !(#[trigger] self.simplices@[g]).upper_delaunay implies self.corners()
            <= self.simplices@[g].vertices@.len() by {
            assert(self.simplex_known(g));
        }
        self.lemma_corners_upto(total, id);
        let (g, j) = choose|g: int, j: int|
            0 <= g < total && !self.simplices@[g].upper_delaunay && 0 <= j < self.corners() && j
                < self.simplices@[g].vertices@.len() && #[trigger] self.simplices@[g].vertices@[j]
                == id;
        self.lemma_kept_upto(total);
        assert(self.kept().contains(g));
        let k = self.kept().index_of(g);
        assert(self.kept()[k] == g);
        assert(order.index_of(id) == v) by {
            assert(order[v] == id);
        }
        assert(self.facade().simplices[k][j] == position(order, id));
        assert(self.facade().simplices[k][j] == v);
    }
}

/// What a `Delaunay` holds.
pub struct DelaunayView<P, N, S> {
    pub dim: nat,
    pub points: Seq<P>,
    pub simplices: Seq<Seq<usize>>,
    pub neighbors: Seq<Seq<usize>>,
    pub normals: Seq<N>,
    pub offsets: Seq<S>,
    pub paraboloid_scale: S,
    pub paraboloid_shift: S,
}

impl<P, N, S> DelaunayView<P, N, S> {
    /// Each simplex has `dim + 1` vertices, all of the triangulation, and `dim + 1`
    /// neighbor entries, each a simplex of the triangulation or `NON_SIMPLEX_IDX`.
    pub open spec fn wf(&self) -> bool {
        &&& self.dim < usize::MAX
        &&& self.points.len() <= usize::MAX
        &&& self.simplices.len() <= usize::MAX
        &&& self.neighbors.len() == self.simplices.len()
        &&& self.normals.len() == self.simplices.len()
        &&& self.offsets.len() == self.simplices.len()
        &&& forall|s: int|
            0 <= s < self.simplices.len() ==> (#[trigger] self.simplices[s]).len() == self.dim + 1
        &&& forall|s: int|
            0 <= s < self.simplices.len() ==> (#[trigger] self.neighbors[s]).len() == self.dim + 1
        &&& forall|s: int, j: int|
            0 <= s < self.simplices.len() && 0 <= j <= self.dim ==> (
            #[trigger] self.simplices[s][j]) < self.points.len()
        &&& forall|s: int, j: int|
            0 <= s < self.simplices.len() && 0 <= j <= self.dim ==> (
            #[trigger] self.neighbors[s][j]) < self.simplices.len() || self.neighbors[s][j]
                == NON_SIMPLEX_IDX
    }
}

/// An N-dimensional Delaunay triangulation.
pub struct Delaunay<P, N, S> {
    dim: usize,
    vertices: Vec<P>,
    simplices: Vec<Vec<usize>>,
    neighbors: Vec<Vec<usize>>,
    normals: Vec<N>,
    offsets: Vec<S>,
    paraboloid_scale: S,
    paraboloid_shift: S,
}

impl<P, N, S> View for Delaunay<P, N, S> {
    type V = DelaunayView<P, N, S>;

    closed spec fn view(&self) -> DelaunayView<P, N, S> {
        DelaunayView {
            dim: self.dim as nat,
            points: self.vertices@,
            simplices: rows_view(self.simplices@),
            neighbors: rows_view(self.neighbors@),
            normals: self.normals@,
            offsets: self.offsets@,
            paraboloid_scale: self.paraboloid_scale,
            paraboloid_shift: self.paraboloid_shift,
        }
    }
}

impl<P, N, S> Delaunay<P, N, S> {
    #[verifier::type_invariant]
    spec fn inv(self) -> bool {
        self@.wf()
    }

    /// The dimension of the space the triangulation lies in.
    pub fn dim(&self) -> (d: usize)
        ensures
            d == self@.dim,
            self@.wf(),
    {
        proof {
            use_type_invariant(self);
        }
        self.dim
    }

    /// The number of vertices.
    pub fn vertex_count(&self) -> (n: usize)
        ensures
            n == self@.points.len(),
            self@.wf(),
    {
        proof {
            use_type_invariant(self);
        }
        self.vertices.len()
    }

    /// The number of simplices.
    pub fn simplex_count(&self) -> (n: usize)
        ensures
            n == self@.simplices.len(),
            self@.wf(),
    {
        proof {
            use_type_invariant(self);
        }
        self.simplices.len()
    }

    /// The point of vertex `i`.
    pub fn point_at(&self, i: usize) -> (p: &P)
        requires
            i < self@.points.len(),
        ensures
            *p == self@.points[i as int],
    {
        &self.vertices[i]
    }

    /// The normal of simplex `s` in the lifted space.
    pub fn normal_at(&self, s: usize) -> (n: &N)
        requires
            s < self@.simplices.len(),
        ensures
            self@.wf(),
            *n == self@.normals[s as int],
    {
        proof {
            use_type_invariant(self);
        }
        &self.normals[s]
    }

    /// The offset of simplex `s` in the lifted space.
    pub fn offset_at(&self, s: usize) -> (o: &S)
        requires
            s < self@.simplices.len(),
        ensures
            self@.wf(),
            *o == self@.offsets[s as int],
    {
        proof {
            use_type_invariant(self);
        }
        &self.offsets[s]
    }

    /// The vertex numbers of simplex `s`.
    pub fn simplex_row(&self, s: usize) -> (row: &Vec<usize>)
        requires
            s < self@.simplices.len(),
        ensures
            row@ == self@.simplices[s as int],
            self@.wf(),
    {
        proof {
            use_type_invariant(self);
        }
        &self.simplices[s]
    }

    /// The neighbor entries of simplex `s`: entry `j` is the simplex across the face
    /// opposite corner `j`, or `NON_SIMPLEX_IDX`.
    pub fn neighbor_row(&self, s: usize) -> (row: &Vec<usize>)
        requires
            s < self@.simplices.len(),
        ensures
            row@ == self@.neighbors[s as int],
            self@.wf(),
    {
        proof {
            use_type_invariant(self);
        }
        &self.neighbors[s]
    }

    /// The factor of `|p|^2` in the lift of a point `p`.
    pub fn paraboloid_scale(&self) -> (s: &S)
        ensures
            *s == self@.paraboloid_scale,
    {
        &self.paraboloid_scale
    }

    /// The constant added in the lift of a point.
    pub fn paraboloid_shift(&self) -> (s: &S)
        ensures
            *s == self@.paraboloid_shift,
    {
        &self.paraboloid_shift
    }

    /// All vertices of the triangulation, in the order of their numbers.
    pub fn vertices<'a>(&'a self) -> (all: Vec<Vertex<'a, P, N, S>>)
        ensures
            all@.len() == self@.points.len(),
            forall|i: int|
                0 <= i < all@.len() ==> (#[trigger] all@[i]).delaunay_view() == self@
                    && all@[i].index_spec() == i,
    {
        proof {
            use_type_invariant(self);
        }
        let mut all: Vec<Vertex<'a, P, N, S>> = Vec::new();
        let mut i: usize = 0;
        while i < self.vertices.len()
            invariant
                i <= self.vertices@.len(),
                self@.wf(),
                self@.points == self.vertices@,
                all@.len() == i,
                forall|k: int|
                    0 <= k < i ==> (#[trigger] all@[k]).delaunay_view() == self@
                        && all@[k].index_spec() == k,
            decreases self.vertices@.len() - i,
        {
            all.push(Vertex { delaunay: self, idx: i });
            i += 1;
        }
        all
    }

    /// All simplices of the triangulation, in the order of their numbers.
    pub fn simplices<'a>(&'a self) -> (all: Vec<Simplex<'a, P, N, S>>)
        ensures
            all@.len() == self@.simplices.len(),
            forall|i: int|
                0 <= i < all@.len() ==> (#[trigger] all@[i]).delaunay_view() == self@
                    && all@[i].index_spec() == i,
    {
        proof {
            use_type_invariant(self);
        }
        let mut all: Vec<Simplex<'a, P, N, S>> = Vec::new();
        let mut i: usize = 0;
        while i < self.simplices.len()
            invariant
                i <= self.simplices@.len(),
                self@.wf(),
                self@.simplices.len() == self.simplices@.len(),
                all@.len() == i,
                forall|k: int|
                    0 <= k < i ==> (#[trigger] all@[k]).delaunay_view() == self@
                        && all@[k].index_spec() == k,
            decreases self.simplices@.len() - i,
        {
            all.push(Simplex { delaunay: self, idx: i });
            i += 1;
        }
        all
    }
}

/// A vertex of a Delaunay triangulation: the triangulation and the vertex's number.
pub struct Vertex<'a, P, N, S> {
    delaunay: &'a Delaunay<P, N, S>,
    idx: usize,
}

impl<'a, P, N, S> Vertex<'a, P, N, S> {
    #[verifier::type_invariant]
    spec fn inv(self) -> bool {
        self.delaunay@.wf() && self.idx < self.delaunay@.points.len()
    }

    /// What the triangulation of this vertex holds.
    pub closed spec fn delaunay_view(&self) -> DelaunayView<P, N, S> {
        self.delaunay@
    }

    /// The number of this vertex.
    pub closed spec fn index_spec(&self) -> usize {
        self.idx
    }

    /// The point at which this vertex is located.
    pub fn point(&self) -> (p: &'a P)
        ensures
            self.index_spec() < self.delaunay_view().points.len(),
            *p == self.delaunay_view().points[self.index_spec() as int],
    {
        proof {
            use_type_invariant(self);
        }
        &self.delaunay.vertices[self.idx]
    }

    /// The number of this vertex in its triangulation.
    pub fn index(&self) -> (i: usize)
        ensures
            i == self.index_spec(),
            i < self.delaunay_view().points.len(),
    {
        proof {
            use_type_invariant(self);
        }
        self.idx
    }
}

/// A simplex of a Delaunay triangulation: the triangulation and the simplex's number.
pub struct Simplex<'a, P, N, S> {
    delaunay: &'a Delaunay<P, N, S>,
    idx: usize,
}

impl<'a, P, N, S> Simplex<'a, P, N, S> {
    #[verifier::type_invariant]
    spec fn inv(self) -> bool {
        self.delaunay@.wf() && self.idx < self.delaunay@.simplices.len()
    }

    /// What the triangulation of this simplex holds.
    pub closed spec fn delaunay_view(&self) -> DelaunayView<P, N, S> {
        self.delaunay@
    }

    /// The number of this simplex.
    pub closed spec fn index_spec(&self) -> usize {
        self.idx
    }

    /// The vertices that make up this simplex, in the order of its row.
    pub fn vertices(&self) -> (all: Vec<Vertex<'a, P, N, S>>)
        ensures
            self.index_spec() < self.delaunay_view().simplices.len(),
            all@.len() == self.delaunay_view().dim + 1,
            forall|j: int|
                0 <= j < all@.len() ==> (#[trigger] all@[j]).delaunay_view()
                    == self.delaunay_view() && all@[j].index_spec()
                    == self.delaunay_view().simplices[self.index_spec() as int][j],
    {
        proof {
            use_type_invariant(self);
        }
        let delaunay = self.delaunay;
        let row = &delaunay.simplices[self.idx];
        let mut all: Vec<Vertex<'a, P, N, S>> = Vec::new();
        let mut j: usize = 0;
        while j < row.len()
            invariant
                j <= row@.len(),
                delaunay@.wf(),
                delaunay@ == self.delaunay_view(),
                self.index_spec() < delaunay@.simplices.len(),
                row@ == delaunay@.simplices[self.index_spec() as int],
                all@.len() == j,
                forall|k: int|
                    0 <= k < j ==> (#[trigger] all@[k]).delaunay_view() == delaunay@
                        && all@[k].index_spec() == row@[k],
            decreases row@.len() - j,
        {
            assert(delaunay@.simplices[self.index_spec() as int][j as int]
                < delaunay@.points.len());
            all.push(Vertex { delaunay, idx: row[j] });
            j += 1;
        }
        all
    }

    /// The simplices next to this simplex, in the order of its neighbor row: entry `j` lies
    /// across the face opposite corner `j`, and is `None` where that neighbor is upper
    /// Delaunay.
    pub fn neighbors(&self) -> (all: Vec<Option<Simplex<'a, P, N, S>>>)
        ensures
            self.index_spec() < self.delaunay_view().simplices.len(),
            all@.len() == self.delaunay_view().dim + 1,
            forall|j: int|
                0 <= j < all@.len() ==> match #[trigger] all@[j] {
                    Some(near) => near.delaunay_view() == self.delaunay_view()
                        && near.index_spec()
                        == self.delaunay_view().neighbors[self.index_spec() as int][j],
                    None => self.delaunay_view().neighbors[self.index_spec() as int][j]
                        == NON_SIMPLEX_IDX,
                },
    {
        proof {
            use_type_invariant(self);
        }
        let delaunay = self.delaunay;
        let row = &delaunay.neighbors[self.idx];
        let mut all: Vec<Option<Simplex<'a, P, N, S>>> = Vec::new();
        let mut j: usize = 0;
        while j < row.len()
            invariant
                j <= row@.len(),
                delaunay@.wf(),
                delaunay@ == self.delaunay_view(),
                self.index_spec() < delaunay@.simplices.len(),
                row@ == delaunay@.neighbors[self.index_spec() as int],
                all@.len() == j,
                forall|k: int|
                    0 <= k < j ==> match #[trigger] all@[k] {
                        Some(near) => near.delaunay_view() == delaunay@ && near.index_spec()
                            == row@[k],
                        None => row@[k] == NON_SIMPLEX_IDX,
                    },
            decreases row@.len() - j,
        {
            let entry: usize = row[j];
            assert(delaunay@.neighbors[self.index_spec() as int][j as int]
                < delaunay@.simplices.len() || entry == NON_SIMPLEX_IDX);
            if entry == NON_SIMPLEX_IDX {
                all.push(None);
            } else {
                all.push(Some(Simplex { delaunay, idx: entry }));
            }
            j += 1;
        }
        all
    }

    /// The normal of this simplex in the lifted space.
    pub fn normal(&self) -> (n: &'a N)
        ensures
            self.index_spec() < self.delaunay_view().normals.len(),
            *n == self.delaunay_view().normals[self.index_spec() as int],
    {
        proof {
            use_type_invariant(self);
        }
        &self.delaunay.normals[self.idx]
    }

    /// The offset of this simplex in the lifted space.
    pub fn offset(&self) -> (s: &'a S)
        ensures
            self.index_spec() < self.delaunay_view().offsets.len(),
            *s == self.delaunay_view().offsets[self.index_spec() as int],
    {
        proof {
            use_type_invariant(self);
        }
        &self.delaunay.offsets[self.idx]
    }

    /// The number of this simplex in its triangulation.
    pub fn index(&self) -> (i: usize)
        ensures
            i == self.index_spec(),
            i < self.delaunay_view().simplices.len(),
    {
        proof {
            use_type_invariant(self);
        }
        self.idx
    }
}

impl<'a, P, N, S> Clone for Vertex<'a, P, N, S> {
    fn clone(&self) -> (copy: Self)
        ensures
            copy == *self,
    {
        proof {
            use_type_invariant(self);
        }
        Vertex { delaunay: self.delaunay, idx: self.idx }
    }
}

impl<'a, P, N, S> Copy for Vertex<'a, P, N, S> {
}

/// Two vertices of one triangulation are equal where they have the same number. Vertices of
/// different triangulations are not meant to be compared.
impl<'a, P, N, S> PartialEq for Vertex<'a, P, N, S> {
    fn eq(&self, other: &Self) -> (same: bool) {
        self.idx == other.idx
    }
}

impl<'a, P, N, S> Eq for Vertex<'a, P, N, S> {
}

impl<'a, P, N, S> vstd::std_specs::cmp::PartialEqSpecImpl for Vertex<'a, P, N, S> {
    open spec fn obeys_eq_spec() -> bool {
        true
    }

    open spec fn eq_spec(&self, other: &Self) -> bool {
        self.index_spec() == other.index_spec()
    }
}

impl<'a, P, N, S> Clone for Simplex<'a, P, N, S> {
    fn clone(&self) -> (copy: Self)
        ensures
            copy == *self,
    {
        proof {
            use_type_invariant(self);
        }
        Simplex { delaunay: self.delaunay, idx: self.idx }
    }
}

impl<'a, P, N, S> Copy for Simplex<'a, P, N, S> {
}

/// Two simplices of one triangulation are equal where they have the same number. Simplices of
/// different triangulations are not meant to be compared.
impl<'a, P, N, S> PartialEq for Simplex<'a, P, N, S> {
    fn eq(&self, other: &Self) -> (same: bool) {
        self.idx == other.idx
    }
}

impl<'a, P, N, S> Eq for Simplex<'a, P, N, S> {
}

impl<'a, P, N, S> vstd::std_specs::cmp::PartialEqSpecImpl for Simplex<'a, P, N, S> {
    open spec fn obeys_eq_spec() -> bool {
        true
    }

    open spec fn eq_spec(&self, other: &Self) -> bool {
        self.index_spec() == other.index_spec()
    }
}

impl<P: Copy, N: Copy, S: Copy> Clone for Delaunay<P, N, S> {
    fn clone(&self) -> (copy: Self)
        ensures
            copy@ == self@,
    {
        proof {
            use_type_invariant(self);
        }
        Delaunay {
            dim: self.dim,
            vertices: copy_list(&self.vertices),
            simplices: copy_rows(&self.simplices),
            neighbors: copy_rows(&self.neighbors),
            normals: copy_list(&self.normals),
            offsets: copy_list(&self.offsets),
            paraboloid_scale: self.paraboloid_scale,
            paraboloid_shift: self.paraboloid_shift,
        }
    }
}

/// `first_seen` of a sequence with one more identifier.
proof fn lemma_first_seen_push(keys: Seq<u64>, id: u64)
    ensures
        first_seen(keys.push(id)) == if first_seen(keys).contains(id) {
            first_seen(keys)
        } else {
            first_seen(keys).push(id)
        },
{
    assert(keys.push(id).drop_last() =~= keys);
}

/// In a sequence without repetition an identifier stands at one position only.
proof fn lemma_position(ids: Seq<u64>, i: int)
    requires
        ids.no_duplicates(),
        0 <= i < ids.len(),
    ensures
        ids.index_of(ids[i]) == i,
{
    assert(ids.contains(ids[i]));
}

/// Numbers the vertices of the report. `None` where one is reported twice.
fn number_vertices<P, N, S>(raw: &RawDelaunay<P, N, S>) -> (r: Option<IdTable>)
    ensures
        match r {
            Some(table) => table.wf() && table@ == raw.vertex_ids()
                && raw.vertex_ids().no_duplicates(),
            None => !raw.vertex_ids().no_duplicates(),
        },
{
    let mut table = IdTable::new();
    let mut i: usize = 0;
    while i < raw.vertices.len()
        invariant
            i <= raw.vertices@.len(),
            table.wf(),
            table@ == raw.vertex_ids().subrange(0, i as int),
        decreases raw.vertices@.len() - i,
    {
        let (_, fresh) = table.intern(raw.vertices[i].id);
        if !fresh {
            proof {
                let ids = raw.vertex_ids();
                let j = choose|j: int| 0 <= j < i && ids.subrange(0, i as int)[j] == ids[i as int];
                assert(ids[j] == ids[i as int]);
            }
            return None;
        }
        proof {
            assert(table@ =~= raw.vertex_ids().subrange(0, i + 1));
        }
        i += 1;
    }
    proof {
        table.lemma_wf();
        assert(table@ =~= raw.vertex_ids());
    }
    Some(table)
}

impl<P: Copy, N: Copy, S: Copy> Delaunay<P, N, S> {
    /// Builds the facade from the geometry engine's report.
    ///
    /// The simplices kept are those that are not upper Delaunay, numbered in the order
    /// reported. The vertices kept are those that a kept simplex names among its first
    /// `dim + 1`, numbered in the order in which the kept simplices first name them. A
    /// neighbor row holds `NON_SIMPLEX_IDX` where the neighbor is upper Delaunay, and the
    /// neighbor's number elsewhere. A report that is not consistent is refused.
    pub fn from_qhull_raw(raw: RawDelaunay<P, N, S>) -> (res: Result<Self, Error>)
        ensures
            match res {
                Ok(tri) => raw.consistent() && tri@ == raw.facade() && tri@.wf(),
                Err(e) => e == Error::HullConstructionFailed && !raw.consistent(),
            },
    {
        if raw.dim == usize::MAX {
            return Err(Error::HullConstructionFailed);
        }
        let corners: usize = raw.dim + 1;
        let raw_table = match number_vertices(&raw) {
            Some(table) => table,
            None => {
                return Err(Error::HullConstructionFailed);
            },
        };
        let total: usize = raw.simplices.len();
        let mut simplex_table = IdTable::new();
        let mut order_table = IdTable::new();
        let mut points: Vec<P> = Vec::new();
        let mut normals: Vec<N> = Vec::new();
        let mut offsets: Vec<S> = Vec::new();
        let mut simplices: Vec<Vec<usize>> = Vec::new();
        let mut m: usize = 0;
        while m < total
            invariant
                m <= total == raw.simplices@.len(),
                corners == raw.corners(),
                raw_table.wf(),
                raw_table@ == raw.vertex_ids(),
                raw.vertex_ids().no_duplicates(),
                simplex_table.wf(),
                simplex_table@ == raw.kept_ids_upto(m as int),
                order_table.wf(),
                order_table@ == first_seen(raw.corners_upto(m as int)),
                points@.len() == order_table@.len(),
                forall|i: int|
                    0 <= i < points@.len() ==> (#[trigger] points@[i])
                        == raw.vertices@[position(raw.vertex_ids(), order_table@[i]) as int].point,
                simplices@.len() == raw.kept_upto(m as int).len(),
                normals@.len() == simplices@.len(),
                offsets@.len() == simplices@.len(),
                forall|k: int|
                    0 <= k < simplices@.len() ==> (#[trigger] normals@[k])
                        == raw.simplices@[raw.kept_upto(m as int)[k]].normal,
                forall|k: int|
                    0 <= k < simplices@.len() ==> (#[trigger] offsets@[k])
                        == raw.simplices@[raw.kept_upto(m as int)[k]].offset,
                forall|k: int|
                    0 <= k < simplices@.len() ==> (#[trigger] simplices@[k])@.len() == corners,
                forall|k: int, j: int|
                    0 <= k < simplices@.len() && 0 <= j < corners ==> (
                    #[trigger] simplices@[k]@[j]) < order_table@.len()
                        && order_table@[simplices@[k]@[j] as int]
                        == raw.simplices@[raw.kept_upto(m as int)[k]].vertices@[j],
                forall|g: int|
                    0 <= g < m && !(#[trigger] raw.simplices@[g]).upper_delaunay ==> corners
                        <= raw.simplices@[g].vertices@.len() && forall|j: int|
                        0 <= j < corners ==> raw.vertex_ids().contains(
                            #[trigger] raw.simplices@[g].vertices@[j],
                        ),
            decreases total - m,
        {
            let simplex = &raw.simplices[m];
            if simplex.upper_delaunay {
                m += 1;
                continue ;
            }
            proof {
                raw.lemma_kept_upto(m as int);
                raw.lemma_kept_upto(m as int + 1);
            }
            let ghost kept_before = raw.kept_upto(m as int);
            let ghost kept_after = raw.kept_upto(m as int + 1);
            assert(kept_after == kept_before.push(m as int));
            let (_, fresh) = simplex_table.intern(simplex.id);
            if !fresh {
                proof {
                    let before = raw.kept_ids_upto(m as int);
                    let k = choose|k: int| 0 <= k < before.len() && before[k] == simplex.id;
                    let all = raw.kept();
                    let len = kept_before.len() as int;
                    assert(all.take(len) == kept_before);
                    assert(all.take(len + 1) == kept_after);
                    assert(all.take(len)[k] == all[k]);
                    assert(all.take(len + 1)[len] == all[len]);
                    assert(raw.kept_ids()[k] == simplex.id);
                    assert(raw.kept_ids()[len] == simplex.id);
                }
                return Err(Error::HullConstructionFailed);
            }
            if simplex.vertices.len() < corners {
                assert(!raw.simplex_known(m as int));
                return Err(Error::HullConstructionFailed);
            }
            let ghost flat = raw.corners_upto(m as int);
            let ghost corner = simplex.vertices@.take(corners as int);
            let mut row: Vec<usize> = Vec::new();
            let mut j: usize = 0;
            while j < corners
                invariant
                    j <= corners <= simplex.vertices@.len(),
                    m < raw.simplices@.len(),
                    *simplex == raw.simplices@[m as int],
                    !simplex.upper_delaunay,
                    corners == raw.corners(),
                    corner == simplex.vertices@.take(corners as int),
                    raw_table.wf(),
                    raw_table@ == raw.vertex_ids(),
                    raw.vertex_ids().no_duplicates(),
                    order_table.wf(),
                    order_table@ == first_seen(flat + corner.take(j as int)),
                    points@.len() == order_table@.len(),
                    forall|i: int|
                        0 <= i < points@.len() ==> (#[trigger] points@[i])
                            == raw.vertices@[position(raw.vertex_ids(), order_table@[i]) as int].point,
                    row@.len() == j,
                    forall|i: int|
                        0 <= i < j ==> (#[trigger] row@[i]) < order_table@.len()
                            && order_table@[row@[i] as int] == simplex.vertices@[i],
                    forall|i: int|
                        0 <= i < j ==> raw.vertex_ids().contains(#[trigger] simplex.vertices@[i]),
                    simplices@.len() == kept_before.len(),
                    forall|k: int|
                        0 <= k < simplices@.len() ==> (#[trigger] simplices@[k])@.len()
                            == corners,
                    forall|k: int, i: int|
                        0 <= k < simplices@.len() && 0 <= i < corners ==> (
                        #[trigger] simplices@[k]@[i]) < order_table@.len()
                            && order_table@[simplices@[k]@[i] as int]
                            == raw.simplices@[kept_before[k]].vertices@[i],
                decreases corners - j,
            {
                let id: u64 = simplex.vertices[j];
                let at: usize = match raw_table.lookup(id) {
                    Some(at) => at,
                    None => {
                        proof {
                            assert(!raw.vertex_ids().contains(simplex.vertices@[j as int]));
                            assert(!raw.simplex_known(m as int));
                        }
                        return Err(Error::HullConstructionFailed);
                    },
                };
                let (number, fresh) = order_table.intern(id);
                proof {
                    lemma_first_seen_push(flat + corner.take(j as int), id);
                    assert((flat + corner.take(j as int)).push(id) =~= flat + corner.take(
                        j as int + 1,
                    ));
                    lemma_position(raw.vertex_ids(), at as int);
                }
                if fresh {
                    points.push(raw.vertices[at].point);
                }
                row.push(number);
                j += 1;
            }
            simplices.push(row);
            normals.push(simplex.normal);
            offsets.push(simplex.offset);
            proof {
                assert(corner.take(corners as int) =~= corner);
                assert(raw.corners_upto(m as int + 1) == flat + corner);
                assert(raw.kept_ids_upto(m as int + 1) =~= raw.kept_ids_upto(m as int).push(
                    simplex.id,
                ));
            }
            m += 1;
        }
        let kept_count: usize = simplices.len();
        assert(points@.len() == points.len());
        proof {
            simplex_table.lemma_wf();
            order_table.lemma_wf();
            raw.lemma_kept_upto(total as int);
            assert(raw.kept_ids_upto(total as int) =~= raw.kept_ids());
        }
        let mut neighbors: Vec<Vec<usize>> = Vec::new();
        let mut m: usize = 0;
        while m < total
            invariant
                m <= total == raw.simplices@.len(),
                corners == raw.corners(),
                simplex_table.wf(),
                simplex_table@ == raw.kept_ids(),
                raw.kept_ids().no_duplicates(),
                raw.kept().len() == kept_count,
                neighbors@.len() == raw.kept_upto(m as int).len(),
                neighbors@.len() <= kept_count,
                forall|k: int|
                    0 <= k < neighbors@.len() ==> (#[trigger] neighbors@[k])@
                        == raw.facade().neighbors[k],
                forall|k: int, j: int|
                    0 <= k < neighbors@.len() && 0 <= j < corners ==> (
                    #[trigger] neighbors@[k]@[j]) < kept_count || neighbors@[k]@[j]
                        == NON_SIMPLEX_IDX,
                forall|g: int|
                    0 <= g < m && !(#[trigger] raw.simplices@[g]).upper_delaunay ==> corners
                        <= raw.simplices@[g].neighbors@.len() && forall|j: int|
                        0 <= j < corners && !(#[trigger] raw.simplices@[g].neighbors@[j]).upper_delaunay
                            ==> raw.kept_ids().contains(raw.simplices@[g].neighbors@[j].id),
            decreases total - m,
        {
            let simplex = &raw.simplices[m];
            if simplex.upper_delaunay {
                m += 1;
                continue ;
            }
            proof {
                raw.lemma_kept_upto(m as int);
                raw.lemma_kept_upto(m as int + 1);
                raw.lemma_kept_upto(total as int);
            }
            let ghost k_now = raw.kept_upto(m as int).len() as int;
            assert(raw.kept_upto(m as int + 1) == raw.kept_upto(m as int).push(m as int));
            assert(raw.kept().take(k_now + 1) == raw.kept_upto(m as int + 1));
            assert(raw.kept().take(k_now + 1)[k_now] == raw.kept()[k_now]);
            assert(raw.kept()[k_now] == m);
            if simplex.neighbors.len() < corners {
                assert(!raw.simplex_known(m as int));
                return Err(Error::HullConstructionFailed);
            }
            let mut row: Vec<usize> = Vec::new();
            let mut j: usize = 0;
            while j < corners
                invariant
                    j <= corners <= simplex.neighbors@.len(),
                    m < raw.simplices@.len(),
                    *simplex == raw.simplices@[m as int],
                    !simplex.upper_delaunay,
                    corners == raw.corners(),
                    simplex_table.wf(),
                    simplex_table@ == raw.kept_ids(),
                    raw.kept_ids().no_duplicates(),
                    raw.kept().len() == kept_count,
                    row@.len() == j,
                    forall|i: int|
                        0 <= i < j ==> (#[trigger] row@[i]) == raw.neighbor_entry(
                            simplex.neighbors@[i],
                        ),
                    forall|i: int|
                        0 <= i < j ==> (#[trigger] row@[i]) < kept_count || row@[i]
                            == NON_SIMPLEX_IDX,
                    forall|i: int|
                        0 <= i < j && !(#[trigger] simplex.neighbors@[i]).upper_delaunay
                            ==> raw.kept_ids().contains(simplex.neighbors@[i].id),
                decreases corners - j,
            {
                let near = &simplex.neighbors[j];
                if near.upper_delaunay {
                    row.push(NON_SIMPLEX_IDX);
                } else {
                    match simplex_table.lookup(near.id) {
                        Some(number) => {
                            proof {
                                lemma_position(raw.kept_ids(), number as int);
                            }
                            row.push(number);
                        },
                        None => {
                            proof {
                                assert(!simplex.neighbors@[j as int].upper_delaunay);
                                assert(!raw.kept_ids().contains(simplex.neighbors@[j as int].id));
                                assert(!raw.simplex_known(m as int));
                            }
                            return Err(Error::HullConstructionFailed);
                        },
                    }
                }
                j += 1;
            }
            proof {
                assert(row@ =~= raw.facade().neighbors[k_now]);
            }
            neighbors.push(row);
            m += 1;
        }
        let tri = Delaunay {
            dim: raw.dim,
            vertices: points,
            simplices,
            neighbors,
            normals,
            offsets,
            paraboloid_scale: raw.paraboloid_scale,
            paraboloid_shift: raw.paraboloid_shift,
        };
        proof {
            let view = tri@;
            let want = raw.facade();
            assert(raw.vertex_order() == order_table@);
            assert(view.points =~= want.points);
            assert(view.normals =~= want.normals);
            assert(view.offsets =~= want.offsets);
            assert forall|k: int| 0 <= k < view.simplices.len() implies view.simplices[k]
                =~= want.simplices[k] by {
                assert forall|j: int| 0 <= j < corners implies view.simplices[k][j]
                    == want.simplices[k][j] by {
                    lemma_position(order_table@, tri.simplices@[k]@[j] as int);
                }
            }
            assert(view.simplices =~= want.simplices);
            assert(view.neighbors =~= want.neighbors);
            assert forall|g: int|
                0 <= g < raw.simplices@.len() && !(#[trigger] raw.simplices@[g]).upper_delaunay
                implies raw.simplex_known(g) by {}
        }
        Ok(tri)
    }
}

} // verus!
