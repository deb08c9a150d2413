//! The convex-hull facade: vertices, facets, neighbors, normals and offsets in
//! struct-of-arrays form, indexed `0, 1, 2, ...` in the order the geometry engine reports
//! them.
//!
//! The facade never looks into a coordinate. `P` is the type of a point, `N` that of a
//! facet normal and `S` that of a scalar; a caller picks them.

use crate::error::Error;
use crate::ids::IdTable;
use vstd::prelude::*;

verus! {

/// A vertex as the geometry engine reports it.
pub struct RawVertex<P> {
    pub id: u64,
    pub point: P,
}

/// A facet as the geometry engine reports it: its vertices and neighbors by identifier.
pub struct RawFacet<N, S> {
    pub id: u64,
    pub normal: N,
    pub offset: S,
    pub vertices: Vec<u64>,
    pub neighbors: Vec<u64>,
    /// Whether the vertices as listed wind against the normal, that is whether
    /// `((v1 - v0) x (v2 - v0)) . normal < 0`. Read for three dimensions only.
    pub reversed: bool,
}

/// A hull as the geometry engine reports it.
pub struct RawHull<P, N, S> {
    pub dim: usize,
    pub vertices: Vec<RawVertex<P>>,
    pub facets: Vec<RawFacet<N, S>>,
}

/// The position of `id` in `ids`.
pub open spec fn position(ids: Seq<u64>, id: u64) -> usize {
    ids.index_of(id) as usize
}

/// The slot of a reported row that entry `j` of the stored row is read from: the first two
/// slots trade places where `swap` is set.
pub open spec fn source_slot(swap: bool, j: int) -> int {
    if swap && j == 0 {
        1
    } else if swap && j == 1 {
        0
    } else {
        j
    }
}

/// The first `dim` identifiers of `reported`, each replaced by its position in `ids`, the
/// first two trading places where `swap` is set.
pub open spec fn index_row(ids: Seq<u64>, reported: Seq<u64>, dim: nat, swap: bool) -> Seq<usize> {
    Seq::new(dim, |j: int| position(ids, reported[source_slot(swap, j)]))
}

/// The first `dim` identifiers of `reported` are all in `ids`.
pub open spec fn row_known(ids: Seq<u64>, reported: Seq<u64>, dim: nat) -> bool {
    &&& dim <= reported.len()
    &&& forall|j: int| 0 <= j < dim ==> ids.contains(#[trigger] reported[j])
}

impl<P, N, S> RawHull<P, N, S> {
    /// The identifiers of the vertices, in the order reported.
    pub open spec fn vertex_ids(&self) -> Seq<u64> {
        Seq::new(self.vertices@.len(), |i: int| self.vertices@[i].id)
    }

    /// The identifiers of the facets, in the order reported.
    pub open spec fn facet_ids(&self) -> Seq<u64> {
        Seq::new(self.facets@.len(), |i: int| self.facets@[i].id)
    }

    /// Whether the first two entries of facet `f` trade places in the facade.
    pub open spec fn swaps(&self, f: int) -> bool {
        self.dim == 3 && self.facets@[f].reversed
    }

    /// No identifier is reported twice, and each facet names `dim` known vertices and `dim`
    /// known neighbors.
    pub open spec fn consistent(&self) -> bool {
        &&& self.vertex_ids().no_duplicates()
        &&& self.facet_ids().no_duplicates()
        &&& forall|f: int|
            0 <= f < self.facets@.len() ==> row_known(
                self.vertex_ids(),
                (#[trigger] self.facets@[f]).vertices@,
                self.dim as nat,
            ) && row_known(self.facet_ids(), self.facets@[f].neighbors@, self.dim as nat)
    }

    /// The facade of a consistent report.
    pub open spec fn facade(&self) -> HullView<P, N, S> {
        HullView {
            dim: self.dim as nat,
            points: Seq::new(self.vertices@.len(), |i: int| self.vertices@[i].point),
            facets: Seq::new(
                self.facets@.len(),
                |f: int|
                    index_row(
                        self.vertex_ids(),
                        self.facets@[f].vertices@,
                        self.dim as nat,
                        self.swaps(f),
                    ),
            ),
            neighbors: Seq::new(
                self.facets@.len(),
                |f: int|
                    index_row(
                        self.facet_ids(),
                        self.facets@[f].neighbors@,
                        self.dim as nat,
                        self.swaps(f),
                    ),
            ),
            normals: Seq::new(self.facets@.len(), |f: int| self.facets@[f].normal),
            offsets: Seq::new(self.facets@.len(), |f: int| self.facets@[f].offset),
        }
    }
}

/// What a `ConvexHull` holds.
pub struct HullView<P, N, S> {
    pub dim: nat,
    pub points: Seq<P>,
    pub facets: Seq<Seq<usize>>,
    pub neighbors: Seq<Seq<usize>>,
    pub normals: Seq<N>,
    pub offsets: Seq<S>,
}

impl<P, N, S> HullView<P, N, S> {
    /// Each facet has `dim` vertices, all of the hull, `dim` neighbors, all facets of the
    /// hull, a normal and an offset.
    pub open spec fn wf(&self) -> bool {
        &&& self.neighbors.len() == self.facets.len()
        &&& self.normals.len() == self.facets.len()
        &&& self.offsets.len() == self.facets.len()
        &&& forall|f: int|
            0 <= f < self.facets.len() ==> (#[trigger] self.facets[f]).len() == self.dim
        &&& forall|f: int|
            0 <= f < self.facets.len() ==> (#[trigger] self.neighbors[f]).len() == self.dim
        &&& forall|f: int, j: int|
            0 <= f < self.facets.len() && 0 <= j < self.dim ==> (#[trigger] self.facets[f][j])
                < self.points.len()
        &&& forall|f: int, j: int|
            0 <= f < self.facets.len() && 0 <= j < self.dim ==> (#[trigger] self.neighbors[f][j])
                < self.facets.len()
    }
}

/// The views of the rows of `rows`.
pub open spec fn rows_view(rows: Seq<Vec<usize>>) -> Seq<Seq<usize>> {
    Seq::new(rows.len(), |i: int| rows[i]@)
}

/// An N-dimensional convex hull.
#[derive(Debug)]
pub struct ConvexHull<P, N, S> {
    dim: usize,
    vertices: Vec<P>,
    facets: Vec<Vec<usize>>,
    neighbors: Vec<Vec<usize>>,
    normals: Vec<N>,
    offsets: Vec<S>,
}

impl<P, N, S> View for ConvexHull<P, N, S> {
    type V = HullView<P, N, S>;

    closed spec fn view(&self) -> HullView<P, N, S> {
        HullView {
            dim: self.dim as nat,
            points: self.vertices@,
            facets: rows_view(self.facets@),
            neighbors: rows_view(self.neighbors@),
            normals: self.normals@,
            offsets: self.offsets@,
        }
    }
}

impl<P, N, S> ConvexHull<P, N, S> {
    #[verifier::type_invariant]
    spec fn inv(self) -> bool {
        self@.wf()
    }

    /// The dimension of the space the hull lies in.
    pub fn dim(&self) -> (d: usize)
        ensures
            d == self@.dim,
            self@.wf(),
    {
        proof {
            use_type_invariant(self);
        }
        self.dim
    }

    /// The number of vertices.
    pub fn vertex_count(&self) -> (n: usize)
        ensures
            n == self@.points.len(),
            self@.wf(),
    {
        proof {
            use_type_invariant(self);
        }
        self.vertices.len()
    }

    /// The number of facets.
    pub fn facet_count(&self) -> (n: usize)
        ensures
            n == self@.facets.len(),
            self@.wf(),
    {
        proof {
            use_type_invariant(self);
        }
        self.facets.len()
    }

    /// The point of vertex `i`.
    pub fn point_at(&self, i: usize) -> (p: &P)
        requires
            i < self@.points.len(),
        ensures
            *p == self@.points[i as int],
    {
        &self.vertices[i]
    }

    /// The normal of facet `f`.
    pub fn normal_at(&self, f: usize) -> (n: &N)
        requires
            f < self@.facets.len(),
        ensures
            self@.wf(),
            *n == self@.normals[f as int],
    {
        proof {
            use_type_invariant(self);
        }
        &self.normals[f]
    }

    /// The offset of facet `f`.
    pub fn offset_at(&self, f: usize) -> (s: &S)
        requires
            f < self@.facets.len(),
        ensures
            self@.wf(),
            *s == self@.offsets[f as int],
    {
        proof {
            use_type_invariant(self);
        }
        &self.offsets[f]
    }

    /// The vertex numbers of facet `f`.
    pub fn facet_row(&self, f: usize) -> (row: &Vec<usize>)
        requires
            f < self@.facets.len(),
        ensures
            row@ == self@.facets[f as int],
            self@.wf(),
    {
        proof {
            use_type_invariant(self);
        }
        &self.facets[f]
    }

    /// The facet numbers of the neighbors of facet `f`.
    pub fn neighbor_row(&self, f: usize) -> (row: &Vec<usize>)
        requires
            f < self@.facets.len(),
        ensures
            row@ == self@.neighbors[f as int],
            self@.wf(),
    {
        proof {
            use_type_invariant(self);
        }
        &self.neighbors[f]
    }

    /// All vertices of the hull, in the order of their numbers.
    pub fn vertices<'a>(&'a self) -> (all: Vec<Vertex<'a, P, N, S>>)
        ensures
            all@.len() == self@.points.len(),
            forall|i: int|
                0 <= i < all@.len() ==> (#[trigger] all@[i]).hull_view() == self@
                    && all@[i].index_spec() == i,
    {
        proof {
            use_type_invariant(self);
        }
        let mut all: Vec<Vertex<'a, P, N, S>> = Vec::new();
        let mut i: usize = 0;
        while i < self.vertices.len()
            invariant
                i <= self.vertices@.len(),
                self@.wf(),
                self@.points == self.vertices@,
                all@.len() == i,
                forall|k: int|
                    0 <= k < i ==> (#[trigger] all@[k]).hull_view() == self@
                        && all@[k].index_spec() == k,
            decreases self.vertices@.len() - i,
        {
            all.push(Vertex { hull: self, idx: i });
            i += 1;
        }
        all
    }

    /// All facets of the hull, in the order of their numbers.
    pub fn facets<'a>(&'a self) -> (all: Vec<Facet<'a, P, N, S>>)
        ensures
            all@.len() == self@.facets.len(),
            forall|i: int|
                0 <= i < all@.len() ==> (#[trigger] all@[i]).hull_view() == self@
                    && all@[i].index_spec() == i,
    {
        proof {
            use_type_invariant(self);
        }
        let mut all: Vec<Facet<'a, P, N, S>> = Vec::new();
        let mut i: usize = 0;
        while i < self.facets.len()
            invariant
                i <= self.facets@.len(),
                self@.wf(),
                self@.facets.len() == self.facets@.len(),
                all@.len() == i,
                forall|k: int|
                    0 <= k < i ==> (#[trigger] all@[k]).hull_view() == self@
                        && all@[k].index_spec() == k,
            decreases self.facets@.len() - i,
        {
            all.push(Facet { hull: self, idx: i });
            i += 1;
        }
        all
    }
}

/// A vertex of a convex hull: the hull and the vertex's number.
#[derive(Debug)]
pub struct Vertex<'a, P, N, S> {
    hull: &'a ConvexHull<P, N, S>,
    idx: usize,
}

impl<'a, P, N, S> Vertex<'a, P, N, S> {
    #[verifier::type_invariant]
    spec fn inv(self) -> bool {
        self.hull@.wf() && self.idx < self.hull@.points.len()
    }

    /// What the hull of this vertex holds.
    pub closed spec fn hull_view(&self) -> HullView<P, N, S> {
        self.hull@
    }

    /// The number of this vertex.
    pub closed spec fn index_spec(&self) -> usize {
        self.idx
    }

    /// The point at which this vertex is located.
    pub fn point(&self) -> (p: &'a P)
        ensures
            self.index_spec() < self.hull_view().points.len(),
            *p == self.hull_view().points[self.index_spec() as int],
    {
        proof {
            use_type_invariant(self);
        }
        &self.hull.vertices[self.idx]
    }

    /// The number of this vertex in its hull.
    pub fn index(&self) -> (i: usize)
        ensures
            i == self.index_spec(),
            i < self.hull_view().points.len(),
    {
        proof {
            use_type_invariant(self);
        }
        self.idx
    }
}

/// A facet of a convex hull: the hull and the facet's number.
#[derive(Debug)]
pub struct Facet<'a, P, N, S> {
    hull: &'a ConvexHull<P, N, S>,
    idx: usize,
}

impl<'a, P, N, S> Facet<'a, P, N, S> {
    #[verifier::type_invariant]
    spec fn inv(self) -> bool {
        self.hull@.wf() && self.idx < self.hull@.facets.len()
    }

    /// What the hull of this facet holds.
    pub closed spec fn hull_view(&self) -> HullView<P, N, S> {
        self.hull@
    }

    /// The number of this facet.
    pub closed spec fn index_spec(&self) -> usize {
        self.idx
    }

    /// The vertices of this facet, in the order of its row.
    pub fn vertices(&self) -> (all: Vec<Vertex<'a, P, N, S>>)
        ensures
            self.index_spec() < self.hull_view().facets.len(),
            all@.len() == self.hull_view().dim,
            forall|j: int|
                0 <= j < all@.len() ==> (#[trigger] all@[j]).hull_view() == self.hull_view()
                    && all@[j].index_spec() == self.hull_view().facets[self.index_spec() as int][j],
    {
        proof {
            use_type_invariant(self);
        }
        let hull = self.hull;
        let row = &hull.facets[self.idx];
        let mut all: Vec<Vertex<'a, P, N, S>> = Vec::new();
        let mut j: usize = 0;
        while j < row.len()
            invariant
                j <= row@.len(),
                hull@.wf(),
                hull@ == self.hull_view(),
                self.index_spec() < hull@.facets.len(),
                row@ == hull@.facets[self.index_spec() as int],
                all@.len() == j,
                forall|k: int|
                    0 <= k < j ==> (#[trigger] all@[k]).hull_view() == hull@
                        && all@[k].index_spec() == row@[k],
            decreases row@.len() - j,
        {
            assert(hull@.facets[self.index_spec() as int][j as int] < hull@.points.len());
            all.push(Vertex { hull, idx: row[j] });
            j += 1;
        }
        all
    }

    /// The facets next to this facet, in the order of its neighbor row.
    pub fn neighbors(&self) -> (all: Vec<Facet<'a, P, N, S>>)
        ensures
            self.index_spec() < self.hull_view().facets.len(),
            all@.len() == self.hull_view().dim,
            forall|j: int|
                0 <= j < all@.len() ==> (#[trigger] all@[j]).hull_view() == self.hull_view()
                    && all@[j].index_spec()
                    == self.hull_view().neighbors[self.index_spec() as int][j],
    {
        proof {
            use_type_invariant(self);
        }
        let hull = self.hull;
        let row = &hull.neighbors[self.idx];
        let mut all: Vec<Facet<'a, P, N, S>> = Vec::new();
        let mut j: usize = 0;
        while j < row.len()
            invariant
                j <= row@.len(),
                hull@.wf(),
                hull@ == self.hull_view(),
                self.index_spec() < hull@.facets.len(),
                row@ == hull@.neighbors[self.index_spec() as int],
                all@.len() == j,
                forall|k: int|
                    0 <= k < j ==> (#[trigger] all@[k]).hull_view() == hull@
                        && all@[k].index_spec() == row@[k],
            decreases row@.len() - j,
        {
            assert(hull@.neighbors[self.index_spec() as int][j as int] < hull@.facets.len());
            all.push(Facet { hull, idx: row[j] });
            j += 1;
        }
        all
    }

    /// The normal of this facet.
    pub fn normal(&self) -> (n: &'a N)
        ensures
            self.index_spec() < self.hull_view().normals.len(),
            *n == self.hull_view().normals[self.index_spec() as int],
    {
        proof {
            use_type_invariant(self);
        }
        &self.hull.normals[self.idx]
    }

    /// The offset of this facet.
    pub fn offset(&self) -> (s: &'a S)
        ensures
            self.index_spec() < self.hull_view().offsets.len(),
            *s == self.hull_view().offsets[self.index_spec() as int],
    {
        proof {
            use_type_invariant(self);
        }
        &self.hull.offsets[self.idx]
    }

    /// The number of this facet in its hull.
    pub fn index(&self) -> (i: usize)
        ensures
            i == self.index_spec(),
            i < self.hull_view().facets.len(),
    {
        proof {
            use_type_invariant(self);
        }
        self.idx
    }
}

impl<'a, P, N, S> Clone for Vertex<'a, P, N, S> {
    fn clone(&self) -> (copy: Self)
        ensures
            copy == *self,
    {
        proof {
            use_type_invariant(self);
        }
        Vertex { hull: self.hull, idx: self.idx }
    }
}

impl<'a, P, N, S> Copy for Vertex<'a, P, N, S> {
}

/// Two vertices of one hull are equal where they have the same number. Vertices of
/// different hulls are not meant to be compared.
impl<'a, P, N, S> PartialEq for Vertex<'a, P, N, S> {
    fn eq(&self, other: &Self) -> (same: bool) {
        self.idx == other.idx
    }
}

impl<'a, P, N, S> Eq for Vertex<'a, P, N, S> {
}

impl<'a, P, N, S> vstd::std_specs::cmp::PartialEqSpecImpl for Vertex<'a, P, N, S> {
    open spec fn obeys_eq_spec() -> bool {
        true
    }

    open spec fn eq_spec(&self, other: &Self) -> bool {
        self.index_spec() == other.index_spec()
    }
}

impl<'a, P, N, S> Clone for Facet<'a, P, N, S> {
    fn clone(&self) -> (copy: Self)
        ensures
            copy == *self,
    {
        proof {
            use_type_invariant(self);
        }
        Facet { hull: self.hull, idx: self.idx }
    }
}

impl<'a, P, N, S> Copy for Facet<'a, P, N, S> {
}

/// Two facets of one hull are equal where they have the same number. Facets of
/// different hulls are not meant to be compared.
impl<'a, P, N, S> PartialEq for Facet<'a, P, N, S> {
    fn eq(&self, other: &Self) -> (same: bool) {
        self.idx == other.idx
    }
}

impl<'a, P, N, S> Eq for Facet<'a, P, N, S> {
}

impl<'a, P, N, S> vstd::std_specs::cmp::PartialEqSpecImpl for Facet<'a, P, N, S> {
    open spec fn obeys_eq_spec() -> bool {
        true
    }

    open spec fn eq_spec(&self, other: &Self) -> bool {
        self.index_spec() == other.index_spec()
    }
}

/// A copy of `list`.
pub fn copy_list<T: Copy>(list: &Vec<T>) -> (copy: Vec<T>)
    ensures
        copy@ == list@,
{
    let mut copy: Vec<T> = Vec::new();
    let mut i: usize = 0;
    while i < list.len()
        invariant
            i <= list@.len(),
            copy@ == list@.take(i as int),
        decreases list@.len() - i,
    {
        copy.push(list[i]);
        proof {
            assert(copy@ =~= list@.take(i as int + 1));
        }
        i += 1;
    }
    proof {
        assert(list@.take(list@.len() as int) =~= list@);
    }
    copy
}

/// A copy of `rows`.
pub fn copy_rows(rows: &Vec<Vec<usize>>) -> (copy: Vec<Vec<usize>>)
    ensures
        rows_view(copy@) == rows_view(rows@),
{
    let mut copy: Vec<Vec<usize>> = Vec::new();
    let mut i: usize = 0;
    while i < rows.len()
        invariant
            i <= rows@.len(),
            copy@.len() == i,
            forall|k: int| 0 <= k < i ==> (#[trigger] copy@[k])@ == rows@[k]@,
        decreases rows@.len() - i,
    {
        copy.push(copy_list(&rows[i]));
        i += 1;
    }
    proof {
        assert(rows_view(copy@) =~= rows_view(rows@));
    }
    copy
}

impl<P: Copy, N: Copy, S: Copy> Clone for ConvexHull<P, N, S> {
    fn clone(&self) -> (copy: Self)
        ensures
            copy@ == self@,
    {
        proof {
            use_type_invariant(self);
        }
        ConvexHull {
            dim: self.dim,
            vertices: copy_list(&self.vertices),
            facets: copy_rows(&self.facets),
            neighbors: copy_rows(&self.neighbors),
            normals: copy_list(&self.normals),
            offsets: copy_list(&self.offsets),
        }
    }
}

/// Maps the first `dim` identifiers of `reported` to their numbers in `table`, the first
/// two trading places where `swap` is set. `None` where one of them is unknown or there are
/// fewer than `dim`.
fn map_row(table: &IdTable, reported: &Vec<u64>, dim: usize, swap: bool) -> (r: Option<
    Vec<usize>,
>)
    requires
        table.wf(),
        swap ==> dim >= 2,
    ensures
        match r {
            Some(row) => row_known(table@, reported@, dim as nat) && row@ == index_row(
                table@,
                reported@,
                dim as nat,
                swap,
            ) && forall|j: int| 0 <= j < dim ==> (#[trigger] row@[j]) < table@.len(),
            None => !row_known(table@, reported@, dim as nat),
        },
{
    if reported.len() < dim {
        return None;
    }
    let mut row: Vec<usize> = Vec::new();
    let mut j: usize = 0;
    while j < dim
        invariant
            table.wf(),
            j <= dim <= reported@.len(),
            row@.len() == j,
            forall|k: int| 0 <= k < j ==> table@.contains(#[trigger] reported@[k]),
            forall|k: int| 0 <= k < j ==> (#[trigger] row@[k]) == position(table@, reported@[k]),
            forall|k: int| 0 <= k < j ==> (#[trigger] row@[k]) < table@.len(),
        decreases dim - j,
    {
        match table.lookup(reported[j]) {
            Some(i) => {
                proof {
                    table.lemma_wf();
                    let id = reported@[j as int];
                    assert(table@.contains(id));
                    let p = table@.index_of(id);
                    assert(table@[p] == id);
                }
                row.push(i);
            },
            None => {
                return None;
            },
        }
        j += 1;
    }
    if swap {
        let a: usize = row[0];
        let b: usize = row[1];
        row.set(0, b);
        row.set(1, a);
    }
    proof {
        assert(row@ =~= index_row(table@, reported@, dim as nat, swap));
    }
    Some(row)
}

impl<P: Copy, N: Copy, S: Copy> ConvexHull<P, N, S> {
    /// Builds the facade from the geometry engine's report.
    ///
    /// Vertex `i` of the facade is the `i`-th vertex reported and facet `f` the `f`-th
    /// facet reported. A facet's row holds the numbers of its first `dim` vertices, and its
    /// neighbor row those of its first `dim` neighbors. In three dimensions a facet that is
    /// reported `reversed` has the first two entries of both rows exchanged. A report that
    /// is not consistent is refused.
    pub fn from_qhull_raw(raw: RawHull<P, N, S>) -> (res: Result<Self, Error>)
        ensures
            match res {
                Ok(hull) => raw.consistent() && hull@ == raw.facade() && hull@.wf(),
                Err(e) => e == Error::HullConstructionFailed && !raw.consistent(),
            },
    {
        let dim: usize = raw.dim;
        let mut vertex_table = IdTable::new();
        let mut points: Vec<P> = Vec::new();
        let mut i: usize = 0;
        while i < raw.vertices.len()
            invariant
                i <= raw.vertices@.len(),
                vertex_table.wf(),
                vertex_table@ == raw.vertex_ids().subrange(0, i as int),
                points@ == raw.facade().points.subrange(0, i as int),
            decreases raw.vertices@.len() - i,
        {
            let (_, fresh) = vertex_table.intern(raw.vertices[i].id);
            if !fresh {
                proof {
                    let ids = raw.vertex_ids();
                    let j = choose|j: int|
                        0 <= j < i && ids.subrange(0, i as int)[j] == ids[i as int];
                    assert(ids[j] == ids[i as int]);
                }
                return Err(Error::HullConstructionFailed);
            }
            points.push(raw.vertices[i].point);
            proof {
                assert(vertex_table@ =~= raw.vertex_ids().subrange(0, i + 1));
                assert(points@ =~= raw.facade().points.subrange(0, i + 1));
            }
            i += 1;
        }
        let mut facet_table = IdTable::new();
        let mut normals: Vec<N> = Vec::new();
        let mut offsets: Vec<S> = Vec::new();
        let mut f: usize = 0;
        while f < raw.facets.len()
            invariant
                f <= raw.facets@.len(),
                facet_table.wf(),
                facet_table@ == raw.facet_ids().subrange(0, f as int),
                normals@ == raw.facade().normals.subrange(0, f as int),
                offsets@ == raw.facade().offsets.subrange(0, f as int),
            decreases raw.facets@.len() - f,
        {
            let (_, fresh) = facet_table.intern(raw.facets[f].id);
            if !fresh {
                proof {
                    let ids = raw.facet_ids();
                    let j = choose|j: int|
                        0 <= j < f && ids.subrange(0, f as int)[j] == ids[f as int];
                    assert(ids[j] == ids[f as int]);
                }
                return Err(Error::HullConstructionFailed);
            }
            normals.push(raw.facets[f].normal);
            offsets.push(raw.facets[f].offset);
            proof {
                assert(facet_table@ =~= raw.facet_ids().subrange(0, f + 1));
                assert(normals@ =~= raw.facade().normals.subrange(0, f + 1));
                assert(offsets@ =~= raw.facade().offsets.subrange(0, f + 1));
            }
            f += 1;
        }
        proof {
            vertex_table.lemma_wf();
            facet_table.lemma_wf();
            assert(vertex_table@ =~= raw.vertex_ids());
            assert(facet_table@ =~= raw.facet_ids());
            assert(points@ =~= raw.facade().points);
            assert(normals@ =~= raw.facade().normals);
            assert(offsets@ =~= raw.facade().offsets);
        }
        let mut facets: Vec<Vec<usize>> = Vec::new();
        let mut neighbors: Vec<Vec<usize>> = Vec::new();
        let mut f: usize = 0;
        while f < raw.facets.len()
            invariant
                f <= raw.facets@.len(),
                dim == raw.dim,
                vertex_table.wf(),
                facet_table.wf(),
                vertex_table@ == raw.vertex_ids(),
                facet_table@ == raw.facet_ids(),
                raw.vertex_ids().no_duplicates(),
                raw.facet_ids().no_duplicates(),
                facets@.len() == f,
                neighbors@.len() == f,
                forall|g: int|
                    0 <= g < f ==> row_known(
                        raw.vertex_ids(),
                        (#[trigger] raw.facets@[g]).vertices@,
                        dim as nat,
                    ) && row_known(raw.facet_ids(), raw.facets@[g].neighbors@, dim as nat),
                forall|g: int| 0 <= g < f ==> (#[trigger] facets@[g])@ == raw.facade().facets[g],
                forall|g: int|
                    0 <= g < f ==> (#[trigger] neighbors@[g])@ == raw.facade().neighbors[g],
                forall|g: int, j: int|
                    0 <= g < f && 0 <= j < dim ==> (#[trigger] facets@[g]@[j])
                        < raw.vertices@.len(),
                forall|g: int, j: int|
                    0 <= g < f && 0 <= j < dim ==> (#[trigger] neighbors@[g]@[j])
                        < raw.facets@.len(),
            decreases raw.facets@.len() - f,
        {
            let swap: bool = dim == 3 && raw.facets[f].reversed;
            let row = match map_row(&vertex_table, &raw.facets[f].vertices, dim, swap) {
                Some(row) => row,
                None => {
                    return Err(Error::HullConstructionFailed);
                },
            };
            let around = match map_row(&facet_table, &raw.facets[f].neighbors, dim, swap) {
                Some(row) => row,
                None => {
                    return Err(Error::HullConstructionFailed);
                },
            };
            facets.push(row);
            neighbors.push(around);
            f += 1;
        }
        let hull = ConvexHull { dim, vertices: points, facets, neighbors, normals, offsets };
        proof {
            assert(hull@.facets =~= raw.facade().facets);
            assert(hull@.neighbors =~= raw.facade().neighbors);
        }
        Ok(hull)
    }
}

} // verus!
