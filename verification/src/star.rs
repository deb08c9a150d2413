//! The star triangulation of a palette's hull: one tetrahedron for each facet that does
//! not hold the star, the palette vertex nearest to black.

use crate::color::Rgb;
use crate::convex_hull::{ConvexHull, HullView};
use crate::error::Error;
use crate::order::{first_minimum, is_first_minimum};
use vstd::prelude::*;

verus! {

/// The fewest colors a palette can have: the corners of a tetrahedron.
pub const MIN_PALETTE_SIZE: usize = 4;

/// `s` is the first of the colors that are nearest to black.
pub open spec fn is_star(colors: Seq<Rgb>, s: int) -> bool {
    &&& 0 <= s < colors.len()
    &&& forall|i: int|
        0 <= i < colors.len() ==> colors[s].norm_sqr() <= (#[trigger] colors[i]).norm_sqr()
    &&& forall|i: int| 0 <= i < s ==> colors[s].norm_sqr() < (#[trigger] colors[i]).norm_sqr()
}

/// The colors of `palette` are exactly the points of the hull: no color comes twice, each
/// color is a vertex and each vertex is a color.
pub open spec fn exact(palette: Seq<Rgb>, points: Seq<Rgb>) -> bool {
    &&& palette.no_duplicates()
    &&& forall|i: int| 0 <= i < palette.len() ==> points.contains(#[trigger] palette[i])
    &&& forall|v: int| 0 <= v < points.len() ==> palette.contains(#[trigger] points[v])
}

/// The tetrahedron over the facet `row`: the star, then the facet's three vertices.
pub open spec fn tetrahedron(star: usize, row: Seq<usize>) -> Seq<usize> {
    seq![star, row[0], row[1], row[2]]
}

/// The tetrahedra over those of the first `m` facets that do not hold the star, in the
/// order of the facets.
pub open spec fn star_tetrahedra(facets: Seq<Seq<usize>>, star: usize, m: int) -> Seq<Seq<usize>>
    decreases m,
{
    if m <= 0 {
        Seq::empty()
    } else {
        let before = star_tetrahedra(facets, star, m - 1);
        if facets[m - 1].contains(star) {
            before
        } else {
            before.push(tetrahedron(star, facets[m - 1]))
        }
    }
}

/// Each tetrahedron of the star triangulation stands on a facet that does not hold the
/// star: its first corner is the star, and its other corners are the vertices of one of
/// the first `m` facets, none of them the star.
pub proof fn lemma_star_tetrahedra(facets: Seq<Seq<usize>>, star: usize, m: int)
    requires
        0 <= m <= facets.len(),
        forall|f: int| 0 <= f < facets.len() ==> (#[trigger] facets[f]).len() == 3,
    ensures
        star_tetrahedra(facets, star, m).len() <= m,
        forall|k: int|
            0 <= k < star_tetrahedra(facets, star, m).len() ==> exists|f: int|
                0 <= f < m && !facets[f].contains(star) && #[trigger] star_tetrahedra(
                    facets,
                    star,
                    m,
                )[k] == tetrahedron(star, facets[f]),
        forall|k: int, c: int|
            0 <= k < star_tetrahedra(facets, star, m).len() && 1 <= c < 4 ==> (
            #[trigger] star_tetrahedra(facets, star, m)[k][c]) != star,
        forall|k: int|
            0 <= k < star_tetrahedra(facets, star, m).len() ==> (#[trigger] star_tetrahedra(
                facets,
                star,
                m,
            )[k])[0] == star,
    decreases m,
{
    if m > 0 {
        lemma_star_tetrahedra(facets, star, m - 1);
        let before = star_tetrahedra(facets, star, m - 1);
        let now = star_tetrahedra(facets, star, m);
        let row = facets[m - 1];
        assert forall|k: int| 0 <= k < now.len() implies exists|f: int|
            0 <= f < m && !facets[f].contains(star) && #[trigger] now[k] == tetrahedron(
                star,
                facets[f],
            ) by {
            if k < before.len() {
                let f = choose|f: int|
                    0 <= f < m - 1 && !facets[f].contains(star) && before[k] == tetrahedron(
                        star,
                        facets[f],
                    );
                assert(0 <= f < m && !facets[f].contains(star) && now[k] == tetrahedron(
                    star,
                    facets[f],
                ));
            } else {
                assert(0 <= m - 1 < m && !facets[m - 1].contains(star) && now[k] == tetrahedron(
                    star,
                    facets[m - 1],
                ));
            }
        }
        assert forall|k: int, c: int| 0 <= k < now.len() && 1 <= c < 4 implies (
        #[trigger] now[k][c]) != star by {
            if k >= before.len() {
                assert(row.contains(row[c - 1]));
            }
        }
    }
}

/// A facet among the first `m` that does not hold the star has a tetrahedron that holds
/// all its vertices: the one that stands on it.
pub proof fn lemma_free_facet_has_tetrahedron(
    facets: Seq<Seq<usize>>,
    star: usize,
    m: int,
    f: int,
)
    requires
        0 <= f < m <= facets.len(),
        facets[f].len() == 3,
        !facets[f].contains(star),
    ensures
        exists|k: int|
            0 <= k < star_tetrahedra(facets, star, m).len() && holds_all(
                #[trigger] star_tetrahedra(facets, star, m)[k],
                facets[f],
            ),
    decreases m,
{
    let now = star_tetrahedra(facets, star, m);
    if f == m - 1 {
        let k = now.len() - 1;
        let corners = tetrahedron(star, facets[f]);
        assert(now[k] == corners);
        assert forall|j: int| 0 <= j < facets[f].len() implies corners.contains(
            #[trigger] facets[f][j],
        ) by {
            assert(corners[j + 1] == facets[f][j]);
        }
        assert(holds_all(now[k], facets[f]));
    } else {
        lemma_free_facet_has_tetrahedron(facets, star, m - 1, f);
        let before = star_tetrahedra(facets, star, m - 1);
        let k = choose|k: int| 0 <= k < before.len() && holds_all(#[trigger] before[k], facets[f]);
        assert(now[k] == before[k]);
        assert(holds_all(now[k], facets[f]));
    }
}

/// Each vertex of `row` is one of `corners`.
pub open spec fn holds_all(corners: Seq<usize>, row: Seq<usize>) -> bool {
    forall|j: int| 0 <= j < row.len() ==> corners.contains(#[trigger] row[j])
}

/// What a `StarTriangulation` holds.
pub struct StarView {
    /// The number of the star among the hull's vertices.
    pub star: usize,
    /// The corners of each tetrahedron, as numbers of hull vertices, the star first.
    pub tetrahedra: Seq<Seq<usize>>,
    /// For each vertex of the hull, the position of its color in the palette.
    pub columns: Seq<usize>,
}

impl StarView {
    /// The view is the star triangulation of the hull of `palette`.
    pub open spec fn triangulates(self, palette: Seq<Rgb>, points: Seq<Rgb>, facets: Seq<Seq<usize>>) -> bool {
        &&& is_star(points, self.star as int)
        &&& self.tetrahedra == star_tetrahedra(facets, self.star, facets.len() as int)
        &&& self.columns.len() == points.len()
        &&& forall|v: int|
            0 <= v < points.len() ==> (#[trigger] self.columns[v]) < palette.len()
                && palette[self.columns[v] as int] == points[v]
    }

    /// Each tetrahedron has four corners, all of them vertices of a hull of `n` vertices.
    pub open spec fn wf(self) -> bool {
        &&& self.star < self.columns.len()
        &&& forall|k: int|
            0 <= k < self.tetrahedra.len() ==> (#[trigger] self.tetrahedra[k]).len() == 4
        &&& forall|k: int, c: int|
            0 <= k < self.tetrahedra.len() && 0 <= c < 4 ==> (#[trigger] self.tetrahedra[k][c])
                < self.columns.len()
    }
}

/// The first position of `color` in `list`.
pub fn find_color(list: &[Rgb], color: Rgb) -> (r: Option<usize>)
    ensures
        match r {
            Some(i) => i < list@.len() && list@[i as int] == color && forall|k: int|
                0 <= k < i ==> list@[k] != color,
            None => !list@.contains(color),
        },
{
    let mut i: usize = 0;
    while i < list.len()
        invariant
            i <= list@.len(),
            forall|k: int| 0 <= k < i ==> list@[k] != color,
        decreases list@.len() - i,
    {
        if list[i] == color {
            return Some(i);
        }
        i += 1;
    }
    None
}

/// Tells whether `palette` has at least four colors.
pub fn check_palette_size(palette: &[Rgb]) -> (r: Result<(), Error>)
    ensures
        match r {
            Ok(_) => palette@.len() >= MIN_PALETTE_SIZE,
            Err(e) => e == Error::PaletteTooSmall && palette@.len() < MIN_PALETTE_SIZE,
        },
{
    if palette.len() < MIN_PALETTE_SIZE {
        Err(Error::PaletteTooSmall)
    } else {
        Ok(())
    }
}

/// Tells what can be told of `palette` before its hull is built: whether it has at
/// least four colors, and whether no color comes twice. A palette in which a color comes
/// twice is redundant whatever its hull.
pub fn check_palette(palette: &[Rgb]) -> (r: Result<(), Error>)
    ensures
        match r {
            Ok(_) => palette@.len() >= MIN_PALETTE_SIZE && palette@.no_duplicates(),
            Err(e) => if palette@.len() < MIN_PALETTE_SIZE {
                e == Error::PaletteTooSmall
            } else {
                e == Error::RedundantPalette && !palette@.no_duplicates()
            },
        },
{
    if palette.len() < MIN_PALETTE_SIZE {
        Err(Error::PaletteTooSmall)
    } else if !all_distinct(palette) {
        Err(Error::RedundantPalette)
    } else {
        Ok(())
    }
}

/// A palette in which a color comes twice is not exactly the vertices of any hull.
pub proof fn lemma_duplicate_is_redundant(palette: Seq<Rgb>, points: Seq<Rgb>, a: int, b: int)
    requires
        0 <= a < b < palette.len(),
        palette[a] == palette[b],
    ensures
        !exact(palette, points),
{
}

/// Tells whether no color of `palette` comes twice.
fn all_distinct(palette: &[Rgb]) -> (r: bool)
    ensures
        r == palette@.no_duplicates(),
{
    let mut i: usize = 0;
    while i < palette.len()
        invariant
            i <= palette@.len(),
            forall|a: int, b: int| 0 <= a < b < i ==> palette@[a] != palette@[b],
        decreases palette@.len() - i,
    {
        let mut j: usize = 0;
        while j < i
            invariant
                j <= i < palette@.len(),
                forall|a: int| 0 <= a < j ==> palette@[a] != palette@[i as int],
            decreases i - j,
        {
            if palette[j] == palette[i] {
                return false;
            }
            j += 1;
        }
        i += 1;
    }
    true
}

/// The star triangulation of a palette's hull.
pub struct StarTriangulation {
    star: usize,
    tetrahedra: Vec<[usize; 4]>,
    columns: Vec<usize>,
}

impl View for StarTriangulation {
    type V = StarView;

    closed spec fn view(&self) -> StarView {
        StarView {
            star: self.star,
            tetrahedra: Seq::new(self.tetrahedra@.len(), |k: int| self.tetrahedra@[k]@),
            columns: self.columns@,
        }
    }
}

impl StarTriangulation {
    #[verifier::type_invariant]
    spec fn inv(self) -> bool {
        self@.wf()
    }

    /// Builds the star triangulation of the hull of `palette`.
    ///
    /// The star is the first of the hull's vertices that are nearest to black. There is one
    /// tetrahedron for each facet that does not hold the star, in the order of the facets.
    /// A palette of fewer than four colors is refused, and so is one whose colors are not
    /// exactly the hull's vertices.
    pub fn new<N, S>(palette: &[Rgb], hull: &ConvexHull<Rgb, N, S>) -> (r: Result<Self, Error>)
        requires
            hull@.dim == 3,
        ensures
            match r {
                Ok(st) => palette@.len() >= MIN_PALETTE_SIZE && exact(palette@, hull@.points)
                    && st@.triangulates(palette@, hull@.points, hull@.facets) && st@.wf(),
                Err(e) => if palette@.len() < MIN_PALETTE_SIZE {
                    e == Error::PaletteTooSmall
                } else {
                    e == Error::RedundantPalette && !exact(palette@, hull@.points)
                },
            },
    {
        if palette.len() < MIN_PALETTE_SIZE {
            return Err(Error::PaletteTooSmall);
        }
        if !all_distinct(palette) {
            return Err(Error::RedundantPalette);
        }
        let vertex_count: usize = hull.vertex_count();
        let facet_count: usize = hull.facet_count();
        let mut columns: Vec<usize> = Vec::new();
        let mut star: usize = 0;
        let mut v: usize = 0;
        while v < vertex_count
            invariant
                v <= vertex_count == hull@.points.len(),
                palette@.len() >= MIN_PALETTE_SIZE,
                columns@.len() == v,
                forall|u: int|
                    0 <= u < v ==> (#[trigger] columns@[u]) < palette@.len()
                        && palette@[columns@[u] as int] == hull@.points[u],
                v > 0 ==> is_star(hull@.points.take(v as int), star as int),
                v == 0 ==> star == 0,
            decreases vertex_count - v,
        {
            let color: Rgb = *hull.point_at(v);
            match find_color(palette, color) {
                Some(at) => {
                    columns.push(at);
                },
                None => {
                    assert(!palette@.contains(hull@.points[v as int]));
                    return Err(Error::RedundantPalette);
                },
            }
            if v > 0 && color.norm_sqr() < hull.point_at(star).norm_sqr() {
                star = v;
            }
            proof {
                let before = hull@.points.take(v as int);
                let now = hull@.points.take(v as int + 1);
                assert forall|i: int| 0 <= i < now.len() implies now[star as int].norm_sqr() <= (
                #[trigger] now[i]).norm_sqr() by {
                    if i < v {
                        assert(before[i] == now[i]);
                    }
                }
                assert forall|i: int| 0 <= i < star implies now[star as int].norm_sqr() < (
                #[trigger] now[i]).norm_sqr() by {
                    assert(before[i] == now[i]);
                }
            }
            v += 1;
        }
        let mut p: usize = 0;
        while p < palette.len()
            invariant
                p <= palette@.len(),
                palette@.len() >= MIN_PALETTE_SIZE,
                vertex_count == hull@.points.len(),
                forall|i: int| 0 <= i < p ==> hull@.points.contains(#[trigger] palette@[i]),
            decreases palette@.len() - p,
        {
            let mut u: usize = 0;
            let mut found: bool = false;
            while u < vertex_count && !found
                invariant
                    u <= vertex_count == hull@.points.len(),
                    p < palette@.len(),
                    found ==> hull@.points.contains(palette@[p as int]),
                    !found ==> forall|k: int| 0 <= k < u ==> hull@.points[k] != palette@[p as int],
                decreases vertex_count - u + if found { 0int } else { 1int },
            {
                if *hull.point_at(u) == palette[p] {
                    found = true;
                } else {
                    u += 1;
                }
            }
            if !found {
                assert(!hull@.points.contains(palette@[p as int]));
                return Err(Error::RedundantPalette);
            }
            p += 1;
        }
        proof {
            assert(hull@.points.contains(palette@[0]));
            assert(hull@.points.take(vertex_count as int) =~= hull@.points);
            assert forall|u: int| 0 <= u < hull@.points.len() implies palette@.contains(
                #[trigger] hull@.points[u],
            ) by {
                assert(palette@[columns@[u] as int] == hull@.points[u]);
            }
        }
        let mut tetrahedra: Vec<[usize; 4]> = Vec::new();
        let mut f: usize = 0;
        while f < facet_count
            invariant
                f <= facet_count == hull@.facets.len(),
                hull@.wf(),
                hull@.dim == 3,
                star < vertex_count == hull@.points.len(),
                Seq::new(tetrahedra@.len(), |k: int| tetrahedra@[k]@) == star_tetrahedra(
                    hull@.facets,
                    star,
                    f as int,
                ),
                forall|k: int, c: int|
                    0 <= k < tetrahedra@.len() && 0 <= c < 4 ==> (#[trigger] tetrahedra@[k]@[c])
                        < vertex_count,
            decreases facet_count - f,
        {
            let row = hull.facet_row(f);
            assert(row@.len() == 3);
            let a: usize = row[0];
            let b: usize = row[1];
            let c: usize = row[2];
            proof {
                assert(hull@.facets[f as int][0] < vertex_count);
                assert(hull@.facets[f as int][1] < vertex_count);
                assert(hull@.facets[f as int][2] < vertex_count);
                if row@.contains(star) {
                    let i = row@.index_of(star);
                    assert(i == 0 || i == 1 || i == 2);
                }
            }
            let ghost before = Seq::new(tetrahedra@.len(), |k: int| tetrahedra@[k]@);
            if a != star && b != star && c != star {
                let corners: [usize; 4] = [star, a, b, c];
                tetrahedra.push(corners);
                proof {
                    assert(corners@ =~= tetrahedron(star, row@));
                    assert(Seq::new(tetrahedra@.len(), |k: int| tetrahedra@[k]@) =~= before.push(
                        tetrahedron(star, row@),
                    ));
                }
            } else {
                proof {
                    if a == star {
                        assert(row@[0] == star);
                    } else if b == star {
                        assert(row@[1] == star);
                    } else {
                        assert(row@[2] == star);
                    }
                    assert(row@.contains(star));
                }
            }
            f += 1;
        }
        Ok(StarTriangulation { star, tetrahedra, columns })
    }

    /// The number of the star among the hull's vertices.
    pub fn star(&self) -> (s: usize)
        ensures
            s == self@.star,
            self@.wf(),
    {
        proof {
            use_type_invariant(self);
        }
        self.star
    }

    /// The number of tetrahedra.
    pub fn tetrahedron_count(&self) -> (n: usize)
        ensures
            n == self@.tetrahedra.len(),
            self@.wf(),
    {
        proof {
            use_type_invariant(self);
        }
        self.tetrahedra.len()
    }

    /// The corners of tetrahedron `k` as numbers of hull vertices, the star first.
    pub fn corners(&self, k: usize) -> (c: [usize; 4])
        requires
            k < self@.tetrahedra.len(),
        ensures
            c@ == self@.tetrahedra[k as int],
    {
        self.tetrahedra[k]
    }

    /// The position in the palette of the color of hull vertex `v`.
    pub fn column_of(&self, v: usize) -> (c: usize)
        requires
            v < self@.columns.len(),
        ensures
            c == self@.columns[v as int],
    {
        self.columns[v]
    }

    /// The positions in the palette of the colors of the corners of tetrahedron `k`: the
    /// columns that the four barycentric coordinates of a point in that tetrahedron go to.
    pub fn columns(&self, k: usize) -> (c: [usize; 4])
        requires
            k < self@.tetrahedra.len(),
        ensures
            self@.wf(),
            forall|i: int|
                0 <= i < 4 ==> #[trigger] c@[i] == self@.columns[self@.tetrahedra[k as int][i] as int],
    {
        proof {
            use_type_invariant(self);
        }
        let corners = &self.tetrahedra[k];
        assert(self@.tetrahedra[k as int] == corners@);
        assert(forall|i: int| 0 <= i < 4 ==> (#[trigger] self@.tetrahedra[k as int][i]) < self@.columns.len());
        [
            self.columns[corners[0]],
            self.columns[corners[1]],
            self.columns[corners[2]],
            self.columns[corners[3]],
        ]
    }

    /// The first tetrahedron that has every vertex of `facet` among its corners.
    pub fn containing(&self, facet: &[usize]) -> (r: Option<usize>)
        ensures
            match r {
                Some(k) => k < self@.tetrahedra.len() && holds_all(
                    self@.tetrahedra[k as int],
                    facet@,
                ) && forall|l: int| 0 <= l < k ==> !holds_all(#[trigger] self@.tetrahedra[l], facet@),
                None => forall|l: int|
                    0 <= l < self@.tetrahedra.len() ==> !holds_all(
                        #[trigger] self@.tetrahedra[l],
                        facet@,
                    ),
            },
    {
        let mut k: usize = 0;
        while k < self.tetrahedra.len()
            invariant
                k <= self.tetrahedra@.len(),
                self@.tetrahedra.len() == self.tetrahedra@.len(),
                forall|l: int| 0 <= l < k ==> !holds_all(#[trigger] self@.tetrahedra[l], facet@),
            decreases self.tetrahedra@.len() - k,
        {
            let corners = &self.tetrahedra[k];
            assert(self@.tetrahedra[k as int] == corners@);
            let mut all: bool = true;
            let mut j: usize = 0;
            while j < facet.len() && all
                invariant
                    j <= facet@.len(),
                    corners@.len() == 4,
                    all ==> forall|i: int| 0 <= i < j ==> corners@.contains(#[trigger] facet@[i]),
                    !all ==> !holds_all(corners@, facet@),
                decreases facet@.len() - j + if all { 1int } else { 0int },
            {
                let want: usize = facet[j];
                if corners[0] == want || corners[1] == want || corners[2] == want || corners[3]
                    == want {
                    assert(corners@.contains(want)) by {
                        if corners@[0] == want {
                        } else if corners@[1] == want {
                        } else if corners@[2] == want {
                        } else {
                            assert(corners@[3] == want);
                        }
                    }
                    j += 1;
                } else {
                    assert(!corners@.contains(facet@[j as int]));
                    all = false;
                }
            }
            if all {
                return Some(k);
            }
            k += 1;
        }
        None
    }

    /// The first tetrahedron that `inside` is set for: the tetrahedron that a point is
    /// assigned to, where `inside` tells for each tetrahedron whether the point's
    /// barycentric coordinates in it are all within the tolerance.
    pub fn first_inside(&self, inside: &[bool]) -> (r: Option<usize>)
        requires
            inside@.len() == self@.tetrahedra.len(),
        ensures
            match r {
                Some(k) => k < inside@.len() && inside@[k as int] && forall|l: int|
                    0 <= l < k ==> !inside@[l],
                None => forall|l: int| 0 <= l < inside@.len() ==> !inside@[l],
            },
    {
        let mut k: usize = 0;
        while k < inside.len()
            invariant
                k <= inside@.len(),
                forall|l: int| 0 <= l < k ==> !inside@[l],
            decreases inside@.len() - k,
        {
            if inside[k] {
                return Some(k);
            }
            k += 1;
        }
        None
    }

    /// For a point outside the hull: the facet nearest to it, which is the first of those
    /// whose key is least, and the first tetrahedron that has all vertices of that facet
    /// among its corners. `keys` holds for each facet of the hull a number that stands for
    /// the distance of the point from the facet, in the order of the distances.
    pub fn project<N, S>(&self, hull: &ConvexHull<Rgb, N, S>, keys: &[i64]) -> (r: Option<
        (usize, usize),
    >)
        requires
            keys@.len() == hull@.facets.len(),
        ensures
            match r {
                Some((facet, k)) => is_first_minimum(keys@, facet as int) && k
                    < self@.tetrahedra.len() && holds_all(
                    self@.tetrahedra[k as int],
                    hull@.facets[facet as int],
                ) && forall|l: int|
                    0 <= l < k ==> !holds_all(
                        #[trigger] self@.tetrahedra[l],
                        hull@.facets[facet as int],
                    ),
                None => keys@.len() == 0 || exists|facet: int|
                    is_first_minimum(keys@, facet) && forall|l: int|
                        0 <= l < self@.tetrahedra.len() ==> !holds_all(
                            #[trigger] self@.tetrahedra[l],
                            hull@.facets[facet],
                        ),
            },
    {
        match first_minimum(keys) {
            None => None,
            Some(facet) => match self.containing(hull.facet_row(facet)) {
                Some(k) => Some((facet, k)),
                None => None,
            },
        }
    }
}

} // verus!
