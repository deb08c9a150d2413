//! The decisions of the simplex search.
//!
//! Locating the simplex that holds a point alternates arithmetic on coordinates with
//! decisions on where to look next. The arithmetic is the caller's; it hands over, for
//! each barycentric coordinate, how the coordinate lies to the tolerated interval. The
//! searcher keeps the settings and the start hint and takes the decisions.

use crate::delaunay::{Delaunay, DelaunayView, NON_SIMPLEX_IDX};
use vstd::prelude::*;

verus! {

/// How a barycentric coordinate lies to the interval from `-eps` to `1 + eps`.
#[derive(Clone, Copy, Debug, PartialEq, Eq, Structural)]
pub enum CoordClass {
    /// The coordinate is less than `-eps`.
    Below,
    /// The coordinate is in the interval, its ends included.
    Within,
    /// The coordinate is neither: it is greater than `1 + eps`, or no number.
    Above,
}

/// Where a search begins.
#[derive(Clone, Copy, Debug, PartialEq, Eq, Structural)]
pub enum SearchStart {
    /// Scan all simplices in order.
    Bruteforce,
    /// Descend from this simplex, then refine.
    Directed(usize),
}

/// What one cycle of the directed refinement decides.
#[derive(Clone, Copy, Debug, PartialEq, Eq, Structural)]
pub enum DirectedStep {
    /// The point is in the simplex looked at.
    Found,
    /// The point lies beyond the outer boundary: no simplex holds it.
    Outside,
    /// Look at this simplex next.
    MoveTo(usize),
    /// Give the directed search up and scan all simplices.
    Fallback,
}

/// What a scan looks at.
#[derive(Clone, Copy, Debug, PartialEq, Eq, Structural)]
pub enum Probe {
    /// The simplex of this number.
    Simplex(usize),
    /// The neighbor in slot `slot` of the neighbor row of the degenerate simplex `of`.
    Neighbor { of: usize, slot: usize },
}

/// What a scan does next.
#[derive(Clone, Copy, Debug, PartialEq, Eq, Structural)]
pub enum ScanStep {
    /// Look at this next.
    Look(Probe),
    /// The point is in this simplex.
    Found(usize),
    /// No simplex holds the point.
    NotFound,
}

/// The barycentric coordinates of a point in a simplex, classed by two intervals.
pub struct Classes {
    /// The coordinates classed by the interval from `-eps` to `1 + eps`.
    pub tight: Vec<CoordClass>,
    /// The coordinates classed by the interval from `-sqrt(eps)` to `1 + eps`.
    pub broad: Vec<CoordClass>,
}

/// The first position at or after `from` at which `classes` is `Below`, or the length of
/// `classes` if there is none.
pub open spec fn first_below(classes: Seq<CoordClass>, from: int) -> int
    decreases classes.len() - from,
{
    if from < 0 || from >= classes.len() {
        classes.len() as int
    } else if classes[from] == CoordClass::Below {
        from
    } else {
        first_below(classes, from + 1)
    }
}

/// Every coordinate is within the tolerated interval.
pub open spec fn all_within(classes: Seq<CoordClass>) -> bool {
    forall|j: int| 0 <= j < classes.len() ==> #[trigger] classes[j] == CoordClass::Within
}

/// What the coordinates of a point in a simplex say of where the point is, for a simplex
/// with the neighbor row `neighbors`. `classes` is `None` for a degenerate simplex.
///
/// A degenerate simplex ends the directed search. Else the first coordinate below the
/// interval decides: the search moves to the neighbor opposite to it, or ends outside the
/// triangulation where there is none. With no coordinate below, the point is found if all
/// are within, and the directed search is given up if not.
pub open spec fn direction(neighbors: Seq<usize>, classes: Option<Seq<CoordClass>>) -> DirectedStep {
    match classes {
        None => DirectedStep::Fallback,
        Some(classes) => {
            let j = first_below(classes, 0);
            if j < classes.len() {
                if neighbors[j] == NON_SIMPLEX_IDX {
                    DirectedStep::Outside
                } else {
                    DirectedStep::MoveTo(neighbors[j])
                }
            } else if all_within(classes) {
                DirectedStep::Found
            } else {
                DirectedStep::Fallback
            }
        },
    }
}

/// The decision of one cycle of the directed refinement with `cycles_left` cycles left,
/// this one counted: the direction, but a move to a neighbor only while a cycle is left
/// for looking at the neighbor.
pub open spec fn directed_step(
    neighbors: Seq<usize>,
    classes: Option<Seq<CoordClass>>,
    cycles_left: usize,
) -> DirectedStep {
    if cycles_left == 0 {
        DirectedStep::Fallback
    } else if direction(neighbors, classes) is MoveTo && cycles_left == 1 {
        DirectedStep::Fallback
    } else {
        direction(neighbors, classes)
    }
}

/// The directed refinement finds a point only where all its coordinates are within the
/// interval, and moves on only while a cycle is left for the next simplex.
pub proof fn lemma_directed_step(
    neighbors: Seq<usize>,
    classes: Option<Seq<CoordClass>>,
    cycles_left: usize,
)
    ensures
        directed_step(neighbors, classes, cycles_left) == DirectedStep::Found ==> classes is Some
            && all_within(classes->0),
        directed_step(neighbors, classes, cycles_left) is MoveTo ==> cycles_left >= 2,
        classes matches Some(c) && all_within(c) && cycles_left > 0 ==> directed_step(
            neighbors,
            classes,
            cycles_left,
        ) == DirectedStep::Found,
{
    if let Some(c) = classes {
        if all_within(c) {
            lemma_no_below(c, 0);
        }
    }
}

/// Where all coordinates are within the interval, none is below it.
proof fn lemma_no_below(classes: Seq<CoordClass>, from: int)
    requires
        0 <= from <= classes.len(),
        all_within(classes),
    ensures
        first_below(classes, from) == classes.len(),
    decreases classes.len() - from,
{
    if from < classes.len() {
        lemma_no_below(classes, from + 1);
    }
}

/// The number of cycles the directed refinement may take in a triangulation of `n`
/// simplices: a quarter of `n`, rounded up, and one more.
pub open spec fn cycle_limit(n: nat) -> nat {
    (n + 3) / 4 + 1
}

/// Whether a neighbor of a degenerate simplex is taken for the simplex that holds the
/// point. `neighbors` is the neighbor's own neighbor row. Every coordinate must be within
/// the interval: the wide one, classed in `broad`, for the coordinate opposite to the face
/// shared with the degenerate simplex, and the narrow one, classed in `tight`, for every
/// other, those that face the outer boundary too.
pub open spec fn neighbor_accepts(
    neighbors: Seq<usize>,
    degenerate: usize,
    tight: Seq<CoordClass>,
    broad: Seq<CoordClass>,
) -> bool {
    forall|j: int|
        0 <= j < neighbors.len() ==> if #[trigger] neighbors[j] == degenerate {
            broad[j] == CoordClass::Within
        } else {
            tight[j] == CoordClass::Within
        }
}

/// `first_below` is the least position of a `Below`.
pub proof fn lemma_first_below(classes: Seq<CoordClass>, from: int)
    requires
        0 <= from <= classes.len(),
    ensures
        from <= first_below(classes, from) <= classes.len(),
        first_below(classes, from) < classes.len() ==> classes[first_below(classes, from)]
            == CoordClass::Below,
        forall|j: int|
            from <= j < first_below(classes, from) ==> #[trigger] classes[j] != CoordClass::Below,
    decreases classes.len() - from,
{
    if from < classes.len() && classes[from] != CoordClass::Below {
        lemma_first_below(classes, from + 1);
    }
}

/// The first slot at or after `from` of the neighbor row `neighbors` that holds a simplex,
/// or the length of the row if there is none.
pub open spec fn next_slot(neighbors: Seq<usize>, from: int) -> int
    decreases neighbors.len() - from,
{
    if from < 0 || from >= neighbors.len() {
        neighbors.len() as int
    } else if neighbors[from] != NON_SIMPLEX_IDX {
        from
    } else {
        next_slot(neighbors, from + 1)
    }
}

/// `next_slot` is the least slot that holds a simplex.
pub proof fn lemma_next_slot(neighbors: Seq<usize>, from: int)
    requires
        0 <= from <= neighbors.len(),
    ensures
        from <= next_slot(neighbors, from) <= neighbors.len(),
        next_slot(neighbors, from) < neighbors.len() ==> neighbors[next_slot(neighbors, from)]
            != NON_SIMPLEX_IDX,
        forall|slot: int|
            from <= slot < next_slot(neighbors, from) ==> #[trigger] neighbors[slot]
                == NON_SIMPLEX_IDX,
    decreases neighbors.len() - from,
{
    if from < neighbors.len() && neighbors[from] == NON_SIMPLEX_IDX {
        lemma_next_slot(neighbors, from + 1);
    }
}

impl<P, N, S> DelaunayView<P, N, S> {
    /// `probe` names a simplex of the triangulation, or a slot that holds one.
    pub open spec fn has_probe(self, probe: Probe) -> bool {
        match probe {
            Probe::Simplex(i) => i < self.simplices.len(),
            Probe::Neighbor { of, slot } => of < self.simplices.len() && slot <= self.dim
                && self.neighbors[of as int][slot as int] != NON_SIMPLEX_IDX,
        }
    }

    /// The simplex that `probe` looks at.
    pub open spec fn simplex_of(self, probe: Probe) -> usize {
        match probe {
            Probe::Simplex(i) => i,
            Probe::Neighbor { of, slot } => self.neighbors[of as int][slot as int],
        }
    }

    /// The scan from simplex `i` on.
    pub open spec fn scan_from(self, i: int) -> ScanStep {
        if i < self.simplices.len() {
            ScanStep::Look(Probe::Simplex(i as usize))
        } else {
            ScanStep::NotFound
        }
    }

    /// The scan from slot `slot` of the neighbor row of the degenerate simplex `of` on:
    /// the next neighbor of that simplex, and the next simplex where it has no more.
    pub open spec fn scan_around(self, of: usize, slot: int) -> ScanStep {
        let next = next_slot(self.neighbors[of as int], slot);
        if next < self.neighbors[of as int].len() {
            ScanStep::Look(Probe::Neighbor { of, slot: next as usize })
        } else {
            self.scan_from(of + 1)
        }
    }

    /// Whether what was looked at is taken for the simplex that holds the point. A
    /// simplex is taken where all coordinates are within the narrow interval; a neighbor of
    /// a degenerate simplex is judged by `neighbor_accepts`.
    pub open spec fn takes(self, probe: Probe, tight: Seq<CoordClass>, broad: Seq<CoordClass>) -> bool {
        match probe {
            Probe::Simplex(_) => all_within(tight),
            Probe::Neighbor { of, slot } => neighbor_accepts(
                self.neighbors[self.simplex_of(probe) as int],
                of,
                tight,
                broad,
            ),
        }
    }

    /// What a scan does after it has looked at `probe`. `classes` holds the coordinates
    /// of the point in the simplex looked at, classed by the narrow and by the wide
    /// interval, and is `None` where that simplex is degenerate.
    ///
    /// A simplex that is taken ends the scan. After a simplex that is not taken the next
    /// simplex is looked at. After a degenerate simplex its neighbors are looked at, slot
    /// by slot, before the next simplex; a degenerate neighbor is passed over.
    pub open spec fn scan_step(
        self,
        probe: Probe,
        classes: Option<(Seq<CoordClass>, Seq<CoordClass>)>,
    ) -> ScanStep {
        match probe {
            Probe::Simplex(i) => match classes {
                None => self.scan_around(i, 0),
                Some((tight, broad)) => if self.takes(probe, tight, broad) {
                    ScanStep::Found(i)
                } else {
                    self.scan_from(i + 1)
                },
            },
            Probe::Neighbor { of, slot } => match classes {
                None => self.scan_around(of, slot + 1),
                Some((tight, broad)) => if self.takes(probe, tight, broad) {
                    ScanStep::Found(self.simplex_of(probe))
                } else {
                    self.scan_around(of, slot + 1)
                },
            },
        }
    }

    /// How far a scan has come when it looks at `probe`.
    pub open spec fn rank(self, probe: Probe) -> int {
        match probe {
            Probe::Simplex(i) => i * (self.dim + 2),
            Probe::Neighbor { of, slot } => of * (self.dim + 2) + 1 + slot,
        }
    }
}

/// A scan never looks back: what it looks at next is further on than what it looked at,
/// so that it ends after no more than `(dim + 2)` looks for each simplex.
pub proof fn lemma_scan_advances<P, N, S>(
    view: DelaunayView<P, N, S>,
    probe: Probe,
    classes: Option<(Seq<CoordClass>, Seq<CoordClass>)>,
)
    requires
        view.wf(),
        view.has_probe(probe),
    ensures
        view.scan_step(probe, classes) matches ScanStep::Look(next) ==> view.has_probe(next)
            && view.rank(probe) < view.rank(next) < view.simplices.len() * (view.dim + 2),
        view.scan_step(probe, classes) matches ScanStep::Found(s) ==> s < view.simplices.len(),
{
    let width = view.dim + 2;
    let count = view.simplices.len() as int;
    let of: int = match probe {
        Probe::Simplex(i) => i as int,
        Probe::Neighbor { of, slot } => of as int,
    };
    let from: int = match probe {
        Probe::Simplex(i) => 0,
        Probe::Neighbor { of, slot } => slot + 1,
    };
    let row = view.neighbors[of];
    assert(row.len() == view.dim + 1);
    lemma_next_slot(row, from);
    assert((of + 1) * width == of * width + width) by (nonlinear_arith);
    assert((of + 1) * width <= count * width) by (nonlinear_arith)
        requires
            of + 1 <= count,
            width >= 0,
    ;
    if of + 2 <= count {
        assert((of + 1) * width + width <= count * width) by (nonlinear_arith)
            requires
                of + 2 <= count,
                width >= 0,
        ;
    }
    assert(view.scan_from(of + 1) matches ScanStep::Look(next) ==> view.has_probe(next)
        && view.rank(next) == (of + 1) * width);
    assert(view.scan_around(of as usize, from) matches ScanStep::Look(next) ==> view.has_probe(
        next,
    ) && view.rank(probe) < view.rank(next) < count * width);
    match probe {
        Probe::Simplex(i) => {},
        Probe::Neighbor { of, slot } => {
            assert(row[slot as int] < view.simplices.len() || row[slot as int]
                == NON_SIMPLEX_IDX);
        },
    }
}

/// The settings, the start hint and the cycle count of a search in one triangulation.
pub struct SimplexSearcher<'a, P, N, S> {
    delaunay: &'a Delaunay<P, N, S>,
    bruteforce: bool,
    eps: S,
    start_hint: Option<usize>,
    cycles_left: usize,
}

/// What a `SimplexSearcher` holds.
pub struct SearcherView<P, N, S> {
    pub delaunay: DelaunayView<P, N, S>,
    pub bruteforce: bool,
    pub eps: S,
    pub start_hint: Option<usize>,
    /// The number of cycles that the directed refinement may still take.
    pub cycles_left: usize,
}

impl<'a, P, N, S> View for SimplexSearcher<'a, P, N, S> {
    type V = SearcherView<P, N, S>;

    closed spec fn view(&self) -> SearcherView<P, N, S> {
        SearcherView {
            delaunay: self.delaunay@,
            bruteforce: self.bruteforce,
            eps: self.eps,
            start_hint: self.start_hint,
            cycles_left: self.cycles_left,
        }
    }
}

impl<P, N, S> SearcherView<P, N, S> {
    /// The hint, where there is one, is a simplex of the triangulation.
    pub open spec fn wf(self) -> bool {
        &&& self.delaunay.wf()
        &&& self.start_hint matches Some(s) ==> s < self.delaunay.simplices.len()
    }

    /// The searcher with another hint.
    pub open spec fn with_hint(self, hint: Option<usize>) -> Self {
        SearcherView { start_hint: hint, ..self }
    }

    /// The searcher with another number of cycles left.
    pub open spec fn with_cycles(self, cycles_left: usize) -> Self {
        SearcherView { cycles_left, ..self }
    }

    /// Where the next search begins: with a scan where the searcher always scans, else at
    /// the hint, or at simplex 1 where there is no hint. A triangulation that has no
    /// simplex 1 is scanned where there is no hint.
    pub open spec fn start(self) -> SearchStart {
        if self.bruteforce {
            SearchStart::Bruteforce
        } else {
            match self.start_hint {
                Some(s) => SearchStart::Directed(s),
                None => if self.delaunay.simplices.len() >= 2 {
                    SearchStart::Directed(1)
                } else {
                    SearchStart::Bruteforce
                },
            }
        }
    }
}

/// The views of the two lists of `classes`.
pub open spec fn classes_view(classes: Option<&Classes>) -> Option<(Seq<CoordClass>, Seq<CoordClass>)> {
    match classes {
        None => None,
        Some(c) => Some((c.tight@, c.broad@)),
    }
}

/// The view of `classes`.
pub open spec fn tight_view(classes: Option<&Vec<CoordClass>>) -> Option<Seq<CoordClass>> {
    match classes {
        None => None,
        Some(c) => Some(c@),
    }
}

/// Tells whether all coordinates are within the interval.
pub fn accepts(classes: &Vec<CoordClass>) -> (yes: bool)
    ensures
        yes == all_within(classes@),
{
    let mut j: usize = 0;
    while j < classes.len()
        invariant
            j <= classes@.len(),
            forall|i: int| 0 <= i < j ==> #[trigger] classes@[i] == CoordClass::Within,
        decreases classes@.len() - j,
    {
        match classes[j] {
            CoordClass::Within => {},
            _ => {
                return false;
            },
        }
        j += 1;
    }
    true
}

impl<'a, P, N, S> SimplexSearcher<'a, P, N, S> {
    #[verifier::type_invariant]
    spec fn inv(self) -> bool {
        self@.wf()
    }

    /// A searcher in `delaunay` with the tolerance `eps`, without a hint, that scans all
    /// simplices only where the directed search gives up.
    pub fn new(delaunay: &'a Delaunay<P, N, S>, eps: S) -> (searcher: Self)
        ensures
            searcher@ == (SearcherView {
                delaunay: delaunay@,
                bruteforce: false,
                eps,
                start_hint: None,
                cycles_left: 0,
            }),
            searcher@.wf(),
    {
        let _ = delaunay.dim();
        SimplexSearcher { delaunay, bruteforce: false, eps, start_hint: None, cycles_left: 0 }
    }

    /// Whether the searcher always scans all simplices.
    pub fn bruteforce(&self) -> (b: bool)
        ensures
            b == self@.bruteforce,
    {
        self.bruteforce
    }

    /// Sets whether the searcher always scans all simplices.
    pub fn set_bruteforce(&mut self, bruteforce: bool) -> (this: &mut Self)
        ensures
            this@ == (SearcherView { bruteforce, ..old(self)@ }),
            final(self)@ == final(this)@,
    {
        proof {
            use_type_invariant(&*self);
        }
        self.bruteforce = bruteforce;
        self
    }

    /// The tolerance for taking a point to be in a simplex.
    pub fn eps(&self) -> (eps: &S)
        ensures
            *eps == self@.eps,
    {
        &self.eps
    }

    /// Sets the tolerance for taking a point to be in a simplex.
    pub fn set_eps(&mut self, eps: S) -> (this: &mut Self)
        ensures
            this@ == (SearcherView { eps, ..old(self)@ }),
            final(self)@ == final(this)@,
    {
        proof {
            use_type_invariant(&*self);
        }
        self.eps = eps;
        self
    }

    /// The simplex at which the last search ended, if it left one.
    pub fn start_hint(&self) -> (hint: Option<usize>)
        ensures
            hint == self@.start_hint,
            self@.wf(),
    {
        proof {
            use_type_invariant(self);
        }
        self.start_hint
    }

    /// Forgets where the last search ended.
    pub fn clear_start_hint(&mut self) -> (this: &mut Self)
        ensures
            this@ == old(self)@.with_hint(None),
            final(self)@ == final(this)@,
    {
        proof {
            use_type_invariant(&*self);
        }
        self.start_hint = None;
        self
    }

    /// The number of cycles that the directed refinement may take.
    pub fn cycle_limit(&self) -> (n: usize)
        ensures
            n == cycle_limit(self@.delaunay.simplices.len()),
    {
        let count: usize = self.delaunay.simplex_count();
        if count % 4 == 0 {
            count / 4 + 1
        } else {
            count / 4 + 2
        }
    }

    /// Begins a search: tells where it starts, and allows the directed refinement its
    /// cycles.
    pub fn start(&mut self) -> (start: SearchStart)
        ensures
            start == old(self)@.start(),
            final(self)@ == old(self)@.with_cycles(
                cycle_limit(old(self)@.delaunay.simplices.len()) as usize,
            ),
            start matches SearchStart::Directed(s) ==> s < old(self)@.delaunay.simplices.len(),
    {
        proof {
            use_type_invariant(&*self);
        }
        self.cycles_left = self.cycle_limit();
        if self.bruteforce {
            SearchStart::Bruteforce
        } else {
            match self.start_hint {
                Some(s) => SearchStart::Directed(s),
                None => if self.delaunay.simplex_count() >= 2 {
                    SearchStart::Directed(1)
                } else {
                    SearchStart::Bruteforce
                },
            }
        }
    }

    /// Takes the decision of one cycle of the directed refinement at `simplex`. `classes`
    /// holds the barycentric coordinates of the point in `simplex`, classed by the narrow
    /// interval, and is `None` where `simplex` is degenerate. The cycle is counted, and
    /// `simplex` is remembered as the hint where the search ends there, found or outside.
    pub fn directed_step(&mut self, simplex: usize, classes: Option<&Vec<CoordClass>>) -> (step:
        DirectedStep)
        requires
            simplex < old(self)@.delaunay.simplices.len(),
            classes matches Some(c) ==> c@.len() == old(self)@.delaunay.dim + 1,
        ensures
            step == directed_step(
                old(self)@.delaunay.neighbors[simplex as int],
                tight_view(classes),
                old(self)@.cycles_left,
            ),
            final(self)@ == old(self)@.with_hint(
                if step == DirectedStep::Found || step == DirectedStep::Outside {
                    Some(simplex)
                } else {
                    old(self)@.start_hint
                },
            ).with_cycles(
                if old(self)@.cycles_left == 0 {
                    0
                } else {
                    (old(self)@.cycles_left - 1) as usize
                },
            ),
            step matches DirectedStep::MoveTo(next) ==> next < old(self)@.delaunay.simplices.len()
                && final(self)@.cycles_left > 0,
    {
        proof {
            use_type_invariant(&*self);
        }
        if self.cycles_left == 0 {
            return DirectedStep::Fallback;
        }
        self.cycles_left = self.cycles_left - 1;
        let coords: &Vec<CoordClass> = match classes {
            None => {
                return DirectedStep::Fallback;
            },
            Some(coords) => coords,
        };
        let row = self.delaunay.neighbor_row(simplex);
        let mut inside: bool = true;
        let mut j: usize = 0;
        while j < coords.len()
            invariant
                j <= coords@.len(),
                tight_view(classes) == Some(coords@),
                self@ == old(self)@.with_cycles((old(self)@.cycles_left - 1) as usize),
                old(self)@.cycles_left > 0,
                self@.wf(),
                simplex < self@.delaunay.simplices.len(),
                row@ == self@.delaunay.neighbors[simplex as int],
                row@.len() == coords@.len(),
                first_below(coords@, 0) == first_below(coords@, j as int),
                inside <==> forall|i: int|
                    0 <= i < j ==> #[trigger] coords@[i] == CoordClass::Within,
            decreases coords@.len() - j,
        {
            match coords[j] {
                CoordClass::Below => {
                    let near: usize = row[j];
                    assert(self@.delaunay.neighbors[simplex as int][j as int]
                        < self@.delaunay.simplices.len() || near == NON_SIMPLEX_IDX);
                    if near == NON_SIMPLEX_IDX {
                        self.start_hint = Some(simplex);
                        return DirectedStep::Outside;
                    } else if self.cycles_left == 0 {
                        return DirectedStep::Fallback;
                    } else {
                        return DirectedStep::MoveTo(near);
                    }
                },
                CoordClass::Within => {},
                CoordClass::Above => {
                    inside = false;
                },
            }
            j += 1;
        }
        if inside {
            self.start_hint = Some(simplex);
            DirectedStep::Found
        } else {
            DirectedStep::Fallback
        }
    }

    /// Tells whether a scan that met the degenerate simplex `degenerate` takes its
    /// neighbor `neighbor` for the simplex that holds the point.
    pub fn neighbor_accepts(
        &self,
        degenerate: usize,
        neighbor: usize,
        tight: &Vec<CoordClass>,
        broad: &Vec<CoordClass>,
    ) -> (yes: bool)
        requires
            neighbor < self@.delaunay.simplices.len(),
            tight@.len() == self@.delaunay.dim + 1,
            broad@.len() == self@.delaunay.dim + 1,
        ensures
            yes == neighbor_accepts(
                self@.delaunay.neighbors[neighbor as int],
                degenerate,
                tight@,
                broad@,
            ),
    {
        let row = self.delaunay.neighbor_row(neighbor);
        let mut j: usize = 0;
        while j < row.len()
            invariant
                j <= row@.len(),
                row@ == self@.delaunay.neighbors[neighbor as int],
                row@.len() == tight@.len(),
                row@.len() == broad@.len(),
                forall|i: int|
                    0 <= i < j ==> if #[trigger] row@[i] == degenerate {
                        broad@[i] == CoordClass::Within
                    } else {
                        tight@[i] == CoordClass::Within
                    },
            decreases row@.len() - j,
        {
            let class: CoordClass = if row[j] == degenerate {
                broad[j]
            } else {
                tight[j]
            };
            match class {
                CoordClass::Within => {},
                _ => {
                    return false;
                },
            }
            j += 1;
        }
        true
    }

    /// The scan from simplex `i` on.
    fn scan_from(&self, i: usize) -> (step: ScanStep)
        ensures
            step == self@.delaunay.scan_from(i as int),
    {
        if i < self.delaunay.simplex_count() {
            ScanStep::Look(Probe::Simplex(i))
        } else {
            ScanStep::NotFound
        }
    }

    /// The scan from slot `slot` of the neighbor row of the degenerate simplex `of` on.
    fn scan_around(&self, of: usize, slot: usize) -> (step: ScanStep)
        requires
            of < self@.delaunay.simplices.len(),
            slot <= self@.delaunay.dim + 1,
        ensures
            step == self@.delaunay.scan_around(of, slot as int),
    {
        let count: usize = self.delaunay.simplex_count();
        let row = self.delaunay.neighbor_row(of);
        let mut j: usize = slot;
        while j < row.len()
            invariant
                slot <= j <= row@.len(),
                of < count,
                row@ == self@.delaunay.neighbors[of as int],
                next_slot(row@, slot as int) == next_slot(row@, j as int),
            decreases row@.len() - j,
        {
            if row[j] != NON_SIMPLEX_IDX {
                return ScanStep::Look(Probe::Neighbor { of, slot: j });
            }
            j += 1;
        }
        self.scan_from(of + 1)
    }

    /// Begins a scan. `in_bounds` tells whether the point is within the bounds of the
    /// triangulation's vertices, the tolerance allowed for: a point that is not is in no
    /// simplex.
    pub fn scan_first(&self, in_bounds: bool) -> (step: ScanStep)
        ensures
            step == if in_bounds {
                self@.delaunay.scan_from(0)
            } else {
                ScanStep::NotFound
            },
            step matches ScanStep::Look(probe) ==> self@.delaunay.has_probe(probe),
    {
        if in_bounds {
            self.scan_from(0)
        } else {
            ScanStep::NotFound
        }
    }

    /// The simplex that `probe` looks at.
    pub fn simplex_of(&self, probe: Probe) -> (s: usize)
        requires
            self@.delaunay.has_probe(probe),
        ensures
            s == self@.delaunay.simplex_of(probe),
            s < self@.delaunay.simplices.len(),
    {
        match probe {
            Probe::Simplex(i) => i,
            Probe::Neighbor { of, slot } => {
                let row = self.delaunay.neighbor_row(of);
                assert(self@.delaunay.neighbors[of as int][slot as int]
                    < self@.delaunay.simplices.len() || row@[slot as int] == NON_SIMPLEX_IDX);
                row[slot]
            },
        }
    }

    /// Takes the decision of a scan after it has looked at `probe`, and remembers the
    /// simplex in which the point was found as the hint. `classes` holds the barycentric
    /// coordinates of the point in the simplex looked at, and is `None` where that simplex
    /// is degenerate.
    pub fn scan_next(&mut self, probe: Probe, classes: Option<&Classes>) -> (step: ScanStep)
        requires
            old(self)@.delaunay.has_probe(probe),
            classes matches Some(c) ==> c.tight@.len() == old(self)@.delaunay.dim + 1
                && c.broad@.len() == old(self)@.delaunay.dim + 1,
        ensures
            step == old(self)@.delaunay.scan_step(probe, classes_view(classes)),
            final(self)@ == old(self)@.with_hint(
                match step {
                    ScanStep::Found(s) => Some(s),
                    _ => old(self)@.start_hint,
                },
            ),
            step matches ScanStep::Look(next) ==> old(self)@.delaunay.has_probe(next),
    {
        proof {
            use_type_invariant(&*self);
            lemma_scan_advances(self@.delaunay, probe, classes_view(classes));
        }
        let count: usize = self.delaunay.simplex_count();
        let at: usize = self.simplex_of(probe);
        let taken: bool = match classes {
            None => false,
            Some(c) => match probe {
                Probe::Simplex(_) => accepts(&c.tight),
                Probe::Neighbor { of, slot } => self.neighbor_accepts(of, at, &c.tight, &c.broad),
            },
        };
        if taken {
            self.start_hint = Some(at);
            return ScanStep::Found(at);
        }
        match probe {
            Probe::Simplex(i) => match classes {
                None => self.scan_around(i, 0),
                Some(_) => self.scan_from(i + 1),
            },
            Probe::Neighbor { of, slot } => self.scan_around(of, slot + 1),
        }
    }
}

impl<P, N, S> Delaunay<P, N, S> {
    /// A searcher in this triangulation with the tolerance `eps`.
    pub fn simplex_searcher<'a>(&'a self, eps: S) -> (searcher: SimplexSearcher<'a, P, N, S>)
        ensures
            searcher@ == (SearcherView {
                delaunay: self@,
                bruteforce: false,
                eps,
                start_hint: None,
                cycles_left: 0,
            }),
            searcher@.wf(),
    {
        SimplexSearcher::new(self, eps)
    }
}

} // verus!
