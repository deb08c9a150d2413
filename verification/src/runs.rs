//! What a search comes to.
//!
//! A search is driven step by step: the searcher says what to look at, the caller says how
//! the coordinates of the point lie there, the searcher says what to look at next. Here
//! the steps are put together, for any way the coordinates may lie, and it is shown what
//! a search as a whole comes to. A scan ends in the first simplex in its order that is
//! taken for the one that holds the point. A directed refinement ends within its cycles,
//! and finds the point only in a simplex in which all its coordinates are within the
//! interval.

use crate::delaunay::{DelaunayView, NON_SIMPLEX_IDX};
use crate::searcher::{
    all_within, directed_step, first_below, lemma_directed_step, lemma_first_below,
    lemma_next_slot, lemma_scan_advances, next_slot, CoordClass, DirectedStep, Probe, ScanStep,
};
use vstd::prelude::*;

verus! {

/// How the coordinates of the point lie in the simplex that a scan looks at: classed by
/// the narrow and by the wide interval, or `None` where that simplex is degenerate.
pub type Oracle = spec_fn(Probe) -> Option<(Seq<CoordClass>, Seq<CoordClass>)>;

/// The scan from `step` on, for no more than `fuel` looks.
pub open spec fn run<P, N, S>(
    view: DelaunayView<P, N, S>,
    oracle: Oracle,
    step: ScanStep,
    fuel: nat,
) -> ScanStep
    decreases fuel,
{
    match step {
        ScanStep::Look(probe) => if fuel == 0 {
            step
        } else {
            run(view, oracle, view.scan_step(probe, oracle(probe)), (fuel - 1) as nat)
        },
        _ => step,
    }
}

/// The scan of the whole triangulation, for a point within its bounds.
pub open spec fn scan<P, N, S>(view: DelaunayView<P, N, S>, oracle: Oracle) -> ScanStep {
    run(view, oracle, view.scan_from(0), view.simplices.len() * (view.dim + 2))
}

/// `probe` is in the order of the scan: it is a simplex, or a neighbor of a degenerate
/// simplex.
pub open spec fn in_order<P, N, S>(view: DelaunayView<P, N, S>, oracle: Oracle, probe: Probe) -> bool {
    &&& view.has_probe(probe)
    &&& probe matches Probe::Neighbor { of, slot } ==> oracle(Probe::Simplex(of)) is None
}

/// What `probe` looks at is taken for the simplex that holds the point.
pub open spec fn taken<P, N, S>(view: DelaunayView<P, N, S>, oracle: Oracle, probe: Probe) -> bool {
    oracle(probe) matches Some((tight, broad)) && view.takes(probe, tight, broad)
}

/// The simplex that the probe belongs to, and the place of the probe among the probes of
/// that simplex: the simplex itself first, then its neighbors slot by slot.
pub open spec fn place(probe: Probe) -> (int, int) {
    match probe {
        Probe::Simplex(i) => (i as int, 0),
        Probe::Neighbor { of, slot } => (of as int, slot + 1),
    }
}

/// `x` comes before `y` in the order of the scan.
pub open spec fn before(x: Probe, y: Probe) -> bool {
    place(x).0 < place(y).0 || (place(x).0 == place(y).0 && place(x).1 < place(y).1)
}

/// Nothing in the order of the scan before `probe` is taken.
pub open spec fn none_taken_before<P, N, S>(
    view: DelaunayView<P, N, S>,
    oracle: Oracle,
    probe: Probe,
) -> bool {
    forall|q: Probe| #[trigger] in_order(view, oracle, q) && before(q, probe) ==> !taken(view, oracle, q)
}

/// What a scan comes to: it ends, in the first simplex in its order that is taken, or
/// with nothing found where none is.
pub open spec fn is_first_taken<P, N, S>(
    view: DelaunayView<P, N, S>,
    oracle: Oracle,
    result: ScanStep,
) -> bool {
    match result {
        ScanStep::Look(_) => false,
        ScanStep::Found(s) => exists|p: Probe|
            #![trigger in_order(view, oracle, p)]
            in_order(view, oracle, p) && taken(view, oracle, p) && view.simplex_of(p) == s
                && none_taken_before(view, oracle, p),
        ScanStep::NotFound => forall|q: Probe| #[trigger]
            in_order(view, oracle, q) ==> !taken(view, oracle, q),
    }
}

/// The scan from a probe on finds the first simplex that is taken, where nothing before
/// the probe is taken and the fuel lasts.
proof fn lemma_run<P, N, S>(view: DelaunayView<P, N, S>, oracle: Oracle, probe: Probe, fuel: nat)
    requires
        view.wf(),
        in_order(view, oracle, probe),
        none_taken_before(view, oracle, probe),
        fuel >= view.simplices.len() * (view.dim + 2) - view.rank(probe),
    ensures
        is_first_taken(view, oracle, run(view, oracle, ScanStep::Look(probe), fuel)),
    decreases view.simplices.len() * (view.dim + 2) - view.rank(probe),
{
    let classes = oracle(probe);
    let next = view.scan_step(probe, classes);
    lemma_scan_advances(view, probe, classes);
    lemma_scan_continues(view, oracle, probe);
    lemma_rank_bound(view, probe);
    assert(fuel > 0);
    let rest = (fuel - 1) as nat;
    assert(run(view, oracle, ScanStep::Look(probe), fuel) == run(view, oracle, next, rest));
    match next {
        ScanStep::Look(q) => {
            lemma_run(view, oracle, q, rest);
        },
        ScanStep::Found(s) => {
            assert(run(view, oracle, next, rest) == next);
            assert(in_order(view, oracle, probe) && taken(view, oracle, probe) && view.simplex_of(
                probe,
            ) == s && none_taken_before(view, oracle, probe));
        },
        ScanStep::NotFound => {
            assert(run(view, oracle, next, rest) == next);
        },
    }
}

/// A probe of a triangulation is not as far on as a whole scan goes.
proof fn lemma_rank_bound<P, N, S>(view: DelaunayView<P, N, S>, probe: Probe)
    requires
        view.wf(),
        view.has_probe(probe),
    ensures
        0 <= view.rank(probe) < view.simplices.len() * (view.dim + 2),
{
    let width = view.dim + 2;
    let count = view.simplices.len() as int;
    let (of, sub) = place(probe);
    assert(0 <= of * width && (of + 1) * width == of * width + width && (of + 1) * width <= count
        * width) by (nonlinear_arith)
        requires
            0 <= of,
            of + 1 <= count,
            width >= 0,
    ;
}

/// One step of a scan passes over nothing in its order: where the probe is not taken,
/// nothing up to the next probe is, and nothing at all where there is no next probe.
proof fn lemma_scan_continues<P, N, S>(view: DelaunayView<P, N, S>, oracle: Oracle, probe: Probe)
    requires
        view.wf(),
        in_order(view, oracle, probe),
        none_taken_before(view, oracle, probe),
    ensures
        match view.scan_step(probe, oracle(probe)) {
            ScanStep::Look(q) => in_order(view, oracle, q) && none_taken_before(view, oracle, q),
            ScanStep::Found(s) => taken(view, oracle, probe) && s == view.simplex_of(probe),
            ScanStep::NotFound => forall|q: Probe| #[trigger]
                in_order(view, oracle, q) ==> !taken(view, oracle, q),
        },
{
    let classes = oracle(probe);
    let next = view.scan_step(probe, classes);
    let (of, sub) = place(probe);
    let row = view.neighbors[of];
    assert(row.len() == view.dim + 1);
    // The slot from which the neighbors of the probe's simplex are gone through, if they
    // are: behind the last slot where they are not.
    let from: int = match probe {
        Probe::Simplex(i) => if classes is None {
            0
        } else {
            row.len() as int
        },
        Probe::Neighbor { of, slot } => slot + 1,
    };
    lemma_next_slot(row, from);
    lemma_scan_advances(view, probe, classes);
    if !taken(view, oracle, probe) {
        let slot = next_slot(row, from) - 1;
        assert forall|q: Probe| #[trigger] in_order(view, oracle, q) && place(q).0 == of && sub
            < place(q).1 <= slot implies false by {
            match q {
                Probe::Simplex(i) => {},
                Probe::Neighbor { of: o, slot: s } => {
                    assert(row[s as int] == NON_SIMPLEX_IDX);
                },
            }
        }
        match next {
            ScanStep::Look(q) => {
                assert forall|r: Probe| #[trigger] in_order(view, oracle, r) && before(
                    r,
                    q,
                ) implies !taken(view, oracle, r) by {
                    if !before(r, probe) && r != probe {
                        assert(place(r).0 == of && sub < place(r).1 <= slot);
                    }
                }
            },
            ScanStep::Found(s) => {},
            ScanStep::NotFound => {
                assert forall|r: Probe| #[trigger] in_order(view, oracle, r) implies !taken(
                    view,
                    oracle,
                    r,
                ) by {
                    if !before(r, probe) && r != probe {
                        assert(place(r).0 == of && sub < place(r).1 <= slot);
                    }
                }
            },
        }
    }
}

/// A scan of a whole triangulation ends, in the first simplex in its order that is taken
/// for the one that holds the point, or with nothing found where none is taken.
pub proof fn lemma_scan_finds_the_first_taken<P, N, S>(view: DelaunayView<P, N, S>, oracle: Oracle)
    requires
        view.wf(),
    ensures
        is_first_taken(view, oracle, scan(view, oracle)),
{
    if view.simplices.len() > 0 {
        let first = Probe::Simplex(0);
        assert(view.rank(first) == 0) by (nonlinear_arith)
            requires
                view.rank(first) == 0 * (view.dim + 2),
        ;
        lemma_run(view, oracle, first, view.simplices.len() * (view.dim + 2));
    }
}

/// In a simplex that a scan takes, every coordinate of the point is within the narrow
/// interval, but for a neighbor of a degenerate simplex the coordinate opposite to the
/// face shared with that simplex, which is within the wide interval.
pub proof fn lemma_taken_is_within<P, N, S>(
    view: DelaunayView<P, N, S>,
    probe: Probe,
    tight: Seq<CoordClass>,
    broad: Seq<CoordClass>,
)
    requires
        view.takes(probe, tight, broad),
        tight.len() == view.neighbors[view.simplex_of(probe) as int].len(),
    ensures
        forall|j: int|
            0 <= j < tight.len() ==> #[trigger] tight[j] == CoordClass::Within || (
            probe matches Probe::Neighbor { of, slot } && view.neighbors[view.simplex_of(
                probe,
            ) as int][j] == of && broad[j] == CoordClass::Within),
{
    let row = view.neighbors[view.simplex_of(probe) as int];
    assert forall|j: int| 0 <= j < tight.len() implies #[trigger] tight[j] == CoordClass::Within
        || (probe matches Probe::Neighbor { of, slot } && row[j] == of && broad[j]
        == CoordClass::Within) by {
        let _ = row[j];
    }
}

/// The directed refinement from `simplex` on with `cycles_left` cycles left: where it
/// ends, and how. `oracle` tells how the coordinates of the point lie in a simplex,
/// classed by the narrow interval, or `None` where the simplex is degenerate.
pub open spec fn refine<P, N, S>(
    view: DelaunayView<P, N, S>,
    oracle: spec_fn(usize) -> Option<Seq<CoordClass>>,
    simplex: usize,
    cycles_left: usize,
) -> (usize, DirectedStep)
    decreases cycles_left,
{
    match directed_step(view.neighbors[simplex as int], oracle(simplex), cycles_left) {
        DirectedStep::MoveTo(next) => if cycles_left == 0 {
            (simplex, DirectedStep::Fallback)
        } else {
            refine(view, oracle, next, (cycles_left - 1) as usize)
        },
        step => (simplex, step),
    }
}

/// A directed refinement ends within its cycles at a simplex of the triangulation: with
/// the point found, where all its coordinates in that simplex are within the interval,
/// with the point outside, or with the directed search given up.
pub proof fn lemma_refine_ends<P, N, S>(
    view: DelaunayView<P, N, S>,
    oracle: spec_fn(usize) -> Option<Seq<CoordClass>>,
    simplex: usize,
    cycles_left: usize,
)
    requires
        view.wf(),
        simplex < view.simplices.len(),
        forall|s: usize| (#[trigger] oracle(s) matches Some(c) ==> c.len() == view.dim + 1),
    ensures
        refine(view, oracle, simplex, cycles_left).0 < view.simplices.len(),
        !(refine(view, oracle, simplex, cycles_left).1 is MoveTo),
        refine(view, oracle, simplex, cycles_left).1 == DirectedStep::Found ==> (oracle(
            refine(view, oracle, simplex, cycles_left).0,
        ) matches Some(c) && all_within(c)),
    decreases cycles_left,
{
    let row = view.neighbors[simplex as int];
    let step = directed_step(row, oracle(simplex), cycles_left);
    lemma_directed_step(row, oracle(simplex), cycles_left);
    if let DirectedStep::MoveTo(next) = step {
        let c = oracle(simplex)->0;
        lemma_first_below(c, 0);
        let j = first_below(c, 0);
        assert(row[j] < view.simplices.len() || row[j] == NON_SIMPLEX_IDX);
        lemma_refine_ends(view, oracle, next, (cycles_left - 1) as usize);
    }
}

} // verus!
