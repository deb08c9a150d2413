//! The control of palette extraction: when the hull of an image's colors is simplified
//! further, which edge is collapsed, and which vertices the next hull is built from.
//!
//! The hull, the linear program and the error measure are the caller's. What is decided
//! on their results is decided here.

use crate::star::MIN_PALETTE_SIZE;
use vstd::prelude::*;

verus! {

/// `n`, or four where `n` is less: no hull in three dimensions has fewer vertices.
pub open spec fn effective_min_size(n: usize) -> usize {
    if n < MIN_PALETTE_SIZE {
        MIN_PALETTE_SIZE
    } else {
        n
    }
}

/// What the simplification does next.
#[derive(Clone, Copy, Debug, PartialEq, Eq, Structural)]
pub enum Step {
    /// The vertices of the current hull are the palette.
    Finish,
    /// Collapse an edge of the current hull. Where `measure_error` is set, the error of
    /// the hull that results is measured before it replaces the current one.
    Collapse { measure_error: bool },
}

/// The state of the simplification of a hull.
#[derive(Clone, Copy, Debug, PartialEq, Eq, Structural)]
pub struct Simplification {
    /// The number of vertices at which the simplification stops.
    pub min_size: usize,
    /// The number of vertices from which on the error is measured.
    pub max_size: usize,
    /// The number of vertices of the current hull.
    pub vertex_count: usize,
    /// Whether the simplification has ended before `min_size` was reached.
    pub stopped: bool,
}

impl Simplification {
    /// The state before the first collapse, for a hull of `vertex_count` vertices.
    pub open spec fn start(
        min_palette_size: usize,
        max_palette_size: usize,
        vertex_count: usize,
    ) -> Simplification {
        Simplification {
            min_size: effective_min_size(min_palette_size),
            max_size: max_palette_size,
            vertex_count,
            stopped: false,
        }
    }

    /// What is done next: nothing more once the simplification has stopped or the hull
    /// has no more than `min_size` vertices, else one more collapse, with the error
    /// measured where the hull has no more than `max_size` vertices.
    pub open spec fn next_spec(self) -> Step {
        if self.stopped || self.vertex_count <= self.min_size {
            Step::Finish
        } else {
            Step::Collapse { measure_error: self.vertex_count <= self.max_size }
        }
    }

    /// The state after the error of the collapsed hull was found above the bound: the
    /// current hull stays and the simplification ends.
    pub open spec fn reject_spec(self) -> Simplification {
        Simplification { stopped: true, ..self }
    }

    /// The state after a hull of `vertex_count` vertices has replaced the current one.
    /// Where the number of vertices did not decrease, the simplification ends.
    pub open spec fn commit_spec(self, vertex_count: usize) -> Simplification {
        Simplification {
            vertex_count,
            stopped: self.stopped || vertex_count >= self.vertex_count,
            ..self
        }
    }

    /// The state after an edge of the current hull was collapsed: the hull that resulted
    /// is held back where its error was measured for a current hull of no more than
    /// `max_size` vertices and found above the bound, and replaces the current one else.
    pub open spec fn after_collapse_spec(
        self,
        over_bound: Option<bool>,
        vertex_count: usize,
    ) -> Simplification {
        if self.holds_back(over_bound) {
            self.reject_spec()
        } else {
            self.commit_spec(vertex_count)
        }
    }

    /// Whether the hull that results from a collapse is held back: whether the current
    /// hull has no more than `max_size` vertices and the error of the hull that results
    /// is above the bound.
    pub open spec fn holds_back(self, over_bound: Option<bool>) -> bool {
        self.vertex_count <= self.max_size && over_bound == Some(true)
    }

    /// The state after one collapse for each entry of `counts`, none of them held back by
    /// the error bound: entry `k` is the number of vertices after collapse `k`.
    pub open spec fn after_collapses(self, counts: Seq<usize>) -> Simplification
        decreases counts.len(),
    {
        if counts.len() == 0 {
            self
        } else {
            self.after_collapses(counts.drop_last()).commit_spec(counts.last())
        }
    }

    /// The state after `k` collapses that each took one vertex from the hull and were
    /// never held back by the error bound.
    pub open spec fn after_unit_collapses(self, k: nat) -> Simplification
        decreases k,
    {
        if k == 0 {
            self
        } else {
            let before = self.after_unit_collapses((k - 1) as nat);
            before.commit_spec((before.vertex_count - 1) as usize)
        }
    }

    /// The state before the first collapse, for a hull of `vertex_count` vertices.
    pub fn new(min_palette_size: usize, max_palette_size: usize, vertex_count: usize) -> (s:
        Simplification)
        ensures
            s == Simplification::start(min_palette_size, max_palette_size, vertex_count),
    {
        let min_size: usize = if min_palette_size < MIN_PALETTE_SIZE {
            MIN_PALETTE_SIZE
        } else {
            min_palette_size
        };
        Simplification { min_size, max_size: max_palette_size, vertex_count, stopped: false }
    }

    /// What is done next.
    #[verifier::when_used_as_spec(next_spec)]
    pub fn next(self) -> (step: Step)
        ensures
            step == self.next_spec(),
    {
        if self.stopped || self.vertex_count <= self.min_size {
            Step::Finish
        } else {
            Step::Collapse { measure_error: self.vertex_count <= self.max_size }
        }
    }

    /// The state after an edge of the current hull was collapsed.
    ///
    /// `vertex_count` is the number of vertices of the hull that resulted. `over_bound`
    /// tells whether the error of that hull is above the bound, and is `None` where the
    /// error was not measured. Where the current hull has no more than `max_size`
    /// vertices and the error is above the bound, the current hull stays and the
    /// simplification ends. Else the hull that resulted replaces the current one, and the
    /// simplification ends where the number of vertices did not decrease.
    ///
    /// Returns the state after the collapse, and whether the hull that resulted has
    /// replaced the current one.
    pub fn after_collapse(self, over_bound: Option<bool>, vertex_count: usize) -> (r: (
        Simplification,
        bool,
    ))
        ensures
            r.0 == self.after_collapse_spec(over_bound, vertex_count),
            r.1 == !self.holds_back(over_bound),
    {
        let held_back: bool = self.vertex_count <= self.max_size && match over_bound {
            Some(over) => over,
            None => false,
        };
        if held_back {
            (
                Simplification {
                    min_size: self.min_size,
                    max_size: self.max_size,
                    vertex_count: self.vertex_count,
                    stopped: true,
                },
                false,
            )
        } else {
            (
                Simplification {
                    min_size: self.min_size,
                    max_size: self.max_size,
                    vertex_count,
                    stopped: self.stopped || vertex_count >= self.vertex_count,
                },
                true,
            )
        }
    }
}

/// Once nothing more is to be done, a hull held back by the error bound changes nothing
/// of that.
pub proof fn lemma_reject_finishes(s: Simplification)
    ensures
        s.reject_spec().next() == Step::Finish,
        s.reject_spec().vertex_count == s.vertex_count,
{
}

/// A collapse that does not lower the number of vertices ends the simplification.
pub proof fn lemma_stall_finishes(s: Simplification, vertex_count: usize)
    requires
        vertex_count >= s.vertex_count,
    ensures
        s.commit_spec(vertex_count).next() == Step::Finish,
{
}

/// While the simplification goes on, each hull has fewer vertices than the one before:
/// there are no more collapses than the first hull has vertices.
pub proof fn lemma_collapses_lower_the_count(s: Simplification, vertex_count: usize)
    requires
        s.next() != Step::Finish,
        s.commit_spec(vertex_count).next() != Step::Finish,
    ensures
        s.commit_spec(vertex_count).vertex_count < s.vertex_count,
{
}

/// Where the hull starts with at least as many vertices as are asked for, each collapse
/// takes one vertex from it and the error bound never holds a hull back, the
/// simplification collapses until exactly `max(min_palette_size, 4)` vertices are left,
/// and then finishes.
pub proof fn lemma_unit_collapses_reach_min_size(
    min_palette_size: usize,
    max_palette_size: usize,
    vertex_count: usize,
)
    requires
        vertex_count >= effective_min_size(min_palette_size),
    ensures
        ({
            let start = Simplification::start(min_palette_size, max_palette_size, vertex_count);
            let k = (vertex_count - effective_min_size(min_palette_size)) as nat;
            &&& start.after_unit_collapses(k).next() == Step::Finish
            &&& start.after_unit_collapses(k).vertex_count == effective_min_size(min_palette_size)
            &&& forall|j: nat| j < k ==> #[trigger] start.after_unit_collapses(j).next() != Step::Finish
        }),
{
    let start = Simplification::start(min_palette_size, max_palette_size, vertex_count);
    let k = (vertex_count - effective_min_size(min_palette_size)) as nat;
    lemma_unit_collapses(start, k);
    assert forall|j: nat| j < k implies #[trigger] start.after_unit_collapses(j).next()
        != Step::Finish by {
        lemma_unit_collapses(start, j);
    }
}

/// Where the hull starts with at least as many vertices as are asked for, the error bound
/// never holds a hull back, and each collapse lowers the number of vertices without
/// leaving fewer than are asked for, the simplification goes on until exactly
/// `max(min_palette_size, 4)` vertices are left: it has finished if and only if that many
/// are left.
pub proof fn lemma_collapses_end_at_min_size(
    min_palette_size: usize,
    max_palette_size: usize,
    vertex_count: usize,
    counts: Seq<usize>,
)
    requires
        vertex_count >= effective_min_size(min_palette_size),
        forall|k: int|
            0 <= k < counts.len() ==> #[trigger] counts[k] >= effective_min_size(
                min_palette_size,
            ),
        forall|k: int| 0 < k < counts.len() ==> #[trigger] counts[k] < counts[k - 1],
        counts.len() > 0 ==> counts[0] < vertex_count,
    ensures
        ({
            let start = Simplification::start(min_palette_size, max_palette_size, vertex_count);
            let end = start.after_collapses(counts);
            &&& !end.stopped
            &&& end.vertex_count == if counts.len() == 0 {
                vertex_count
            } else {
                counts.last()
            }
            &&& end.vertex_count >= effective_min_size(min_palette_size)
            &&& end.min_size == effective_min_size(min_palette_size)
            &&& (end.next() == Step::Finish <==> end.vertex_count == effective_min_size(
                min_palette_size,
            ))
        }),
    decreases counts.len(),
{
    if counts.len() > 0 {
        let head = counts.drop_last();
        assert forall|k: int| 0 < k < head.len() implies #[trigger] head[k] < head[k - 1] by {
            assert(head[k] == counts[k] && head[k - 1] == counts[k - 1]);
        }
        assert forall|k: int| 0 <= k < head.len() implies #[trigger] head[k]
            >= effective_min_size(min_palette_size) by {
            assert(head[k] == counts[k]);
        }
        let last = counts.len() - 1;
        assert(counts.last() == counts[last]);
        if head.len() > 0 {
            assert(head[0] == counts[0]);
            assert(head.last() == counts[last - 1]);
            assert(counts[last] < counts[last - 1]);
        }
        lemma_collapses_end_at_min_size(min_palette_size, max_palette_size, vertex_count, head);
        let start = Simplification::start(min_palette_size, max_palette_size, vertex_count);
        let before = start.after_collapses(head);
        assert(counts[last] < before.vertex_count);
        let end = start.after_collapses(counts);
        assert(end == before.commit_spec(counts[last]));
        assert(!end.stopped);
        assert(end.vertex_count == counts[last]);
        assert(end.min_size == effective_min_size(min_palette_size));
    } else {
        let start = Simplification::start(min_palette_size, max_palette_size, vertex_count);
        assert(start.after_collapses(counts) == start);
    }
}

/// The state after `k` collapses of one vertex each, none of them from a hull of no more
/// than `min_size` vertices.
proof fn lemma_unit_collapses(start: Simplification, k: nat)
    requires
        !start.stopped,
        MIN_PALETTE_SIZE <= start.min_size,
        start.min_size + k <= start.vertex_count,
    ensures
        start.after_unit_collapses(k) == (Simplification {
            vertex_count: (start.vertex_count - k) as usize,
            ..start
        }),
    decreases k,
{
    if k > 0 {
        lemma_unit_collapses(start, (k - 1) as nat);
    }
}

/// The points among the first `m` of `points` that are at neither of the positions `a`
/// and `b`, in their order.
pub open spec fn points_without<P>(points: Seq<P>, a: usize, b: usize, m: int) -> Seq<P>
    decreases m,
{
    if m <= 0 {
        Seq::empty()
    } else if m - 1 == a || m - 1 == b {
        points_without(points, a, b, m - 1)
    } else {
        points_without(points, a, b, m - 1).push(points[m - 1])
    }
}

/// Without the two ends of an edge there are two points fewer.
pub proof fn lemma_points_without_len<P>(points: Seq<P>, a: usize, b: usize, m: int)
    requires
        0 <= m <= points.len(),
        a != b,
    ensures
        points_without(points, a, b, m).len() == m - if a < m {
            1int
        } else {
            0int
        } - if b < m {
            1int
        } else {
            0int
        },
    decreases m,
{
    if m > 0 {
        lemma_points_without_len(points, a, b, m - 1);
    }
}

/// The points that the hull after a collapse is built from: the vertices of the current
/// hull without the two ends of the collapsed edge, in their order, and then the point
/// that replaces the two.
pub fn collapse_edge<P: Copy>(points: &[P], ends: [usize; 2], replacement: P) -> (next: Vec<P>)
    ensures
        next@ == points_without(points@, ends@[0], ends@[1], points@.len() as int).push(
            replacement,
        ),
        ends@[0] != ends@[1] && ends@[0] < points@.len() && ends@[1] < points@.len()
            ==> next@.len() == points@.len() - 1,
{
    proof {
        if ends@[0] != ends@[1] {
            lemma_points_without_len(points@, ends@[0], ends@[1], points@.len() as int);
        }
    }
    let a: usize = ends[0];
    let b: usize = ends[1];
    let mut next: Vec<P> = Vec::new();
    let mut i: usize = 0;
    while i < points.len()
        invariant
            i <= points@.len(),
            next@ == points_without(points@, a, b, i as int),
        decreases points@.len() - i,
    {
        if i != a && i != b {
            next.push(points[i]);
        }
        i += 1;
    }
    next.push(replacement);
    next
}

} // verus!
