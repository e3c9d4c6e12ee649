//! Hit decisions for the scene's primitives, on binary64 bit patterns.
use vstd::prelude::*;
use crate::order::{key, lt, le, less, ZERO_BITS, ONE_BITS, EPSILON_BITS, NEG_EPSILON_BITS};

verus! {

/// The open parametric interval `(start, end)` in which a hit counts.
#[derive(Clone, Copy, Debug)]
pub struct Interval {
    pub start: u64,
    pub end: u64,
}

impl Interval {
    pub open spec fn holds(self, t: u64) -> bool {
        lt(self.start, t) && lt(t, self.end)
    }

    pub fn new(start: u64, end: u64) -> (r: Interval)
        ensures
            r.start == start,
            r.end == end,
    {
        Interval { start, end }
    }

    /// Whether `t` lies strictly inside the interval.
    pub fn contains(&self, t: u64) -> (r: bool)
        ensures
            r == self.holds(t),
    {
        less(self.start, t) && less(t, self.end)
    }
}

/// The root that a sphere reports: the near root if it is inside the interval,
/// else the far one if it is, else none; and none at all unless the
/// discriminant is positive.
pub open spec fn sphere_root_spec(discriminant: u64, t0: u64, t1: u64, interval: Interval) -> Option<u64> {
    if !lt(ZERO_BITS, discriminant) {
        None
    } else if interval.holds(t0) {
        Some(t0)
    } else if interval.holds(t1) {
        Some(t1)
    } else {
        None
    }
}

/// Picks the parameter at which a ray meets a sphere, given the discriminant
/// `b*b - a*c` of the half-b quadratic and its roots `t0 = (-b - sqrt)/a` and
/// `t1 = (-b + sqrt)/a`.
pub fn sphere_root(discriminant: u64, t0: u64, t1: u64, interval: &Interval) -> (r: Option<u64>)
    ensures
        r == sphere_root_spec(discriminant, t0, t1, *interval),
{
    if !less(ZERO_BITS, discriminant) {
        None
    } else if interval.contains(t0) {
        Some(t0)
    } else if interval.contains(t1) {
        Some(t1)
    } else {
        None
    }
}

/// The quantities of the Möller–Trumbore test for one ray and one triangle:
/// `a = edge1 · (D × edge2)`, the barycentric `u` and `v`, their sum `u + v`,
/// and the ray parameter `t`.
#[derive(Clone, Copy, Debug)]
pub struct TriangleTerms {
    pub a: u64,
    pub u: u64,
    pub v: u64,
    pub uv: u64,
    pub t: u64,
}

/// The ray runs parallel to the triangle's plane: `|a|` is below epsilon.
pub open spec fn parallel(a: u64) -> bool {
    lt(NEG_EPSILON_BITS, a) && lt(a, EPSILON_BITS)
}

/// The barycentric coordinates lie in the triangle:
/// `u >= 0`, `u <= 1`, `v >= 0` and `u + v <= 1`.
pub open spec fn inside_triangle(u: u64, v: u64, uv: u64) -> bool {
    le(ZERO_BITS, u) && le(u, ONE_BITS) && le(ZERO_BITS, v) && le(uv, ONE_BITS)
}

pub open spec fn triangle_hit_spec(terms: TriangleTerms, interval: Interval) -> Option<u64> {
    if !parallel(terms.a) && inside_triangle(terms.u, terms.v, terms.uv) && interval.holds(terms.t) {
        Some(terms.t)
    } else {
        None
    }
}

/// Decides whether a ray hits a triangle, and at which parameter.
pub fn triangle_hit(terms: &TriangleTerms, interval: &Interval) -> (r: Option<u64>)
    ensures
        r == triangle_hit_spec(*terms, *interval),
        r is Some ==> key(ZERO_BITS) <= key(terms.u) && key(terms.u) <= key(ONE_BITS)
            && key(ZERO_BITS) <= key(terms.v) && key(terms.uv) <= key(ONE_BITS),
{
    if less(NEG_EPSILON_BITS, terms.a) && less(terms.a, EPSILON_BITS) {
        return None;
    }
    if less(terms.u, ZERO_BITS) || less(ONE_BITS, terms.u) {
        return None;
    }
    if less(terms.v, ZERO_BITS) || less(ONE_BITS, terms.uv) {
        return None;
    }
    if interval.contains(terms.t) {
        Some(terms.t)
    } else {
        None
    }
}

/// What one scene object offers a ray, computed before any interval is known.
#[derive(Clone, Copy, Debug)]
pub enum Candidate {
    /// A sphere's discriminant and its near and far roots.
    Sphere { discriminant: u64, t0: u64, t1: u64 },
    /// A triangle's Möller–Trumbore quantities.
    Triangle { terms: TriangleTerms },
}

/// The parameter at which an object is hit inside `interval`, if any.
pub open spec fn candidate_spec(c: Candidate, interval: Interval) -> Option<u64> {
    match c {
        Candidate::Sphere { discriminant, t0, t1 } => sphere_root_spec(discriminant, t0, t1, interval),
        Candidate::Triangle { terms } => triangle_hit_spec(terms, interval),
    }
}

pub fn candidate_hit(c: &Candidate, interval: &Interval) -> (r: Option<u64>)
    ensures
        r == candidate_spec(*c, *interval),
{
    match c {
        Candidate::Sphere { discriminant, t0, t1 } => sphere_root(*discriminant, *t0, *t1, interval),
        Candidate::Triangle { terms } => triangle_hit(terms, interval),
    }
}

/// The scan over the objects: each one is tested on the interval whose end is
/// the nearest hit found so far, and a hit there replaces the one before.
pub open spec fn scan(cs: Seq<Candidate>, interval: Interval) -> Option<(int, u64)>
    decreases cs.len(),
{
    if cs.len() == 0 {
        None
    } else {
        let prev = scan(cs.drop_last(), interval);
        let end = match prev {
            Some(p) => p.1,
            None => interval.end,
        };
        match candidate_spec(cs.last(), Interval { start: interval.start, end }) {
            Some(t) => Some((cs.len() - 1, t)),
            None => prev,
        }
    }
}

/// Each object's hit on the whole interval, in scene order.
pub open spec fn hits_on(cs: Seq<Candidate>, interval: Interval) -> Seq<Option<u64>> {
    Seq::new(cs.len(), |j: int| candidate_spec(cs[j], interval))
}

/// A sphere's near root does not exceed its far root.
pub open spec fn roots_ordered(c: Candidate) -> bool {
    match c {
        Candidate::Sphere { t0, t1, .. } => le(t0, t1),
        Candidate::Triangle { .. } => true,
    }
}

/// `i` holds the first smallest hit parameter among the candidates.
pub open spec fn is_closest(candidates: Seq<Option<u64>>, i: int) -> bool {
    &&& 0 <= i < candidates.len()
    &&& candidates[i] is Some
    &&& forall|j: int| 0 <= j < candidates.len() && candidates[j] is Some ==>
            le(candidates[i]->0, candidates[j]->0)
    &&& forall|j: int| 0 <= j < i && candidates[j] is Some ==>
            lt(candidates[i]->0, candidates[j]->0)
}

/// The nearest hit of a ray with the scene inside `interval`: the index of the
/// object and the parameter. Objects are tried in scene order, each on the
/// interval narrowed to the nearest hit so far, so ties go to the first.
pub fn closest_hit(candidates: &Vec<Candidate>, interval: &Interval) -> (r: Option<(usize, u64)>)
    ensures
        r matches Some(p) ==> scan(candidates@, *interval) == Some((p.0 as int, p.1)),
        r is None <==> scan(candidates@, *interval) is None,
        (forall|j: int| 0 <= j < candidates@.len() ==> roots_ordered(#[trigger] candidates@[j])) ==> {
            &&& r is None <==> forall|j: int| 0 <= j < candidates@.len()
                    ==> (#[trigger] hits_on(candidates@, *interval)[j]) is None
            &&& r matches Some(p) ==> is_closest(hits_on(candidates@, *interval), p.0 as int)
                    && hits_on(candidates@, *interval)[p.0 as int] == Some(p.1)
        },
{
    let mut best: Option<(usize, u64)> = None;
    let mut i: usize = 0;
    while i < candidates.len()
        invariant
            0 <= i <= candidates@.len(),
            best matches Some(p) ==> scan(candidates@.subrange(0, i as int), *interval) == Some((p.0 as int, p.1)),
            best is None <==> scan(candidates@.subrange(0, i as int), *interval) is None,
        decreases candidates@.len() - i,
    {
        let end = match best {
            Some(p) => p.1,
            None => interval.end,
        };
        let narrowed = Interval { start: interval.start, end };
        let found = candidate_hit(&candidates[i], &narrowed);
        proof {
            let next = candidates@.subrange(0, i + 1);
            assert(next.drop_last() =~= candidates@.subrange(0, i as int));
            assert(next.last() == candidates@[i as int]);
        }
        if let Some(t) = found {
            best = Some((i, t));
        }
        i = i + 1;
    }
    proof {
        assert(candidates@.subrange(0, candidates@.len() as int) =~= candidates@);
        if forall|j: int| 0 <= j < candidates@.len() ==> roots_ordered(#[trigger] candidates@[j]) {
            lemma_narrowing_finds_first_nearest(candidates@, *interval);
        }
    }
    best
}

/// On a narrower interval an object is hit exactly where it is hit on the wide
/// one before the new end.
proof fn lemma_narrowed(c: Candidate, interval: Interval, end: u64)
    requires
        roots_ordered(c),
        le(end, interval.end),
    ensures
        candidate_spec(c, Interval { start: interval.start, end }) == (match candidate_spec(c, interval) {
            Some(t) => if lt(t, end) { Some(t) } else { None },
            None => None,
        }),
{
}

/// Narrowing the interval to the nearest hit so far finds the same object as
/// testing every object on the whole interval and taking the first of the
/// nearest hits.
pub proof fn lemma_narrowing_finds_first_nearest(cs: Seq<Candidate>, interval: Interval)
    requires
        forall|j: int| 0 <= j < cs.len() ==> roots_ordered(#[trigger] cs[j]),
    ensures
        scan(cs, interval) is None <==> forall|j: int| 0 <= j < cs.len() ==> (#[trigger] hits_on(cs, interval)[j]) is None,
        scan(cs, interval) matches Some(p) ==> is_closest(hits_on(cs, interval), p.0)
            && hits_on(cs, interval)[p.0] == Some(p.1),
    decreases cs.len(),
{
    if cs.len() > 0 {
        let front = cs.drop_last();
        let n = cs.len() - 1;
        assert forall|j: int| 0 <= j < front.len() implies roots_ordered(#[trigger] front[j]) by {
            assert(front[j] == cs[j]);
        }
        lemma_narrowing_finds_first_nearest(front, interval);
        let hs = hits_on(cs, interval);
        let hf = hits_on(front, interval);
        assert forall|j: int| 0 <= j < n implies #[trigger] hs[j] == hf[j] by {
            assert(front[j] == cs[j]);
        }
        let prev = scan(front, interval);
        let end = match prev {
            Some(p) => p.1,
            None => interval.end,
        };
        if let Some(p) = prev {
            assert(hf[p.0] == Some(p.1));
            assert(interval.holds(p.1)) by {
                let c = front[p.0];
                assert(candidate_spec(c, interval) == Some(p.1));
            }
        }
        assert(roots_ordered(cs[n]));
        lemma_narrowed(cs[n], interval, end);
        assert(hs[n] == candidate_spec(cs.last(), interval));
        if forall|j: int| 0 <= j < cs.len() ==> (#[trigger] hs[j]) is None {
            assert forall|j: int| 0 <= j < front.len() implies (#[trigger] hf[j]) is None by {
                assert(hs[j] is None);
            }
            assert(hs[n] is None);
        }
        if scan(cs, interval) is None {
            assert(prev is None);
            assert forall|j: int| 0 <= j < cs.len() implies (#[trigger] hs[j]) is None by {
                if j < n {
                    assert(hf[j] is None);
                }
            }
        }
    }
}

} // verus!
