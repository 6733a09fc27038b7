//! The influence resolver: which body gravitationally dominates a point,
//! and which bodies contribute to the force on a ship there.
//!
//! Every body has a sphere of gravitational dominance whose radius the
//! external body-physics collaborator supplies with the catalog.  The
//! dominant body at a point is the deepest body in the hierarchy whose
//! sphere contains the point, the primary body when no sphere does; the
//! influence set is every body whose sphere contains the point, with the
//! primary body always included, so no ship is ever left without gravity.

use vstd::prelude::*;

verus! {

use crate::algebra::{dist_sq, dist_sq_spec, Vec3};
use crate::bodies::{wf, BodiesMapping, Body};
use crate::fixed::LIM;

/// Whether body `i`'s dominance sphere contains the point `p`.
pub open spec fn contains_spec(b: Seq<Body>, i: int, p: Vec3) -> bool {
    dist_sq_spec(b[i].position, p) <= b[i].radius * b[i].radius
}

/// Whether body `i` belongs to the influence set of the point `p`.
pub open spec fn influences_spec(b: Seq<Body>, i: int, p: Vec3) -> bool {
    i == 0 || contains_spec(b, i, p)
}

/// Deepest body among the first `n` whose sphere contains `p`; `-1` when
/// no sphere does.  A tie between containing spheres of equal hierarchy
/// depth goes to the body that stands earlier in the arena, so the choice
/// is deterministic; the primary body is the fallback only when no sphere
/// contains the point at all.
pub open spec fn dominant_rec(b: Seq<Body>, p: Vec3, n: int) -> int
    decreases n,
{
    if n <= 0 {
        -1
    } else {
        let rest = dominant_rec(b, p, n - 1);
        if contains_spec(b, n - 1, p) && (rest == -1 || b[n - 1].depth > b[rest].depth) {
            n - 1
        } else {
            rest
        }
    }
}

/// Arena index of the dominant body at `p`: the deepest body whose sphere
/// contains the point (earliest arena index on a depth tie), the primary
/// body when none does.
pub open spec fn dominant_spec(b: Seq<Body>, p: Vec3) -> int {
    let d = dominant_rec(b, p, b.len() as int);
    if d == -1 {
        0
    } else {
        d
    }
}

/// Ascending list of the arena indices in the influence set of `p`, drawn
/// from the first `n` bodies.
pub open spec fn influencers_rec(b: Seq<Body>, p: Vec3, n: int) -> Seq<usize>
    decreases n,
{
    if n <= 0 {
        Seq::empty()
    } else {
        let rest = influencers_rec(b, p, n - 1);
        if influences_spec(b, n - 1, p) {
            rest.push((n - 1) as usize)
        } else {
            rest
        }
    }
}

/// What the resolver found at the dominant body's sphere: the deepest
/// containing body and the property that nothing containing is deeper.
pub proof fn lemma_dominant_rec_props(b: Seq<Body>, p: Vec3, n: int)
    requires
        n <= b.len(),
    ensures
        dominant_rec(b, p, n) == -1 ==> forall|i: int| 0 <= i < n ==> !contains_spec(b, i, p),
        dominant_rec(b, p, n) != -1 ==> 0 <= dominant_rec(b, p, n) < n && contains_spec(
            b,
            dominant_rec(b, p, n),
            p,
        ),
        dominant_rec(b, p, n) != -1 ==> forall|i: int|
            0 <= i < n && contains_spec(b, i, p) ==> b[i].depth <= b[dominant_rec(b, p, n)].depth,
    decreases n,
{
    if n > 0 {
        lemma_dominant_rec_props(b, p, n - 1);
    }
}

/// The bodies that gravitationally matter at a point: the dominant body
/// and the indices of every body in the influence set.
pub struct Influenced {
    /// Arena index of the dominant body.
    pub main_influencer: usize,
    /// Arena indices of the bodies whose gravity is summed, ascending.
    pub influencers: Vec<usize>,
}

impl Influenced {
    /// Resolve the influence record of the point `p`: the deepest body
    /// whose dominance sphere contains it (on a depth tie the earliest in
    /// the arena; the primary body when none does), and every body whose
    /// sphere contains it, the primary body always among them.
    pub fn new(p: Vec3, m: &BodiesMapping) -> (r: Influenced)
        requires
            wf(*m),
            p.in_range(),
        ensures
            r.main_influencer == dominant_spec(m.bodies@, p),
            r.influencers@ == influencers_rec(m.bodies@, p, m.bodies@.len() as int),
            r.main_influencer < m.bodies@.len(),
            forall|k: int|
                0 <= k < r.influencers@.len() ==> (#[trigger] r.influencers@[k])
                    < m.bodies@.len(),
    {
        let n = m.bodies.len();
        let mut best: Option<usize> = None;
        let mut influencers: Vec<usize> = Vec::new();
        let mut i: usize = 0;
        while i < n
            invariant
                wf(*m),
                p.in_range(),
                n == m.bodies@.len(),
                i <= n,
                match best {
                    Option::None => dominant_rec(m.bodies@, p, i as int) == -1,
                    Option::Some(k) => k < i && dominant_rec(m.bodies@, p, i as int) == k,
                },
                influencers@ == influencers_rec(m.bodies@, p, i as int),
                forall|k: int| 0 <= k < influencers@.len() ==> (#[trigger] influencers@[k]) < i,
            decreases n - i,
        {
            let body_pos = m.bodies[i].position;
            let radius = m.bodies[i].radius;
            let d2 = dist_sq(body_pos, p);
            proof {
                assert(0 <= (radius as int) * (radius as int) <= LIM * LIM) by (nonlinear_arith)
                    requires
                        0 <= radius <= LIM,
                ;
            }
            let inside = d2 <= (radius as u128) * (radius as u128);
            let deeper = match best {
                Option::None => true,
                Option::Some(k) => m.bodies[i].depth > m.bodies[k].depth,
            };
            if inside && deeper {
                best = Some(i);
            }
            if inside || i == 0 {
                influencers.push(i);
            }
            i = i + 1;
        }
        let main = match best {
            Option::None => 0,
            Option::Some(k) => k,
        };
        Influenced { main_influencer: main, influencers }
    }
}

/// The influence set always holds the primary body, so a ship is never
/// left without a source of gravity.
pub proof fn lemma_influencers_nonempty(b: Seq<Body>, p: Vec3, n: int)
    requires
        1 <= n <= b.len(),
    ensures
        influencers_rec(b, p, n).len() >= 1,
        influencers_rec(b, p, n)[0] == 0,
    decreases n,
{
    if n > 1 {
        lemma_influencers_nonempty(b, p, n - 1);
    } else {
        assert(influencers_rec(b, p, 0).len() == 0);
    }
}

/// Influence nesting: at a point lying strictly inside the dominance
/// sphere of a moon, itself deeper in the hierarchy than any other body
/// whose sphere contains the point, the resolver picks the moon, not the
/// planet or star around it.
pub proof fn lemma_influence_nesting(m: BodiesMapping, p: Vec3, moon: int)
    requires
        wf(m),
        0 <= moon < m.bodies@.len(),
        contains_spec(m.bodies@, moon, p),
        forall|j: int|
            0 <= j < m.bodies@.len() && j != moon && contains_spec(m.bodies@, j, p)
                ==> (#[trigger] m.bodies@[j].depth) < m.bodies@[moon].depth,
    ensures
        dominant_spec(m.bodies@, p) == moon,
{
    let b = m.bodies@;
    let n = b.len() as int;
    lemma_dominant_rec_props(b, p, n);
    let d = dominant_rec(b, p, n);
    assert(d != -1);
    if d != moon {
        assert(contains_spec(b, d, p));
        assert(b[d].depth < b[moon].depth);
        assert(b[moon].depth <= b[d].depth);
    }
}

} // verus!
