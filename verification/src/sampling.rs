//! Surface sampling: scatter uniformly distributed points across the
//! upward-facing triangles of a mesh, with a density proportional to
//! triangle area.
//!
//! A triangle survives when the normalized average of its corner normals
//! has a vertical component of at least the slope threshold and its
//! (unhalved) cross-product area is positive.  The number of points is
//! `floor(total accepted area * density)`; each point is placed by folded
//! barycentric interpolation, so every point lies inside its triangle.

use vstd::prelude::*;

use crate::fixed::{fx_mul, fxmul, isqrt_u128, lemma_fxmul_bound, sqrt_floor, FX_ONE};
use crate::geom::{
    add_s, bounded3, cross, cross_s, len_sq, len_sq_s, lemma_mul_bound, normalize, normalize_s,
    sub_s, v_add, v_sub, Vec3, V3,
};
use crate::mesh::{Mesh, Topology, MAX_COORD, MAX_INDICES, MAX_NORMAL};
use crate::randomness::{
    alias_new, alias_sample, alias_weights, random_u32,
};

verus! {

/// Largest accepted sampling density (65536.0 in fixed point).
pub const MAX_DENSITY: u64 = 0x1_0000_0000;

/// The mesh's position array expanded so that consecutive triples of
/// entries are the corners of consecutive triangles.
pub open spec fn dup_positions(m: Mesh) -> Seq<Vec3> {
    Seq::new(m.indices@.len() as nat, |k: int| m.positions@[m.indices@[k] as int])
}

/// The mesh's normal array expanded the same way.
pub open spec fn dup_normals(m: Mesh) -> Seq<Vec3> {
    Seq::new(m.indices@.len() as nat, |k: int| m.normals@[m.indices@[k] as int])
}

/// The normalized average direction of triangle `t`'s corner normals.
pub open spec fn tri_normal(ns: Seq<Vec3>, t: int) -> V3 {
    normalize_s(add_s(add_s(ns[3 * t]@, ns[3 * t + 1]@), ns[3 * t + 2]@))
}

/// The edge cross product of triangle `t`.
pub open spec fn tri_cross(ps: Seq<Vec3>, t: int) -> V3 {
    cross_s(sub_s(ps[3 * t]@, ps[3 * t + 1]@), sub_s(ps[3 * t]@, ps[3 * t + 2]@))
}

/// Triangle `t`'s weight: the magnitude of its edge cross product (twice
/// its geometric area; the unhalved convention is used consistently).
pub open spec fn tri_area(ps: Seq<Vec3>, t: int) -> int {
    sqrt_floor(len_sq_s(tri_cross(ps, t)))
}

/// Triangle `t` survives slope filtering and is not degenerate.
pub open spec fn tri_accepted(ps: Seq<Vec3>, ns: Seq<Vec3>, threshold: int, t: int) -> bool {
    &&& tri_normal(ns, t).1 >= threshold
    &&& tri_area(ps, t) > 0
}

/// The indices of the accepted triangles among the first `n`, in order.
pub open spec fn accepted_indices(ps: Seq<Vec3>, ns: Seq<Vec3>, threshold: int, n: int) -> Seq<
    int,
>
    decreases n,
{
    if n <= 0 {
        Seq::empty()
    } else {
        let p = accepted_indices(ps, ns, threshold, n - 1);
        if tri_accepted(ps, ns, threshold, n - 1) {
            p.push(n - 1)
        } else {
            p
        }
    }
}

/// The total area of the accepted triangles among the first `n`.
pub open spec fn total_area(ps: Seq<Vec3>, ns: Seq<Vec3>, threshold: int, n: int) -> int
    decreases n,
{
    if n <= 0 {
        0
    } else {
        total_area(ps, ns, threshold, n - 1) + if tri_accepted(ps, ns, threshold, n - 1) {
            tri_area(ps, n - 1)
        } else {
            0
        }
    }
}

/// How many points a given accepted area and density yield:
/// `floor(area * density)` in fixed point (area carries 2^32, density 2^16).
pub open spec fn sample_count(total: int, density: int) -> int {
    (total * density) / 0x1_0000_0000_0000
}

/// How many points `sample_tri_list` returns: none when no triangle is
/// accepted, otherwise exactly `floor(total accepted area * density)`.
pub open spec fn expected_len(ps: Seq<Vec3>, ns: Seq<Vec3>, threshold: int, density: int) -> int {
    let n = ps.len() as int / 3;
    if accepted_indices(ps, ns, threshold, n).len() == 0 {
        0
    } else {
        sample_count(total_area(ps, ns, threshold, n), density)
    }
}

/// Barycentric interpolation `a + (b-a)*u + (c-a)*v` in fixed point.
pub open spec fn bary_s(a: V3, b: V3, c: V3, u: int, v: int) -> V3 {
    (
        a.0 + fxmul(b.0 - a.0, u) + fxmul(c.0 - a.0, v),
        a.1 + fxmul(b.1 - a.1, u) + fxmul(c.1 - a.1, v),
        a.2 + fxmul(b.2 - a.2, u) + fxmul(c.2 - a.2, v),
    )
}

/// `p` is a barycentric combination of the triangle `a b c` whose two
/// parameters are non-negative and sum to at most one.
pub open spec fn in_triangle(p: V3, a: V3, b: V3, c: V3) -> bool {
    exists|u: int, v: int|
        0 <= u <= FX_ONE && 0 <= v <= FX_ONE && u + v <= FX_ONE && p == #[trigger] bary_s(
            a,
            b,
            c,
            u,
            v,
        )
}

/// `p` lies inside one of the accepted triangles.
pub open spec fn in_some_accepted(p: Vec3, ps: Seq<Vec3>, ns: Seq<Vec3>, threshold: int) -> bool {
    exists|t: int|
        0 <= t < ps.len() as int / 3 && #[trigger] tri_accepted(ps, ns, threshold, t)
            && in_triangle(p@, ps[3 * t]@, ps[3 * t + 1]@, ps[3 * t + 2]@)
}

/// Every entry of `accepted_indices` is an accepted triangle below `n`.
pub proof fn lemma_accepted_elems(ps: Seq<Vec3>, ns: Seq<Vec3>, threshold: int, n: int)
    ensures
        forall|m: int|
            0 <= m < accepted_indices(ps, ns, threshold, n).len() ==> {
                let t = #[trigger] accepted_indices(ps, ns, threshold, n)[m];
                0 <= t < n && tri_accepted(ps, ns, threshold, t)
            },
    decreases n,
{
    if n > 0 {
        lemma_accepted_elems(ps, ns, threshold, n - 1);
        let prev = accepted_indices(ps, ns, threshold, n - 1);
        let cur = accepted_indices(ps, ns, threshold, n);
        assert forall|m: int| 0 <= m < cur.len() implies {
            let t = #[trigger] cur[m];
            0 <= t < n && tri_accepted(ps, ns, threshold, t)
        } by {
            if m < prev.len() {
                assert(cur[m] == prev[m]);
                assert(0 <= prev[m] < n - 1 && tri_accepted(ps, ns, threshold, prev[m]));
            }
        }
    }
}

/// No more triangles are accepted than exist.
pub proof fn lemma_accepted_len_le(ps: Seq<Vec3>, ns: Seq<Vec3>, threshold: int, n: int)
    requires
        n >= 0,
    ensures
        accepted_indices(ps, ns, threshold, n).len() <= n,
    decreases n,
{
    if n > 0 {
        lemma_accepted_len_le(ps, ns, threshold, n - 1);
    }
}

/// The total accepted area is never negative, and it is zero when no
/// triangle is accepted.
pub proof fn lemma_total_area_nonneg(ps: Seq<Vec3>, ns: Seq<Vec3>, threshold: int, n: int)
    ensures
        0 <= total_area(ps, ns, threshold, n),
        accepted_indices(ps, ns, threshold, n).len() == 0 ==> total_area(ps, ns, threshold, n)
            == 0,
    decreases n,
{
    if n > 0 {
        lemma_total_area_nonneg(ps, ns, threshold, n - 1);
    }
}

/// Pick a uniformly distributed point inside the triangle `a b c` by two
/// uniform barycentric parameters, folded back into the triangle when they
/// overshoot the diagonal.
fn sample_triangle_point(a: &Vec3, b: &Vec3, c: &Vec3) -> (p: Vec3)
    requires
        bounded3(a@, MAX_COORD as int),
        bounded3(b@, MAX_COORD as int),
        bounded3(c@, MAX_COORD as int),
    ensures
        in_triangle(p@, a@, b@, c@),
{
    let r1 = random_u32();
    let r2 = random_u32();
    let mut u: i64 = (r1 % 65536) as i64;
    let mut v: i64 = (r2 % 65536) as i64;
    if u + v > 65536 {
        u = 65536 - u;
        v = 65536 - v;
    }
    proof {
        lemma_mul_bound(b@.0 - a@.0, u as int, 2 * MAX_COORD as int, FX_ONE as int);
        lemma_mul_bound(b@.1 - a@.1, u as int, 2 * MAX_COORD as int, FX_ONE as int);
        lemma_mul_bound(b@.2 - a@.2, u as int, 2 * MAX_COORD as int, FX_ONE as int);
        lemma_mul_bound(c@.0 - a@.0, v as int, 2 * MAX_COORD as int, FX_ONE as int);
        lemma_mul_bound(c@.1 - a@.1, v as int, 2 * MAX_COORD as int, FX_ONE as int);
        lemma_mul_bound(c@.2 - a@.2, v as int, 2 * MAX_COORD as int, FX_ONE as int);
        lemma_fxmul_bound(b@.0 - a@.0, u as int, 2 * (MAX_COORD as int) * (FX_ONE as int));
        lemma_fxmul_bound(b@.1 - a@.1, u as int, 2 * (MAX_COORD as int) * (FX_ONE as int));
        lemma_fxmul_bound(b@.2 - a@.2, u as int, 2 * (MAX_COORD as int) * (FX_ONE as int));
        lemma_fxmul_bound(c@.0 - a@.0, v as int, 2 * (MAX_COORD as int) * (FX_ONE as int));
        lemma_fxmul_bound(c@.1 - a@.1, v as int, 2 * (MAX_COORD as int) * (FX_ONE as int));
        lemma_fxmul_bound(c@.2 - a@.2, v as int, 2 * (MAX_COORD as int) * (FX_ONE as int));
    }
    let p = Vec3 {
        x: a.x + fx_mul(b.x - a.x, u) + fx_mul(c.x - a.x, v),
        y: a.y + fx_mul(b.y - a.y, u) + fx_mul(c.y - a.y, v),
        z: a.z + fx_mul(b.z - a.z, u) + fx_mul(c.z - a.z, v),
    };
    proof {
        assert(p@ == bary_s(a@, b@, c@, u as int, v as int));
        assert(0 <= u <= FX_ONE && 0 <= v <= FX_ONE && u + v <= FX_ONE);
    }
    p
}

/// Expand the mesh's positions and normals into per-triangle duplicated
/// form, one entry per index.
fn duplicate_vertices(mesh: &Mesh) -> (r: (Vec<Vec3>, Vec<Vec3>))
    requires
        mesh.wf(),
    ensures
        r.0@ == dup_positions(*mesh),
        r.1@ == dup_normals(*mesh),
{
    let n = mesh.indices.len();
    let mut ps: Vec<Vec3> = Vec::new();
    let mut ns: Vec<Vec3> = Vec::new();
    let mut k: usize = 0;
    while k < n
        invariant
            mesh.wf(),
            n == mesh.indices@.len(),
            k <= n,
            ps@.len() == k,
            ns@.len() == k,
            forall|t: int|
                0 <= t < k ==> #[trigger] ps@[t] == mesh.positions@[mesh.indices@[t] as int],
            forall|t: int|
                0 <= t < k ==> #[trigger] ns@[t] == mesh.normals@[mesh.indices@[t] as int],
        decreases n - k,
    {
        let ix = mesh.indices[k] as usize;
        ps.push(mesh.positions[ix]);
        ns.push(mesh.normals[ix]);
        k = k + 1;
    }
    proof {
        assert(ps@ =~= dup_positions(*mesh));
        assert(ns@ =~= dup_normals(*mesh));
    }
    (ps, ns)
}

/// A stored accepted triangle and its weight match source triangle `ti`.
pub open spec fn entry_ok(e: (Vec3, Vec3, Vec3), w: u64, ps: Seq<Vec3>, ti: int) -> bool {
    &&& e.0 == ps[3 * ti]
    &&& e.1 == ps[3 * ti + 1]
    &&& e.2 == ps[3 * ti + 2]
    &&& w as int == tri_area(ps, ti)
}

/// A strategy for scattering points across a mesh, by topology.
pub trait MeshSampler {
    /// Parameter values the sampler accepts.
    spec fn sampler_req(&self) -> bool;

    /// What holds of the points taken from a triangle list.
    spec fn tri_list_post(&self, mesh: &Mesh, pts: Seq<Vec3>) -> bool;

    /// What holds of the points taken from a triangle strip.
    spec fn tri_strip_post(&self, mesh: &Mesh, pts: Seq<Vec3>) -> bool;

    fn sample_tri_list(&self, mesh: &Mesh) -> (pts: Vec<Vec3>)
        requires
            mesh.wf(),
            self.sampler_req(),
        ensures
            self.tri_list_post(mesh, pts@),
    ;

    fn sample_tri_strip(&self, mesh: &Mesh) -> (pts: Vec<Vec3>)
        requires
            mesh.wf(),
            self.sampler_req(),
        ensures
            self.tri_strip_post(mesh, pts@),
    ;

    /// Dispatch on the mesh's topology: triangle lists and strips go to
    /// their strategies; point and line topologies yield no points.
    fn sample(&self, mesh: &Mesh) -> (pts: Vec<Vec3>)
        requires
            mesh.wf(),
            self.sampler_req(),
        ensures
            mesh.topology is TriangleList ==> self.tri_list_post(mesh, pts@),
            mesh.topology is TriangleStrip ==> self.tri_strip_post(mesh, pts@),
            !(mesh.topology is TriangleList) && !(mesh.topology is TriangleStrip) ==> pts@.len()
                == 0,
    ;
}

/// Samples points uniformly across a mesh's surface with a density
/// proportional to accepted triangle area; `density` is points per unit
/// area and `threshold` the least acceptable vertical normal component,
/// both in fixed point.
pub struct UniformRandomSampler {
    pub density: u64,
    pub threshold: i64,
}

impl Default for UniformRandomSampler {
    /// Density 1.0 and threshold 0 (everything not south-facing).
    fn default() -> (s: Self)
        ensures
            s.density == FX_ONE,
            s.threshold == 0,
    {
        UniformRandomSampler { density: 65536, threshold: 0 }
    }
}

impl UniformRandomSampler {
    /// Pick a uniformly distributed point inside the triangle `a b c`.
    pub fn sample_triangle(&self, a: &Vec3, b: &Vec3, c: &Vec3) -> (p: Vec3)
        requires
            bounded3(a@, MAX_COORD as int),
            bounded3(b@, MAX_COORD as int),
            bounded3(c@, MAX_COORD as int),
        ensures
            in_triangle(p@, a@, b@, c@),
    {
        sample_triangle_point(a, b, c)
    }
}

impl MeshSampler for UniformRandomSampler {
    open spec fn sampler_req(&self) -> bool {
        &&& self.density <= MAX_DENSITY
        &&& -FX_ONE <= self.threshold <= FX_ONE
    }

    open spec fn tri_list_post(&self, mesh: &Mesh, pts: Seq<Vec3>) -> bool {
        let ps = dup_positions(*mesh);
        let ns = dup_normals(*mesh);
        &&& pts.len() == expected_len(ps, ns, self.threshold as int, self.density as int)
        &&& forall|k: int|
            0 <= k < pts.len() ==> in_some_accepted(
                #[trigger] pts[k],
                ps,
                ns,
                self.threshold as int,
            )
    }

    open spec fn tri_strip_post(&self, mesh: &Mesh, pts: Seq<Vec3>) -> bool {
        pts.len() == 0
    }

    #[verifier::rlimit(100)]
    fn sample_tri_list(&self, mesh: &Mesh) -> (pts: Vec<Vec3>) {
        let (dpos, dnorm) = duplicate_vertices(mesh);
        let ghost gps = dup_positions(*mesh);
        let ghost gns = dup_normals(*mesh);
        let ghost thr = self.threshold as int;
        proof {
            assert forall|k: int| 0 <= k < gps.len() implies bounded3(
                (#[trigger] gps[k])@,
                MAX_COORD as int,
            ) by {
                assert(mesh.indices@[k] < mesh.positions@.len());
                assert(bounded3(mesh.positions@[mesh.indices@[k] as int]@, MAX_COORD as int));
            }
            assert forall|k: int| 0 <= k < gns.len() implies bounded3(
                (#[trigger] gns[k])@,
                MAX_NORMAL as int,
            ) by {
                assert(mesh.indices@[k] < mesh.positions@.len());
                assert(bounded3(mesh.normals@[mesh.indices@[k] as int]@, MAX_NORMAL as int));
            }
        }
        let n_tris = dpos.len() / 3;
        let mut tris: Vec<(Vec3, Vec3, Vec3)> = Vec::new();
        let mut weights: Vec<u64> = Vec::new();
        let mut total: u128 = 0;
        let mut t: usize = 0;
        while t < n_tris
            invariant
                dpos@ == gps,
                dnorm@ == gns,
                gps.len() == gns.len(),
                gps.len() <= MAX_INDICES,
                n_tris == gps.len() as int / 3,
                thr == self.threshold as int,
                -FX_ONE <= self.threshold <= FX_ONE,
                forall|k: int|
                    0 <= k < gps.len() ==> bounded3((#[trigger] gps[k])@, MAX_COORD as int),
                forall|k: int|
                    0 <= k < gns.len() ==> bounded3((#[trigger] gns[k])@, MAX_NORMAL as int),
                t <= n_tris,
                tris@.len() == weights@.len(),
                tris@.len() == accepted_indices(gps, gns, thr, t as int).len(),
                forall|m: int|
                    0 <= m < tris@.len() ==> entry_ok(
                        #[trigger] tris@[m],
                        weights@[m],
                        gps,
                        accepted_indices(gps, gns, thr, t as int)[m],
                    ),
                forall|m: int|
                    0 <= m < weights@.len() ==> 1 <= (#[trigger] weights@[m])
                        <= 0x1000_0000_0000_0000,
                total == total_area(gps, gns, thr, t as int),
                total <= (t as int) * 0x1000_0000_0000_0000,
            decreases n_tris - t,
        {
            proof {
                vstd::arithmetic::div_mod::lemma_fundamental_div_mod(gps.len() as int, 3);
                vstd::arithmetic::mul::lemma_mul_nonnegative(t as int, 0x1000_0000_0000_0000);
                vstd::arithmetic::mul::lemma_mul_inequality(
                    t as int + 1,
                    0x4000_0000,
                    0x1000_0000_0000_0000,
                );
                vstd::arithmetic::mul::lemma_mul_is_distributive_add_other_way(
                    0x1000_0000_0000_0000,
                    t as int,
                    1,
                );
            }
            let i0 = 3 * t;
            let i1 = 3 * t + 1;
            let i2 = 3 * t + 2;
            let ghost old_tris = tris@;
            let ghost old_weights = weights@;
            let nsum = v_add(&v_add(&dnorm[i0], &dnorm[i1]), &dnorm[i2]);
            let nrm = normalize(&nsum);
            proof {
                assert(nrm@ == tri_normal(gns, t as int));
            }
            if nrm.y >= self.threshold {
                let e1 = v_sub(&dpos[i0], &dpos[i1]);
                let e2 = v_sub(&dpos[i0], &dpos[i2]);
                let cr = cross(&e1, &e2);
                let ls = len_sq(&cr);
                let area = isqrt_u128(ls);
                proof {
                    assert(cr@ == tri_cross(gps, t as int));
                    assert(area as int == tri_area(gps, t as int));
                    crate::fixed::lemma_sqrt_floor_bounds(ls as int);
                    lemma_mul_bound(cr@.0, cr@.0, 0x0800_0000_0000_0000, 0x0800_0000_0000_0000);
                    lemma_mul_bound(cr@.1, cr@.1, 0x0800_0000_0000_0000, 0x0800_0000_0000_0000);
                    lemma_mul_bound(cr@.2, cr@.2, 0x0800_0000_0000_0000, 0x0800_0000_0000_0000);
                    assert(area as int <= 0x1000_0000_0000_0000) by (nonlinear_arith)
                        requires
                            (area as int) * (area as int) <= ls as int,
                            (ls as int) <= 3 * (0x0800_0000_0000_0000 * 0x0800_0000_0000_0000),
                    ;
                }
                if area > 0 {
                    tris.push((dpos[i0], dpos[i1], dpos[i2]));
                    weights.push(area);
                    total = total + (area as u128);
                    proof {
                        assert(tri_accepted(gps, gns, thr, t as int));
                        assert(accepted_indices(gps, gns, thr, t as int + 1) == accepted_indices(
                            gps,
                            gns,
                            thr,
                            t as int,
                        ).push(t as int));
                        assert forall|m: int| 0 <= m < tris@.len() implies entry_ok(
                            #[trigger] tris@[m],
                            weights@[m],
                            gps,
                            accepted_indices(gps, gns, thr, t as int + 1)[m],
                        ) by {
                            if m < old_tris.len() {
                                assert(tris@[m] == old_tris[m]);
                                assert(weights@[m] == old_weights[m]);
                                assert(accepted_indices(gps, gns, thr, t as int + 1)[m]
                                    == accepted_indices(gps, gns, thr, t as int)[m]);
                                assert(entry_ok(
                                    old_tris[m],
                                    old_weights[m],
                                    gps,
                                    accepted_indices(gps, gns, thr, t as int)[m],
                                ));
                            }
                        }
                    }
                } else {
                    proof {
                        assert(!tri_accepted(gps, gns, thr, t as int));
                    }
                }
            } else {
                proof {
                    assert(tri_normal(gns, t as int).1 < thr);
                    assert(!tri_accepted(gps, gns, thr, t as int));
                }
            }
            t = t + 1;
        }
        let ghost n = n_tris as int;
        let ghost acc = accepted_indices(gps, gns, thr, n);
        if weights.len() == 0 {
            proof {
                lemma_total_area_nonneg(gps, gns, thr, n);
            }
            return Vec::new();
        }
        let n_acc = weights.len();
        proof {
            lemma_accepted_elems(gps, gns, thr, n);
            lemma_accepted_len_le(gps, gns, thr, n);
            vstd::arithmetic::div_mod::lemma_div_is_ordered(gps.len() as int, MAX_INDICES as int, 3);
        }
        // The largest area among the accepted triangles.
        let mut maxw: u64 = weights[0];
        let mut m: usize = 1;
        while m < n_acc
            invariant
                n_acc == weights@.len(),
                1 <= m <= n_acc,
                forall|q: int|
                    0 <= q < n_acc ==> 1 <= (#[trigger] weights@[q]) <= 0x1000_0000_0000_0000,
                forall|q: int| 0 <= q < m ==> (#[trigger] weights@[q]) <= maxw,
                exists|q: int| 0 <= q < m && (#[trigger] weights@[q]) == maxw,
                1 <= maxw <= 0x1000_0000_0000_0000,
            decreases n_acc - m,
        {
            if weights[m] > maxw {
                maxw = weights[m];
            }
            m = m + 1;
        }
        // A power-of-two divisor that brings every weight into the range
        // the alias distribution accepts for this many entries.
        let mut d: u64 = 1;
        while maxw / d > 0x7FFF_FFFF
            invariant
                1 <= maxw <= 0x1000_0000_0000_0000,
                1 <= d <= 0x4000_0000,
                d == 1 || (d % 2 == 0 && maxw as int / (d as int / 2) > 0x7FFF_FFFF),
            decreases maxw / d,
        {
            proof {
                vstd::arithmetic::div_mod::lemma_fundamental_div_mod(maxw as int, d as int);
                assert((d as int) * 0x8000_0000 <= maxw as int) by (nonlinear_arith)
                    requires
                        maxw as int == (d as int) * (maxw as int / (d as int)) + (maxw as int) % (
                        d as int),
                        maxw as int / (d as int) >= 0x8000_0000,
                        (maxw as int) % (d as int) >= 0,
                        d >= 1,
                ;
                assert(d as int <= 0x2000_0000) by (nonlinear_arith)
                    requires
                        (d as int) * 0x8000_0000 <= 0x1000_0000_0000_0000,
                        d >= 1,
                ;
                vstd::arithmetic::div_mod::lemma_div_denominator(maxw as int, d as int, 2);
            }
            d = d * 2;
        }
        proof {
            if d > 1 {
                vstd::arithmetic::div_mod::lemma_div_denominator(maxw as int, d as int / 2, 2);
                vstd::arithmetic::div_mod::lemma_div_is_ordered(
                    0x8000_0000,
                    maxw as int / (d as int / 2),
                    2,
                );
            }
            assert(maxw as int / (d as int) >= 1);
        }
        // Scale every weight by the common divisor.
        let mut shifted: Vec<u64> = Vec::new();
        let mut m2: usize = 0;
        while m2 < n_acc
            invariant
                n_acc == weights@.len(),
                m2 <= n_acc,
                1 <= d,
                forall|q: int|
                    0 <= q < n_acc ==> 1 <= (#[trigger] weights@[q]) <= 0x1000_0000_0000_0000,
                shifted@.len() == m2,
                forall|q: int|
                    0 <= q < m2 ==> (#[trigger] shifted@[q]) as int == weights@[q] as int / (
                    d as int),
            decreases n_acc - m2,
        {
            shifted.push(weights[m2] / d);
            m2 = m2 + 1;
        }
        proof {
            // Every scaled weight fits the distribution's per-entry cap.
            assert forall|q: int| 0 <= q < n_acc implies (#[trigger] shifted@[q]) as int <= (
            u64::MAX as int) / (n_acc as int) by {
                vstd::arithmetic::div_mod::lemma_div_is_ordered(
                    weights@[q] as int,
                    maxw as int,
                    d as int,
                );
                vstd::arithmetic::div_mod::lemma_div_is_ordered_by_denominator(
                    u64::MAX as int,
                    n_acc as int,
                    0x4000_0000,
                );
            }
            // And their sum is positive: the largest weight scales to at
            // least one.
            let qm = choose|q: int| 0 <= q < n_acc && (#[trigger] weights@[q]) == maxw;
            assert(shifted@[qm] as int == maxw as int / (d as int));
            crate::randomness::lemma_seq_sum_ge_elem(shifted@, qm);
        }
        proof {
            vstd::arithmetic::mul::lemma_mul_inequality(
                n,
                0x4000_0000,
                0x1000_0000_0000_0000,
            );
            lemma_mul_bound(
                total as int,
                self.density as int,
                0x4000_0000_0000_0000_0000_0000int,
                MAX_DENSITY as int,
            );
        }
        let count: u128 = (total * (self.density as u128)) / 0x1_0000_0000_0000;
        proof {
            assert(count == sample_count(total_area(gps, gns, thr, n), self.density as int));
        }
        let dist_opt = alias_new(&shifted);
        let dist = match dist_opt {
            Some(dx) => dx,
            None => {
                proof {
                    assert(false);
                }
                return Vec::new();
            },
        };
        let mut pts: Vec<Vec3> = Vec::new();
        let mut c: u128 = 0;
        while c < count
            invariant
                alias_weights(dist) == shifted@,
                shifted@.len() == weights@.len(),
                weights@.len() == tris@.len(),
                1 <= weights@.len(),
                tris@.len() == acc.len(),
                acc == accepted_indices(gps, gns, thr, n),
                n == gps.len() as int / 3,
                thr == self.threshold as int,
                forall|k: int|
                    0 <= k < gps.len() ==> bounded3((#[trigger] gps[k])@, MAX_COORD as int),
                forall|m2: int|
                    0 <= m2 < tris@.len() ==> entry_ok(
                        #[trigger] tris@[m2],
                        weights@[m2],
                        gps,
                        acc[m2],
                    ),
                forall|m2: int|
                    0 <= m2 < acc.len() ==> {
                        let ti = #[trigger] acc[m2];
                        0 <= ti < n && tri_accepted(gps, gns, thr, ti)
                    },
                pts@.len() == c,
                c <= count,
                forall|k: int|
                    0 <= k < pts@.len() ==> in_some_accepted(#[trigger] pts@[k], gps, gns, thr),
            decreases count - c,
        {
            let idx = alias_sample(&dist);
            let tri = tris[idx];
            proof {
                let ti = acc[idx as int];
                assert(entry_ok(tris@[idx as int], weights@[idx as int], gps, ti));
                vstd::arithmetic::div_mod::lemma_fundamental_div_mod(gps.len() as int, 3);
                assert(bounded3(gps[3 * ti]@, MAX_COORD as int));
                assert(bounded3(gps[3 * ti + 1]@, MAX_COORD as int));
                assert(bounded3(gps[3 * ti + 2]@, MAX_COORD as int));
            }
            let p = self.sample_triangle(&tri.0, &tri.1, &tri.2);
            proof {
                let ti = acc[idx as int];
                assert(tri_accepted(gps, gns, thr, ti));
                assert(in_triangle(p@, gps[3 * ti]@, gps[3 * ti + 1]@, gps[3 * ti + 2]@));
                assert(in_some_accepted(p, gps, gns, thr));
            }
            pts.push(p);
            c = c + 1;
        }
        pts
    }

    fn sample_tri_strip(&self, mesh: &Mesh) -> (pts: Vec<Vec3>) {
        Vec::new()
    }

    fn sample(&self, mesh: &Mesh) -> (pts: Vec<Vec3>) {
        match mesh.topology {
            Topology::PointList => Vec::new(),
            Topology::LineList => Vec::new(),
            Topology::LineStrip => Vec::new(),
            Topology::TriangleList => self.sample_tri_list(mesh),
            Topology::TriangleStrip => self.sample_tri_strip(mesh),
        }
    }
}

} // verus!
