//! Library-wide laws: properties that relate several functions, stated and
//! proved over the same spec functions the functions' own contracts use.

use vstd::prelude::*;

use crate::fixed::{lemma_sqrt_floor_unique, sqrt_floor, FX_ONE};
use crate::geom::{lemma_mul_zero, len_sq_s, normalize_s, scale_div, V3};
use crate::mesh::Mesh;
use crate::sampling::{accepted_indices, expected_len, sample_count, total_area};
use crate::terrain::{
    config_error, generated, grid_index, grid_point, lattice_normal, MAX_SCALE,
};
use crate::geom::Vec3;

verus! {

/// With zero density, no points are asked for, whatever the mesh and
/// threshold: the expected sample count is zero.
pub proof fn lemma_zero_density_samples_nothing(ps: Seq<Vec3>, ns: Seq<Vec3>, threshold: int)
    ensures
        expected_len(ps, ns, threshold, 0) == 0,
{
    let n = ps.len() as int / 3;
    assert(total_area(ps, ns, threshold, n) * 0 == 0);
    assert(sample_count(total_area(ps, ns, threshold, n), 0) == 0);
}

/// Whenever at least one triangle survives slope filtering, the sampler
/// returns exactly `floor(total accepted area * density)` points.
pub proof fn lemma_sample_count_exact(ps: Seq<Vec3>, ns: Seq<Vec3>, threshold: int, density: int)
    requires
        accepted_indices(ps, ns, threshold, ps.len() as int / 3).len() >= 1,
    ensures
        expected_len(ps, ns, threshold, density) == sample_count(
            total_area(ps, ns, threshold, ps.len() as int / 3),
            density,
        ),
{
}

/// The zero vector normalizes to the zero vector, deterministically.
pub proof fn lemma_normalize_zero()
    ensures
        normalize_s((0int, 0int, 0int)) == (0int, 0int, 0int),
{
    assert(len_sq_s((0int, 0int, 0int)) == 0);
}

/// Normalization yields a unit vector: for any input of at least unit
/// length, the squared length of the normalized vector differs from one
/// (`FX_ONE * FX_ONE` in fixed point) by at most a few rounding steps,
/// a relative error below 2^-12.
#[verifier::rlimit(100)]
pub proof fn lemma_normalize_unit_length(v: V3)
    requires
        len_sq_s(v) >= (FX_ONE as int) * (FX_ONE as int),
    ensures
        (FX_ONE as int) * (FX_ONE as int) - 6 * (FX_ONE as int) - 3 < len_sq_s(normalize_s(v)),
        len_sq_s(normalize_s(v)) <= (FX_ONE as int) * (FX_ONE as int) + 2 * (FX_ONE as int) + 1,
{
    let f = FX_ONE as int;
    let ls = len_sq_s(v);
    let l = sqrt_floor(ls);
    crate::fixed::lemma_sqrt_floor_bounds(ls);
    assert(l >= f) by (nonlinear_arith)
        requires
            l >= 0,
            ls < (l + 1) * (l + 1),
            ls >= f * f,
            f == 65536,
    ;
    let a0 = if v.0 >= 0 {
        v.0
    } else {
        -v.0
    };
    let a1 = if v.1 >= 0 {
        v.1
    } else {
        -v.1
    };
    let a2 = if v.2 >= 0 {
        v.2
    } else {
        -v.2
    };
    assert(a0 * a0 == v.0 * v.0 && a1 * a1 == v.1 * v.1 && a2 * a2 == v.2 * v.2)
        by (nonlinear_arith)
        requires
            a0 == v.0 || a0 == -v.0,
            a1 == v.1 || a1 == -v.1,
            a2 == v.2 || a2 == -v.2,
    ;
    assert(ls == a0 * a0 + a1 * a1 + a2 * a2);
    assert(a0 <= l && a1 <= l && a2 <= l) by (nonlinear_arith)
        requires
            a0 >= 0,
            a1 >= 0,
            a2 >= 0,
            l >= 0,
            a0 * a0 + a1 * a1 + a2 * a2 < (l + 1) * (l + 1),
    ;
    let q0 = (a0 * f) / l;
    let q1 = (a1 * f) / l;
    let q2 = (a2 * f) / l;
    vstd::arithmetic::mul::lemma_mul_nonnegative(a0, f);
    vstd::arithmetic::mul::lemma_mul_nonnegative(a1, f);
    vstd::arithmetic::mul::lemma_mul_nonnegative(a2, f);
    vstd::arithmetic::div_mod::lemma_fundamental_div_mod(a0 * f, l);
    vstd::arithmetic::div_mod::lemma_fundamental_div_mod(a1 * f, l);
    vstd::arithmetic::div_mod::lemma_fundamental_div_mod(a2 * f, l);
    vstd::arithmetic::div_mod::lemma_mod_bound(a0 * f, l);
    vstd::arithmetic::div_mod::lemma_mod_bound(a1 * f, l);
    vstd::arithmetic::div_mod::lemma_mod_bound(a2 * f, l);
    vstd::arithmetic::div_mod::lemma_div_pos_is_pos(a0 * f, l);
    vstd::arithmetic::div_mod::lemma_div_pos_is_pos(a1 * f, l);
    vstd::arithmetic::div_mod::lemma_div_pos_is_pos(a2 * f, l);
    assert(l * q0 <= a0 * f && a0 * f < l * q0 + l) by (nonlinear_arith)
        requires
            a0 * f == l * q0 + (a0 * f) % l,
            0 <= (a0 * f) % l < l,
    ;
    assert(l * q1 <= a1 * f && a1 * f < l * q1 + l) by (nonlinear_arith)
        requires
            a1 * f == l * q1 + (a1 * f) % l,
            0 <= (a1 * f) % l < l,
    ;
    assert(l * q2 <= a2 * f && a2 * f < l * q2 + l) by (nonlinear_arith)
        requires
            a2 * f == l * q2 + (a2 * f) % l,
            0 <= (a2 * f) % l < l,
    ;
    assert(q0 <= f && q1 <= f && q2 <= f) by (nonlinear_arith)
        requires
            l * q0 <= a0 * f,
            l * q1 <= a1 * f,
            l * q2 <= a2 * f,
            a0 <= l,
            a1 <= l,
            a2 <= l,
            f >= 0,
            l >= 1,
    ;
    let r = normalize_s(v);
    assert(r.0 == scale_div(v.0, l) && r.1 == scale_div(v.1, l) && r.2 == scale_div(v.2, l));
    assert(r.0 == q0 || r.0 == -q0);
    assert(r.1 == q1 || r.1 == -q1);
    assert(r.2 == q2 || r.2 == -q2);
    let sq = q0 * q0 + q1 * q1 + q2 * q2;
    assert(len_sq_s(r) == sq) by (nonlinear_arith)
        requires
            r.0 == q0 || r.0 == -q0,
            r.1 == q1 || r.1 == -q1,
            r.2 == q2 || r.2 == -q2,
            sq == q0 * q0 + q1 * q1 + q2 * q2,
            len_sq_s(r) == r.0 * r.0 + r.1 * r.1 + r.2 * r.2,
    ;
    assert((l * l) * (q0 * q0) <= (a0 * a0) * (f * f)) by (nonlinear_arith)
        requires
            0 <= l * q0,
            l * q0 <= a0 * f,
            q0 >= 0,
            l >= 1,
    ;
    assert((l * l) * (q1 * q1) <= (a1 * a1) * (f * f)) by (nonlinear_arith)
        requires
            0 <= l * q1,
            l * q1 <= a1 * f,
            q1 >= 0,
            l >= 1,
    ;
    assert((l * l) * (q2 * q2) <= (a2 * a2) * (f * f)) by (nonlinear_arith)
        requires
            0 <= l * q2,
            l * q2 <= a2 * f,
            q2 >= 0,
            l >= 1,
    ;
    assert((l * l) * sq <= ls * (f * f)) by (nonlinear_arith)
        requires
            (l * l) * (q0 * q0) <= (a0 * a0) * (f * f),
            (l * l) * (q1 * q1) <= (a1 * a1) * (f * f),
            (l * l) * (q2 * q2) <= (a2 * a2) * (f * f),
            ls == a0 * a0 + a1 * a1 + a2 * a2,
            sq == q0 * q0 + q1 * q1 + q2 * q2,
    ;
    assert(sq <= f * f + 2 * f + 1) by (nonlinear_arith)
        requires
            (l * l) * sq <= ls * (f * f),
            ls < (l + 1) * (l + 1),
            l >= f,
            f == 65536,
            sq >= 0,
    ;
    assert((a0 * a0) * (f * f) < (l * l) * (q0 * q0) + (l * l) * (2 * q0) + (l * l))
        by (nonlinear_arith)
        requires
            0 <= a0 * f,
            a0 * f < l * q0 + l,
            q0 >= 0,
            l >= 1,
    ;
    assert((a1 * a1) * (f * f) < (l * l) * (q1 * q1) + (l * l) * (2 * q1) + (l * l))
        by (nonlinear_arith)
        requires
            0 <= a1 * f,
            a1 * f < l * q1 + l,
            q1 >= 0,
            l >= 1,
    ;
    assert((a2 * a2) * (f * f) < (l * l) * (q2 * q2) + (l * l) * (2 * q2) + (l * l))
        by (nonlinear_arith)
        requires
            0 <= a2 * f,
            a2 * f < l * q2 + l,
            q2 >= 0,
            l >= 1,
    ;
    assert(ls * (f * f) < (sq + 2 * (q0 + q1 + q2) + 3) * (l * l)) by (nonlinear_arith)
        requires
            (a0 * a0) * (f * f) < (l * l) * (q0 * q0) + (l * l) * (2 * q0) + (l * l),
            (a1 * a1) * (f * f) < (l * l) * (q1 * q1) + (l * l) * (2 * q1) + (l * l),
            (a2 * a2) * (f * f) < (l * l) * (q2 * q2) + (l * l) * (2 * q2) + (l * l),
            ls == a0 * a0 + a1 * a1 + a2 * a2,
            sq == q0 * q0 + q1 * q1 + q2 * q2,
    ;
    assert(sq > f * f - 6 * f - 3) by (nonlinear_arith)
        requires
            ls * (f * f) < (sq + 2 * (q0 + q1 + q2) + 3) * (l * l),
            ls >= l * l,
            q0 <= f,
            q1 <= f,
            q2 <= f,
            l >= 1,
            f == 65536,
    ;
}

/// On a flat height field (all noise samples equal), the averaged normal
/// of every lattice point is exactly the fixed-point unit up vector.
pub proof fn lemma_flat_lattice_normal(
    width: int,
    height: int,
    cell_scale: int,
    noise: Seq<i64>,
    c: i64,
    x: int,
    y: int,
)
    requires
        1 <= width,
        1 <= height,
        0 < cell_scale <= MAX_SCALE,
        noise.len() == (width + 1) * (height + 1),
        forall|k: int| 0 <= k < noise.len() ==> #[trigger] noise[k] == c,
        0 <= x <= width,
        0 <= y <= height,
    ensures
        lattice_normal(width, height, cell_scale, noise, x, y) == (0int, FX_ONE as int, 0int),
{
    let s = cell_scale;
    let s2 = s * s;
    assert(s2 > 0) by (nonlinear_arith)
        requires
            s > 0,
            s2 == s * s,
    ;
    let cn = c as int;
    let p = grid_point(x, y, s, cn);
    // All lattice indices this normal reads are inside the noise grid, so
    // every height it sees is the same sample `c`.
    assert forall|a: int, b: int| 0 <= a <= width && 0 <= b <= height implies 0 <= #[trigger]
    grid_index(a, b, height) < noise.len() by {
        assert(0 <= a * (height + 1) + b < (width + 1) * (height + 1)) by (nonlinear_arith)
            requires
                0 <= a <= width,
                0 <= b <= height,
        ;
    }
    // Every neighbor offset is an axis step of length s or zero at the
    // boundary: the y components cancel because all heights are equal.
    assert((x - 1) * s - x * s == -s && (x + 1) * s - x * s == s && (y - 1) * s - y * s == -s && (y
        + 1) * s - y * s == s) by (nonlinear_arith);
    let left: V3 = if x > 0 {
        (-s, 0int, 0int)
    } else {
        (0int, 0int, 0int)
    };
    let right: V3 = if x < width {
        (s, 0int, 0int)
    } else {
        (0int, 0int, 0int)
    };
    let up: V3 = if y > 0 {
        (0int, 0int, -s)
    } else {
        (0int, 0int, 0int)
    };
    let down: V3 = if y < height {
        (0int, 0int, s)
    } else {
        (0int, 0int, 0int)
    };
    if x > 0 {
        assert(crate::geom::sub_s(
            grid_point(x - 1, y, s, noise[grid_index(x - 1, y, height)] as int),
            p,
        ) == left);
    }
    if x < width {
        assert(crate::geom::sub_s(
            grid_point(x + 1, y, s, noise[grid_index(x + 1, y, height)] as int),
            p,
        ) == right);
    }
    if y > 0 {
        assert(crate::geom::sub_s(
            grid_point(x, y - 1, s, noise[grid_index(x, y - 1, height)] as int),
            p,
        ) == up);
    }
    if y < height {
        assert(crate::geom::sub_s(
            grid_point(x, y + 1, s, noise[grid_index(x, y + 1, height)] as int),
            p,
        ) == down);
    }
    assert((-s) * s == -s2 && s * (-s) == -s2 && (-s) * (-s) == s2 && s * s == s2)
        by (nonlinear_arith)
        requires
            s2 == s * s,
    ;
    let c1 = crate::geom::cross_s(left, down);
    let c2 = crate::geom::cross_s(down, right);
    let c3 = crate::geom::cross_s(right, up);
    let c4 = crate::geom::cross_s(up, left);
    if x > 0 && y < height {
        assert(left.0 * down.2 == -s2) by (nonlinear_arith)
            requires
                left.0 == -s,
                down.2 == s,
                s2 == s * s,
        ;
        lemma_mul_zero(left.1, down.2);
        lemma_mul_zero(left.2, down.1);
        lemma_mul_zero(left.2, down.0);
        lemma_mul_zero(left.0, down.1);
        lemma_mul_zero(left.1, down.0);
        assert(c1 == (0int, s2, 0int));
    } else {
        assert(c1 == (0int, 0int, 0int));
    }
    if y < height && x < width {
        assert(down.2 * right.0 == s2) by (nonlinear_arith)
            requires
                down.2 == s,
                right.0 == s,
                s2 == s * s,
        ;
        lemma_mul_zero(down.1, right.2);
        lemma_mul_zero(down.2, right.1);
        lemma_mul_zero(down.0, right.2);
        lemma_mul_zero(down.0, right.1);
        lemma_mul_zero(down.1, right.0);
        assert(c2 == (0int, s2, 0int));
    } else {
        assert(c2 == (0int, 0int, 0int));
    }
    if x < width && y > 0 {
        assert(right.0 * up.2 == -s2) by (nonlinear_arith)
            requires
                right.0 == s,
                up.2 == -s,
                s2 == s * s,
        ;
        lemma_mul_zero(right.1, up.2);
        lemma_mul_zero(right.2, up.1);
        lemma_mul_zero(right.2, up.0);
        lemma_mul_zero(right.0, up.1);
        lemma_mul_zero(right.1, up.0);
        assert(c3 == (0int, s2, 0int));
    } else {
        assert(c3 == (0int, 0int, 0int));
    }
    if y > 0 && x > 0 {
        assert(up.2 * left.0 == s2) by (nonlinear_arith)
            requires
                up.2 == -s,
                left.0 == -s,
                s2 == s * s,
        ;
        lemma_mul_zero(up.1, left.2);
        lemma_mul_zero(up.2, left.1);
        lemma_mul_zero(up.0, left.2);
        lemma_mul_zero(up.0, left.1);
        lemma_mul_zero(up.1, left.0);
        assert(c4 == (0int, s2, 0int));
    } else {
        assert(c4 == (0int, 0int, 0int));
    }
    let sum = crate::geom::add_s(
        crate::geom::add_s(c1, c2),
        crate::geom::add_s(c3, c4),
    );
    assert(sum.0 == 0 && sum.2 == 0);
    assert(sum.1 >= s2) by {
        if x > 0 {
            if y > 0 {
                assert(c4.1 == s2);
            } else {
                assert(c1.1 == s2);
            }
        } else {
            if y > 0 {
                assert(c3.1 == s2);
            } else {
                assert(c2.1 == s2);
            }
        }
    }
    let e = sum.1;
    assert(len_sq_s(sum) == e * e);
    assert(e * e >= 0 && e * e < (e + 1) * (e + 1)) by (nonlinear_arith)
        requires
            e > 0,
    ;
    lemma_sqrt_floor_unique(e * e, e);
    assert(sqrt_floor(len_sq_s(sum)) == e);
    assert(scale_div(0, e) == 0) by {
        vstd::arithmetic::div_mod::lemma_basic_div(0, e);
    }
    assert(scale_div(e, e) == FX_ONE as int) by {
        vstd::arithmetic::div_mod::lemma_div_multiples_vanish(FX_ONE as int, e);
        assert(e * (FX_ONE as int) == (FX_ONE as int) * e) by (nonlinear_arith);
    }
    assert(normalize_s(sum) == (0int, FX_ONE as int, 0int));
    assert(lattice_normal(width, height, cell_scale, noise, x, y) == normalize_s(sum));
}

/// On a flat height field, every normal of the generated mesh is exactly
/// the fixed-point unit up vector.
pub proof fn lemma_flat_mesh_normals(
    m: Mesh,
    width: int,
    height: int,
    cell_scale: int,
    tex_scale: int,
    noise: Seq<i64>,
    c: i64,
)
    requires
        config_error(width, height, cell_scale, tex_scale, noise) is None,
        generated(m, width, height, cell_scale, tex_scale, noise),
        forall|k: int| 0 <= k < noise.len() ==> #[trigger] noise[k] == c,
    ensures
        forall|k: int|
            0 <= k < m.normals@.len() ==> (#[trigger] m.normals@[k])@ == (
                0int,
                FX_ONE as int,
                0int,
            ),
{
    assert forall|k: int| 0 <= k < m.normals@.len() implies (#[trigger] m.normals@[k])@ == (
        0int,
        FX_ONE as int,
        0int,
    ) by {
        let q = k / 4;
        let r = k % 4;
        vstd::arithmetic::div_mod::lemma_fundamental_div_mod(k, 4);
        vstd::arithmetic::div_mod::lemma_mod_bound(k, 4);
        vstd::arithmetic::div_mod::lemma_div_pos_is_pos(k, 4);
        let i = q / height;
        let j = q % height;
        vstd::arithmetic::div_mod::lemma_fundamental_div_mod(q, height);
        vstd::arithmetic::div_mod::lemma_mod_bound(q, height);
        vstd::arithmetic::div_mod::lemma_div_pos_is_pos(q, height);
        assert(q < width * height) by (nonlinear_arith)
            requires
                4 * q + r == k,
                k < 4 * (width * height),
                0 <= r < 4,
        ;
        assert(i < width) by (nonlinear_arith)
            requires
                q == height * i + j,
                0 <= j < height,
                q < width * height,
                0 <= i,
        ;
        assert(crate::terrain::cell_ok(
            m.positions@,
            m.normals@,
            m.uvs@,
            m.indices@,
            width,
            height,
            cell_scale,
            tex_scale,
            noise,
            i,
            j,
        ));
        assert(q == i * height + j) by (nonlinear_arith)
            requires
                q == height * i + j,
        ;
        if r == 0 {
            lemma_flat_lattice_normal(width, height, cell_scale, noise, c, i, j);
        } else if r == 1 {
            lemma_flat_lattice_normal(width, height, cell_scale, noise, c, i + 1, j);
        } else if r == 2 {
            lemma_flat_lattice_normal(width, height, cell_scale, noise, c, i + 1, j + 1);
        } else {
            lemma_flat_lattice_normal(width, height, cell_scale, noise, c, i, j + 1);
        }
    }
}

} // verus!
