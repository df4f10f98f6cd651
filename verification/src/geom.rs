//! Three-component fixed-point vectors.
//!
//! Exec code works on `Vec3` (three `i64` fixed-point coordinates); the
//! specification view of a `Vec3` is a triple of unbounded integers, so every
//! contract is stated over plain integer triples.

use vstd::prelude::*;

use crate::fixed::{sqrt_floor, FX_ONE};

verus! {

/// A vector of three fixed-point coordinates.
#[derive(Clone, Copy, Debug, PartialEq, Eq, Structural)]
pub struct Vec3 {
    pub x: i64,
    pub y: i64,
    pub z: i64,
}

/// A pair of fixed-point texture coordinates.
#[derive(Clone, Copy, Debug, PartialEq, Eq, Structural)]
pub struct Vec2 {
    pub u: i64,
    pub v: i64,
}

/// The specification view of a vector: a triple of unbounded integers.
pub type V3 = (int, int, int);

impl View for Vec3 {
    type V = V3;

    open spec fn view(&self) -> V3 {
        (self.x as int, self.y as int, self.z as int)
    }
}

impl View for Vec2 {
    type V = (int, int);

    open spec fn view(&self) -> (int, int) {
        (self.u as int, self.v as int)
    }
}

/// Every component has magnitude at most `m`.
pub open spec fn bounded3(t: V3, m: int) -> bool {
    &&& -m <= t.0 <= m
    &&& -m <= t.1 <= m
    &&& -m <= t.2 <= m
}

pub open spec fn sub_s(a: V3, b: V3) -> V3 {
    (a.0 - b.0, a.1 - b.1, a.2 - b.2)
}

pub open spec fn add_s(a: V3, b: V3) -> V3 {
    (a.0 + b.0, a.1 + b.1, a.2 + b.2)
}

pub open spec fn cross_s(a: V3, b: V3) -> V3 {
    (a.1 * b.2 - a.2 * b.1, a.2 * b.0 - a.0 * b.2, a.0 * b.1 - a.1 * b.0)
}

pub open spec fn len_sq_s(a: V3) -> int {
    a.0 * a.0 + a.1 * a.1 + a.2 * a.2
}

/// `c/l` in fixed point, magnitude rounded down.
pub open spec fn scale_div(c: int, l: int) -> int {
    if c >= 0 {
        (c * (FX_ONE as int)) / l
    } else {
        -(((-c) * (FX_ONE as int)) / l)
    }
}

/// The unit vector along `a`, in fixed point, each component's magnitude
/// rounded down; the zero vector normalizes to the zero vector.
pub open spec fn normalize_s(a: V3) -> V3 {
    let l = sqrt_floor(len_sq_s(a));
    if l == 0 {
        (0, 0, 0)
    } else {
        (scale_div(a.0, l), scale_div(a.1, l), scale_div(a.2, l))
    }
}

/// A product with a zero factor is zero.
pub proof fn lemma_mul_zero(a: int, b: int)
    by (nonlinear_arith)
    requires
        a == 0 || b == 0,
    ensures
        a * b == 0,
{
}

/// `|a * b| <= m * n` for `|a| <= m`, `|b| <= n`.
pub proof fn lemma_mul_bound(a: int, b: int, m: int, n: int)
    by (nonlinear_arith)
    requires
        -m <= a <= m,
        -n <= b <= n,
    ensures
        -(m * n) <= a * b <= m * n,
{
}

pub fn v_sub(a: &Vec3, b: &Vec3) -> (r: Vec3)
    requires
        bounded3(a@, 0x2000_0000_0000_0000),
        bounded3(b@, 0x2000_0000_0000_0000),
    ensures
        r@ == sub_s(a@, b@),
{
    Vec3 { x: a.x - b.x, y: a.y - b.y, z: a.z - b.z }
}

pub fn v_add(a: &Vec3, b: &Vec3) -> (r: Vec3)
    requires
        bounded3(a@, 0x2000_0000_0000_0000),
        bounded3(b@, 0x2000_0000_0000_0000),
    ensures
        r@ == add_s(a@, b@),
{
    Vec3 { x: a.x + b.x, y: a.y + b.y, z: a.z + b.z }
}

pub fn cross(a: &Vec3, b: &Vec3) -> (r: Vec3)
    requires
        bounded3(a@, 0x2000_0000),
        bounded3(b@, 0x2000_0000),
    ensures
        r@ == cross_s(a@, b@),
        bounded3(r@, 0x0800_0000_0000_0000),
{
    proof {
        lemma_mul_bound(a.y as int, b.z as int, 0x2000_0000, 0x2000_0000);
        lemma_mul_bound(a.z as int, b.y as int, 0x2000_0000, 0x2000_0000);
        lemma_mul_bound(a.z as int, b.x as int, 0x2000_0000, 0x2000_0000);
        lemma_mul_bound(a.x as int, b.z as int, 0x2000_0000, 0x2000_0000);
        lemma_mul_bound(a.x as int, b.y as int, 0x2000_0000, 0x2000_0000);
        lemma_mul_bound(a.y as int, b.x as int, 0x2000_0000, 0x2000_0000);
    }
    Vec3 { x: a.y * b.z - a.z * b.y, y: a.z * b.x - a.x * b.z, z: a.x * b.y - a.y * b.x }
}

pub fn len_sq(a: &Vec3) -> (r: u128)
    requires
        bounded3(a@, 0x2000_0000_0000_0000),
    ensures
        r == len_sq_s(a@),
{
    proof {
        lemma_mul_bound(a.x as int, a.x as int, 0x2000_0000_0000_0000, 0x2000_0000_0000_0000);
        lemma_mul_bound(a.y as int, a.y as int, 0x2000_0000_0000_0000, 0x2000_0000_0000_0000);
        lemma_mul_bound(a.z as int, a.z as int, 0x2000_0000_0000_0000, 0x2000_0000_0000_0000);
        assert((a.x as int) * (a.x as int) >= 0) by (nonlinear_arith);
        assert((a.y as int) * (a.y as int) >= 0) by (nonlinear_arith);
        assert((a.z as int) * (a.z as int) >= 0) by (nonlinear_arith);
    }
    let xx: u128 = ((a.x as i128) * (a.x as i128)) as u128;
    let yy: u128 = ((a.y as i128) * (a.y as i128)) as u128;
    let zz: u128 = ((a.z as i128) * (a.z as i128)) as u128;
    xx + yy + zz
}

fn scale_div_exec(c: i64, l: u64) -> (r: i64)
    requires
        1 <= l <= 0x4000_0000_0000_0000,
        -(l as int) <= c <= l as int,
    ensures
        r == scale_div(c as int, l as int),
        -(FX_ONE as int) <= r <= FX_ONE as int,
{
    proof {
        lemma_mul_bound(c as int, FX_ONE as int, l as int, FX_ONE as int);
        vstd::arithmetic::mul::lemma_mul_is_commutative(l as int, FX_ONE as int);
        vstd::arithmetic::div_mod::lemma_div_multiples_vanish(FX_ONE as int, l as int);
    }
    if c >= 0 {
        let m: u128 = (c as u128) * 65536;
        proof {
            vstd::arithmetic::div_mod::lemma_div_is_ordered(
                m as int,
                (l as int) * (FX_ONE as int),
                l as int,
            );
            vstd::arithmetic::div_mod::lemma_div_pos_is_pos(m as int, l as int);
        }
        (m / (l as u128)) as i64
    } else {
        let m: u128 = ((-c) as u128) * 65536;
        proof {
            vstd::arithmetic::div_mod::lemma_div_is_ordered(
                m as int,
                (l as int) * (FX_ONE as int),
                l as int,
            );
            vstd::arithmetic::div_mod::lemma_div_pos_is_pos(m as int, l as int);
        }
        -((m / (l as u128)) as i64)
    }
}

/// Fixed-point normalization; the zero vector stays the zero vector.
pub fn normalize(a: &Vec3) -> (r: Vec3)
    requires
        bounded3(a@, 0x2000_0000_0000_0000),
    ensures
        r@ == normalize_s(a@),
        bounded3(r@, FX_ONE as int),
{
    let ls = len_sq(a);
    let l = crate::fixed::isqrt_u128(ls);
    if l == 0 {
        Vec3 { x: 0, y: 0, z: 0 }
    } else {
        proof {
            crate::fixed::lemma_sqrt_floor_bounds(ls as int);
            lemma_mul_bound(a.x as int, a.x as int, 0x2000_0000_0000_0000, 0x2000_0000_0000_0000);
            lemma_mul_bound(a.y as int, a.y as int, 0x2000_0000_0000_0000, 0x2000_0000_0000_0000);
            lemma_mul_bound(a.z as int, a.z as int, 0x2000_0000_0000_0000, 0x2000_0000_0000_0000);
            assert(l as int <= 0x4000_0000_0000_0000) by (nonlinear_arith)
                requires
                    (l as int) * (l as int) <= (ls as int),
                    (ls as int) < 0x1000_0000_0000_0000_0000_0000_0000_0000,
            ;
            assert(-(l as int) <= a.x as int <= l as int && -(l as int) <= a.y as int <= l as int
                && -(l as int) <= a.z as int <= l as int) by (nonlinear_arith)
                requires
                    (a.x as int) * (a.x as int) + (a.y as int) * (a.y as int) + (a.z as int) * (
                    a.z as int) <= (ls as int),
                    (ls as int) < ((l as int) + 1) * ((l as int) + 1),
                    l >= 1,
            ;
        }
        Vec3 {
            x: scale_div_exec(a.x, l),
            y: scale_div_exec(a.y, l),
            z: scale_div_exec(a.z, l),
        }
    }
}

} // verus!
